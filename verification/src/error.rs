//! What can go wrong with a command, and the line that reports it.

use crate::number::NumberError;
use vstd::prelude::*;
use vstd::string::StringExecFns;

verus! {

/// Why a command was not carried out.
#[derive(Debug, PartialEq, Eq)]
pub enum ShellError {
    /// The argument of `exit` is no 32-bit signed integer.
    ExitCode(NumberError),
    /// `type` was given no name.
    MissingArgument,
    /// `cd ~` without a home directory.
    HomeNotSet,
    /// The working directory could not be changed to `dir`.
    NoSuchDirectory { dir: String },
    /// `name` is no builtin and no directory of the search path holds it.
    NotFound { name: String },
    /// The operating system refused; `message` holds its own words.
    System { message: String },
}

/// A `ShellError` with its strings as sequences of characters.
pub enum ShellErrorView {
    ExitCode(NumberError),
    MissingArgument,
    HomeNotSet,
    NoSuchDirectory { dir: Seq<char> },
    NotFound { name: Seq<char> },
    System { message: Seq<char> },
}

impl View for ShellError {
    type V = ShellErrorView;

    open spec fn view(&self) -> ShellErrorView {
        match self {
            ShellError::ExitCode(reason) => ShellErrorView::ExitCode(*reason),
            ShellError::MissingArgument => ShellErrorView::MissingArgument,
            ShellError::HomeNotSet => ShellErrorView::HomeNotSet,
            ShellError::NoSuchDirectory { dir } => ShellErrorView::NoSuchDirectory { dir: dir@ },
            ShellError::NotFound { name } => ShellErrorView::NotFound { name: name@ },
            ShellError::System { message } => ShellErrorView::System { message: message@ },
        }
    }
}

/// The words for a number that could not be read.
pub open spec fn number_message(reason: NumberError) -> Seq<char> {
    match reason {
        NumberError::Empty => "cannot parse integer from empty string"@,
        NumberError::InvalidDigit => "invalid digit found in string"@,
        NumberError::TooLarge => "number too large to fit in target type"@,
        NumberError::TooSmall => "number too small to fit in target type"@,
    }
}

impl ShellErrorView {
    /// The line that reports the error.
    pub open spec fn message(self) -> Seq<char> {
        match self {
            ShellErrorView::ExitCode(reason) => number_message(reason),
            ShellErrorView::MissingArgument => "type: missing argument"@,
            ShellErrorView::HomeNotSet => "HOME not set"@,
            ShellErrorView::NoSuchDirectory { dir } => "cd: "@ + dir
                + ": No such file or directory"@,
            ShellErrorView::NotFound { name } => name + ": not found"@,
            ShellErrorView::System { message } => message,
        }
    }
}

impl ShellError {
    /// The line that reports the error, without a line end.
    pub fn message(&self) -> (text: String)
        ensures
            text@ == self@.message(),
    {
        match self {
            ShellError::ExitCode(reason) => {
                match reason {
                    NumberError::Empty => String::from_str(
                        "cannot parse integer from empty string",
                    ),
                    NumberError::InvalidDigit => String::from_str("invalid digit found in string"),
                    NumberError::TooLarge => String::from_str(
                        "number too large to fit in target type",
                    ),
                    NumberError::TooSmall => String::from_str(
                        "number too small to fit in target type",
                    ),
                }
            },
            ShellError::MissingArgument => String::from_str("type: missing argument"),
            ShellError::HomeNotSet => String::from_str("HOME not set"),
            ShellError::NoSuchDirectory { dir } => {
                let mut text = String::from_str("cd: ");
                text.append(dir.as_str());
                text.append(": No such file or directory");
                text
            },
            ShellError::NotFound { name } => {
                let mut text = name.clone();
                text.append(": not found");
                text
            },
            ShellError::System { message } => message.clone(),
        }
    }
}

} // verus!
