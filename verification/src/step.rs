//! The steps of carrying out a command.
//!
//! A command is carried out in steps. A step either ends the command or asks
//! the caller for one piece of work on the operating system: to change the
//! working directory, to name it, to look whether a file exists, to run a
//! program. The caller does the work and hands the answer to the step's
//! `reply`, which gives the next step. Nothing here touches the system.

use crate::error::ShellError;
use crate::error::ShellErrorView;
use crate::path::candidate;
use crate::path::SearchPath;
use crate::text::views;
use vstd::prelude::*;
use vstd::string::StringExecFns;

verus! {

/// What a name is looked up for.
#[derive(Debug, PartialEq, Eq)]
pub enum Goal {
    /// To say where it is.
    Describe,
    /// To run it with these arguments.
    Launch { args: Vec<String> },
}

/// Asks whether the file `path` exists. It is the candidate for `name` in
/// the directory at position `index` of the search path.
#[derive(Debug, PartialEq, Eq)]
pub struct Probe {
    pub name: String,
    pub index: usize,
    pub path: String,
    pub goal: Goal,
}

/// Asks to make `dir` the working directory.
#[derive(Debug, PartialEq, Eq)]
pub struct DirChange {
    pub dir: String,
}

/// Asks for the working directory.
#[derive(Debug, PartialEq, Eq)]
pub struct DirQuery {}

/// Asks to run the program at `path` with `args` and to wait for its end.
#[derive(Debug, PartialEq, Eq)]
pub struct Launch {
    pub path: String,
    pub args: Vec<String>,
}

/// Where a command stands.
#[derive(Debug, PartialEq, Eq)]
pub enum Step {
    /// The command succeeded. The text, if there is one, goes to standard
    /// output as it stands.
    Done(Option<String>),
    /// The command failed.
    Failed(ShellError),
    /// The interpreter is to end with this exit code.
    Exit(i32),
    ChangeDir(DirChange),
    CurrentDir(DirQuery),
    Probe(Probe),
    Spawn(Launch),
}

pub enum GoalView {
    Describe,
    Launch { args: Seq<Seq<char>> },
}

pub struct ProbeView {
    pub name: Seq<char>,
    pub index: nat,
    pub path: Seq<char>,
    pub goal: GoalView,
}

pub struct DirChangeView {
    pub dir: Seq<char>,
}

pub struct LaunchView {
    pub path: Seq<char>,
    pub args: Seq<Seq<char>>,
}

pub enum StepView {
    Done(Option<Seq<char>>),
    Failed(ShellErrorView),
    Exit(i32),
    ChangeDir(DirChangeView),
    CurrentDir,
    Probe(ProbeView),
    Spawn(LaunchView),
}

impl View for Goal {
    type V = GoalView;

    open spec fn view(&self) -> GoalView {
        match self {
            Goal::Describe => GoalView::Describe,
            Goal::Launch { args } => GoalView::Launch { args: views(args@) },
        }
    }
}

impl View for Probe {
    type V = ProbeView;

    open spec fn view(&self) -> ProbeView {
        ProbeView {
            name: self.name@,
            index: self.index as nat,
            path: self.path@,
            goal: self.goal@,
        }
    }
}

impl View for DirChange {
    type V = DirChangeView;

    open spec fn view(&self) -> DirChangeView {
        DirChangeView { dir: self.dir@ }
    }
}

impl View for Launch {
    type V = LaunchView;

    open spec fn view(&self) -> LaunchView {
        LaunchView { path: self.path@, args: views(self.args@) }
    }
}

impl View for Step {
    type V = StepView;

    open spec fn view(&self) -> StepView {
        match self {
            Step::Done(None) => StepView::Done(None),
            Step::Done(Some(line)) => StepView::Done(Some(line@)),
            Step::Failed(error) => StepView::Failed(error@),
            Step::Exit(code) => StepView::Exit(*code),
            Step::ChangeDir(change) => StepView::ChangeDir(change@),
            Step::CurrentDir(_) => StepView::CurrentDir,
            Step::Probe(probe) => StepView::Probe(probe@),
            Step::Spawn(launch) => StepView::Spawn(launch@),
        }
    }
}

/// `text` as a line of output: with a line feed after it.
pub open spec fn line(text: Seq<char>) -> Seq<char> {
    text + "\n"@
}

/// An answer of the system, with its strings as sequences of characters.
pub open spec fn answer_view<T>(answer: Result<T, String>) -> Result<T, Seq<char>> {
    match answer {
        Ok(value) => Ok(value),
        Err(message) => Err(message@),
    }
}

/// The step that looks for `name` in the directory at position `index` of
/// `dirs`: a probe of the candidate there, or the end of the search where
/// the directories are used up.
pub open spec fn search_from(
    name: Seq<char>,
    goal: GoalView,
    dirs: Seq<Seq<char>>,
    index: nat,
) -> StepView {
    if index < dirs.len() {
        StepView::Probe(
            ProbeView { name, index, path: candidate(dirs[index as int], name), goal },
        )
    } else {
        StepView::Failed(ShellErrorView::NotFound { name })
    }
}

impl ProbeView {
    /// A file that exists ends the search: its path is reported, or the
    /// program there is run. Otherwise the next directory is looked at.
    pub open spec fn reply(self, found: bool, dirs: Seq<Seq<char>>) -> StepView {
        if found {
            match self.goal {
                GoalView::Describe => StepView::Done(
                    Some(line(self.name + " is "@ + self.path)),
                ),
                GoalView::Launch { args } => StepView::Spawn(
                    LaunchView { path: self.path, args },
                ),
            }
        } else {
            search_from(self.name, self.goal, dirs, self.index + 1)
        }
    }
}

impl DirChangeView {
    /// Whatever kept the system from changing the directory, the report is
    /// the same.
    pub open spec fn reply(self, changed: bool) -> StepView {
        if changed {
            StepView::Done(None)
        } else {
            StepView::Failed(ShellErrorView::NoSuchDirectory { dir: self.dir })
        }
    }
}

impl LaunchView {
    /// A program that ran has succeeded, however it ended; one that could
    /// not be started fails with the system's words.
    pub open spec fn reply(self, answer: Result<(), Seq<char>>) -> StepView {
        match answer {
            Ok(_) => StepView::Done(None),
            Err(message) => StepView::Failed(ShellErrorView::System { message }),
        }
    }
}

/// The working directory is printed on a line of its own; where the system
/// cannot name it, the command fails with the system's words.
pub open spec fn current_dir_reply(answer: Result<Seq<char>, Seq<char>>) -> StepView {
    match answer {
        Ok(dir) => StepView::Done(Some(line(dir))),
        Err(message) => StepView::Failed(ShellErrorView::System { message }),
    }
}

/// Ends `text` with a line feed.
pub fn into_line(text: String) -> (out: String)
    ensures
        out@ == line(text@),
{
    let mut out = text;
    out.append("\n");
    out
}

/// Starts or continues the search for `name` at position `index` of `paths`.
pub fn search(name: String, goal: Goal, paths: &SearchPath, index: usize) -> (step: Step)
    ensures
        step@ == search_from(name@, goal@, paths@, index as nat),
{
    match paths.candidate(index, name.as_str()) {
        Some(path) => Step::Probe(Probe { name, index, path, goal }),
        None => Step::Failed(ShellError::NotFound { name }),
    }
}

impl Probe {
    /// The step after the caller has looked for the file `self.path`.
    pub fn reply(self, found: bool, paths: &SearchPath) -> (step: Step)
        ensures
            step@ == self@.reply(found, paths@),
    {
        let Probe { name, index, path, goal } = self;
        if found {
            match goal {
                Goal::Describe => {
                    let mut text = name;
                    text.append(" is ");
                    text.append(path.as_str());
                    Step::Done(Some(into_line(text)))
                },
                Goal::Launch { args } => Step::Spawn(Launch { path, args }),
            }
        } else if index < paths.len() {
            search(name, goal, paths, index + 1)
        } else {
            Step::Failed(ShellError::NotFound { name })
        }
    }
}

impl DirChange {
    /// The step after the caller has tried to change the working directory.
    pub fn reply(self, changed: bool) -> (step: Step)
        ensures
            step@ == self@.reply(changed),
    {
        if changed {
            Step::Done(None)
        } else {
            Step::Failed(ShellError::NoSuchDirectory { dir: self.dir })
        }
    }
}

impl DirQuery {
    /// The step after the caller has asked the system for the working
    /// directory.
    pub fn reply(self, answer: Result<String, String>) -> (step: Step)
        ensures
            step@ == current_dir_reply(
                match answer {
                    Ok(dir) => Ok(dir@),
                    Err(message) => Err(message@),
                },
            ),
    {
        match answer {
            Ok(dir) => Step::Done(Some(into_line(dir))),
            Err(message) => Step::Failed(ShellError::System { message }),
        }
    }
}

impl Launch {
    /// The step after the caller has run the program and waited for it.
    pub fn reply(self, answer: Result<(), String>) -> (step: Step)
        ensures
            step@ == self@.reply(answer_view(answer)),
    {
        match answer {
            Ok(_) => Step::Done(None),
            Err(message) => Step::Failed(ShellError::System { message }),
        }
    }
}

impl Step {
    /// Whether the command has come to its end.
    pub fn is_final(&self) -> (b: bool)
        ensures
            b == self@.is_final(),
    {
        match self {
            Step::Done(_) => true,
            Step::Failed(_) => true,
            Step::Exit(_) => true,
            _ => false,
        }
    }
}

impl StepView {
    /// A final step asks for nothing more.
    pub open spec fn is_final(self) -> bool {
        self is Done || self is Failed || self is Exit
    }
}

} // verus!
