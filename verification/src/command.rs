//! Commands: what a line of input asks for.

use crate::error::ShellError;
use crate::error::ShellErrorView;
use crate::number::parse_i32;
use crate::number::parse_number;
use crate::path::SearchPath;
use crate::step::into_line;
use crate::step::line;
use crate::step::search;
use crate::step::search_from;
use crate::step::DirChange;
use crate::step::DirChangeView;
use crate::step::DirQuery;
use crate::step::Goal;
use crate::step::GoalView;
use crate::step::Step;
use crate::step::StepView;
use crate::text::is_blank;
use crate::text::is_word;
use crate::text::join;
use crate::text::join_from;
use crate::text::lemma_no_words_iff_blank;
use crate::text::lemma_words_are_words;
use crate::text::lemma_words_of_join;
use crate::text::str_eq;
use crate::text::strings_from;
use crate::text::tokenize;
use crate::text::views;
use crate::text::words;
use vstd::prelude::*;
use vstd::string::StringExecFns;

verus! {

/// A command, ready to be carried out.
#[derive(Debug, PartialEq, Eq)]
pub enum Command {
    /// Print the working directory.
    Pwd,
    /// Make `dir` the working directory; `~` stands for the home directory.
    Cd { dir: String },
    /// Print `string`.
    Echo { string: String },
    /// End the interpreter with `code`.
    Exit { code: i32 },
    /// Say what the command name `arg` stands for.
    Type { arg: String },
    /// Run the program `file` with `args`.
    Exe { file: String, args: Vec<String> },
}

/// A `Command` with its strings as sequences of characters.
pub enum CommandView {
    Pwd,
    Cd { dir: Seq<char> },
    Echo { string: Seq<char> },
    Exit { code: i32 },
    Type { arg: Seq<char> },
    Exe { file: Seq<char>, args: Seq<Seq<char>> },
}

impl View for Command {
    type V = CommandView;

    open spec fn view(&self) -> CommandView {
        match self {
            Command::Pwd => CommandView::Pwd,
            Command::Cd { dir } => CommandView::Cd { dir: dir@ },
            Command::Echo { string } => CommandView::Echo { string: string@ },
            Command::Exit { code } => CommandView::Exit { code: *code },
            Command::Type { arg } => CommandView::Type { arg: arg@ },
            Command::Exe { file, args } => CommandView::Exe { file: file@, args: views(args@) },
        }
    }
}

/// The names that the interpreter handles itself.
pub open spec fn is_builtin(name: Seq<char>) -> bool {
    ||| name == "cd"@
    ||| name == "echo"@
    ||| name == "exit"@
    ||| name == "pwd"@
    ||| name == "type"@
}

/// The command that the words of a line ask for. The first word names it.
/// No word, no command. Words that a builtin has no use for are passed
/// over.
pub open spec fn classify(ws: Seq<Seq<char>>) -> Result<Option<CommandView>, ShellErrorView> {
    if ws.len() == 0 {
        Ok(None)
    } else if ws[0] == "cd"@ {
        Ok(
            Some(
                CommandView::Cd {
                    dir: if ws.len() > 1 {
                        ws[1]
                    } else {
                        "/"@
                    },
                },
            ),
        )
    } else if ws[0] == "echo"@ {
        Ok(Some(CommandView::Echo { string: join(ws.skip(1)) }))
    } else if ws[0] == "exit"@ {
        if ws.len() > 1 {
            match parse_i32(ws[1]) {
                Ok(code) => Ok(Some(CommandView::Exit { code })),
                Err(reason) => Err(ShellErrorView::ExitCode(reason)),
            }
        } else {
            Ok(Some(CommandView::Exit { code: 0 }))
        }
    } else if ws[0] == "pwd"@ {
        Ok(Some(CommandView::Pwd))
    } else if ws[0] == "type"@ {
        if ws.len() > 1 {
            Ok(Some(CommandView::Type { arg: ws[1] }))
        } else {
            Err(ShellErrorView::MissingArgument)
        }
    } else {
        Ok(Some(CommandView::Exe { file: ws[0], args: ws.skip(1) }))
    }
}

/// The command that a line of input asks for.
pub open spec fn parse(line: Seq<char>) -> Result<Option<CommandView>, ShellErrorView> {
    classify(words(line))
}

/// What reading a line gave, with its strings as sequences of characters.
pub open spec fn parsed_view(parsed: Result<Option<Command>, ShellError>) -> Result<
    Option<CommandView>,
    ShellErrorView,
> {
    match parsed {
        Ok(None) => Ok(None),
        Ok(Some(command)) => Ok(Some(command@)),
        Err(error) => Err(error@),
    }
}

/// The home directory as a sequence of characters, if there is one.
pub open spec fn home_view(home: Option<&String>) -> Option<Seq<char>> {
    match home {
        Some(dir) => Some(dir@),
        None => None,
    }
}

impl CommandView {
    /// The first step of the command.
    ///
    /// `echo` and `exit` need nothing from the system, nor does `type` for a
    /// builtin; what they print is a line. `cd` asks for the change of
    /// directory, `pwd` for the directory's name. For any other name the
    /// search path is walked from its first directory.
    pub open spec fn execute(self, home: Option<Seq<char>>, dirs: Seq<Seq<char>>) -> StepView {
        match self {
            CommandView::Pwd => StepView::CurrentDir,
            CommandView::Cd { dir } => {
                if dir == "~"@ {
                    match home {
                        Some(home_dir) => StepView::ChangeDir(DirChangeView { dir: home_dir }),
                        None => StepView::Failed(ShellErrorView::HomeNotSet),
                    }
                } else {
                    StepView::ChangeDir(DirChangeView { dir })
                }
            },
            CommandView::Echo { string } => StepView::Done(Some(line(string))),
            CommandView::Exit { code } => StepView::Exit(code),
            CommandView::Type { arg } => {
                if is_builtin(arg) {
                    StepView::Done(Some(line(arg + " is a shell builtin"@)))
                } else {
                    search_from(arg, GoalView::Describe, dirs, 0)
                }
            },
            CommandView::Exe { file, args } => search_from(
                file,
                GoalView::Launch { args },
                dirs,
                0,
            ),
        }
    }
}

/// The first step that a line of input leads to. A blank line is done at
/// once and in silence; a line that is no command fails.
pub open spec fn interpret_line(
    line: Seq<char>,
    home: Option<Seq<char>>,
    dirs: Seq<Seq<char>>,
) -> StepView {
    match parse(line) {
        Ok(None) => StepView::Done(None),
        Ok(Some(command)) => command.execute(home, dirs),
        Err(error) => StepView::Failed(error),
    }
}

/// A blank line, and no other, asks for nothing.
pub proof fn lemma_blank_line(line: Seq<char>)
    ensures
        is_blank(line) <==> parse(line) == Ok::<Option<CommandView>, ShellErrorView>(None),
        is_blank(line) ==> forall|home: Option<Seq<char>>, dirs: Seq<Seq<char>>|
            #[trigger] interpret_line(line, home, dirs) == StepView::Done(None),
{
    lemma_no_words_iff_blank(line);
}

/// The builtin names are those that the classifier treats as builtins: a
/// line whose first word is a builtin never becomes an external command,
/// and a line whose first word is none always does.
pub proof fn lemma_builtins_in_step(ws: Seq<Seq<char>>)
    requires
        ws.len() > 0,
    ensures
        is_builtin(ws[0]) <==> !(classify(ws) matches Ok(Some(CommandView::Exe { .. }))),
        !is_builtin(ws[0]) ==> classify(ws) == Ok::<Option<CommandView>, ShellErrorView>(
            Some(CommandView::Exe { file: ws[0], args: ws.skip(1) }),
        ),
{
}

/// What `echo` prints holds the words after `echo`, no more and no less,
/// with one blank between them, whatever white space the line had.
pub proof fn lemma_echo_text(line: Seq<char>)
    requires
        words(line).len() > 0,
        words(line)[0] == "echo"@,
    ensures
        parse(line) == Ok::<Option<CommandView>, ShellErrorView>(
            Some(CommandView::Echo { string: join(words(line).skip(1)) }),
        ),
        words(join(words(line).skip(1))) == words(line).skip(1),
{
    let ws = words(line);
    lemma_words_are_words(line);
    assert forall|k: int| 0 <= k < ws.skip(1).len() implies is_word(#[trigger] ws.skip(1)[k]) by {
        assert(ws.skip(1)[k] == ws[k + 1]);
    }
    lemma_words_of_join(ws.skip(1));
    assert("echo"@ != "cd"@) by {
        reveal_strlit("echo");
        reveal_strlit("cd");
    }
}

/// Whether the interpreter handles `name` itself.
pub fn name_is_builtin(name: &str) -> (builtin: bool)
    ensures
        builtin == is_builtin(name@),
{
    str_eq(name, "cd") || str_eq(name, "echo") || str_eq(name, "exit") || str_eq(name, "pwd")
        || str_eq(name, "type")
}

impl Command {
    /// The command that a list of words asks for.
    pub fn from_words(tokens: &Vec<String>) -> (parsed: Result<Option<Command>, ShellError>)
        ensures
            parsed_view(parsed) == classify(views(tokens@)),
    {
        if tokens.len() == 0 {
            return Ok(None);
        }
        let ghost ws = views(tokens@);
        let name = tokens[0].as_str();
        assert(name@ == ws[0]);
        if str_eq(name, "cd") {
            let dir = if tokens.len() > 1 {
                assert(tokens@[1]@ == ws[1]);
                tokens[1].clone()
            } else {
                String::from_str("/")
            };
            Ok(Some(Command::Cd { dir }))
        } else if str_eq(name, "echo") {
            Ok(Some(Command::Echo { string: join_from(tokens, 1) }))
        } else if str_eq(name, "exit") {
            if tokens.len() > 1 {
                assert(tokens@[1]@ == ws[1]);
                match parse_number(tokens[1].as_str()) {
                    Ok(code) => Ok(Some(Command::Exit { code })),
                    Err(reason) => Err(ShellError::ExitCode(reason)),
                }
            } else {
                Ok(Some(Command::Exit { code: 0 }))
            }
        } else if str_eq(name, "pwd") {
            Ok(Some(Command::Pwd))
        } else if str_eq(name, "type") {
            if tokens.len() > 1 {
                assert(tokens@[1]@ == ws[1]);
                Ok(Some(Command::Type { arg: tokens[1].clone() }))
            } else {
                Err(ShellError::MissingArgument)
            }
        } else {
            Ok(Some(Command::Exe { file: tokens[0].clone(), args: strings_from(tokens, 1) }))
        }
    }

    /// Reads a line of input.
    pub fn parse(line: &str) -> (parsed: Result<Option<Command>, ShellError>)
        ensures
            parsed_view(parsed) == parse(line@),
    {
        let tokens = tokenize(line);
        Command::from_words(&tokens)
    }

    /// The first step of carrying out the command, with the home directory
    /// and the search path of the interpreter.
    pub fn execute(&self, home: Option<&String>, paths: &SearchPath) -> (step: Step)
        ensures
            step@ == self@.execute(home_view(home), paths@),
    {
        match self {
            Command::Pwd => Step::CurrentDir(DirQuery {  }),
            Command::Cd { dir } => {
                if str_eq(dir.as_str(), "~") {
                    match home {
                        Some(home_dir) => Step::ChangeDir(DirChange { dir: home_dir.clone() }),
                        None => Step::Failed(ShellError::HomeNotSet),
                    }
                } else {
                    Step::ChangeDir(DirChange { dir: dir.clone() })
                }
            },
            Command::Echo { string } => Step::Done(Some(into_line(string.clone()))),
            Command::Exit { code } => Step::Exit(*code),
            Command::Type { arg } => {
                if name_is_builtin(arg.as_str()) {
                    let mut text = arg.clone();
                    text.append(" is a shell builtin");
                    Step::Done(Some(into_line(text)))
                } else {
                    search(arg.clone(), Goal::Describe, paths, 0)
                }
            },
            Command::Exe { file, args } => {
                let goal = Goal::Launch { args: strings_from(args, 0) };
                assert(views(args@).skip(0) =~= views(args@));
                search(file.clone(), goal, paths, 0)
            },
        }
    }
}

/// The first step that a line of input leads to.
pub fn interpret(line: &str, home: Option<&String>, paths: &SearchPath) -> (step: Step)
    ensures
        step@ == interpret_line(line@, home_view(home), paths@),
{
    match Command::parse(line) {
        Ok(None) => Step::Done(None),
        Ok(Some(command)) => command.execute(home, paths),
        Err(error) => Step::Failed(error),
    }
}

} // verus!
