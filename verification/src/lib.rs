//! The core of a small command interpreter.
//!
//! A line of input is cut into words (`text`), the words are read as a
//! command (`command`), and the command is carried out in steps (`step`):
//! each step either ends the command or names one piece of work on the
//! operating system, which the caller does and answers. A program that is no
//! builtin is looked for in the directories of a search path (`path`).
//! `model` says what a command comes to against a system that answers, and
//! proves it of the steps.

pub mod command;
pub mod error;
pub mod model;
pub mod number;
pub mod path;
pub mod step;
pub mod text;

pub use command::interpret;
pub use command::Command;
pub use error::ShellError;
pub use number::NumberError;
pub use path::SearchPath;
pub use step::DirChange;
pub use step::DirQuery;
pub use step::Goal;
pub use step::Launch;
pub use step::Probe;
pub use step::Step;
