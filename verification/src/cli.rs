//! The command line: its options and subcommands, as plain data.
use vstd::prelude::*;

verus! {

/// The parsed command line.
pub struct Cli {
    /// Write the man page to stdout and exit.
    pub generate_man: bool,
    pub command: Option<Command>,
}

/// The subcommands.
pub enum Command {
    /// Create a new todo; with no title, the editor opens.
    New { title: Option<String>, description: Option<String>, title_words: Vec<String> },
    /// Mark a todo done.
    Done { id: String },
    /// List todos (open ones by default).
    List { all: bool, done: bool },
    /// Show a todo in full.
    Show { id: String },
    /// Add (`+name`) or remove (`-name`) labels.
    Label { id: String, edits: Vec<String> },
    /// Add a comment; without a message, the editor opens.
    Comment { id: String, message: Option<String> },
}

} // verus!
