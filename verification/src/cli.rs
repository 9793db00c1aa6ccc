//! The command interface: the parsed value of the command line.
//!
//! Argument parsing itself is done by the surrounding program; these types
//! are the fixed shape that parsing produces and that the entry point
//! dispatches on.

use vstd::prelude::*;

verus! {

/// The parsed command line: at most one subcommand.
pub struct Cli {
    /// The action to perform, if any was named.
    pub command: Option<Commands>,
}

/// The available subcommands.
pub enum Commands {
    /// Show the stored tasks.
    List {
        /// Include completed entries.
        all: bool,
    },
    /// Create a new task.
    Add(AddArgs),
    /// Delete a task.
    Remove {},
    /// Mark a task as completed.
    Complete {},
}

/// Arguments of the `add` subcommand.
pub struct AddArgs {
    /// The name of the task to create.
    pub task: String,
}

} // verus!
