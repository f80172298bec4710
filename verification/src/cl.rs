//! Plain command data: which list a command works on and what it asks
//! for.  The argument-parsing front end builds these values and hands
//! them to the library.

use vstd::prelude::*;

verus! {

/// A parsed command line: the list it works on and the command itself.
pub struct Cli {
    pub list: Lists,
    pub command: Commands,
}

/// The time-scoped grouping that selects one storage entry.
#[derive(Clone, Copy, Debug, PartialEq, Eq, Structural)]
pub enum Lists {
    /// List that does not correspond to a date.
    Goals,
    /// Daily list.
    Day,
    /// Weekly list.
    Week,
    /// Monthly list.
    Month,
}

/// One subcommand together with its arguments.
pub enum Commands {
    /// Add a task to a list.
    Add(Add),
    /// Delete a task from a list.
    Delete(Delete),
    /// Mark a task as completed.
    Complete(Complete),
    /// Print the list of tasks.
    Display,
    /// Open the interactive interface.
    Gui,
}

/// Arguments of the add command.
pub struct Add {
    /// Description of the task.
    pub desc: String,
    /// Start time of the task; no start time if left blank.
    pub start_time: Option<String>,
    /// End time of the task; no end time if left blank.
    pub end_time: Option<String>,
}

/// Arguments of the delete command.
pub struct Delete {
    /// Description of the task to delete.
    pub desc: String,
}

/// Arguments of the complete command.
pub struct Complete {
    /// Description of the task to complete.
    pub desc: String,
}

} // verus!
