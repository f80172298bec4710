//! A small personal task tracker: validated task construction, a
//! start-time-sorted task collection with a canonical textual storage
//! format, and the mode-driven state machine behind the interactive
//! terminal session.

use vstd::prelude::*;

pub mod cl;
pub mod session;
pub mod storage;
pub mod task;
pub mod tasks;
pub mod time;

pub use cl::Add;
pub use cl::Cli;
pub use cl::Commands;
pub use cl::Complete;
pub use cl::Delete;
pub use cl::Lists;
pub use session::AppInfo;
pub use storage::LoadError;
pub use storage::SaveError;
pub use session::CursorAt;
pub use session::InputMode;
pub use session::Key;
pub use session::ViewModel;
pub use task::Task;
pub use task::TaskView;
pub use tasks::Tasks;
pub use time::parse_time;
pub use time::string_to_time;
pub use time::TimeParseError;

verus! {

} // verus!
