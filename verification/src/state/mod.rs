pub mod history;
pub mod jobs;
pub mod shell;

pub use history::HistoryState;
pub use jobs::{Job, JobState, JobStatus};
pub use shell::ShellState;
