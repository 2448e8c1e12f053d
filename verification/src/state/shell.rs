use vstd::prelude::*;
use crate::state::history::HistoryState;
use crate::state::jobs::{JobState, SpecJob};

verus! {

/// Everything the shell remembers between command lines.
pub struct ShellState {
    pub history: HistoryState,
    pub jobs: JobState,
}

impl ShellState {
    /// A fresh state: no history and no jobs.
    pub fn new() -> (s: ShellState)
        ensures
            s.history.entries@.len() == 0,
            s.history.last_appended_index == 0,
            s.jobs.jobs_view() == Seq::<SpecJob>::empty(),
            s.jobs.wf(),
    {
        ShellState { history: HistoryState::new(), jobs: JobState::new() }
    }

    /// Adds a command at the end of the history.
    pub fn add_history(&mut self, cmd: String)
        ensures
            final(self).history.entries@ == old(self).history.entries@.push(cmd),
            final(self).history.last_appended_index == old(self).history.last_appended_index,
            final(self).jobs == old(self).jobs,
    {
        self.history.add_history(cmd);
    }
}

impl Default for ShellState {
    fn default() -> (s: ShellState)
        ensures
            s.history.entries@.len() == 0,
            s.history.last_appended_index == 0,
            s.jobs.jobs_view() == Seq::<SpecJob>::empty(),
            s.jobs.wf(),
    {
        ShellState::new()
    }
}

} // verus!
