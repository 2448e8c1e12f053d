use vstd::prelude::*;
use crate::state::jobs::{job_listing, still_running};
use crate::state::shell::ShellState;

verus! {

/// `jobs`: lists every background job, then forgets the finished ones.
pub fn execute_jobs(state: &mut ShellState, stdout: &mut String)
    ensures
        final(stdout)@ == old(stdout)@ + job_listing(old(state).jobs.jobs_view()),
        final(state).jobs.jobs_view() == old(state).jobs.jobs_view().filter(still_running()),
        final(state).history == old(state).history,
{
    let jobs_list = state.jobs.format_jobs();
    stdout.append(jobs_list.as_str());
}

} // verus!
