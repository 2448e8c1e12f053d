use codecrafters_shell::state::{JobState, JobStatus};

fn push_dummy_job(state: &mut JobState) -> u32 {
    state.push_job(4242, "dummy".to_string())
}

#[test]
fn sequential_jobs_receive_increasing_ids() {
    let mut state = JobState::new();
    let id1 = push_dummy_job(&mut state);
    let id2 = push_dummy_job(&mut state);
    assert_eq!(id1, 1);
    assert_eq!(id2, 2);
}

#[test]
fn removing_earlier_job_does_not_cause_id_collision_on_subsequent_adds() {
    let mut state = JobState::new();
    let id1 = push_dummy_job(&mut state);
    let id2 = push_dummy_job(&mut state);

    state.remove_job(id1);
    assert!(state.get_job(id1).is_none());
    assert!(state.get_job(id2).is_some());

    let id3 = push_dummy_job(&mut state);
    assert_ne!(id3, id2, "Newly added job ID must not collide with currently active job ID");
    assert!(state.get_job(id2).is_some());
    assert!(state.get_job(id3).is_some());
}

#[test]
fn lowest_unused_id_reused_when_available() {
    let mut state = JobState::new();
    let id1 = push_dummy_job(&mut state);
    let id2 = push_dummy_job(&mut state);
    let id3 = push_dummy_job(&mut state);
    assert_eq!((id1, id2, id3), (1, 2, 3));

    state.remove_job(id1);
    let new_id1 = push_dummy_job(&mut state);
    assert_eq!(new_id1, 1);

    state.remove_job(id2);
    let new_id2 = push_dummy_job(&mut state);
    assert_eq!(new_id2, 2);

    let id4 = push_dummy_job(&mut state);
    assert_eq!(id4, 4);
}

#[test]
fn multiple_arbitrary_gaps_reused_in_ascending_order() {
    let mut state = JobState::new();
    let mut ids = Vec::new();
    for _ in 0..10 {
        ids.push(push_dummy_job(&mut state));
    }
    state.remove_job(ids[3]);
    state.remove_job(ids[7]);

    let reused_first = push_dummy_job(&mut state);
    let reused_second = push_dummy_job(&mut state);
    assert_eq!(reused_first, ids[3]);
    assert_eq!(reused_second, ids[7]);

    let next_id = push_dummy_job(&mut state);
    assert_eq!(next_id, 11);
}

#[test]
fn job_listing_shows_every_job_then_forgets_finished_ones() {
    let mut state = JobState::new();
    let a = state.push_job(100, "sleep 5".to_string());
    let b = state.push_job(101, "echo hi".to_string());
    state.update_job_status(b, JobStatus::Done);
    assert_eq!(
        state.format_jobs(),
        "[1]  +/- running    sleep 5\n[2]  +/- done    echo hi\n\n"
    );
    assert!(state.get_job(a).is_some());
    assert!(state.get_job(b).is_none());
}

#[test]
fn no_jobs_list_as_nothing() {
    let mut state = JobState::new();
    assert_eq!(state.format_jobs(), "");
    assert_eq!(state.done_jobs_report(), "");
}

#[test]
fn done_report_lists_only_finished_jobs() {
    let mut state = JobState::new();
    let a = state.push_job(100, "sleep 5".to_string());
    let b = state.push_job(101, "false".to_string());
    let c = state.push_job(102, "true".to_string());
    state.update_job_status(b, JobStatus::Failed(1));
    state.update_job_status(c, JobStatus::Done);
    assert_eq!(
        state.done_jobs_report(),
        "[2]  +/- failed    false\n[3]  +/- done    true\n\n"
    );
    assert!(state.get_job(a).is_some());
    assert!(state.get_job(b).is_none());
    assert!(state.get_job(c).is_none());
    assert_eq!(state.done_jobs_report(), "");
}

#[test]
fn updating_an_unknown_job_changes_nothing() {
    let mut state = JobState::new();
    state.push_job(7, "sleep 1".to_string());
    state.update_job_status(9, JobStatus::Done);
    assert_eq!(state.format_jobs(), "[1]  +/- running    sleep 1\n\n");
}

#[test]
fn status_names() {
    assert_eq!(JobStatus::Running.to_string(), "running");
    assert_eq!(JobStatus::Done.to_string(), "done");
    assert_eq!(JobStatus::Failed(3).to_string(), "failed");
    assert_eq!(JobStatus::default(), JobStatus::Running);
}

#[test]
fn ids_stay_within_the_allocation_range() {
    let mut state = JobState::new();
    for _ in 0..64 {
        assert!(state.ids_within_limit());
        push_dummy_job(&mut state);
    }
    assert!(state.ids_within_limit());
    assert_eq!(push_dummy_job(&mut state), 65);
    assert!(!state.ids_within_limit());
}

#[test]
fn exit_statuses_become_job_statuses() {
    assert_eq!(JobStatus::from_exit(true, Some(0)), JobStatus::Done);
    assert_eq!(JobStatus::from_exit(false, Some(3)), JobStatus::Failed(3));
    assert_eq!(JobStatus::from_exit(false, None), JobStatus::Failed(1));
}

#[test]
fn new_jobs_are_announced_with_their_process_id() {
    assert_eq!(codecrafters_shell::state::jobs::job_announcement(1, 4242), "[1] 4242\n");
    assert_eq!(codecrafters_shell::state::jobs::job_announcement(12, 7), "[12] 7\n");
}

#[test]
fn backgrounding_a_builtin_prints_a_job_announcement_with_a_real_pid() {
    let mut state = JobState::new();
    let pid: u32 = 31337;
    let id = state.push_job(pid, "echo hi".to_string());
    let captured = codecrafters_shell::state::jobs::job_announcement(id, pid);
    let announcement = captured
        .lines()
        .find(|line| line.starts_with("[1] "))
        .expect("should print a job announcement")
        .to_string();
    let pid_str = announcement
        .strip_prefix("[1] ")
        .expect("announcement should be formatted as `[<job_id>] <pid>`");
    let parsed: u32 = pid_str.parse().expect("pid should be a plain number");
    assert!(parsed > 0);
    assert_eq!(parsed, pid);
}
