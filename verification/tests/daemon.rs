use job_core::daemon::{DaemonState, Submission};
use job_core::job::Job;
use job_core::message::Response;
use job_core::paths::Paths;
use job_core::signal::KillOutcome;
use job_core::status::Status;
use job_core::store::{JobStore, StoreError};
use job_core::time::Timestamp;

fn at(secs: i64) -> Timestamp {
    Timestamp { secs, nanos: 0 }
}

fn job(id: &str, created: i64) -> Job {
    Job::new_at(
        id.to_string(),
        format!("echo {id}"),
        "/work".to_string(),
        "/project".to_string(),
        at(created),
    )
}

fn state() -> DaemonState {
    DaemonState::new_at(&Paths::at("/home/u/.job".to_string()), JobStore::new(), at(1000))
}

fn same(a: &Job, b: &Job) -> bool {
    format!("{a:?}") == format!("{b:?}")
}

fn status_of(state: &DaemonState, id: &str) -> Status {
    state.get_job(id).unwrap().unwrap().status
}

fn error_text(response: Response) -> String {
    match response {
        Response::Error(message) => message,
        other => panic!("no error: {other:?}"),
    }
}

#[test]
fn starting_on_a_store_with_leftovers_marks_them_interrupted() {
    let mut store = JobStore::new();
    let mut running = job("run1", 10);
    running.status = Status::Running;
    running.pid = Some(99999);
    running.started_at = Some(at(20));
    store.insert(&running).unwrap();
    store.insert(&job("pend", 30)).unwrap();
    let mut done = job("done", 40);
    done.status = Status::Completed;
    done.exit_code = Some(0);
    done.finished_at = Some(at(50));
    store.insert(&done).unwrap();

    let state = DaemonState::new_at(&Paths::at("/r".to_string()), store, at(1000));
    let recovered = state.get_job("run1").unwrap().unwrap();
    assert_eq!(recovered.status, Status::Interrupted);
    assert_eq!(recovered.finished_at, Some(at(1000)));
    assert_eq!(recovered.exit_code, None);
    assert_eq!(status_of(&state, "pend"), Status::Interrupted);
    assert_eq!(status_of(&state, "done"), Status::Completed);
    assert_eq!(state.running_count(), 0);
    assert_eq!(state.total_jobs(), 3);
    assert_eq!(state.paths().root(), "/r");
    assert_eq!(state.uptime_at(at(1061)), 61);
    assert_eq!(state.uptime_at(at(999)), 0);
    state.is_consistent();
}

#[test]
fn starting_now_recovers_too() {
    let mut store = JobStore::new();
    store.insert(&job("pend", 30)).unwrap();
    let state = DaemonState::new(&Paths::at("/r".to_string()), store);
    assert_eq!(status_of(&state, "pend"), Status::Interrupted);
    assert!(state.uptime_secs() < 5);
}

#[test]
fn a_submission_is_stored_as_pending() {
    let mut state = state();
    let j = job("a1", 1001).with_name("n".to_string());
    match state.submit(j.clone()) {
        Submission::Accepted(stored) => assert!(same(&stored, &j)),
        other => panic!("unexpected: {other:?}"),
    }
    assert_eq!(status_of(&state, "a1"), Status::Pending);
    assert_eq!(state.total_jobs(), 1);
    assert_eq!(state.running_count(), 0);
}

#[test]
fn a_second_submission_under_a_key_returns_the_first_job() {
    let mut state = state();
    let mut first = job("j1", 1001).with_idempotency_key("K1".to_string());
    first.command = "echo hi".to_string();
    assert!(matches!(state.submit(first.clone()), Submission::Accepted(_)));
    let mut second = job("j2", 1002).with_idempotency_key("K1".to_string());
    second.command = "echo world".to_string();
    match state.submit(second) {
        Submission::Existing(prior) => {
            assert!(same(&prior, &first));
            assert_eq!(prior.command, "echo hi");
        }
        other => panic!("unexpected: {other:?}"),
    }
    assert_eq!(state.total_jobs(), 1);
    assert!(state.get_job("j2").unwrap().is_none());
}

#[test]
fn a_submission_with_a_taken_id_is_rejected() {
    let mut state = state();
    assert!(matches!(state.submit(job("a1", 1001)), Submission::Accepted(_)));
    assert!(matches!(
        state.submit(job("a1", 1002)),
        Submission::Rejected(StoreError::DuplicateId)
    ));
    let mut bad = job("b1", 1003);
    bad.exit_code = Some(1);
    assert!(matches!(state.submit(bad), Submission::Rejected(StoreError::InvalidJob)));
    assert_eq!(state.total_jobs(), 1);
}

#[test]
fn a_job_that_starts_is_watched_until_it_ends() {
    let mut state = state();
    state.submit(job("a1", 1001));
    state.job_started("a1", 4242, at(1002)).unwrap();
    assert_eq!(status_of(&state, "a1"), Status::Running);
    assert_eq!(state.running_count(), 1);
    let entry = state.running_job("a1").unwrap();
    assert_eq!((entry.id.as_str(), entry.pid, entry.stop_requested), ("a1", 4242, false));
    assert!(state.running_job("a").is_none());

    state.finish_job("a1", Status::Completed, Some(0), at(1005)).unwrap();
    let j = state.get_job("a1").unwrap().unwrap();
    assert_eq!(j.status, Status::Completed);
    assert_eq!(j.exit_code, Some(0));
    assert_eq!(j.started_at, Some(at(1002)));
    assert_eq!(j.finished_at, Some(at(1005)));
    assert_eq!(state.running_count(), 0);
    assert!(state.running_job("a1").is_none());
}

#[test]
fn starting_twice_or_starting_an_unknown_job_is_refused() {
    let mut state = state();
    state.submit(job("a1", 1001));
    state.job_started("a1", 1, at(1002)).unwrap();
    assert!(matches!(
        state.job_started("a1", 2, at(1003)),
        Err(StoreError::InvalidTransition)
    ));
    assert!(matches!(state.job_started("zz", 2, at(1003)), Err(StoreError::NotFound)));
    assert_eq!(state.running_count(), 1);
    assert_eq!(state.running_job("a1").unwrap().pid, 1);
}

#[test]
fn finishing_lets_go_of_the_right_entry() {
    let mut state = state();
    for (id, pid) in [("a1", 11), ("b2", 22), ("c3", 33)] {
        state.submit(job(id, 1001));
        state.job_started(id, pid, at(1002)).unwrap();
    }
    state.finish_job("b2", Status::Failed, Some(1), at(1003)).unwrap();
    assert_eq!(state.running_count(), 2);
    assert_eq!(state.running_job("a1").unwrap().pid, 11);
    assert!(state.running_job("b2").is_none());
    assert_eq!(state.running_job("c3").unwrap().pid, 33);
    // what the store refuses changes nothing
    assert!(matches!(
        state.finish_job("a1", Status::Running, None, at(1004)),
        Err(StoreError::InvalidTransition)
    ));
    assert!(matches!(
        state.finish_job("b2", Status::Stopped, None, at(1004)),
        Err(StoreError::InvalidTransition)
    ));
    assert!(matches!(
        state.finish_job("nope", Status::Stopped, None, at(1004)),
        Err(StoreError::NotFound)
    ));
    assert_eq!(state.running_count(), 2);
    assert_eq!(status_of(&state, "a1"), Status::Running);
    assert_eq!(status_of(&state, "b2"), Status::Failed);
}

#[test]
fn stop_against_a_job_that_is_not_running_is_an_error() {
    let mut state = state();
    state.submit(job("a1", 1001));
    assert_eq!(error_text(state.stop_job("a1", false)), "Job a1 is not running");
    assert_eq!(error_text(state.stop_job("a1", true)), "Job a1 is not running");
    assert_eq!(error_text(state.stop_job("zz", false)), "Job zz is not running");
    state.job_started("a1", 5, at(1002)).unwrap();
    state.finish_job("a1", Status::Completed, Some(0), at(1003)).unwrap();
    assert_eq!(error_text(state.stop_job("a1", false)), "Job a1 is not running");
    assert_eq!(status_of(&state, "a1"), Status::Completed);
}

#[test]
fn stop_refuses_an_entry_without_a_process_group() {
    let mut state = state();
    for (id, pid) in [("zero", 0u32), ("one", 1), ("big", u32::MAX)] {
        state.submit(job(id, 1001));
        state.job_started(id, pid, at(1002)).unwrap();
        assert_eq!(
            error_text(state.stop_job(id, true)),
            format!("Job {id} has no process group to signal")
        );
        assert!(!state.running_job(id).unwrap().stop_requested);
        assert_eq!(status_of(&state, id), Status::Running);
    }
}

#[test]
fn stop_against_a_group_that_is_gone_fails_and_notes_nothing() {
    let mut state = state();
    state.submit(job("a1", 1001));
    // no process group has this id
    state.job_started("a1", 0x7fff_fff0, at(1002)).unwrap();
    assert_eq!(error_text(state.stop_job("a1", false)), "Failed to stop job a1");
    assert!(!state.running_job("a1").unwrap().stop_requested);
}

#[test]
fn a_stop_that_was_signalled_is_noted_on_the_entry() {
    let mut state = state();
    for (id, pid) in [("a1", 11), ("b2", 22)] {
        state.submit(job(id, 1001));
        state.job_started(id, pid, at(1002)).unwrap();
    }
    assert!(matches!(state.note_stop("a1", KillOutcome::Delivered), Response::Okay));
    assert!(state.running_job("a1").unwrap().stop_requested);
    assert_eq!(state.running_job("a1").unwrap().pid, 11);
    assert!(!state.running_job("b2").unwrap().stop_requested);
    assert_eq!(status_of(&state, "a1"), Status::Running);
    assert_eq!(
        error_text(state.note_stop("b2", KillOutcome::Failed)),
        "Failed to stop job b2"
    );
    assert_eq!(
        error_text(state.note_stop("b2", KillOutcome::Refused)),
        "Job b2 has no process group to signal"
    );
    assert_eq!(
        error_text(state.note_stop("c3", KillOutcome::Delivered)),
        "Job c3 is not running"
    );
    assert!(!state.running_job("b2").unwrap().stop_requested);
}

#[test]
fn shutdown_interrupts_every_watched_job() {
    let mut state = state();
    for (id, pid) in [("a1", 0u32), ("b2", 0x7fff_fff1), ("c3", 1)] {
        state.submit(job(id, 1001));
        state.job_started(id, pid, at(1002)).unwrap();
    }
    state.submit(job("idle", 1001));
    state.submit(job("done", 1001));
    state.finish_job("done", Status::Failed, None, at(1003)).unwrap();

    assert_eq!(state.interrupt_running_jobs_at(at(2000)), 3);
    assert_eq!(state.running_count(), 0);
    for id in ["a1", "b2", "c3"] {
        let j = state.get_job(id).unwrap().unwrap();
        assert_eq!(j.status, Status::Interrupted);
        assert_eq!(j.finished_at, Some(at(2000)));
        assert_eq!(j.exit_code, None);
    }
    // a job that was not watched is left as it was
    assert_eq!(status_of(&state, "idle"), Status::Pending);
    assert_eq!(status_of(&state, "done"), Status::Failed);
    assert_eq!(state.interrupt_running_jobs(), 0);
}

#[test]
fn listing_and_lookup_go_to_the_store() {
    let mut state = state();
    state.submit(job("a1", 1001));
    state.submit(job("a2", 1003));
    state.submit(job("b3", 1002));
    let ids: Vec<String> = state.list_jobs(None, Some(2)).into_iter().map(|j| j.id).collect();
    assert_eq!(ids, ["a2", "b3"]);
    assert_eq!(state.list_jobs(Some(Status::Running), None).len(), 0);
    assert!(matches!(state.get_job("a"), Err(StoreError::Ambiguous(_))));
    assert_eq!(state.get_job("b").unwrap().unwrap().id, "b3");
    assert_eq!(state.store().len(), 3);
}
