use job_core::daemon::{DaemonState, Submission};
use job_core::job::Job;
use job_core::message::Response;
use job_core::monitor::{
    monitor_step, EntryState, MonitorAction, MonitorState, Poll, ProcessState,
};
use job_core::paths::Paths;
use job_core::signal::{GroupSignal, KillOutcome};
use job_core::status::Status;
use job_core::store::JobStore;
use job_core::supervisor::{record_spawn, spawn_job, wait_for_job, SpawnRecord, WaitStep};
use job_core::time::Timestamp;

fn at(secs: i64, millis: u32) -> Timestamp {
    Timestamp { secs, nanos: millis * 1_000_000 }
}

fn daemon(store: JobStore) -> DaemonState {
    DaemonState::new_at(&Paths::under("/home/u"), store, at(1000, 0))
}

fn submit(state: &mut DaemonState, id: &str, command: &str, timeout: Option<u64>, key: Option<&str>) -> Submission {
    spawn_job(
        state,
        id.to_string(),
        command.to_string(),
        None,
        "/work".to_string(),
        "/work".to_string(),
        timeout,
        None,
        key.map(str::to_string),
        at(1001, 0),
    )
}

fn entry(state: &DaemonState, id: &str) -> EntryState {
    match state.running_job(id) {
        Some(e) => EntryState::Watched { stop_requested: e.stop_requested },
        None => EntryState::Gone,
    }
}

fn same(a: &Job, b: &Job) -> bool {
    format!("{a:?}") == format!("{b:?}")
}

#[test]
fn scenario_submit_and_wait() {
    let mut state = daemon(JobStore::new());
    let submission = submit(&mut state, "j1", "sleep 0", None, None);
    let returned = match submission.response() {
        Response::Job(job) => job,
        other => panic!("unexpected: {other:?}"),
    };
    assert_eq!(returned.status, Status::Pending);
    assert!(returned.name.is_none());

    assert_eq!(record_spawn(&mut state, "j1", Some(4321), at(1001, 10)), SpawnRecord::Monitor);
    let mut monitor = MonitorState::Watching;
    let alive = Poll { entry: entry(&state, "j1"), process: ProcessState::Alive, elapsed_ms: 0 };
    assert_eq!(monitor_step(&mut monitor, None, alive), MonitorAction::Sleep);
    let exited = Poll {
        entry: entry(&state, "j1"),
        process: ProcessState::Exited { success: true, code: Some(0) },
        elapsed_ms: 100,
    };
    match monitor_step(&mut monitor, None, exited) {
        MonitorAction::Finish { status, exit_code } => {
            state.finish_job("j1", status, exit_code, at(1001, 110)).unwrap();
        }
        other => panic!("unexpected: {other:?}"),
    }

    let got = state.get_job("j1").unwrap().unwrap();
    assert_eq!(got.status, Status::Completed);
    assert_eq!(got.exit_code, Some(0));
    match wait_for_job(&state, "j1", None, 0) {
        WaitStep::Respond(Response::Job(waited)) => assert!(same(&waited, &got)),
        other => panic!("unexpected: {other:?}"),
    }
}

#[test]
fn scenario_timeout() {
    let mut state = daemon(JobStore::new());
    submit(&mut state, "j1", "sleep 60", Some(1), None);
    assert_eq!(record_spawn(&mut state, "j1", Some(4321), at(1001, 0)), SpawnRecord::Monitor);
    let timeout = state.get_job("j1").unwrap().unwrap().timeout_secs;
    assert_eq!(timeout, Some(1));

    let mut monitor = MonitorState::Watching;
    let mut finished = None;
    let mut signals = Vec::new();
    // the process ends at the first signal, which the next poll sees
    for elapsed_ms in (0..3000).step_by(100) {
        let process = if signals.is_empty() {
            ProcessState::Alive
        } else {
            ProcessState::Exited { success: false, code: None }
        };
        let poll = Poll { entry: entry(&state, "j1"), process, elapsed_ms };
        match monitor_step(&mut monitor, timeout, poll) {
            MonitorAction::Sleep => {}
            MonitorAction::Signal(signal) => signals.push((elapsed_ms, signal)),
            MonitorAction::Finish { status, exit_code } => {
                let now = at(1001 + (elapsed_ms / 1000) as i64, (elapsed_ms % 1000) as u32);
                state.finish_job("j1", status, exit_code, now).unwrap();
                finished = Some(elapsed_ms);
                break;
            }
            MonitorAction::Idle => panic!("idle before the end"),
        }
    }
    assert_eq!(signals, [(1000, GroupSignal::Terminate)]);
    assert!(finished.unwrap() <= 3000);
    let job = state.get_job("j1").unwrap().unwrap();
    assert_eq!(job.status, Status::Stopped);
    assert_eq!(job.exit_code, None);
    let ran = job.finished_at.unwrap().elapsed_secs_since(&job.started_at.unwrap());
    assert!(ran >= 1);
    assert_eq!(state.running_count(), 0);
}

#[test]
fn scenario_idempotency() {
    let mut state = daemon(JobStore::new());
    let j1 = match submit(&mut state, "j1", "echo hi", None, Some("K1")) {
        Submission::Accepted(job) => job,
        other => panic!("unexpected: {other:?}"),
    };
    let count = state.total_jobs();
    match submit(&mut state, "j2", "echo world", None, Some("K1")).response() {
        Response::Job(job) => {
            assert!(same(&job, &j1));
            assert_eq!(job.command, "echo hi");
        }
        other => panic!("unexpected: {other:?}"),
    }
    assert_eq!(state.total_jobs(), count);
}

#[test]
fn scenario_orphan_recovery() {
    let yesterday = at(1000 - 86_400, 0);
    let mut record = Job::new_at(
        "orph".to_string(),
        "sleep 1000".to_string(),
        "/work".to_string(),
        "/work".to_string(),
        yesterday,
    );
    record.status = Status::Running;
    record.pid = Some(99999);
    record.started_at = Some(yesterday);
    let store = JobStore::from_jobs(&vec![record]).unwrap();

    let state = daemon(store);
    let job = state.get_job("orph").unwrap().unwrap();
    assert_eq!(job.status, Status::Interrupted);
    assert_eq!(job.finished_at, Some(at(1000, 0)));
    assert_eq!(job.exit_code, None);
    assert_eq!(job.pid, Some(99999));
    assert_eq!(state.running_count(), 0);
}

#[test]
fn scenario_stop() {
    let mut state = daemon(JobStore::new());
    submit(&mut state, "j1", "sh -c 'sleep 30 & wait'", None, None);
    assert_eq!(record_spawn(&mut state, "j1", Some(4321), at(1001, 0)), SpawnRecord::Monitor);
    assert_eq!(state.get_job("j1").unwrap().unwrap().status, Status::Running);

    // the signal has gone to the group of the job's shell
    assert!(matches!(state.note_stop("j1", KillOutcome::Delivered), Response::Okay));
    let mut monitor = MonitorState::Watching;
    let alive = Poll { entry: entry(&state, "j1"), process: ProcessState::Alive, elapsed_ms: 200 };
    assert_eq!(monitor_step(&mut monitor, None, alive), MonitorAction::Sleep);
    let gone = Poll {
        entry: entry(&state, "j1"),
        process: ProcessState::Exited { success: false, code: None },
        elapsed_ms: 300,
    };
    match monitor_step(&mut monitor, None, gone) {
        MonitorAction::Finish { status, exit_code } => {
            state.finish_job("j1", status, exit_code, at(1001, 300)).unwrap();
        }
        other => panic!("unexpected: {other:?}"),
    }
    let job = state.get_job("j1").unwrap().unwrap();
    assert_eq!(job.status, Status::Stopped);
    assert_eq!(job.exit_code, None);
    assert!(state.running_job("j1").is_none());
}
