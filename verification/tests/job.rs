use job_core::job::Job;
use job_core::status::Status;
use job_core::time::Timestamp;

#[test]
fn test_job_new() {
    let job = Job::new(
        "abc1".to_string(),
        "echo hello".to_string(),
        "/tmp".to_string(),
        "/project".to_string(),
    );

    assert_eq!(job.id, "abc1");
    assert_eq!(job.command, "echo hello");
    assert_eq!(job.status, Status::Pending);
    assert_eq!(job.cwd, "/tmp");
    assert_eq!(job.project, "/project");
    assert!(job.name.is_none());
    assert!(job.pid.is_none());
    assert!(job.exit_code.is_none());
}

#[test]
fn test_job_builder_methods() {
    let job = Job::new(
        "abc1".to_string(),
        "echo hello".to_string(),
        "/tmp".to_string(),
        "/project".to_string(),
    )
    .with_name("test-job".to_string())
    .with_timeout(300)
    .with_idempotency_key("unique-key".to_string());

    assert_eq!(job.name, Some("test-job".to_string()));
    assert_eq!(job.timeout_secs, Some(300));
    assert_eq!(job.idempotency_key, Some("unique-key".to_string()));
}

#[test]
fn test_job_short_id() {
    let job = Job::new(
        "xyz9".to_string(),
        "cmd".to_string(),
        "/tmp".to_string(),
        "/project".to_string(),
    );
    assert_eq!(job.short_id(), "xyz9");
}

fn at(secs: i64) -> Timestamp {
    Timestamp { secs, nanos: 0 }
}

#[test]
fn new_job_is_blank_and_well_formed() {
    let job = Job::new_at(
        "j1".to_string(),
        "true".to_string(),
        "/w".to_string(),
        "/p".to_string(),
        at(100),
    );
    assert_eq!(job.created_at, at(100));
    assert!(job.started_at.is_none());
    assert!(job.finished_at.is_none());
    assert!(job.timeout_secs.is_none());
    assert!(job.context.is_none());
    assert!(job.idempotency_key.is_none());
    assert!(job.is_well_formed());
}

#[test]
fn with_context_carries_the_value() {
    let value = serde_json::Value::from(vec![1, 2, 3]);
    let job = Job::new_at(
        "j1".to_string(),
        "true".to_string(),
        "/w".to_string(),
        "/p".to_string(),
        at(1),
    )
    .with_context(value.clone());
    assert_eq!(job.context, Some(value.clone()));
    assert_eq!(job.clone().context, Some(value));
}

#[test]
fn well_formedness_follows_the_lifecycle() {
    let base = Job::new_at(
        "j1".to_string(),
        "true".to_string(),
        "/w".to_string(),
        "/p".to_string(),
        at(100),
    );

    // terminal without an end time
    let mut job = base.clone();
    job.status = Status::Completed;
    assert!(!job.is_well_formed());
    job.finished_at = Some(at(100));
    assert!(job.is_well_formed());

    // an end time on a job that has not ended
    let mut job = base.clone();
    job.finished_at = Some(at(200));
    assert!(!job.is_well_formed());

    // running needs a process and a start time
    let mut job = base.clone();
    job.status = Status::Running;
    assert!(!job.is_well_formed());
    job.pid = Some(7);
    assert!(!job.is_well_formed());
    job.started_at = Some(at(100));
    assert!(job.is_well_formed());

    // pending has nothing yet
    let mut job = base.clone();
    job.exit_code = Some(0);
    assert!(!job.is_well_formed());

    // times follow one another
    let mut job = base.clone();
    job.status = Status::Failed;
    job.started_at = Some(at(150));
    job.finished_at = Some(at(149));
    assert!(!job.is_well_formed());
    job.finished_at = Some(at(150));
    assert!(job.is_well_formed());
    job.started_at = Some(at(99));
    assert!(!job.is_well_formed());
}

#[test]
fn timestamps_order_by_seconds_then_nanoseconds() {
    let a = Timestamp { secs: 5, nanos: 10 };
    let b = Timestamp { secs: 5, nanos: 11 };
    let c = Timestamp { secs: 6, nanos: 0 };
    assert!(a.is_before(&b));
    assert!(b.is_before(&c));
    assert!(!b.is_before(&a));
    assert!(!a.is_before(&a));
    assert_eq!(a.max(b), b);
    assert_eq!(c.max(b), c);
    assert_eq!(c.elapsed_secs_since(&a), 0);
    assert_eq!(Timestamp { secs: 65, nanos: 10 }.elapsed_secs_since(&a), 60);
    assert_eq!(Timestamp { secs: 65, nanos: 9 }.elapsed_secs_since(&a), 59);
    assert_eq!(a.elapsed_secs_since(&c), 0);
    assert_eq!(c.minus_secs(6), Some(Timestamp { secs: 0, nanos: 0 }));
    assert_eq!(Timestamp { secs: i64::MIN, nanos: 0 }.minus_secs(1), None);
    assert_eq!(
        Timestamp { secs: i64::MAX, nanos: 3 }.minus_secs(u64::MAX),
        Some(Timestamp { secs: i64::MIN, nanos: 3 })
    );
}
