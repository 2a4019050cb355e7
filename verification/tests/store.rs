use job_core::job::Job;
use job_core::status::Status;
use job_core::store::{JobStore, StoreError};
use job_core::time::Timestamp;

fn at(secs: i64) -> Timestamp {
    Timestamp { secs, nanos: 0 }
}

fn job(id: &str, created: i64) -> Job {
    Job::new_at(
        id.to_string(),
        format!("echo {id}"),
        "/work".to_string(),
        "/project".to_string(),
        at(created),
    )
}

fn ids(jobs: &[Job]) -> Vec<String> {
    jobs.iter().map(|j| j.id.clone()).collect()
}

fn same(a: &Job, b: &Job) -> bool {
    format!("{a:?}") == format!("{b:?}")
}

fn sample() -> JobStore {
    let mut store = JobStore::new();
    store.insert(&job("abc1", 10).with_name("build".to_string())).unwrap();
    store.insert(&job("abd2", 30).with_name("test".to_string())).unwrap();
    store.insert(&job("xyz9", 20).with_name("build".to_string())).unwrap();
    store
}

#[test]
fn insert_keeps_newest_first_and_older_ties_first() {
    let mut store = sample();
    assert_eq!(ids(&store.jobs()), ["abd2", "xyz9", "abc1"]);
    store.insert(&job("tie1", 20)).unwrap();
    assert_eq!(ids(&store.jobs()), ["abd2", "xyz9", "tie1", "abc1"]);
    store.insert(&job("old0", 1)).unwrap();
    store.insert(&job("new9", 99)).unwrap();
    assert_eq!(ids(&store.jobs()), ["new9", "abd2", "xyz9", "tie1", "abc1", "old0"]);
    assert_eq!(store.len(), 6);
}

#[test]
fn insert_refuses_a_taken_id() {
    let mut store = sample();
    let r = store.insert(&job("abc1", 50));
    assert!(matches!(r, Err(StoreError::DuplicateId)));
    assert_eq!(ids(&store.jobs()), ["abd2", "xyz9", "abc1"]);
}

#[test]
fn insert_refuses_a_taken_idempotency_key() {
    let mut store = sample();
    store.insert(&job("k1", 40).with_idempotency_key("K1".to_string())).unwrap();
    let r = store.insert(&job("k2", 41).with_idempotency_key("K1".to_string()));
    assert!(matches!(r, Err(StoreError::DuplicateKey)));
    assert_eq!(store.len(), 4);
    // another key, and no key at all, are both fine
    store.insert(&job("k3", 42).with_idempotency_key("K2".to_string())).unwrap();
    store.insert(&job("k4", 43)).unwrap();
    assert_eq!(store.len(), 6);
}

#[test]
fn insert_refuses_an_inconsistent_record_first() {
    let mut store = sample();
    let mut bad = job("abc1", 50);
    bad.status = Status::Running;
    let r = store.insert(&bad);
    assert!(matches!(r, Err(StoreError::InvalidJob)));
    assert_eq!(store.len(), 3);
}

#[test]
fn insert_then_get_by_id_prefix_and_key_return_the_same_record() {
    let mut store = sample();
    let j = job("qrs5", 25)
        .with_name("deploy".to_string())
        .with_timeout(60)
        .with_idempotency_key("K7".to_string());
    store.insert(&j).unwrap();
    let by_id = store.get("qrs5").unwrap().unwrap();
    let by_prefix = store.get("q").unwrap().unwrap();
    let by_longer_prefix = store.get("qrs").unwrap().unwrap();
    let by_key = store.get_by_idempotency_key("K7").unwrap();
    assert!(same(&by_id, &j));
    assert!(same(&by_prefix, &j));
    assert!(same(&by_longer_prefix, &j));
    assert!(same(&by_key, &j));
}

#[test]
fn get_prefers_the_exact_id_over_prefixes() {
    let mut store = JobStore::new();
    store.insert(&job("ab", 1)).unwrap();
    store.insert(&job("abc", 2)).unwrap();
    store.insert(&job("abd", 3)).unwrap();
    assert_eq!(store.get("ab").unwrap().unwrap().id, "ab");
    assert_eq!(store.get("abc").unwrap().unwrap().id, "abc");
}

#[test]
fn get_fails_on_an_ambiguous_prefix_and_names_the_candidates() {
    let store = sample();
    match store.get("ab") {
        Err(StoreError::Ambiguous(candidates)) => assert_eq!(candidates, ["abd2", "abc1"]),
        other => panic!("unexpected: {other:?}"),
    }
    match store.get("") {
        Err(StoreError::Ambiguous(candidates)) => assert_eq!(candidates, ["abd2", "xyz9", "abc1"]),
        other => panic!("unexpected: {other:?}"),
    }
}

#[test]
fn get_finds_nothing_for_an_unknown_id() {
    let store = sample();
    assert!(store.get("nope").unwrap().is_none());
    assert!(store.get("abc12").unwrap().is_none());
    assert!(JobStore::new().get("").unwrap().is_none());
}

#[test]
fn the_empty_prefix_finds_the_only_job() {
    let mut store = JobStore::new();
    store.insert(&job("only", 1)).unwrap();
    assert_eq!(store.get("").unwrap().unwrap().id, "only");
}

#[test]
fn get_by_name_returns_every_job_of_that_name() {
    let store = sample();
    assert_eq!(ids(&store.get_by_name("build")), ["xyz9", "abc1"]);
    assert_eq!(ids(&store.get_by_name("test")), ["abd2"]);
    assert!(store.get_by_name("none").is_empty());
}

#[test]
fn get_by_idempotency_key_finds_none_without_a_match() {
    let store = sample();
    assert!(store.get_by_idempotency_key("K1").is_none());
}

#[test]
fn list_filters_orders_and_limits() {
    let mut store = sample();
    store.update_started_at("xyz9", 42, at(21)).unwrap();
    assert_eq!(ids(&store.list(None, None)), ["abd2", "xyz9", "abc1"]);
    assert_eq!(ids(&store.list(None, Some(2))), ["abd2", "xyz9"]);
    assert_eq!(ids(&store.list(None, Some(3))), ["abd2", "xyz9", "abc1"]);
    assert_eq!(ids(&store.list(None, Some(100))), ["abd2", "xyz9", "abc1"]);
    assert!(store.list(None, Some(0)).is_empty());
    assert_eq!(ids(&store.list(Some(Status::Pending), None)), ["abd2", "abc1"]);
    assert_eq!(ids(&store.list(Some(Status::Pending), Some(1))), ["abd2"]);
    assert_eq!(ids(&store.list(Some(Status::Running), None)), ["xyz9"]);
    assert!(store.list(Some(Status::Failed), None).is_empty());
}

#[test]
fn count_by_status() {
    let mut store = sample();
    store.update_started_at("xyz9", 42, at(21)).unwrap();
    assert_eq!(store.count(None), 3);
    assert_eq!(store.count(Some(Status::Pending)), 2);
    assert_eq!(store.count(Some(Status::Running)), 1);
    assert_eq!(store.count(Some(Status::Completed)), 0);
    assert_eq!(JobStore::new().count(None), 0);
}

#[test]
fn update_started_takes_pending_to_running() {
    let mut store = sample();
    store.update_started_at("abc1", 4242, at(15)).unwrap();
    let j = store.get("abc1").unwrap().unwrap();
    assert_eq!(j.status, Status::Running);
    assert_eq!(j.pid, Some(4242));
    assert_eq!(j.started_at, Some(at(15)));
    assert_eq!(j.finished_at, None);
    assert_eq!(j.name.as_deref(), Some("build"));
    // the others are untouched
    assert_eq!(store.get("abd2").unwrap().unwrap().status, Status::Pending);
    assert_eq!(ids(&store.jobs()), ["abd2", "xyz9", "abc1"]);
}

#[test]
fn update_started_is_an_error_on_a_job_that_is_not_pending() {
    let mut store = sample();
    store.update_started_at("abc1", 1, at(15)).unwrap();
    let r = store.update_started_at("abc1", 2, at(16));
    assert!(matches!(r, Err(StoreError::InvalidTransition)));
    let j = store.get("abc1").unwrap().unwrap();
    assert_eq!(j.pid, Some(1));
    assert_eq!(j.started_at, Some(at(15)));
    let r = store.update_started_at("zzzz", 2, at(16));
    assert!(matches!(r, Err(StoreError::NotFound)));
    // the id must be exact: a prefix names no job here
    let r = store.update_started_at("ab", 2, at(16));
    assert!(matches!(r, Err(StoreError::NotFound)));
}

#[test]
fn a_clock_that_reads_early_does_not_put_the_start_before_the_creation() {
    let mut store = sample();
    store.update_started_at("abd2", 1, at(5)).unwrap();
    let j = store.get("abd2").unwrap().unwrap();
    assert_eq!(j.started_at, Some(at(30)));
    store.update_finished_at("abd2", Status::Completed, Some(0), at(7)).unwrap();
    let j = store.get("abd2").unwrap().unwrap();
    assert_eq!(j.finished_at, Some(at(30)));
    assert!(j.is_well_formed());
}

#[test]
fn update_finished_records_the_end() {
    let mut store = sample();
    store.update_started_at("abc1", 7, at(15)).unwrap();
    store.update_finished_at("abc1", Status::Failed, Some(3), at(18)).unwrap();
    let j = store.get("abc1").unwrap().unwrap();
    assert_eq!(j.status, Status::Failed);
    assert_eq!(j.exit_code, Some(3));
    assert_eq!(j.finished_at, Some(at(18)));
    assert_eq!(j.started_at, Some(at(15)));
    assert_eq!(j.pid, Some(7));
}

#[test]
fn update_finished_is_idempotent_on_the_same_status() {
    let mut store = sample();
    store.update_started_at("abc1", 7, at(15)).unwrap();
    store.update_finished_at("abc1", Status::Stopped, None, at(18)).unwrap();
    let first = store.get("abc1").unwrap().unwrap();
    store.update_finished_at("abc1", Status::Stopped, None, at(25)).unwrap();
    let second = store.get("abc1").unwrap().unwrap();
    assert!(same(&first, &second));
    // the last writer's exit code stands
    store.update_finished_at("abc1", Status::Stopped, Some(9), at(26)).unwrap();
    let third = store.get("abc1").unwrap().unwrap();
    assert_eq!(third.exit_code, Some(9));
    assert_eq!(third.finished_at, Some(at(18)));
}

#[test]
fn a_job_never_leaves_its_terminal_status() {
    let mut store = sample();
    store.update_started_at("abc1", 7, at(15)).unwrap();
    store.update_finished_at("abc1", Status::Completed, Some(0), at(18)).unwrap();
    let r = store.update_finished_at("abc1", Status::Stopped, None, at(19));
    assert!(matches!(r, Err(StoreError::InvalidTransition)));
    let r = store.update_started_at("abc1", 8, at(19));
    assert!(matches!(r, Err(StoreError::InvalidTransition)));
    let j = store.get("abc1").unwrap().unwrap();
    assert_eq!(j.status, Status::Completed);
    assert_eq!(j.exit_code, Some(0));
}

#[test]
fn update_finished_refuses_a_status_that_is_not_terminal() {
    let mut store = sample();
    let r = store.update_finished_at("abc1", Status::Running, None, at(19));
    assert!(matches!(r, Err(StoreError::InvalidTransition)));
    let r = store.update_finished_at("abc1", Status::Pending, None, at(19));
    assert!(matches!(r, Err(StoreError::InvalidTransition)));
    let r = store.update_finished_at("none", Status::Failed, None, at(19));
    assert!(matches!(r, Err(StoreError::NotFound)));
    assert_eq!(store.get("abc1").unwrap().unwrap().status, Status::Pending);
}

#[test]
fn a_pending_job_can_end_without_having_run() {
    let mut store = sample();
    store.update_finished_at("abc1", Status::Failed, None, at(19)).unwrap();
    let j = store.get("abc1").unwrap().unwrap();
    assert_eq!(j.status, Status::Failed);
    assert_eq!(j.started_at, None);
    assert_eq!(j.pid, None);
    assert_eq!(j.finished_at, Some(at(19)));
}

#[test]
fn the_clock_variants_use_the_present() {
    let mut store = JobStore::new();
    let j = Job::new("now1".to_string(), "true".to_string(), "/".to_string(), "/".to_string());
    let created = j.created_at;
    store.insert(&j).unwrap();
    store.update_started("now1", 5).unwrap();
    let started = store.get("now1").unwrap().unwrap().started_at.unwrap();
    assert!(!started.is_before(&created));
    store.update_finished("now1", Status::Completed, Some(0)).unwrap();
    let j = store.get("now1").unwrap().unwrap();
    assert!(!j.finished_at.unwrap().is_before(&started));
    assert!(j.is_well_formed());
    assert!(created.secs > 1_600_000_000);
}

#[test]
fn delete_old_removes_only_what_ended_before_the_cutoff() {
    let mut store = sample();
    store.update_finished_at("abc1", Status::Completed, Some(0), at(40)).unwrap();
    store.update_finished_at("abd2", Status::Failed, Some(1), at(50)).unwrap();
    // xyz9 stays pending
    assert_eq!(store.delete_old(at(40), None), 0);
    assert_eq!(store.delete_old(at(41), None), 1);
    assert_eq!(ids(&store.jobs()), ["abd2", "xyz9"]);
    assert_eq!(store.delete_old(at(1000), Some(Status::Completed)), 0);
    assert_eq!(store.delete_old(at(1000), Some(Status::Failed)), 1);
    assert_eq!(ids(&store.jobs()), ["xyz9"]);
    // a job that has not ended is never removed
    assert_eq!(store.delete_old(at(i64::MAX), None), 0);
    assert_eq!(store.delete_old(at(i64::MAX), Some(Status::Pending)), 0);
    assert_eq!(ids(&store.jobs()), ["xyz9"]);
}

#[test]
fn recover_orphans_leaves_no_job_pending_or_running() {
    let mut store = sample();
    store.update_started_at("abc1", 99999, at(15)).unwrap();
    store.update_started_at("abd2", 5, at(31)).unwrap();
    store.update_finished_at("abd2", Status::Completed, Some(0), at(32)).unwrap();
    store.recover_orphans_at(at(100));
    for j in store.jobs() {
        assert!(j.status.is_terminal());
        assert!(j.finished_at.is_some());
        assert!(j.is_well_formed());
    }
    let running = store.get("abc1").unwrap().unwrap();
    assert_eq!(running.status, Status::Interrupted);
    assert_eq!(running.finished_at, Some(at(100)));
    assert_eq!(running.exit_code, None);
    assert_eq!(running.pid, Some(99999));
    let pending = store.get("xyz9").unwrap().unwrap();
    assert_eq!(pending.status, Status::Interrupted);
    assert_eq!(pending.finished_at, Some(at(100)));
    let done = store.get("abd2").unwrap().unwrap();
    assert_eq!(done.status, Status::Completed);
    assert_eq!(done.exit_code, Some(0));
    assert_eq!(done.finished_at, Some(at(32)));
    assert_eq!(store.count(Some(Status::Pending)), 0);
    assert_eq!(store.count(Some(Status::Running)), 0);
}

#[test]
fn recover_orphans_with_the_present_clock() {
    let mut store = sample();
    store.recover_orphans();
    assert_eq!(store.count(Some(Status::Interrupted)), 3);
}

#[test]
fn resolve_tries_the_id_then_the_name() {
    let store = sample();
    assert_eq!(store.resolve("xyz9").unwrap().id, "xyz9");
    assert_eq!(store.resolve("x").unwrap().id, "xyz9");
    assert_eq!(store.resolve("test").unwrap().id, "abd2");
    assert!(matches!(store.resolve("nothing"), Err(StoreError::NotFound)));
    match store.resolve("build") {
        Err(StoreError::Ambiguous(candidates)) => assert_eq!(candidates, ["xyz9", "abc1"]),
        other => panic!("unexpected: {other:?}"),
    }
    match store.resolve("ab") {
        Err(StoreError::Ambiguous(candidates)) => assert_eq!(candidates, ["abd2", "abc1"]),
        other => panic!("unexpected: {other:?}"),
    }
}

#[test]
fn from_jobs_loads_what_jobs_gave() {
    let mut store = sample();
    store.update_started_at("abc1", 7, at(15)).unwrap();
    let saved = store.jobs();
    let loaded = JobStore::from_jobs(&saved).unwrap();
    assert_eq!(ids(&loaded.jobs()), ids(&saved));
    for (a, b) in loaded.jobs().iter().zip(saved.iter()) {
        assert!(same(a, b));
    }
    // whatever the order of the records, the store is newest first
    let mut shuffled = saved.clone();
    shuffled.reverse();
    let loaded = JobStore::from_jobs(&shuffled).unwrap();
    assert_eq!(ids(&loaded.jobs()), ["abd2", "xyz9", "abc1"]);
}

#[test]
fn from_jobs_fails_with_the_first_refusal() {
    let records = vec![job("a", 1), job("b", 2), job("a", 3)];
    assert!(matches!(JobStore::from_jobs(&records), Err(StoreError::DuplicateId)));
    let mut bad = job("c", 4);
    bad.finished_at = Some(at(5));
    let records = vec![job("a", 1), bad, job("a", 3)];
    assert!(matches!(JobStore::from_jobs(&records), Err(StoreError::InvalidJob)));
    let records = vec![
        job("a", 1).with_idempotency_key("K".to_string()),
        job("b", 2).with_idempotency_key("K".to_string()),
    ];
    assert!(matches!(JobStore::from_jobs(&records), Err(StoreError::DuplicateKey)));
    assert_eq!(JobStore::from_jobs(&Vec::new()).unwrap().len(), 0);
}

#[test]
fn error_messages() {
    assert_eq!(StoreError::NotFound.message(), "No job found");
    assert_eq!(StoreError::Ambiguous(vec![]).message(), "Ambiguous job ID or name");
    assert_eq!(StoreError::DuplicateId.message(), "A job with this ID already exists");
    assert_eq!(
        StoreError::DuplicateKey.message(),
        "A job with this idempotency key already exists"
    );
    assert_eq!(StoreError::InvalidJob.message(), "The job record is inconsistent");
    assert_eq!(
        StoreError::InvalidTransition.message(),
        "The job is not in a state that allows this"
    );
}

#[test]
fn every_stored_job_keeps_the_invariants_through_a_life() {
    let mut store = sample();
    let check = |store: &JobStore| {
        store.rules_hold();
        let jobs = store.jobs();
        for (i, j) in jobs.iter().enumerate() {
            assert!(j.is_well_formed());
            assert_eq!(j.status.is_terminal(), j.finished_at.is_some());
            if j.status == Status::Running {
                assert!(j.pid.is_some() && j.started_at.is_some());
            }
            for k in &jobs[i + 1..] {
                assert_ne!(j.id, k.id);
                assert!(j.idempotency_key.is_none() || j.idempotency_key != k.idempotency_key);
                assert!(!j.created_at.is_before(&k.created_at));
            }
        }
    };
    check(&store);
    store.insert(&job("k1", 40).with_idempotency_key("K1".to_string())).unwrap();
    check(&store);
    store.update_started_at("k1", 1, at(41)).unwrap();
    check(&store);
    store.update_finished_at("k1", Status::Completed, Some(0), at(42)).unwrap();
    check(&store);
    store.recover_orphans_at(at(43));
    check(&store);
    store.delete_old(at(43), None);
    check(&store);
}
