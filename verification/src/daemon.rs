//! The daemon's state: the job store, and the table of the jobs whose
//! processes it watches right now.

use crate::job::{Job, JobView};
use crate::paths::Paths;
use crate::signal::{group_of, kill_process_group, KillOutcome};
use crate::status::Status;
use crate::store::{
    all_recovered, finished, found_by_id, job_at, lemma_job_at_after_put,
    lemma_job_at_is_member, listed, put, started, store_wf, JobStore, StoreError,
};
use crate::time::{now, Timestamp};
use crate::text::texts;
use vstd::prelude::*;

verus! {

/// A job whose process the daemon watches.
#[derive(Debug)]
pub struct RunningJob {
    pub id: String,
    /// The process id of the job's shell, which leads its process group.
    pub pid: u32,
    /// Whether a client has asked for the job to be stopped.
    pub stop_requested: bool,
}

/// What a table entry holds, with the id as its sequence of characters.
pub struct RunningView {
    pub id: Seq<char>,
    pub pid: u32,
    pub stop_requested: bool,
}

impl View for RunningJob {
    type V = RunningView;

    open spec fn view(&self) -> RunningView {
        RunningView { id: self.id@, pid: self.pid, stop_requested: self.stop_requested }
    }
}

/// The views of a run of table entries.
pub open spec fn entries(running: Seq<RunningJob>) -> Seq<RunningView> {
    running.map_values(|e: RunningJob| e@)
}

/// The table has an entry for this id.
pub open spec fn watched(running: Seq<RunningView>, id: Seq<char>) -> bool {
    exists|i: int| 0 <= i < running.len() && (#[trigger] running[i]).id == id
}

/// The table fits the store: no id has two entries, and each entry stands
/// for a stored job that is running as the process the entry names.
pub open spec fn table_fits(jobs: Seq<JobView>, running: Seq<RunningView>) -> bool {
    &&& forall|i: int, j: int| 0 <= i < j < running.len() ==> running[i].id != running[j].id
    &&& forall|i: int|
        0 <= i < running.len() ==> {
            &&& job_at(jobs, (#[trigger] running[i]).id) matches Some(job)
            &&& job.status is Running
            &&& job.pid == Some(running[i].pid)
        }
}

/// The table without the entry for `id`.
pub open spec fn unwatched(running: Seq<RunningView>, id: Seq<char>) -> Seq<RunningView> {
    running.filter(|e: RunningView| e.id != id)
}

/// The table with the stop request noted on the entry for `id`.
pub open spec fn stop_noted(running: Seq<RunningView>, id: Seq<char>) -> Seq<RunningView> {
    running.map_values(
        |e: RunningView|
            if e.id == id {
                RunningView { stop_requested: true, ..e }
            } else {
                e
            },
    )
}

/// Every job that the table watches, ended as interrupted at `now`; the
/// others as they are.
pub open spec fn all_interrupted(
    jobs: Seq<JobView>,
    running: Seq<RunningView>,
    now: Timestamp,
) -> Seq<JobView> {
    jobs.map_values(
        |j: JobView|
            if watched(running, j.id) {
                finished(j, Status::Interrupted, None, now)
            } else {
                j
            },
    )
}

/// What became of a submission.
#[derive(Debug)]
pub enum Submission {
    /// A job was submitted under the same idempotency key before: this is
    /// that job, and nothing new was stored.
    Existing(Job),
    /// The job was stored as given and waits to be spawned.
    Accepted(Job),
    /// The store refused the job.
    Rejected(StoreError),
}

/// Where every job but one meets a condition, a filter drops that one.
pub proof fn lemma_filter_drops_one<A>(s: Seq<A>, pred: spec_fn(A) -> bool, i: int)
    requires
        0 <= i < s.len(),
        !pred(s[i]),
        forall|k: int| 0 <= k < s.len() && k != i ==> pred(#[trigger] s[k]),
    ensures
        s.filter(pred) == s.remove(i),
    decreases s.len(),
{
    reveal(Seq::filter);
    let front = s.drop_last();
    if i == s.len() - 1 {
        lemma_filter_keeps_all(front, pred);
        assert(s.remove(i) =~= front);
    } else {
        assert(front[i] == s[i]);
        assert forall|k: int| 0 <= k < front.len() && k != i implies pred(#[trigger] front[k]) by {
            assert(front[k] == s[k]);
        }
        lemma_filter_drops_one(front, pred, i);
        assert(s.remove(i) =~= front.remove(i).push(s.last()));
    }
}

/// Where every job meets a condition, a filter on it keeps them all.
pub proof fn lemma_filter_keeps_all<A>(s: Seq<A>, pred: spec_fn(A) -> bool)
    requires
        forall|k: int| 0 <= k < s.len() ==> pred(#[trigger] s[k]),
    ensures
        s.filter(pred) == s,
    decreases s.len(),
{
    reveal(Seq::filter);
    if s.len() > 0 {
        let front = s.drop_last();
        assert forall|k: int| 0 <= k < front.len() implies pred(#[trigger] front[k]) by {
            assert(front[k] == s[k]);
        }
        lemma_filter_keeps_all(front, pred);
        assert(front.push(s.last()) =~= s);
    }
}

/// Letting go of one entry leaves the ids of the others apart.
pub proof fn lemma_unwatched_keeps_unique(running: Seq<RunningView>, id: Seq<char>, a: int, b: int)
    requires
        forall|i: int, j: int| 0 <= i < j < running.len() ==> running[i].id != running[j].id,
        0 <= a < b < unwatched(running, id).len(),
    ensures
        unwatched(running, id)[a].id != unwatched(running, id)[b].id,
    decreases running.len(),
{
    reveal(Seq::filter);
    let keep = |e: RunningView| e.id != id;
    let after = running.filter(keep);
    if running.len() > 0 {
        let front = running.drop_last();
        assert forall|i: int, j: int| 0 <= i < j < front.len() implies front[i].id
            != front[j].id by {
            assert(front[i] == running[i] && front[j] == running[j]);
        }
        let sub = front.filter(keep);
        if keep(running.last()) {
            assert(after == sub.push(running.last()));
            if b < sub.len() {
                lemma_unwatched_keeps_unique(front, id, a, b);
            } else {
                front.lemma_filter_contains_rev(keep, sub[a]);
                let o = choose|o: int| 0 <= o < front.len() && front[o] == sub[a];
                assert(running[o].id != running[running.len() - 1].id);
            }
        } else {
            assert(after == sub);
            lemma_unwatched_keeps_unique(front, id, a, b);
        }
    }
}

/// The process that the table names for `id`, where it has an entry.
pub open spec fn watched_pid(running: Seq<RunningView>, id: Seq<char>) -> Option<u32> {
    if watched(running, id) {
        Some(running[choose|i: int| 0 <= i < running.len() && (#[trigger] running[i]).id == id].pid)
    } else {
        None
    }
}

/// The answer to a stop request for a job that the daemon does not watch.
pub open spec fn not_running_message(id: Seq<char>) -> Seq<char> {
    "Job "@ + id + " is not running"@
}

/// The answer to a stop request for a job whose entry names no process group.
pub open spec fn no_group_message(id: Seq<char>) -> Seq<char> {
    "Job "@ + id + " has no process group to signal"@
}

/// The answer to a stop request whose signal the system did not take.
pub open spec fn stop_failed_message(id: Seq<char>) -> Seq<char> {
    "Failed to stop job "@ + id
}

/// What a stop request comes to: the answer and the table after it. A
/// job that is not watched is not running; an entry whose pid names no
/// process group is refused; otherwise the group is signalled, and either
/// the request is noted on the entry or the signal has failed.
pub open spec fn stop_result(
    running: Seq<RunningView>,
    id: Seq<char>,
    response: crate::message::ResponseView,
    after: Seq<RunningView>,
) -> bool {
    match watched_pid(running, id) {
        None => {
            &&& response == crate::message::ResponseView::Error(not_running_message(id))
            &&& after == running
        },
        Some(pid) => if group_of(pid) is None {
            &&& response == crate::message::ResponseView::Error(no_group_message(id))
            &&& after == running
        } else {
            ||| {
                &&& response == crate::message::ResponseView::Okay
                &&& after == stop_noted(running, id)
            }
            ||| {
                &&& response == crate::message::ResponseView::Error(stop_failed_message(id))
                &&& after == running
            }
        },
    }
}

/// In a table without double entries an id names one place only.
pub proof fn lemma_watched_pid(running: Seq<RunningView>, i: int)
    requires
        forall|a: int, b: int| 0 <= a < b < running.len() ==> running[a].id != running[b].id,
        0 <= i < running.len(),
    ensures
        watched_pid(running, running[i].id) == Some(running[i].pid),
{
    let id = running[i].id;
    let c = choose|c: int| 0 <= c < running.len() && (#[trigger] running[c]).id == id;
    if c < i {
        assert(running[c].id != running[i].id);
    } else if i < c {
        assert(running[i].id != running[c].id);
    }
}

/// The state of the daemon.
pub struct DaemonState {
    store: JobStore,
    paths: Paths,
    started_at: Timestamp,
    running: Vec<RunningJob>,
}

impl DaemonState {
    #[verifier::type_invariant]
    closed spec fn inv(self) -> bool {
        store_wf(self.store@) && table_fits(self.store@, entries(self.running@))
    }

    /// The stored jobs, newest first.
    pub closed spec fn jobs(&self) -> Seq<JobView> {
        self.store@
    }

    /// The table of watched jobs.
    pub closed spec fn running(&self) -> Seq<RunningView> {
        entries(self.running@)
    }

    /// When the daemon started.
    pub closed spec fn started_at(&self) -> Timestamp {
        self.started_at
    }

    /// The root of the daemon's data directory.
    pub closed spec fn root(&self) -> Seq<char> {
        self.paths@
    }

    /// The state of a daemon that starts now on the store given. See `new_at`.
    pub fn new(paths: &Paths, store: JobStore) -> (state: DaemonState)
        ensures
            exists|at: Timestamp|
                state.jobs() == all_recovered(store@, at) && state.started_at() == at,
            forall|i: int| 0 <= i < state.jobs().len() ==> (#[trigger] state.jobs()[i]).status.terminal(),
            state.running() == Seq::<RunningView>::empty(),
            state.root() == paths@,
            state.consistent(),
    {
        DaemonState::new_at(paths, store, now())
    }

    /// The state of a daemon that starts at `now` on the store given. Every
    /// job that the store holds as pending or running is a leftover of an
    /// earlier daemon and is marked interrupted; the table is empty.
    pub fn new_at(paths: &Paths, store: JobStore, now: Timestamp) -> (state: DaemonState)
        ensures
            state.jobs() == all_recovered(store@, now),
            forall|i: int| 0 <= i < state.jobs().len() ==> (#[trigger] state.jobs()[i]).status.terminal(),
            state.running() == Seq::<RunningView>::empty(),
            state.started_at() == now,
            state.root() == paths@,
            state.consistent(),
    {
        let mut store = store;
        store.recover_orphans_at(now);
        let running: Vec<RunningJob> = Vec::new();
        assert(entries(running@) =~= Seq::<RunningView>::empty());
        DaemonState { store, paths: paths.duplicate(), started_at: now, running }
    }

    /// The store keeps its rules and the table fits the store.
    pub open spec fn consistent(&self) -> bool {
        store_wf(self.jobs()) && table_fits(self.jobs(), self.running())
    }

    /// The state is consistent at all times.
    pub fn is_consistent(&self)
        ensures
            self.consistent(),
    {
        proof {
            use_type_invariant(self);
        }
    }

    /// The layout of the daemon's data directory.
    pub fn paths(&self) -> (paths: &Paths)
        ensures
            paths@ == self.root(),
    {
        &self.paths
    }

    /// The job store.
    pub fn store(&self) -> (store: &JobStore)
        ensures
            store@ == self.jobs(),
    {
        &self.store
    }

    /// Whole seconds since the daemon started, as of now.
    pub fn uptime_secs(&self) -> (secs: u64)
        ensures
            exists|at: Timestamp| secs == at.secs_since(self.started_at()),
    {
        let at = now();
        self.uptime_at(at)
    }

    /// Whole seconds from the daemon's start to `now`.
    pub fn uptime_at(&self, now: Timestamp) -> (secs: u64)
        ensures
            secs == now.secs_since(self.started_at()),
    {
        now.elapsed_secs_since(&self.started_at)
    }

    /// How many jobs the daemon watches.
    pub fn running_count(&self) -> (n: usize)
        ensures
            n == self.running().len(),
    {
        self.running.len()
    }

    /// How many jobs the store holds.
    pub fn total_jobs(&self) -> (n: usize)
        ensures
            n == self.jobs().len(),
    {
        self.store.len()
    }

    /// Looks a job up by its id or by the beginning of its id.
    pub fn get_job(&self, id: &str) -> (r: Result<Option<Job>, StoreError>)
        ensures
            match r {
                Ok(Some(job)) => found_by_id(self.jobs(), id@) == Ok::<
                    Option<JobView>,
                    Seq<Seq<char>>,
                >(Some(job@)),
                Ok(None) => found_by_id(self.jobs(), id@) == Ok::<Option<JobView>, Seq<Seq<char>>>(
                    None,
                ),
                Err(StoreError::Ambiguous(ids)) => found_by_id(self.jobs(), id@) == Err::<
                    Option<JobView>,
                    Seq<Seq<char>>,
                >(texts(ids@)),
                Err(_) => false,
            },
    {
        self.store.get(id)
    }

    /// The jobs in the given status, newest first, up to the limit.
    pub fn list_jobs(&self, status: Option<Status>, limit: Option<usize>) -> (shown: Vec<Job>)
        ensures
            crate::job::views(shown@) == listed(self.jobs(), status, limit),
    {
        self.store.list(status, limit)
    }

    /// Takes the store and the table out of the state to work on them, and
    /// leaves both empty.
    fn take_apart(&mut self) -> (parts: (JobStore, Vec<RunningJob>))
        ensures
            parts.0@ == old(self).jobs(),
            entries(parts.1@) == old(self).running(),
            store_wf(parts.0@),
            table_fits(parts.0@, entries(parts.1@)),
            final(self).jobs() == Seq::<JobView>::empty(),
            final(self).running() == Seq::<RunningView>::empty(),
            final(self).started_at() == old(self).started_at(),
            final(self).root() == old(self).root(),
    {
        proof {
            use_type_invariant(&*self);
        }
        let mut running: Vec<RunningJob> = Vec::new();
        assert(entries(running@) =~= Seq::<RunningView>::empty());
        std::mem::swap(&mut running, &mut self.running);
        let mut store = JobStore::new();
        std::mem::swap(&mut store, &mut self.store);
        (store, running)
    }

    /// Puts a store and a table that fits it into the state.
    fn put_together(&mut self, store: JobStore, running: Vec<RunningJob>)
        requires
            old(self).running() == Seq::<RunningView>::empty(),
            store_wf(store@),
            table_fits(store@, entries(running@)),
        ensures
            final(self).jobs() == store@,
            final(self).running() == entries(running@),
            final(self).started_at() == old(self).started_at(),
            final(self).root() == old(self).root(),
    {
        self.store = store;
        self.running = running;
    }

    /// Takes a submission. Where the job carries an idempotency key under
    /// which a job is stored already, that job is the answer and the store
    /// stays as it is. Otherwise the job goes into the store as `insert`
    /// puts it, or is refused as `insert` refuses it.
    pub fn submit(&mut self, job: Job) -> (r: Submission)
        ensures
            final(self).running() == old(self).running(),
            final(self).started_at() == old(self).started_at(),
            final(self).root() == old(self).root(),
            match r {
                Submission::Existing(prior) => {
                    &&& job@.idempotency_key is Some
                    &&& prior@.idempotency_key == job@.idempotency_key
                    &&& old(self).jobs().contains(prior@)
                    &&& final(self).jobs() == old(self).jobs()
                },
                Submission::Accepted(stored) => {
                    &&& stored@ == job@
                    &&& crate::store::insert_refusal(old(self).jobs(), job@) is None
                    &&& final(self).jobs() == crate::store::with_job(old(self).jobs(), job@)
                },
                Submission::Rejected(e) => {
                    &&& crate::store::insert_refusal(old(self).jobs(), job@) == Some(e)
                    &&& !(e is DuplicateKey)
                    &&& final(self).jobs() == old(self).jobs()
                },
            },
            job@.idempotency_key matches Some(key) && crate::store::has_key(old(self).jobs(), key)
                ==> r is Existing,
    {
        proof {
            use_type_invariant(&*self);
        }
        let prior = match &job.idempotency_key {
            Some(key) => self.store.get_by_idempotency_key(key.as_str()),
            None => None,
        };
        if let Some(prior) = prior {
            return Submission::Existing(prior);
        }
        let (mut store, running) = self.take_apart();
        let ghost before = store@;
        match store.insert(&job) {
            Ok(()) => {
                proof {
                    let table = entries(running@);
                    assert forall|i: int| 0 <= i < table.len() implies {
                        &&& job_at(store@, (#[trigger] table[i]).id) matches Some(j)
                        &&& j.status is Running
                        &&& j.pid == Some(table[i].pid)
                    } by {
                        crate::store::lemma_job_at_after_insert(before, job@, table[i].id);
                        lemma_job_at_is_member(before, table[i].id, job@);
                    }
                }
                self.put_together(store, running);
                Submission::Accepted(job)
            },
            Err(e) => {
                self.put_together(store, running);
                Submission::Rejected(e)
            },
        }
    }

    /// Records that the job's process runs: the store takes the job from
    /// pending to running, and then the table takes it up. A job that is
    /// not pending is refused and nothing changes.
    pub fn job_started(&mut self, id: &str, pid: u32, now: Timestamp) -> (r: Result<
        (),
        StoreError,
    >)
        ensures
            final(self).started_at() == old(self).started_at(),
            final(self).root() == old(self).root(),
            final(self).consistent(),
            match r {
                Ok(()) => {
                    &&& job_at(old(self).jobs(), id@) matches Some(job)
                    &&& job.status is Pending
                    &&& final(self).jobs() == put(old(self).jobs(), started(job, pid, now))
                    &&& final(self).running() == old(self).running().push(
                        RunningView { id: id@, pid, stop_requested: false },
                    )
                },
                Err(StoreError::NotFound) => {
                    &&& job_at(old(self).jobs(), id@) is None
                    &&& final(self).jobs() == old(self).jobs()
                    &&& final(self).running() == old(self).running()
                },
                Err(StoreError::InvalidTransition) => {
                    &&& job_at(old(self).jobs(), id@) matches Some(job)
                    &&& !(job.status is Pending)
                    &&& final(self).jobs() == old(self).jobs()
                    &&& final(self).running() == old(self).running()
                },
                Err(_) => false,
            },
    {
        let (mut store, mut running) = self.take_apart();
        let ghost before = store@;
        let ghost table = entries(running@);
        let r = store.update_started_at(id, pid, now);
        if r.is_ok() {
            let entry = RunningJob { id: id.to_owned(), pid, stop_requested: false };
            running.push(entry);
            proof {
                let job = job_at(before, id@)->0;
                let new = started(job, pid, now);
                lemma_job_at_is_member(before, id@, job);
                let i = choose|i: int| 0 <= i < before.len() && before[i] == job;
                let after = entries(running@);
                assert(after =~= table.push(RunningView { id: id@, pid, stop_requested: false }));
                assert forall|k: int| 0 <= k < after.len() implies {
                    &&& job_at(store@, (#[trigger] after[k]).id) matches Some(j)
                    &&& j.status is Running
                    &&& j.pid == Some(after[k].pid)
                } by {
                    lemma_job_at_after_put(before, i, new, after[k].id);
                    if k < table.len() {
                        assert(after[k] == table[k]);
                    }
                }
                assert forall|a: int, b: int| 0 <= a < b < after.len() implies after[a].id
                    != after[b].id by {
                    assert(after[a] == table[a]);
                    if b < table.len() {
                        assert(after[b] == table[b]);
                    }
                }
            }
        }
        self.put_together(store, running);
        r
    }

    /// Records that the job has ended: the store takes it to the terminal
    /// status given, and then the table lets go of it. What the store
    /// refuses leaves everything as it is.
    pub fn finish_job(
        &mut self,
        id: &str,
        status: Status,
        exit_code: Option<i32>,
        now: Timestamp,
    ) -> (r: Result<(), StoreError>)
        ensures
            final(self).started_at() == old(self).started_at(),
            final(self).root() == old(self).root(),
            final(self).consistent(),
            match r {
                Ok(()) => {
                    &&& job_at(old(self).jobs(), id@) matches Some(job)
                    &&& status.terminal()
                    &&& job.status.terminal() ==> job.status == status
                    &&& final(self).jobs() == put(
                        old(self).jobs(),
                        if job.status.terminal() {
                            JobView { exit_code, ..job }
                        } else {
                            finished(job, status, exit_code, now)
                        },
                    )
                    &&& final(self).running() == unwatched(old(self).running(), id@)
                },
                Err(StoreError::NotFound) => {
                    &&& job_at(old(self).jobs(), id@) is None
                    &&& final(self).jobs() == old(self).jobs()
                    &&& final(self).running() == old(self).running()
                },
                Err(StoreError::InvalidTransition) => {
                    &&& job_at(old(self).jobs(), id@) matches Some(job)
                    &&& !status.terminal() || (job.status.terminal() && job.status != status)
                    &&& final(self).jobs() == old(self).jobs()
                    &&& final(self).running() == old(self).running()
                },
                Err(_) => false,
            },
    {
        let (mut store, mut running) = self.take_apart();
        let ghost before = store@;
        let ghost table = entries(running@);
        let r = store.update_finished_at(id, status, exit_code, now);
        if r.is_ok() {
            let ghost job = job_at(before, id@)->0;
            let ghost new = if job.status.terminal() {
                JobView { exit_code, ..job }
            } else {
                finished(job, status, exit_code, now)
            };
            let ghost i = choose|i: int| 0 <= i < before.len() && before[i] == job;
            proof {
                lemma_job_at_is_member(before, id@, job);
            }
            let at = Self::entry_index(&running, id);
            let ghost keep = |e: RunningView| e.id != id@;
            match at {
                Some(k) => {
                    running.remove(k);
                    proof {
                        assert forall|m: int| 0 <= m < table.len() && m != k implies keep(
                            #[trigger] table[m],
                        ) by {
                            if m < k {
                                assert(table[m].id != table[k as int].id);
                            } else {
                                assert(table[k as int].id != table[m].id);
                            }
                        }
                        lemma_filter_drops_one(table, keep, k as int);
                        assert(entries(running@) =~= table.remove(k as int));
                    }
                },
                None => {
                    proof {
                        lemma_filter_keeps_all(table, keep);
                    }
                },
            }
            proof {
                let after = entries(running@);
                assert(after == unwatched(table, id@));
                assert forall|m: int| 0 <= m < after.len() implies {
                    &&& job_at(store@, (#[trigger] after[m]).id) matches Some(j)
                    &&& j.status is Running
                    &&& j.pid == Some(after[m].pid)
                } by {
                    after.lemma_filter_contains_rev(keep, after[m]);
                    table.lemma_filter_pred(keep, m);
                    let o = choose|o: int| 0 <= o < table.len() && table[o] == after[m];
                    assert(table[o].id != id@);
                    lemma_job_at_after_put(before, i, new, after[m].id);
                }
                assert forall|a: int, b: int| 0 <= a < b < after.len() implies after[a].id
                    != after[b].id by {
                    lemma_unwatched_keeps_unique(table, id@, a, b);
                }
            }
        }
        self.put_together(store, running);
        r
    }

    /// Answers a stop request once the signal has been tried. A signal that
    /// was sent is noted on the job's entry, so that the job's end is taken
    /// as a stop; one that was refused or failed changes nothing.
    pub fn note_stop(&mut self, id: &str, outcome: KillOutcome) -> (r: crate::message::Response)
        ensures
            final(self).jobs() == old(self).jobs(),
            final(self).started_at() == old(self).started_at(),
            final(self).root() == old(self).root(),
            final(self).consistent(),
            if !watched(old(self).running(), id@) {
                &&& r@ == crate::message::ResponseView::Error(not_running_message(id@))
                &&& final(self).running() == old(self).running()
            } else {
                match outcome {
                    KillOutcome::Refused => {
                        &&& r@ == crate::message::ResponseView::Error(no_group_message(id@))
                        &&& final(self).running() == old(self).running()
                    },
                    KillOutcome::Failed => {
                        &&& r@ == crate::message::ResponseView::Error(stop_failed_message(id@))
                        &&& final(self).running() == old(self).running()
                    },
                    KillOutcome::Delivered => {
                        &&& r@ == crate::message::ResponseView::Okay
                        &&& final(self).running() == stop_noted(old(self).running(), id@)
                    },
                }
            },
    {
        let (store, mut running) = self.take_apart();
        let ghost table = entries(running@);
        let at = Self::entry_index(&running, id);
        let r = match at {
            None => {
                let message = "Job ".to_string().concat(id).concat(" is not running");
                crate::message::Response::Error(message)
            },
            Some(k) => match outcome {
                KillOutcome::Refused => {
                    let message = "Job ".to_string().concat(id).concat(
                        " has no process group to signal",
                    );
                    crate::message::Response::Error(message)
                },
                KillOutcome::Failed => {
                    let message = "Failed to stop job ".to_string().concat(id);
                    crate::message::Response::Error(message)
                },
                KillOutcome::Delivered => {
                    let entry = RunningJob {
                        id: running[k].id.clone(),
                        pid: running[k].pid,
                        stop_requested: true,
                    };
                    running.set(k, entry);
                    proof {
                        let after = entries(running@);
                        assert forall|m: int| 0 <= m < table.len() implies after[m]
                            == stop_noted(table, id@)[m] by {
                            if m < k {
                                assert(table[m].id != table[k as int].id);
                            } else if k < m {
                                assert(table[k as int].id != table[m].id);
                            }
                        }
                        assert(after =~= stop_noted(table, id@));
                        assert forall|m: int| 0 <= m < after.len() implies {
                            &&& job_at(store@, (#[trigger] after[m]).id) matches Some(j)
                            &&& j.status is Running
                            &&& j.pid == Some(after[m].pid)
                        } by {
                            assert(after[m].id == table[m].id && after[m].pid == table[m].pid);
                        }
                        assert forall|a: int, b: int| 0 <= a < b < after.len() implies after[a].id
                            != after[b].id by {
                            assert(after[a].id == table[a].id && after[b].id == table[b].id);
                        }
                    }
                    crate::message::Response::Okay
                },
            },
        };
        self.put_together(store, running);
        r
    }

    /// Stops a job: signals the whole process group of its shell, with
    /// SIGKILL where `force` is set and SIGTERM otherwise. A job that the
    /// daemon does not watch is not running, and the answer says so; an
    /// entry whose pid names no process group is refused.
    pub fn stop_job(&mut self, id: &str, force: bool) -> (r: crate::message::Response)
        ensures
            final(self).jobs() == old(self).jobs(),
            final(self).started_at() == old(self).started_at(),
            final(self).root() == old(self).root(),
            final(self).consistent(),
            stop_result(old(self).running(), id@, r@, final(self).running()),
    {
        proof {
            use_type_invariant(&*self);
        }
        match Self::entry_index(&self.running, id) {
            None => self.note_stop(id, KillOutcome::Refused),
            Some(k) => {
                proof {
                    lemma_watched_pid(self.running(), k as int);
                }
                let outcome = kill_process_group(self.running[k].pid, force);
                self.note_stop(id, outcome)
            },
        }
    }

    /// Interrupts every watched job, as of now. See `interrupt_running_jobs_at`.
    pub fn interrupt_running_jobs(&mut self) -> (n: usize)
        ensures
            exists|at: Timestamp|
                final(self).jobs() == all_interrupted(old(self).jobs(), old(self).running(), at),
            final(self).running() == Seq::<RunningView>::empty(),
            n == old(self).running().len(),
            final(self).started_at() == old(self).started_at(),
            final(self).root() == old(self).root(),
            final(self).consistent(),
    {
        let at = now();
        self.interrupt_running_jobs_at(at)
    }

    /// Empties the table when the daemon shuts down: the process group of
    /// every watched job is sent SIGTERM, and the store records the job as
    /// interrupted at `now`. Returns how many jobs that were.
    pub fn interrupt_running_jobs_at(&mut self, now: Timestamp) -> (n: usize)
        ensures
            final(self).jobs() == all_interrupted(old(self).jobs(), old(self).running(), now),
            final(self).running() == Seq::<RunningView>::empty(),
            n == old(self).running().len(),
            final(self).started_at() == old(self).started_at(),
            final(self).root() == old(self).root(),
            final(self).consistent(),
    {
        let (mut store, running) = self.take_apart();
        let ghost before = store@;
        let ghost table = entries(running@);
        let mut k: usize = 0;
        proof {
            assert forall|m: int| 0 <= m < before.len() implies !watched(
                table.take(0),
                (#[trigger] before[m]).id,
            ) by {}
            assert(store@ =~= all_interrupted(before, table.take(0), now));
        }
        while k < running.len()
            invariant
                k <= running.len(),
                table == entries(running@),
                store_wf(before),
                table_fits(before, table),
                store_wf(store@),
                store@ == all_interrupted(before, table.take(k as int), now),
            decreases running.len() - k,
        {
            let entry = &running[k];
            let ghost stored = store@;
            let ghost e = table[k as int];
            assert(entry@ == e);
            let _ = kill_process_group(entry.pid, false);
            let r = store.update_finished_at(entry.id.as_str(), Status::Interrupted, None, now);
            proof {
                let job = job_at(before, e.id)->0;
                lemma_job_at_is_member(before, e.id, job);
                let i = choose|i: int| 0 <= i < before.len() && before[i] == job;
                assert(!watched(table.take(k as int), e.id)) by {
                    if watched(table.take(k as int), e.id) {
                        let w = choose|w: int|
                            0 <= w < table.take(k as int).len() && (#[trigger] table.take(
                                k as int,
                            )[w]).id == e.id;
                        assert(table[w].id != table[k as int].id);
                    }
                }
                assert(stored[i] == job);
                crate::store::lemma_job_at(stored, i);
                assert(r is Ok);
                let new = finished(job, Status::Interrupted, None, now);
                let next = all_interrupted(before, table.take(k + 1), now);
                assert forall|m: int| 0 <= m < before.len() implies put(stored, new)[m]
                    == next[m] by {
                    let id = before[m].id;
                    assert(stored[m].id == id);
                    if id == e.id {
                        assert(m == i) by {
                            if m < i {
                                assert(before[m].id != before[i].id);
                            } else if i < m {
                                assert(before[i].id != before[m].id);
                            }
                        }
                        assert(table.take(k + 1)[k as int].id == id);
                    } else {
                        if watched(table.take(k as int), id) {
                            let w = choose|w: int|
                                0 <= w < table.take(k as int).len() && (#[trigger] table.take(
                                    k as int,
                                )[w]).id == id;
                            assert(table.take(k + 1)[w].id == id);
                        }
                        if watched(table.take(k + 1), id) {
                            let w = choose|w: int|
                                0 <= w < table.take(k + 1).len() && (#[trigger] table.take(
                                    k + 1,
                                )[w]).id == id;
                            assert(w != k);
                            assert(table.take(k as int)[w].id == id);
                        }
                    }
                }
                assert(put(stored, new) =~= next);
            }
            k += 1;
        }
        assert(table.take(running.len() as int) == table);
        let n: usize = running.len();
        let idle: Vec<RunningJob> = Vec::new();
        assert(entries(idle@) =~= Seq::<RunningView>::empty());
        self.put_together(store, idle);
        n
    }

    /// The place of the table entry for `id`.
    fn entry_index(running: &Vec<RunningJob>, id: &str) -> (r: Option<usize>)
        ensures
            match r {
                Some(i) => i < running@.len() && entries(running@)[i as int].id == id@
                    && running@[i as int]@ == entries(running@)[i as int],
                None => !watched(entries(running@), id@),
            },
    {
        let wanted = id.to_owned();
        let ghost table = entries(running@);
        let mut i: usize = 0;
        while i < running.len()
            invariant
                i <= running.len(),
                table == entries(running@),
                wanted@ == id@,
                forall|k: int| 0 <= k < i ==> (#[trigger] table[k]).id != id@,
            decreases running.len() - i,
        {
            if running[i].id == wanted {
                return Some(i);
            }
            i += 1;
        }
        None
    }

    /// The table entry for `id`, if the daemon watches that job.
    pub fn running_job(&self, id: &str) -> (entry: Option<RunningJob>)
        ensures
            match entry {
                Some(e) => self.running().contains(e@) && e@.id == id@,
                None => !watched(self.running(), id@),
            },
    {
        match Self::entry_index(&self.running, id) {
            Some(i) => {
                let e = &self.running[i];
                assert(self.running()[i as int] == e@);
                Some(RunningJob { id: e.id.clone(), pid: e.pid, stop_requested: e.stop_requested })
            },
            None => None,
        }
    }
}

} // verus!
