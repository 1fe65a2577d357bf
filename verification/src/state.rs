//! The process-wide shared context: the cache, the in-flight marks, the job
//! registry, the admin gate and the session-validity flag. Every request
//! handler and background worker works against one value of this type.

use vstd::prelude::*;

use crate::admin::AdminOperationGate;
use crate::cache::CacheStore;
use crate::errors::JobRejection;
use crate::jobs::{start_job_spec, JobRegistry, JobStatus, LIVENESS_WINDOW_SECS};
use crate::jobs;
use crate::models::Payload;
use crate::processing::ProcessingLockTable;

verus! {

/// The shared state of the process.
pub struct AppState {
    pub cache: CacheStore,
    pub processing: ProcessingLockTable,
    pub jobs: JobRegistry,
    pub admin_operations: AdminOperationGate,
    /// True while the session must be treated as invalid; fail-closed at
    /// startup, cleared by an observed successful fetch.
    pub unauthorized_state: bool,
}

impl AppState {
    pub open spec fn wf(self) -> bool {
        &&& self.cache.wf()
        &&& self.processing.wf()
        &&& self.jobs.wf()
        &&& self.admin_operations.wf()
    }

    /// A fresh context: everything empty, the session presumed invalid.
    pub fn new() -> (r: AppState)
        ensures
            r.wf(),
            r.cache@ == Map::<crate::dates::Date, Seq<crate::models::Transaksi>>::empty(),
            r.processing@ == Set::<crate::dates::Date>::empty(),
            r.jobs@ == Map::<Seq<char>, jobs::JobInfo>::empty(),
            r.admin_operations@ == Set::<Seq<char>>::empty(),
            r.unauthorized_state == true,
    {
        AppState {
            cache: CacheStore::new(),
            processing: ProcessingLockTable::new(),
            jobs: JobRegistry::new(),
            admin_operations: AdminOperationGate::new(),
            unauthorized_state: true,
        }
    }

    /// Drops every in-flight mark: recovery against marks never released.
    pub fn cleanup_stuck_processing(&mut self)
        requires
            old(self).wf(),
        ensures
            final(self).wf(),
            final(self).processing@ == Set::<crate::dates::Date>::empty(),
            final(self).cache == old(self).cache,
            final(self).jobs == old(self).jobs,
            final(self).admin_operations == old(self).admin_operations,
            final(self).unauthorized_state == old(self).unauthorized_state,
    {
        self.processing.clear();
    }

    /// The deduplication id of a request's bounds.
    pub fn generate_job_id(payload: &Payload) -> (r: String)
        ensures
            r@ == jobs::job_id_of(payload.from@, payload.to@),
    {
        jobs::generate_job_id(payload)
    }

    /// Registers a background job, unless a live duplicate exists or the
    /// concurrency ceiling is reached.
    pub fn start_job(&mut self, payload: Payload, now: u64, max_concurrent: usize) -> (r: Result<
        String,
        JobRejection,
    >)
        requires
            old(self).wf(),
        ensures
            final(self).wf(),
            ({
                let (m2, res) = start_job_spec(
                    old(self).jobs@,
                    old(self).jobs.running_jobs(),
                    payload,
                    now,
                    LIVENESS_WINDOW_SECS,
                    max_concurrent as int,
                );
                final(self).jobs@ == m2 && (match (r, res) {
                    (Ok(s), Ok(v)) => s@ == v,
                    (Err(a), Err(b)) => a == b,
                    _ => false,
                })
            }),
            final(self).cache == old(self).cache,
            final(self).processing == old(self).processing,
            final(self).admin_operations == old(self).admin_operations,
            final(self).unauthorized_state == old(self).unauthorized_state,
    {
        self.jobs.start(payload, now, max_concurrent)
    }

    /// Transitions a job to a terminal status; a no-op if it is absent.
    pub fn complete_job(&mut self, job_id: &str, status: JobStatus)
        requires
            old(self).wf(),
        ensures
            final(self).wf(),
            old(self).jobs@.contains_key(job_id@) ==> final(self).jobs@ == old(self).jobs@.insert(
                job_id@,
                jobs::JobInfo {
                    payload: old(self).jobs@[job_id@].payload,
                    start_time: old(self).jobs@[job_id@].start_time,
                    status,
                },
            ),
            !old(self).jobs@.contains_key(job_id@) ==> final(self).jobs@ == old(self).jobs@,
            final(self).cache == old(self).cache,
            final(self).processing == old(self).processing,
            final(self).admin_operations == old(self).admin_operations,
            final(self).unauthorized_state == old(self).unauthorized_state,
    {
        self.jobs.complete(job_id, status);
    }

    /// The status of the job with `job_id`, if it is known.
    pub fn get_job_status(&self, job_id: &str) -> (r: Option<JobStatus>)
        requires
            self.wf(),
        ensures
            match r {
                Some(st) => self.jobs@.contains_key(job_id@) && st == self.jobs@[job_id@].status,
                None => !self.jobs@.contains_key(job_id@),
            },
    {
        self.jobs.status(job_id)
    }

    /// Drops abandoned and stale jobs, and clears every in-flight mark as a
    /// blanket recovery step.
    pub fn cleanup_old_jobs(&mut self, now: u64)
        requires
            old(self).wf(),
        ensures
            final(self).wf(),
            forall|id: Seq<char>|
                #![trigger final(self).jobs@.contains_key(id)]
                final(self).jobs@.contains_key(id) <==> (old(self).jobs@.contains_key(id)
                    && jobs::keep_job(old(self).jobs@[id], now)),
            forall|id: Seq<char>|
                #![trigger final(self).jobs@[id]]
                final(self).jobs@.contains_key(id) ==> final(self).jobs@[id] == old(self).jobs@[id],
            final(self).processing@ == Set::<crate::dates::Date>::empty(),
            final(self).cache == old(self).cache,
            final(self).admin_operations == old(self).admin_operations,
            final(self).unauthorized_state == old(self).unauthorized_state,
    {
        self.jobs.cleanup(now);
        self.processing.clear();
    }

    /// Marks a named maintenance operation running; false when one already is.
    pub fn start_admin_operation(&mut self, operation: &str) -> (r: bool)
        requires
            old(self).wf(),
        ensures
            final(self).wf(),
            r == !old(self).admin_operations@.contains(operation@),
            final(self).admin_operations@ == old(self).admin_operations@.insert(operation@),
            final(self).cache == old(self).cache,
            final(self).processing == old(self).processing,
            final(self).jobs == old(self).jobs,
            final(self).unauthorized_state == old(self).unauthorized_state,
    {
        self.admin_operations.try_start(operation)
    }

    /// Marks a named maintenance operation completed.
    pub fn complete_admin_operation(&mut self, operation: &str)
        requires
            old(self).wf(),
        ensures
            final(self).wf(),
            final(self).admin_operations@ == old(self).admin_operations@.remove(operation@),
            final(self).cache == old(self).cache,
            final(self).processing == old(self).processing,
            final(self).jobs == old(self).jobs,
            final(self).unauthorized_state == old(self).unauthorized_state,
    {
        self.admin_operations.complete(operation)
    }

    /// Records whether the session must be treated as invalid.
    pub fn set_unauthorized(&mut self, unauthorized: bool)
        requires
            old(self).wf(),
        ensures
            final(self).wf(),
            final(self).unauthorized_state == unauthorized,
            final(self).cache == old(self).cache,
            final(self).processing == old(self).processing,
            final(self).jobs == old(self).jobs,
            final(self).admin_operations == old(self).admin_operations,
    {
        self.unauthorized_state = unauthorized;
    }

    /// Whether the session is currently treated as invalid.
    pub fn is_unauthorized(&self) -> (r: bool)
        ensures
            r == self.unauthorized_state,
    {
        self.unauthorized_state
    }
}

// ---------------------------------------------------------------------------
// Laws
// ---------------------------------------------------------------------------

/// Starting a second job with the same bounds while the first is still inside
/// the liveness window is rejected with `AlreadyRunning`.
pub proof fn lemma_duplicate_start_rejected(
    m: Map<Seq<char>, jobs::JobInfo>,
    running1: int,
    running2: int,
    p: Payload,
    q: Payload,
    now1: u64,
    now2: u64,
    window: u64,
    max: int,
)
    requires
        p.from@ == q.from@,
        p.to@ == q.to@,
        start_job_spec(m, running1, p, now1, window, max).1 is Ok,
        now1 <= now2,
        jobs::elapsed(now2, now1) < window,
    ensures
        start_job_spec(
            start_job_spec(m, running1, p, now1, window, max).0,
            running2,
            q,
            now2,
            window,
            max,
        ).1 == Err::<Seq<char>, JobRejection>(JobRejection::AlreadyRunning),
{
}

/// After the liveness window has elapsed, a job with the same bounds is
/// accepted again (given room under the concurrency ceiling).
pub proof fn lemma_restart_after_window(
    m: Map<Seq<char>, jobs::JobInfo>,
    running1: int,
    running2: int,
    p: Payload,
    q: Payload,
    now1: u64,
    now2: u64,
    window: u64,
    max: int,
)
    requires
        p.from@ == q.from@,
        p.to@ == q.to@,
        start_job_spec(m, running1, p, now1, window, max).1 is Ok,
        jobs::elapsed(now2, now1) >= window,
        running2 < max,
    ensures
        start_job_spec(
            start_job_spec(m, running1, p, now1, window, max).0,
            running2,
            q,
            now2,
            window,
            max,
        ).1 is Ok,
{
}

/// A start beyond the concurrency ceiling is rejected with
/// `TooManyConcurrentJobs`, whatever the registry holds for other bounds.
pub proof fn lemma_ceiling_rejects(
    m: Map<Seq<char>, jobs::JobInfo>,
    running: int,
    p: Payload,
    now: u64,
    window: u64,
    max: int,
)
    requires
        running >= max,
        !(m.contains_key(jobs::job_id_of(p.from@, p.to@)) && jobs::job_live(
            m[jobs::job_id_of(p.from@, p.to@)],
            now,
            window,
        )),
    ensures
        start_job_spec(m, running, p, now, window, max).1 == Err::<Seq<char>, JobRejection>(
            JobRejection::TooManyConcurrentJobs,
        ),
{
}

} // verus!
