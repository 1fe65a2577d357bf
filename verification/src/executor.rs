//! The retrying fetch executor: the decisions of the background collection
//! loop.
//!
//! The loop itself performs network calls, sleeps and file writes, so it runs
//! outside the library; every decision it takes stands here, verified: how a
//! failure is retried, how dates advance through fixed-size batches under a
//! memory budget, when a snapshot save is due, and how an outcome maps to the
//! job's final status and the session flag.

use vstd::prelude::*;

use crate::dates::Date;
use crate::errors::DebugAppError;
use crate::jobs::JobStatus;
use crate::models::DebugResponse;
use crate::state::AppState;

verus! {

/// How many times a date is attempted before it is skipped.
pub const DEFAULT_RETRY_ATTEMPTS: u32 = 3;

/// How many dates one batch holds.
pub const DEFAULT_BATCH_SIZE: usize = 5;

/// The per-batch memory budget, in megabytes.
pub const DEFAULT_MAX_MEMORY_MB: u64 = 50;

/// The pause between batches, in milliseconds.
pub const INTER_BATCH_DELAY_MS: u64 = 200;

/// The estimated bytes held per fetched record.
pub const ESTIMATED_BYTES_PER_RECORD: u64 = 200;

/// What to do after a failed attempt.
#[derive(Debug, Clone, Copy, PartialEq, Eq, Structural)]
pub enum RetryDecision {
    /// Try again after this many milliseconds.
    Retry(u64),
    /// Stop: either the error is job-fatal or the attempts are spent.
    GiveUp,
}

/// Whether attempt `attempt` (counted from 1) is followed by another: an
/// authentication failure is never retried, any other failure is retried
/// with a linearly growing backoff until the attempts are spent.
pub fn retry_decision(attempt: u32, max_retries: u32, error: &DebugAppError) -> (r: RetryDecision)
    ensures
        error is Unauthorized ==> r == RetryDecision::GiveUp,
        !(error is Unauthorized) && attempt < max_retries ==> r == RetryDecision::Retry(
            (1000 * attempt as u64) as u64,
        ),
        !(error is Unauthorized) && attempt >= max_retries ==> r == RetryDecision::GiveUp,
{
    if error.is_auth_failure() {
        RetryDecision::GiveUp
    } else if attempt < max_retries {
        RetryDecision::Retry(1000 * attempt as u64)
    } else {
        RetryDecision::GiveUp
    }
}

/// The estimated memory of a fetch result, saturating at u64.
pub open spec fn est_bytes(records_len: int) -> int {
    if records_len * 200 > 0xffff_ffff_ffff_ffff {
        0xffff_ffff_ffff_ffff
    } else {
        records_len * 200
    }
}

/// Saturating u64 addition.
pub open spec fn sat_add_u64(a: int, b: int) -> int {
    if a + b > 0xffff_ffff_ffff_ffff {
        0xffff_ffff_ffff_ffff
    } else {
        a + b
    }
}

/// Walks the missing dates of one job in fixed-size batches: which date to
/// fetch next, when a batch ends (save the snapshot, pause), when the memory
/// budget defers the rest of a batch, and when the job has stopped.
pub struct FetchWorker {
    dates: Vec<Date>,
    pos: usize,
    batch_size: usize,
    batch_pos: usize,
    max_memory_bytes: u64,
    batch_memory: u64,
    stopped: bool,
}

impl FetchWorker {
    pub closed spec fn spec_dates(self) -> Seq<Date> {
        self.dates@
    }

    pub closed spec fn spec_pos(self) -> int {
        self.pos as int
    }

    pub closed spec fn spec_batch_size(self) -> int {
        self.batch_size as int
    }

    pub closed spec fn spec_batch_pos(self) -> int {
        self.batch_pos as int
    }

    pub closed spec fn spec_max_memory(self) -> int {
        self.max_memory_bytes as int
    }

    pub closed spec fn spec_batch_memory(self) -> int {
        self.batch_memory as int
    }

    /// The job no longer proceeds: cancelled or aborted.
    pub closed spec fn spec_stopped(self) -> bool {
        self.stopped
    }

    /// The date the worker offers next, if any.
    pub open spec fn spec_current(self) -> Option<Date> {
        if !self.spec_stopped() && self.spec_pos() < self.spec_dates().len() {
            Some(self.spec_dates()[self.spec_pos()])
        } else {
            None
        }
    }

    pub closed spec fn wf(self) -> bool {
        &&& self.batch_size >= 1
        &&& self.pos <= self.dates@.len()
        &&& self.batch_pos < self.batch_size
        &&& self.batch_pos <= self.pos
    }

    /// A worker over the missing dates of one job.
    pub fn new(missing: Vec<Date>, batch_size: usize, max_memory_mb: u64) -> (r: FetchWorker)
        requires
            batch_size >= 1,
            max_memory_mb <= 17592186044415,
        ensures
            r.wf(),
            r.spec_dates() == missing@,
            r.spec_pos() == 0,
            r.spec_batch_pos() == 0,
            r.spec_batch_size() == batch_size,
            r.spec_batch_memory() == 0,
            r.spec_max_memory() == max_memory_mb * 1024 * 1024,
            !r.spec_stopped(),
    {
        FetchWorker {
            dates: missing,
            pos: 0,
            batch_size,
            batch_pos: 0,
            max_memory_bytes: max_memory_mb * 1024 * 1024,
            batch_memory: 0,
            stopped: false,
        }
    }

    /// The date to work on next; `None` once every date is done or the job
    /// has stopped.
    pub fn current_date(&self) -> (r: Option<Date>)
        ensures
            r == self.spec_current(),
    {
        if !self.stopped && self.pos < self.dates.len() {
            Some(self.dates[self.pos])
        } else {
            None
        }
    }

    /// Cooperative cancellation: notes the owning job's registry status
    /// before a unit of work; anything but a known `Running` status stops
    /// the worker cleanly. An unknown job (already cleaned up) proceeds.
    pub fn note_job_status(&mut self, status: &Option<JobStatus>) -> (cont: bool)
        requires
            old(self).wf(),
        ensures
            final(self).wf(),
            cont == !(status matches Some(st) && !(st is Running)),
            cont ==> *final(self) == *old(self),
            !cont ==> final(self).spec_stopped(),
            final(self).spec_dates() == old(self).spec_dates(),
            final(self).spec_pos() == old(self).spec_pos(),
    {
        let halt = match status {
            Some(st) => match st {
                JobStatus::Running => false,
                _ => true,
            },
            None => false,
        };
        if halt {
            self.stopped = true;
            false
        } else {
            true
        }
    }

    /// Moves past the current date without fetching it (already cached by
    /// another job, or its mark is held). Answers whether a batch just ended,
    /// which is when the caller saves the snapshot and pauses.
    pub fn skip_current(&mut self) -> (batch_ended: bool)
        requires
            old(self).wf(),
            old(self).spec_current() is Some,
        ensures
            final(self).wf(),
            ({
                let s0 = *old(self);
                let s1 = *final(self);
                &&& s1.spec_dates() == s0.spec_dates()
                &&& s1.spec_pos() == s0.spec_pos() + 1
                &&& s1.spec_stopped() == s0.spec_stopped()
                &&& s1.spec_batch_size() == s0.spec_batch_size()
                &&& s1.spec_max_memory() == s0.spec_max_memory()
                &&& batch_ended == (s0.spec_batch_pos() + 1 == s0.spec_batch_size() || s0.spec_pos()
                    + 1 == s0.spec_dates().len())
                &&& (batch_ended ==> s1.spec_batch_pos() == 0 && s1.spec_batch_memory() == 0)
                &&& (!batch_ended ==> s1.spec_batch_pos() == s0.spec_batch_pos() + 1
                    && s1.spec_batch_memory() == s0.spec_batch_memory())
            }),
    {
        proof {
            assert(old(self).spec_pos() < old(self).spec_dates().len());
            assert(self.pos < self.dates.len());
        }
        self.pos = self.pos + 1;
        if self.batch_pos + 1 == self.batch_size || self.pos == self.dates.len() {
            self.batch_pos = 0;
            self.batch_memory = 0;
            true
        } else {
            self.batch_pos = self.batch_pos + 1;
            false
        }
    }

    /// Accounts a successful fetch against the memory budget and moves on.
    /// When the budget is exceeded, the rest of the batch is deferred to a
    /// later run: the position jumps to the batch's end. Answers whether a
    /// batch just ended.
    pub fn on_fetch_success(&mut self, records_len: usize) -> (batch_ended: bool)
        requires
            old(self).wf(),
            old(self).spec_current() is Some,
        ensures
            final(self).wf(),
            ({
                let s0 = *old(self);
                let s1 = *final(self);
                let mem = sat_add_u64(s0.spec_batch_memory(), est_bytes(records_len as int));
                &&& s1.spec_dates() == s0.spec_dates()
                &&& s1.spec_stopped() == s0.spec_stopped()
                &&& s1.spec_batch_size() == s0.spec_batch_size()
                &&& s1.spec_max_memory() == s0.spec_max_memory()
                &&& (if mem > s0.spec_max_memory() {
                    // the rest of the batch is deferred
                    batch_ended && s1.spec_pos() == (if s0.spec_pos() - s0.spec_batch_pos()
                        + s0.spec_batch_size() > s0.spec_dates().len() {
                        s0.spec_dates().len() as int
                    } else {
                        s0.spec_pos() - s0.spec_batch_pos() + s0.spec_batch_size()
                    }) && s1.spec_batch_pos() == 0 && s1.spec_batch_memory() == 0
                } else {
                    s1.spec_pos() == s0.spec_pos() + 1 && batch_ended == (s0.spec_batch_pos() + 1
                        == s0.spec_batch_size() || s0.spec_pos() + 1 == s0.spec_dates().len()) && (
                    batch_ended ==> s1.spec_batch_pos() == 0 && s1.spec_batch_memory() == 0) && (
                    !batch_ended ==> s1.spec_batch_pos() == s0.spec_batch_pos() + 1
                        && s1.spec_batch_memory() == mem)
                })
            }),
    {
        let est: u64 = if records_len as u64 > 92233720368547758u64 {
            u64::MAX
        } else {
            records_len as u64 * 200
        };
        let mem: u64 = if self.batch_memory > u64::MAX - est {
            u64::MAX
        } else {
            self.batch_memory + est
        };
        if mem > self.max_memory_bytes {
            let batch_start = self.pos - self.batch_pos;
            self.pos = if self.dates.len() - batch_start <= self.batch_size {
                self.dates.len()
            } else {
                batch_start + self.batch_size
            };
            self.batch_pos = 0;
            self.batch_memory = 0;
            true
        } else {
            self.batch_memory = mem;
            self.skip_current()
        }
    }

    /// Notes a failed fetch (after retries): an authentication failure stops
    /// the worker — every remaining date is halted — and is answered with
    /// true; any other failure leaves the worker unchanged and the caller
    /// skips just this date.
    pub fn on_fetch_failure(&mut self, error: &DebugAppError) -> (abort: bool)
        requires
            old(self).wf(),
        ensures
            final(self).wf(),
            abort == (error is Unauthorized),
            abort ==> final(self).spec_stopped() && final(self).spec_dates() == old(
                self,
            ).spec_dates() && final(self).spec_pos() == old(self).spec_pos(),
            !abort ==> *final(self) == *old(self),
    {
        if error.is_auth_failure() {
            self.stopped = true;
            true
        } else {
            false
        }
    }
}

/// The message carried by an error, whatever its class.
pub open spec fn spec_error_text(e: DebugAppError) -> Seq<char> {
    match e {
        DebugAppError::Reqwest(s) => s@,
        DebugAppError::Serde(s) => s@,
        DebugAppError::DateParse(s) => s@,
        DebugAppError::Serialization(s) => s@,
        DebugAppError::FileWrite(s) => s@,
        DebugAppError::Unauthorized(s) => s@,
    }
}

/// The message carried by an error.
pub fn error_text(e: &DebugAppError) -> (r: String)
    ensures
        r@ == spec_error_text(*e),
{
    match e {
        DebugAppError::Reqwest(s) => s.clone(),
        DebugAppError::Serde(s) => s.clone(),
        DebugAppError::DateParse(s) => s.clone(),
        DebugAppError::Serialization(s) => s.clone(),
        DebugAppError::FileWrite(s) => s.clone(),
        DebugAppError::Unauthorized(s) => s.clone(),
    }
}

/// The terminal status a finished collection run gives its job: `Completed`
/// on success, `Failed` carrying the error's message otherwise.
pub fn job_final_status(outcome: &Result<(), DebugAppError>) -> (st: JobStatus)
    ensures
        outcome is Ok ==> st is Completed,
        outcome matches Err(e) ==> (st matches JobStatus::Failed(m) && m@ == spec_error_text(*e)),
{
    match outcome {
        Ok(_) => JobStatus::Completed,
        Err(e) => JobStatus::Failed(error_text(e)),
    }
}

/// Records what a fetch outcome says about the session: an authentication
/// failure raises the invalid-session flag; a success lowers it; any other
/// failure leaves it as it was.
pub fn apply_auth_outcome(state: &mut AppState, outcome: &Result<DebugResponse, DebugAppError>)
    requires
        old(state).wf(),
    ensures
        final(state).wf(),
        outcome is Ok ==> final(state).unauthorized_state == false,
        (outcome matches Err(e) && e is Unauthorized) ==> final(state).unauthorized_state == true,
        (outcome matches Err(e) && !(e is Unauthorized)) ==> final(state).unauthorized_state == old(
            state,
        ).unauthorized_state,
        final(state).cache == old(state).cache,
        final(state).processing == old(state).processing,
        final(state).jobs == old(state).jobs,
        final(state).admin_operations == old(state).admin_operations,
{
    match outcome {
        Ok(_) => state.set_unauthorized(false),
        Err(e) => {
            if e.is_auth_failure() {
                state.set_unauthorized(true);
            }
        },
    }
}

// ---------------------------------------------------------------------------
// Laws
// ---------------------------------------------------------------------------

/// An authentication failure mid-batch is job-fatal: `on_fetch_failure`
/// stops the worker, and a stopped worker offers no further date — every
/// remaining date of the job is halted. (That the job then reads `Failed`
/// and the session flag stays raised until an observed success stands in the
/// contracts of `job_final_status` and `apply_auth_outcome`.)
pub proof fn lemma_auth_failure_halts(w: FetchWorker)
    requires
        w.spec_stopped(),
    ensures
        w.spec_current() is None,
{
}

} // verus!
