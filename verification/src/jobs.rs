//! The background-job registry.
//!
//! A job is keyed by a deterministic id derived from its requested bounds:
//! the same bounds always give the same id, which is the deduplication key.
//! Starting is refused while a job with the same id is `Running` and younger
//! than the liveness window, or while the count of `Running` jobs has reached
//! the concurrency ceiling. Completion is terminal; periodic cleanup drops
//! `Running` jobs older than the liveness window (treated as abandoned) and
//! terminal jobs older than the retention window.

use vstd::prelude::*;

use crate::errors::JobRejection;
use crate::models::Payload;
use crate::strutil::str_eq;

verus! {

use vstd::pervasive::VecAdditionalExecFns;
use vstd::string::StringExecFns;

/// A `Running` job younger than this many seconds blocks a duplicate start;
/// one older is treated as abandoned by cleanup.
pub const LIVENESS_WINDOW_SECS: u64 = 300;

/// Completed or failed jobs are kept this many seconds for status polling.
pub const RETENTION_SECS: u64 = 3600;

/// The default ceiling on concurrently `Running` jobs.
pub const DEFAULT_MAX_CONCURRENT_JOBS: usize = 3;

/// The life of a job: `Running` ends in exactly one of the terminal states.
#[derive(Debug)]
pub enum JobStatus {
    Running,
    Completed,
    Failed(String),
}

impl Clone for JobStatus {
    fn clone(&self) -> (r: Self)
        ensures
            r == *self,
    {
        match self {
            JobStatus::Running => JobStatus::Running,
            JobStatus::Completed => JobStatus::Completed,
            JobStatus::Failed(reason) => JobStatus::Failed(reason.clone()),
        }
    }
}

/// What the registry records of one job.
#[derive(Debug)]
pub struct JobInfo {
    pub payload: Payload,
    pub start_time: u64,
    pub status: JobStatus,
}

impl Clone for JobInfo {
    fn clone(&self) -> (r: Self)
        ensures
            r == *self,
    {
        JobInfo {
            payload: self.payload.clone(),
            start_time: self.start_time,
            status: self.status.clone(),
        }
    }
}

struct JobEntry {
    id: String,
    info: JobInfo,
}

/// The deterministic id of a request: its bounds joined by a dash.
pub open spec fn job_id_of(from: Seq<char>, to: Seq<char>) -> Seq<char> {
    from + seq!['-'] + to
}

/// Seconds elapsed from `start` to `now`; zero when the clock ran backwards.
pub open spec fn elapsed(now: u64, start: u64) -> int {
    if now >= start {
        now - start
    } else {
        0
    }
}

pub fn elapsed_secs(now: u64, start: u64) -> (r: u64)
    ensures
        r == elapsed(now, start),
{
    if now >= start {
        now - start
    } else {
        0
    }
}

/// A job that still blocks a duplicate: `Running` and younger than `window`.
pub open spec fn job_live(info: JobInfo, now: u64, window: u64) -> bool {
    info.status is Running && elapsed(now, info.start_time) < window
}

/// A job that cleanup keeps: a live `Running` job, or a terminal job younger
/// than the retention window.
pub open spec fn keep_job(info: JobInfo, now: u64) -> bool {
    if info.status is Running {
        elapsed(now, info.start_time) < LIVENESS_WINDOW_SECS
    } else {
        elapsed(now, info.start_time) < RETENTION_SECS
    }
}

/// What starting a job does: the new registry and the answer. `running` is
/// the count of `Running` jobs in `m`.
pub open spec fn start_job_spec(
    m: Map<Seq<char>, JobInfo>,
    running: int,
    p: Payload,
    now: u64,
    window: u64,
    max: int,
) -> (Map<Seq<char>, JobInfo>, Result<Seq<char>, JobRejection>) {
    let id = job_id_of(p.from@, p.to@);
    if m.contains_key(id) && job_live(m[id], now, window) {
        (m, Err(JobRejection::AlreadyRunning))
    } else if running >= max {
        (m, Err(JobRejection::TooManyConcurrentJobs))
    } else {
        (
            m.insert(id, JobInfo { payload: p, start_time: now, status: JobStatus::Running }),
            Ok(id),
        )
    }
}

spec fn count_running_seq(s: Seq<JobEntry>) -> int
    decreases s.len(),
{
    if s.len() == 0 {
        0
    } else {
        count_running_seq(s.drop_last()) + if s.last().info.status is Running {
            1int
        } else {
            0int
        }
    }
}

/// The registry of background jobs, keyed by their deterministic ids.
pub struct JobRegistry {
    entries: Vec<JobEntry>,
}

impl View for JobRegistry {
    type V = Map<Seq<char>, JobInfo>;

    closed spec fn view(&self) -> Map<Seq<char>, JobInfo> {
        Map::new(
            |id: Seq<char>|
                exists|i: int|
                    0 <= i < self.entries@.len() && (#[trigger] self.entries@[i]).id@ == id,
            |id: Seq<char>|
                {
                    let i = choose|i: int|
                        0 <= i < self.entries@.len() && (#[trigger] self.entries@[i]).id@ == id;
                    self.entries@[i].info
                },
        )
    }
}

/// Each entry of `r` appears in the view of `r` under its own id.
proof fn lemma_jobs_view_at(r: JobRegistry, i: int)
    requires
        r.wf(),
        0 <= i < r.entries@.len(),
    ensures
        r@.contains_key(r.entries@[i].id@),
        r@[r.entries@[i].id@] == r.entries@[i].info,
{
    let id = r.entries@[i].id@;
    assert(0 <= i < r.entries@.len() && (r.entries@[i]).id@ == id);
    let j = choose|j: int| 0 <= j < r.entries@.len() && (#[trigger] r.entries@[j]).id@ == id;
    assert(j == i);
}

/// An id of the view names some entry of `r`.
proof fn lemma_jobs_view_contains(r: JobRegistry, id: Seq<char>) -> (i: int)
    requires
        r.wf(),
        r@.contains_key(id),
    ensures
        0 <= i < r.entries@.len(),
        r.entries@[i].id@ == id,
        r@[id] == r.entries@[i].info,
{
    let i = choose|i: int| 0 <= i < r.entries@.len() && (#[trigger] r.entries@[i]).id@ == id;
    lemma_jobs_view_at(r, i);
    i
}

impl JobRegistry {
    /// Well-formed: ids are distinct.
    pub closed spec fn wf(self) -> bool {
        forall|i: int, j: int|
            0 <= i < j < self.entries@.len() ==> (#[trigger] self.entries@[i]).id@ != (
            #[trigger] self.entries@[j]).id@
    }

    /// The count of `Running` jobs.
    pub closed spec fn running_jobs(self) -> int {
        count_running_seq(self.entries@)
    }

    pub fn new() -> (r: JobRegistry)
        ensures
            r.wf(),
            r@ == Map::<Seq<char>, JobInfo>::empty(),
    {
        let r = JobRegistry { entries: Vec::new() };
        proof {
            assert(r@ =~= Map::<Seq<char>, JobInfo>::empty());
        }
        r
    }

    /// The position of the entry with `id`, if one exists.
    fn index_of(&self, id: &str) -> (r: Option<usize>)
        ensures
            match r {
                Some(i) => 0 <= i < self.entries@.len() && self.entries@[i as int].id@ == id@,
                None => forall|j: int|
                    0 <= j < self.entries@.len() ==> (#[trigger] self.entries@[j]).id@ != id@,
            },
    {
        let mut i: usize = 0;
        while i < self.entries.len()
            invariant
                i <= self.entries@.len(),
                forall|j: int| 0 <= j < i ==> (#[trigger] self.entries@[j]).id@ != id@,
            decreases self.entries@.len() - i,
        {
            if str_eq(self.entries[i].id.as_str(), id) {
                return Some(i);
            }
            i += 1;
        }
        None
    }

    /// The count of `Running` jobs, walked entry by entry.
    fn count_running(&self) -> (r: usize)
        ensures
            r == self.running_jobs(),
            r <= self.entries@.len(),
    {
        let mut cnt: usize = 0;
        let mut i: usize = 0;
        while i < self.entries.len()
            invariant
                i <= self.entries@.len(),
                cnt == count_running_seq(self.entries@.subrange(0, i as int)),
                cnt <= i,
            decreases self.entries@.len() - i,
        {
            proof {
                assert(self.entries@.subrange(0, i + 1).drop_last() =~= self.entries@.subrange(
                    0,
                    i as int,
                ));
                assert(self.entries@.subrange(0, i + 1).last() == self.entries@[i as int]);
            }
            let is_running = match &self.entries[i].info.status {
                JobStatus::Running => true,
                _ => false,
            };
            if is_running {
                cnt += 1;
            }
            i += 1;
        }
        proof {
            assert(self.entries@.subrange(0, self.entries@.len() as int) =~= self.entries@);
        }
        cnt
    }

    /// Registers a job for `payload` at time `now`, unless a live duplicate
    /// exists or the concurrency ceiling `max_concurrent` is reached.
    pub fn start(&mut self, payload: Payload, now: u64, max_concurrent: usize) -> (r: Result<
        String,
        JobRejection,
    >)
        requires
            old(self).wf(),
        ensures
            final(self).wf(),
            ({
                let (m2, res) = start_job_spec(
                    old(self)@,
                    old(self).running_jobs(),
                    payload,
                    now,
                    LIVENESS_WINDOW_SECS,
                    max_concurrent as int,
                );
                final(self)@ == m2 && (match (r, res) {
                    (Ok(s), Ok(v)) => s@ == v,
                    (Err(a), Err(b)) => a == b,
                    _ => false,
                })
            }),
    {
        let id = generate_job_id(&payload);
        let found = self.index_of(id.as_str());
        if let Some(i) = found {
            let e = &self.entries[i];
            let is_running = match &e.info.status {
                JobStatus::Running => true,
                _ => false,
            };
            if is_running && elapsed_secs(now, e.info.start_time) < LIVENESS_WINDOW_SECS {
                proof {
                    lemma_jobs_view_at(*self, i as int);
                }
                return Err(JobRejection::AlreadyRunning);
            }
        }
        proof {
            if old(self)@.contains_key(id@) {
                lemma_jobs_view_contains(*old(self), id@);
            }
            assert(!(old(self)@.contains_key(id@) && job_live(
                old(self)@[id@],
                now,
                LIVENESS_WINDOW_SECS,
            )));
        }
        let running = self.count_running();
        if running >= max_concurrent {
            return Err(JobRejection::TooManyConcurrentJobs);
        }
        let info = JobInfo { payload, start_time: now, status: JobStatus::Running };
        let ghost new_info = info;
        match found {
            Some(i) => {
                let stored_id = self.entries[i].id.clone();
                self.entries.set(i, JobEntry { id: stored_id, info });
                proof {
                    let s_old = old(self).entries@;
                    let s_new = self.entries@;
                    assert(forall|j: int|
                        0 <= j < s_new.len() ==> (#[trigger] s_new[j]).id@ == s_old[j].id@);
                    assert(self.wf());
                    assert forall|id2: Seq<char>| self@.contains_key(id2) implies old(self)@.insert(
                        id@,
                        new_info,
                    ).contains_key(id2) && self@[id2] == old(self)@.insert(id@, new_info)[id2] by {
                        let j = lemma_jobs_view_contains(*self, id2);
                        if j == i {
                            assert(id2 == id@);
                        } else {
                            lemma_jobs_view_at(*old(self), j);
                            assert(id2 != id@);
                        }
                    }
                    assert forall|id2: Seq<char>|
                        old(self)@.insert(id@, new_info).contains_key(id2) implies
                    self@.contains_key(id2) by {
                        if id2 == id@ {
                            lemma_jobs_view_at(*self, i as int);
                        } else {
                            let j = lemma_jobs_view_contains(*old(self), id2);
                            assert(j != i);
                            lemma_jobs_view_at(*self, j);
                        }
                    }
                    assert(self@ =~= old(self)@.insert(id@, new_info));
                }
            },
            None => {
                let stored_id = id.clone();
                self.entries.push(JobEntry { id: stored_id, info });
                proof {
                    let s_old = old(self).entries@;
                    let s_new = self.entries@;
                    assert(forall|j: int| 0 <= j < s_old.len() ==> s_new[j] == s_old[j]);
                    assert(s_new[s_old.len() as int].id@ == id@);
                    assert(self.wf());
                    assert forall|id2: Seq<char>| self@.contains_key(id2) implies old(self)@.insert(
                        id@,
                        new_info,
                    ).contains_key(id2) && self@[id2] == old(self)@.insert(id@, new_info)[id2] by {
                        let j = lemma_jobs_view_contains(*self, id2);
                        if j == s_old.len() {
                            assert(id2 == id@);
                        } else {
                            lemma_jobs_view_at(*old(self), j);
                            assert(id2 != id@);
                        }
                    }
                    assert forall|id2: Seq<char>|
                        old(self)@.insert(id@, new_info).contains_key(id2) implies
                    self@.contains_key(id2) by {
                        if id2 == id@ {
                            lemma_jobs_view_at(*self, s_old.len() as int);
                        } else {
                            let j = lemma_jobs_view_contains(*old(self), id2);
                            lemma_jobs_view_at(*self, j);
                        }
                    }
                    assert(self@ =~= old(self)@.insert(id@, new_info));
                }
            },
        }
        Ok(id)
    }

    /// Transitions the job with `job_id` to `status`; a no-op when the job is
    /// absent (already cleaned up).
    pub fn complete(&mut self, job_id: &str, status: JobStatus)
        requires
            old(self).wf(),
        ensures
            final(self).wf(),
            old(self)@.contains_key(job_id@) ==> final(self)@ == old(self)@.insert(
                job_id@,
                JobInfo {
                    payload: old(self)@[job_id@].payload,
                    start_time: old(self)@[job_id@].start_time,
                    status,
                },
            ),
            !old(self)@.contains_key(job_id@) ==> final(self)@ == old(self)@,
    {
        match self.index_of(job_id) {
            Some(i) => {
                proof {
                    lemma_jobs_view_at(*old(self), i as int);
                }
                let stored_id = self.entries[i].id.clone();
                let payload = self.entries[i].info.payload.clone();
                let start_time = self.entries[i].info.start_time;
                let ghost new_info = JobInfo { payload, start_time, status };
                self.entries.set(i, JobEntry { id: stored_id, info: JobInfo { payload, start_time, status } });
                proof {
                    let s_old = old(self).entries@;
                    let s_new = self.entries@;
                    assert(forall|j: int|
                        0 <= j < s_new.len() ==> (#[trigger] s_new[j]).id@ == s_old[j].id@);
                    assert(self.wf());
                    assert forall|id2: Seq<char>| self@.contains_key(id2) implies old(self)@.insert(
                        job_id@,
                        new_info,
                    ).contains_key(id2) && self@[id2] == old(self)@.insert(job_id@, new_info)[id2] by {
                        let j = lemma_jobs_view_contains(*self, id2);
                        if j == i {
                            assert(id2 == job_id@);
                        } else {
                            lemma_jobs_view_at(*old(self), j);
                            assert(id2 != job_id@);
                        }
                    }
                    assert forall|id2: Seq<char>|
                        old(self)@.insert(job_id@, new_info).contains_key(id2) implies
                    self@.contains_key(id2) by {
                        if id2 == job_id@ {
                            lemma_jobs_view_at(*self, i as int);
                        } else {
                            let j = lemma_jobs_view_contains(*old(self), id2);
                            assert(j != i);
                            lemma_jobs_view_at(*self, j);
                        }
                    }
                    assert(self@ =~= old(self)@.insert(job_id@, new_info));
                }
            },
            None => {
                proof {
                    if old(self)@.contains_key(job_id@) {
                        lemma_jobs_view_contains(*old(self), job_id@);
                    }
                }
            },
        }
    }

    /// The current status of the job with `job_id`, if it is known.
    pub fn status(&self, job_id: &str) -> (r: Option<JobStatus>)
        requires
            self.wf(),
        ensures
            match r {
                Some(st) => self@.contains_key(job_id@) && st == self@[job_id@].status,
                None => !self@.contains_key(job_id@),
            },
    {
        match self.index_of(job_id) {
            Some(i) => {
                proof {
                    lemma_jobs_view_at(*self, i as int);
                }
                Some(self.entries[i].info.status.clone())
            },
            None => {
                proof {
                    if self@.contains_key(job_id@) {
                        lemma_jobs_view_contains(*self, job_id@);
                    }
                }
                None
            },
        }
    }

    /// Drops abandoned `Running` jobs (older than the liveness window) and
    /// terminal jobs older than the retention window.
    pub fn cleanup(&mut self, now: u64)
        requires
            old(self).wf(),
        ensures
            final(self).wf(),
            forall|id: Seq<char>|
                #![trigger final(self)@.contains_key(id)]
                final(self)@.contains_key(id) <==> (old(self)@.contains_key(id) && keep_job(
                    old(self)@[id],
                    now,
                )),
            forall|id: Seq<char>|
                #![trigger final(self)@[id]]
                final(self)@.contains_key(id) ==> final(self)@[id] == old(self)@[id],
    {
        let mut kept: Vec<JobEntry> = Vec::new();
        let mut i: usize = 0;
        while i < self.entries.len()
            invariant
                self.wf(),
                i <= self.entries@.len(),
                forall|q: int|
                    0 <= q < kept@.len() ==> exists|j: int|
                        0 <= j < i && #[trigger] kept@[q] == self.entries@[j] && keep_job(
                            self.entries@[j].info,
                            now,
                        ),
                forall|j: int|
                    0 <= j < i && keep_job((#[trigger] self.entries@[j]).info, now) ==> exists|
                        q: int,
                    | 0 <= q < kept@.len() && kept@[q] == self.entries@[j],
                forall|q1: int, q2: int|
                    0 <= q1 < q2 < kept@.len() ==> (#[trigger] kept@[q1]).id@ != (
                    #[trigger] kept@[q2]).id@,
            decreases self.entries@.len() - i,
        {
            let e = &self.entries[i];
            let is_running = match &e.info.status {
                JobStatus::Running => true,
                _ => false,
            };
            let age = elapsed_secs(now, e.info.start_time);
            let keep = if is_running {
                age < LIVENESS_WINDOW_SECS
            } else {
                age < RETENTION_SECS
            };
            if keep {
                let copied = JobEntry { id: e.id.clone(), info: e.info.clone() };
                proof {
                    assert(copied.id == self.entries@[i as int].id);
                    assert(copied.info == self.entries@[i as int].info);
                    assert(copied == self.entries@[i as int]);
                }
                let ghost kept_before = kept@;
                kept.push(copied);
                proof {
                    assert(kept@[kept_before.len() as int] == self.entries@[i as int]);
                    assert(forall|q: int| 0 <= q < kept_before.len() ==> #[trigger] kept@[q]
                        == kept_before[q]);
                    assert forall|j: int|
                        0 <= j < i + 1 && keep_job(
                            (#[trigger] self.entries@[j]).info,
                            now,
                        ) implies exists|q: int|
                        0 <= q < kept@.len() && #[trigger] kept@[q] == self.entries@[j] by {
                        if j < i {
                            let q = choose|q: int|
                                0 <= q < kept_before.len() && #[trigger] kept_before[q]
                                    == self.entries@[j];
                            assert(kept@[q] == self.entries@[j]);
                        } else {
                            assert(kept@[kept_before.len() as int] == self.entries@[j]);
                        }
                    }
                    assert forall|q: int| 0 <= q < kept@.len() implies exists|j: int|
                        0 <= j < i + 1 && #[trigger] kept@[q] == self.entries@[j] && keep_job(
                            self.entries@[j].info,
                            now,
                        ) by {
                        if q < kept_before.len() {
                            let j = choose|j: int|
                                0 <= j < i && #[trigger] kept_before[q] == self.entries@[j]
                                    && keep_job(self.entries@[j].info, now);
                            assert(kept@[q] == self.entries@[j]);
                        } else {
                            assert(kept@[q] == self.entries@[i as int]);
                            assert(keep_job(self.entries@[i as int].info, now));
                        }
                    }
                    assert forall|q1: int, q2: int| 0 <= q1 < q2 < kept@.len() implies (
                    #[trigger] kept@[q1]).id@ != (#[trigger] kept@[q2]).id@ by {
                        if q2 < kept_before.len() {
                            assert(kept_before[q1].id@ != kept_before[q2].id@);
                        } else {
                            assert(q1 < kept_before.len());
                            let j1 = choose|j: int|
                                0 <= j < i && #[trigger] kept_before[q1] == self.entries@[j]
                                    && keep_job(self.entries@[j].info, now);
                            assert(kept@[q1] == self.entries@[j1]);
                            assert(kept@[q2] == self.entries@[i as int]);
                            assert(self.entries@[j1].id@ != self.entries@[i as int].id@);
                        }
                    }
                }
            }
            i += 1;
        }
        let ghost olds = *old(self);
        self.entries = kept;
        proof {
            assert(self.wf());
            assert forall|id: Seq<char>| self@.contains_key(id) implies olds@.contains_key(id)
                && keep_job(olds@[id], now) && self@[id] == olds@[id] by {
                let q = lemma_jobs_view_contains(*self, id);
                let j = choose|j: int|
                    0 <= j < olds.entries@.len() && #[trigger] self.entries@[q] == olds.entries@[j]
                        && keep_job(olds.entries@[j].info, now);
                lemma_jobs_view_at(olds, j);
            }
            assert forall|id: Seq<char>|
                olds@.contains_key(id) && keep_job(olds@[id], now) implies self@.contains_key(
                id,
            ) by {
                let j = lemma_jobs_view_contains(olds, id);
                assert(keep_job(olds.entries@[j].info, now));
                let q = choose|q: int|
                    0 <= q < self.entries@.len() && #[trigger] self.entries@[q] == olds.entries@[j];
                lemma_jobs_view_at(*self, q);
            }
        }
    }
}

/// The id under which a request's bounds are deduplicated: `from`, a dash,
/// `to`.
pub fn generate_job_id(payload: &Payload) -> (r: String)
    ensures
        r@ == job_id_of(payload.from@, payload.to@),
{
    let mut s = payload.from.clone();
    s.append("-");
    s.append(payload.to.as_str());
    proof {
        reveal_strlit("-");
        assert(("-")@ =~= seq!['-']);
        assert(s@ =~= job_id_of(payload.from@, payload.to@));
    }
    s
}

} // verus!
