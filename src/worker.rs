//! The worker's decisions: which cores a job gets, what cancelling or extending
//! a job does to the worker's records, and the supervisor that watches one job's
//! child process against its deadline.
//!
//! Processes, timers and channels stay with the caller; it reports each event to
//! the supervisor and performs the action it answers.
use vstd::prelude::*;

use dashmap::DashMap;

use crate::core_mask::{can_allocate, greedy_pick, has_core, CoreMask};
use crate::model::{JobResult, JobStatus};
use crate::text::{decimal, push_decimal, string_of_chars};

verus! {

/// Milliseconds in a minute.
pub const MS_PER_MINUTE: u64 = 60000;

/// Why a worker request was refused.
#[derive(Clone, Copy, Debug, PartialEq, Eq, Structural)]
pub enum WorkerError {
    /// The worker runs no job with that id.
    NotFound,
    /// Not enough free cores for the job.
    ResourceExhausted,
}

#[verifier::external_type_specification]
#[verifier::external_body]
#[verifier::reject_recursive_types(K)]
#[verifier::reject_recursive_types(V)]
#[verifier::reject_recursive_types(S)]
pub struct ExDashMap<K, V, S>(DashMap<K, V, S>);

/// The job ids a table of job masks holds, each with the cores of that job.
pub uninterp spec fn mask_table(m: DashMap<u64, u64>) -> Map<u64, u64>;

/// The table of a worker that runs no job.
pub open spec fn no_jobs() -> Map<u64, u64> {
    Map::empty()
}

/// A table of job masks: job id to the cores the job holds.
pub type MaskTable = DashMap<u64, u64>;

/// Relies on `DashMap::new`: a map with no entries.
#[verifier::external_body]
fn new_mask_table() -> (r: MaskTable)
    ensures
        mask_table(r) == no_jobs(),
{
    DashMap::new()
}

/// Relies on `DashMap::insert`: `key` now maps to `value`; the value it mapped to
/// before, if any, comes back.
#[verifier::external_body]
fn table_insert(m: &mut DashMap<u64, u64>, key: u64, value: u64) -> (r: Option<u64>)
    ensures
        mask_table(*final(m)) == mask_table(*old(m)).insert(key, value),
        r == if mask_table(*old(m)).contains_key(key) {
            Some(mask_table(*old(m))[key])
        } else {
            None::<u64>
        },
{
    m.insert(key, value)
}

/// Relies on `DashMap::remove`: the entry of `key` leaves the map and its value,
/// if there was one, comes back.
#[verifier::external_body]
fn table_remove(m: &mut DashMap<u64, u64>, key: u64) -> (r: Option<u64>)
    ensures
        mask_table(*final(m)) == mask_table(*old(m)).remove(key),
        r == if mask_table(*old(m)).contains_key(key) {
            Some(mask_table(*old(m))[key])
        } else {
            None::<u64>
        },
{
    m.remove(&key).map(|entry| entry.1)
}

/// Relies on `DashMap::contains_key`: whether `key` has an entry.
#[verifier::external_body]
fn table_contains(m: &DashMap<u64, u64>, key: u64) -> (r: bool)
    ensures
        r == mask_table(*m).contains_key(key),
{
    m.contains_key(&key)
}

/// Some job of `t` holds core `i`.
pub open spec fn held_by_some(t: Map<u64, u64>, i: int) -> bool {
    exists|k: u64| t.contains_key(k) && #[trigger] has_core(t[k], i)
}

proof fn lemma_core_of_or(x: u64, y: u64, i: int)
    requires
        0 <= i < 64,
    ensures
        has_core(x | y, i) <==> (has_core(x, i) || has_core(y, i)),
{
    let j = i as u64;
    assert(((x | y) & (1u64 << j) != 0) <==> (x & (1u64 << j) != 0 || y & (1u64 << j) != 0))
        by (bit_vector)
        requires
            j < 64,
    ;
}

proof fn lemma_core_of_clear(x: u64, y: u64, i: int)
    requires
        0 <= i < 64,
    ensures
        has_core(x & !y, i) <==> (has_core(x, i) && !has_core(y, i)),
{
    let j = i as u64;
    assert(((x & !y) & (1u64 << j) != 0) <==> (x & (1u64 << j) != 0 && y & (1u64 << j) == 0))
        by (bit_vector)
        requires
            j < 64,
    ;
}

proof fn lemma_core_of_disjoint(x: u64, y: u64, i: int)
    requires
        0 <= i < 64,
        x & y == 0,
    ensures
        !(has_core(x, i) && has_core(y, i)),
{
    let j = i as u64;
    assert(!(x & (1u64 << j) != 0 && y & (1u64 << j) != 0)) by (bit_vector)
        requires
            j < 64,
            x & y == 0,
    ;
}

/// The worker's records: its cores and, per running job, the cores it holds.
#[derive(Debug)]
pub struct WorkerState {
    pub cores: CoreMask,
    pub masks: DashMap<u64, u64>,
}

impl WorkerState {
    /// The job masks as a map from job id to cores.
    pub open spec fn table(&self) -> Map<u64, u64> {
        mask_table(self.masks)
    }

    /// No two jobs hold the same core, and a core is in use exactly when some job holds it.
    pub open spec fn wf(&self) -> bool {
        &&& self.cores.wf()
        &&& forall|a: u64, b: u64, i: int|
            self.table().contains_key(a) && self.table().contains_key(b) && a != b && 0 <= i < 64
                ==> !(#[trigger] has_core(self.table()[a], i) && #[trigger] has_core(self.table()[b], i))
        &&& forall|i: int| 0 <= i < 64 ==> (#[trigger] has_core(self.cores.bits(), i) <==> held_by_some(self.table(), i))
    }

    /// A worker with `total_cores` free cores and no jobs.
    pub fn new(total_cores: u32) -> (r: Self)
        requires
            total_cores <= 64,
        ensures
            r.wf(),
            r.cores.bits() == 0,
            r.cores.total() == total_cores,
            r.table() == no_jobs(),
    {
        let r = WorkerState { cores: CoreMask::new(total_cores), masks: new_mask_table() };
        proof {
            assert forall|i: int| 0 <= i < 64 implies (#[trigger] has_core(r.cores.bits(), i) <==> held_by_some(r.table(), i)) by {
                let j = i as u64;
                assert(0u64 & (1u64 << j) == 0) by (bit_vector);
            }
        }
        r
    }

    /// Takes `cpu_count` cores for job `job_id` and records them under the job.
    /// Fails when the cores are not there, or when the worker already runs a job with that id.
    pub fn assign_job(&mut self, job_id: u64, cpu_count: u32) -> (r: Result<u64, WorkerError>)
        requires
            old(self).wf(),
        ensures
            final(self).wf(),
            old(self).table().contains_key(job_id) ==> r == Err::<u64, WorkerError>(WorkerError::ResourceExhausted),
            !old(self).table().contains_key(job_id) ==> (r is Ok <==> can_allocate(
                old(self).cores.bits(),
                old(self).cores.total(),
                cpu_count as int,
            )),
            r is Err ==> final(self).cores.bits() == old(self).cores.bits() && final(self).table() == old(self).table(),
            r matches Ok(mask) ==> {
                &&& greedy_pick(old(self).cores.bits(), old(self).cores.total(), cpu_count as int, mask)
                &&& old(self).cores.bits() & mask == 0
                &&& final(self).cores.bits() == old(self).cores.bits() | mask
                &&& final(self).table() == old(self).table().insert(job_id, mask)
            },
            final(self).cores.total() == old(self).cores.total(),
    {
        if table_contains(&self.masks, job_id) {
            return Err(WorkerError::ResourceExhausted);
        }
        let ghost bits = self.cores.bits();
        let ghost t = self.table();
        match self.cores.allocate(cpu_count) {
            Some(mask) => {
                table_insert(&mut self.masks, job_id, mask);
                proof {
                    let t2 = self.table();
                    assert forall|i: int| 0 <= i < 64 implies (#[trigger] has_core(self.cores.bits(), i)
                        <==> held_by_some(t2, i)) by {
                        lemma_core_of_or(bits, mask, i);
                        if has_core(mask, i) {
                            assert(t2.contains_key(job_id) && has_core(t2[job_id], i));
                        }
                        if has_core(bits, i) {
                            let k = choose|k: u64| t.contains_key(k) && #[trigger] has_core(t[k], i);
                            assert(t2.contains_key(k) && has_core(t2[k], i));
                        }
                        if held_by_some(t2, i) {
                            let k = choose|k: u64| t2.contains_key(k) && #[trigger] has_core(t2[k], i);
                            if k != job_id {
                                assert(held_by_some(t, i));
                            }
                        }
                    }
                    assert forall|a: u64, b: u64, i: int|
                        t2.contains_key(a) && t2.contains_key(b) && a != b && 0 <= i < 64 implies !(#[trigger] has_core(
                        t2[a],
                        i,
                    ) && #[trigger] has_core(t2[b], i)) by {
                        lemma_core_of_disjoint(bits, mask, i);
                        if a == job_id {
                            if has_core(t[b], i) {
                                assert(held_by_some(t, i));
                            }
                        } else if b == job_id {
                            if has_core(t[a], i) {
                                assert(held_by_some(t, i));
                            }
                        }
                    }
                }
                Ok(mask)
            },
            None => Err(WorkerError::ResourceExhausted),
        }
    }

    /// Forgets job `id` and frees its cores: what both a cancellation and the
    /// end of the job's process do. Fails with `NotFound` for a job the worker does not run.
    pub fn release_job(&mut self, id: u64) -> (r: Result<u64, WorkerError>)
        requires
            old(self).wf(),
        ensures
            final(self).wf(),
            final(self).cores.total() == old(self).cores.total(),
            r is Err <==> !old(self).table().contains_key(id),
            r is Err ==> r == Err::<u64, WorkerError>(WorkerError::NotFound) && final(self).cores.bits()
                == old(self).cores.bits() && final(self).table() == old(self).table(),
            r matches Ok(mask) ==> {
                &&& mask == old(self).table()[id]
                &&& final(self).table() == old(self).table().remove(id)
                &&& final(self).cores.bits() == old(self).cores.bits() & !mask
            },
    {
        let ghost bits = self.cores.bits();
        let ghost t = self.table();
        proof {
            assert(forall|i: int| 0 <= i < 64 ==> (#[trigger] has_core(bits, i) <==> held_by_some(t, i)));
        }
        match table_remove(&mut self.masks, id) {
            Some(mask) => {
                self.cores.free(mask);
                proof {
                    let t2 = self.table();
                    assert forall|i: int| 0 <= i < 64 implies (#[trigger] has_core(self.cores.bits(), i)
                        <==> held_by_some(t2, i)) by {
                        lemma_core_of_clear(bits, mask, i);
                        if has_core(self.cores.bits(), i) {
                            assert(has_core(bits, i) && !has_core(mask, i));
                            assert(held_by_some(t, i));
                            let k = choose|k: u64| t.contains_key(k) && #[trigger] has_core(t[k], i);
                            assert(k != id);
                            assert(t2[k] == t[k]);
                            assert(t2.contains_key(k) && has_core(t2[k], i));
                            assert(held_by_some(t2, i));
                        }
                        if held_by_some(t2, i) {
                            let k = choose|k: u64| t2.contains_key(k) && #[trigger] has_core(t2[k], i);
                            assert(held_by_some(t, i));
                            assert(!(has_core(t[k], i) && has_core(t[id], i)));
                        }
                    }
                    assert forall|a: u64, b: u64, i: int|
                        t2.contains_key(a) && t2.contains_key(b) && a != b && 0 <= i < 64 implies !(#[trigger] has_core(
                        t2[a],
                        i,
                    ) && #[trigger] has_core(t2[b], i)) by {
                        assert(t2[a] == t[a] && t2[b] == t[b]);
                        assert(!(has_core(t[a], i) && has_core(t[b], i)));
                    }
                }
                Ok(mask)
            },
            None => {
                proof {
                    assert(self.table() =~= t);
                }
                Err(WorkerError::NotFound)
            },
        }
    }

    /// An extension of `minutes` for job `id`: the seconds to add to its deadline.
    pub fn extend_job(&self, id: u64, minutes: u32) -> (r: Result<u64, WorkerError>)
        ensures
            r is Err <==> !self.table().contains_key(id),
            r is Err ==> r == Err::<u64, WorkerError>(WorkerError::NotFound),
            r matches Ok(secs) ==> secs == minutes * 60,
    {
        if table_contains(&self.masks, id) {
            Ok(minutes as u64 * 60)
        } else {
            Err(WorkerError::NotFound)
        }
    }
}

/// What the supervisor of one job learns.
#[derive(Clone, Copy, Debug, PartialEq, Eq, Structural)]
pub enum SupervisorEvent {
    /// The child process could not be started, or confined to its control group.
    StartFailed,
    /// The child process ended; `success` tells whether its exit status was zero.
    ChildExited { success: bool },
    /// The clock reached `now` (monotonic milliseconds).
    Tick { now: u64 },
    /// The job's time limit grew by `secs` seconds.
    Extended { secs: u64 },
}

/// What the supervisor asks its caller to do.
#[derive(Clone, Copy, Debug, PartialEq, Eq, Structural)]
pub enum SupervisorAction {
    /// Keep waiting.
    Wait,
    /// The job is over: free its cores and report `result`.
    Finish { result: JobResult },
    /// The deadline passed: kill the child, free its cores and report `result` (a timeout).
    KillAndFinish { result: JobResult },
}

/// The supervisor of one job: its deadline in monotonic milliseconds.
#[derive(Clone, Copy, Debug, PartialEq, Eq, Structural)]
pub struct Supervisor {
    pub job_id: u64,
    pub deadline: u64,
}

/// `a + b`, or the largest `u64` if that does not fit.
pub open spec fn sat_add(a: u64, b: int) -> u64 {
    if a + b > u64::MAX {
        u64::MAX
    } else {
        (a + b) as u64
    }
}

/// The supervisor's answer to `ev`, and its state afterwards.
pub open spec fn supervise(s: Supervisor, ev: SupervisorEvent) -> (Supervisor, SupervisorAction) {
    match ev {
        SupervisorEvent::StartFailed => (
            s,
            SupervisorAction::Finish { result: JobResult { id: s.job_id, status: JobStatus::Failed } },
        ),
        SupervisorEvent::ChildExited { success } => (
            s,
            SupervisorAction::Finish {
                result: JobResult {
                    id: s.job_id,
                    status: if success {
                        JobStatus::Completed
                    } else {
                        JobStatus::Failed
                    },
                },
            },
        ),
        SupervisorEvent::Tick { now } => if now >= s.deadline {
            (
                s,
                SupervisorAction::KillAndFinish {
                    result: JobResult { id: s.job_id, status: JobStatus::Timeout },
                },
            )
        } else {
            (s, SupervisorAction::Wait)
        },
        SupervisorEvent::Extended { secs } => (
            Supervisor { deadline: sat_add(s.deadline, secs * 1000), ..s },
            SupervisorAction::Wait,
        ),
    }
}

impl Supervisor {
    /// A supervisor started at `now` for a job with a limit of `time_mins` minutes.
    pub fn start(job_id: u64, now: u64, time_mins: u32) -> (r: Self)
        ensures
            r == (Supervisor { job_id, deadline: sat_add(now, time_mins * MS_PER_MINUTE) }),
    {
        let span: u64 = time_mins as u64 * MS_PER_MINUTE;
        Supervisor { job_id, deadline: now.saturating_add(span) }
    }

    /// Handles one event: a child's exit ends the job (Completed on success, else
    /// Failed), a tick at or past the deadline ends it with a timeout, an extension
    /// moves the deadline later.
    pub fn step(&mut self, ev: SupervisorEvent) -> (a: SupervisorAction)
        ensures
            (*final(self), a) == supervise(*old(self), ev),
    {
        match ev {
            SupervisorEvent::StartFailed => SupervisorAction::Finish {
                result: JobResult::new(self.job_id, JobStatus::Failed),
            },
            SupervisorEvent::ChildExited { success } => {
                let status = if success {
                    JobStatus::Completed
                } else {
                    JobStatus::Failed
                };
                SupervisorAction::Finish { result: JobResult::new(self.job_id, status) }
            },
            SupervisorEvent::Tick { now } => {
                if now >= self.deadline {
                    SupervisorAction::KillAndFinish {
                        result: JobResult::new(self.job_id, JobStatus::Timeout),
                    }
                } else {
                    SupervisorAction::Wait
                }
            },
            SupervisorEvent::Extended { secs } => {
                let ms = if secs > u64::MAX / 1000 {
                    u64::MAX
                } else {
                    secs * 1000
                };
                proof {
                    if secs > u64::MAX / 1000 {
                        assert(secs * 1000 > u64::MAX) by (nonlinear_arith)
                            requires
                                secs > u64::MAX / 1000,
                        ;
                    }
                }
                self.deadline = self.deadline.saturating_add(ms);
                SupervisorAction::Wait
            },
        }
    }
}

/// The result a finished job's supervisor gave, or `Failed` when the supervisor
/// itself died before giving one.
pub fn completion_result(job_id: u64, outcome: Option<JobResult>) -> (r: JobResult)
    ensures
        r == match outcome {
            Some(res) => res,
            None => JobResult { id: job_id, status: JobStatus::Failed },
        },
{
    match outcome {
        Some(res) => res,
        None => JobResult::new(job_id, JobStatus::Failed),
    }
}

/// The name of the control group for the process with id `pid`: `melon_<pid>`.
pub fn cgroup_name(pid: u32) -> (r: String)
    ensures
        r@ == "melon_"@ + decimal(pid as nat),
{
    let mut v: Vec<char> = Vec::new();
    push_decimal(&mut v, pid as u64);
    let digits = string_of_chars(&v);
    proof {
        assert(v@ =~= decimal(pid as nat));
    }
    let mut s = String::from_str("melon_");
    s.append(digits.as_str());
    s
}

/// The address at which a worker listening on `port` is reached: `http://[::1]:<port>`.
pub fn worker_address(port: u16) -> (r: String)
    ensures
        r@ == "http://[::1]:"@ + decimal(port as nat),
{
    let mut v: Vec<char> = Vec::new();
    push_decimal(&mut v, port as u64);
    let digits = string_of_chars(&v);
    proof {
        assert(v@ =~= decimal(port as nat));
    }
    let mut s = String::from_str("http://[::1]:");
    s.append(digits.as_str());
    s
}

} // verus!
