//! The message shapes of the RPC service and their conversion to and from the
//! data model. Statuses travel as ordinals: Completed 0, Failed 1, Pending 2,
//! Running 3, Timeout 4.
use vstd::prelude::*;

use crate::model::{
    copy_strings, opt_string_view, status_code, status_of_code, strings_view, Job, JobResult,
    JobStatus, RequestedResources,
};

verus! {

/// A job as it travels over the wire; no node is written as an empty string.
#[derive(Clone, Debug)]
pub struct JobMsg {
    pub id: u64,
    pub user: String,
    pub script_path: String,
    pub script_args: Vec<String>,
    pub req_res: Option<RequestedResources>,
    pub submit_time: u64,
    pub start_time: Option<u64>,
    pub stop_time: Option<u64>,
    pub status: i32,
    pub assigned_node: String,
}

/// A job result as it travels over the wire.
#[derive(Clone, Copy, Debug, PartialEq, Eq, Structural)]
pub struct JobResultMsg {
    pub job_id: u64,
    pub status: i32,
}

/// What the scheduler sends a worker to start a job.
#[derive(Clone, Debug)]
pub struct JobAssignment {
    pub job_id: u64,
    pub user: String,
    pub script_path: String,
    pub req_res: Option<RequestedResources>,
    pub script_args: Vec<String>,
}

/// Why a message does not make a job or a result.
#[derive(Clone, Copy, Debug, PartialEq, Eq, Structural)]
pub enum WireError {
    /// The message carries no resource request.
    MissingResources,
    /// The status ordinal names no status.
    UnknownStatus,
}

/// `m` is the wire form of `j`.
pub open spec fn encodes(j: Job, m: JobMsg) -> bool {
    &&& m.id == j.id
    &&& m.user@ == j.user@
    &&& m.script_path@ == j.script_path@
    &&& strings_view(m.script_args@) == strings_view(j.script_args@)
    &&& m.req_res == Some(j.req_res)
    &&& m.submit_time == j.submit_time
    &&& m.start_time == j.start_time
    &&& m.stop_time == j.stop_time
    &&& m.status == status_code(j.status)
    &&& m.assigned_node@ == match j.assigned_node {
        Some(n) => n@,
        None => Seq::<char>::empty(),
    }
}

/// `r` is what decoding `m` yields: an error when it has no resource request or an
/// unknown status, else the job it describes, with an empty node read as none.
pub open spec fn decodes(m: JobMsg, r: Result<Job, WireError>) -> bool {
    if m.req_res is None {
        r == Err::<Job, WireError>(WireError::MissingResources)
    } else if status_of_code(m.status) is None {
        r == Err::<Job, WireError>(WireError::UnknownStatus)
    } else {
        r matches Ok(j) && {
            &&& j.id == m.id
            &&& j.user@ == m.user@
            &&& j.script_path@ == m.script_path@
            &&& strings_view(j.script_args@) == strings_view(m.script_args@)
            &&& j.req_res == m.req_res->0
            &&& j.submit_time == m.submit_time
            &&& j.start_time == m.start_time
            &&& j.stop_time == m.stop_time
            &&& Some(j.status) == status_of_code(m.status)
            &&& opt_string_view(j.assigned_node) == if m.assigned_node@.len() == 0 {
                None::<Seq<char>>
            } else {
                Some(m.assigned_node@)
            }
        }
    }
}

/// The wire form of a job.
pub fn encode_job(job: &Job) -> (m: JobMsg)
    ensures
        encodes(*job, m),
{
    JobMsg {
        id: job.id,
        user: job.user.clone(),
        script_path: job.script_path.clone(),
        script_args: copy_strings(&job.script_args),
        req_res: Some(job.req_res),
        submit_time: job.submit_time,
        start_time: job.start_time,
        stop_time: job.stop_time,
        status: job.status.code(),
        assigned_node: match &job.assigned_node {
            Some(n) => n.clone(),
            None => String::new(),
        },
    }
}

/// The job a wire message describes.
pub fn decode_job(m: &JobMsg) -> (r: Result<Job, WireError>)
    ensures
        decodes(*m, r),
{
    let req_res = match m.req_res {
        Some(res) => res,
        None => {
            return Err(WireError::MissingResources);
        },
    };
    let status = match JobStatus::from_code(m.status) {
        Some(s) => s,
        None => {
            return Err(WireError::UnknownStatus);
        },
    };
    let node = if m.assigned_node.as_str().unicode_len() == 0 {
        None
    } else {
        Some(m.assigned_node.clone())
    };
    Ok(
        Job {
            id: m.id,
            user: m.user.clone(),
            script_path: m.script_path.clone(),
            script_args: copy_strings(&m.script_args),
            req_res,
            submit_time: m.submit_time,
            start_time: m.start_time,
            stop_time: m.stop_time,
            status,
            assigned_node: node,
        },
    )
}

/// Decoding the wire form of a job gives back its id, user, script path,
/// arguments, resource request, times and status; its node too, unless the node
/// id is empty.
pub proof fn lemma_job_wire_round_trip(j: Job, m: JobMsg, r: Result<Job, WireError>)
    requires
        encodes(j, m),
        decodes(m, r),
    ensures
        r matches Ok(d) && {
            &&& d.id == j.id
            &&& d.user@ == j.user@
            &&& d.script_path@ == j.script_path@
            &&& strings_view(d.script_args@) == strings_view(j.script_args@)
            &&& d.req_res == j.req_res
            &&& d.submit_time == j.submit_time
            &&& d.start_time == j.start_time
            &&& d.stop_time == j.stop_time
            &&& d.status == j.status
        },
        (r matches Ok(d) && (j.assigned_node matches Some(n) ==> n@.len() > 0)) ==> opt_string_view(
            r->Ok_0.assigned_node,
        ) == opt_string_view(j.assigned_node),
{
    assert(status_of_code(status_code(j.status)) == Some(j.status));
}

/// The wire form of a job result.
pub fn encode_result(res: &JobResult) -> (m: JobResultMsg)
    ensures
        m == (JobResultMsg { job_id: res.id, status: status_code(res.status) }),
{
    JobResultMsg { job_id: res.id, status: res.status.code() }
}

/// The job result a wire message describes, or `UnknownStatus`.
pub fn decode_result(m: &JobResultMsg) -> (r: Result<JobResult, WireError>)
    ensures
        match status_of_code(m.status) {
            Some(s) => r == Ok::<JobResult, WireError>(JobResult { id: m.job_id, status: s }),
            None => r == Err::<JobResult, WireError>(WireError::UnknownStatus),
        },
{
    match JobStatus::from_code(m.status) {
        Some(s) => Ok(JobResult::new(m.job_id, s)),
        None => Err(WireError::UnknownStatus),
    }
}

/// What the scheduler sends the worker that takes `job`.
pub fn assignment_of(job: &Job) -> (a: JobAssignment)
    ensures
        a.job_id == job.id,
        a.user@ == job.user@,
        a.script_path@ == job.script_path@,
        a.req_res == Some(job.req_res),
        strings_view(a.script_args@) == strings_view(job.script_args@),
{
    JobAssignment {
        job_id: job.id,
        user: job.user.clone(),
        script_path: job.script_path.clone(),
        req_res: Some(job.req_res),
        script_args: copy_strings(&job.script_args),
    }
}

} // verus!
