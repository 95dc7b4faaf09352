//! The rows of the durable store: a finished job flattened into plain columns,
//! its arguments kept as a JSON array of strings.
use vstd::prelude::*;

use crate::model::{
    copy_opt_string, opt_string_view, status_code, status_of_code, strings_view, Job, JobStatus,
    RequestedResources,
};

verus! {

/// The JSON array text that serde_json writes for a list of strings.
pub uninterp spec fn json_of_strings(v: Seq<Seq<char>>) -> Seq<char>;

/// The list of strings that serde_json reads from a JSON text, if it holds one.
pub uninterp spec fn strings_of_json(s: Seq<char>) -> Option<Seq<Seq<char>>>;

/// Relies on `serde_json::to_string` for a `Vec<String>`: a JSON array of the
/// strings, which depends on them alone (serializing strings does not fail).
#[verifier::external_body]
fn args_to_json(v: &Vec<String>) -> (r: String)
    ensures
        r@ == json_of_strings(strings_view(v@)),
{
    match serde_json::to_string(v) {
        Ok(s) => s,
        Err(_) => String::new(),
    }
}

/// Relies on `serde_json::from_str::<Vec<String>>`: the strings of a JSON array,
/// or nothing when the text is not one.
#[verifier::external_body]
fn args_from_json(s: &str) -> (r: Option<Vec<String>>)
    ensures
        match r {
            Some(v) => strings_of_json(s@) == Some(strings_view(v@)),
            None => strings_of_json(s@) is None,
        },
{
    serde_json::from_str::<Vec<String>>(s).ok()
}

/// Why a job and a row do not convert.
#[derive(Clone, Copy, Debug, PartialEq, Eq, Structural)]
pub enum StoreError {
    /// Only finished jobs, which have a stop time, are stored.
    NoStopTime,
    /// The status column holds no known ordinal.
    UnknownStatus,
    /// The arguments column is not a JSON array of strings.
    BadArguments,
}

/// One row of the `jobs` table.
#[derive(Clone, Debug)]
pub struct JobRow {
    pub id: u64,
    pub user: String,
    pub script_path: String,
    pub script_args: String,
    pub cpu_count: u32,
    pub memory: u64,
    pub time: u32,
    pub submit_time: u64,
    pub start_time: Option<u64>,
    pub stop_time: u64,
    pub status: i32,
    pub assigned_node: Option<String>,
}

/// `row` stores `job`, whose arguments were written as `args_json`.
pub open spec fn row_matches(job: Job, args_json: Seq<char>, row: JobRow) -> bool {
    &&& row.id == job.id
    &&& row.user@ == job.user@
    &&& row.script_path@ == job.script_path@
    &&& row.script_args@ == args_json
    &&& row.cpu_count == job.req_res.cpu_count
    &&& row.memory == job.req_res.memory
    &&& row.time == job.req_res.time
    &&& row.submit_time == job.submit_time
    &&& row.start_time == job.start_time
    &&& Some(row.stop_time) == job.stop_time
    &&& row.status == status_code(job.status)
    &&& opt_string_view(row.assigned_node) == opt_string_view(job.assigned_node)
}

/// The row of a finished job whose arguments were written as `args_json`.
pub fn row_with_args(job: &Job, args_json: String) -> (r: Result<JobRow, StoreError>)
    ensures
        job.stop_time is None ==> r == Err::<JobRow, StoreError>(StoreError::NoStopTime),
        job.stop_time is Some ==> (r matches Ok(row) && row_matches(*job, args_json@, row)),
{
    let stop_time = match job.stop_time {
        Some(t) => t,
        None => {
            return Err(StoreError::NoStopTime);
        },
    };
    Ok(
        JobRow {
            id: job.id,
            user: job.user.clone(),
            script_path: job.script_path.clone(),
            script_args: args_json,
            cpu_count: job.req_res.cpu_count,
            memory: job.req_res.memory,
            time: job.req_res.time,
            submit_time: job.submit_time,
            start_time: job.start_time,
            stop_time,
            status: job.status.code(),
            assigned_node: copy_opt_string(&job.assigned_node),
        },
    )
}

/// The row that stores a finished job; a job without a stop time is refused.
pub fn row_of_job(job: &Job) -> (r: Result<JobRow, StoreError>)
    ensures
        job.stop_time is None ==> r == Err::<JobRow, StoreError>(StoreError::NoStopTime),
        job.stop_time is Some ==> (r matches Ok(row) && row_matches(
            *job,
            json_of_strings(strings_view(job.script_args@)),
            row,
        )),
{
    let args = args_to_json(&job.script_args);
    row_with_args(job, args)
}

/// The job a row stores, given the row's arguments as read from its JSON text.
pub fn job_with_args(row: &JobRow, args: Option<Vec<String>>) -> (r: Result<Job, StoreError>)
    ensures
        status_of_code(row.status) is None ==> r == Err::<Job, StoreError>(StoreError::UnknownStatus),
        status_of_code(row.status) is Some && args is None ==> r == Err::<Job, StoreError>(
            StoreError::BadArguments,
        ),
        status_of_code(row.status) is Some && args is Some ==> (r matches Ok(job) && row_matches(
            job,
            row.script_args@,
            *row,
        ) && strings_view(job.script_args@) == strings_view(args->0@)),
{
    let status = match JobStatus::from_code(row.status) {
        Some(s) => s,
        None => {
            return Err(StoreError::UnknownStatus);
        },
    };
    let script_args = match args {
        Some(a) => a,
        None => {
            return Err(StoreError::BadArguments);
        },
    };
    proof {
        assert(status_code(status) == row.status);
    }
    Ok(
        Job {
            id: row.id,
            user: row.user.clone(),
            script_path: row.script_path.clone(),
            script_args,
            req_res: RequestedResources::new(row.cpu_count, row.memory, row.time),
            submit_time: row.submit_time,
            start_time: row.start_time,
            stop_time: Some(row.stop_time),
            status,
            assigned_node: copy_opt_string(&row.assigned_node),
        },
    )
}

/// The job a row stores: its status ordinal must name a status and its arguments
/// column must hold a JSON array of strings.
pub fn job_of_row(row: &JobRow) -> (r: Result<Job, StoreError>)
    ensures
        status_of_code(row.status) is None ==> r == Err::<Job, StoreError>(StoreError::UnknownStatus),
        status_of_code(row.status) is Some && strings_of_json(row.script_args@) is None ==> r == Err::<
            Job,
            StoreError,
        >(StoreError::BadArguments),
        status_of_code(row.status) is Some && strings_of_json(row.script_args@) is Some ==> (r matches Ok(
            job,
        ) && row_matches(job, row.script_args@, *row) && Some(strings_view(job.script_args@))
            == strings_of_json(row.script_args@)),
{
    let args = args_from_json(row.script_args.as_str());
    job_with_args(row, args)
}

} // verus!
