//! What the command-line clients show of a job: elapsed times, shortened names,
//! timestamps and the columns of the queue listing and of the job view.
use vstd::prelude::*;

use chrono::TimeZone;

use crate::model::{status_short, Job, JobStatus};
use crate::text::{decimal, push_decimal, string_of_chars, chars_of};

verus! {

/// The UTC date and time `secs` seconds after the epoch, written `YYYY-MM-DD HH:MM:SS`,
/// if chrono can represent that instant.
pub uninterp spec fn utc_text(secs: i64) -> Option<Seq<char>>;

/// Relies on chrono's `Utc.timestamp_opt(secs, 0).single()` and
/// `format("%Y-%m-%d %H:%M:%S")`: the text depends on `secs` alone.
#[verifier::external_body]
fn utc_datetime(secs: i64) -> (r: Option<String>)
    ensures
        match r {
            Some(s) => utc_text(secs) == Some(s@),
            None => utc_text(secs) is None,
        },
{
    match chrono::Utc.timestamp_opt(secs, 0).single() {
        Some(dt) => Some(dt.format("%Y-%m-%d %H:%M:%S").to_string()),
        None => None,
    }
}

/// `n` in decimal, with a leading zero below ten.
pub open spec fn pad2(n: nat) -> Seq<char> {
    if n < 10 {
        seq!['0'] + decimal(n)
    } else {
        decimal(n)
    }
}

fn push_pad2(out: &mut Vec<char>, n: u64)
    ensures
        final(out)@ == old(out)@ + pad2(n as nat),
{
    if n < 10 {
        out.push('0');
    }
    push_decimal(out, n);
    proof {
        if n < 10 {
            assert(out@ =~= old(out)@ + pad2(n as nat));
        }
    }
}

/// A duration of `secs` seconds as `HH:MM:SS`; the hours may exceed two digits.
pub open spec fn clock_text(secs: nat) -> Seq<char> {
    pad2(secs / 3600) + seq![':'] + pad2((secs % 3600) / 60) + seq![':'] + pad2(secs % 60)
}

/// Formats `total_seconds` as `HH:MM:SS`.
pub fn format_duration(total_seconds: u64) -> (r: String)
    ensures
        r@ == clock_text(total_seconds as nat),
{
    let mut out: Vec<char> = Vec::new();
    push_pad2(&mut out, total_seconds / 3600);
    out.push(':');
    push_pad2(&mut out, (total_seconds % 3600) / 60);
    out.push(':');
    push_pad2(&mut out, total_seconds % 60);
    proof {
        assert(out@ =~= clock_text(total_seconds as nat));
    }
    string_of_chars(&out)
}

/// `b - a`, or zero when `b` comes first.
pub open spec fn since(a: u64, b: u64) -> nat {
    if b >= a {
        (b - a) as nat
    } else {
        0
    }
}

/// The seconds a job has run (or ran) at `now`: nothing while pending, up to `now`
/// while running, from start to stop once finished.
pub open spec fn run_seconds(job: Job, now: u64) -> nat {
    match job.status {
        JobStatus::Pending => 0,
        JobStatus::Running => match job.start_time {
            Some(s) => since(s, now),
            None => 0,
        },
        _ => match (job.start_time, job.stop_time) {
            (Some(s), Some(e)) => since(s, e),
            _ => 0,
        },
    }
}

fn elapsed(a: u64, b: u64) -> (r: u64)
    ensures
        r == since(a, b),
{
    if b >= a {
        b - a
    } else {
        0
    }
}

/// The TIME column of the queue listing: how long the job has run, as `HH:MM:SS`.
pub fn calculate_job_time(job: &Job, now: u64) -> (r: String)
    ensures
        r@ == clock_text(run_seconds(*job, now)),
{
    let secs: u64 = match job.status {
        JobStatus::Pending => 0,
        JobStatus::Running => match job.start_time {
            Some(s) => elapsed(s, now),
            None => 0,
        },
        _ => match (job.start_time, job.stop_time) {
            (Some(s), Some(e)) => elapsed(s, e),
            _ => 0,
        },
    };
    format_duration(secs)
}

/// A duration of `secs` seconds as `D-HH-MM`.
pub open spec fn days_text(secs: nat) -> Seq<char> {
    decimal(secs / 86400) + seq!['-'] + pad2((secs % 86400) / 3600) + seq!['-'] + pad2(
        (secs % 3600) / 60,
    )
}

/// How long a job has run at `now`, as `D-HH-MM`.
pub fn calculate_elapsed_time(job: &Job, now: u64) -> (r: String)
    ensures
        r@ == days_text(run_seconds(*job, now)),
{
    let secs: u64 = match job.status {
        JobStatus::Pending => 0,
        JobStatus::Running => match job.start_time {
            Some(s) => elapsed(s, now),
            None => 0,
        },
        _ => match (job.start_time, job.stop_time) {
            (Some(s), Some(e)) => elapsed(s, e),
            _ => 0,
        },
    };
    let mut out: Vec<char> = Vec::new();
    push_decimal(&mut out, secs / 86400);
    out.push('-');
    push_pad2(&mut out, (secs % 86400) / 3600);
    out.push('-');
    push_pad2(&mut out, (secs % 3600) / 60);
    proof {
        assert(out@ =~= days_text(secs as nat));
    }
    string_of_chars(&out)
}

/// `s` cut to `max_chars` characters, the last three replaced by `...`, when it is longer.
pub open spec fn truncated(s: Seq<char>, max_chars: nat) -> Seq<char> {
    if s.len() > max_chars {
        s.subrange(0, max_chars - 3) + "..."@
    } else {
        s
    }
}

/// Shortens `s` to `max_chars` characters, ending in `...`, when it is longer.
/// A string longer than `max_chars` needs room for the three dots.
pub fn truncate_str(s: &str, max_chars: usize) -> (r: String)
    requires
        s@.len() > max_chars ==> max_chars >= 3,
    ensures
        r@ == truncated(s@, max_chars as nat),
{
    let n = s.unicode_len();
    if n > max_chars {
        let mut out = s.substring_char(0, max_chars - 3).to_owned();
        out.append("...");
        out
    } else {
        s.to_owned()
    }
}

/// The first `n` characters of `s`, or all of it when it is shorter.
pub open spec fn prefix_of(s: Seq<char>, n: nat) -> Seq<char> {
    if s.len() > n {
        s.subrange(0, n as int)
    } else {
        s
    }
}

fn first_chars(s: &str, n: usize) -> (r: String)
    ensures
        r@ == prefix_of(s@, n as nat),
{
    if s.unicode_len() > n {
        s.substring_char(0, n).to_owned()
    } else {
        s.to_owned()
    }
}

/// A timestamp for display: the UTC date and time, or `N/A` when there is none.
pub open spec fn timestamp_text(t: Option<u64>) -> Seq<char> {
    match t {
        Some(secs) => match utc_text(secs as i64) {
            Some(s) => s,
            None => "N/A"@,
        },
        None => "N/A"@,
    }
}

/// Formats an epoch-seconds timestamp as `YYYY-MM-DD HH:MM:SS` (UTC), or `N/A`.
pub fn format_timestamp(timestamp: Option<u64>) -> (r: String)
    ensures
        r@ == timestamp_text(timestamp),
{
    match timestamp {
        Some(t) => match utc_datetime(t as i64) {
            Some(s) => s,
            None => String::from_str("N/A"),
        },
        None => String::from_str("N/A"),
    }
}

/// The characters after the last `/` of `p`.
pub open spec fn last_segment(p: Seq<char>) -> Seq<char>
    decreases p.len(),
{
    if p.len() == 0 {
        p
    } else if p.last() == '/' {
        seq![]
    } else {
        last_segment(p.drop_last()).push(p.last())
    }
}

/// The script's file name: what follows the last `/` of its path.
pub fn script_name(path: &str) -> (r: String)
    ensures
        r@ == last_segment(path@),
{
    let chars = chars_of(path);
    let mut start: usize = 0;
    let mut i: usize = 0;
    while i < chars.len()
        invariant
            i <= chars@.len(),
            start <= i,
            chars@ == path@,
            last_segment(chars@.subrange(0, i as int)) == chars@.subrange(start as int, i as int),
        decreases chars.len() - i,
    {
        let ghost pre = chars@.subrange(0, i as int);
        let ghost next = chars@.subrange(0, i + 1);
        proof {
            assert(next.drop_last() =~= pre);
        }
        if chars[i] == '/' {
            start = i + 1;
            proof {
                assert(chars@.subrange(start as int, i + 1) =~= seq![]);
            }
        } else {
            proof {
                assert(chars@.subrange(start as int, i + 1) =~= chars@.subrange(start as int, i as int).push(chars@[i as int]));
            }
        }
        i = i + 1;
    }
    proof {
        assert(chars@.subrange(0, i as int) =~= chars@);
    }
    let mut out: Vec<char> = Vec::new();
    let mut k: usize = start;
    while k < chars.len()
        invariant
            start <= k <= chars@.len(),
            out@ == chars@.subrange(start as int, k as int),
        decreases chars.len() - k,
    {
        out.push(chars[k]);
        proof {
            assert(out@ =~= chars@.subrange(start as int, k + 1));
        }
        k = k + 1;
    }
    string_of_chars(&out)
}

/// One line of the queue listing.
pub struct QueueRow {
    pub id: u64,
    pub name: String,
    pub user: String,
    pub status: String,
    pub time: String,
    pub node: String,
}

/// The NODES column: `pending` for a pending job, else the node or `unknown`.
pub open spec fn node_column(job: Job) -> Seq<char> {
    if job.status == JobStatus::Pending {
        "pending"@
    } else {
        match job.assigned_node {
            Some(n) => n@,
            None => "unknown"@,
        }
    }
}

/// The queue listing's line for `job` at `now`: the script path cut to 10
/// characters, the user cut to 8, the short status, the run time and the node.
pub fn queue_row(job: &Job, now: u64) -> (r: QueueRow)
    ensures
        r.id == job.id,
        r.name@ == prefix_of(job.script_path@, 10),
        r.user@ == prefix_of(job.user@, 8),
        r.status@ == status_short(job.status),
        r.time@ == clock_text(run_seconds(*job, now)),
        r.node@ == node_column(*job),
{
    let node = if job.status == JobStatus::Pending {
        String::from_str("pending")
    } else {
        match &job.assigned_node {
            Some(n) => n.clone(),
            None => String::from_str("unknown"),
        }
    };
    QueueRow {
        id: job.id,
        name: first_chars(job.script_path.as_str(), 10),
        user: first_chars(job.user.as_str(), 8),
        status: job.status.short_code(),
        time: calculate_job_time(job, now),
        node,
    }
}

/// The columns of the job view.
pub struct JobInfoRow {
    pub id: u64,
    pub name: String,
    pub user: String,
    pub status: String,
    pub submit: String,
    pub start: String,
    pub stop: String,
    pub node: String,
}

/// The job view's NODES column: `(PD)` for a pending job, else the node, if any.
pub open spec fn info_node(job: Job) -> Seq<char> {
    if job.status == JobStatus::Pending {
        "(PD)"@
    } else {
        match job.assigned_node {
            Some(n) => n@,
            None => seq![],
        }
    }
}

/// The job view of `job`: the script's file name cut to 15 characters, the full
/// status name and the three timestamps.
pub fn job_info_row(job: &Job) -> (r: JobInfoRow)
    ensures
        r.id == job.id,
        r.name@ == truncated(last_segment(job.script_path@), 15),
        r.user@ == job.user@,
        r.status@ == crate::model::status_name(job.status),
        r.submit@ == timestamp_text(Some(job.submit_time)),
        r.start@ == timestamp_text(job.start_time),
        r.stop@ == timestamp_text(job.stop_time),
        r.node@ == info_node(*job),
{
    let node = if job.status == JobStatus::Pending {
        String::from_str("(PD)")
    } else {
        match &job.assigned_node {
            Some(n) => n.clone(),
            None => String::new(),
        }
    };
    let name = script_name(job.script_path.as_str());
    JobInfoRow {
        id: job.id,
        name: truncate_str(name.as_str(), 15),
        user: job.user.clone(),
        status: job.status.name(),
        submit: format_timestamp(Some(job.submit_time)),
        start: format_timestamp(job.start_time),
        stop: format_timestamp(job.stop_time),
        node,
    }
}

} // verus!
