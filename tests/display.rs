use melon::display::{
    calculate_elapsed_time, calculate_job_time, format_duration, format_timestamp, job_info_row, queue_row,
    script_name, truncate_str,
};
use melon::model::{Job, JobStatus, RequestedResources};

fn job(status: JobStatus, start: Option<u64>, stop: Option<u64>) -> Job {
    let mut j = Job::new(
        3,
        "averyverylongusername".to_string(),
        "/opt/scripts/simulation_long_name.sh".to_string(),
        vec![],
        RequestedResources::new(1, 1, 1),
        0,
    );
    j.status = status;
    j.start_time = start;
    j.stop_time = stop;
    if status != JobStatus::Pending {
        j.assigned_node = Some("node-7".to_string());
    }
    j
}

#[test]
fn durations_are_padded() {
    assert_eq!(format_duration(0), "00:00:00");
    assert_eq!(format_duration(3_723), "01:02:03");
    assert_eq!(format_duration(360_000), "100:00:00");
}

#[test]
fn job_time_by_status() {
    assert_eq!(calculate_job_time(&job(JobStatus::Pending, None, None), 50), "00:00:00");
    assert_eq!(calculate_job_time(&job(JobStatus::Running, Some(10), None), 3_671), "01:01:01");
    assert_eq!(calculate_job_time(&job(JobStatus::Completed, Some(10), Some(70)), 9_999), "00:01:00");
    assert_eq!(calculate_job_time(&job(JobStatus::Failed, Some(10), None), 9_999), "00:00:00");
}

#[test]
fn elapsed_in_days() {
    assert_eq!(calculate_elapsed_time(&job(JobStatus::Timeout, Some(0), Some(90_060)), 0), "1-01-01");
    assert_eq!(calculate_elapsed_time(&job(JobStatus::Pending, None, None), 9), "0-00-00");
}

#[test]
fn truncation_and_names() {
    assert_eq!(truncate_str("short", 15), "short");
    assert_eq!(truncate_str("simulation_long_name.sh", 15), "simulation_l...");
    assert_eq!(script_name("/opt/scripts/run.sh"), "run.sh");
    assert_eq!(script_name("run.sh"), "run.sh");
    assert_eq!(script_name("/opt/"), "");
}

#[test]
fn timestamps() {
    assert_eq!(format_timestamp(None), "N/A");
    assert_eq!(format_timestamp(Some(1_431_648_000)), "2015-05-15 00:00:00");
    assert_eq!(format_timestamp(Some(0)), "1970-01-01 00:00:00");
}

#[test]
fn queue_and_info_rows() {
    let r = queue_row(&job(JobStatus::Running, Some(0), None), 61);
    assert_eq!(r.name, "/opt/scrip");
    assert_eq!(r.user, "averyver");
    assert_eq!(r.status, "R");
    assert_eq!(r.time, "00:01:01");
    assert_eq!(r.node, "node-7");
    let p = queue_row(&job(JobStatus::Pending, None, None), 61);
    assert_eq!(p.node, "pending");
    assert_eq!(p.status, "PD");

    let i = job_info_row(&job(JobStatus::Pending, None, None));
    assert_eq!(i.name, "simulation_l...");
    assert_eq!(i.node, "(PD)");
    assert_eq!(i.status, "Pending");
    assert_eq!(i.start, "N/A");
    assert_eq!(i.submit, "1970-01-01 00:00:00");
}
