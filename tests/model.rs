use melon::model::{Job, JobResult, JobStatus, Node, NodeResources, NodeStatus, RequestedResources};
use melon::wire::{assignment_of, decode_job, decode_result, encode_job, encode_result, JobResultMsg, WireError};
use melon::store::{job_of_row, row_of_job, StoreError};

fn job(node: Option<&str>) -> Job {
    let mut j = Job::new(
        17,
        "chris".to_string(),
        "/home/chris/run.sh".to_string(),
        vec!["a".to_string(), "b c".to_string()],
        RequestedResources::new(4, 1 << 30, 90),
        1_700_000_000,
    );
    if let Some(n) = node {
        j.status = JobStatus::Running;
        j.start_time = Some(1_700_000_100);
        j.assigned_node = Some(n.to_string());
    }
    j
}

#[test]
fn job_wire_round_trip() {
    for j in [job(None), job(Some("node-1"))] {
        let m = encode_job(&j);
        let d = decode_job(&m).unwrap();
        assert_eq!(d.id, j.id);
        assert_eq!(d.user, j.user);
        assert_eq!(d.script_path, j.script_path);
        assert_eq!(d.script_args, j.script_args);
        assert_eq!(d.req_res, j.req_res);
        assert_eq!(d.status, j.status);
        assert_eq!(d.start_time, j.start_time);
        assert_eq!(d.assigned_node, j.assigned_node);
    }
}

#[test]
fn wire_status_ordinals() {
    let j = job(Some("n"));
    assert_eq!(encode_job(&j).status, 3);
    assert_eq!(encode_job(&job(None)).status, 2);
    assert_eq!(encode_job(&job(None)).assigned_node, "");
    assert_eq!(JobStatus::Completed.code(), 0);
    assert_eq!(JobStatus::Timeout.code(), 4);
    assert_eq!(JobStatus::from_code(1), Some(JobStatus::Failed));
    assert_eq!(JobStatus::from_code(5), None);
    assert_eq!(encode_result(&JobResult::new(9, JobStatus::Timeout)), JobResultMsg { job_id: 9, status: 4 });
    assert_eq!(decode_result(&JobResultMsg { job_id: 9, status: 0 }), Ok(JobResult::new(9, JobStatus::Completed)));
    assert_eq!(decode_result(&JobResultMsg { job_id: 9, status: 7 }), Err(WireError::UnknownStatus));
}

#[test]
fn decode_rejects_bad_messages() {
    let mut m = encode_job(&job(None));
    m.status = -1;
    assert_eq!(decode_job(&m).err(), Some(WireError::UnknownStatus));
    m.req_res = None;
    assert_eq!(decode_job(&m).err(), Some(WireError::MissingResources));
}

#[test]
fn assignment_carries_the_request() {
    let j = job(None);
    let a = assignment_of(&j);
    assert_eq!(a.job_id, 17);
    assert_eq!(a.req_res, Some(j.req_res));
    assert_eq!(a.script_args, j.script_args);
}

#[test]
fn resource_reduction_and_free() {
    let mut node = Node::new(
        "node-1".to_string(),
        "127.0.0.1".to_string(),
        NodeResources::new(15, 1 << 29),
        NodeStatus::Available,
        0,
    );
    let req_res = RequestedResources::new(7, 1 << 28, 5);
    node.reduce_avail_resources(&req_res);
    assert!(node.used_resources.cpu_count <= node.avail_resources.cpu_count);
    assert!(node.used_resources.memory <= node.avail_resources.memory);
    node.free_avail_resource(&req_res);
    assert_eq!(node.used_resources.cpu_count, 0);
    assert_eq!(node.used_resources.memory, 0);
}

#[test]
fn job_helpers() {
    let mut j = job(None);
    j.extend_time(10);
    assert_eq!(j.req_res.time, 100);
    let d = j.duplicate();
    assert_eq!(d.script_args, j.script_args);
    assert_eq!(JobStatus::Pending.name(), "Pending");
    assert_eq!(JobStatus::Timeout.short_code(), "TO");
    assert!(JobStatus::Failed.is_terminal());
    assert!(!JobStatus::Running.is_terminal());
    assert_eq!(NodeResources::empty(), NodeResources::new(0, 0));
}

#[test]
fn store_rows_round_trip_arguments_as_json() {
    let mut j = job(Some("node-1"));
    assert_eq!(row_of_job(&j).err(), Some(StoreError::NoStopTime));
    j.status = JobStatus::Completed;
    j.stop_time = Some(1_700_000_200);
    let row = row_of_job(&j).unwrap();
    assert_eq!(row.script_args, "[\"a\",\"b c\"]");
    assert_eq!(row.status, 0);
    assert_eq!(row.stop_time, 1_700_000_200);
    let back = job_of_row(&row).unwrap();
    assert_eq!(back.script_args, j.script_args);
    assert_eq!(back.status, JobStatus::Completed);
    assert_eq!(back.assigned_node, j.assigned_node);
    let mut bad = row.clone();
    bad.script_args = "not json".to_string();
    assert_eq!(job_of_row(&bad).err(), Some(StoreError::BadArguments));
    bad.status = 9;
    assert_eq!(job_of_row(&bad).err(), Some(StoreError::UnknownStatus));
}
