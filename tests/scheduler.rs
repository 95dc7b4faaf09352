use melon::core_mask::CoreMask;
use melon::model::{JobStatus, NodeResources, NodeStatus, RequestedResources};
use melon::scheduler::{SchedulerCore, SchedulerError, WorkerStep};
use melon::worker::{Supervisor, SupervisorAction, SupervisorEvent, WorkerState};

const MIB: u64 = 1024 * 1024;

fn scheduler_with_node(cpu: u32, memory: u64) -> SchedulerCore {
    let mut s = SchedulerCore::new(0);
    s.register_node("N".to_string(), "http://[::1]:8081".to_string(), NodeResources::new(cpu, memory), 1_000)
        .unwrap();
    s
}

fn submit(s: &mut SchedulerCore, user: &str, cpu: u32, memory: u64, time: u32) -> u64 {
    s.submit_job(
        user.to_string(),
        "/bin/true".to_string(),
        vec![],
        Some(RequestedResources::new(cpu, memory, time)),
        100,
    )
    .unwrap()
}

/// One dispatch tick: starts every job that the first fitting node can take.
fn dispatch(s: &mut SchedulerCore, now: u64) -> Vec<u64> {
    let mut started = vec![];
    let mut from = 0;
    while let Some((k, m)) = s.next_assignment(from) {
        let job_id = s.pending[k].id;
        let node_id = s.nodes[m].id.clone();
        s.start_job(job_id, &node_id, now).unwrap();
        started.push(job_id);
        from = k;
    }
    started
}

#[test]
fn happy_path_submit_and_run() {
    let mut s = scheduler_with_node(8, 4 * MIB);
    let j = submit(&mut s, "chris", 1, 2 * MIB, 1024);
    assert_eq!(dispatch(&mut s, 200), vec![j]);
    assert_eq!(s.nodes[0].used_resources, NodeResources::new(1, 2 * MIB));
    assert_eq!(s.running[0].status, JobStatus::Running);
    assert_eq!(s.running[0].assigned_node, Some("N".to_string()));

    let done = s.submit_job_result(j, JobStatus::Completed, 300).unwrap();
    assert_eq!(s.nodes[0].used_resources, NodeResources::new(0, 0));
    assert_eq!(done.status, JobStatus::Completed);
    assert!(done.stop_time.unwrap() > done.start_time.unwrap());
    assert!(s.running.is_empty() && s.pending.is_empty());
    let listed = s.list_jobs(vec![done]);
    assert_eq!(listed.len(), 1);
    assert_eq!(listed[0].id, j);
}

#[test]
fn cancel_pending() {
    let mut s = SchedulerCore::new(0);
    let j = submit(&mut s, "chris", 1, MIB, 10);
    assert_eq!(s.cancel_job(j, &"chris".to_string()), Ok(WorkerStep::Done));
    assert!(s.pending.is_empty());
    assert_eq!(s.cancel_job(j, &"chris".to_string()), Err(SchedulerError::NotFound));
}

#[test]
fn cancel_pending_wrong_user() {
    let mut s = SchedulerCore::new(0);
    let j = submit(&mut s, "chris", 1, MIB, 10);
    assert_eq!(s.cancel_job(j, &"bob".to_string()), Err(SchedulerError::PermissionDenied));
    assert_eq!(s.pending.len(), 1);
    assert_eq!(s.pending[0].id, j);
}

#[test]
fn cancel_running() {
    let mut s = scheduler_with_node(8, 4 * MIB);
    let mut worker = WorkerState::new(8);
    let j = submit(&mut s, "chris", 1, 2 * MIB, 1024);
    dispatch(&mut s, 200);
    worker.assign_job(j, 1).unwrap();

    let step = s.cancel_job(j, &"chris".to_string()).unwrap();
    assert_eq!(step, WorkerStep::AskWorker { endpoint: "http://[::1]:8081".to_string() });
    assert_eq!(worker.release_job(j), Ok(0b1000_0000));
    assert_eq!(worker.cores.get_allocated_cores(), 0);
    let job = s.finish_cancel(j).unwrap();
    assert_eq!(job.id, j);
    assert_eq!(s.nodes[0].used_resources, NodeResources::new(0, 0));
    assert!(s.running.is_empty());
    assert!(s.finish_cancel(j).is_err());
}

#[test]
fn cancel_running_wrong_user() {
    let mut s = scheduler_with_node(8, 4 * MIB);
    let j = submit(&mut s, "chris", 1, 2 * MIB, 1024);
    dispatch(&mut s, 200);
    assert_eq!(s.cancel_job(j, &"UNKNOWN".to_string()), Err(SchedulerError::PermissionDenied));
    assert_eq!(s.running.len(), 1);
}

#[test]
fn extend_running() {
    let mut s = scheduler_with_node(8, 4 * MIB);
    let worker = {
        let mut w = WorkerState::new(8);
        w.assign_job(1, 1).unwrap();
        w
    };
    let j = submit(&mut s, "chris", 1, 2 * MIB, 1);
    assert_eq!(j, 1);
    dispatch(&mut s, 200);

    let step = s.extend_job(j, &"chris".to_string(), 125).unwrap();
    assert!(matches!(step, WorkerStep::AskWorker { .. }));
    let secs = worker.extend_job(j, 125).unwrap();
    assert_eq!(secs, 125 * 60);

    let start = 10_000;
    let mut sup = Supervisor::start(j, start, 1);
    assert_eq!(sup.step(SupervisorEvent::Extended { secs }), SupervisorAction::Wait);
    assert_eq!(sup.deadline, start + 60_000 + 125 * 60_000);
    // The first one-minute mark passes without a kill.
    assert_eq!(sup.step(SupervisorEvent::Tick { now: start + 61_000 }), SupervisorAction::Wait);

    s.finish_extend(j, 125).unwrap();
    assert_eq!(s.running[0].req_res.time, 126);
}

#[test]
fn extend_pending_and_refusals() {
    let mut s = SchedulerCore::new(0);
    let j = submit(&mut s, "chris", 1, MIB, 10);
    assert_eq!(s.extend_job(j, &"chris".to_string(), 125), Ok(WorkerStep::Done));
    assert_eq!(s.pending[0].req_res.time, 135);
    assert_eq!(s.extend_job(j, &"UNKNOWN".to_string(), 125), Err(SchedulerError::PermissionDenied));
    assert_eq!(s.extend_job(99999, &"chris".to_string(), 125), Err(SchedulerError::NotFound));
    assert_eq!(s.extend_job(j, &"chris".to_string(), u32::MAX), Err(SchedulerError::InvalidArgument));
    assert_eq!(s.pending[0].req_res.time, 135);
}

#[test]
fn heartbeat_rejects_unknown_node() {
    let mut s = scheduler_with_node(8, 4 * MIB);
    assert_eq!(s.send_heartbeat(&"UNKNOWN".to_string(), 5_000), Err(SchedulerError::Unauthenticated));
    assert_eq!(s.nodes.len(), 1);
    assert_eq!(s.nodes[0].last_heartbeat, 1_000);
    assert_eq!(s.send_heartbeat(&"N".to_string(), 5_000), Ok(()));
    assert_eq!(s.nodes[0].last_heartbeat, 5_000);
}

#[test]
fn health_timeout_marks_offline_and_dispatch_skips() {
    let mut s = SchedulerCore::new(0);
    s.register_node("N".to_string(), "addr".to_string(), NodeResources::new(8, 4 * MIB), 0).unwrap();
    submit(&mut s, "chris", 1, MIB, 10);
    s.poll_node_health(61_000);
    assert_eq!(s.nodes[0].status, NodeStatus::Offline);
    assert_eq!(s.find_available_node(&RequestedResources::new(1, MIB, 10)), None);
    assert_eq!(s.next_assignment(0), None);
    // Still offline after another tick; a heartbeat brings it back.
    s.poll_node_health(62_000);
    assert_eq!(s.nodes[0].status, NodeStatus::Offline);
    s.send_heartbeat(&"N".to_string(), 62_000).unwrap();
    assert_eq!(s.nodes[0].status, NodeStatus::Available);
    assert_eq!(s.next_assignment(0), Some((0, 0)));
}

#[test]
fn health_keeps_node_within_timeout() {
    let mut s = SchedulerCore::new(0);
    s.register_node("N".to_string(), "addr".to_string(), NodeResources::new(8, MIB), 0).unwrap();
    s.poll_node_health(60_000);
    assert_eq!(s.nodes[0].status, NodeStatus::Available);
}

#[test]
fn ids_strictly_increase_from_stored_maximum() {
    let mut s = SchedulerCore::new(41);
    let a = submit(&mut s, "u", 1, 1, 1);
    let b = submit(&mut s, "u", 1, 1, 1);
    let c = submit(&mut s, "u", 1, 1, 1);
    assert_eq!((a, b, c), (42, 43, 44));
}

#[test]
fn submit_without_resources_is_invalid() {
    let mut s = SchedulerCore::new(0);
    let r = s.submit_job("u".to_string(), "/bin/true".to_string(), vec![], None, 0);
    assert_eq!(r, Err(SchedulerError::InvalidArgument));
    assert!(s.pending.is_empty());
    assert_eq!(s.job_ctr, 1);
}

#[test]
fn result_accepted_once() {
    let mut s = scheduler_with_node(8, 4 * MIB);
    let j = submit(&mut s, "chris", 1, MIB, 10);
    dispatch(&mut s, 200);
    assert_eq!(s.submit_job_result(j, JobStatus::Running, 250).err(), Some(SchedulerError::InvalidArgument));
    assert!(s.submit_job_result(j, JobStatus::Failed, 300).is_ok());
    assert_eq!(s.submit_job_result(j, JobStatus::Failed, 300).err(), Some(SchedulerError::NotFound));
    assert_eq!(s.submit_job_result(99999999, JobStatus::Failed, 300).err(), Some(SchedulerError::NotFound));
}

#[test]
fn dispatch_fills_nodes_in_order_and_keeps_fifo() {
    let mut s = scheduler_with_node(2, 4 * MIB);
    s.register_node("M".to_string(), "addr2".to_string(), NodeResources::new(4, 4 * MIB), 1_000).unwrap();
    let a = submit(&mut s, "u", 2, MIB, 1);
    let b = submit(&mut s, "u", 3, MIB, 1);
    let c = submit(&mut s, "u", 4, MIB, 1);
    let d = submit(&mut s, "u", 1, MIB, 1);
    assert_eq!(dispatch(&mut s, 10), vec![a, b, d]);
    assert_eq!(s.pending.len(), 1);
    assert_eq!(s.pending[0].id, c);
    assert_eq!(s.nodes[0].used_resources.cpu_count, 2);
    assert_eq!(s.nodes[1].used_resources.cpu_count, 4);
    assert!(s.nodes[1].used_resources.cpu_count <= s.nodes[1].avail_resources.cpu_count);
}

#[test]
fn start_job_revalidates() {
    let mut s = scheduler_with_node(1, MIB);
    let a = submit(&mut s, "u", 1, MIB, 1);
    let b = submit(&mut s, "u", 1, MIB, 1);
    s.start_job(a, &"N".to_string(), 5).unwrap();
    assert_eq!(s.start_job(b, &"N".to_string(), 5), Err(SchedulerError::NoCapacity));
    assert_eq!(s.start_job(b, &"X".to_string(), 5), Err(SchedulerError::NotFound));
    assert_eq!(s.start_job(777, &"N".to_string(), 5), Err(SchedulerError::NotFound));
}

#[test]
fn get_job_info_searches_running_pending_then_store() {
    let mut s = scheduler_with_node(8, 4 * MIB);
    let a = submit(&mut s, "u", 1, MIB, 1);
    let b = submit(&mut s, "u", 16, MIB, 1);
    dispatch(&mut s, 7);
    assert_eq!(s.get_job_info(a, None).unwrap().status, JobStatus::Running);
    assert_eq!(s.get_job_info(b, None).unwrap().status, JobStatus::Pending);
    assert_eq!(s.get_job_info(10, None).err(), Some(SchedulerError::NotFound));
    let done = s.submit_job_result(a, JobStatus::Completed, 9).unwrap();
    assert_eq!(s.get_job_info(a, Some(done)).unwrap().status, JobStatus::Completed);
}

#[test]
fn register_node_rejects_duplicate_and_fresh_ids_are_url_safe() {
    let mut s = scheduler_with_node(8, MIB);
    assert_eq!(
        s.register_node("N".to_string(), "x".to_string(), NodeResources::new(1, 1), 0),
        Err(SchedulerError::AlreadyExists)
    );
    let id = s.register_new_node("addr".to_string(), NodeResources::new(2, MIB), 0).unwrap();
    assert_eq!(id.chars().count(), 21);
    assert!(id.chars().all(|c| c.is_ascii_alphanumeric() || c == '_' || c == '-'));
    assert_eq!(s.nodes.len(), 2);
    assert_eq!(s.nodes[1].status, NodeStatus::Available);
}

#[test]
fn list_pending_then_running_then_stored() {
    let mut s = scheduler_with_node(1, MIB);
    let a = submit(&mut s, "u", 1, MIB, 1);
    let b = submit(&mut s, "u", 1, MIB, 1);
    dispatch(&mut s, 3);
    let listed = s.list_jobs(vec![]);
    assert_eq!(listed.iter().map(|j| j.id).collect::<Vec<_>>(), vec![b, a]);
    let _ = CoreMask::new(1);
}
