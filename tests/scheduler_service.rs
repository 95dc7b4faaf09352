use melon::model::{JobStatus, NodeResources, RequestedResources};
use melon::scheduler::{SchedulerCore, SchedulerError, WorkerStep};
use melon::wire::{decode_result, encode_job, JobResultMsg};

const TEST_USER: &str = "chris";
const TEST_SCRIPT_PATH: &str = "/bin/true";

fn spawn_app() -> SchedulerCore {
    SchedulerCore::new(0)
}

fn register(app: &mut SchedulerCore, port: u16) -> String {
    app.register_new_node(format!("http://[::1]:{}", port), NodeResources::new(8, 4 * 1024 * 1024), 0)
        .unwrap()
}

fn submit(app: &mut SchedulerCore) -> Result<u64, SchedulerError> {
    app.submit_job(
        TEST_USER.to_string(),
        TEST_SCRIPT_PATH.to_string(),
        vec![],
        Some(RequestedResources::new(1, 2 * 1024 * 1024, 1024)),
        1,
    )
}

/// What a worker receives in one dispatch tick: the id of each job it accepted.
fn assignments(app: &mut SchedulerCore) -> Vec<u64> {
    let mut out = vec![];
    let mut from = 0;
    while let Some((k, m)) = app.next_assignment(from) {
        let id = app.pending[k].id;
        let node = app.nodes[m].id.clone();
        app.start_job(id, &node, 2).unwrap();
        out.push(id);
        from = k;
    }
    out
}

fn result(app: &mut SchedulerCore, job_id: u64, status: i32) -> Result<(), SchedulerError> {
    let r = decode_result(&JobResultMsg { job_id, status }).unwrap();
    app.submit_job_result(r.id, r.status, 3).map(|_| ())
}

#[test]
fn test_scheduler_worker_registration_works() {
    let mut app = spawn_app();
    let id = register(&mut app, 42);
    assert_eq!(id.len(), 21);
}

#[test]
fn test_scheduler_worker_heartbeat_works() {
    let mut app = spawn_app();
    let node_id = register(&mut app, 42);
    assert!(app.send_heartbeat(&node_id, 10).is_ok());
}

#[test]
fn test_scheduler_worker_heartbeat_rejects_unknown_node() {
    let mut app = spawn_app();
    assert!(app.send_heartbeat(&"UNKNOWN".to_string(), 10).is_err());
}

#[test]
fn submit_job_works() {
    let mut app = spawn_app();
    assert!(submit(&mut app).is_ok());
}

#[test]
fn test_list_pending_job() {
    let mut app = spawn_app();
    let job_id = submit(&mut app).unwrap();
    let jobs = app.list_jobs(vec![]);
    let first_job = encode_job(&jobs[0]);
    assert_eq!(first_job.id, job_id);
    assert_eq!(first_job.user, TEST_USER);
    assert_eq!(JobStatus::from_code(first_job.status), Some(JobStatus::Pending));
}

#[test]
fn test_list_running_job() {
    let mut app = spawn_app();
    register(&mut app, 8081);
    let job_id = submit(&mut app).unwrap();
    assignments(&mut app);
    let jobs = app.list_jobs(vec![]);
    let first_job = encode_job(&jobs[0]);
    assert_eq!(first_job.id, job_id);
    assert_eq!(first_job.user, TEST_USER);
    assert_eq!(JobStatus::from_code(first_job.status), Some(JobStatus::Running));
}

#[test]
fn test_successful_job_assignment() {
    let mut app = spawn_app();
    register(&mut app, 8081);
    let job_id = submit(&mut app).unwrap();
    assert_eq!(assignments(&mut app), vec![job_id]);
    assert_eq!(app.running[0].req_res, RequestedResources::new(1, 2 * 1024 * 1024, 1024));
}

#[test]
fn test_submit_job_results() {
    let mut app = spawn_app();
    register(&mut app, 8081);
    let job_id = submit(&mut app).unwrap();
    assignments(&mut app);
    assert!(result(&mut app, job_id, 1).is_ok());
}

#[test]
fn test_submit_job_fails_for_unknown_id() {
    let mut app = spawn_app();
    register(&mut app, 8081);
    submit(&mut app).unwrap();
    assignments(&mut app);
    assert!(result(&mut app, 99999999, 1).is_err());
}

#[test]
fn test_cancel_pending_job_successfully() {
    let mut app = spawn_app();
    let job_id = submit(&mut app).unwrap();
    assert!(app.cancel_job(job_id, &TEST_USER.to_string()).is_ok());
}

#[test]
fn test_cancel_pending_job_fails_unauthorized() {
    let mut app = spawn_app();
    let job_id = submit(&mut app).unwrap();
    assert!(app.cancel_job(job_id, &"RANDOM USER".to_string()).is_err());
}

#[test]
fn test_cancel_running_job() {
    let mut app = spawn_app();
    register(&mut app, 8081);
    let job_id = submit(&mut app).unwrap();
    assignments(&mut app);
    let step = app.cancel_job(job_id, &TEST_USER.to_string()).unwrap();
    assert_eq!(step, WorkerStep::AskWorker { endpoint: "http://[::1]:8081".to_string() });
    assert!(app.finish_cancel(job_id).is_ok());
    assert_eq!(app.nodes[0].used_resources, NodeResources::new(0, 0));
}

#[test]
fn test_reject_running_job_cancellation_with_incorrect_user() {
    let mut app = spawn_app();
    register(&mut app, 8081);
    let job_id = submit(&mut app).unwrap();
    assignments(&mut app);
    assert!(app.cancel_job(job_id, &"UNKNOWN".to_string()).is_err());
}

#[test]
fn test_reject_unknown_cancel_request() {
    let mut app = spawn_app();
    register(&mut app, 8081);
    submit(&mut app).unwrap();
    assignments(&mut app);
    assert!(app.cancel_job(9999000, &TEST_USER.to_string()).is_err());
}

#[test]
fn test_extend_pending_job() {
    let mut app = spawn_app();
    let job_id = submit(&mut app).unwrap();
    assert!(app.extend_job(job_id, &TEST_USER.to_string(), 125).is_ok());
}

#[test]
fn test_extend_running_job() {
    let mut app = spawn_app();
    register(&mut app, 8081);
    let job_id = submit(&mut app).unwrap();
    assignments(&mut app);
    let step = app.extend_job(job_id, &TEST_USER.to_string(), 125).unwrap();
    assert_eq!(step, WorkerStep::AskWorker { endpoint: "http://[::1]:8081".to_string() });
    app.finish_extend(job_id, 125).unwrap();
    assert_eq!(app.running[0].req_res.time, 1024 + 125);
}

#[test]
fn test_reject_unauthorized_extension_pending() {
    let mut app = spawn_app();
    let job_id = submit(&mut app).unwrap();
    assert!(app.extend_job(job_id, &"UNKNOWN".to_string(), 125).is_err());
}

#[test]
fn test_reject_unauthorized_extension_running() {
    let mut app = spawn_app();
    register(&mut app, 8081);
    let job_id = submit(&mut app).unwrap();
    assignments(&mut app);
    assert!(app.extend_job(job_id, &"UNKNOWN".to_string(), 125).is_err());
}

#[test]
fn test_reject_unknown_extension_for_pending() {
    let mut app = spawn_app();
    submit(&mut app).unwrap();
    assert!(app.extend_job(99999, &TEST_USER.to_string(), 125).is_err());
}

#[test]
fn test_reject_unknown_extension_for_running() {
    let mut app = spawn_app();
    register(&mut app, 8081);
    submit(&mut app).unwrap();
    assignments(&mut app);
    assert!(app.extend_job(99999, &TEST_USER.to_string(), 125).is_err());
}

#[test]
fn test_reject_unknown_extension() {
    let mut app = spawn_app();
    assert!(app.extend_job(99999, &TEST_USER.to_string(), 125).is_err());
}

#[test]
fn test_mshow_pending() {
    let mut app = spawn_app();
    let job_id = submit(&mut app).unwrap();
    assert_eq!(app.get_job_info(job_id, None).unwrap().status, JobStatus::Pending);
}

#[test]
fn test_mshow_running() {
    let mut app = spawn_app();
    register(&mut app, 8081);
    let job_id = submit(&mut app).unwrap();
    assignments(&mut app);
    assert_eq!(app.get_job_info(job_id, None).unwrap().status, JobStatus::Running);
}

#[test]
fn test_mshow_failed() {
    let mut app = spawn_app();
    register(&mut app, 8081);
    let job_id = submit(&mut app).unwrap();
    assignments(&mut app);
    let job = app.submit_job_result(job_id, JobStatus::Failed, 3).unwrap();
    assert_eq!(app.get_job_info(job_id, Some(job)).unwrap().status, JobStatus::Failed);
}

#[test]
fn test_mshow_completed() {
    let mut app = spawn_app();
    register(&mut app, 8081);
    let job_id = submit(&mut app).unwrap();
    assignments(&mut app);
    let job = app.submit_job_result(job_id, JobStatus::Completed, 3).unwrap();
    assert_eq!(app.get_job_info(job_id, Some(job)).unwrap().status, JobStatus::Completed);
}

#[test]
fn test_mshow_unknown_id() {
    let app = spawn_app();
    assert_eq!(app.get_job_info(10, None).err(), Some(SchedulerError::NotFound));
}
