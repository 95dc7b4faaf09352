use melon::model::{JobResult, JobStatus};
use melon::worker::{
    cgroup_name, completion_result, worker_address, Supervisor, SupervisorAction, SupervisorEvent,
    WorkerError, WorkerState,
};

#[test]
fn assign_takes_highest_cores_and_release_frees_them() {
    let mut w = WorkerState::new(8);
    assert_eq!(w.assign_job(1, 3), Ok(0b1110_0000));
    assert_eq!(w.assign_job(2, 2), Ok(0b0001_1000));
    assert_eq!(w.assign_job(2, 1), Err(WorkerError::ResourceExhausted));
    assert_eq!(w.assign_job(3, 4), Err(WorkerError::ResourceExhausted));
    assert_eq!(w.release_job(1), Ok(0b1110_0000));
    assert_eq!(w.cores.get_allocated_cores(), 0b0001_1000);
    assert_eq!(w.release_job(1), Err(WorkerError::NotFound));
    assert_eq!(w.extend_job(2, 3), Ok(180));
    assert_eq!(w.extend_job(1, 3), Err(WorkerError::NotFound));
}

#[test]
fn supervisor_outcomes() {
    let mut s = Supervisor::start(7, 1_000, 2);
    assert_eq!(s.deadline, 121_000);
    assert_eq!(s.step(SupervisorEvent::Tick { now: 120_999 }), SupervisorAction::Wait);
    assert_eq!(
        s.step(SupervisorEvent::Tick { now: 121_000 }),
        SupervisorAction::KillAndFinish { result: JobResult::new(7, JobStatus::Timeout) }
    );
    assert_eq!(
        s.step(SupervisorEvent::ChildExited { success: true }),
        SupervisorAction::Finish { result: JobResult::new(7, JobStatus::Completed) }
    );
    assert_eq!(
        s.step(SupervisorEvent::ChildExited { success: false }),
        SupervisorAction::Finish { result: JobResult::new(7, JobStatus::Failed) }
    );
    assert_eq!(
        s.step(SupervisorEvent::StartFailed),
        SupervisorAction::Finish { result: JobResult::new(7, JobStatus::Failed) }
    );
    let mut far = Supervisor::start(1, u64::MAX - 5, 10);
    assert_eq!(far.deadline, u64::MAX);
    far.step(SupervisorEvent::Extended { secs: u64::MAX });
    assert_eq!(far.deadline, u64::MAX);
}

#[test]
fn completion_of_a_dead_supervisor_is_failed() {
    assert_eq!(completion_result(5, None), JobResult::new(5, JobStatus::Failed));
    let r = JobResult::new(5, JobStatus::Timeout);
    assert_eq!(completion_result(5, Some(r)), r);
}

#[test]
fn names_and_addresses() {
    assert_eq!(cgroup_name(4242), "melon_4242");
    assert_eq!(worker_address(8081), "http://[::1]:8081");
}
