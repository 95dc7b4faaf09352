//! The shared data model: jobs, their resource requests, worker nodes and job results.
use vstd::prelude::*;

verus! {

/// Resources a job asks for: cores, memory in bytes and wall-clock minutes.
#[derive(Clone, Copy, Debug, PartialEq, Eq, Structural)]
pub struct RequestedResources {
    pub cpu_count: u32,
    pub memory: u64,
    pub time: u32,
}

impl RequestedResources {
    pub fn new(cpu_count: u32, memory: u64, time: u32) -> (r: Self)
        ensures
            r == (RequestedResources { cpu_count, memory, time }),
    {
        RequestedResources { cpu_count, memory, time }
    }
}

/// Cores and memory (bytes) of a worker node.
#[derive(Clone, Copy, Debug, PartialEq, Eq, Structural)]
pub struct NodeResources {
    pub cpu_count: u32,
    pub memory: u64,
}

impl NodeResources {
    pub fn new(cpu_count: u32, memory: u64) -> (r: Self)
        ensures
            r == (NodeResources { cpu_count, memory }),
    {
        NodeResources { cpu_count, memory }
    }

    /// No cores and no memory.
    pub fn empty() -> (r: Self)
        ensures
            r == (NodeResources { cpu_count: 0, memory: 0 }),
    {
        NodeResources { cpu_count: 0, memory: 0 }
    }
}

/// Where a job stands in its life.
#[derive(Clone, Copy, Debug, PartialEq, Eq, Structural)]
pub enum JobStatus {
    Completed,
    Failed,
    Pending,
    Running,
    Timeout,
}

/// The wire ordinal of a status.
pub open spec fn status_code(s: JobStatus) -> i32 {
    match s {
        JobStatus::Completed => 0,
        JobStatus::Failed => 1,
        JobStatus::Pending => 2,
        JobStatus::Running => 3,
        JobStatus::Timeout => 4,
    }
}

/// The status with wire ordinal `c`, if there is one.
pub open spec fn status_of_code(c: i32) -> Option<JobStatus> {
    if c == 0 {
        Some(JobStatus::Completed)
    } else if c == 1 {
        Some(JobStatus::Failed)
    } else if c == 2 {
        Some(JobStatus::Pending)
    } else if c == 3 {
        Some(JobStatus::Running)
    } else if c == 4 {
        Some(JobStatus::Timeout)
    } else {
        None
    }
}

/// Completed, Failed and Timeout end a job's life.
pub open spec fn is_terminal(s: JobStatus) -> bool {
    s == JobStatus::Completed || s == JobStatus::Failed || s == JobStatus::Timeout
}

impl JobStatus {
    /// The wire ordinal: Completed 0, Failed 1, Pending 2, Running 3, Timeout 4.
    pub fn code(&self) -> (r: i32)
        ensures
            r == status_code(*self),
    {
        match self {
            JobStatus::Completed => 0,
            JobStatus::Failed => 1,
            JobStatus::Pending => 2,
            JobStatus::Running => 3,
            JobStatus::Timeout => 4,
        }
    }

    /// The status with wire ordinal `c`, or `None` for an ordinal that names none.
    pub fn from_code(c: i32) -> (r: Option<JobStatus>)
        ensures
            r == status_of_code(c),
    {
        if c == 0 {
            Some(JobStatus::Completed)
        } else if c == 1 {
            Some(JobStatus::Failed)
        } else if c == 2 {
            Some(JobStatus::Pending)
        } else if c == 3 {
            Some(JobStatus::Running)
        } else if c == 4 {
            Some(JobStatus::Timeout)
        } else {
            None
        }
    }

    /// Whether the status ends a job's life.
    pub fn is_terminal(&self) -> (r: bool)
        ensures
            r == is_terminal(*self),
    {
        match self {
            JobStatus::Completed | JobStatus::Failed | JobStatus::Timeout => true,
            _ => false,
        }
    }

    /// The status's name, e.g. `"Running"`.
    pub fn name(&self) -> (r: String)
        ensures
            r@ == status_name(*self),
    {
        match self {
            JobStatus::Completed => String::from_str("Completed"),
            JobStatus::Failed => String::from_str("Failed"),
            JobStatus::Pending => String::from_str("Pending"),
            JobStatus::Running => String::from_str("Running"),
            JobStatus::Timeout => String::from_str("Timeout"),
        }
    }

    /// The queue listing's short form: C, F, PD, R or TO.
    pub fn short_code(&self) -> (r: String)
        ensures
            r@ == status_short(*self),
    {
        match self {
            JobStatus::Completed => String::from_str("C"),
            JobStatus::Failed => String::from_str("F"),
            JobStatus::Pending => String::from_str("PD"),
            JobStatus::Running => String::from_str("R"),
            JobStatus::Timeout => String::from_str("TO"),
        }
    }
}

/// The name of a status.
pub open spec fn status_name(s: JobStatus) -> Seq<char> {
    match s {
        JobStatus::Completed => "Completed"@,
        JobStatus::Failed => "Failed"@,
        JobStatus::Pending => "Pending"@,
        JobStatus::Running => "Running"@,
        JobStatus::Timeout => "Timeout"@,
    }
}

/// The short form of a status in the queue listing.
pub open spec fn status_short(s: JobStatus) -> Seq<char> {
    match s {
        JobStatus::Completed => "C"@,
        JobStatus::Failed => "F"@,
        JobStatus::Pending => "PD"@,
        JobStatus::Running => "R"@,
        JobStatus::Timeout => "TO"@,
    }
}

/// A copy of `v`, string by string.
pub fn copy_strings(v: &Vec<String>) -> (r: Vec<String>)
    ensures
        r@ == v@,
{
    let mut out: Vec<String> = Vec::new();
    let mut i: usize = 0;
    while i < v.len()
        invariant
            i <= v.len(),
            out@ == v@.subrange(0, i as int),
        decreases v.len() - i,
    {
        out.push(v[i].clone());
        proof {
            assert(out@ =~= v@.subrange(0, i + 1));
        }
        i = i + 1;
    }
    proof {
        assert(out@ =~= v@);
    }
    out
}

/// A copy of an optional string.
pub fn copy_opt_string(s: &Option<String>) -> (r: Option<String>)
    ensures
        r == *s,
{
    match s {
        Some(x) => Some(x.clone()),
        None => None,
    }
}

/// A batch job: a script, its arguments, a resource request and its history.
#[derive(Clone, Debug)]
pub struct Job {
    /// Unique id given by the scheduler.
    pub id: u64,
    /// The user that submitted the job.
    pub user: String,
    /// The script to run.
    pub script_path: String,
    /// The script's arguments.
    pub script_args: Vec<String>,
    /// What the job asks for.
    pub req_res: RequestedResources,
    /// Epoch seconds at which the job was queued.
    pub submit_time: u64,
    /// Epoch seconds at which a worker took the job.
    pub start_time: Option<u64>,
    /// Epoch seconds at which the job's result came in.
    pub stop_time: Option<u64>,
    /// Where the job stands.
    pub status: JobStatus,
    /// The node that runs or ran the job.
    pub assigned_node: Option<String>,
}

/// A job as plain values: strings as character sequences.
pub struct JobView {
    pub id: u64,
    pub user: Seq<char>,
    pub script_path: Seq<char>,
    pub script_args: Seq<Seq<char>>,
    pub req_res: RequestedResources,
    pub submit_time: u64,
    pub start_time: Option<u64>,
    pub stop_time: Option<u64>,
    pub status: JobStatus,
    pub assigned_node: Option<Seq<char>>,
}

/// The characters of each string.
pub open spec fn strings_view(v: Seq<String>) -> Seq<Seq<char>> {
    v.map_values(|s: String| s@)
}

/// The characters of an optional string.
pub open spec fn opt_string_view(s: Option<String>) -> Option<Seq<char>> {
    match s {
        Some(x) => Some(x@),
        None => None,
    }
}

impl View for Job {
    type V = JobView;

    open spec fn view(&self) -> JobView {
        JobView {
            id: self.id,
            user: self.user@,
            script_path: self.script_path@,
            script_args: strings_view(self.script_args@),
            req_res: self.req_res,
            submit_time: self.submit_time,
            start_time: self.start_time,
            stop_time: self.stop_time,
            status: self.status,
            assigned_node: opt_string_view(self.assigned_node),
        }
    }
}

impl Job {
    /// A pending job, queued at `submit_time`.
    pub fn new(
        id: u64,
        user: String,
        script_path: String,
        script_args: Vec<String>,
        req_res: RequestedResources,
        submit_time: u64,
    ) -> (r: Self)
        ensures
            r == (Job {
                id,
                user,
                script_path,
                script_args,
                req_res,
                submit_time,
                start_time: None,
                stop_time: None,
                status: JobStatus::Pending,
                assigned_node: None,
            }),
    {
        Job {
            id,
            user,
            script_path,
            script_args,
            req_res,
            submit_time,
            start_time: None,
            stop_time: None,
            status: JobStatus::Pending,
            assigned_node: None,
        }
    }

    /// Lengthens the job's time limit by `extension_in_mins` minutes.
    pub fn extend_time(&mut self, extension_in_mins: u32)
        requires
            old(self).req_res.time + extension_in_mins <= u32::MAX,
        ensures
            *final(self) == (Job {
                req_res: RequestedResources {
                    time: (old(self).req_res.time + extension_in_mins) as u32,
                    ..old(self).req_res
                },
                ..*old(self)
            }),
    {
        self.req_res.time = self.req_res.time + extension_in_mins;
    }

    /// A field-by-field copy.
    pub fn duplicate(&self) -> (r: Job)
        ensures
            r@ == self@,
    {
        Job {
            id: self.id,
            user: self.user.clone(),
            script_path: self.script_path.clone(),
            script_args: copy_strings(&self.script_args),
            req_res: self.req_res,
            submit_time: self.submit_time,
            start_time: self.start_time,
            stop_time: self.stop_time,
            status: self.status,
            assigned_node: copy_opt_string(&self.assigned_node),
        }
    }
}

/// Whether a worker node is reachable.
#[derive(Clone, Copy, Debug, PartialEq, Eq, Structural)]
pub enum NodeStatus {
    Available,
    Offline,
}

/// A registered worker node and the resources committed to it.
#[derive(Clone, Debug)]
pub struct Node {
    /// Id given by the scheduler at registration.
    pub id: String,
    /// Address of the worker's RPC server.
    pub endpoint: String,
    /// The node's capacity.
    pub avail_resources: NodeResources,
    /// What running jobs hold of that capacity.
    pub used_resources: NodeResources,
    /// Monotonic milliseconds of the last heartbeat.
    pub last_heartbeat: u64,
    /// Whether the node is reachable.
    pub status: NodeStatus,
}

impl Node {
    /// A node with nothing in use whose last heartbeat is `now`.
    pub fn new(id: String, address: String, avail_res: NodeResources, status: NodeStatus, now: u64) -> (r: Self)
        ensures
            r == (Node {
                id,
                endpoint: address,
                avail_resources: avail_res,
                used_resources: NodeResources { cpu_count: 0, memory: 0 },
                last_heartbeat: now,
                status,
            }),
    {
        Node {
            id,
            endpoint: address,
            avail_resources: avail_res,
            used_resources: NodeResources::empty(),
            last_heartbeat: now,
            status,
        }
    }

    pub fn set_status(&mut self, status: NodeStatus)
        ensures
            *final(self) == (Node { status, ..*old(self) }),
    {
        self.status = status;
    }

    /// Commits `res` to a job on this node.
    pub fn reduce_avail_resources(&mut self, res: &RequestedResources)
        requires
            old(self).used_resources.cpu_count + res.cpu_count <= u32::MAX,
            old(self).used_resources.memory + res.memory <= u64::MAX,
        ensures
            *final(self) == (Node {
                used_resources: NodeResources {
                    cpu_count: (old(self).used_resources.cpu_count + res.cpu_count) as u32,
                    memory: (old(self).used_resources.memory + res.memory) as u64,
                },
                ..*old(self)
            }),
    {
        self.used_resources.cpu_count = self.used_resources.cpu_count + res.cpu_count;
        self.used_resources.memory = self.used_resources.memory + res.memory;
    }

    /// Gives back what a job held of this node.
    pub fn free_avail_resource(&mut self, res: &RequestedResources)
        requires
            old(self).used_resources.cpu_count >= res.cpu_count,
            old(self).used_resources.memory >= res.memory,
        ensures
            *final(self) == (Node {
                used_resources: NodeResources {
                    cpu_count: (old(self).used_resources.cpu_count - res.cpu_count) as u32,
                    memory: (old(self).used_resources.memory - res.memory) as u64,
                },
                ..*old(self)
            }),
    {
        self.used_resources.cpu_count = self.used_resources.cpu_count - res.cpu_count;
        self.used_resources.memory = self.used_resources.memory - res.memory;
    }

    /// Records a heartbeat at `now`.
    pub fn update_heartbeat(&mut self, now: u64)
        ensures
            *final(self) == (Node { last_heartbeat: now, ..*old(self) }),
    {
        self.last_heartbeat = now;
    }
}

/// How a job ended, as a worker reports it.
#[derive(Clone, Copy, Debug, PartialEq, Eq, Structural)]
pub struct JobResult {
    pub id: u64,
    pub status: JobStatus,
}

impl JobResult {
    pub fn new(id: u64, status: JobStatus) -> (r: Self)
        ensures
            r == (JobResult { id, status }),
    {
        JobResult { id, status }
    }
}

} // verus!
