//! The scheduler's authoritative state: the job counter, the node registry, the
//! pending queue and the running jobs, with every transition of a job's life.
//!
//! Transitions that need a worker's answer (dispatch, cancelling or extending a
//! running job) are split in two: a decision that says which worker to ask, and
//! a commit that records the outcome once the worker has answered.
use vstd::prelude::*;

use crate::model::{
    is_terminal, Job, JobStatus, Node, NodeResources, NodeStatus,
    RequestedResources,
};

verus! {

/// Milliseconds without a heartbeat after which a node counts as offline.
pub const HEARTBEAT_TIMEOUT_MS: u64 = 60000;

/// Why a scheduler request was refused.
#[derive(Clone, Copy, Debug, PartialEq, Eq, Structural)]
pub enum SchedulerError {
    /// The request lacks something it must carry (a resource request, a terminal status),
    /// or a time limit would no longer fit its field.
    InvalidArgument,
    /// A heartbeat came from a node that is not registered.
    Unauthenticated,
    /// No job or node has the given id.
    NotFound,
    /// The job belongs to another user.
    PermissionDenied,
    /// A node with that id is already registered.
    AlreadyExists,
    /// The node can no longer hold the job.
    NoCapacity,
    /// The job counter has reached its largest value.
    IdsExhausted,
}

/// What is left to do after a cancel or extend request was accepted.
#[derive(Clone, Debug, PartialEq, Eq)]
pub enum WorkerStep {
    /// The request is complete.
    Done,
    /// The job runs on the node at `endpoint`: that worker must be asked first,
    /// and the request completed once it agreed.
    AskWorker { endpoint: String },
}

/// The job is assigned to the node with id `n`.
pub open spec fn assigned_to(j: Job, n: Seq<char>) -> bool {
    j.assigned_node matches Some(a) && a@ == n
}

/// The cores that the jobs of `jobs` hold on node `n`.
pub open spec fn cpu_on(jobs: Seq<Job>, n: Seq<char>) -> nat
    decreases jobs.len(),
{
    if jobs.len() == 0 {
        0
    } else {
        cpu_on(jobs.drop_last(), n) + if assigned_to(jobs.last(), n) {
            jobs.last().req_res.cpu_count as nat
        } else {
            0nat
        }
    }
}

/// The memory that the jobs of `jobs` hold on node `n`.
pub open spec fn mem_on(jobs: Seq<Job>, n: Seq<char>) -> nat
    decreases jobs.len(),
{
    if jobs.len() == 0 {
        0
    } else {
        mem_on(jobs.drop_last(), n) + if assigned_to(jobs.last(), n) {
            jobs.last().req_res.memory as nat
        } else {
            0nat
        }
    }
}

/// The node is available and what it has left covers `res`.
pub open spec fn fits(node: Node, res: RequestedResources) -> bool {
    &&& node.status == NodeStatus::Available
    &&& node.used_resources.cpu_count + res.cpu_count <= node.avail_resources.cpu_count
    &&& node.used_resources.memory + res.memory <= node.avail_resources.memory
}

/// The node's last heartbeat lies more than the timeout before `now`.
pub open spec fn timed_out(node: Node, now: u64) -> bool {
    now > node.last_heartbeat && now - node.last_heartbeat > HEARTBEAT_TIMEOUT_MS
}

/// Some job of `jobs` has id `id`.
pub open spec fn has_job(jobs: Seq<Job>, id: u64) -> bool {
    exists|i: int| 0 <= i < jobs.len() && #[trigger] jobs[i].id == id
}

/// Some node of `nodes` has id `id`.
pub open spec fn has_node(nodes: Seq<Node>, id: Seq<char>) -> bool {
    exists|i: int| 0 <= i < nodes.len() && #[trigger] nodes[i].id@ == id
}

/// A pending job as queued: no start, no stop, no node.
pub open spec fn pending_shape(j: Job) -> bool {
    &&& j.status == JobStatus::Pending
    &&& j.start_time is None
    &&& j.stop_time is None
    &&& j.assigned_node is None
}

/// A running job: started on a node, not yet stopped.
pub open spec fn running_shape(j: Job) -> bool {
    &&& j.status == JobStatus::Running
    &&& j.start_time is Some
    &&& j.stop_time is None
    &&& j.assigned_node is Some
}

/// The job that `submit_job` queues.
pub open spec fn queued_job(
    id: u64,
    user: String,
    script_path: String,
    script_args: Vec<String>,
    req_res: RequestedResources,
    now: u64,
) -> Job {
    Job {
        id,
        user,
        script_path,
        script_args,
        req_res,
        submit_time: now,
        start_time: None,
        stop_time: None,
        status: JobStatus::Pending,
        assigned_node: None,
    }
}

/// A job as it starts on node `node` at `now`.
pub open spec fn started_job(j: Job, node: String, now: u64) -> Job {
    Job { status: JobStatus::Running, start_time: Some(now), assigned_node: Some(node), ..j }
}

/// A job as it ends with `status` at `now`.
pub open spec fn stopped_job(j: Job, status: JobStatus, now: u64) -> Job {
    Job { status, stop_time: Some(now), ..j }
}

/// A job whose time limit grew by `mins` minutes.
pub open spec fn extended_job(j: Job, mins: u32) -> Job {
    Job {
        req_res: RequestedResources { time: (j.req_res.time + mins) as u32, ..j.req_res },
        ..j
    }
}

/// A node that gained `res`.
pub open spec fn charged(n: Node, res: RequestedResources) -> Node {
    Node {
        used_resources: NodeResources {
            cpu_count: (n.used_resources.cpu_count + res.cpu_count) as u32,
            memory: (n.used_resources.memory + res.memory) as u64,
        },
        ..n
    }
}

/// A node that gave back `res`.
pub open spec fn released(n: Node, res: RequestedResources) -> Node {
    Node {
        used_resources: NodeResources {
            cpu_count: (n.used_resources.cpu_count - res.cpu_count) as u32,
            memory: (n.used_resources.memory - res.memory) as u64,
        },
        ..n
    }
}

/// The node after one health tick at `now`.
pub open spec fn after_health_tick(n: Node, now: u64) -> Node {
    if timed_out(n, now) {
        Node { status: NodeStatus::Offline, ..n }
    } else {
        n
    }
}

/// The node after a heartbeat from node `id` at `now`.
pub open spec fn after_heartbeat(n: Node, id: Seq<char>, now: u64) -> Node {
    if n.id@ == id {
        Node { status: NodeStatus::Available, last_heartbeat: now, ..n }
    } else {
        n
    }
}

proof fn lemma_on_push(jobs: Seq<Job>, j: Job, n: Seq<char>)
    ensures
        cpu_on(jobs.push(j), n) == cpu_on(jobs, n) + if assigned_to(j, n) {
            j.req_res.cpu_count as nat
        } else {
            0nat
        },
        mem_on(jobs.push(j), n) == mem_on(jobs, n) + if assigned_to(j, n) {
            j.req_res.memory as nat
        } else {
            0nat
        },
{
    assert(jobs.push(j).drop_last() =~= jobs);
}

proof fn lemma_on_remove(jobs: Seq<Job>, k: int, n: Seq<char>)
    requires
        0 <= k < jobs.len(),
    ensures
        cpu_on(jobs, n) == cpu_on(jobs.remove(k), n) + if assigned_to(jobs[k], n) {
            jobs[k].req_res.cpu_count as nat
        } else {
            0nat
        },
        mem_on(jobs, n) == mem_on(jobs.remove(k), n) + if assigned_to(jobs[k], n) {
            jobs[k].req_res.memory as nat
        } else {
            0nat
        },
    decreases jobs.len(),
{
    if k == jobs.len() - 1 {
        assert(jobs.remove(k) =~= jobs.drop_last());
    } else {
        lemma_on_remove(jobs.drop_last(), k, n);
        assert(jobs.remove(k).drop_last() =~= jobs.drop_last().remove(k));
        assert(jobs.remove(k).last() == jobs.last());
    }
}

proof fn lemma_on_update(jobs: Seq<Job>, k: int, j: Job, n: Seq<char>)
    requires
        0 <= k < jobs.len(),
        j.assigned_node == jobs[k].assigned_node,
        j.req_res.cpu_count == jobs[k].req_res.cpu_count,
        j.req_res.memory == jobs[k].req_res.memory,
    ensures
        cpu_on(jobs.update(k, j), n) == cpu_on(jobs, n),
        mem_on(jobs.update(k, j), n) == mem_on(jobs, n),
    decreases jobs.len(),
{
    if k == jobs.len() - 1 {
        assert(jobs.update(k, j).drop_last() =~= jobs.drop_last());
    } else {
        lemma_on_update(jobs.drop_last(), k, j, n);
        assert(jobs.update(k, j).drop_last() =~= jobs.drop_last().update(k, j));
    }
}

/// Node ids are unique.
pub open spec fn nodes_unique(nodes: Seq<Node>) -> bool {
    forall|i: int, j: int|
        0 <= i < nodes.len() && 0 <= j < nodes.len() && i != j ==> #[trigger] nodes[i].id@
            != #[trigger] nodes[j].id@
}

/// Every running job sits on a registered node.
pub open spec fn on_known_nodes(nodes: Seq<Node>, running: Seq<Job>) -> bool {
    forall|i: int|
        0 <= i < running.len() ==> has_node(nodes, (#[trigger] running[i]).assigned_node->0@)
}

/// The node holds no more than its capacity, and exactly what its running jobs hold.
pub open spec fn node_accounted(n: Node, running: Seq<Job>) -> bool {
    &&& n.used_resources.cpu_count <= n.avail_resources.cpu_count
    &&& n.used_resources.memory <= n.avail_resources.memory
    &&& n.used_resources.cpu_count == cpu_on(running, n.id@)
    &&& n.used_resources.memory == mem_on(running, n.id@)
}

/// Every node's accounting is right.
pub open spec fn accounted(nodes: Seq<Node>, running: Seq<Job>) -> bool {
    forall|i: int| 0 <= i < nodes.len() ==> node_accounted(#[trigger] nodes[i], running)
}

/// No two jobs of `s` share an id.
pub open spec fn distinct(s: Seq<Job>) -> bool {
    forall|i: int, j: int|
        0 <= i < s.len() && 0 <= j < s.len() && i != j ==> #[trigger] s[i].id != #[trigger] s[j].id
}

/// No job of `a` has the id of a job of `b`.
pub open spec fn disjoint(a: Seq<Job>, b: Seq<Job>) -> bool {
    forall|i: int| 0 <= i < a.len() ==> !has_job(b, (#[trigger] a[i]).id)
}

/// Ids unique across both queues and below the counter; jobs shaped as their queue says.
pub open spec fn jobs_ok(ctr: u64, pending: Seq<Job>, running: Seq<Job>) -> bool {
    &&& distinct(pending)
    &&& distinct(running)
    &&& disjoint(pending, running)
    &&& forall|i: int|
        0 <= i < pending.len() ==> (#[trigger] pending[i]).id < ctr && pending_shape(pending[i])
    &&& forall|i: int|
        0 <= i < running.len() ==> (#[trigger] running[i]).id < ctr && running_shape(running[i])
}

proof fn lemma_remove_index(s: Seq<Job>, k: int, i: int)
    requires
        0 <= k < s.len(),
        0 <= i < s.len() - 1,
    ensures
        s.remove(k)[i] == if i < k {
            s[i]
        } else {
            s[i + 1]
        },
{
}

proof fn lemma_remove_job(s: Seq<Job>, k: int)
    requires
        0 <= k < s.len(),
        distinct(s),
    ensures
        distinct(s.remove(k)),
        !has_job(s.remove(k), s[k].id),
        forall|id: u64| has_job(s.remove(k), id) ==> has_job(s, id),
        forall|id: u64| #[trigger] has_job(s, id) && id != s[k].id ==> has_job(s.remove(k), id),
{
    let r = s.remove(k);
    assert forall|i: int| 0 <= i < r.len() implies #[trigger] r[i] == s[if i < k {
        i
    } else {
        i + 1
    }] by {
        lemma_remove_index(s, k, i);
    }
    assert forall|id: u64| has_job(r, id) implies has_job(s, id) by {
        let i = choose|i: int| 0 <= i < r.len() && #[trigger] r[i].id == id;
        let w = if i < k {
            i
        } else {
            i + 1
        };
        assert(s[w].id == id);
    }
    assert forall|id: u64| #[trigger] has_job(s, id) && id != s[k].id implies has_job(r, id) by {
        let j = choose|j: int| 0 <= j < s.len() && #[trigger] s[j].id == id;
        let w = if j < k {
            j
        } else {
            j - 1
        };
        assert(r[w].id == id);
    }
}

proof fn lemma_push_job(s: Seq<Job>, j: Job)
    requires
        distinct(s),
        !has_job(s, j.id),
    ensures
        distinct(s.push(j)),
        forall|id: u64| #[trigger] has_job(s.push(j), id) <==> (has_job(s, id) || id == j.id),
{
    let p = s.push(j);
    assert forall|id: u64| #[trigger] has_job(p, id) <==> (has_job(s, id) || id == j.id) by {
        if has_job(p, id) {
            let i = choose|i: int| 0 <= i < p.len() && #[trigger] p[i].id == id;
            if i < s.len() {
                assert(s[i].id == id);
            }
        }
        if has_job(s, id) {
            let i = choose|i: int| 0 <= i < s.len() && #[trigger] s[i].id == id;
            assert(p[i].id == id);
        }
        if id == j.id {
            assert(p[s.len() as int].id == id);
        }
    }
    assert forall|a: int, b: int| 0 <= a < p.len() && 0 <= b < p.len() && a != b implies #[trigger] p[a].id
        != #[trigger] p[b].id by {
        if a == s.len() {
            assert(p[b] == s[b]);
        } else if b == s.len() {
            assert(p[a] == s[a]);
        } else {
            assert(p[a] == s[a] && p[b] == s[b]);
        }
    }
}

proof fn lemma_update_job(s: Seq<Job>, k: int, j: Job)
    requires
        0 <= k < s.len(),
        j.id == s[k].id,
        distinct(s),
    ensures
        distinct(s.update(k, j)),
        forall|id: u64| #[trigger] has_job(s.update(k, j), id) <==> has_job(s, id),
{
    let u = s.update(k, j);
    assert forall|id: u64| #[trigger] has_job(u, id) <==> has_job(s, id) by {
        if has_job(u, id) {
            let i = choose|i: int| 0 <= i < u.len() && #[trigger] u[i].id == id;
            assert(s[i].id == id);
        }
        if has_job(s, id) {
            let i = choose|i: int| 0 <= i < s.len() && #[trigger] s[i].id == id;
            assert(u[i].id == id);
        }
    }
}

/// Replacing nodes by nodes with the same ids and resources keeps the registry consistent.
proof fn lemma_nodes_replaced(before: Seq<Node>, after: Seq<Node>, running: Seq<Job>)
    requires
        after.len() == before.len(),
        forall|i: int|
            0 <= i < before.len() ==> (#[trigger] after[i]).id == before[i].id
                && after[i].used_resources == before[i].used_resources
                && after[i].avail_resources == before[i].avail_resources,
        nodes_unique(before),
        on_known_nodes(before, running),
        accounted(before, running),
    ensures
        nodes_unique(after),
        on_known_nodes(after, running),
        accounted(after, running),
{
    assert forall|i: int, j: int|
        0 <= i < after.len() && 0 <= j < after.len() && i != j implies #[trigger] after[i].id@
        != #[trigger] after[j].id@ by {
        assert(after[i].id == before[i].id);
        assert(after[j].id == before[j].id);
    }
    assert forall|i: int| 0 <= i < running.len() implies has_node(
        after,
        (#[trigger] running[i]).assigned_node->0@,
    ) by {
        let a = running[i].assigned_node->0@;
        assert(has_node(before, a));
        let k = choose|k: int| 0 <= k < before.len() && #[trigger] before[k].id@ == a;
        assert(after[k].id == before[k].id);
    }
    assert forall|i: int| 0 <= i < after.len() implies node_accounted(
        #[trigger] after[i],
        running,
    ) by {
        assert(after[i].id == before[i].id);
        assert(node_accounted(before[i], running));
    }
}

/// No running job holds anything on a node that is not registered.
proof fn lemma_nothing_on_unknown(nodes: Seq<Node>, running: Seq<Job>, n: Seq<char>)
    requires
        on_known_nodes(nodes, running),
        !has_node(nodes, n),
    ensures
        cpu_on(running, n) == 0,
        mem_on(running, n) == 0,
{
    assert forall|i: int| 0 <= i < running.len() implies !assigned_to(#[trigger] running[i], n) by {
        assert(has_node(nodes, running[i].assigned_node->0@));
    }
    lemma_none_assigned(running, n);
}

proof fn lemma_none_assigned(jobs: Seq<Job>, n: Seq<char>)
    requires
        forall|i: int| 0 <= i < jobs.len() ==> !assigned_to(#[trigger] jobs[i], n),
    ensures
        cpu_on(jobs, n) == 0,
        mem_on(jobs, n) == 0,
    decreases jobs.len(),
{
    if jobs.len() > 0 {
        let d = jobs.drop_last();
        assert forall|i: int| 0 <= i < d.len() implies !assigned_to(#[trigger] d[i], n) by {
            assert(d[i] == jobs[i]);
        }
        lemma_none_assigned(d, n);
        assert(!assigned_to(jobs[jobs.len() - 1], n));
    }
}

/// Registering a fresh node with nothing in use keeps the registry consistent.
proof fn lemma_node_added(nodes: Seq<Node>, n: Node, running: Seq<Job>)
    requires
        nodes_unique(nodes),
        on_known_nodes(nodes, running),
        accounted(nodes, running),
        !has_node(nodes, n.id@),
        n.used_resources.cpu_count == 0,
        n.used_resources.memory == 0,
    ensures
        nodes_unique(nodes.push(n)),
        on_known_nodes(nodes.push(n), running),
        accounted(nodes.push(n), running),
{
    let p = nodes.push(n);
    lemma_nothing_on_unknown(nodes, running, n.id@);
    assert forall|i: int, j: int|
        0 <= i < p.len() && 0 <= j < p.len() && i != j implies #[trigger] p[i].id@
        != #[trigger] p[j].id@ by {
        if i < nodes.len() {
            assert(p[i] == nodes[i]);
        }
        if j < nodes.len() {
            assert(p[j] == nodes[j]);
        }
    }
    assert forall|i: int| 0 <= i < running.len() implies has_node(
        p,
        (#[trigger] running[i]).assigned_node->0@,
    ) by {
        let a = running[i].assigned_node->0@;
        assert(has_node(nodes, a));
        let k = choose|k: int| 0 <= k < nodes.len() && #[trigger] nodes[k].id@ == a;
        assert(p[k] == nodes[k]);
    }
    assert forall|i: int| 0 <= i < p.len() implies node_accounted(#[trigger] p[i], running) by {
        if i < nodes.len() {
            assert(p[i] == nodes[i]);
        }
    }
}

/// A job that starts on node `k` and is charged to it keeps the accounting right.
proof fn lemma_job_started(nodes: Seq<Node>, running: Seq<Job>, k: int, j: Job)
    requires
        nodes_unique(nodes),
        on_known_nodes(nodes, running),
        accounted(nodes, running),
        0 <= k < nodes.len(),
        assigned_to(j, nodes[k].id@),
        fits(nodes[k], j.req_res),
    ensures
        nodes_unique(nodes.update(k, charged(nodes[k], j.req_res))),
        on_known_nodes(nodes.update(k, charged(nodes[k], j.req_res)), running.push(j)),
        accounted(nodes.update(k, charged(nodes[k], j.req_res)), running.push(j)),
{
    let u = nodes.update(k, charged(nodes[k], j.req_res));
    let r = running.push(j);
    assert forall|a: int, b: int| 0 <= a < u.len() && 0 <= b < u.len() && a != b implies #[trigger] u[a].id@
        != #[trigger] u[b].id@ by {
        assert(u[a].id == nodes[a].id && u[b].id == nodes[b].id);
    }
    assert forall|i: int| 0 <= i < r.len() implies has_node(u, (#[trigger] r[i]).assigned_node->0@) by {
        if i < running.len() {
            assert(r[i] == running[i]);
            let a = running[i].assigned_node->0@;
            assert(has_node(nodes, a));
            let m = choose|m: int| 0 <= m < nodes.len() && #[trigger] nodes[m].id@ == a;
            assert(u[m].id == nodes[m].id);
        } else {
            assert(u[k].id == nodes[k].id);
        }
    }
    assert forall|i: int| 0 <= i < u.len() implies node_accounted(#[trigger] u[i], r) by {
        lemma_on_push(running, j, nodes[i].id@);
        assert(node_accounted(nodes[i], running));
        if i != k {
            assert(!assigned_to(j, nodes[i].id@));
        }
    }
}

/// A running job that leaves and is released from its node keeps the accounting right.
proof fn lemma_job_left(nodes: Seq<Node>, running: Seq<Job>, k: int, m: int)
    requires
        nodes_unique(nodes),
        on_known_nodes(nodes, running),
        accounted(nodes, running),
        0 <= k < running.len(),
        0 <= m < nodes.len(),
        assigned_to(running[k], nodes[m].id@),
    ensures
        nodes[m].used_resources.cpu_count >= running[k].req_res.cpu_count,
        nodes[m].used_resources.memory >= running[k].req_res.memory,
        nodes_unique(nodes.update(m, released(nodes[m], running[k].req_res))),
        on_known_nodes(nodes.update(m, released(nodes[m], running[k].req_res)), running.remove(k)),
        accounted(nodes.update(m, released(nodes[m], running[k].req_res)), running.remove(k)),
{
    let j = running[k];
    let u = nodes.update(m, released(nodes[m], j.req_res));
    let r = running.remove(k);
    lemma_on_remove(running, k, nodes[m].id@);
    assert(node_accounted(nodes[m], running));
    assert forall|a: int, b: int| 0 <= a < u.len() && 0 <= b < u.len() && a != b implies #[trigger] u[a].id@
        != #[trigger] u[b].id@ by {
        assert(u[a].id == nodes[a].id && u[b].id == nodes[b].id);
    }
    assert forall|i: int| 0 <= i < r.len() implies has_node(u, (#[trigger] r[i]).assigned_node->0@) by {
        lemma_remove_index(running, k, i);
        let w = if i < k {
            i
        } else {
            i + 1
        };
        assert(r[i] == running[w]);
        let a = running[w].assigned_node->0@;
        assert(has_node(nodes, a));
        let q = choose|q: int| 0 <= q < nodes.len() && #[trigger] nodes[q].id@ == a;
        assert(u[q].id == nodes[q].id);
    }
    assert forall|i: int| 0 <= i < u.len() implies node_accounted(#[trigger] u[i], r) by {
        lemma_on_remove(running, k, nodes[i].id@);
        assert(node_accounted(nodes[i], running));
        if i != m {
            assert(nodes[i].id@ != nodes[m].id@);
        }
    }
}

/// Changing a running job without touching its node, cores or memory keeps the accounting right.
proof fn lemma_job_changed(nodes: Seq<Node>, running: Seq<Job>, k: int, j: Job)
    requires
        on_known_nodes(nodes, running),
        accounted(nodes, running),
        0 <= k < running.len(),
        j.assigned_node == running[k].assigned_node,
        j.req_res.cpu_count == running[k].req_res.cpu_count,
        j.req_res.memory == running[k].req_res.memory,
    ensures
        on_known_nodes(nodes, running.update(k, j)),
        accounted(nodes, running.update(k, j)),
{
    let u = running.update(k, j);
    assert forall|i: int| 0 <= i < u.len() implies has_node(nodes, (#[trigger] u[i]).assigned_node->0@) by {
        assert(has_node(nodes, running[i].assigned_node->0@));
    }
    assert forall|i: int| 0 <= i < nodes.len() implies node_accounted(#[trigger] nodes[i], u) by {
        lemma_on_update(running, k, j, nodes[i].id@);
        assert(node_accounted(nodes[i], running));
    }
}

/// The job `id` in `jobs` belongs to `user`.
pub open spec fn owned_by(jobs: Seq<Job>, id: u64, user: Seq<char>) -> bool {
    exists|k: int| 0 <= k < jobs.len() && #[trigger] jobs[k].id == id && jobs[k].user@ == user
}

/// Each job seen as plain values.
pub open spec fn jobs_view(s: Seq<Job>) -> Seq<crate::model::JobView> {
    s.map_values(|j: Job| j@)
}

/// A character that may stand in a node id: an ASCII letter or digit, `_` or `-`.
pub open spec fn url_safe(c: char) -> bool {
    ('a' <= c <= 'z') || ('A' <= c <= 'Z') || ('0' <= c <= '9') || c == '_' || c == '-'
}

/// `id` could be drawn as a node id: 21 URL-safe characters.
pub open spec fn is_node_id_shape(id: Seq<char>) -> bool {
    id.len() == 21 && forall|i: int| 0 <= i < id.len() ==> url_safe(#[trigger] id[i])
}

/// Relies on `nanoid::format` with the URL-safe alphabet and size 21, which is what
/// `nanoid!()` expands to: a random id of 21 URL-safe characters.
#[verifier::external_body]
fn random_node_id() -> (r: String)
    ensures
        r@.len() == 21,
        forall|i: int| 0 <= i < r@.len() ==> url_safe(#[trigger] r@[i]),
{
    nanoid::format(nanoid::rngs::default, &nanoid::alphabet::SAFE, 21)
}

proof fn lemma_view_push(s: Seq<Job>, j: Job)
    ensures
        jobs_view(s.push(j)) == jobs_view(s).push(j@),
{
    assert(jobs_view(s.push(j)) =~= jobs_view(s).push(j@));
}

proof fn lemma_view_prefix(s: Seq<Job>, i: int)
    requires
        0 <= i < s.len(),
    ensures
        jobs_view(s.subrange(0, i + 1)) == jobs_view(s.subrange(0, i)).push(s[i]@),
{
    assert(jobs_view(s.subrange(0, i + 1)) =~= jobs_view(s.subrange(0, i)).push(s[i]@));
}

proof fn lemma_view_concat(a: Seq<Job>, b: Seq<Job>)
    ensures
        jobs_view(a + b) == jobs_view(a) + jobs_view(b),
{
    assert(jobs_view(a + b) =~= jobs_view(a) + jobs_view(b));
}

/// With unique ids, job `k` is the only one with its id.
proof fn lemma_job_position(s: Seq<Job>, k: int)
    requires
        distinct(s),
        0 <= k < s.len(),
    ensures
        forall|q: int| 0 <= q < s.len() && #[trigger] s[q].id == s[k].id ==> q == k,
{
}

/// The scheduler's state: the next job id, the node registry, the pending FIFO
/// queue and the running jobs.
#[derive(Debug)]
pub struct SchedulerCore {
    /// The id the next submitted job gets.
    pub job_ctr: u64,
    /// Registered nodes, in registration order.
    pub nodes: Vec<Node>,
    /// Jobs waiting for a node, oldest first.
    pub pending: Vec<Job>,
    /// Jobs that a worker runs.
    pub running: Vec<Job>,
}

impl SchedulerCore {
    /// The state's invariants: unique ids, jobs shaped as their queue says, and
    /// each node's accounting within capacity and equal to what its running jobs hold.
    pub open spec fn wf(&self) -> bool {
        &&& nodes_unique(self.nodes@)
        &&& on_known_nodes(self.nodes@, self.running@)
        &&& accounted(self.nodes@, self.running@)
        &&& jobs_ok(self.job_ctr, self.pending@, self.running@)
    }

    /// An empty scheduler whose first job gets the id after `highest_job_id`.
    pub fn new(highest_job_id: u64) -> (r: Self)
        requires
            highest_job_id < u64::MAX,
        ensures
            r.wf(),
            r.job_ctr == highest_job_id + 1,
            r.nodes@.len() == 0,
            r.pending@.len() == 0,
            r.running@.len() == 0,
    {
        SchedulerCore {
            job_ctr: highest_job_id + 1,
            nodes: Vec::new(),
            pending: Vec::new(),
            running: Vec::new(),
        }
    }

    /// The index of the node with id `id`.
    pub fn node_index(&self, id: &String) -> (r: Option<usize>)
        ensures
            r matches Some(i) ==> i < self.nodes@.len() && self.nodes@[i as int].id@ == id@,
            r is None ==> !has_node(self.nodes@, id@),
    {
        let mut i: usize = 0;
        while i < self.nodes.len()
            invariant
                i <= self.nodes@.len(),
                forall|k: int| 0 <= k < i ==> #[trigger] self.nodes@[k].id@ != id@,
            decreases self.nodes.len() - i,
        {
            if self.nodes[i].id == *id {
                return Some(i);
            }
            i = i + 1;
        }
        None
    }

    /// The index of the job with id `id` in `jobs`.
    fn job_index(jobs: &Vec<Job>, id: u64) -> (r: Option<usize>)
        ensures
            r matches Some(i) ==> i < jobs@.len() && jobs@[i as int].id == id,
            r is None ==> !has_job(jobs@, id),
    {
        let mut i: usize = 0;
        while i < jobs.len()
            invariant
                i <= jobs@.len(),
                forall|k: int| 0 <= k < i ==> #[trigger] jobs@[k].id != id,
            decreases jobs.len() - i,
        {
            if jobs[i].id == id {
                return Some(i);
            }
            i = i + 1;
        }
        None
    }

    /// Queues a new job at the tail of the pending queue and returns its id.
    pub fn submit_job(
        &mut self,
        user: String,
        script_path: String,
        script_args: Vec<String>,
        req_res: Option<RequestedResources>,
        now: u64,
    ) -> (r: Result<u64, SchedulerError>)
        requires
            old(self).wf(),
        ensures
            final(self).wf(),
            req_res is None ==> r == Err::<u64, SchedulerError>(SchedulerError::InvalidArgument),
            req_res is Some && old(self).job_ctr == u64::MAX ==> r == Err::<u64, SchedulerError>(
                SchedulerError::IdsExhausted,
            ),
            req_res is Some && old(self).job_ctr < u64::MAX ==> r == Ok::<u64, SchedulerError>(
                old(self).job_ctr,
            ),
            r is Err ==> *final(self) == *old(self),
            r matches Ok(id) ==> {
                &&& final(self).job_ctr == id + 1
                &&& final(self).pending@ == old(self).pending@.push(
                    queued_job(id, user, script_path, script_args, req_res->0, now),
                )
                &&& final(self).running@ == old(self).running@
                &&& final(self).nodes@ == old(self).nodes@
            },
    {
        let res = match req_res {
            Some(res) => res,
            None => {
                return Err(SchedulerError::InvalidArgument);
            },
        };
        if self.job_ctr == u64::MAX {
            return Err(SchedulerError::IdsExhausted);
        }
        let id = self.job_ctr;
        let job = Job::new(id, user, script_path, script_args, res, now);
        proof {
            assert(!has_job(self.pending@, id));
            assert(!has_job(self.running@, id));
            lemma_push_job(self.pending@, job);
        }
        self.job_ctr = self.job_ctr + 1;
        self.pending.push(job);
        proof {
            let p = self.pending@;
            assert forall|i: int| 0 <= i < p.len() implies !has_job(
                self.running@,
                (#[trigger] p[i]).id,
            ) by {
                if i < p.len() - 1 {
                    assert(p[i] == old(self).pending@[i]);
                }
            }
        }
        Ok(id)
    }

    /// Registers a node under `id` as available, with nothing in use.
    pub fn register_node(&mut self, id: String, address: String, resources: NodeResources, now: u64) -> (r:
        Result<(), SchedulerError>)
        requires
            old(self).wf(),
        ensures
            final(self).wf(),
            r is Err <==> has_node(old(self).nodes@, id@),
            r is Err ==> r == Err::<(), SchedulerError>(SchedulerError::AlreadyExists),
            r is Err ==> *final(self) == *old(self),
            r is Ok ==> {
                &&& final(self).nodes@ == old(self).nodes@.push(
                    Node {
                        id,
                        endpoint: address,
                        avail_resources: resources,
                        used_resources: NodeResources { cpu_count: 0, memory: 0 },
                        last_heartbeat: now,
                        status: NodeStatus::Available,
                    },
                )
                &&& final(self).pending@ == old(self).pending@
                &&& final(self).running@ == old(self).running@
                &&& final(self).job_ctr == old(self).job_ctr
            },
    {
        if let Some(_) = self.node_index(&id) {
            return Err(SchedulerError::AlreadyExists);
        }
        let node = Node::new(id, address, resources, NodeStatus::Available, now);
        proof {
            lemma_node_added(self.nodes@, node, self.running@);
        }
        self.nodes.push(node);
        Ok(())
    }

    /// Registers a node under a fresh random id of 21 URL-safe characters and returns the id.
    pub fn register_new_node(&mut self, address: String, resources: NodeResources, now: u64) -> (r:
        Result<String, SchedulerError>)
        requires
            old(self).wf(),
        ensures
            final(self).wf(),
            r is Err ==> r == Err::<String, SchedulerError>(SchedulerError::AlreadyExists),
            r is Err ==> *final(self) == *old(self),
            r is Err ==> exists|i: int|
                0 <= i < old(self).nodes@.len() && is_node_id_shape(#[trigger] old(self).nodes@[i].id@),
            (forall|i: int|
                0 <= i < old(self).nodes@.len() ==> !is_node_id_shape(#[trigger] old(self).nodes@[i].id@))
                ==> r is Ok,
            r matches Ok(id) ==> {
                &&& id@.len() == 21
                &&& forall|i: int| 0 <= i < id@.len() ==> url_safe(#[trigger] id@[i])
                &&& !has_node(old(self).nodes@, id@)
                &&& final(self).nodes@ == old(self).nodes@.push(
                    Node {
                        id,
                        endpoint: address,
                        avail_resources: resources,
                        used_resources: NodeResources { cpu_count: 0, memory: 0 },
                        last_heartbeat: now,
                        status: NodeStatus::Available,
                    },
                )
                &&& final(self).pending@ == old(self).pending@
                &&& final(self).running@ == old(self).running@
                &&& final(self).job_ctr == old(self).job_ctr
            },
    {
        let id = random_node_id();
        proof {
            assert(is_node_id_shape(id@));
        }
        match self.register_node(id.clone(), address, resources, now) {
            Ok(()) => Ok(id),
            Err(e) => Err(e),
        }
    }

    /// Records a heartbeat from node `node_id` at `now` and marks the node available.
    pub fn send_heartbeat(&mut self, node_id: &String, now: u64) -> (r: Result<(), SchedulerError>)
        requires
            old(self).wf(),
        ensures
            final(self).wf(),
            r is Err <==> !has_node(old(self).nodes@, node_id@),
            r is Err ==> r == Err::<(), SchedulerError>(SchedulerError::Unauthenticated),
            r is Err ==> *final(self) == *old(self),
            r is Ok ==> {
                &&& final(self).nodes@.len() == old(self).nodes@.len()
                &&& forall|i: int|
                    0 <= i < old(self).nodes@.len() ==> #[trigger] final(self).nodes@[i]
                        == after_heartbeat(old(self).nodes@[i], node_id@, now)
                &&& final(self).pending@ == old(self).pending@
                &&& final(self).running@ == old(self).running@
                &&& final(self).job_ctr == old(self).job_ctr
            },
    {
        let idx = match self.node_index(node_id) {
            Some(i) => i,
            None => {
                return Err(SchedulerError::Unauthenticated);
            },
        };
        let ghost before = self.nodes@;
        let mut node = self.nodes.remove(idx);
        node.set_status(NodeStatus::Available);
        node.update_heartbeat(now);
        self.nodes.insert(idx, node);
        proof {
            let after = self.nodes@;
            assert(after =~= before.update(idx as int, after[idx as int]));
            assert forall|i: int| 0 <= i < before.len() implies #[trigger] after[i]
                == after_heartbeat(before[i], node_id@, now) by {
                if i != idx && before[i].id@ == node_id@ {
                    assert(before[i].id@ == before[idx as int].id@);
                }
            }
            lemma_nodes_replaced(before, after, self.running@);
        }
        Ok(())
    }

    /// One health tick at `now`: every node whose last heartbeat lies more than the
    /// timeout back is marked offline; nothing else changes.
    pub fn poll_node_health(&mut self, now: u64)
        requires
            old(self).wf(),
        ensures
            final(self).wf(),
            final(self).nodes@.len() == old(self).nodes@.len(),
            forall|i: int|
                0 <= i < old(self).nodes@.len() ==> #[trigger] final(self).nodes@[i]
                    == after_health_tick(old(self).nodes@[i], now),
            final(self).pending@ == old(self).pending@,
            final(self).running@ == old(self).running@,
            final(self).job_ctr == old(self).job_ctr,
    {
        let ghost before = self.nodes@;
        let mut i: usize = 0;
        while i < self.nodes.len()
            invariant
                self.nodes@.len() == before.len(),
                i <= before.len(),
                self.pending@ == old(self).pending@,
                self.running@ == old(self).running@,
                self.job_ctr == old(self).job_ctr,
                before == old(self).nodes@,
                forall|k: int| 0 <= k < i ==> #[trigger] self.nodes@[k] == after_health_tick(before[k], now),
                forall|k: int| i <= k < before.len() ==> #[trigger] self.nodes@[k] == before[k],
            decreases before.len() - i,
        {
            let last = self.nodes[i].last_heartbeat;
            if now > last && now - last > HEARTBEAT_TIMEOUT_MS {
                let ghost cur = self.nodes@;
                let mut node = self.nodes.remove(i);
                node.set_status(NodeStatus::Offline);
                self.nodes.insert(i, node);
                proof {
                    assert(self.nodes@ =~= cur.update(i as int, self.nodes@[i as int]));
                }
            }
            i = i + 1;
        }
        proof {
            lemma_nodes_replaced(before, self.nodes@, self.running@);
        }
    }

    /// Whether node `i` is available and has room left for `res`.
    fn node_fits(&self, i: usize, res: &RequestedResources) -> (r: bool)
        requires
            self.wf(),
            i < self.nodes@.len(),
        ensures
            r == fits(self.nodes@[i as int], *res),
    {
        let node = &self.nodes[i];
        proof {
            assert(node_accounted(self.nodes@[i as int], self.running@));
        }
        node.status == NodeStatus::Available && res.cpu_count <= node.avail_resources.cpu_count
            - node.used_resources.cpu_count && res.memory <= node.avail_resources.memory
            - node.used_resources.memory
    }

    /// The first node, in registry order, that is available and has room for `res`.
    pub fn find_available_node(&self, res: &RequestedResources) -> (r: Option<usize>)
        requires
            self.wf(),
        ensures
            r matches Some(i) ==> i < self.nodes@.len() && fits(self.nodes@[i as int], *res),
            r matches Some(i) ==> forall|k: int| 0 <= k < i ==> !fits(#[trigger] self.nodes@[k], *res),
            r is None ==> forall|k: int|
                0 <= k < self.nodes@.len() ==> !fits(#[trigger] self.nodes@[k], *res),
    {
        let mut i: usize = 0;
        while i < self.nodes.len()
            invariant
                self.wf(),
                i <= self.nodes@.len(),
                forall|k: int| 0 <= k < i ==> !fits(#[trigger] self.nodes@[k], *res),
            decreases self.nodes.len() - i,
        {
            if self.node_fits(i, res) {
                return Some(i);
            }
            i = i + 1;
        }
        None
    }

    /// The next dispatch decision from pending position `from` on: the first pending
    /// job that some node can take, with the first such node.
    pub fn next_assignment(&self, from: usize) -> (r: Option<(usize, usize)>)
        requires
            self.wf(),
        ensures
            r matches Some((k, m)) ==> {
                &&& from <= k < self.pending@.len()
                &&& m < self.nodes@.len()
                &&& fits(self.nodes@[m as int], self.pending@[k as int].req_res)
                &&& forall|q: int|
                    0 <= q < m ==> !fits(#[trigger] self.nodes@[q], self.pending@[k as int].req_res)
                &&& forall|p: int, q: int|
                    from <= p < k && 0 <= q < self.nodes@.len() ==> !fits(
                        #[trigger] self.nodes@[q],
                        #[trigger] self.pending@[p].req_res,
                    )
            },
            r is None ==> forall|p: int, q: int|
                from <= p < self.pending@.len() && 0 <= q < self.nodes@.len() ==> !fits(
                    #[trigger] self.nodes@[q],
                    #[trigger] self.pending@[p].req_res,
                ),
    {
        let mut k: usize = from;
        while k < self.pending.len()
            invariant
                self.wf(),
                from <= k,
                forall|p: int, q: int|
                    from <= p < k && p < self.pending@.len() && 0 <= q < self.nodes@.len() ==> !fits(
                        #[trigger] self.nodes@[q],
                        #[trigger] self.pending@[p].req_res,
                    ),
            decreases self.pending.len() - k,
        {
            match self.find_available_node(&self.pending[k].req_res) {
                Some(m) => {
                    return Some((k, m));
                },
                None => {},
            }
            k = k + 1;
        }
        None
    }

    /// Commits a dispatch after the worker accepted it: the pending job `job_id`
    /// starts on node `node_id` at `now` and the node is charged its resources.
    pub fn start_job(&mut self, job_id: u64, node_id: &String, now: u64) -> (r: Result<(), SchedulerError>)
        requires
            old(self).wf(),
        ensures
            final(self).wf(),
            r == Err::<(), SchedulerError>(SchedulerError::NotFound) <==> (!has_job(
                old(self).pending@,
                job_id,
            ) || !has_node(old(self).nodes@, node_id@)),
            r is Err ==> *final(self) == *old(self),
            r is Ok || r == Err::<(), SchedulerError>(SchedulerError::NotFound) || r == Err::<
                (),
                SchedulerError,
            >(SchedulerError::NoCapacity),
            forall|k: int, m: int|
                0 <= k < old(self).pending@.len() && 0 <= m < old(self).nodes@.len()
                    && #[trigger] old(self).pending@[k].id == job_id && #[trigger] old(
                    self,
                ).nodes@[m].id@ == node_id@ ==> {
                    &&& (r is Ok <==> fits(old(self).nodes@[m], old(self).pending@[k].req_res))
                    &&& r is Ok ==> {
                        &&& final(self).pending@ == old(self).pending@.remove(k)
                        &&& final(self).running@ == old(self).running@.push(
                            started_job(old(self).pending@[k], old(self).nodes@[m].id, now),
                        )
                        &&& final(self).nodes@ == old(self).nodes@.update(
                            m,
                            charged(old(self).nodes@[m], old(self).pending@[k].req_res),
                        )
                        &&& final(self).job_ctr == old(self).job_ctr
                    }
                },
    {
        let k = match Self::job_index(&self.pending, job_id) {
            Some(k) => k,
            None => {
                return Err(SchedulerError::NotFound);
            },
        };
        let m = match self.node_index(node_id) {
            Some(m) => m,
            None => {
                return Err(SchedulerError::NotFound);
            },
        };
        if !self.node_fits(m, &self.pending[k].req_res) {
            proof {
                self.lemma_unique_positions(k as int, m as int, job_id, node_id@);
            }
            return Err(SchedulerError::NoCapacity);
        }
        let ghost old_pending = self.pending@;
        let ghost old_nodes = self.nodes@;
        let ghost old_running = self.running@;
        let mut job = self.pending.remove(k);
        let mut node = self.nodes.remove(m);
        node.reduce_avail_resources(&job.req_res);
        let node_name = node.id.clone();
        self.nodes.insert(m, node);
        job.status = JobStatus::Running;
        job.start_time = Some(now);
        job.assigned_node = Some(node_name);
        proof {
            assert(self.nodes@ =~= old_nodes.update(m as int, charged(old_nodes[m as int], old_pending[k as int].req_res)));
            lemma_job_started(old_nodes, old_running, m as int, job);
            lemma_remove_job(old_pending, k as int);
            assert(!has_job(old_running, job.id)) by {
                assert(disjoint(old_pending, old_running));
                assert(old_pending[k as int].id == job.id);
            }
            lemma_push_job(old_running, job);
        }
        self.running.push(job);
        proof {
            let p = self.pending@;
            let rr = self.running@;
            assert forall|i: int| 0 <= i < p.len() implies !has_job(rr, (#[trigger] p[i]).id) by {
                lemma_remove_index(old_pending, k as int, i);
                let w = if i < k {
                    i
                } else {
                    i + 1
                };
                assert(p[i] == old_pending[w]);
                assert(!has_job(old_running, p[i].id));
                assert(p[i].id != job.id);
            }
            assert forall|i: int| 0 <= i < p.len() implies (#[trigger] p[i]).id < self.job_ctr
                && pending_shape(p[i]) by {
                lemma_remove_index(old_pending, k as int, i);
            }
            assert forall|i: int| 0 <= i < rr.len() implies (#[trigger] rr[i]).id < self.job_ctr
                && running_shape(rr[i]) by {
                if i < old_running.len() {
                    assert(rr[i] == old_running[i]);
                }
            }
            self.lemma_started_positions(old_pending, old_nodes, k as int, m as int, job_id, node_id@);
        }
        Ok(())
    }

    /// In a well-formed state a job id and a node id each sit at one position only.
    proof fn lemma_unique_positions(&self, k: int, m: int, job_id: u64, node_id: Seq<char>)
        requires
            self.wf(),
            0 <= k < self.pending@.len(),
            0 <= m < self.nodes@.len(),
            self.pending@[k].id == job_id,
            self.nodes@[m].id@ == node_id,
        ensures
            forall|k2: int| 0 <= k2 < self.pending@.len() && #[trigger] self.pending@[k2].id == job_id ==> k2 == k,
            forall|m2: int| 0 <= m2 < self.nodes@.len() && #[trigger] self.nodes@[m2].id@ == node_id ==> m2 == m,
    {
    }

    proof fn lemma_started_positions(&self, p: Seq<Job>, n: Seq<Node>, k: int, m: int, job_id: u64, node_id: Seq<char>)
        requires
            distinct(p),
            nodes_unique(n),
            0 <= k < p.len(),
            0 <= m < n.len(),
            p[k].id == job_id,
            n[m].id@ == node_id,
        ensures
            forall|k2: int| 0 <= k2 < p.len() && #[trigger] p[k2].id == job_id ==> k2 == k,
            forall|m2: int| 0 <= m2 < n.len() && #[trigger] n[m2].id@ == node_id ==> m2 == m,
    {
    }

    /// Records the result of running job `id`: the job leaves the running set with
    /// `status` and a stop time of `now`, its node gets its resources back, and the
    /// finished job is handed back for the durable store.
    pub fn submit_job_result(&mut self, id: u64, status: JobStatus, now: u64) -> (r: Result<Job, SchedulerError>)
        requires
            old(self).wf(),
        ensures
            final(self).wf(),
            !has_job(old(self).running@, id) ==> r == Err::<Job, SchedulerError>(SchedulerError::NotFound),
            has_job(old(self).running@, id) && !is_terminal(status) ==> r == Err::<Job, SchedulerError>(
                SchedulerError::InvalidArgument,
            ),
            has_job(old(self).running@, id) && is_terminal(status) ==> r is Ok,
            r is Err ==> *final(self) == *old(self),
            r matches Ok(j) ==> exists|k: int, m: int|
                0 <= k < old(self).running@.len() && 0 <= m < old(self).nodes@.len()
                    && #[trigger] old(self).running@[k].id == id && assigned_to(
                    old(self).running@[k],
                    #[trigger] old(self).nodes@[m].id@,
                ) && j == stopped_job(old(self).running@[k], status, now) && final(self).running@
                    == old(self).running@.remove(k) && final(self).nodes@ == old(self).nodes@.update(
                    m,
                    released(old(self).nodes@[m], old(self).running@[k].req_res),
                ),
            r is Ok ==> final(self).pending@ == old(self).pending@ && final(self).job_ctr == old(
                self,
            ).job_ctr && !has_job(final(self).running@, id) && !has_job(final(self).pending@, id),
    {
        let k = match Self::job_index(&self.running, id) {
            Some(k) => k,
            None => {
                return Err(SchedulerError::NotFound);
            },
        };
        if !status.is_terminal() {
            return Err(SchedulerError::InvalidArgument);
        }
        let mut job = self.take_running(k);
        job.stop_time = Some(now);
        job.status = status;
        Ok(job)
    }

    /// Removes running job `k` and gives its resources back to its node.
    fn take_running(&mut self, k: usize) -> (j: Job)
        requires
            old(self).wf(),
            k < old(self).running@.len(),
        ensures
            final(self).wf(),
            j == old(self).running@[k as int],
            exists|m: int|
                0 <= m < old(self).nodes@.len() && assigned_to(
                    old(self).running@[k as int],
                    #[trigger] old(self).nodes@[m].id@,
                ) && final(self).nodes@ == old(self).nodes@.update(
                    m,
                    released(old(self).nodes@[m], old(self).running@[k as int].req_res),
                ),
            final(self).running@ == old(self).running@.remove(k as int),
            final(self).pending@ == old(self).pending@,
            final(self).job_ctr == old(self).job_ctr,
            !has_job(final(self).running@, j.id),
            !has_job(final(self).pending@, j.id),
    {
        let ghost old_nodes = self.nodes@;
        let ghost old_running = self.running@;
        let ghost old_pending = self.pending@;
        proof {
            assert(has_node(old_nodes, old_running[k as int].assigned_node->0@));
        }
        let job = self.running.remove(k);
        let node_name = match &job.assigned_node {
            Some(n) => n,
            None => {
                proof {
                    assert(running_shape(old_running[k as int]));
                }
                return job;
            },
        };
        let m = match self.node_index(node_name) {
            Some(m) => m,
            None => {
                return job;
            },
        };
        proof {
            lemma_job_left(old_nodes, old_running, k as int, m as int);
        }
        let mut node = self.nodes.remove(m);
        node.free_avail_resource(&job.req_res);
        self.nodes.insert(m, node);
        proof {
            assert(self.nodes@ =~= old_nodes.update(m as int, released(old_nodes[m as int], job.req_res)));
            lemma_remove_job(old_running, k as int);
            let rr = self.running@;
            assert forall|i: int| 0 <= i < old_pending.len() implies !has_job(rr, (#[trigger] old_pending[i]).id) by {
                assert(!has_job(old_running, old_pending[i].id));
            }
            assert forall|i: int| 0 <= i < rr.len() implies (#[trigger] rr[i]).id < self.job_ctr
                && running_shape(rr[i]) by {
                lemma_remove_index(old_running, k as int, i);
            }
            assert(!has_job(old_pending, job.id)) by {
                assert(disjoint(old_pending, old_running));
                if has_job(old_pending, job.id) {
                    let q = choose|q: int| 0 <= q < old_pending.len() && #[trigger] old_pending[q].id == job.id;
                    assert(!has_job(old_running, old_pending[q].id));
                    assert(old_running[k as int].id == job.id);
                }
            }
        }
        job
    }

    /// All jobs for a listing: the pending ones, then the running ones, then `stored`.
    pub fn list_jobs(&self, stored: Vec<Job>) -> (r: Vec<Job>)
        ensures
            jobs_view(r@) == jobs_view(self.pending@) + jobs_view(self.running@) + jobs_view(stored@),
    {
        let mut out: Vec<Job> = Vec::new();
        let mut i: usize = 0;
        while i < self.pending.len()
            invariant
                i <= self.pending@.len(),
                jobs_view(out@) == jobs_view(self.pending@.subrange(0, i as int)),
            decreases self.pending.len() - i,
        {
            let j = self.pending[i].duplicate();
            proof {
                lemma_view_push(out@, j);
                lemma_view_prefix(self.pending@, i as int);
            }
            out.push(j);
            i = i + 1;
        }
        proof {
            assert(self.pending@.subrange(0, i as int) =~= self.pending@);
        }
        let ghost base = jobs_view(out@);
        let mut i: usize = 0;
        while i < self.running.len()
            invariant
                i <= self.running@.len(),
                base == jobs_view(self.pending@),
                jobs_view(out@) == base + jobs_view(self.running@.subrange(0, i as int)),
            decreases self.running.len() - i,
        {
            let j = self.running[i].duplicate();
            proof {
                lemma_view_push(out@, j);
                lemma_view_prefix(self.running@, i as int);
                assert(base + jobs_view(self.running@.subrange(0, i as int)).push(j@) =~= (base
                    + jobs_view(self.running@.subrange(0, i as int))).push(j@));
            }
            out.push(j);
            i = i + 1;
        }
        proof {
            assert(self.running@.subrange(0, i as int) =~= self.running@);
        }
        let ghost before = out@;
        let mut stored = stored;
        let ghost st = stored@;
        out.append(&mut stored);
        proof {
            lemma_view_concat(before, st);
        }
        out
    }

    /// A cancel request for job `id` from `user`. A pending job is removed at once;
    /// for a running job the answer names the worker that must stop it first.
    pub fn cancel_job(&mut self, id: u64, user: &String) -> (r: Result<WorkerStep, SchedulerError>)
        requires
            old(self).wf(),
        ensures
            final(self).wf(),
            final(self).running@ == old(self).running@,
            final(self).nodes@ == old(self).nodes@,
            final(self).job_ctr == old(self).job_ctr,
            has_job(old(self).pending@, id) && owned_by(old(self).pending@, id, user@) ==> {
                &&& r == Ok::<WorkerStep, SchedulerError>(WorkerStep::Done)
                &&& exists|k: int|
                    0 <= k < old(self).pending@.len() && #[trigger] old(self).pending@[k].id == id
                        && final(self).pending@ == old(self).pending@.remove(k)
            },
            has_job(old(self).pending@, id) && !owned_by(old(self).pending@, id, user@) ==> r == Err::<
                WorkerStep,
                SchedulerError,
            >(SchedulerError::PermissionDenied),
            !has_job(old(self).pending@, id) ==> final(self).pending@ == old(self).pending@,
            !has_job(old(self).pending@, id) && has_job(old(self).running@, id) && owned_by(
                old(self).running@,
                id,
                user@,
            ) ==> (r matches Ok(WorkerStep::AskWorker { endpoint }) && exists|k: int, m: int|
                0 <= k < old(self).running@.len() && 0 <= m < old(self).nodes@.len()
                    && #[trigger] old(self).running@[k].id == id && assigned_to(
                    old(self).running@[k],
                    #[trigger] old(self).nodes@[m].id@,
                ) && endpoint@ == old(self).nodes@[m].endpoint@),
            !has_job(old(self).pending@, id) && has_job(old(self).running@, id) && !owned_by(
                old(self).running@,
                id,
                user@,
            ) ==> r == Err::<WorkerStep, SchedulerError>(SchedulerError::PermissionDenied),
            !has_job(old(self).pending@, id) && !has_job(old(self).running@, id) ==> r == Err::<
                WorkerStep,
                SchedulerError,
            >(SchedulerError::NotFound),
            r is Err ==> *final(self) == *old(self),
    {
        if let Some(k) = Self::job_index(&self.pending, id) {
            if self.pending[k].user != *user {
                proof {
                    self.lemma_owner(self.pending@, k as int, user@);
                }
                return Err(SchedulerError::PermissionDenied);
            }
            let ghost old_pending = self.pending@;
            self.pending.remove(k);
            proof {
                lemma_remove_job(old_pending, k as int);
                let p = self.pending@;
                assert forall|i: int| 0 <= i < p.len() implies (#[trigger] p[i]).id < self.job_ctr
                    && pending_shape(p[i]) && !has_job(self.running@, p[i].id) by {
                    lemma_remove_index(old_pending, k as int, i);
                }
            }
            return Ok(WorkerStep::Done);
        }
        match Self::job_index(&self.running, id) {
            Some(k) => {
                if self.running[k].user != *user {
                    proof {
                        self.lemma_owner(self.running@, k as int, user@);
                    }
                    return Err(SchedulerError::PermissionDenied);
                }
                let endpoint = self.endpoint_of(k);
                Ok(WorkerStep::AskWorker { endpoint })
            },
            None => Err(SchedulerError::NotFound),
        }
    }

    /// The address of the worker that runs running job `k`.
    fn endpoint_of(&self, k: usize) -> (e: String)
        requires
            self.wf(),
            k < self.running@.len(),
        ensures
            exists|m: int|
                0 <= m < self.nodes@.len() && assigned_to(self.running@[k as int], #[trigger] self.nodes@[m].id@)
                    && e@ == self.nodes@[m].endpoint@,
    {
        proof {
            assert(has_node(self.nodes@, self.running@[k as int].assigned_node->0@));
            assert(running_shape(self.running@[k as int]));
        }
        let name = match &self.running[k].assigned_node {
            Some(n) => n,
            None => {
                return String::new();
            },
        };
        match self.node_index(name) {
            Some(m) => self.nodes[m].endpoint.clone(),
            None => String::new(),
        }
    }

    /// With unique ids, the job at `k` is the one with its id, so ownership is its user's.
    proof fn lemma_owner(&self, jobs: Seq<Job>, k: int, user: Seq<char>)
        requires
            distinct(jobs),
            0 <= k < jobs.len(),
        ensures
            owned_by(jobs, jobs[k].id, user) <==> jobs[k].user@ == user,
    {
        if owned_by(jobs, jobs[k].id, user) {
            let q = choose|q: int| 0 <= q < jobs.len() && #[trigger] jobs[q].id == jobs[k].id && jobs[q].user@ == user;
            assert(q == k);
        }
    }

    /// Completes the cancellation of running job `id` once its worker stopped it:
    /// the job leaves the running set and its node gets its resources back.
    pub fn finish_cancel(&mut self, id: u64) -> (r: Result<Job, SchedulerError>)
        requires
            old(self).wf(),
        ensures
            final(self).wf(),
            r is Err <==> !has_job(old(self).running@, id),
            r is Err ==> r == Err::<Job, SchedulerError>(SchedulerError::NotFound),
            r is Err ==> *final(self) == *old(self),
            r matches Ok(j) ==> exists|k: int, m: int|
                0 <= k < old(self).running@.len() && 0 <= m < old(self).nodes@.len()
                    && #[trigger] old(self).running@[k].id == id && assigned_to(
                    old(self).running@[k],
                    #[trigger] old(self).nodes@[m].id@,
                ) && j == old(self).running@[k] && final(self).running@ == old(self).running@.remove(k)
                    && final(self).nodes@ == old(self).nodes@.update(
                    m,
                    released(old(self).nodes@[m], old(self).running@[k].req_res),
                ),
            r is Ok ==> final(self).pending@ == old(self).pending@ && final(self).job_ctr == old(
                self,
            ).job_ctr && !has_job(final(self).running@, id),
    {
        match Self::job_index(&self.running, id) {
            Some(k) => Ok(self.take_running(k)),
            None => Err(SchedulerError::NotFound),
        }
    }

    /// An extension request of `mins` minutes for job `id` from `user`. A pending job's
    /// time limit grows at once; for a running job the answer names the worker that
    /// must extend its deadline first.
    pub fn extend_job(&mut self, id: u64, user: &String, mins: u32) -> (r: Result<WorkerStep, SchedulerError>)
        requires
            old(self).wf(),
        ensures
            final(self).wf(),
            final(self).running@ == old(self).running@,
            final(self).nodes@ == old(self).nodes@,
            final(self).job_ctr == old(self).job_ctr,
            forall|k: int|
                0 <= k < old(self).pending@.len() && #[trigger] old(self).pending@[k].id == id ==> {
                    &&& old(self).pending@[k].user@ != user@ ==> r == Err::<WorkerStep, SchedulerError>(
                        SchedulerError::PermissionDenied,
                    )
                    &&& old(self).pending@[k].user@ == user@ && old(self).pending@[k].req_res.time + mins
                        > u32::MAX ==> r == Err::<WorkerStep, SchedulerError>(
                        SchedulerError::InvalidArgument,
                    )
                    &&& old(self).pending@[k].user@ == user@ && old(self).pending@[k].req_res.time + mins
                        <= u32::MAX ==> r == Ok::<WorkerStep, SchedulerError>(WorkerStep::Done)
                        && final(self).pending@ == old(self).pending@.update(
                        k,
                        extended_job(old(self).pending@[k], mins),
                    )
                },
            !has_job(old(self).pending@, id) ==> final(self).pending@ == old(self).pending@,
            !has_job(old(self).pending@, id) && has_job(old(self).running@, id) && owned_by(
                old(self).running@,
                id,
                user@,
            ) ==> (r matches Ok(WorkerStep::AskWorker { endpoint }) && exists|k: int, m: int|
                0 <= k < old(self).running@.len() && 0 <= m < old(self).nodes@.len()
                    && #[trigger] old(self).running@[k].id == id && assigned_to(
                    old(self).running@[k],
                    #[trigger] old(self).nodes@[m].id@,
                ) && endpoint@ == old(self).nodes@[m].endpoint@),
            !has_job(old(self).pending@, id) && has_job(old(self).running@, id) && !owned_by(
                old(self).running@,
                id,
                user@,
            ) ==> r == Err::<WorkerStep, SchedulerError>(SchedulerError::PermissionDenied),
            !has_job(old(self).pending@, id) && !has_job(old(self).running@, id) ==> r == Err::<
                WorkerStep,
                SchedulerError,
            >(SchedulerError::NotFound),
            r is Err ==> *final(self) == *old(self),
    {
        if let Some(k) = Self::job_index(&self.pending, id) {
            proof {
                lemma_job_position(self.pending@, k as int);
            }
            if self.pending[k].user != *user {
                return Err(SchedulerError::PermissionDenied);
            }
            if self.pending[k].req_res.time > u32::MAX - mins {
                return Err(SchedulerError::InvalidArgument);
            }
            let ghost old_pending = self.pending@;
            let mut job = self.pending.remove(k);
            job.extend_time(mins);
            self.pending.insert(k, job);
            proof {
                assert(self.pending@ =~= old_pending.update(k as int, job));
                lemma_update_job(old_pending, k as int, job);
                let p = self.pending@;
                assert forall|i: int| 0 <= i < p.len() implies (#[trigger] p[i]).id < self.job_ctr
                    && pending_shape(p[i]) && !has_job(self.running@, p[i].id) by {
                    assert(!has_job(self.running@, old_pending[i].id));
                }
            }
            return Ok(WorkerStep::Done);
        }
        match Self::job_index(&self.running, id) {
            Some(k) => {
                if self.running[k].user != *user {
                    proof {
                        self.lemma_owner(self.running@, k as int, user@);
                    }
                    return Err(SchedulerError::PermissionDenied);
                }
                let endpoint = self.endpoint_of(k);
                Ok(WorkerStep::AskWorker { endpoint })
            },
            None => Err(SchedulerError::NotFound),
        }
    }

    /// Completes the extension of running job `id` by `mins` minutes once its worker
    /// moved the deadline.
    pub fn finish_extend(&mut self, id: u64, mins: u32) -> (r: Result<(), SchedulerError>)
        requires
            old(self).wf(),
        ensures
            final(self).wf(),
            !has_job(old(self).running@, id) ==> r == Err::<(), SchedulerError>(SchedulerError::NotFound),
            r is Err ==> *final(self) == *old(self),
            final(self).pending@ == old(self).pending@,
            final(self).nodes@ == old(self).nodes@,
            final(self).job_ctr == old(self).job_ctr,
            forall|k: int|
                0 <= k < old(self).running@.len() && #[trigger] old(self).running@[k].id == id ==> {
                    &&& old(self).running@[k].req_res.time + mins > u32::MAX ==> r == Err::<
                        (),
                        SchedulerError,
                    >(SchedulerError::InvalidArgument)
                    &&& old(self).running@[k].req_res.time + mins <= u32::MAX ==> r is Ok
                        && final(self).running@ == old(self).running@.update(
                        k,
                        extended_job(old(self).running@[k], mins),
                    )
                },
    {
        let k = match Self::job_index(&self.running, id) {
            Some(k) => k,
            None => {
                return Err(SchedulerError::NotFound);
            },
        };
        proof {
            lemma_job_position(self.running@, k as int);
        }
        if self.running[k].req_res.time > u32::MAX - mins {
            return Err(SchedulerError::InvalidArgument);
        }
        let ghost old_running = self.running@;
        let mut job = self.running.remove(k);
        job.extend_time(mins);
        self.running.insert(k, job);
        proof {
            assert(self.running@ =~= old_running.update(k as int, job));
            lemma_update_job(old_running, k as int, job);
            lemma_job_changed(self.nodes@, old_running, k as int, job);
            let rr = self.running@;
            assert forall|i: int| 0 <= i < self.pending@.len() implies !has_job(rr, (#[trigger] self.pending@[i]).id) by {
                assert(!has_job(old_running, self.pending@[i].id));
            }
            assert forall|i: int| 0 <= i < rr.len() implies (#[trigger] rr[i]).id < self.job_ctr
                && running_shape(rr[i]) by {
                assert(old_running[i].id < self.job_ctr);
            }
        }
        Ok(())
    }

    /// The job with id `id`: a running one first, then a pending one, else `stored`,
    /// what the durable store holds under that id.
    pub fn get_job_info(&self, id: u64, stored: Option<Job>) -> (r: Result<Job, SchedulerError>)
        ensures
            has_job(self.running@, id) ==> (r matches Ok(j) && exists|k: int|
                0 <= k < self.running@.len() && #[trigger] self.running@[k].id == id && j@
                    == self.running@[k]@),
            !has_job(self.running@, id) && has_job(self.pending@, id) ==> (r matches Ok(j) && exists|
                k: int,
            |
                0 <= k < self.pending@.len() && #[trigger] self.pending@[k].id == id && j@
                    == self.pending@[k]@),
            !has_job(self.running@, id) && !has_job(self.pending@, id) ==> match stored {
                Some(s) => r == Ok::<Job, SchedulerError>(s),
                None => r == Err::<Job, SchedulerError>(SchedulerError::NotFound),
            },
    {
        if let Some(k) = Self::job_index(&self.running, id) {
            return Ok(self.running[k].duplicate());
        }
        if let Some(k) = Self::job_index(&self.pending, id) {
            return Ok(self.pending[k].duplicate());
        }
        match stored {
            Some(s) => Ok(s),
            None => Err(SchedulerError::NotFound),
        }
    }
}
/// Every node holds no more than its capacity: no more cores and no more memory.
pub proof fn lemma_usage_within_capacity(s: SchedulerCore)
    requires
        s.wf(),
    ensures
        forall|i: int|
            0 <= i < s.nodes@.len() ==> (#[trigger] s.nodes@[i]).used_resources.cpu_count
                <= s.nodes@[i].avail_resources.cpu_count && s.nodes@[i].used_resources.memory
                <= s.nodes@[i].avail_resources.memory,
{
    assert forall|i: int| 0 <= i < s.nodes@.len() implies (#[trigger] s.nodes@[i]).used_resources.cpu_count
        <= s.nodes@[i].avail_resources.cpu_count && s.nodes@[i].used_resources.memory
        <= s.nodes@[i].avail_resources.memory by {
        assert(node_accounted(s.nodes@[i], s.running@));
    }
}

/// What a node has in use equals the sum of what the running jobs assigned to it
/// asked for, for cores and for memory alike.
pub proof fn lemma_usage_is_sum_of_running(s: SchedulerCore)
    requires
        s.wf(),
    ensures
        forall|i: int|
            0 <= i < s.nodes@.len() ==> (#[trigger] s.nodes@[i]).used_resources.cpu_count == cpu_on(
                s.running@,
                s.nodes@[i].id@,
            ) && s.nodes@[i].used_resources.memory == mem_on(s.running@, s.nodes@[i].id@),
{
    assert forall|i: int| 0 <= i < s.nodes@.len() implies (#[trigger] s.nodes@[i]).used_resources.cpu_count
        == cpu_on(s.running@, s.nodes@[i].id@) && s.nodes@[i].used_resources.memory == mem_on(
        s.running@,
        s.nodes@[i].id@,
    ) by {
        assert(node_accounted(s.nodes@[i], s.running@));
    }
}

/// The next id the scheduler hands out belongs to no job yet.
pub proof fn lemma_next_id_is_fresh(s: SchedulerCore)
    requires
        s.wf(),
    ensures
        !has_job(s.pending@, s.job_ctr),
        !has_job(s.running@, s.job_ctr),
{
    if has_job(s.pending@, s.job_ctr) {
        let i = choose|i: int| 0 <= i < s.pending@.len() && #[trigger] s.pending@[i].id == s.job_ctr;
        assert(s.pending@[i].id < s.job_ctr);
    }
    if has_job(s.running@, s.job_ctr) {
        let i = choose|i: int| 0 <= i < s.running@.len() && #[trigger] s.running@[i].id == s.job_ctr;
        assert(s.running@[i].id < s.job_ctr);
    }
}

/// Ids come out strictly increasing: a submission returns the counter and moves it
/// one past, and no transition moves the counter back, so a later submission
/// returns a larger id.
pub proof fn lemma_ids_increase(first: u64, after_first: SchedulerCore, before_second: SchedulerCore, second: u64)
    requires
        after_first.job_ctr == first + 1,
        before_second.job_ctr >= after_first.job_ctr,
        second == before_second.job_ctr,
    ensures
        first < second,
{
}

/// No job is pending and running at once.
pub proof fn lemma_one_queue_per_job(s: SchedulerCore, id: u64)
    requires
        s.wf(),
    ensures
        !(has_job(s.pending@, id) && has_job(s.running@, id)),
{
    if has_job(s.pending@, id) && has_job(s.running@, id) {
        let i = choose|i: int| 0 <= i < s.pending@.len() && #[trigger] s.pending@[i].id == id;
        assert(!has_job(s.running@, s.pending@[i].id));
    }
}

/// Once a result for job `id` was accepted, the job is gone from the running set,
/// so a second result for it is refused as not found.
pub proof fn lemma_result_accepted_once(before: SchedulerCore, after_running: Seq<Job>, k: int, id: u64)
    requires
        before.wf(),
        0 <= k < before.running@.len(),
        before.running@[k].id == id,
        after_running == before.running@.remove(k),
    ensures
        !has_job(after_running, id),
{
    lemma_remove_job(before.running@, k);
}

/// A node marked offline stays offline through health ticks and through every
/// change of its accounting; only a heartbeat from it marks it available again.
pub proof fn lemma_offline_until_heartbeat(n: Node, now: u64, res: RequestedResources, other: Seq<char>)
    requires
        n.status == NodeStatus::Offline,
        other != n.id@,
    ensures
        after_health_tick(n, now).status == NodeStatus::Offline,
        charged(n, res).status == NodeStatus::Offline,
        released(n, res).status == NodeStatus::Offline,
        after_heartbeat(n, other, now).status == NodeStatus::Offline,
        after_heartbeat(n, n.id@, now).status == NodeStatus::Available,
{
}

} // verus!
