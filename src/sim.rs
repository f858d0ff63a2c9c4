use vstd::prelude::*;
use vstd::multiset::Multiset;
use crate::count::{
    CountsAtTime, NodeInfo, is_infected, num_infected, lemma_num_infected_bound,
    lemma_num_infected_push, lemma_num_infected_update,
};
use crate::event::{Event, State, HORIZON};
use crate::queue::EventQueue;
use crate::random::random_index;

verus! {

broadcast use vstd::multiset::group_multiset_axioms;

/// Rate of recovery of an infected node, in tenths per unit of time.
pub const RECOVERY_RATE_TENTHS: u128 = 10;

/// Rate at which an infected node attacks each neighbour, in tenths per
/// unit of time.
pub const INFECTION_RATE_TENTHS: u128 = 6;

/// Number of steps before which every step is recorded.
pub const EARLY_STEPS: u64 = 100;

/// After the early steps, one step in this many is recorded.
pub const SAVE_INTERVAL: u64 = 1000;

/// Pending work of the infection-attempt scheduler: an infected node, and
/// the time reached by its draws so far.
#[derive(Clone, Copy, Debug, PartialEq, Eq, Structural)]
pub struct AttackTask {
    pub node: usize,
    pub time: u64,
}

/// A drawn delay shorter than one tick counts as one tick.
pub open spec fn at_least_one(d: u64) -> int {
    if d == 0 { 1 } else { d as int }
}

/// The recovery time of a node infected at `base`, given the drawn delay.
pub open spec fn recovery_at(base: u64, d: u64) -> u64 {
    if base + at_least_one(d) > u64::MAX { u64::MAX } else { (base + at_least_one(d)) as u64 }
}

/// The recovery time of a node infected at `base`.
pub fn recovery_after(base: u64, delay: u64) -> (r: u64)
    ensures
        r == recovery_at(base, delay),
{
    let d: u64 = if delay == 0 { 1 } else { delay };
    match base.checked_add(d) {
        Some(t) => t,
        None => u64::MAX,
    }
}

/// Whether an attack on `m` at time `t` can still succeed, as far as the
/// table shows now.
pub open spec fn applicable(nodes: Seq<NodeInfo>, m: int, t: int) -> bool {
    nodes[m].state is Susceptible || nodes[m].recovery_time < t
}

/// Whether the state before step `k` is recorded.
pub open spec fn snapshot_due(k: u64) -> bool {
    k < EARLY_STEPS || k % SAVE_INTERVAL == 0
}

pub open spec fn recovery_event(time: u64, node: usize) -> Event {
    Event::Recovery { time, node }
}

pub open spec fn infection_event(time: u64, src: usize, target: usize) -> Event {
    Event::Infection {
        time,
        src,
        target,
        src_expected: State::Infected,
        target_expected_old: State::Susceptible,
    }
}

/// The single-threaded SIS simulator. It asks for random exponential delays
/// one at a time (see `next_rate`) and is driven by `advance`.
pub struct Simulator {
    graph: Vec<Vec<usize>>,
    nodes: Vec<NodeInfo>,
    queue: EventQueue,
    counts: CountsAtTime,
    tasks: Vec<AttackTask>,
    summary: Vec<CountsAtTime>,
    real_steps: u64,
    rejected_steps: u64,
    steps: u64,
    finished: bool,
}

/// Whether every neighbour id names a node of the graph.
pub open spec fn graph_ok(graph: Seq<Vec<usize>>) -> bool {
    forall|i: int, j: int|
        0 <= i < graph.len() && 0 <= j < graph[i]@.len() ==> #[trigger] graph[i]@[j] < graph.len()
}

/// Checks that every neighbour id names a node of the graph.
pub fn check_graph(graph: &Vec<Vec<usize>>) -> (r: bool)
    ensures
        r == graph_ok(graph@),
{
    let n = graph.len();
    let mut i: usize = 0;
    while i < n
        invariant
            n == graph@.len(),
            i <= n,
            forall|a: int, b: int| 0 <= a < i && 0 <= b < graph@[a]@.len() ==> #[trigger] graph@[a]@[b] < n,
        decreases n - i,
    {
        let row = &graph[i];
        let mut j: usize = 0;
        while j < row.len()
            invariant
                n == graph@.len(),
                i < n,
                row@ == graph@[i as int]@,
                j <= row@.len(),
                forall|a: int, b: int| 0 <= a < i && 0 <= b < graph@[a]@.len() ==> #[trigger] graph@[a]@[b] < n,
                forall|b: int| 0 <= b < j ==> #[trigger] row@[b] < n,
            decreases row@.len() - j,
        {
            if row[j] >= n {
                assert(graph@[i as int]@[j as int] >= n);
                return false;
            }
            j += 1;
        }
        assert forall|a: int, b: int| 0 <= a < i + 1 && 0 <= b < graph@[a]@.len() implies #[trigger] graph@[a]@[b] < n by {
            if a == i {
                assert(row@[b] < n);
            }
        }
        i += 1;
    }
    true
}

/// Whether an attack on `node` at `infection_time` is worth placing: the
/// node is susceptible, or will have recovered by then.
pub fn infection_applicable(infection_time: u64, node: usize, nodes: &Vec<NodeInfo>) -> (r: bool)
    requires
        node < nodes@.len(),
    ensures
        r == applicable(nodes@, node as int, infection_time as int),
{
    if nodes[node].state == State::Susceptible {
        return true;
    }
    nodes[node].recovery_time < infection_time
}

/// A neighbour of `n`, chosen uniformly at random.
pub fn get_random_neighbor(graph: &Vec<Vec<usize>>, n: usize) -> (r: usize)
    requires
        n < graph@.len(),
        graph@[n as int]@.len() > 0,
    ensures
        graph@[n as int]@.contains(r),
{
    let neighbors = &graph[n];
    let k = random_index(neighbors.len());
    neighbors[k]
}

/// Turns a recovering node susceptible.
pub fn apply_recovery(node: usize, nodes: &mut Vec<NodeInfo>)
    requires
        node < old(nodes)@.len(),
    ensures
        final(nodes)@ == old(nodes)@.update(node as int, NodeInfo { state: State::Susceptible, ..old(nodes)@[node as int] }),
{
    let mut info = nodes[node];
    info.state = State::Susceptible;
    nodes.set(node, info);
}

/// Applies an infection if the states it was scheduled against still hold;
/// returns whether it did.
pub fn apply_infection(src: usize, target: usize, src_expected: State, target_expected_old: State, nodes: &mut Vec<NodeInfo>) -> (r: bool)
    requires
        src < old(nodes)@.len(),
        target < old(nodes)@.len(),
    ensures
        r == (old(nodes)@[src as int].state == src_expected && old(nodes)@[target as int].state == target_expected_old),
        r ==> final(nodes)@ == old(nodes)@.update(target as int, NodeInfo { state: State::Infected, ..old(nodes)@[target as int] }),
        !r ==> final(nodes)@ == old(nodes)@,
{
    if nodes[src].state == src_expected && nodes[target].state == target_expected_old {
        let mut info = nodes[target];
        info.state = State::Infected;
        nodes.set(target, info);
        true
    } else {
        false
    }
}

/// Validates and applies an event to the node table; returns whether it
/// took effect. A recovery always does.
pub fn apply_event(e: &Event, nodes: &mut Vec<NodeInfo>) -> (r: bool)
    requires
        match *e {
            Event::Recovery { node, .. } => node < old(nodes)@.len(),
            Event::Infection { src, target, .. } => src < old(nodes)@.len() && target < old(nodes)@.len(),
        },
    ensures
        match *e {
            Event::Recovery { node, .. } => {
                &&& r
                &&& final(nodes)@ == old(nodes)@.update(node as int, NodeInfo { state: State::Susceptible, ..old(nodes)@[node as int] })
            },
            Event::Infection { src, target, src_expected, target_expected_old, .. } => {
                &&& r == (old(nodes)@[src as int].state == src_expected && old(nodes)@[target as int].state == target_expected_old)
                &&& r ==> final(nodes)@ == old(nodes)@.update(target as int, NodeInfo { state: State::Infected, ..old(nodes)@[target as int] })
                &&& !r ==> final(nodes)@ == old(nodes)@
            },
        },
{
    match *e {
        Event::Recovery { node, .. } => {
            apply_recovery(node, nodes);
            true
        },
        Event::Infection { src, target, src_expected, target_expected_old, .. } => {
            apply_infection(src, target, src_expected, target_expected_old, nodes)
        },
    }
}

/// Draws nothing itself: sets the recovery time of a newly infected node
/// from the drawn delay and enqueues its recovery event.
pub fn create_recovery_event(node: usize, nodes: &mut Vec<NodeInfo>, queue: &mut EventQueue, current_time: u64, delay: u64)
    requires
        node < old(nodes)@.len(),
        old(nodes)@[node as int].state is Infected,
    ensures
        final(nodes)@ == old(nodes)@.update(node as int, NodeInfo { recovery_time: recovery_at(current_time, delay), ..old(nodes)@[node as int] }),
        final(queue)@ == old(queue)@.insert(Event::Recovery { time: recovery_at(current_time, delay), node }),
{
    let rt = recovery_after(current_time, delay);
    let mut info = nodes[node];
    info.recovery_time = rt;
    nodes.set(node, info);
    queue.push(Event::Recovery { time: rt, node });
}

/// The node table set up from the initial states: each infected node gets
/// its first recovery time from its drawn delay.
pub open spec fn initial_node(graph: Seq<Vec<usize>>, states: Seq<State>, delays: Seq<u64>, i: int) -> NodeInfo {
    NodeInfo {
        state: states[i],
        recovery_time: if states[i] is Infected { recovery_at(0, delays[i]) } else { 0 },
        degree: graph[i]@.len() as usize,
    }
}

/// The attack tasks of the initial setup, in node order, over the first `k`
/// nodes: one for each infected node that has a neighbour.
pub open spec fn initial_tasks(nodes: Seq<NodeInfo>, k: int) -> Seq<AttackTask>
    decreases k,
{
    if k <= 0 {
        seq![]
    } else {
        initial_tasks(nodes, k - 1) + if nodes[k - 1].state is Infected && nodes[k - 1].degree > 0 {
            seq![AttackTask { node: (k - 1) as usize, time: 0 }]
        } else {
            seq![]
        }
    }
}

/// Every snapshot accounts for all `n` nodes, and only the last one of a
/// finished run may lie at or past the horizon.
pub open spec fn snapshots_ok(summary: Seq<CountsAtTime>, n: int, finished: bool) -> bool {
    forall|i: int| 0 <= i < summary.len() ==> {
        let s = #[trigger] summary[i];
        &&& s.infected_count + s.susceptible_count == n
        &&& (s.current_time < HORIZON || (finished && i == summary.len() - 1))
    }
}

impl Simulator {
    pub closed spec fn adjacency(self) -> Seq<Vec<usize>> {
        self.graph@
    }

    pub closed spec fn node_infos(self) -> Seq<NodeInfo> {
        self.nodes@
    }

    pub closed spec fn queue(self) -> Multiset<Event> {
        self.queue@
    }

    pub closed spec fn tasks(self) -> Seq<AttackTask> {
        self.tasks@
    }

    pub closed spec fn counts(self) -> CountsAtTime {
        self.counts
    }

    pub closed spec fn summary(self) -> Seq<CountsAtTime> {
        self.summary@
    }

    pub closed spec fn real_steps(self) -> u64 {
        self.real_steps
    }

    pub closed spec fn rejected_steps(self) -> u64 {
        self.rejected_steps
    }

    /// Number of dispatched events.
    pub closed spec fn steps(self) -> u64 {
        self.steps
    }

    pub closed spec fn finished(self) -> bool {
        self.finished
    }

    pub open spec fn num_nodes(self) -> int {
        self.node_infos().len() as int
    }

    pub open spec fn current_time(self) -> u64 {
        self.counts().current_time
    }

    /// The attack tasks that a node infected at `t` starts with.
    pub open spec fn attack_tasks(self, n: usize, t: u64) -> Seq<AttackTask> {
        if self.node_infos()[n as int].degree > 0 {
            seq![AttackTask { node: n, time: t }]
        } else {
            seq![]
        }
    }

    pub open spec fn event_ok(self, e: Event) -> bool {
        let nodes = self.node_infos();
        &&& e.spec_time() >= self.current_time()
        &&& match e {
            Event::Recovery { time, node } => {
                &&& node < nodes.len()
                &&& nodes[node as int].state is Infected
                &&& nodes[node as int].recovery_time == time
            },
            Event::Infection { time, src, target, src_expected, target_expected_old } => {
                &&& src < nodes.len()
                &&& target < nodes.len()
                &&& nodes[src as int].state is Infected
                &&& nodes[src as int].degree > 0
                &&& time <= nodes[src as int].recovery_time
                &&& src_expected is Infected
                &&& target_expected_old is Susceptible
            },
        }
    }

    pub open spec fn task_ok(self, t: AttackTask) -> bool {
        let nodes = self.node_infos();
        &&& t.node < nodes.len()
        &&& nodes[t.node as int].state is Infected
        &&& nodes[t.node as int].degree > 0
        &&& self.current_time() <= t.time <= nodes[t.node as int].recovery_time
    }


    /// The invariant of a run.
    pub open spec fn wf(self) -> bool {
        let nodes = self.node_infos();
        let graph = self.adjacency();
        &&& graph.len() == nodes.len()
        &&& graph_ok(graph)
        &&& forall|i: int| 0 <= i < nodes.len() ==> #[trigger] nodes[i].degree == graph[i]@.len()
        &&& self.counts().infected_count + self.counts().susceptible_count == nodes.len()
        &&& self.counts().infected_count == num_infected(nodes)
        &&& forall|e: Event| #[trigger] self.queue().count(e) > 0 ==> self.event_ok(e)
        &&& forall|i: int|
            0 <= i < nodes.len() && (#[trigger] nodes[i]).state is Infected ==> self.queue().count(
                Event::Recovery { time: nodes[i].recovery_time, node: i as usize },
            ) == 1
        &&& forall|k: int| 0 <= k < self.tasks().len() ==> self.task_ok(#[trigger] self.tasks()[k])
        &&& (!self.finished() ==> self.current_time() < HORIZON)
        &&& self.real_steps() + self.rejected_steps() == self.steps()
        &&& snapshots_ok(self.summary(), self.num_nodes(), self.finished())
    }

    /// Sets up a run: the node table, a recovery event for each infected
    /// node (its delay taken from `recovery_delays`), and a pending infection
    /// attempt for each infected node that has a neighbour. Fails when the
    /// three inputs differ in length or a neighbour id is out of range.
    pub fn new(graph: Vec<Vec<usize>>, states: Vec<State>, recovery_delays: &Vec<u64>) -> (r: Option<Simulator>)
        ensures
            r is Some <==> (graph@.len() == states@.len() && states@.len() == recovery_delays@.len() && graph_ok(graph@)),
            r matches Some(s) ==> {
                &&& s.wf()
                &&& s.adjacency() == graph@
                &&& s.num_nodes() == states@.len()
                &&& forall|i: int| 0 <= i < states@.len() ==> #[trigger] s.node_infos()[i] == initial_node(graph@, states@, recovery_delays@, i)
                &&& forall|e: Event| #[trigger] s.queue().count(e) == if e is Recovery && e->Recovery_node < states@.len()
                    && states@[e->Recovery_node as int] is Infected
                    && e->Recovery_time == recovery_at(0, recovery_delays@[e->Recovery_node as int]) { 1nat } else { 0nat }
                &&& s.tasks() == initial_tasks(s.node_infos(), states@.len() as int)
                &&& s.counts() == (CountsAtTime { infected_count: num_infected(s.node_infos()) as usize, susceptible_count: (states@.len() - num_infected(s.node_infos())) as usize, current_time: 0 })
                &&& s.summary().len() == 0
                &&& s.steps() == 0 && s.real_steps() == 0 && s.rejected_steps() == 0
                &&& !s.finished()
            },
    {
        let n = graph.len();
        if states.len() != n || recovery_delays.len() != n || !check_graph(&graph) {
            return None;
        }
        let mut nodes: Vec<NodeInfo> = Vec::new();
        let mut queue = EventQueue::new();
        let mut infected: usize = 0;
        let mut i: usize = 0;
        while i < n
            invariant
                n == graph@.len(),
                n == states@.len(),
                n == recovery_delays@.len(),
                i <= n,
                nodes@.len() == i,
                infected == num_infected(nodes@),
                forall|k: int| 0 <= k < i ==> #[trigger] nodes@[k] == initial_node(graph@, states@, recovery_delays@, k),
                forall|k: int| 0 <= k < i ==> #[trigger] nodes@[k].degree == graph@[k]@.len(),
                forall|e: Event| #[trigger] queue@.count(e) == if e is Recovery && e->Recovery_node < i
                    && states@[e->Recovery_node as int] is Infected
                    && e->Recovery_time == recovery_at(0, recovery_delays@[e->Recovery_node as int]) { 1nat } else { 0nat },
            decreases n - i,
        {
            proof {
                lemma_num_infected_bound(nodes@);
            }
            let st = states[i];
            let mut rt: u64 = 0;
            if st == State::Infected {
                rt = recovery_after(0, recovery_delays[i]);
                queue.push(Event::Recovery { time: rt, node: i });
                infected += 1;
            }
            let info = NodeInfo { state: st, recovery_time: rt, degree: graph[i].len() };
            proof {
                lemma_num_infected_push(nodes@, info);
            }
            nodes.push(info);
            i += 1;
        }
        let mut tasks: Vec<AttackTask> = Vec::new();
        let mut j: usize = 0;
        while j < n
            invariant
                n == nodes@.len(),
                j <= n,
                tasks@ == initial_tasks(nodes@, j as int),
                forall|k: int| 0 <= k < n ==> #[trigger] nodes@[k].degree == graph@[k]@.len(),
                n == graph@.len(),
                forall|k: int| 0 <= k < tasks@.len() ==> {
                    let t = #[trigger] tasks@[k];
                    &&& t.node < n && nodes@[t.node as int].state is Infected && nodes@[t.node as int].degree > 0 && t.time == 0
                },
            decreases n - j,
        {
            if nodes[j].state == State::Infected && nodes[j].degree > 0 {
                tasks.push(AttackTask { node: j, time: 0 });
            }
            j += 1;
        }
        proof {
            lemma_num_infected_bound(nodes@);
        }
        let counts = CountsAtTime { infected_count: infected, susceptible_count: n - infected, current_time: 0 };
        let s = Simulator {
            graph,
            nodes,
            queue,
            counts,
            tasks,
            summary: Vec::new(),
            real_steps: 0,
            rejected_steps: 0,
            steps: 0,
            finished: false,
        };
        proof {
            assert forall|i: int| 0 <= i < s.nodes@.len() && (#[trigger] s.nodes@[i]).state is Infected implies s.queue@.count(
                Event::Recovery { time: s.nodes@[i].recovery_time, node: i as usize }) == 1 by {
                assert(s.nodes@[i] == initial_node(s.graph@, states@, recovery_delays@, i));
            }
            assert forall|e: Event| #[trigger] s.queue@.count(e) > 0 implies s.event_ok(e) by {
                let k = e->Recovery_node as int;
                assert(s.nodes@[k] == initial_node(s.graph@, states@, recovery_delays@, k));
            }
            assert(forall|k: int| 0 <= k < s.tasks@.len() ==> s.task_ok(#[trigger] s.tasks@[k]));
            assert(forall|i: int| 0 <= i < s.nodes@.len() ==> #[trigger] s.nodes@[i].degree == s.graph@[i]@.len());
            assert(s.wf());
        }
        Some(s)
    }
}

impl Simulator {
    /// What one draw does to the first pending infection attempt of node
    /// `n` from time `t`: the attempt reaches `t + delay`; past the node's
    /// recovery time it ends with nothing placed; else a random neighbour is
    /// picked and, if the attack is applicable, an infection event is placed
    /// and the attempt ends; otherwise the attempt goes on from the new time.
    pub open spec fn attack_drawn(self, next: Self, delay: u64) -> bool {
        let task = self.tasks()[0];
        let n = task.node as int;
        let t2 = task.time + at_least_one(delay);
        &&& next.adjacency() == self.adjacency()
        &&& next.node_infos() == self.node_infos()
        &&& next.counts() == self.counts()
        &&& next.summary() == self.summary()
        &&& next.steps() == self.steps()
        &&& next.real_steps() == self.real_steps()
        &&& next.rejected_steps() == self.rejected_steps()
        &&& next.finished() == self.finished()
        &&& (t2 > self.node_infos()[n].recovery_time ==> {
            &&& next.tasks() == self.tasks().drop_first()
            &&& next.queue() == self.queue()
        })
        &&& (t2 <= self.node_infos()[n].recovery_time ==> exists|m: usize|
            #[trigger] self.adjacency()[n]@.contains(m) && if applicable(self.node_infos(), m as int, t2) {
                &&& next.queue() == self.queue().insert(infection_event(t2 as u64, task.node, m))
                &&& next.tasks() == self.tasks().drop_first()
            } else {
                &&& next.queue() == self.queue()
                &&& next.tasks() == self.tasks().update(0, AttackTask { node: task.node, time: t2 as u64 })
            })
    }

    /// One draw of the infection-attempt scheduler, for the first pending
    /// attempt.
    fn create_infection_event(&mut self, delay: u64)
        requires
            old(self).wf(),
            old(self).tasks().len() > 0,
        ensures
            final(self).wf(),
            old(self).attack_drawn(*final(self), delay),
    {
        let task = self.tasks[0];
        let n = task.node;
        let rt = self.nodes[n].recovery_time;
        let d: u64 = if delay == 0 { 1 } else { delay };
        let ghost old_self = *self;
        assert(self.task_ok(self.tasks@[0]));
        match task.time.checked_add(d) {
            None => {
                self.tasks.remove(0);
                assert(self.tasks@ =~= old_self.tasks@.drop_first());
                assert(forall|k: int| 0 <= k < self.tasks@.len() ==> self.tasks@[k] == old_self.tasks@[k + 1]);
            },
            Some(t2) => {
                if t2 > rt {
                    self.tasks.remove(0);
                    assert(self.tasks@ =~= old_self.tasks@.drop_first());
                    assert(forall|k: int| 0 <= k < self.tasks@.len() ==> self.tasks@[k] == old_self.tasks@[k + 1]);
                } else {
                    let m = get_random_neighbor(&self.graph, n);
                    if infection_applicable(t2, m, &self.nodes) {
                        let e = Event::Infection {
                            time: t2,
                            src: n,
                            target: m,
                            src_expected: State::Infected,
                            target_expected_old: State::Susceptible,
                        };
                        self.queue.push(e);
                        self.tasks.remove(0);
                        assert(self.tasks@ =~= old_self.tasks@.drop_first());
                        assert(forall|k: int| 0 <= k < self.tasks@.len() ==> self.tasks@[k] == old_self.tasks@[k + 1]);
                        proof {
                            let j = choose|j: int| 0 <= j < self.graph@[n as int]@.len() && self.graph@[n as int]@[j] == m;
                            assert(self.graph@[n as int]@[j] < self.nodes@.len());
                            assert(self.event_ok(e));
                            assert forall|x: Event| #[trigger] self.queue@.count(x) > 0 implies self.event_ok(x) by {
                                if x != e {
                                    assert(old_self.queue@.count(x) > 0);
                                }
                            }
                            assert forall|i: int| 0 <= i < self.nodes@.len() && (#[trigger] self.nodes@[i]).state is Infected implies self.queue@.count(
                                Event::Recovery { time: self.nodes@[i].recovery_time, node: i as usize }) == 1 by {
                                assert(old_self.queue@.count(Event::Recovery { time: self.nodes@[i].recovery_time, node: i as usize }) == 1);
                            }
                        }
                    } else {
                        self.tasks.set(0, AttackTask { node: n, time: t2 });
                        assert(forall|k: int| 0 < k < self.tasks@.len() ==> self.tasks@[k] == old_self.tasks@[k]);
                        assert(self.task_ok(self.tasks@[0]));
                    }
                    assert(old_self.adjacency()[n as int]@.contains(m));
                }
            },
        }
    }
}

impl Simulator {
    /// The summary after the snapshot that opens a step.
    pub open spec fn summary_at_step(self) -> Seq<CountsAtTime> {
        if snapshot_due(self.steps()) { self.summary().push(self.counts()) } else { self.summary() }
    }

    /// What one step does (with `delay` drawn for a recovery, used only if
    /// the step infects a node). It returns the dispatched event, or `None`
    /// when the run ends: the queue is empty, or its earliest event lies at
    /// or past the horizon.
    pub open spec fn stepped(self, next: Self, delay: u64, r: Option<Event>) -> bool {
        let nodes = self.node_infos();
        &&& next.adjacency() == self.adjacency()
        &&& match r {
            None => {
                &&& next.finished()
                &&& (self.queue().len() == 0 ==> next.current_time() == HORIZON + 1)
                &&& (self.queue().len() > 0 ==> {
                    &&& next.current_time() >= HORIZON
                    &&& exists|e: Event| #[trigger] self.queue().count(e) > 0 && e.spec_time() == next.current_time()
                        && forall|x: Event| #[trigger] self.queue().count(x) > 0 ==> e.key() <= x.key()
                })
                &&& next.counts() == (CountsAtTime { current_time: next.current_time(), ..self.counts() })
                &&& next.summary() == self.summary_at_step().push(next.counts())
                &&& next.node_infos() == nodes
                &&& next.queue() == self.queue()
                &&& next.tasks() == self.tasks()
                &&& next.steps() == self.steps()
                &&& next.real_steps() == self.real_steps()
                &&& next.rejected_steps() == self.rejected_steps()
            },
            Some(e) => {
                &&& self.queue().count(e) > 0
                &&& forall|x: Event| #[trigger] self.queue().count(x) > 0 ==> e.key() <= x.key()
                &&& e.spec_time() < HORIZON
                &&& !next.finished()
                &&& next.current_time() == e.spec_time()
                &&& next.summary() == self.summary_at_step()
                &&& next.steps() == self.steps() + 1
                &&& match e {
                    Event::Recovery { time, node } => {
                        &&& nodes[node as int].state is Infected
                        &&& next.node_infos() == nodes.update(node as int, NodeInfo { state: State::Susceptible, ..nodes[node as int] })
                        &&& next.queue() == self.queue().remove(e)
                        &&& next.tasks() == Seq::<AttackTask>::empty()
                        &&& next.real_steps() == self.real_steps() + 1
                        &&& next.rejected_steps() == self.rejected_steps()
                        &&& next.counts().infected_count == self.counts().infected_count - 1
                        &&& next.counts().susceptible_count == self.counts().susceptible_count + 1
                    },
                    Event::Infection { time, src, target, src_expected, target_expected_old } => {
                        if nodes[src as int].state == src_expected && nodes[target as int].state == target_expected_old {
                            let rt = recovery_at(time, delay);
                            &&& next.node_infos() == nodes.update(target as int, NodeInfo { state: State::Infected, recovery_time: rt, degree: nodes[target as int].degree })
                            &&& next.queue() == self.queue().remove(e).insert(Event::Recovery { time: rt, node: target })
                            &&& next.tasks() == self.attack_tasks(target, time) + self.attack_tasks(src, time)
                            &&& next.real_steps() == self.real_steps() + 1
                            &&& next.rejected_steps() == self.rejected_steps()
                            &&& next.counts().infected_count == self.counts().infected_count + 1
                            &&& next.counts().susceptible_count == self.counts().susceptible_count - 1
                        } else {
                            &&& next.node_infos() == nodes
                            &&& next.queue() == self.queue().remove(e)
                            &&& next.tasks() == self.attack_tasks(src, time)
                            &&& next.real_steps() == self.real_steps()
                            &&& next.rejected_steps() == self.rejected_steps() + 1
                            &&& next.counts().infected_count == self.counts().infected_count
                            &&& next.counts().susceptible_count == self.counts().susceptible_count
                        }
                    },
                }
            },
        }
    }

    /// One step of the simulator loop: records a snapshot when due, then
    /// dispatches the earliest event, validates and applies it, and queues
    /// the follow-on infection attempts.
    #[verifier::rlimit(100)]
    fn perform_step(&mut self, delay: u64) -> (r: Option<Event>)
        requires
            old(self).wf(),
            old(self).tasks().len() == 0,
            !old(self).finished(),
            old(self).steps() < u64::MAX,
        ensures
            final(self).wf(),
            old(self).stepped(*final(self), delay, r),
    {
        let ghost old_self = *self;
        let n_nodes = self.nodes.len();
        if self.steps < EARLY_STEPS || self.steps % SAVE_INTERVAL == 0 {
            self.summary.push(self.counts);
        }
        assert(self.summary@ == old_self.summary_at_step());
        assert(snapshots_ok(self.summary@, self.nodes@.len() as int, false));
        match self.queue.peek_min() {
            None => {
                self.counts.current_time = HORIZON + 1;
                self.finished = true;
                self.summary.push(self.counts);
                assert(snapshots_ok(self.summary@, self.nodes@.len() as int, true));
                return None;
            },
            Some(first) => {
                if first.time() >= HORIZON {
                    self.counts.current_time = first.time();
                    self.finished = true;
                    self.summary.push(self.counts);
                    assert(snapshots_ok(self.summary@, self.nodes@.len() as int, true));
                    assert forall|x: Event| #[trigger] self.queue@.count(x) > 0 implies self.event_ok(x) by {
                        assert(old_self.queue().count(x) > 0);
                        assert(old_self.event_ok(x));
                        assert(first.key() <= x.key());
                    }
                    return None;
                }
            },
        }
        let popped = self.queue.pop_min();
        let e = match popped {
            Some(e) => e,
            None => {
                return None;
            },
        };
        let ghost q0 = old_self.queue();
        assert(q0.count(e) > 0);
        assert(old_self.event_ok(e));
        let t = e.time();
        self.counts.current_time = t;
        self.steps = self.steps + 1;
        let ghost n0 = self.nodes@;
        let ok = apply_event(&e, &mut self.nodes);
        match e {
            Event::Recovery { time, node } => {
                proof {
                    lemma_num_infected_update(n0, node as int, NodeInfo { state: State::Susceptible, ..n0[node as int] });
                    assert(q0.count(e) == 1);
                }
                self.counts.infected_count = self.counts.infected_count - 1;
                self.counts.susceptible_count = self.counts.susceptible_count + 1;
                self.real_steps = self.real_steps + 1;
                proof {
                    assert(self.tasks@ =~= Seq::<AttackTask>::empty());
                    assert forall|x: Event| #[trigger] self.queue@.count(x) > 0 implies self.event_ok(x) by {
                        assert(q0.count(x) > 0);
                        assert(x != e);
                        assert(e.key() <= x.key());
                        match x {
                            Event::Recovery { time: t1, node: n1 } => {
                                assert(old_self.event_ok(x));
                            },
                            Event::Infection { time: t1, src: s1, .. } => {
                                assert(old_self.event_ok(x));
                            },
                        }
                    }
                    assert forall|i: int| 0 <= i < self.nodes@.len() && (#[trigger] self.nodes@[i]).state is Infected implies self.queue@.count(
                        Event::Recovery { time: self.nodes@[i].recovery_time, node: i as usize }) == 1 by {
                        assert(i != node);
                        assert(old_self.nodes@[i] == self.nodes@[i]);
                        assert(q0.count(Event::Recovery { time: self.nodes@[i].recovery_time, node: i as usize }) == 1);
                    }
                }
            },
            Event::Infection { time, src, target, src_expected, target_expected_old } => {
                if ok {
                    proof {
                        lemma_num_infected_update(n0, target as int, self.nodes@[target as int]);
                        lemma_num_infected_bound(self.nodes@);
                    }
                    create_recovery_event(target, &mut self.nodes, &mut self.queue, t, delay);
                    proof {
                        assert(self.nodes@ =~= n0.update(target as int, NodeInfo { state: State::Infected, recovery_time: recovery_at(time, delay), degree: n0[target as int].degree }));
                        assert(num_infected(self.nodes@) == num_infected(n0) + 1) by {
                            lemma_num_infected_update(n0, target as int, self.nodes@[target as int]);
                        }
                    }
                    if self.nodes[target].degree > 0 {
                        self.tasks.push(AttackTask { node: target, time: t });
                    }
                    self.counts.infected_count = self.counts.infected_count + 1;
                    self.counts.susceptible_count = self.counts.susceptible_count - 1;
                    self.real_steps = self.real_steps + 1;
                } else {
                    self.rejected_steps = self.rejected_steps + 1;
                }
                if self.nodes[src].degree > 0 {
                    self.tasks.push(AttackTask { node: src, time: t });
                }
                proof {
                    assert(self.tasks@ =~= if ok { old_self.attack_tasks(target, time) + old_self.attack_tasks(src, time) } else { old_self.attack_tasks(src, time) });
                    let rt = recovery_at(time, delay);
                    let re = Event::Recovery { time: rt, node: target };
                    assert forall|x: Event| #[trigger] self.queue@.count(x) > 0 implies self.event_ok(x) by {
                        if ok && x == re {
                        } else {
                            assert(q0.count(x) > 0);
                            assert(old_self.event_ok(x));
                            assert(e.key() <= x.key());
                        }
                    }
                    assert forall|i: int| 0 <= i < self.nodes@.len() && (#[trigger] self.nodes@[i]).state is Infected implies self.queue@.count(
                        Event::Recovery { time: self.nodes@[i].recovery_time, node: i as usize }) == 1 by {
                        if ok && i == target {
                            assert(!old_self.event_ok(re));
                            assert(q0.count(re) == 0);
                        } else {
                            assert(old_self.nodes@[i] == self.nodes@[i]);
                            assert(q0.count(Event::Recovery { time: self.nodes@[i].recovery_time, node: i as usize }) == 1);
                        }
                    }
                    assert forall|k: int| 0 <= k < self.tasks@.len() implies self.task_ok(#[trigger] self.tasks@[k]) by {
                    }
                }
            },
        }
        Some(e)
    }
}

impl Simulator {
    /// The rate, in tenths per unit of time, of the exponential delay that
    /// the next call of `advance` consumes; `None` once the run is over.
    /// A pending infection attempt needs a delay at the node's total attack
    /// rate (its degree times the infection rate); a step needs a recovery
    /// delay.
    pub fn next_rate(&self) -> (r: Option<u128>)
        requires
            self.wf(),
        ensures
            self.finished() ==> r is None,
            !self.finished() && self.tasks().len() > 0 ==> r == Some(
                (INFECTION_RATE_TENTHS * self.node_infos()[self.tasks()[0].node as int].degree) as u128,
            ),
            !self.finished() && self.tasks().len() == 0 ==> r == Some(RECOVERY_RATE_TENTHS),
    {
        if self.finished {
            None
        } else if self.tasks.len() > 0 {
            assert(self.task_ok(self.tasks@[0]));
            let deg = self.nodes[self.tasks[0].node].degree;
            Some(INFECTION_RATE_TENTHS * (deg as u128))
        } else {
            Some(RECOVERY_RATE_TENTHS)
        }
    }

    /// Consumes one drawn delay, in ticks, at the rate `next_rate` gave:
    /// first the pending infection attempts are served, one draw each; with
    /// none pending, one step is performed. Returns the dispatched event, if
    /// any. Once the run is over nothing changes.
    pub fn advance(&mut self, delay: u64) -> (r: Option<Event>)
        requires
            old(self).wf(),
            old(self).steps() < u64::MAX,
        ensures
            final(self).wf(),
            old(self).finished() ==> *final(self) == *old(self) && r is None,
            !old(self).finished() && old(self).tasks().len() > 0 ==> r is None && old(self).attack_drawn(*final(self), delay),
            !old(self).finished() && old(self).tasks().len() == 0 ==> old(self).stepped(*final(self), delay, r),
    {
        if self.finished {
            None
        } else if self.tasks.len() > 0 {
            self.create_infection_event(delay);
            None
        } else {
            self.perform_step(delay)
        }
    }

    pub fn is_finished(&self) -> (r: bool)
        ensures
            r == self.finished(),
    {
        self.finished
    }

    pub fn step_count(&self) -> (r: u64)
        ensures
            r == self.steps(),
    {
        self.steps
    }

    pub fn real_step_count(&self) -> (r: u64)
        ensures
            r == self.real_steps(),
    {
        self.real_steps
    }

    pub fn rejected_step_count(&self) -> (r: u64)
        ensures
            r == self.rejected_steps(),
    {
        self.rejected_steps
    }

    pub fn current_counts(&self) -> (r: CountsAtTime)
        ensures
            r == self.counts(),
    {
        self.counts
    }

    pub fn snapshots(&self) -> (r: &Vec<CountsAtTime>)
        ensures
            r@ == self.summary(),
    {
        &self.summary
    }

    pub fn node_info(&self, n: usize) -> (r: NodeInfo)
        requires
            n < self.node_infos().len(),
        ensures
            r == self.node_infos()[n as int],
    {
        self.nodes[n]
    }

    pub fn pending_events(&self) -> (r: usize)
        ensures
            r == self.queue().len(),
    {
        self.queue.len()
    }
}

} // verus!
