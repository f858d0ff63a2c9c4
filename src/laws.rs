//! Properties that hold of every run of the simulator.

use vstd::prelude::*;
use crate::event::{Event, HORIZON};
use crate::sim::{Simulator, AttackTask, recovery_event};

verus! {

broadcast use vstd::multiset::group_multiset_axioms;

/// Conservation: in every reachable state the infected and susceptible
/// counts add up to the number of nodes, now and in every snapshot.
pub proof fn lemma_conservation(s: Simulator)
    requires
        s.wf(),
    ensures
        s.counts().infected_count + s.counts().susceptible_count == s.num_nodes(),
        forall|i: int| 0 <= i < s.summary().len() ==>
            #[trigger] s.summary()[i].infected_count + s.summary()[i].susceptible_count == s.num_nodes(),
{
}

/// Time never goes back: every pending event lies at or after the current
/// time, and neither a step nor a draw moves the current time backwards.
pub proof fn lemma_time_monotonic(s: Simulator, next: Simulator, delay: u64, r: Option<Event>)
    requires
        s.wf(),
        !s.finished(),
        s.tasks().len() == 0 ==> s.stepped(next, delay, r),
        s.tasks().len() > 0 ==> s.attack_drawn(next, delay),
    ensures
        forall|e: Event| #[trigger] s.queue().count(e) > 0 ==> e.spec_time() >= s.current_time(),
        next.current_time() >= s.current_time(),
{
    if s.tasks().len() == 0 {
        if let Some(e) = r {
            assert(s.event_ok(e));
        }
    }
}

/// A dispatched recovery always finds its node infected: every recovery
/// event in the queue targets an infected node, at that node's recovery
/// time.
pub proof fn lemma_recovery_targets_infected(s: Simulator, e: Event)
    requires
        s.wf(),
        s.queue().count(e) > 0,
        e is Recovery,
    ensures
        e->Recovery_node < s.num_nodes(),
        s.node_infos()[e->Recovery_node as int].state is Infected,
        s.node_infos()[e->Recovery_node as int].recovery_time == e->Recovery_time,
{
    assert(s.event_ok(e));
}

/// Each infected node has exactly one recovery event in the queue, at its
/// recovery time; a susceptible node has none.
pub proof fn lemma_recovery_unique(s: Simulator, n: usize)
    requires
        s.wf(),
        n < s.num_nodes(),
    ensures
        s.node_infos()[n as int].state is Infected ==>
            s.queue().count(Event::Recovery { time: s.node_infos()[n as int].recovery_time, node: n }) == 1,
        forall|t: u64| #[trigger] s.queue().count(recovery_event(t, n)) > 0 ==> {
            &&& s.node_infos()[n as int].state is Infected
            &&& t == s.node_infos()[n as int].recovery_time
        },
{
    assert forall|t: u64| #[trigger] s.queue().count(recovery_event(t, n)) > 0 implies {
        &&& s.node_infos()[n as int].state is Infected
        &&& t == s.node_infos()[n as int].recovery_time
    } by {
        assert(s.event_ok(recovery_event(t, n)));
    }
    assert(s.node_infos()[n as int].state is Infected ==> s.queue().count(
        Event::Recovery { time: s.node_infos()[n as int].recovery_time, node: (n as int) as usize },
    ) == 1);
}

/// Only the final snapshot of a finished run may lie at or past the
/// horizon.
pub proof fn lemma_snapshots_before_horizon(s: Simulator, i: int)
    requires
        s.wf(),
        0 <= i < s.summary().len(),
        !s.finished() || i < s.summary().len() - 1,
    ensures
        s.summary()[i].current_time < HORIZON,
{
}

/// Every dispatched event is counted once, as a real or a rejected step,
/// and only events before the horizon are dispatched.
pub proof fn lemma_counter_accounting(s: Simulator, next: Simulator, delay: u64, r: Option<Event>)
    requires
        s.wf(),
        !s.finished(),
        s.tasks().len() == 0,
        s.stepped(next, delay, r),
    ensures
        s.real_steps() + s.rejected_steps() == s.steps(),
        next.real_steps() + next.rejected_steps() == next.steps(),
        next.steps() == s.steps() + if r is Some { 1int } else { 0int },
        r matches Some(e) ==> e.spec_time() < HORIZON,
{
}

/// A node without neighbours never originates an infection attempt: no
/// pending attempt and no queued infection event comes from it.
pub proof fn lemma_isolated_node_never_attacks(s: Simulator, n: usize)
    requires
        s.wf(),
        n < s.num_nodes(),
        s.node_infos()[n as int].degree == 0,
    ensures
        forall|k: int| 0 <= k < s.tasks().len() ==> (#[trigger] s.tasks()[k]).node != n,
        forall|e: Event| #[trigger] s.queue().count(e) > 0 && e is Infection ==> e->Infection_src != n,
        forall|t: u64| s.attack_tasks(n, t) == Seq::<AttackTask>::empty(),
{
    assert forall|k: int| 0 <= k < s.tasks().len() implies (#[trigger] s.tasks()[k]).node != n by {
        assert(s.task_ok(s.tasks()[k]));
    }
    assert forall|e: Event| #[trigger] s.queue().count(e) > 0 && e is Infection implies e->Infection_src != n by {
        assert(s.event_ok(e));
    }
    assert forall|t: u64| s.attack_tasks(n, t) == Seq::<AttackTask>::empty() by {
        assert(s.attack_tasks(n, t) =~= Seq::<AttackTask>::empty());
    }
}

} // verus!
