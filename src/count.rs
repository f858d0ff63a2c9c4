use vstd::prelude::*;
use crate::event::State;

verus! {

/// Per-node record: current state, the time at which it recovers (meaningful
/// only while infected) and its number of neighbours.
#[derive(Clone, Copy, Debug, PartialEq, Eq, Structural)]
pub struct NodeInfo {
    pub state: State,
    pub recovery_time: u64,
    pub degree: usize,
}

/// Population counts at a point in simulated time.
#[derive(Clone, Copy, Debug, PartialEq, Eq, Structural)]
pub struct CountsAtTime {
    pub infected_count: usize,
    pub susceptible_count: usize,
    pub current_time: u64,
}

pub open spec fn is_infected(x: NodeInfo) -> nat {
    if x.state is Infected { 1 } else { 0 }
}

/// Number of infected nodes in a table.
pub open spec fn num_infected(s: Seq<NodeInfo>) -> nat
    decreases s.len(),
{
    if s.len() == 0 {
        0
    } else {
        num_infected(s.drop_last()) + is_infected(s.last())
    }
}

pub proof fn lemma_num_infected_bound(s: Seq<NodeInfo>)
    ensures
        num_infected(s) <= s.len(),
    decreases s.len(),
{
    if s.len() > 0 {
        lemma_num_infected_bound(s.drop_last());
    }
}

pub proof fn lemma_num_infected_push(s: Seq<NodeInfo>, x: NodeInfo)
    ensures
        num_infected(s.push(x)) == num_infected(s) + is_infected(x),
{
    assert(s.push(x).drop_last() =~= s);
}

pub proof fn lemma_num_infected_update(s: Seq<NodeInfo>, i: int, x: NodeInfo)
    requires
        0 <= i < s.len(),
    ensures
        num_infected(s.update(i, x)) + is_infected(s[i]) == num_infected(s) + is_infected(x),
    decreases s.len(),
{
    if i == s.len() - 1 {
        assert(s.update(i, x).drop_last() =~= s.drop_last());
    } else {
        assert(s.update(i, x).drop_last() =~= s.drop_last().update(i, x));
        lemma_num_infected_update(s.drop_last(), i, x);
    }
}

} // verus!
