use vstd::prelude::*;

verus! {

/// Ticks per unit of simulated time.
pub const TICKS_PER_UNIT: u64 = 1_000_000_000;

/// Simulated time, in ticks, after which no event is dispatched.
pub const HORIZON: u64 = 10_000_000_000;

/// The byte `S`, the label of a susceptible node.
pub const LABEL_S: u8 = 83;

/// The byte `I`, the label of an infected node.
pub const LABEL_I: u8 = 73;

/// The state of one node.
#[derive(Clone, Copy, Debug, PartialEq, Eq, Structural)]
pub enum State {
    Infected,
    Susceptible,
}

/// Reads a state label: `S` is susceptible, `I` infected, anything else is
/// not a state.
pub open spec fn state_of_label(s: Seq<u8>) -> Option<State> {
    if s == seq![LABEL_S] {
        Some(State::Susceptible)
    } else if s == seq![LABEL_I] {
        Some(State::Infected)
    } else {
        None
    }
}

/// Parses a state label (`S` or `I`).
pub fn str_2_state(state: &[u8]) -> (r: Option<State>)
    ensures
        r == state_of_label(state@),
{
    if state.len() == 1 && state[0] == LABEL_S {
        assert(state@ =~= seq![LABEL_S]);
        Some(State::Susceptible)
    } else if state.len() == 1 && state[0] == LABEL_I {
        assert(state@ =~= seq![LABEL_I]);
        Some(State::Infected)
    } else {
        None
    }
}

/// A scheduled event. A recovery turns its node susceptible; an infection
/// carries the states that validated it when it was scheduled, and is
/// applied at dispatch only if they still hold.
#[derive(Clone, Copy, Debug, PartialEq, Eq, Structural)]
pub enum Event {
    Recovery { time: u64, node: usize },
    Infection {
        time: u64,
        src: usize,
        target: usize,
        src_expected: State,
        target_expected_old: State,
    },
}

impl Event {
    pub open spec fn spec_time(self) -> u64 {
        match self {
            Event::Recovery { time, .. } => time,
            Event::Infection { time, .. } => time,
        }
    }

    /// The order in which events leave the queue: by time, and at equal
    /// times infections before recoveries.
    pub open spec fn key(self) -> int {
        2 * self.spec_time() + if self is Recovery { 1int } else { 0int }
    }

    pub fn time(&self) -> (r: u64)
        ensures
            r == self.spec_time(),
    {
        match self {
            Event::Recovery { time, .. } => *time,
            Event::Infection { time, .. } => *time,
        }
    }

    pub fn exec_key(&self) -> (r: u128)
        ensures
            r as int == self.key(),
    {
        match self {
            Event::Recovery { time, .. } => (*time as u128) * 2 + 1,
            Event::Infection { time, .. } => (*time as u128) * 2,
        }
    }
}

} // verus!
