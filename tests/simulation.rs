use sis_reject::count::{CountsAtTime, NodeInfo};
use sis_reject::event::{Event, State, HORIZON, TICKS_PER_UNIT};
use sis_reject::sim::{apply_event, Simulator, INFECTION_RATE_TENTHS, RECOVERY_RATE_TENTHS};

use rand::distributions::{Exp, IndependentSample};

const S: State = State::Susceptible;
const I: State = State::Infected;

fn counts(sim: &Simulator) -> (usize, usize) {
    let c = sim.current_counts();
    (c.susceptible_count, c.infected_count)
}

fn draw_ticks(rate_tenths: u128) -> u64 {
    let rate = rate_tenths as f64 / 10.0;
    let x = Exp::new(rate).ind_sample(&mut rand::thread_rng());
    (x * TICKS_PER_UNIT as f64).ceil() as u64
}

/// Runs with random draws, checking conservation and monotonic time.
fn run_random(sim: &mut Simulator, n: usize) {
    let mut last = sim.current_counts().current_time;
    while let Some(rate) = sim.next_rate() {
        sim.advance(draw_ticks(rate));
        let c = sim.current_counts();
        assert_eq!(c.infected_count + c.susceptible_count, n);
        assert!(c.current_time >= last);
        last = c.current_time;
    }
}

#[test]
fn single_susceptible_node() {
    let mut sim = Simulator::new(vec![vec![]], vec![S], &vec![7]).unwrap();
    assert_eq!(sim.next_rate(), Some(RECOVERY_RATE_TENTHS));
    assert_eq!(sim.advance(7), None);
    assert!(sim.is_finished());
    assert_eq!(sim.next_rate(), None);
    let snaps = sim.snapshots();
    assert_eq!(snaps.len(), 2);
    assert_eq!(snaps[0], CountsAtTime { infected_count: 0, susceptible_count: 1, current_time: 0 });
    assert!(snaps[1].current_time > HORIZON);
    assert_eq!(sim.current_counts().current_time, HORIZON + 1);
    assert_eq!((sim.real_step_count(), sim.rejected_step_count()), (0, 0));
}

#[test]
fn single_infected_isolated_node() {
    let half = TICKS_PER_UNIT / 2;
    let mut sim = Simulator::new(vec![vec![]], vec![I], &vec![half]).unwrap();
    assert_eq!(sim.node_info(0).recovery_time, half);
    // no infection attempt is ever scheduled for an isolated node
    assert_eq!(sim.next_rate(), Some(RECOVERY_RATE_TENTHS));
    assert_eq!(sim.advance(1), Some(Event::Recovery { time: half, node: 0 }));
    assert_eq!(counts(&sim), (1, 0));
    assert_eq!(sim.advance(1), None);
    assert!(sim.is_finished());
    assert_eq!((sim.real_step_count(), sim.rejected_step_count()), (1, 0));
    assert_eq!(sim.step_count(), 1);
}

#[test]
fn two_connected_nodes() {
    let u = TICKS_PER_UNIT;
    let mut sim = Simulator::new(vec![vec![1], vec![0]], vec![I, S], &vec![u, 0]).unwrap();
    assert_eq!(sim.next_rate(), Some(INFECTION_RATE_TENTHS));
    assert_eq!(sim.advance(3 * u / 10), None);
    assert_eq!(sim.pending_events(), 2);
    assert_eq!(sim.next_rate(), Some(RECOVERY_RATE_TENTHS));
    let infection = Event::Infection {
        time: 3 * u / 10,
        src: 0,
        target: 1,
        src_expected: I,
        target_expected_old: S,
    };
    assert_eq!(sim.advance(2 * u), Some(infection));
    assert_eq!(counts(&sim), (0, 2));
    assert_eq!(sim.node_info(1).recovery_time, 23 * u / 10);
    // node 1's attempt overshoots its recovery
    assert_eq!(sim.next_rate(), Some(INFECTION_RATE_TENTHS));
    assert_eq!(sim.advance(5 * u), None);
    // node 0's attempt hits an infected neighbour, goes on, then overshoots
    assert_eq!(sim.advance(u / 10), None);
    assert_eq!(sim.next_rate(), Some(INFECTION_RATE_TENTHS));
    assert_eq!(sim.advance(u), None);
    assert_eq!(sim.next_rate(), Some(RECOVERY_RATE_TENTHS));
    assert_eq!(sim.advance(1), Some(Event::Recovery { time: u, node: 0 }));
    assert_eq!(counts(&sim), (1, 1));
    assert_eq!(sim.advance(1), Some(Event::Recovery { time: 23 * u / 10, node: 1 }));
    assert_eq!(counts(&sim), (2, 0));
    assert_eq!(sim.advance(1), None);
    assert!(sim.is_finished());
    assert_eq!((sim.real_step_count(), sim.rejected_step_count()), (3, 0));
}

#[test]
fn stale_infection_is_rejected() {
    let u = TICKS_PER_UNIT;
    let graph = vec![vec![2], vec![2], vec![0, 1]];
    let mut sim = Simulator::new(graph, vec![I, I, S], &vec![5 * u, 5 * u, 0]).unwrap();
    assert_eq!(sim.advance(u / 10), None);
    assert_eq!(sim.advance(2 * u / 10), None);
    assert_eq!(sim.next_rate(), Some(RECOVERY_RATE_TENTHS));
    assert!(matches!(sim.advance(u), Some(Event::Infection { target: 2, .. })));
    assert_eq!(counts(&sim), (0, 3));
    // node 2 (degree 2) then node 0 draw past their recovery times
    assert_eq!(sim.next_rate(), Some(2 * INFECTION_RATE_TENTHS));
    assert_eq!(sim.advance(9 * u), None);
    assert_eq!(sim.advance(9 * u), None);
    // node 1's attack finds node 2 already infected
    assert!(matches!(sim.advance(u), Some(Event::Infection { src: 1, target: 2, .. })));
    assert_eq!(counts(&sim), (0, 3));
    assert_eq!((sim.real_step_count(), sim.rejected_step_count()), (1, 1));
}

#[test]
fn event_past_horizon_is_not_dispatched() {
    let mut sim = Simulator::new(vec![vec![]], vec![I], &vec![2 * HORIZON]).unwrap();
    assert_eq!(sim.advance(1), None);
    assert!(sim.is_finished());
    assert_eq!(sim.current_counts().current_time, 2 * HORIZON);
    assert_eq!(sim.step_count(), 0);
    assert_eq!(counts(&sim), (0, 1));
    let snaps = sim.snapshots();
    assert_eq!(snaps.len(), 2);
    assert_eq!(snaps[0].current_time, 0);
    assert_eq!(snaps[1].current_time, 2 * HORIZON);
}

#[test]
fn zero_delay_counts_as_one_tick() {
    let mut sim = Simulator::new(vec![vec![]], vec![I], &vec![0]).unwrap();
    assert_eq!(sim.node_info(0).recovery_time, 1);
}

#[test]
fn invalid_setup_is_refused() {
    assert!(Simulator::new(vec![vec![3]], vec![S], &vec![1]).is_none());
    assert!(Simulator::new(vec![vec![]], vec![S, S], &vec![1, 1]).is_none());
    assert!(Simulator::new(vec![vec![]], vec![S], &vec![]).is_none());
}

#[test]
fn fully_susceptible_graph_schedules_nothing() {
    let graph = vec![vec![1, 2], vec![0, 2], vec![0, 1]];
    let mut sim = Simulator::new(graph, vec![S, S, S], &vec![1, 1, 1]).unwrap();
    assert_eq!(sim.pending_events(), 0);
    assert_eq!(sim.advance(1), None);
    assert!(sim.is_finished());
    assert_eq!(counts(&sim), (3, 0));
}

#[test]
fn star_graph_random_run() {
    let graph = vec![vec![1, 2, 3, 4], vec![0], vec![0], vec![0], vec![0]];
    let delays: Vec<u64> = (0..5).map(|_| draw_ticks(RECOVERY_RATE_TENTHS)).collect();
    let mut sim = Simulator::new(graph, vec![I, S, S, S, S], &delays).unwrap();
    run_random(&mut sim, 5);
    assert!(sim.is_finished());
    assert_eq!(sim.real_step_count() + sim.rejected_step_count(), sim.step_count());
    let snaps = sim.snapshots();
    for s in &snaps[..snaps.len() - 1] {
        assert!(s.current_time < HORIZON);
        assert_eq!(s.infected_count + s.susceptible_count, 5);
    }
}

#[test]
fn complete_graph_first_recovery_mean() {
    let n = 4;
    let graph: Vec<Vec<usize>> = (0..n).map(|i| (0..n).filter(|&j| j != i).collect()).collect();
    let reps = 4000;
    let mut total = 0.0;
    for _ in 0..reps {
        let delays: Vec<u64> = (0..n).map(|_| draw_ticks(RECOVERY_RATE_TENTHS)).collect();
        let mut sim = Simulator::new(graph.clone(), vec![I; n], &delays).unwrap();
        let first = loop {
            let rate = sim.next_rate().unwrap();
            if let Some(Event::Recovery { time, .. }) = sim.advance(draw_ticks(rate)) {
                break time;
            }
            assert!(!sim.is_finished());
        };
        total += first as f64 / TICKS_PER_UNIT as f64;
    }
    let mean = total / reps as f64;
    assert!((mean - 1.0 / n as f64).abs() < 0.03, "mean {}", mean);
}

#[test]
fn applying_events() {
    let info = |state| NodeInfo { state, recovery_time: 9, degree: 1 };
    let mut nodes = vec![info(I), info(S)];
    let stale = Event::Infection { time: 1, src: 1, target: 0, src_expected: I, target_expected_old: S };
    assert!(!apply_event(&stale, &mut nodes));
    assert_eq!(nodes, vec![info(I), info(S)]);
    let fresh = Event::Infection { time: 1, src: 0, target: 1, src_expected: I, target_expected_old: S };
    assert!(apply_event(&fresh, &mut nodes));
    assert_eq!(nodes, vec![info(I), info(I)]);
    assert!(apply_event(&Event::Recovery { time: 9, node: 0 }, &mut nodes));
    assert_eq!(nodes, vec![info(S), info(I)]);
}
