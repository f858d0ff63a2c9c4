use sis_reject::event::{str_2_state, State};
use sis_reject::graph::{setup_graph, ParseError};
use sis_reject::text::{parse_decimal, split_bytes};
use sis_reject::trace::{keep_snapshot, subsample};
use sis_reject::count::CountsAtTime;

#[test]
fn state_labels() {
    assert_eq!(str_2_state(b"S"), Some(State::Susceptible));
    assert_eq!(str_2_state(b"I"), Some(State::Infected));
    assert_eq!(str_2_state(b"X"), None);
    assert_eq!(str_2_state(b"SI"), None);
    assert_eq!(str_2_state(b""), None);
}

#[test]
fn decimal_numbers() {
    assert_eq!(parse_decimal(&b"0".to_vec()), Some(0));
    assert_eq!(parse_decimal(&b"4711".to_vec()), Some(4711));
    assert_eq!(parse_decimal(&b"".to_vec()), None);
    assert_eq!(parse_decimal(&b"12a".to_vec()), None);
    assert_eq!(parse_decimal(&b"-1".to_vec()), None);
    assert_eq!(parse_decimal(&b"99999999999999999999999".to_vec()), None);
}

#[test]
fn splitting() {
    let parts = split_bytes(&b"1,22,,3".to_vec(), b',');
    assert_eq!(parts, vec![b"1".to_vec(), b"22".to_vec(), b"".to_vec(), b"3".to_vec()]);
    assert_eq!(split_bytes(&b"".to_vec(), b','), vec![Vec::<u8>::new()]);
}

#[test]
fn two_node_graph() {
    let g = setup_graph(&b"0;I;1\n1;S;0".to_vec()).unwrap();
    assert_eq!(g.ids, vec![0, 1]);
    assert_eq!(g.states, vec![State::Infected, State::Susceptible]);
    assert_eq!(g.adjacency, vec![vec![1], vec![0]]);
}

#[test]
fn short_lines_and_carriage_returns() {
    let g = setup_graph(&b"0;S;1,2\r\n\n1;I;\r\n2;S;0\n".to_vec()).unwrap();
    assert_eq!(g.ids, vec![0, 1, 2]);
    assert_eq!(g.states, vec![State::Susceptible, State::Infected, State::Susceptible]);
    assert_eq!(g.adjacency, vec![vec![1, 2], vec![], vec![0]]);
}

#[test]
fn wrong_id_order_is_kept() {
    let g = setup_graph(&b"5;S;1\n1;S;0".to_vec()).unwrap();
    assert_eq!(g.ids, vec![5, 1]);
}

#[test]
fn graph_errors() {
    assert!(matches!(setup_graph(&b"0;X;1".to_vec()), Err(ParseError::UnknownState { line: 0 })));
    assert!(matches!(setup_graph(&b"0;S;1\nab;S;0".to_vec()), Err(ParseError::BadNumber { line: 1 })));
    assert!(matches!(setup_graph(&b"0;S;1,x".to_vec()), Err(ParseError::BadNumber { line: 0 })));
    assert!(matches!(setup_graph(&b"0;S".to_vec()), Err(ParseError::MissingField { line: 0 })));
}

#[test]
fn empty_file_has_no_nodes() {
    let g = setup_graph(&Vec::new()).unwrap();
    assert!(g.ids.is_empty() && g.states.is_empty() && g.adjacency.is_empty());
}

#[test]
fn snapshot_selection() {
    assert!(keep_snapshot(1500, 2000));
    assert!(keep_snapshot(50, 3000));
    assert!(keep_snapshot(150, 3000));
    assert!(!keep_snapshot(151, 3000));
    assert!(keep_snapshot(2950, 3000));
    assert!(!keep_snapshot(2899, 3000));
}

#[test]
fn subsample_long_and_short() {
    let c = |t: u64| CountsAtTime { infected_count: 1, susceptible_count: 0, current_time: t };
    let short: Vec<CountsAtTime> = (0..10).map(c).collect();
    assert_eq!(subsample(&short), short);
    let long: Vec<CountsAtTime> = (0..3000).map(c).collect();
    let kept = subsample(&long);
    // positions 1..=100 and 2900..=3000, and in between the multiples of 3
    assert_eq!(kept.len(), 100 + 101 + 933);
    assert_eq!(kept[100].current_time, 101);
}
