use std::collections::HashSet;

use turing::machine::Machine;
use turing::table::{Direction, MachineError, Rule, TransitionTable};

fn rule(state: usize, read: char, next: usize, write: char, dir: Direction) -> Rule {
    Rule { state, read, next, write, dir }
}

fn states(v: &[usize]) -> HashSet<usize> {
    v.iter().copied().collect()
}

fn unary_successor() -> Machine {
    Machine::new(
        vec!['1'],
        '_',
        states(&[1]),
        0,
        vec![
            rule(0, '1', 0, '1', Direction::Right),
            rule(0, '_', 1, '_', Direction::Left),
        ],
    )
    .unwrap()
}

#[test]
fn unary_successor_machine() {
    let mut m = unary_successor();
    m.reset();
    m.extend("111").unwrap();
    assert_eq!(m.execute(1000), Ok(true));
    assert_eq!(m.tape(), "111_");
    assert_eq!(m.describe(), "11(1)1_");
}

#[test]
fn invalid_tape_symbol_is_rejected_and_next_line_runs() {
    let mut m = Machine::new(
        vec!['0', '1'],
        '_',
        states(&[0]),
        0,
        vec![rule(0, '0', 0, '1', Direction::Right)],
    )
    .unwrap();
    m.reset();
    assert_eq!(m.extend("02"), Err(MachineError::InvalidTapeSymbol('2')));
    assert_eq!(m.tape(), "");
    m.reset();
    assert_eq!(m.extend("00"), Ok(()));
    assert_eq!(m.execute(100), Ok(true));
    assert_eq!(m.tape(), "11_");
}

#[test]
fn immediate_halt_and_reject() {
    let mut m = Machine::new(
        vec!['a', 'b'],
        '_',
        states(&[7]),
        0,
        vec![rule(0, 'b', 1, 'a', Direction::Right)],
    )
    .unwrap();
    m.extend("ab").unwrap();
    assert_eq!(m.read(), Ok(false));
    assert_eq!(m.execute(10), Ok(false));
    assert_eq!(m.tape(), "ab");
    assert_eq!(m.describe(), "(0)ab");
}

#[test]
fn no_rule_for_initial_state_keeps_tape() {
    let mut m = Machine::new(
        vec!['x'],
        '_',
        states(&[3]),
        3,
        vec![rule(1, 'x', 3, '_', Direction::Left)],
    )
    .unwrap();
    m.extend("x_x").unwrap();
    assert_eq!(m.execute(0), Ok(true));
    assert_eq!(m.tape(), "x_x");
}

#[test]
fn runs_are_deterministic() {
    let mut m = unary_successor();
    let mut traces: Vec<Vec<String>> = Vec::new();
    for _ in 0..2 {
        m.reset();
        m.extend("11").unwrap();
        let mut trace = vec![m.describe()];
        while m.read() == Ok(true) {
            trace.push(m.describe());
        }
        traces.push(trace);
    }
    assert_eq!(traces[0], traces[1]);
    assert_eq!(traces[0], vec!["(0)11", "1(0)1", "11(0)_", "1(1)1_"]);
}

#[test]
fn moving_left_at_cell_zero_grows_the_window() {
    let mut m = Machine::new(
        vec!['a', 'b'],
        '_',
        states(&[]),
        0,
        vec![rule(0, 'a', 1, 'b', Direction::Left)],
    )
    .unwrap();
    m.extend("a").unwrap();
    assert_eq!(m.read(), Ok(true));
    assert_eq!(m.tape(), "_b");
    assert_eq!(m.describe(), "(1)_b");
}

#[test]
fn moving_right_at_last_cell_grows_the_window() {
    let mut m = Machine::new(
        vec!['a', 'b'],
        '_',
        states(&[]),
        0,
        vec![rule(0, 'a', 1, 'b', Direction::Right)],
    )
    .unwrap();
    m.extend("a").unwrap();
    assert_eq!(m.read(), Ok(true));
    assert_eq!(m.tape(), "b_");
    assert_eq!(m.describe(), "b(1)_");
}

#[test]
fn moving_inside_the_window_keeps_its_length() {
    let mut m = Machine::new(
        vec!['a', 'b'],
        '_',
        states(&[]),
        0,
        vec![rule(0, 'a', 0, 'b', Direction::Right), rule(0, 'c', 0, 'c', Direction::Left)],
    );
    assert!(m.is_err());
    m = Machine::new(
        vec!['a', 'b'],
        '_',
        states(&[]),
        0,
        vec![rule(0, 'a', 0, 'b', Direction::Right)],
    );
    let mut m = m.unwrap();
    m.extend("aab").unwrap();
    assert_eq!(m.read(), Ok(true));
    assert_eq!(m.tape(), "bab");
    assert_eq!(m.describe(), "b(0)ab");
}

#[test]
fn empty_input_reads_blank() {
    let mut m = Machine::new(
        vec!['1'],
        '_',
        states(&[2]),
        0,
        vec![rule(0, '_', 2, '1', Direction::Right)],
    )
    .unwrap();
    m.extend("").unwrap();
    assert_eq!(m.describe(), "");
    assert_eq!(m.execute(5), Ok(true));
    assert_eq!(m.tape(), "1_");
}

#[test]
fn empty_input_without_rule_stays_empty() {
    let mut n = Machine::new(vec!['1'], '_', states(&[0]), 0, vec![]).unwrap();
    n.extend("").unwrap();
    assert_eq!(n.execute(3), Ok(true));
    assert_eq!(n.tape(), "");
}

#[test]
fn moving_left_on_empty_input_materializes_two_cells() {
    let mut m = unary_successor();
    m.extend("").unwrap();
    assert_eq!(m.execute(3), Ok(true));
    assert_eq!(m.tape(), "__");
    assert_eq!(m.describe(), "(1)__");
}

#[test]
fn table_lookup_round_trip() {
    let rules = vec![
        rule(0, '1', 0, '1', Direction::Right),
        rule(0, '_', 1, '_', Direction::Left),
        rule(4, '1', 2, '_', Direction::Left),
    ];
    let t = TransitionTable::new(&vec!['1'], '_', rules.clone()).unwrap();
    assert_eq!(t.len(), 3);
    for r in &rules {
        assert_eq!(t.get(r.state, r.read), Some((r.next, r.write, r.dir)));
    }
    assert_eq!(t.get(1, '1'), None);
    assert_eq!(t.get(4, '_'), None);
}

#[test]
fn duplicate_rule_is_rejected() {
    let rules = vec![
        rule(0, '1', 0, '1', Direction::Right),
        rule(0, '1', 1, '_', Direction::Left),
    ];
    assert!(matches!(
        TransitionTable::new(&vec!['1'], '_', rules.clone()),
        Err(MachineError::DuplicateTransitionRule(0, '1'))
    ));
    assert!(matches!(
        Machine::new(vec!['1'], '_', states(&[]), 0, rules),
        Err(MachineError::DuplicateTransitionRule(0, '1'))
    ));
}

#[test]
fn invalid_rule_symbol_is_rejected() {
    assert!(matches!(
        TransitionTable::new(&vec!['1'], '_', vec![rule(0, 'x', 0, '1', Direction::Right)]),
        Err(MachineError::MalformedDescription(1))
    ));
    assert!(matches!(
        TransitionTable::new(
            &vec!['1'],
            '_',
            vec![rule(0, '1', 0, '_', Direction::Right), rule(1, '1', 0, 'y', Direction::Right)]
        ),
        Err(MachineError::MalformedDescription(2))
    ));
    assert!(matches!(
        Machine::new(vec!['1'], '_', states(&[]), 0, vec![rule(0, 'x', 0, '1', Direction::Left)]),
        Err(MachineError::MalformedDescription(1))
    ));
}

#[test]
fn step_budget_is_reported() {
    let mut m = Machine::new(
        vec!['1'],
        '_',
        states(&[0]),
        0,
        vec![rule(0, '_', 0, '1', Direction::Right)],
    )
    .unwrap();
    m.extend("_").unwrap();
    assert_eq!(m.execute(3), Err(MachineError::StepLimitReached));
    assert_eq!(m.tape(), "111_");
}

#[test]
fn reset_restores_the_start() {
    let mut m = unary_successor();
    m.extend("1").unwrap();
    assert_eq!(m.execute(10), Ok(true));
    assert!(m.accepted());
    m.reset();
    assert!(!m.accepted());
    assert_eq!(m.tape(), "");
    m.extend("1").unwrap();
    m.extend("1").unwrap();
    assert_eq!(m.tape(), "11");
}

#[test]
fn direction_from_char() {
    assert_eq!(Direction::try_from('R'), Ok(Direction::Right));
    assert_eq!(Direction::try_from('L'), Ok(Direction::Left));
    assert_eq!(Direction::try_from('S'), Err(MachineError::InvalidDirection('S')));
}

#[test]
fn state_renders_in_decimal() {
    let mut m = Machine::new(vec!['a'], '_', states(&[]), 1207, vec![]).unwrap();
    m.extend("aa").unwrap();
    assert_eq!(m.describe(), "(1207)aa");
}
