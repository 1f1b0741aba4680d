use turing::loader::{load, parse_number, parse_rule, split_fields};
use turing::table::{Direction, MachineError, Rule};

fn lines(text: &[&str]) -> Vec<String> {
    text.iter().map(|s| s.to_string()).collect()
}

fn chars(s: &str) -> Vec<char> {
    s.chars().collect()
}

#[test]
fn loads_unary_successor_description() {
    let mut m = load(&lines(&["1", "_", "1", "0", "0 1 0 1 R", "", "0 _ 1 _ L"])).unwrap();
    m.extend("111").unwrap();
    assert_eq!(m.execute(100), Ok(true));
    assert_eq!(m.tape(), "111_");
}

#[test]
fn accepting_line_skips_non_numbers() {
    let mut m = load(&lines(&["a b", "_", "x 2 -1 +3", "q 3"])).unwrap();
    m.extend("ab").unwrap();
    assert_eq!(m.execute(1), Ok(true));
    let mut n = load(&lines(&["a b", "_", "x 2 -1 +3", "7"])).unwrap();
    n.extend("ab").unwrap();
    assert_eq!(n.execute(1), Ok(false));
}

#[test]
fn missing_lines_are_reported() {
    assert!(matches!(load(&lines(&[])), Err(MachineError::MalformedDescription(1))));
    assert!(matches!(load(&lines(&["a"])), Err(MachineError::MalformedDescription(2))));
    assert!(matches!(load(&lines(&["a", "  "])), Err(MachineError::MalformedDescription(2))));
    assert!(matches!(load(&lines(&["a", "_"])), Err(MachineError::MalformedDescription(3))));
    assert!(matches!(load(&lines(&["a", "_", "1"])), Err(MachineError::MalformedDescription(4))));
    assert!(matches!(
        load(&lines(&["a", "_", "1", "x"])),
        Err(MachineError::MalformedDescription(4))
    ));
}

#[test]
fn malformed_rule_line_is_reported_by_number() {
    assert!(matches!(
        load(&lines(&["a", "_", "1", "0", "0 a 1 a R", "0 _ 1 a S"])),
        Err(MachineError::MalformedDescription(6))
    ));
    assert!(matches!(
        load(&lines(&["a", "_", "1", "0", "0 a 1 a"])),
        Err(MachineError::MalformedDescription(5))
    ));
}

#[test]
fn description_errors_from_the_table() {
    assert!(matches!(
        load(&lines(&["a", "_", "1", "0", "0 b 1 a R"])),
        Err(MachineError::MalformedDescription(5))
    ));
    assert!(matches!(
        load(&lines(&["a", "_", "1", "0", "0 a 1 a R", "", "1 a 1 z L"])),
        Err(MachineError::MalformedDescription(7))
    ));
    assert!(matches!(
        load(&lines(&["a", "_", "1", "0", "0 a 1 a R", "0 a 2 _ L"])),
        Err(MachineError::DuplicateTransitionRule(0, 'a'))
    ));
}

#[test]
fn fields_split_on_whitespace() {
    let f = split_fields(&chars("  ab\tc \u{3000}d  "));
    assert_eq!(f, vec![chars("ab"), chars("c"), chars("d")]);
    assert!(split_fields(&chars(" \t ")).is_empty());
}

#[test]
fn numbers_read_like_usize() {
    assert_eq!(parse_number(&chars("42")), Some(42));
    assert_eq!(parse_number(&chars("+7")), Some(7));
    assert_eq!(parse_number(&chars("007")), Some(7));
    assert_eq!(parse_number(&chars("+")), None);
    assert_eq!(parse_number(&chars("")), None);
    assert_eq!(parse_number(&chars("-1")), None);
    assert_eq!(parse_number(&chars("1x")), None);
    assert_eq!(parse_number(&chars("18446744073709551615")), Some(usize::MAX));
    assert_eq!(parse_number(&chars("18446744073709551616")), None);
}

#[test]
fn rule_lines() {
    assert_eq!(
        parse_rule(&chars("3 ab 12 c Left extra")),
        Some(Rule { state: 3, read: 'a', next: 12, write: 'c', dir: Direction::Left })
    );
    assert_eq!(parse_rule(&chars("x a 1 b R")), None);
    assert_eq!(parse_rule(&chars("1 a 1 b Q")), None);
}

#[test]
fn blank_need_not_be_in_alphabet() {
    let mut m = load(&lines(&["0 1", "_ ignored", "", "0"])).unwrap();
    assert_eq!(m.extend("0_1"), Ok(()));
    assert_eq!(m.execute(0), Ok(false));
    assert_eq!(m.tape(), "0_1");
}
