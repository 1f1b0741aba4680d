use vstd::prelude::*;

use std::collections::HashSet;

use crate::machine::{chars_of, Machine};
use crate::table::{error_explained, table_error, Direction, MachineError, Rule};

verus! {

/// Unicode's White_Space property, which separates the fields of a
/// description line.
pub open spec fn is_space(c: char) -> bool {
    ('\u{9}' <= c && c <= '\u{d}') || c == ' ' || c == '\u{85}' || c == '\u{a0}' || c == '\u{1680}'
        || ('\u{2000}' <= c && c <= '\u{200a}') || c == '\u{2028}' || c == '\u{2029}'
        || c == '\u{202f}' || c == '\u{205f}' || c == '\u{3000}'
}

fn space(c: char) -> (r: bool)
    ensures
        r == is_space(c),
{
    ('\u{9}' <= c && c <= '\u{d}') || c == ' ' || c == '\u{85}' || c == '\u{a0}' || c == '\u{1680}'
        || ('\u{2000}' <= c && c <= '\u{200a}') || c == '\u{2028}' || c == '\u{2029}'
        || c == '\u{202f}' || c == '\u{205f}' || c == '\u{3000}'
}

/// The maximal runs of non-space characters of `s`, in order.
pub open spec fn fields(s: Seq<char>) -> Seq<Seq<char>>
    decreases s.len(),
{
    if s.len() == 0 {
        Seq::empty()
    } else {
        let prev = fields(s.drop_last());
        let c = s.last();
        if is_space(c) {
            prev
        } else if s.len() >= 2 && !is_space(s[s.len() - 2]) && prev.len() > 0 {
            prev.drop_last().push(prev.last().push(c))
        } else {
            prev.push(seq![c])
        }
    }
}

/// Every field is non-empty.
pub proof fn lemma_fields_non_empty(s: Seq<char>)
    ensures
        forall|i: int| 0 <= i < fields(s).len() ==> #[trigger] fields(s)[i].len() > 0,
    decreases s.len(),
{
    if s.len() > 0 {
        let prev = fields(s.drop_last());
        lemma_fields_non_empty(s.drop_last());
        let f = fields(s);
        assert forall|i: int| 0 <= i < f.len() implies #[trigger] f[i].len() > 0 by {
            if !is_space(s.last()) && i == f.len() - 1 {
                if s.len() >= 2 && !is_space(s[s.len() - 2]) && prev.len() > 0 {
                    assert(f[i] == prev.last().push(s.last()));
                } else {
                    assert(f[i] == seq![s.last()]);
                }
            } else if !is_space(s.last()) {
                assert(f[i] == prev[i]);
            }
        }
    }
}

/// The fields of `line`: its maximal runs of non-space characters.
pub fn split_fields(line: &Vec<char>) -> (r: Vec<Vec<char>>)
    ensures
        r@.len() == fields(line@).len(),
        forall|i: int| 0 <= i < r@.len() ==> #[trigger] r@[i]@ == fields(line@)[i],
{
    let mut out: Vec<Vec<char>> = Vec::new();
    let mut i: usize = 0;
    while i < line.len()
        invariant
            i <= line@.len(),
            out@.len() == fields(line@.subrange(0, i as int)).len(),
            forall|k: int| 0 <= k < out@.len() ==> #[trigger] out@[k]@ == fields(line@.subrange(0, i as int))[k],
        decreases line@.len() - i,
    {
        let c = line[i];
        let ghost prev = fields(line@.subrange(0, i as int));
        assert(line@.subrange(0, i + 1).drop_last() =~= line@.subrange(0, i as int));
        if !space(c) {
            if i >= 1 && !space(line[i - 1]) && out.len() > 0 {
                let mut last = out.pop().unwrap();
                last.push(c);
                out.push(last);
            } else {
                out.push(vec![c]);
            }
        }
        proof {
            let now = fields(line@.subrange(0, i + 1));
            assert(line@.subrange(0, i + 1).last() == c);
            if i >= 1 {
                assert(line@.subrange(0, i + 1)[i - 1] == line@[i - 1]);
            }
            assert forall|k: int| 0 <= k < out@.len() implies #[trigger] out@[k]@ == now[k] by {
                if !is_space(c) && !(i >= 1 && !is_space(line@[i - 1]) && prev.len() > 0) && k == out@.len() - 1 {
                    assert(out@[k]@ =~= seq![c]);
                }
            }
        }
        i = i + 1;
    }
    assert(line@.subrange(0, i as int) =~= line@);
    out
}

/// The value of a run of decimal digits.
pub open spec fn digits_value(s: Seq<char>) -> nat
    decreases s.len(),
{
    if s.len() == 0 {
        0
    } else {
        digits_value(s.drop_last()) * 10 + (s.last() as nat - '0' as nat) as nat
    }
}

pub open spec fn all_digits(s: Seq<char>) -> bool {
    forall|i: int| 0 <= i < s.len() ==> '0' <= #[trigger] s[i] && s[i] <= '9'
}

/// A state number as std reads a `usize`: an optional `+`, then at least one
/// decimal digit, with a value that fits.
pub open spec fn number(s: Seq<char>) -> Option<usize> {
    let d = unsigned_part(s);
    if d.len() > 0 && all_digits(d) && digits_value(d) <= usize::MAX {
        Some(digits_value(d) as usize)
    } else {
        None
    }
}

/// `s` without a leading `+`.
pub open spec fn unsigned_part(s: Seq<char>) -> Seq<char> {
    if s.len() > 0 && s[0] == '+' {
        s.drop_first()
    } else {
        s
    }
}

fn digit_value(c: char) -> (r: usize)
    requires
        '0' <= c <= '9',
    ensures
        r == c as nat - '0' as nat,
{
    if c == '0' { 0 } else if c == '1' { 1 } else if c == '2' { 2 } else if c == '3' { 3 }
    else if c == '4' { 4 } else if c == '5' { 5 } else if c == '6' { 6 } else if c == '7' { 7 }
    else if c == '8' { 8 } else { 9 }
}

proof fn lemma_value_grows(s: Seq<char>, i: int, j: int)
    requires
        0 <= i <= j <= s.len(),
        all_digits(s),
    ensures
        digits_value(s.subrange(0, i)) <= digits_value(s.subrange(0, j)),
    decreases j - i,
{
    if i < j {
        lemma_value_grows(s, i, j - 1);
        assert(s.subrange(0, j).drop_last() =~= s.subrange(0, j - 1));
    }
}

/// Reads `s` as a state number (see `number`).
pub fn parse_number(s: &Vec<char>) -> (r: Option<usize>)
    ensures
        r == number(s@),
{
    let start: usize = if s.len() > 0 && s[0] == '+' { 1 } else { 0 };
    let ghost d = s@.subrange(start as int, s@.len() as int);
    assert(d =~= unsigned_part(s@));
    if start >= s.len() {
        return None;
    }
    let mut i: usize = start;
    while i < s.len()
        invariant
            start <= i <= s@.len(),
            d == s@.subrange(start as int, s@.len() as int),
            d == unsigned_part(s@),
            forall|k: int| 0 <= k < i - start ==> '0' <= #[trigger] d[k] && d[k] <= '9',
        decreases s@.len() - i,
    {
        if s[i] < '0' || s[i] > '9' {
            assert(!('0' <= d[i - start] && d[i - start] <= '9'));
            return None;
        }
        i = i + 1;
    }
    let mut v: usize = 0;
    let mut j: usize = start;
    while j < s.len()
        invariant
            start <= j <= s@.len(),
            d == s@.subrange(start as int, s@.len() as int),
            d == unsigned_part(s@),
            all_digits(d),
            v == digits_value(d.subrange(0, j - start)),
        decreases s@.len() - j,
    {
        assert(d[j - start] == s@[j as int]);
        let dv = digit_value(s[j]);
        assert(d.subrange(0, j + 1 - start).drop_last() =~= d.subrange(0, j - start));
        assert(d[j - start] == s@[j as int]);
        if v > (usize::MAX - dv) / 10 {
            proof {
                let m = usize::MAX as int;
                let w = v as int;
                let e = dv as int;
                assert(w * 10 + e > m) by (nonlinear_arith)
                    requires w > (m - e) / 10, 0 <= e <= 9, m > 9;
                lemma_value_grows(d, j + 1 - start, d.len() as int);
                assert(d.subrange(0, d.len() as int) =~= d);
            }
            return None;
        }
        v = v * 10 + dv;
        j = j + 1;
    }
    assert(d.subrange(0, j - start) =~= d);
    Some(v)
}

/// The direction written as the first character of a field.
pub open spec fn direction_of(c: char) -> Option<Direction> {
    if c == 'R' {
        Some(Direction::Right)
    } else if c == 'L' {
        Some(Direction::Left)
    } else {
        None
    }
}

/// The rule on a description line with fields `f`: state, read symbol, next
/// state, write symbol and direction, each symbol and the direction given by
/// the first character of its field. Fields after the fifth are ignored.
pub open spec fn rule_of(f: Seq<Seq<char>>) -> Option<Rule> {
    if f.len() >= 5 && number(f[0]) is Some && number(f[2]) is Some && f[1].len() > 0 && f[3].len()
        > 0 && f[4].len() > 0 && direction_of(f[4][0]) is Some {
        Some(
            Rule {
                state: number(f[0])->0,
                read: f[1][0],
                next: number(f[2])->0,
                write: f[3][0],
                dir: direction_of(f[4][0])->0,
            },
        )
    } else {
        None
    }
}

/// Reads a rule line (see `rule_of`); `None` where it is malformed.
pub fn parse_rule(line: &Vec<char>) -> (r: Option<Rule>)
    ensures
        r == rule_of(fields(line@)),
{
    let f = split_fields(line);
    proof {
        lemma_fields_non_empty(line@);
    }
    if f.len() < 5 {
        return None;
    }
    let state = match parse_number(&f[0]) {
        Some(s) => s,
        None => return None,
    };
    let next = match parse_number(&f[2]) {
        Some(s) => s,
        None => return None,
    };
    let read = f[1][0];
    let write = f[3][0];
    let d = f[4][0];
    let dir = if d == 'R' {
        Direction::Right
    } else if d == 'L' {
        Direction::Left
    } else {
        return None;
    };
    Some(Rule { state, read, next, write, dir })
}

/// What a description says, before its rules are checked as a table.
pub struct DescriptionModel {
    pub alphabet: Seq<char>,
    pub blank: char,
    pub accepting: Set<usize>,
    pub init_state: usize,
    pub rules: Seq<Rule>,
    /// The line number (counting from 1) of each rule.
    pub rule_lines: Seq<usize>,
}

/// The first character of each field.
pub open spec fn first_chars(f: Seq<Seq<char>>) -> Seq<char> {
    f.map_values(|t: Seq<char>| t[0])
}

/// The numbers among the fields `f`; fields that are not numbers are skipped.
pub open spec fn numbers_in(f: Seq<Seq<char>>) -> Set<usize> {
    Set::new(|n: usize| exists|k: int| 0 <= k < f.len() && number(#[trigger] f[k]) == Some(n))
}

/// The first of the fields `f` that is a number.
pub open spec fn first_number(f: Seq<Seq<char>>) -> Option<usize>
    decreases f.len(),
{
    if f.len() == 0 {
        None
    } else if number(f[0]) is Some {
        number(f[0])
    } else {
        first_number(f.drop_first())
    }
}

/// The rules on lines 5 to `n` (counting from 1); empty lines are skipped,
/// and the first malformed line is reported by its number.
pub open spec fn rules_upto(lines: Seq<Seq<char>>, n: nat) -> Result<Seq<Rule>, MachineError>
    decreases n,
{
    if n <= 4 {
        Ok(Seq::empty())
    } else {
        match rules_upto(lines, (n - 1) as nat) {
            Err(e) => Err(e),
            Ok(rs) => if lines[n - 1].len() == 0 {
                Ok(rs)
            } else {
                match rule_of(fields(lines[n - 1])) {
                    None => Err(MachineError::MalformedDescription(n as usize)),
                    Some(r) => Ok(rs.push(r)),
                }
            },
        }
    }
}

/// The numbers (counting from 1) of the non-empty lines among lines 5 to `n`.
pub open spec fn rule_lines_upto(lines: Seq<Seq<char>>, n: nat) -> Seq<usize>
    decreases n,
{
    if n <= 4 {
        Seq::empty()
    } else {
        let p = rule_lines_upto(lines, (n - 1) as nat);
        if lines[n - 1].len() == 0 {
            p
        } else {
            p.push(n as usize)
        }
    }
}

/// A description in lines: the alphabet (the first character of each field),
/// the blank (of the first field), the accepting states (the fields that are
/// numbers), the initial state (the first field that is a number), then one
/// rule per non-empty line.
pub open spec fn description(lines: Seq<Seq<char>>) -> Result<DescriptionModel, MachineError> {
    if lines.len() < 1 {
        Err(MachineError::MalformedDescription(1))
    } else if lines.len() < 2 || fields(lines[1]).len() == 0 {
        Err(MachineError::MalformedDescription(2))
    } else if lines.len() < 3 {
        Err(MachineError::MalformedDescription(3))
    } else if lines.len() < 4 || first_number(fields(lines[3])) is None {
        Err(MachineError::MalformedDescription(4))
    } else {
        match rules_upto(lines, lines.len()) {
            Err(e) => Err(e),
            Ok(rules) => Ok(
                DescriptionModel {
                    alphabet: first_chars(fields(lines[0])),
                    blank: fields(lines[1])[0][0],
                    accepting: numbers_in(fields(lines[2])),
                    init_state: first_number(fields(lines[3]))->0,
                    rules,
                    rule_lines: rule_lines_upto(lines, lines.len()),
                },
            ),
        }
    }
}

/// The text of each line.
pub open spec fn texts(lines: Seq<String>) -> Seq<Seq<char>> {
    lines.map_values(|l: String| l@)
}

fn first_chars_of(f: &Vec<Vec<char>>) -> (r: Vec<char>)
    requires
        forall|i: int| 0 <= i < f@.len() ==> #[trigger] f@[i]@.len() > 0,
    ensures
        r@ == first_chars(f@.map_values(|t: Vec<char>| t@)),
{
    let ghost g = f@.map_values(|t: Vec<char>| t@);
    let mut r: Vec<char> = Vec::new();
    let mut i: usize = 0;
    while i < f.len()
        invariant
            i <= f@.len(),
            g == f@.map_values(|t: Vec<char>| t@),
            forall|k: int| 0 <= k < f@.len() ==> #[trigger] f@[k]@.len() > 0,
            r@ == first_chars(g).subrange(0, i as int),
        decreases f@.len() - i,
    {
        r.push(f[i][0]);
        i = i + 1;
        assert(r@ =~= first_chars(g).subrange(0, i as int));
    }
    assert(r@ =~= first_chars(g));
    r
}

fn numbers_of(f: &Vec<Vec<char>>) -> (r: HashSet<usize>)
    ensures
        r@ == numbers_in(f@.map_values(|t: Vec<char>| t@)),
{
    let ghost g = f@.map_values(|t: Vec<char>| t@);
    let mut r: HashSet<usize> = HashSet::new();
    let mut i: usize = 0;
    while i < f.len()
        invariant
            i <= f@.len(),
            g == f@.map_values(|t: Vec<char>| t@),
            r@ == numbers_in(g.subrange(0, i as int)),
        decreases f@.len() - i,
    {
        let ghost before = r@;
        if let Some(n) = parse_number(&f[i]) {
            r.insert(n);
        }
        i = i + 1;
        proof {
            let p = g.subrange(0, i as int);
            let q = g.subrange(0, i - 1);
            assert forall|n: usize| #[trigger] r@.contains(n) == numbers_in(p).contains(n) by {
                if numbers_in(q).contains(n) {
                    let k = choose|k: int| 0 <= k < q.len() && number(#[trigger] q[k]) == Some(n);
                    assert(p[k] == q[k]);
                }
                if numbers_in(p).contains(n) {
                    let k = choose|k: int| 0 <= k < p.len() && number(#[trigger] p[k]) == Some(n);
                    if k < i - 1 {
                        assert(p[k] == q[k]);
                    }
                }
                assert(p[i - 1] == f@[i - 1]@);
            }
            assert(r@ =~= numbers_in(p));
        }
    }
    assert(g.subrange(0, i as int) =~= g);
    r
}

fn first_number_of(f: &Vec<Vec<char>>) -> (r: Option<usize>)
    ensures
        r == first_number(f@.map_values(|t: Vec<char>| t@)),
{
    let ghost g = f@.map_values(|t: Vec<char>| t@);
    assert(g.subrange(0, g.len() as int) =~= g);
    let mut i: usize = 0;
    while i < f.len()
        invariant
            i <= f@.len(),
            g == f@.map_values(|t: Vec<char>| t@),
            first_number(g) == first_number(g.subrange(i as int, g.len() as int)),
        decreases f@.len() - i,
    {
        let ghost rest = g.subrange(i as int, g.len() as int);
        assert(rest[0] == f@[i as int]@);
        assert(rest.drop_first() =~= g.subrange(i + 1, g.len() as int));
        if let Some(n) = parse_number(&f[i]) {
            return Some(n);
        }
        i = i + 1;
    }
    None
}

fn fields_of(line: &String) -> (r: Vec<Vec<char>>)
    ensures
        r@.map_values(|t: Vec<char>| t@) == fields(line@),
        forall|i: int| 0 <= i < r@.len() ==> #[trigger] r@[i]@.len() > 0,
{
    let chars = chars_of(line.as_str());
    let r = split_fields(&chars);
    proof {
        lemma_fields_non_empty(line@);
    }
    assert(r@.map_values(|t: Vec<char>| t@) =~= fields(line@));
    r
}

/// Reads a machine from the lines of its description (see `description`),
/// then builds it as `Machine::new` does. A rule with a symbol outside the
/// alphabet and the blank is reported as `MalformedDescription` of its line.
pub fn load(lines: &Vec<String>) -> (r: Result<Machine, MachineError>)
    ensures
        match description(texts(lines@)) {
            Err(e) => r == Err::<Machine, MachineError>(e),
            Ok(d) => match table_error(d.rules, d.alphabet, d.blank) {
                Some(MachineError::MalformedDescription(k)) => 1 <= k <= d.rules.len()
                    && r == Err::<Machine, MachineError>(
                    MachineError::MalformedDescription(d.rule_lines[k - 1]),
                ),
                Some(e) => r == Err::<Machine, MachineError>(e),
                None => r matches Ok(m) && m.wf() && m.alphabet() == d.alphabet && m.blank()
                    == d.blank && m.accepting() == d.accepting && m.init_state() == d.init_state
                    && m.rules() == d.rules && m.config() == m.start(),
            },
        },
{
    let ghost t = texts(lines@);
    assert(lines@.len() == t.len());
    if lines.len() < 1 {
        return Err(MachineError::MalformedDescription(1));
    }
    let alphabet = first_chars_of(&fields_of(&lines[0]));
    if lines.len() < 2 {
        return Err(MachineError::MalformedDescription(2));
    }
    let blank_fields = fields_of(&lines[1]);
    if blank_fields.len() == 0 {
        return Err(MachineError::MalformedDescription(2));
    }
    let blank = blank_fields[0][0];
    if lines.len() < 3 {
        return Err(MachineError::MalformedDescription(3));
    }
    let accepting = numbers_of(&fields_of(&lines[2]));
    if lines.len() < 4 {
        return Err(MachineError::MalformedDescription(4));
    }
    let init_state = match first_number_of(&fields_of(&lines[3])) {
        Some(s) => s,
        None => return Err(MachineError::MalformedDescription(4)),
    };
    assert(t[1] == lines@[1]@ && t[3] == lines@[3]@);
    assert(fields(t[1]).len() > 0);
    let mut rules: Vec<Rule> = Vec::new();
    let mut rule_lines: Vec<usize> = Vec::new();
    let mut i: usize = 4;
    while i < lines.len()
        invariant
            4 <= i <= lines@.len(),
            rule_lines@ == rule_lines_upto(t, i as nat),
            rule_lines@.len() == rules@.len(),
            t == texts(lines@),
            fields(t[1]).len() > 0,
            first_number(fields(t[3])) is Some,
            rules_upto(t, i as nat) == Ok::<Seq<Rule>, MachineError>(rules@),
        decreases lines@.len() - i,
    {
        assert(t[i as int] == lines@[i as int]@);
        let chars = chars_of(lines[i].as_str());
        if chars.len() > 0 {
            match parse_rule(&chars) {
                Some(r) => {
                    rules.push(r);
                    rule_lines.push(i + 1);
                },
                None => {
                    proof {
                        assert(chars@ == t[i as int]);
                        assert(rules_upto(t, (i + 1) as nat)
                            == Err::<Seq<Rule>, MachineError>(MachineError::MalformedDescription((i + 1) as usize)));
                        lemma_rules_error_sticks(t, (i + 1) as nat, t.len());
                    }
                    return Err(MachineError::MalformedDescription(i + 1));
                },
            }
        }
        i = i + 1;
    }
    match Machine::new(alphabet, blank, accepting, init_state, rules) {
        Err(MachineError::MalformedDescription(k)) => {
            Err(MachineError::MalformedDescription(rule_lines[k - 1]))
        },
        other => other,
    }
}

proof fn lemma_rules_error_sticks(lines: Seq<Seq<char>>, n: nat, m: nat)
    requires
        n <= m,
        rules_upto(lines, n) is Err,
    ensures
        rules_upto(lines, m) == rules_upto(lines, n),
    decreases m - n,
{
    if n < m {
        lemma_rules_error_sticks(lines, n, (m - 1) as nat);
    }
}

} // verus!
