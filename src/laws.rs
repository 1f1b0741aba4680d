use vstd::prelude::*;

use crate::machine::{apply, cell, next, run, Config, Outcome};
use crate::table::{
    keys_unique, lemma_first_error_none, lookup, table_error, Action, Direction, Rule,
};

verus! {

/// `c2` follows `c` by some rule of `rules` whose key matches the state and
/// the symbol under the head.
pub open spec fn steps_to(rules: Seq<Rule>, blank: char, c: Config, c2: Config) -> bool {
    exists|i: int|
        0 <= i < rules.len() && #[trigger] rules[i].state == c.state && rules[i].read == cell(
            c,
            blank,
        ) && c2 == apply(rules[i].action(), blank, c)
}

/// `t` is a sequence of configurations in which each follows the one before
/// by a rule of `rules`.
pub open spec fn is_trace(rules: Seq<Rule>, blank: char, t: Seq<Config>) -> bool {
    forall|k: int| 0 <= k < t.len() - 1 ==> steps_to(rules, blank, #[trigger] t[k], t[k + 1])
}

/// With unique keys, a configuration has at most one successor by the rules,
/// and it is the one that the engine computes.
pub proof fn lemma_step_unique(rules: Seq<Rule>, blank: char, c: Config, c2: Config)
    requires
        keys_unique(rules),
        steps_to(rules, blank, c, c2),
    ensures
        next(rules, blank, c) == Some(c2),
{
    let i = choose|i: int|
        0 <= i < rules.len() && #[trigger] rules[i].state == c.state && rules[i].read == cell(
            c,
            blank,
        ) && c2 == apply(rules[i].action(), blank, c);
    let sym = cell(c, blank);
    assert(rules[i].state == c.state);
    let j = choose|j: int|
        0 <= j < rules.len() && #[trigger] rules[j].state == c.state && rules[j].read == sym;
    if i < j {
        assert(rules[i].state == rules[j].state);
    } else if j < i {
        assert(rules[j].state == rules[i].state);
    }
}

/// Determinism: two traces of the same length from the same configuration,
/// over rules with unique keys, are the same step by step.
pub proof fn lemma_deterministic(rules: Seq<Rule>, blank: char, t1: Seq<Config>, t2: Seq<Config>)
    requires
        keys_unique(rules),
        is_trace(rules, blank, t1),
        is_trace(rules, blank, t2),
        t1.len() == t2.len(),
        t1.len() > 0,
        t1[0] == t2[0],
    ensures
        t1 == t2,
{
    assert forall|k: int| 0 <= k < t1.len() implies t1[k] == t2[k] by {
        lemma_traces_agree_upto(rules, blank, t1, t2, k);
    }
    assert(t1 =~= t2);
}

proof fn lemma_traces_agree_upto(rules: Seq<Rule>, blank: char, t1: Seq<Config>, t2: Seq<Config>, k: int)
    requires
        keys_unique(rules),
        is_trace(rules, blank, t1),
        is_trace(rules, blank, t2),
        t1.len() == t2.len(),
        0 <= k < t1.len(),
        t1[0] == t2[0],
    ensures
        t1[k] == t2[k],
    decreases k,
{
    if k > 0 {
        lemma_traces_agree_upto(rules, blank, t1, t2, k - 1);
        assert(steps_to(rules, blank, t1[k - 1], t1[k]));
        assert(steps_to(rules, blank, t2[k - 1], t2[k]));
        lemma_step_unique(rules, blank, t1[k - 1], t1[k]);
        lemma_step_unique(rules, blank, t2[k - 1], t2[k]);
    }
}

/// A configuration whose state has no rule for any symbol halts at once,
/// whatever the step budget: the window stays exactly as it was.
pub proof fn lemma_no_rule_halts_at_once(rules: Seq<Rule>, blank: char, c: Config, n: nat)
    requires
        forall|i: int| 0 <= i < rules.len() ==> #[trigger] rules[i].state != c.state,
    ensures
        run(rules, blank, c, n) == Outcome::Halted(c),
{
    let sym = cell(c, blank);
    assert(lookup(rules, c.state, sym) is None);
}

/// Moving left from cell 0 of a non-empty window keeps the head at 0 and
/// grows the window by one blank cell at the left; the cells after it are
/// the old window with the write applied.
pub proof fn lemma_left_at_edge(a: Action, blank: char, c: Config)
    requires
        a.2 == Direction::Left,
        c.head == 0,
        c.tape.len() > 0,
    ensures
        apply(a, blank, c).head == 0,
        apply(a, blank, c).tape.len() == c.tape.len() + 1,
        apply(a, blank, c).tape[0] == blank,
        apply(a, blank, c).tape.subrange(1, c.tape.len() + 1int) == c.tape.update(0, a.1),
{
    assert(apply(a, blank, c).tape.subrange(1, c.tape.len() + 1int) =~= c.tape.update(0, a.1));
}

/// Moving right from the last cell of a non-empty window moves the head on
/// by one and grows the window by one blank cell at the right; the cells
/// before it are the old window with the write applied.
pub proof fn lemma_right_at_edge(a: Action, blank: char, c: Config)
    requires
        a.2 == Direction::Right,
        c.tape.len() > 0,
        c.head == c.tape.len() - 1,
    ensures
        apply(a, blank, c).head == c.head + 1,
        apply(a, blank, c).tape.len() == c.tape.len() + 1,
        apply(a, blank, c).tape[c.tape.len() as int] == blank,
        apply(a, blank, c).tape.subrange(0, c.tape.len() as int) == c.tape.update(c.head, a.1),
{
    assert(apply(a, blank, c).tape.subrange(0, c.tape.len() as int) =~= c.tape.update(c.head, a.1));
}

/// Round trip: where `rules` make a table, looking up the key of any of
/// them gives back exactly that rule's action.
pub proof fn lemma_lookup_round_trip(rules: Seq<Rule>, alphabet: Seq<char>, blank: char, i: int)
    requires
        table_error(rules, alphabet, blank) is None,
        0 <= i < rules.len(),
    ensures
        lookup(rules, rules[i].state, rules[i].read) == Some(rules[i].action()),
{
    lemma_first_error_none(rules, alphabet, blank, rules.len());
    assert(rules.subrange(0, rules.len() as int) =~= rules);
    let s = rules[i].state;
    let r = rules[i].read;
    assert(rules[i].state == s);
    let j = choose|j: int| 0 <= j < rules.len() && #[trigger] rules[j].state == s && rules[j].read == r;
    if i < j {
        assert(rules[i].state == rules[j].state);
    } else if j < i {
        assert(rules[j].state == rules[i].state);
    }
}

} // verus!
