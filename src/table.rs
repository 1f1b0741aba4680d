use vstd::prelude::*;

verus! {

/// The way the head moves after a write.
#[derive(Clone, Copy, Debug, PartialEq, Eq, Structural)]
pub enum Direction {
    Right,
    Left,
}

/// Why a machine could not be built, loaded or run to the end.
#[derive(Clone, Copy, Debug, PartialEq, Eq, Structural)]
pub enum MachineError {
    /// Two rules share the key `(state, symbol)`.
    DuplicateTransitionRule(usize, char),
    /// A character of an input tape lies outside the alphabet and the blank.
    InvalidTapeSymbol(char),
    /// The window would outgrow the range of `usize`.
    TapeOverflow,
    /// The run was still going when its step budget ran out.
    StepLimitReached,
    /// A direction character other than `R` or `L`.
    InvalidDirection(char),
    /// Item `n` (counting from 1) of a description is missing or malformed:
    /// a line of its text, or a rule handed to `TransitionTable::new` that
    /// reads or writes a symbol outside the alphabet and the blank.
    MalformedDescription(usize),
}

impl Direction {
    /// `R` is Right and `L` is Left; any other character is refused.
    pub fn try_from(value: char) -> (r: Result<Direction, MachineError>)
        ensures
            value == 'R' ==> r == Ok::<Direction, MachineError>(Direction::Right),
            value == 'L' ==> r == Ok::<Direction, MachineError>(Direction::Left),
            value != 'R' && value != 'L' ==> r == Err::<Direction, MachineError>(
                MachineError::InvalidDirection(value),
            ),
    {
        if value == 'R' {
            Ok(Direction::Right)
        } else if value == 'L' {
            Ok(Direction::Left)
        } else {
            Err(MachineError::InvalidDirection(value))
        }
    }
}

/// One transition: in `state` reading `read`, write `write`, move in `dir`
/// and go to `next`.
#[derive(Clone, Copy, Debug, PartialEq, Eq, Structural)]
pub struct Rule {
    pub state: usize,
    pub read: char,
    pub next: usize,
    pub write: char,
    pub dir: Direction,
}

/// What a rule does once its key matches: next state, symbol written, move.
pub type Action = (usize, char, Direction);

impl Rule {
    pub open spec fn action(self) -> Action {
        (self.next, self.write, self.dir)
    }
}

/// A symbol that may stand on the tape: one of the alphabet, or the blank.
pub open spec fn valid_symbol(alphabet: Seq<char>, blank: char, c: char) -> bool {
    alphabet.contains(c) || c == blank
}

/// Every rule reads and writes symbols that may stand on the tape.
pub open spec fn rules_use_valid_symbols(rules: Seq<Rule>, alphabet: Seq<char>, blank: char) -> bool {
    forall|i: int|
        0 <= i < rules.len() ==> valid_symbol(alphabet, blank, #[trigger] rules[i].read)
            && valid_symbol(alphabet, blank, rules[i].write)
}

/// No two rules share a key.
pub open spec fn keys_unique(rules: Seq<Rule>) -> bool {
    forall|i: int, j: int|
        0 <= i < j < rules.len() ==> !(#[trigger] rules[i].state == #[trigger] rules[j].state
            && rules[i].read == rules[j].read)
}

/// Some rule has the key `(state, sym)`.
pub open spec fn has_key(rules: Seq<Rule>, state: usize, sym: char) -> bool {
    exists|i: int| 0 <= i < rules.len() && #[trigger] rules[i].state == state && rules[i].read == sym
}

/// The action of the rule with key `(state, sym)`, if there is one.
pub open spec fn lookup(rules: Seq<Rule>, state: usize, sym: char) -> Option<Action> {
    if has_key(rules, state, sym) {
        let i = choose|i: int|
            0 <= i < rules.len() && #[trigger] rules[i].state == state && rules[i].read == sym;
        Some(rules[i].action())
    } else {
        None
    }
}

/// Whether `c` is in `alphabet` or equals `blank`.
pub fn is_valid_symbol(alphabet: &Vec<char>, blank: char, c: char) -> (r: bool)
    ensures
        r == valid_symbol(alphabet@, blank, c),
{
    if c == blank {
        return true;
    }
    let mut i: usize = 0;
    while i < alphabet.len()
        invariant
            i <= alphabet@.len(),
            forall|k: int| 0 <= k < i ==> alphabet@[k] != c,
        decreases alphabet@.len() - i,
    {
        if alphabet[i] == c {
            return true;
        }
        i = i + 1;
    }
    false
}

/// Whether some rule before index `i` has the key of rule `i`.
fn repeats_earlier_key(rules: &Vec<Rule>, i: usize) -> (r: bool)
    requires
        i < rules@.len(),
    ensures
        r == exists|k: int|
            0 <= k < i && #[trigger] rules@[k].state == rules@[i as int].state && rules@[k].read
                == rules@[i as int].read,
{
    let key = rules[i];
    let mut j: usize = 0;
    while j < i
        invariant
            i < rules@.len(),
            j <= i,
            key == rules@[i as int],
            forall|k: int|
                0 <= k < j ==> !(#[trigger] rules@[k].state == key.state && rules@[k].read
                    == key.read),
        decreases i - j,
    {
        if rules[j].state == key.state && rules[j].read == key.read {
            return true;
        }
        j = j + 1;
    }
    false
}

/// A deterministic mapping from `(state, symbol)` to an action.
pub struct TransitionTable {
    rules: Vec<Rule>,
}

impl View for TransitionTable {
    type V = Seq<Rule>;

    closed spec fn view(&self) -> Seq<Rule> {
        self.rules@
    }
}

impl TransitionTable {
    /// No two rules share a key.
    pub closed spec fn wf(&self) -> bool {
        keys_unique(self.rules@)
    }

    /// Builds a table from `rules`. Fails on the first rule, in order, that
    /// reads or writes a symbol outside `alphabet` and `blank`
    /// (`MalformedDescription` with the rule's number, counting from 1), or
    /// that repeats the key of an earlier rule (`DuplicateTransitionRule`).
    pub fn new(alphabet: &Vec<char>, blank: char, rules: Vec<Rule>) -> (r: Result<
        TransitionTable,
        MachineError,
    >)
        ensures
            match table_error(rules@, alphabet@, blank) {
                None => r matches Ok(t) && t.wf() && t@ == rules@,
                Some(e) => r == Err::<TransitionTable, MachineError>(e),
            },
            table_error(rules@, alphabet@, blank) is None <==> rules_use_valid_symbols(
                rules@,
                alphabet@,
                blank,
            ) && keys_unique(rules@),
            error_explained(rules@, alphabet@, blank),
    {
        proof {
            assert(rules@.len() == rules.len());
            lemma_error_explained(rules@, alphabet@, blank);
        }
        let mut i: usize = 0;
        while i < rules.len()
            invariant
                i <= rules@.len(),
                first_error(rules@, alphabet@, blank, i as nat) is None,
            decreases rules@.len() - i,
        {
            let r = rules[i];
            let mut fault: Option<MachineError> = None;
            if !is_valid_symbol(alphabet, blank, r.read) || !is_valid_symbol(alphabet, blank, r.write) {
                fault = Some(MachineError::MalformedDescription(i + 1));
            } else if repeats_earlier_key(&rules, i) {
                fault = Some(MachineError::DuplicateTransitionRule(r.state, r.read));
            }
            assert(fault == rule_fault(rules@, alphabet@, blank, i as int));
            if let Some(e) = fault {
                proof {
                    lemma_first_error_sticks(
                        rules@,
                        alphabet@,
                        blank,
                        (i + 1) as nat,
                        rules@.len(),
                    );
                    lemma_first_error_none(rules@, alphabet@, blank, rules@.len());
                }
                return Err(e);
            }
            i = i + 1;
        }
        assert(rules@.subrange(0, i as int) =~= rules@);
        proof {
            lemma_first_error_none(rules@, alphabet@, blank, rules@.len());
        }
        Ok(TransitionTable { rules })
    }

    /// The action for `(state, sym)`, or `None` where no rule has that key.
    pub fn get(&self, state: usize, sym: char) -> (r: Option<Action>)
        requires
            self.wf(),
        ensures
            r == lookup(self@, state, sym),
    {
        let mut i: usize = 0;
        while i < self.rules.len()
            invariant
                i <= self.rules@.len(),
                keys_unique(self.rules@),
                forall|k: int|
                    0 <= k < i ==> !(#[trigger] self.rules@[k].state == state
                        && self.rules@[k].read == sym),
            decreases self.rules@.len() - i,
        {
            let r = self.rules[i];
            if r.state == state && r.read == sym {
                proof {
                    assert(self.rules@[i as int].state == state);
                    assert(has_key(self@, state, sym));
                    let j = choose|j: int|
                        0 <= j < self.rules@.len() && #[trigger] self.rules@[j].state == state
                            && self.rules@[j].read == sym;
                    if j != i as int {
                        if j < i {
                            assert(self.rules@[j].state == self.rules@[i as int].state);
                        } else {
                            assert(self.rules@[i as int].state == self.rules@[j].state);
                        }
                    }
                    assert(j == i as int);
                    assert(lookup(self@, state, sym) == Some(self.rules@[j].action()));
                }
                return Some((r.next, r.write, r.dir));
            }
            i = i + 1;
        }
        None
    }

    /// Number of rules.
    pub fn len(&self) -> (n: usize)
        ensures
            n == self@.len(),
    {
        self.rules.len()
    }
}

/// What is wrong with rule `i` given the rules before it: a read or write
/// symbol outside the alphabet and the blank (the description is malformed
/// at rule `i + 1`, counting from 1), else a key that an earlier rule has.
pub open spec fn rule_fault(rules: Seq<Rule>, alphabet: Seq<char>, blank: char, i: int) -> Option<
    MachineError,
> {
    let r = rules[i];
    if !valid_symbol(alphabet, blank, r.read) || !valid_symbol(alphabet, blank, r.write) {
        Some(MachineError::MalformedDescription((i + 1) as usize))
    } else if exists|k: int| 0 <= k < i && #[trigger] rules[k].state == r.state && rules[k].read == r.read {
        Some(MachineError::DuplicateTransitionRule(r.state, r.read))
    } else {
        None
    }
}

/// The fault of the first faulty rule among the first `n`.
pub open spec fn first_error(rules: Seq<Rule>, alphabet: Seq<char>, blank: char, n: nat) -> Option<
    MachineError,
>
    decreases n,
{
    if n == 0 {
        None
    } else {
        match first_error(rules, alphabet, blank, (n - 1) as nat) {
            Some(e) => Some(e),
            None => rule_fault(rules, alphabet, blank, n - 1),
        }
    }
}

/// Why `rules` make no table over `alphabet` and `blank`, if they do not.
pub open spec fn table_error(rules: Seq<Rule>, alphabet: Seq<char>, blank: char) -> Option<MachineError> {
    first_error(rules, alphabet, blank, rules.len())
}

/// Rule `k` (counting from 1) is the first faulty rule, and it reads or
/// writes a symbol outside the alphabet and the blank.
pub open spec fn bad_symbol_at(rules: Seq<Rule>, alphabet: Seq<char>, blank: char, k: int) -> bool {
    &&& 1 <= k <= rules.len()
    &&& first_error(rules, alphabet, blank, (k - 1) as nat) is None
    &&& !(valid_symbol(alphabet, blank, rules[k - 1].read) && valid_symbol(
        alphabet,
        blank,
        rules[k - 1].write,
    ))
}

/// Rule `i` (counting from 0) is the first faulty rule, and an earlier rule
/// has its key.
pub open spec fn repeated_key_at(rules: Seq<Rule>, alphabet: Seq<char>, blank: char, i: int) -> bool {
    &&& 0 <= i < rules.len()
    &&& first_error(rules, alphabet, blank, i as nat) is None
    &&& valid_symbol(alphabet, blank, rules[i].read)
    &&& valid_symbol(alphabet, blank, rules[i].write)
    &&& exists|k: int|
        0 <= k < i && #[trigger] rules[k].state == rules[i].state && rules[k].read == rules[i].read
}

/// The two ways in which rules make no table: a malformed rule with a symbol
/// outside the alphabet and the blank, named by its number counting from 1,
/// or a repeated key, named by the key.
pub open spec fn error_explained(rules: Seq<Rule>, alphabet: Seq<char>, blank: char) -> bool {
    match table_error(rules, alphabet, blank) {
        None => true,
        Some(MachineError::MalformedDescription(k)) => bad_symbol_at(rules, alphabet, blank, k as int),
        Some(MachineError::DuplicateTransitionRule(s, c)) => exists|i: int|
            repeated_key_at(rules, alphabet, blank, i) && #[trigger] rules[i].state == s
                && rules[i].read == c,
        Some(_) => false,
    }
}

proof fn lemma_first_error_at(rules: Seq<Rule>, alphabet: Seq<char>, blank: char, n: nat)
    requires
        n <= rules.len(),
        first_error(rules, alphabet, blank, n) is Some,
    ensures
        exists|i: int|
            0 <= i < n && first_error(rules, alphabet, blank, i as nat) is None && #[trigger] rule_fault(
                rules,
                alphabet,
                blank,
                i,
            ) == first_error(rules, alphabet, blank, n),
    decreases n,
{
    if first_error(rules, alphabet, blank, (n - 1) as nat) is Some {
        lemma_first_error_at(rules, alphabet, blank, (n - 1) as nat);
    } else {
        assert(rule_fault(rules, alphabet, blank, n - 1) == first_error(rules, alphabet, blank, n));
    }
}

/// Every error of construction is one of the two that `error_explained`
/// describes.
pub proof fn lemma_error_explained(rules: Seq<Rule>, alphabet: Seq<char>, blank: char)
    requires
        rules.len() <= usize::MAX,
    ensures
        error_explained(rules, alphabet, blank),
{
    if table_error(rules, alphabet, blank) is Some {
        lemma_first_error_at(rules, alphabet, blank, rules.len());
        let i = choose|i: int|
            0 <= i < rules.len() && first_error(rules, alphabet, blank, i as nat) is None
                && #[trigger] rule_fault(rules, alphabet, blank, i) == table_error(
                rules,
                alphabet,
                blank,
            );
        assert(((i + 1) as usize) as int == i + 1);
        if valid_symbol(alphabet, blank, rules[i].read) && valid_symbol(alphabet, blank, rules[i].write) {
            assert(repeated_key_at(rules, alphabet, blank, i));
        }
    }
}

proof fn lemma_first_error_sticks(rules: Seq<Rule>, alphabet: Seq<char>, blank: char, n: nat, m: nat)
    requires
        n <= m,
        first_error(rules, alphabet, blank, n) is Some,
    ensures
        first_error(rules, alphabet, blank, m) == first_error(rules, alphabet, blank, n),
    decreases m - n,
{
    if n < m {
        lemma_first_error_sticks(rules, alphabet, blank, n, (m - 1) as nat);
    }
}

/// The first `n` rules have no fault exactly when they use valid symbols
/// and their keys are unique.
pub proof fn lemma_first_error_none(rules: Seq<Rule>, alphabet: Seq<char>, blank: char, n: nat)
    requires
        n <= rules.len(),
    ensures
        first_error(rules, alphabet, blank, n) is None <==> (rules_use_valid_symbols(
            rules.subrange(0, n as int),
            alphabet,
            blank,
        ) && keys_unique(rules.subrange(0, n as int))),
    decreases n,
{
    let p = rules.subrange(0, n as int);
    if n > 0 {
        let q = rules.subrange(0, n - 1);
        lemma_first_error_none(rules, alphabet, blank, (n - 1) as nat);
        assert(p =~= q.push(rules[n - 1]));
        if first_error(rules, alphabet, blank, n) is None {
            assert forall|i: int, j: int| 0 <= i < j < p.len() implies !(#[trigger] p[i].state
                == #[trigger] p[j].state && p[i].read == p[j].read) by {
                if j < n - 1 {
                    assert(q[i] == p[i] && q[j] == p[j]);
                } else {
                    assert(p[i] == rules[i]);
                }
            }
            assert forall|i: int| 0 <= i < p.len() implies valid_symbol(alphabet, blank, #[trigger] p[i].read)
                && valid_symbol(alphabet, blank, p[i].write) by {
                if i < n - 1 {
                    assert(q[i] == p[i]);
                }
            }
        } else {
            if first_error(rules, alphabet, blank, (n - 1) as nat) is None {
                let r = rules[n - 1];
                if valid_symbol(alphabet, blank, r.read) && valid_symbol(alphabet, blank, r.write) {
                    let k = choose|k: int| 0 <= k < n - 1 && #[trigger] rules[k].state == r.state && rules[k].read == r.read;
                    assert(p[k].state == p[n - 1].state);
                } else {
                    assert(p[n - 1] == r);
                }
            } else {
                if keys_unique(p) && rules_use_valid_symbols(p, alphabet, blank) {
                    assert forall|i: int, j: int| 0 <= i < j < q.len() implies !(#[trigger] q[i].state
                        == #[trigger] q[j].state && q[i].read == q[j].read) by {
                        assert(q[i] == p[i] && q[j] == p[j]);
                    }
                    assert forall|i: int| 0 <= i < q.len() implies valid_symbol(alphabet, blank, #[trigger] q[i].read)
                        && valid_symbol(alphabet, blank, q[i].write) by {
                        assert(q[i] == p[i]);
                    }
                }
            }
        }
    }
}

} // verus!
