use std::collections::HashSet;
use vstd::prelude::*;

use crate::table::{
    is_valid_symbol, lookup, table_error, error_explained, rules_use_valid_symbols, valid_symbol, Action, Direction,
    MachineError, Rule, TransitionTable,
};
use crate::laws::{lemma_left_at_edge, lemma_right_at_edge};
use crate::tape::Tape;

verus! {

broadcast use vstd::std_specs::hash::group_hash_axioms;

/// A configuration of the machine: its state, the materialized window and
/// the head's index into it. An empty window has its head at 0, over a blank
/// cell that is not yet materialized.
pub struct Config {
    pub state: usize,
    pub tape: Seq<char>,
    pub head: int,
}

/// The head lies inside the window, or at 0 over an empty one.
pub open spec fn head_in_window(c: Config) -> bool {
    if c.tape.len() == 0 {
        c.head == 0
    } else {
        0 <= c.head < c.tape.len()
    }
}

/// The symbol under the head; blank over an empty window.
pub open spec fn cell(c: Config, blank: char) -> char {
    if 0 <= c.head < c.tape.len() {
        c.tape[c.head]
    } else {
        blank
    }
}

/// The configuration after applying action `a` to `c`: write, then move,
/// growing the window by one blank cell where the head would leave it.
pub open spec fn apply(a: Action, blank: char, c: Config) -> Config {
    let base = if c.tape.len() == 0 {
        seq![blank]
    } else {
        c.tape
    };
    let written = base.update(c.head, a.1);
    match a.2 {
        Direction::Right => if c.head + 1 == written.len() {
            Config { state: a.0, tape: written.push(blank), head: c.head + 1 }
        } else {
            Config { state: a.0, tape: written, head: c.head + 1 }
        },
        Direction::Left => if c.head == 0 {
            Config { state: a.0, tape: seq![blank] + written, head: 0 }
        } else {
            Config { state: a.0, tape: written, head: c.head - 1 }
        },
    }
}

/// The successor of `c`, or `None` where no rule matches: the machine halts.
pub open spec fn next(rules: Seq<Rule>, blank: char, c: Config) -> Option<Config> {
    match lookup(rules, c.state, cell(c, blank)) {
        None => None,
        Some(a) => Some(apply(a, blank, c)),
    }
}

/// How a run with a step budget ends, with the configuration it ends in.
pub enum Outcome {
    /// No rule matched.
    Halted(Config),
    /// The next step would make the window longer than `usize::MAX`.
    Overflow(Config),
    /// A rule still matched when the budget was spent.
    OutOfSteps(Config),
}

/// The run from `c` with a budget of `n` steps.
pub open spec fn run(rules: Seq<Rule>, blank: char, c: Config, n: nat) -> Outcome
    decreases n,
{
    match next(rules, blank, c) {
        None => Outcome::Halted(c),
        Some(c2) => if n == 0 {
            Outcome::OutOfSteps(c)
        } else if c2.tape.len() > usize::MAX {
            Outcome::Overflow(c)
        } else {
            run(rules, blank, c2, (n - 1) as nat)
        },
    }
}

/// A Turing machine: an immutable definition (alphabet, blank, accepting
/// states, initial state, transition table) and the configuration of the
/// current run.
pub struct Machine {
    tape: Tape,
    head: usize,
    alphabet: Vec<char>,
    blank: char,
    accepting: HashSet<usize>,
    init_state: usize,
    state: usize,
    transitions: TransitionTable,
}

impl Machine {
    /// The configuration of the current run.
    pub closed spec fn config(&self) -> Config {
        Config { state: self.state, tape: self.tape@, head: self.head as int }
    }

    pub closed spec fn rules(&self) -> Seq<Rule> {
        self.transitions@
    }

    pub closed spec fn alphabet(&self) -> Seq<char> {
        self.alphabet@
    }

    pub closed spec fn blank(&self) -> char {
        self.blank
    }

    pub closed spec fn accepting(&self) -> Set<usize> {
        self.accepting@
    }

    pub closed spec fn init_state(&self) -> usize {
        self.init_state
    }

    /// The definition is valid and the current configuration fits it.
    pub closed spec fn wf(&self) -> bool {
        &&& self.transitions.wf()
        &&& rules_use_valid_symbols(self.transitions@, self.alphabet@, self.blank)
        &&& forall|i: int|
            0 <= i < self.tape@.len() ==> valid_symbol(
                self.alphabet@,
                self.blank,
                #[trigger] self.tape@[i],
            )
        &&& head_in_window(self.config())
        &&& self.tape@.len() <= usize::MAX
    }

    /// What a valid machine guarantees of its configuration: the head lies in
    /// the window (at 0 over an empty one), the window fits in `usize`, and
    /// every cell holds a symbol of the alphabet or the blank.
    pub proof fn lemma_wf(&self)
        requires
            self.wf(),
        ensures
            head_in_window(self.config()),
            self.config().tape.len() <= usize::MAX,
            forall|i: int|
                0 <= i < self.config().tape.len() ==> valid_symbol(
                    self.alphabet(),
                    self.blank(),
                    #[trigger] self.config().tape[i],
                ),
    {
    }

    /// `self` and `other` share their definition.
    pub open spec fn same_definition(&self, other: &Machine) -> bool {
        &&& self.rules() == other.rules()
        &&& self.alphabet() == other.alphabet()
        &&& self.blank() == other.blank()
        &&& self.accepting() == other.accepting()
        &&& self.init_state() == other.init_state()
    }

    /// The configuration that the machine starts each run in, before the
    /// input is loaded.
    pub open spec fn start(&self) -> Config {
        Config { state: self.init_state(), tape: Seq::empty(), head: 0 }
    }

    /// A machine over `alphabet` and `blank` that accepts in the states of
    /// `accepting`, starts in `init_state` and follows `rules`. Fails where
    /// the rules do not make a valid table, as `TransitionTable::new` does:
    /// `MalformedDescription(k)` where rule `k` (counting from 1) reads or
    /// writes a symbol outside the alphabet and the blank, and
    /// `DuplicateTransitionRule` where a key repeats.
    pub fn new(
        alphabet: Vec<char>,
        blank: char,
        accepting: HashSet<usize>,
        init_state: usize,
        rules: Vec<Rule>,
    ) -> (r: Result<Machine, MachineError>)
        ensures
            match r {
                Ok(m) => {
                    &&& m.wf()
                    &&& m.rules() == rules@
                    &&& m.alphabet() == alphabet@
                    &&& m.blank() == blank
                    &&& m.accepting() == accepting@
                    &&& m.init_state() == init_state
                    &&& m.config() == m.start()
                },
                Err(_) => true,
            },
            match table_error(rules@, alphabet@, blank) {
                None => r is Ok,
                Some(e) => r == Err::<Machine, MachineError>(e),
            },
            error_explained(rules@, alphabet@, blank),
    {
        let transitions = match TransitionTable::new(&alphabet, blank, rules) {
            Ok(t) => t,
            Err(e) => return Err(e),
        };
        let m = Machine {
            tape: Tape::new(),
            head: 0,
            alphabet,
            blank,
            accepting,
            init_state,
            state: init_state,
            transitions,
        };
        Ok(m)
    }

    /// The action that the next step would apply, or `None` where the machine
    /// has halted.
    pub fn next_action(&self) -> (r: Option<Action>)
        requires
            self.wf(),
        ensures
            r == lookup(self.rules(), self.config().state, cell(self.config(), self.blank())),
    {
        let sym = if self.tape.len() == 0 {
            self.blank
        } else {
            self.tape.get(self.head)
        };
        self.transitions.get(self.state, sym)
    }

    /// Performs one step. `Ok(true)`: a rule applied and the machine moved to
    /// the successor configuration. `Ok(false)`: no rule matched; the machine
    /// has halted and nothing changed. `Err(TapeOverflow)`: the step would make
    /// the window longer than `usize::MAX`; nothing changed. Moving left from
    /// cell 0, or right from the last cell, of a non-empty window grows it by
    /// exactly one blank cell at that end.
    pub fn read(&mut self) -> (r: Result<bool, MachineError>)
        requires
            old(self).wf(),
        ensures
            final(self).wf(),
            final(self).same_definition(old(self)),
            match next(old(self).rules(), old(self).blank(), old(self).config()) {
                None => r == Ok::<bool, MachineError>(false)
                    && final(self).config() == old(self).config(),
                Some(c2) => if c2.tape.len() > usize::MAX {
                    r == Err::<bool, MachineError>(MachineError::TapeOverflow)
                        && final(self).config() == old(self).config()
                } else {
                    r == Ok::<bool, MachineError>(true) && final(self).config() == c2
                },
            },
            ({
                let c = old(self).config();
                let a = lookup(old(self).rules(), c.state, cell(c, old(self).blank()));
                let act = a->0;
                (c.tape.len() > 0 && c.head == 0 && a is Some && act.2 == Direction::Left
                    && c.tape.len() < usize::MAX) ==> {
                    let d = final(self).config();
                    &&& r == Ok::<bool, MachineError>(true)
                    &&& d.state == act.0
                    &&& d.head == 0
                    &&& d.tape.len() == c.tape.len() + 1
                    &&& d.tape[0] == old(self).blank()
                    &&& d.tape.subrange(1, d.tape.len() as int) == c.tape.update(0, act.1)
                }
            }),
            ({
                let c = old(self).config();
                let a = lookup(old(self).rules(), c.state, cell(c, old(self).blank()));
                let act = a->0;
                (c.tape.len() > 0 && c.head == c.tape.len() - 1 && a is Some && act.2
                    == Direction::Right && c.tape.len() < usize::MAX) ==> {
                    let d = final(self).config();
                    &&& r == Ok::<bool, MachineError>(true)
                    &&& d.state == act.0
                    &&& d.head == c.head + 1
                    &&& d.tape.len() == c.tape.len() + 1
                    &&& d.tape[c.tape.len() as int] == old(self).blank()
                    &&& d.tape.subrange(0, c.tape.len() as int) == c.tape.update(c.head, act.1)
                }
            }),
    {
        let (next_state, write, dir) = match self.next_action() {
            None => return Ok(false),
            Some(a) => a,
        };
        let ghost c = self.config();
        let ghost a = (next_state, write, dir);
        proof {
            if c.tape.len() > 0 && c.head == 0 && dir == Direction::Left {
                lemma_left_at_edge(a, self.blank, c);
            }
            if c.tape.len() > 0 && c.head == c.tape.len() - 1 && dir == Direction::Right {
                lemma_right_at_edge(a, self.blank, c);
            }
        }
        proof {
            let i = choose|i: int|
                0 <= i < self.transitions@.len() && #[trigger] self.transitions@[i].state
                    == c.state && self.transitions@[i].read == cell(c, self.blank);
            assert(self.transitions@[i].write == write);
        }
        let n = self.tape.len();
        let grows = match dir {
            Direction::Right => n == 0 || self.head == n - 1,
            Direction::Left => self.head == 0,
        };
        if grows && n == usize::MAX {
            return Err(MachineError::TapeOverflow);
        }
        if n == 0 {
            self.tape.grow_right(self.blank);
        }
        self.tape.set(self.head, write);
        self.state = next_state;
        match dir {
            Direction::Right => {
                if grows {
                    self.tape.grow_right(self.blank);
                }
                self.head = self.head + 1;
            },
            Direction::Left => {
                if grows {
                    self.tape.grow_left(self.blank);
                } else {
                    self.head = self.head - 1;
                }
            },
        }
        assert(self.config().tape =~= apply(a, self.blank, c).tape);
        Ok(true)
    }

    /// Runs the machine from its current configuration until no rule
    /// matches, for at most `max_steps` steps. On halting, returns whether the
    /// halting state is accepting.
    pub fn execute(&mut self, max_steps: u64) -> (r: Result<bool, MachineError>)
        requires
            old(self).wf(),
        ensures
            final(self).wf(),
            final(self).same_definition(old(self)),
            match run(old(self).rules(), old(self).blank(), old(self).config(), max_steps as nat) {
                Outcome::Halted(h) => final(self).config() == h && r == Ok::<bool, MachineError>(
                    old(self).accepting().contains(h.state),
                ),
                Outcome::Overflow(c) => final(self).config() == c && r == Err::<bool, MachineError>(
                    MachineError::TapeOverflow,
                ),
                Outcome::OutOfSteps(c) => final(self).config() == c && r == Err::<
                    bool,
                    MachineError,
                >(MachineError::StepLimitReached),
            },
    {
        let mut fuel: u64 = max_steps;
        loop
            invariant
                self.wf(),
                self.same_definition(old(self)),
                run(self.rules(), self.blank(), self.config(), fuel as nat) == run(
                    old(self).rules(),
                    old(self).blank(),
                    old(self).config(),
                    max_steps as nat,
                ),
            decreases fuel,
        {
            if fuel == 0 {
                if self.next_action().is_some() {
                    return Err(MachineError::StepLimitReached);
                }
                return Ok(self.accepting.contains(&self.state));
            }
            match self.read() {
                Ok(true) => {
                    fuel = fuel - 1;
                },
                Ok(false) => {
                    return Ok(self.accepting.contains(&self.state));
                },
                Err(e) => {
                    return Err(e);
                },
            }
        }
    }

    /// Whether the current state is accepting.
    pub fn accepted(&self) -> (r: bool)
        ensures
            r == self.accepting().contains(self.config().state),
    {
        self.accepting.contains(&self.state)
    }

    /// Returns to the start of a run: the initial state, an empty window and
    /// the head at 0.
    pub fn reset(&mut self)
        requires
            old(self).wf(),
        ensures
            final(self).wf(),
            final(self).same_definition(old(self)),
            final(self).config() == old(self).start(),
    {
        self.state = self.init_state;
        self.head = 0;
        self.tape.clear();
    }

    /// Appends the characters of `input` to the window. Every character must
    /// be in the alphabet or be the blank: otherwise the first one that is not
    /// is reported and nothing changes. A window that would outgrow
    /// `usize::MAX` cells is refused too.
    pub fn extend(&mut self, input: &str) -> (r: Result<(), MachineError>)
        requires
            old(self).wf(),
        ensures
            final(self).wf(),
            final(self).same_definition(old(self)),
            r is Ok ==> final(self).config() == (Config {
                tape: old(self).config().tape + input@,
                ..old(self).config()
            }),
            r is Err ==> final(self).config() == old(self).config(),
            match r {
                Ok(()) => all_valid(input@, old(self).alphabet(), old(self).blank()),
                Err(MachineError::InvalidTapeSymbol(c)) => exists|i: int|
                    first_invalid_at(input@, old(self).alphabet(), old(self).blank(), i)
                        && #[trigger] input@[i] == c,
                Err(MachineError::TapeOverflow) => all_valid(
                    input@,
                    old(self).alphabet(),
                    old(self).blank(),
                ) && old(self).config().tape.len() + input@.len() > usize::MAX,
                Err(_) => false,
            },
            all_valid(input@, old(self).alphabet(), old(self).blank())
                && old(self).config().tape.len() + input@.len() <= usize::MAX ==> r is Ok,
    {
        let chars = chars_of(input);
        let mut i: usize = 0;
        while i < chars.len()
            invariant
                chars@ == input@,
                i <= chars@.len(),
                self.wf(),
                self.config() == old(self).config(),
                self.same_definition(old(self)),
                forall|k: int| 0 <= k < i ==> valid_symbol(self.alphabet@, self.blank, #[trigger] chars@[k]),
            decreases chars@.len() - i,
        {
            let c = chars[i];
            if !is_valid_symbol(&self.alphabet, self.blank, c) {
                assert(first_invalid_at(input@, self.alphabet@, self.blank, i as int));
                return Err(MachineError::InvalidTapeSymbol(c));
            }
            i = i + 1;
        }
        if chars.len() > usize::MAX - self.tape.len() {
            return Err(MachineError::TapeOverflow);
        }
        let ghost old_tape = self.tape@;
        let mut j: usize = 0;
        while j < chars.len()
            invariant
                chars@ == input@,
                j <= chars@.len(),
                self.same_definition(old(self)),
                self.transitions.wf(),
                rules_use_valid_symbols(self.transitions@, self.alphabet@, self.blank),
                self.state == old(self).config().state,
                self.head == old(self).config().head,
                head_in_window(self.config()),
                old_tape == old(self).config().tape,
                old_tape.len() + chars@.len() <= usize::MAX,
                self.tape@ == old_tape + chars@.subrange(0, j as int),
                forall|k: int| 0 <= k < chars@.len() ==> valid_symbol(self.alphabet@, self.blank, #[trigger] chars@[k]),
                forall|k: int| 0 <= k < old_tape.len() ==> valid_symbol(self.alphabet@, self.blank, #[trigger] old_tape[k]),
            decreases chars@.len() - j,
        {
            self.tape.grow_right(chars[j]);
            j = j + 1;
            assert(self.tape@ =~= old_tape + chars@.subrange(0, j as int));
        }
        assert(chars@.subrange(0, j as int) =~= chars@);
        assert forall|k: int| 0 <= k < self.tape@.len() implies valid_symbol(
            self.alphabet@,
            self.blank,
            #[trigger] self.tape@[k],
        ) by {
            if k >= old_tape.len() {
                assert(self.tape@[k] == chars@[k - old_tape.len()]);
            }
        }
        Ok(())
    }

    /// The current configuration as text: the window, with the state in
    /// parentheses just before the cell under the head.
    pub fn describe(&self) -> (s: String)
        requires
            self.wf(),
        ensures
            s@ == rendering(self.config()),
    {
        let cells = self.tape.to_vec();
        let mut out: Vec<char> = Vec::new();
        let mut i: usize = 0;
        while i < cells.len()
            invariant
                cells@ == self.tape@,
                head_in_window(self.config()),
                i <= cells@.len(),
                out@ == rendering(Config { tape: cells@.subrange(0, i as int), ..self.config() }),
            decreases cells@.len() - i,
        {
            let ghost before = out@;
            if i == self.head {
                out.push('(');
                let digits = decimal_digits(self.state);
                let mut k: usize = 0;
                while k < digits.len()
                    invariant
                        k <= digits@.len(),
                        out@ == before + seq!['('] + digits@.subrange(0, k as int),
                    decreases digits@.len() - k,
                {
                    out.push(digits[k]);
                    k = k + 1;
                    assert(out@ =~= before + seq!['('] + digits@.subrange(0, k as int));
                }
                out.push(')');
                assert(digits@.subrange(0, k as int) =~= digits@);
            }
            out.push(cells[i]);
            i = i + 1;
            proof {
                let c = self.config();
                let p = cells@.subrange(0, i as int);
                let q = cells@.subrange(0, i - 1);
                assert(p =~= q.push(cells@[i - 1]));
                if (i - 1) as int == c.head {
                    assert(p.subrange(0, c.head) =~= q);
                    assert(p.subrange(c.head, p.len() as int) =~= seq![cells@[i - 1]]);
                    assert(q.len() <= c.head);
                    assert(out@ =~= q + seq!['('] + decimal(c.state as nat) + seq![')'] + seq![cells@[i - 1]]);
                } else if (i - 1) as int > c.head {
                    assert(p.subrange(0, c.head) =~= q.subrange(0, c.head));
                    assert(p.subrange(c.head, p.len() as int) =~= q.subrange(c.head, q.len() as int).push(cells@[i - 1]));
                    assert(out@ =~= rendering(Config { tape: p, ..c }));
                } else {
                    assert(out@ =~= p);
                }
            }
        }
        assert(cells@.subrange(0, i as int) =~= cells@);
        chars_to_string(&out)
    }

    /// The materialized window as text.
    pub fn tape(&self) -> (s: String)
        ensures
            s@ == self.config().tape,
    {
        chars_to_string(&self.tape.to_vec())
    }
}

/// The decimal digit for `d`, which is below 10.
pub open spec fn digit(d: nat) -> char {
    if d == 0 { '0' } else if d == 1 { '1' } else if d == 2 { '2' } else if d == 3 { '3' }
    else if d == 4 { '4' } else if d == 5 { '5' } else if d == 6 { '6' } else if d == 7 { '7' }
    else if d == 8 { '8' } else { '9' }
}

/// `n` written in decimal, without leading zeros.
pub open spec fn decimal(n: nat) -> Seq<char>
    decreases n,
{
    if n < 10 {
        seq![digit(n)]
    } else {
        decimal(n / 10).push(digit(n % 10))
    }
}

/// The text of configuration `c`: the window's cells in order, with the
/// state in decimal between parentheses just before the cell under the head.
/// An empty window renders as empty text.
pub open spec fn rendering(c: Config) -> Seq<char> {
    if 0 <= c.head < c.tape.len() {
        c.tape.subrange(0, c.head) + seq!['('] + decimal(c.state as nat) + seq![')']
            + c.tape.subrange(c.head, c.tape.len() as int)
    } else {
        c.tape
    }
}

/// The decimal digits of `n`.
fn decimal_digits(n: usize) -> (v: Vec<char>)
    ensures
        v@ == decimal(n as nat),
    decreases n,
{
    let d: usize = n % 10;
    let c = if d == 0 { '0' } else if d == 1 { '1' } else if d == 2 { '2' } else if d == 3 { '3' }
    else if d == 4 { '4' } else if d == 5 { '5' } else if d == 6 { '6' } else if d == 7 { '7' }
    else if d == 8 { '8' } else { '9' };
    if n < 10 {
        vec![c]
    } else {
        let mut v = decimal_digits(n / 10);
        v.push(c);
        v
    }
}

/// Every character of `s` may stand on the tape.
pub open spec fn all_valid(s: Seq<char>, alphabet: Seq<char>, blank: char) -> bool {
    forall|i: int| 0 <= i < s.len() ==> valid_symbol(alphabet, blank, #[trigger] s[i])
}

/// `s[i]` is the first character of `s` that may not stand on the tape.
pub open spec fn first_invalid_at(s: Seq<char>, alphabet: Seq<char>, blank: char, i: int) -> bool {
    &&& 0 <= i < s.len()
    &&& !valid_symbol(alphabet, blank, s[i])
    &&& forall|k: int| 0 <= k < i ==> valid_symbol(alphabet, blank, #[trigger] s[k])
}

/// The characters of `s`, in order.
pub(crate) fn chars_of(s: &str) -> (v: Vec<char>)
    ensures
        v@ == s@,
{
    let mut v: Vec<char> = Vec::new();
    for c in it: s.chars()
        invariant
            v@ == it.seq().subrange(0, it.index() as int),
    {
        v.push(c);
    }
    v
}

/// Relies on std's `FromIterator<char>` for `String`: the string holds the
/// characters in order.
#[verifier::external_body]
fn chars_to_string(v: &Vec<char>) -> (s: String)
    ensures
        s@ == v@,
{
    v.iter().collect()
}

} // verus!
