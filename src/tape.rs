use vstd::prelude::*;

verus! {

/// A tape window that can grow at both ends in constant amortised time.
///
/// The cells left of the origin are kept in `left`, nearest cell last; the
/// cells from the origin on are kept in `right`. The window, as a sequence,
/// is `left` reversed followed by `right`.
pub struct Tape {
    left: Vec<char>,
    right: Vec<char>,
}

impl View for Tape {
    type V = Seq<char>;

    closed spec fn view(&self) -> Seq<char> {
        Seq::new(
            (self.left@.len() + self.right@.len()) as nat,
            |i: int|
                if i < self.left@.len() {
                    self.left@[self.left@.len() - 1 - i]
                } else {
                    self.right@[i - self.left@.len()]
                },
        )
    }
}

impl Tape {
    /// An empty window.
    pub fn new() -> (t: Tape)
        ensures
            t@ == Seq::<char>::empty(),
    {
        let t = Tape { left: Vec::new(), right: Vec::new() };
        assert(t@ =~= Seq::<char>::empty());
        t
    }

    /// Number of materialized cells.
    pub fn len(&self) -> (n: usize)
        requires
            self@.len() <= usize::MAX,
        ensures
            n == self@.len(),
    {
        self.left.len() + self.right.len()
    }

    /// The symbol in cell `i` of the window.
    pub fn get(&self, i: usize) -> (c: char)
        requires
            i < self@.len(),
        ensures
            c == self@[i as int],
    {
        let n = self.left.len();
        if i < n {
            self.left[n - 1 - i]
        } else {
            self.right[i - n]
        }
    }

    /// Overwrites cell `i` of the window with `c`.
    pub fn set(&mut self, i: usize, c: char)
        requires
            i < old(self)@.len(),
        ensures
            final(self)@ == old(self)@.update(i as int, c),
    {
        let n = self.left.len();
        if i < n {
            self.left.set(n - 1 - i, c);
        } else {
            self.right.set(i - n, c);
        }
        assert(self@ =~= old(self)@.update(i as int, c));
    }

    /// Prepends one cell holding `c`.
    pub fn grow_left(&mut self, c: char)
        ensures
            final(self)@ == seq![c] + old(self)@,
    {
        self.left.push(c);
        assert(self@ =~= seq![c] + old(self)@);
    }

    /// Appends one cell holding `c`.
    pub fn grow_right(&mut self, c: char)
        ensures
            final(self)@ == old(self)@.push(c),
    {
        self.right.push(c);
        assert(self@ =~= old(self)@.push(c));
    }

    /// Empties the window.
    pub fn clear(&mut self)
        ensures
            final(self)@ == Seq::<char>::empty(),
    {
        self.left.clear();
        self.right.clear();
        assert(self@ =~= Seq::<char>::empty());
    }

    /// The window's cells in order.
    pub fn to_vec(&self) -> (v: Vec<char>)
        ensures
            v@ == self@,
    {
        let mut v: Vec<char> = Vec::new();
        let mut k: usize = self.left.len();
        while k > 0
            invariant
                k <= self.left@.len(),
                v@ == self@.subrange(0, (self.left@.len() - k) as int),
            decreases k,
        {
            k = k - 1;
            v.push(self.left[k]);
            assert(v@ =~= self@.subrange(0, (self.left@.len() - k) as int));
        }
        let mut j: usize = 0;
        while j < self.right.len()
            invariant
                j <= self.right@.len(),
                v@ == self@.subrange(0, self.left@.len() + j),
            decreases self.right@.len() - j,
        {
            v.push(self.right[j]);
            j = j + 1;
            assert(v@ =~= self@.subrange(0, self.left@.len() + j));
        }
        assert(v@ =~= self@);
        v
    }
}

} // verus!
