use vstd::prelude::*;

use crate::symbol::{all_ternary, is_ternary};

verus! {

/// Number of occurrences of `v` in `s`.
pub open spec fn count_of(s: Seq<i8>, v: i8) -> nat
    decreases s.len(),
{
    if s.len() == 0 {
        0
    } else {
        count_of(s.drop_last(), v) + if s.last() == v { 1nat } else { 0nat }
    }
}

/// The tally of a sequence: occurrences of -1, 0 and +1, in that order.
pub open spec fn tally(s: Seq<i8>) -> (nat, nat, nat) {
    (count_of(s, -1i8), count_of(s, 0i8), count_of(s, 1i8))
}

/// Occurrence counts of the three ternary symbols, indexed as `[-1, 0, +1]`.
#[derive(Clone, Copy, Debug, PartialEq, Eq)]
pub struct SymbolCounts {
    /// Occurrences of -1.
    pub negative: usize,
    /// Occurrences of 0.
    pub neutral: usize,
    /// Occurrences of +1.
    pub positive: usize,
}

impl View for SymbolCounts {
    type V = (nat, nat, nat);

    open spec fn view(&self) -> (nat, nat, nat) {
        (self.negative as nat, self.neutral as nat, self.positive as nat)
    }
}

/// The sum of the three components of a tally.
pub open spec fn tally_total(t: (nat, nat, nat)) -> nat {
    t.0 + t.1 + t.2
}

pub proof fn lemma_count_of_le_len(s: Seq<i8>, v: i8)
    ensures
        count_of(s, v) <= s.len(),
    decreases s.len(),
{
    if s.len() > 0 {
        lemma_count_of_le_len(s.drop_last(), v);
    }
}

/// Appending one symbol raises exactly its own count by one.
pub proof fn lemma_count_of_push(s: Seq<i8>, x: i8, v: i8)
    ensures
        count_of(s.push(x), v) == count_of(s, v) + if x == v { 1nat } else { 0nat },
{
    assert(s.push(x).drop_last() =~= s);
}

/// Prepending one symbol raises exactly its own count by one.
pub proof fn lemma_count_of_prepend(x: i8, s: Seq<i8>, v: i8)
    ensures
        count_of(seq![x] + s, v) == count_of(s, v) + if x == v { 1nat } else { 0nat },
    decreases s.len(),
{
    if s.len() == 0 {
        assert(seq![x] + s =~= seq![x]);
        assert(seq![x].drop_last() =~= Seq::<i8>::empty());
        assert(count_of(Seq::<i8>::empty(), v) == 0);
    } else {
        lemma_count_of_prepend(x, s.drop_last(), v);
        assert((seq![x] + s).drop_last() =~= seq![x] + s.drop_last());
        assert((seq![x] + s).last() == s.last());
    }
}

/// Law: in a sequence of ternary symbols the three counts add up to its
/// length, so the empirical frequencies of -1, 0 and +1 sum to one.
pub proof fn lemma_tally_total(s: Seq<i8>)
    requires
        all_ternary(s),
    ensures
        tally_total(tally(s)) == s.len(),
    decreases s.len(),
{
    if s.len() > 0 {
        let p = s.drop_last();
        assert forall|i: int| 0 <= i < p.len() implies #[trigger] is_ternary(p[i]) by {
            assert(is_ternary(s[i]));
        }
        lemma_tally_total(p);
        assert(is_ternary(s[s.len() - 1]));
    }
}

impl SymbolCounts {
    /// A tally with every count zero.
    pub fn zero() -> (r: SymbolCounts)
        ensures
            r@ == (0nat, 0nat, 0nat),
    {
        SymbolCounts { negative: 0, neutral: 0, positive: 0 }
    }

    /// The count stored for table index `index` (0 for -1, 1 for 0, 2 for +1).
    pub fn get(&self, index: usize) -> (r: usize)
        requires
            index < 3,
        ensures
            index == 0 ==> r == self.negative,
            index == 1 ==> r == self.neutral,
            index == 2 ==> r == self.positive,
    {
        if index == 0 {
            self.negative
        } else if index == 1 {
            self.neutral
        } else {
            self.positive
        }
    }

    /// The counts as a `[-1, 0, +1]`-indexed array.
    pub fn to_array(&self) -> (r: [usize; 3])
        ensures
            r@ == seq![self.negative, self.neutral, self.positive],
    {
        [self.negative, self.neutral, self.positive]
    }

    /// Records one more occurrence of the ternary symbol `s`.
    pub fn add_symbol(&mut self, s: i8)
        requires
            is_ternary(s),
            old(self).negative < usize::MAX,
            old(self).neutral < usize::MAX,
            old(self).positive < usize::MAX,
        ensures
            final(self).negative == old(self).negative + if s == -1 { 1int } else { 0int },
            final(self).neutral == old(self).neutral + if s == 0 { 1int } else { 0int },
            final(self).positive == old(self).positive + if s == 1 { 1int } else { 0int },
    {
        if s == -1 {
            self.negative = self.negative + 1;
        } else if s == 0 {
            self.neutral = self.neutral + 1;
        } else {
            self.positive = self.positive + 1;
        }
    }

    /// Forgets one occurrence of the ternary symbol `s`, which must have been counted.
    pub fn remove_symbol(&mut self, s: i8)
        requires
            is_ternary(s),
            s == -1 ==> old(self).negative > 0,
            s == 0 ==> old(self).neutral > 0,
            s == 1 ==> old(self).positive > 0,
        ensures
            final(self).negative == old(self).negative - if s == -1 { 1int } else { 0int },
            final(self).neutral == old(self).neutral - if s == 0 { 1int } else { 0int },
            final(self).positive == old(self).positive - if s == 1 { 1int } else { 0int },
    {
        if s == -1 {
            self.negative = self.negative - 1;
        } else if s == 0 {
            self.neutral = self.neutral - 1;
        } else {
            self.positive = self.positive - 1;
        }
    }

    /// Sum of the three counts.
    pub fn total(&self) -> (r: usize)
        requires
            self.negative + self.neutral + self.positive <= usize::MAX,
        ensures
            r == tally_total(self@),
    {
        self.negative + self.neutral + self.positive
    }
}

/// Counts the occurrences of -1, 0 and +1 in a sequence of ternary symbols.
pub fn count_symbols(sequence: &[i8]) -> (r: SymbolCounts)
    requires
        all_ternary(sequence@),
    ensures
        r@ == tally(sequence@),
        tally_total(r@) == sequence@.len(),
{
    let mut c = SymbolCounts::zero();
    let n = sequence.len();
    let mut i: usize = 0;
    while i < n
        invariant
            n == sequence@.len(),
            i <= n,
            all_ternary(sequence@),
            c@ == tally(sequence@.take(i as int)),
        decreases n - i,
    {
        let s = sequence[i];
        assert(is_ternary(sequence@[i as int]));
        proof {
            let p = sequence@.take(i as int);
            assert(sequence@.take(i + 1) =~= p.push(s));
            lemma_count_of_push(p, s, -1i8);
            lemma_count_of_push(p, s, 0i8);
            lemma_count_of_push(p, s, 1i8);
            lemma_count_of_le_len(p, -1i8);
            lemma_count_of_le_len(p, 0i8);
            lemma_count_of_le_len(p, 1i8);
        }
        c.add_symbol(s);
        i = i + 1;
    }
    assert(sequence@.take(n as int) =~= sequence@);
    proof {
        lemma_tally_total(sequence@);
    }
    c
}

} // verus!
