use vstd::prelude::*;

use crate::counts::{
    count_of, lemma_count_of_le_len, lemma_count_of_prepend, lemma_count_of_push,
    lemma_tally_total, tally, tally_total, SymbolCounts,
};
use crate::symbol::{all_ternary, is_ternary};

verus! {

/// Number of positions of a window of `w` symbols in a sequence of `len`
/// symbols: `len - w + 1`, or none when `w` is zero or exceeds `len`.
pub open spec fn window_positions(len: nat, w: nat) -> nat {
    if w == 0 || len < w {
        0
    } else {
        (len - w + 1) as nat
    }
}

/// The symbols that the window of `w` symbols starting at `k` covers.
pub open spec fn window_at(s: Seq<i8>, k: int, w: nat) -> Seq<i8> {
    s.subrange(k, k + w)
}

/// Law: sliding a window one step forgets `s[k]` and records `s[k + w]`;
/// the symbol that leaves was counted in the window it leaves.
pub proof fn lemma_slide(s: Seq<i8>, k: int, w: nat, v: i8)
    requires
        0 <= k,
        k + w < s.len(),
        w > 0,
    ensures
        count_of(window_at(s, k + 1, w), v) + (if s[k] == v { 1nat } else { 0nat })
            == count_of(window_at(s, k, w), v) + (if s[k + w] == v { 1nat } else { 0nat }),
        count_of(window_at(s, k, w), s[k]) >= 1,
{
    let big = s.subrange(k, k + w + 1);
    assert(big =~= window_at(s, k, w).push(s[k + w]));
    assert(big =~= seq![s[k]] + window_at(s, k + 1, w));
    assert(window_at(s, k, w) =~= seq![s[k]] + s.subrange(k + 1, k + w));
    lemma_count_of_push(window_at(s, k, w), s[k + w], v);
    lemma_count_of_prepend(s[k], window_at(s, k + 1, w), v);
    lemma_count_of_prepend(s[k], s.subrange(k + 1, k + w), s[k]);
}

/// Law: a window of `w > 0` symbols has `len - w + 1` positions in a
/// sequence of `len >= w` symbols, one for each start `0..=len - w`, and no
/// position when `w` is zero or exceeds `len`.
pub proof fn lemma_window_positions(len: nat, w: nat)
    ensures
        0 < w <= len ==> window_positions(len, w) == len - w + 1,
        w == 0 || len < w ==> window_positions(len, w) == 0,
{
}

/// Law: every window of a sequence of ternary symbols holds exactly
/// `w` symbols, so the three counts of each window add up to `w`.
pub proof fn lemma_window_total(s: Seq<i8>, w: nat, k: int)
    requires
        all_ternary(s),
        0 <= k < window_positions(s.len(), w),
    ensures
        tally_total(tally(window_at(s, k, w))) == w,
{
    let win = window_at(s, k, w);
    assert forall|i: int| 0 <= i < win.len() implies #[trigger] is_ternary(win[i]) by {
        assert(is_ternary(s[k + i]));
    }
    lemma_tally_total(win);
}

/// Law: a window as long as the whole sequence has exactly one position,
/// and its tally is the tally of the whole sequence.
pub proof fn lemma_full_window(s: Seq<i8>)
    requires
        s.len() > 0,
    ensures
        window_positions(s.len(), s.len()) == 1,
        tally(window_at(s, 0, s.len())) == tally(s),
{
    assert(window_at(s, 0, s.len()) =~= s);
}

/// Law: over a sequence in which every symbol is `v`, every window holds
/// `w` copies of `v` and nothing else.
pub proof fn lemma_constant_windows(s: Seq<i8>, v: i8, w: nat, k: int, u: i8)
    requires
        forall|i: int| 0 <= i < s.len() ==> #[trigger] s[i] == v,
        0 <= k < window_positions(s.len(), w),
    ensures
        count_of(window_at(s, k, w), v) == w,
        u != v ==> count_of(window_at(s, k, w), u) == 0,
{
    lemma_constant_count(window_at(s, k, w), v, u);
}

proof fn lemma_constant_count(s: Seq<i8>, v: i8, u: i8)
    requires
        forall|i: int| 0 <= i < s.len() ==> #[trigger] s[i] == v,
    ensures
        count_of(s, v) == s.len(),
        u != v ==> count_of(s, u) == 0,
    decreases s.len(),
{
    if s.len() > 0 {
        let p = s.drop_last();
        assert forall|i: int| 0 <= i < p.len() implies #[trigger] p[i] == v by {
            assert(s[i] == v);
        }
        lemma_constant_count(p, v, u);
        assert(s[s.len() - 1] == v);
    }
}

/// Tallies every window of `window_size` consecutive symbols of `sequence`,
/// one tally per window position, from the first position to the last.
/// The window is slid one symbol at a time: the symbol that leaves is
/// forgotten and the symbol that enters is recorded.
///
/// There is no window when `window_size` is zero or longer than the sequence.
pub fn sliding_window_counts(sequence: &[i8], window_size: usize) -> (r: Vec<SymbolCounts>)
    requires
        window_size == 0 || sequence@.len() < window_size || all_ternary(sequence@),
    ensures
        r@.len() == window_positions(sequence@.len(), window_size as nat),
        forall|k: int|
            0 <= k < r@.len() ==> #[trigger] r@[k]@ == tally(
                window_at(sequence@, k, window_size as nat),
            ),
        0 < window_size <= sequence@.len() ==> r@.len() == sequence@.len() - window_size + 1,
        window_size == 0 || sequence@.len() < window_size ==> r@.len() == 0,
        forall|k: int|
            0 <= k < r@.len() ==> {
                &&& #[trigger] r@[k].negative == count_of(
                    sequence@.subrange(k, k + window_size),
                    -1i8,
                )
                &&& r@[k].neutral == count_of(sequence@.subrange(k, k + window_size), 0i8)
                &&& r@[k].positive == count_of(sequence@.subrange(k, k + window_size), 1i8)
            },
{
    let n = sequence.len();
    if n < window_size || window_size == 0 {
        return Vec::new();
    }
    let ghost s = sequence@;
    let ghost w = window_size as nat;
    let mut result: Vec<SymbolCounts> = Vec::new();
    let mut counts = SymbolCounts::zero();
    let mut j: usize = 0;
    while j < window_size
        invariant
            n == s.len(),
            s == sequence@,
            window_size <= n,
            j <= window_size,
            all_ternary(s),
            counts@ == tally(s.take(j as int)),
        decreases window_size - j,
    {
        let x = sequence[j];
        assert(is_ternary(s[j as int]));
        proof {
            let p = s.take(j as int);
            assert(s.take(j + 1) =~= p.push(x));
            lemma_count_of_push(p, x, -1i8);
            lemma_count_of_push(p, x, 0i8);
            lemma_count_of_push(p, x, 1i8);
            lemma_count_of_le_len(p, -1i8);
            lemma_count_of_le_len(p, 0i8);
            lemma_count_of_le_len(p, 1i8);
        }
        counts.add_symbol(x);
        j = j + 1;
    }
    assert(s.take(window_size as int) =~= window_at(s, 0, w));
    result.push(counts);
    let mut i: usize = window_size;
    while i < n
        invariant
            n == s.len(),
            s == sequence@,
            w == window_size as nat,
            0 < window_size <= i <= n,
            all_ternary(s),
            result@.len() == i - window_size + 1,
            counts@ == tally(window_at(s, i - window_size, w)),
            forall|k: int|
                0 <= k < result@.len() ==> #[trigger] result@[k]@ == tally(window_at(s, k, w)),
        decreases n - i,
    {
        let k = i - window_size;
        let out = sequence[k];
        let inc = sequence[i];
        assert(is_ternary(s[k as int]));
        assert(is_ternary(s[i as int]));
        proof {
            lemma_slide(s, k as int, w, -1i8);
            lemma_slide(s, k as int, w, 0i8);
            lemma_slide(s, k as int, w, 1i8);
            lemma_count_of_le_len(window_at(s, k + 1, w), -1i8);
            lemma_count_of_le_len(window_at(s, k + 1, w), 0i8);
            lemma_count_of_le_len(window_at(s, k + 1, w), 1i8);
        }
        counts.remove_symbol(out);
        counts.add_symbol(inc);
        result.push(counts);
        i = i + 1;
    }
    assert forall|k: int| 0 <= k < result@.len() implies {
        &&& #[trigger] result@[k].negative == count_of(s.subrange(k, k + window_size), -1i8)
        &&& result@[k].neutral == count_of(s.subrange(k, k + window_size), 0i8)
        &&& result@[k].positive == count_of(s.subrange(k, k + window_size), 1i8)
    } by {
        assert(result@[k]@ == tally(window_at(s, k, w)));
    }
    result
}

} // verus!
