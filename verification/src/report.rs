use vstd::prelude::*;
use vstd::string::StringExecFns;

use crate::counts::{count_symbols, tally, tally_total, SymbolCounts};
use crate::symbol::{all_ternary, is_ternary, is_ternary_symbol};

verus! {

/// Index of the first element of `s` that is not a ternary symbol, if any.
pub fn first_invalid_symbol(sequence: &[i8]) -> (r: Option<usize>)
    ensures
        r is None <==> all_ternary(sequence@),
        r matches Some(i) ==> i < sequence@.len() && !is_ternary(sequence@[i as int]) && forall|
            j: int,
        | 0 <= j < i ==> #[trigger] is_ternary(sequence@[j]),
{
    let n = sequence.len();
    let mut i: usize = 0;
    while i < n
        invariant
            n == sequence@.len(),
            i <= n,
            forall|j: int| 0 <= j < i ==> #[trigger] is_ternary(sequence@[j]),
        decreases n - i,
    {
        if !is_ternary_symbol(sequence[i]) {
            return Some(i);
        }
        i = i + 1;
    }
    None
}

/// Why a sequence cannot be analysed.
#[derive(Clone, Copy, Debug, PartialEq, Eq)]
pub enum SequenceError {
    /// The sequence holds no symbol.
    Empty,
    /// The first element that is not -1, 0 or +1.
    InvalidSymbol(i8),
}

/// `v` is the first element of `s` that is not a ternary symbol.
pub open spec fn is_first_invalid(s: Seq<i8>, v: i8) -> bool {
    exists|i: int|
        0 <= i < s.len() && s[i] == v && !is_ternary(s[i]) && forall|j: int|
            0 <= j < i ==> #[trigger] is_ternary(s[j])
}

/// Checks a sequence before analysis and tallies it: an empty sequence is
/// refused, then the first element that is not -1, 0 or +1; otherwise the
/// counts of the three symbols are returned.
pub fn check_sequence(sequence: &[i8]) -> (r: Result<SymbolCounts, SequenceError>)
    ensures
        match r {
            Ok(c) => sequence@.len() > 0 && all_ternary(sequence@) && c@ == tally(sequence@)
                && tally_total(c@) == sequence@.len(),
            Err(SequenceError::Empty) => sequence@.len() == 0,
            Err(SequenceError::InvalidSymbol(v)) => sequence@.len() > 0 && is_first_invalid(
                sequence@,
                v,
            ),
        },
{
    if sequence.len() == 0 {
        return Err(SequenceError::Empty);
    }
    match first_invalid_symbol(sequence) {
        Some(i) => {
            let v = sequence[i];
            assert(sequence@[i as int] == v);
            Err(SequenceError::InvalidSymbol(v))
        },
        None => Ok(count_symbols(sequence)),
    }
}

/// The logarithm base in which an entropy is reported.
#[derive(Clone, Copy, Debug, PartialEq, Eq)]
pub enum EntropyUnit {
    /// Natural logarithm.
    Nats,
    /// Base 2.
    Bits,
    /// Base 3.
    Trits,
}

/// The characters of `s`, in order.
pub fn str_chars(s: &str) -> (r: Vec<char>)
    ensures
        r@ == s@,
{
    let mut v: Vec<char> = Vec::new();
    for c in it: s.chars()
        invariant
            it.seq() == s@,
            0 <= it.index() <= s@.len(),
            v@ == s@.take(it.index()),
    {
        assert(c == s@[it.index()]);
        v.push(c);
        assert(v@ =~= s@.take(it.index() + 1));
    }
    assert(s@.take(s@.len() as int) =~= s@);
    v
}

/// Whether two texts hold the same characters.
pub fn same_text(a: &str, b: &str) -> (r: bool)
    ensures
        r == (a@ == b@),
{
    let x = str_chars(a);
    let y = str_chars(b);
    if x.len() != y.len() {
        return false;
    }
    let mut i: usize = 0;
    while i < x.len()
        invariant
            x@ == a@,
            y@ == b@,
            x.len() == y.len(),
            i <= x.len(),
            forall|j: int| 0 <= j < i ==> x@[j] == y@[j],
        decreases x.len() - i,
    {
        if x[i] != y[i] {
            return false;
        }
        i = i + 1;
    }
    assert(x@ =~= y@);
    true
}

impl EntropyUnit {
    /// The unit named by `base`: `"bits"` and `"trits"` name themselves,
    /// and any other text means nats.
    pub fn from_base(base: &str) -> (r: EntropyUnit)
        ensures
            base@ == "bits"@ ==> r == EntropyUnit::Bits,
            base@ == "trits"@ ==> r == EntropyUnit::Trits,
            base@ != "bits"@ && base@ != "trits"@ ==> r == EntropyUnit::Nats,
    {
        proof {
            reveal_strlit("bits");
            reveal_strlit("trits");
            assert("bits"@.len() != "trits"@.len());
        }
        if same_text(base, "bits") {
            EntropyUnit::Bits
        } else if same_text(base, "trits") {
            EntropyUnit::Trits
        } else {
            EntropyUnit::Nats
        }
    }

    /// The unit's name as printed after a value.
    pub fn name(&self) -> (r: &'static str)
        ensures
            *self == EntropyUnit::Nats ==> r@ == "nats"@,
            *self == EntropyUnit::Bits ==> r@ == "bits"@,
            *self == EntropyUnit::Trits ==> r@ == "trits"@,
    {
        match self {
            EntropyUnit::Nats => "nats",
            EntropyUnit::Bits => "bits",
            EntropyUnit::Trits => "trits",
        }
    }
}

/// How a symbol is shown in a window listing: -1 as `-`, 0 as `0`, +1 as `1`.
pub open spec fn spec_symbol_label(s: i8) -> Seq<char> {
    if s == -1 {
        seq!['-']
    } else if s == 0 {
        seq!['0']
    } else {
        seq!['1']
    }
}

/// The labels of `s`, separated by single spaces.
pub open spec fn spec_labels(s: Seq<i8>) -> Seq<char>
    decreases s.len(),
{
    if s.len() == 0 {
        Seq::empty()
    } else if s.len() == 1 {
        spec_symbol_label(s[0])
    } else {
        spec_labels(s.drop_last()) + seq![' '] + spec_symbol_label(s.last())
    }
}

/// Law: the listing of `k >= 1` symbols holds exactly one label per symbol,
/// in order, separated by single spaces: its length is `2k - 1`, its
/// character at position `2j` shows symbol `j` (`-` for -1, `0` for 0, `1`
/// for +1), and its character at each odd position is a space. The listing
/// of no symbol is empty.
pub proof fn lemma_labels_shape(s: Seq<i8>)
    ensures
        s.len() == 0 ==> spec_labels(s).len() == 0,
        s.len() >= 1 ==> spec_labels(s).len() == 2 * s.len() - 1,
        forall|j: int|
            0 <= j < s.len() ==> #[trigger] spec_labels(s)[2 * j] == (if s[j] == -1 {
                '-'
            } else if s[j] == 0 {
                '0'
            } else {
                '1'
            }),
        forall|j: int| 0 <= j < s.len() - 1 ==> #[trigger] spec_labels(s)[2 * j + 1] == ' ',
    decreases s.len(),
{
    if s.len() > 1 {
        let p = s.drop_last();
        lemma_labels_shape(p);
        let lp = spec_labels(p);
        let l = spec_labels(s);
        assert(l == lp + seq![' '] + spec_symbol_label(s.last()));
        assert forall|j: int| 0 <= j < s.len() implies #[trigger] l[2 * j] == (if s[j] == -1 {
            '-'
        } else if s[j] == 0 {
            '0'
        } else {
            '1'
        }) by {
            if j < s.len() - 1 {
                assert(l[2 * j] == lp[2 * j]);
                assert(p[j] == s[j]);
            }
        }
        assert forall|j: int| 0 <= j < s.len() - 1 implies #[trigger] l[2 * j + 1] == ' ' by {
            if j < s.len() - 2 {
                assert(l[2 * j + 1] == lp[2 * j + 1]);
            }
        }
    }
}

/// The label of a ternary symbol in a window listing.
pub fn symbol_label(s: i8) -> (r: &'static str)
    requires
        is_ternary(s),
    ensures
        r@ == spec_symbol_label(s),
{
    proof {
        reveal_strlit("-");
        reveal_strlit("0");
        reveal_strlit("1");
    }
    if s == -1 {
        "-"
    } else if s == 0 {
        "0"
    } else {
        "1"
    }
}

/// The symbols of the window of `window_size` symbols starting at `start`,
/// shown by their labels and separated by single spaces.
pub fn window_labels(sequence: &[i8], start: usize, window_size: usize) -> (r: String)
    requires
        start + window_size <= sequence@.len(),
        forall|j: int| start <= j < start + window_size ==> #[trigger] is_ternary(sequence@[j]),
    ensures
        r@ == spec_labels(sequence@.subrange(start as int, start + window_size)),
        window_size == 0 ==> r@.len() == 0,
        window_size >= 1 ==> r@.len() == 2 * window_size - 1,
        forall|j: int|
            0 <= j < window_size ==> #[trigger] r@[2 * j] == (if sequence@[start + j] == -1 {
                '-'
            } else if sequence@[start + j] == 0 {
                '0'
            } else {
                '1'
            }),
        forall|j: int| 0 <= j < window_size - 1 ==> #[trigger] r@[2 * j + 1] == ' ',
{
    let mut out = String::new();
    let n = sequence.len();
    let mut i: usize = 0;
    while i < window_size
        invariant
            n == sequence@.len(),
            start + window_size <= sequence@.len(),
            forall|j: int| start <= j < start + window_size ==> #[trigger] is_ternary(sequence@[j]),
            i <= window_size,
            out@ == spec_labels(sequence@.subrange(start as int, start + i)),
        decreases window_size - i,
    {
        let ghost prev = sequence@.subrange(start as int, start + i);
        let ghost next = sequence@.subrange(start as int, start + i + 1);
        assert(next.drop_last() =~= prev);
        assert(next.last() == sequence@[start + i]);
        assert(is_ternary(sequence@[start + i]));
        if i > 0 {
            proof {
                reveal_strlit(" ");
            }
            out.append(" ");
        } else {
            assert(next =~= seq![sequence@[start as int]]);
        }
        out.append(symbol_label(sequence[start + i]));
        i = i + 1;
    }
    proof {
        let win = sequence@.subrange(start as int, start + window_size);
        lemma_labels_shape(win);
        assert forall|j: int| 0 <= j < window_size implies #[trigger] out@[2 * j] == (if sequence@[
            start + j] == -1 {
            '-'
        } else if sequence@[start + j] == 0 {
            '0'
        } else {
            '1'
        }) by {
            assert(win[j] == sequence@[start + j]);
            assert(out@[2 * j] == spec_labels(win)[2 * j]);
        }
        assert forall|j: int| 0 <= j < window_size - 1 implies #[trigger] out@[2 * j + 1] == ' ' by {
            assert(out@[2 * j + 1] == spec_labels(win)[2 * j + 1]);
        }
    }
    out
}

} // verus!
