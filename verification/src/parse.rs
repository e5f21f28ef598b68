use vstd::prelude::*;

use crate::symbol::{all_ternary, is_ternary, is_ternary_symbol};

verus! {

/// Unicode `White_Space`: the characters at which a sequence is split into tokens.
pub open spec fn is_white_space(c: char) -> bool {
    let x = c as u32;
    (0x9 <= x <= 0xd) || x == 0x20 || x == 0x85 || x == 0xa0 || x == 0x1680
        || (0x2000 <= x <= 0x200a) || x == 0x2028 || x == 0x2029 || x == 0x202f
        || x == 0x205f || x == 0x3000
}

/// The maximal runs of non-white-space characters of `s`, in order.
pub open spec fn split_white_space(s: Seq<char>) -> Seq<Seq<char>>
    decreases s.len(),
{
    if s.len() == 0 {
        Seq::empty()
    } else {
        let p = s.drop_last();
        let c = s.last();
        let t = split_white_space(p);
        if is_white_space(c) {
            t
        } else if p.len() > 0 && !is_white_space(p.last()) {
            t.update(t.len() - 1, t.last().push(c))
        } else {
            t.push(seq![c])
        }
    }
}

/// Why a sequence could not be read, as a mathematical value.
pub enum SymbolParseFailure {
    /// A token that does not denote an `i8`.
    InvalidInteger(Seq<char>),
    /// An `i8` other than -1, 0 and +1.
    InvalidSymbol(i8),
}

/// Why a whitespace-separated sequence of ternary symbols could not be read.
#[derive(Debug, PartialEq, Eq)]
pub enum SymbolParseError {
    /// A token that does not denote an `i8`; holds the token's characters.
    InvalidInteger(Vec<char>),
    /// An integer other than -1, 0 and +1.
    InvalidSymbol(i8),
}

impl View for SymbolParseError {
    type V = SymbolParseFailure;

    open spec fn view(&self) -> SymbolParseFailure {
        match self {
            SymbolParseError::InvalidInteger(t) => SymbolParseFailure::InvalidInteger(t@),
            SymbolParseError::InvalidSymbol(v) => SymbolParseFailure::InvalidSymbol(*v),
        }
    }
}

/// The ternary symbol a token denotes, or why it denotes none.
pub open spec fn read_symbol(t: Seq<char>) -> Result<i8, SymbolParseFailure> {
    match token_to_i8(t) {
        None => Err(SymbolParseFailure::InvalidInteger(t)),
        Some(v) => if is_ternary(v) {
            Ok(v)
        } else {
            Err(SymbolParseFailure::InvalidSymbol(v))
        },
    }
}

/// The symbols that the tokens denote, in order; or the failure of the
/// first token that denotes none.
pub open spec fn read_symbols(ts: Seq<Seq<char>>) -> Result<Seq<i8>, SymbolParseFailure>
    decreases ts.len(),
{
    if ts.len() == 0 {
        Ok(Seq::empty())
    } else {
        match read_symbols(ts.drop_last()) {
            Err(e) => Err(e),
            Ok(vs) => match read_symbol(ts.last()) {
                Err(e) => Err(e),
                Ok(v) => Ok(vs.push(v)),
            },
        }
    }
}

/// The ternary sequence that a text of whitespace-separated tokens denotes.
pub open spec fn parse_ternary(s: Seq<char>) -> Result<Seq<i8>, SymbolParseFailure> {
    read_symbols(split_white_space(s))
}

/// Law: a successful read yields one ternary symbol per token.
pub proof fn lemma_read_symbols_ok(ts: Seq<Seq<char>>)
    ensures
        read_symbols(ts) matches Ok(vs) ==> vs.len() == ts.len() && all_ternary(vs),
    decreases ts.len(),
{
    if ts.len() > 0 {
        lemma_read_symbols_ok(ts.drop_last());
        if let Ok(vs) = read_symbols(ts) {
            let ps = read_symbols(ts.drop_last())->Ok_0;
            assert(vs == ps.push(read_symbol(ts.last())->Ok_0));
            assert forall|i: int| 0 <= i < vs.len() implies #[trigger] is_ternary(vs[i]) by {
                if i < ps.len() {
                    assert(vs[i] == ps[i]);
                }
            }
        }
    }
}

/// A token that denotes one of -1, 0 and +1.
pub open spec fn token_is_symbol(t: Seq<char>) -> bool {
    token_to_i8(t) matches Some(v) && is_ternary(v)
}

/// Law: reading tokens succeeds exactly when every token denotes a ternary
/// symbol, and then yields, in order, the symbol each token denotes; it fails
/// only at the first token that does not denote one, with `InvalidInteger`
/// (holding that token) when the token is no `i8`, and with `InvalidSymbol`
/// (holding the integer) when it is an `i8` other than -1, 0 and +1.
pub proof fn lemma_read_symbols_meaning(ts: Seq<Seq<char>>)
    ensures
        (forall|i: int| 0 <= i < ts.len() ==> #[trigger] token_is_symbol(ts[i])) <==> read_symbols(
            ts,
        ) is Ok,
        read_symbols(ts) matches Ok(vs) ==> vs.len() == ts.len() && forall|i: int|
            0 <= i < ts.len() ==> token_to_i8(#[trigger] ts[i]) == Some(vs[i]),
        read_symbols(ts) matches Err(SymbolParseFailure::InvalidInteger(t)) ==> exists|i: int|
            0 <= i < ts.len() && #[trigger] ts[i] == t && token_to_i8(t) is None && forall|j: int|
                0 <= j < i ==> #[trigger] token_is_symbol(ts[j]),
        read_symbols(ts) matches Err(SymbolParseFailure::InvalidSymbol(v)) ==> exists|i: int|
            0 <= i < ts.len() && token_to_i8(#[trigger] ts[i]) == Some(v) && !is_ternary(v)
                && forall|j: int| 0 <= j < i ==> #[trigger] token_is_symbol(ts[j]),
    decreases ts.len(),
{
    if ts.len() > 0 {
        let p = ts.drop_last();
        let n = ts.len() - 1;
        lemma_read_symbols_meaning(p);
        assert forall|i: int| 0 <= i < p.len() implies p[i] == ts[i] by {}
        match read_symbols(p) {
            Err(e) => {
                assert(!(forall|i: int| 0 <= i < p.len() ==> #[trigger] token_is_symbol(p[i])));
                let k = choose|k: int| 0 <= k < p.len() && !token_is_symbol(p[k]);
                assert(!token_is_symbol(ts[k]));
                match e {
                    SymbolParseFailure::InvalidInteger(t) => {
                        let i = choose|i: int|
                            0 <= i < p.len() && #[trigger] p[i] == t && token_to_i8(t) is None
                                && forall|j: int| 0 <= j < i ==> #[trigger] token_is_symbol(p[j]);
                        assert(ts[i] == t);
                        assert forall|j: int| 0 <= j < i implies #[trigger] token_is_symbol(ts[j]) by {
                            assert(token_is_symbol(p[j]));
                        }
                    },
                    SymbolParseFailure::InvalidSymbol(v) => {
                        let i = choose|i: int|
                            0 <= i < p.len() && token_to_i8(#[trigger] p[i]) == Some(v) && !is_ternary(v)
                                && forall|j: int| 0 <= j < i ==> #[trigger] token_is_symbol(p[j]);
                        assert(ts[i] == p[i]);
                        assert forall|j: int| 0 <= j < i implies #[trigger] token_is_symbol(ts[j]) by {
                            assert(token_is_symbol(p[j]));
                        }
                    },
                }
            },
            Ok(ps) => {
                assert(forall|i: int| 0 <= i < p.len() ==> #[trigger] token_is_symbol(p[i]));
                assert forall|j: int| 0 <= j < n implies #[trigger] token_is_symbol(ts[j]) by {
                    assert(token_is_symbol(p[j]));
                }
                assert(ts.last() == ts[n]);
                match read_symbol(ts.last()) {
                    Err(e) => {
                        assert(!token_is_symbol(ts[n]));
                        match e {
                            SymbolParseFailure::InvalidInteger(t) => {
                                assert(ts[n] == t);
                            },
                            SymbolParseFailure::InvalidSymbol(v) => {
                                assert(token_to_i8(ts[n]) == Some(v));
                            },
                        }
                    },
                    Ok(v) => {
                        assert(token_is_symbol(ts[n]));
                        let vs = ps.push(v);
                        assert forall|i: int| 0 <= i < ts.len() implies token_to_i8(
                            #[trigger] ts[i],
                        ) == Some(vs[i]) by {
                            if i < n {
                                assert(token_to_i8(p[i]) == Some(ps[i]));
                            }
                        }
                    },
                }
            },
        }
    }
}

/// Once reading a prefix of the tokens fails, reading all of them fails the same way.
pub proof fn lemma_read_symbols_failure_persists(ts: Seq<Seq<char>>, k: int)
    requires
        0 <= k <= ts.len(),
        read_symbols(ts.take(k)) is Err,
    ensures
        read_symbols(ts) == read_symbols(ts.take(k)),
    decreases ts.len() - k,
{
    if k < ts.len() {
        assert(ts.take(k + 1).drop_last() =~= ts.take(k));
        lemma_read_symbols_failure_persists(ts, k + 1);
    } else {
        assert(ts.take(k) =~= ts);
    }
}

/// Whether `c` is one of the ASCII digits `0` to `9`.
pub open spec fn is_decimal_digit(c: char) -> bool {
    48 <= (c as u32) <= 57
}

/// Whether every character of `d` is an ASCII digit.
pub open spec fn all_decimal_digits(d: Seq<char>) -> bool {
    forall|i: int| 0 <= i < d.len() ==> is_decimal_digit(#[trigger] d[i])
}

/// The decimal value of a string of ASCII digits.
pub open spec fn decimal_value(d: Seq<char>) -> nat
    decreases d.len(),
{
    if d.len() == 0 {
        0
    } else {
        decimal_value(d.drop_last()) * 10 + ((d.last() as u32) - 48) as nat
    }
}

/// A token without its leading sign, if it has one.
pub open spec fn token_digits(t: Seq<char>) -> Seq<char> {
    if t.len() > 0 && (t[0] == '-' || t[0] == '+') {
        t.drop_first()
    } else {
        t
    }
}

/// The integer that a token denotes: an optional `+` or `-` followed by one
/// or more ASCII digits, when that integer lies in the range of `i8`.
pub open spec fn token_to_i8(t: Seq<char>) -> Option<i8> {
    let negative = t.len() > 0 && t[0] == '-';
    let digits = token_digits(t);
    if digits.len() == 0 || !all_decimal_digits(digits) {
        None
    } else {
        let v: int = if negative { -decimal_value(digits) } else { decimal_value(digits) as int };
        if -128 <= v <= 127 {
            Some(v as i8)
        } else {
            None
        }
    }
}

/// Reads a token as an `i8`: an optional `+` or `-` followed by one or more
/// ASCII digits, whose value must lie in `-128..=127`. Leading zeros are
/// accepted. Returns `None` for any other token.
pub fn parse_i8_token(t: &[char]) -> (r: Option<i8>)
    ensures
        r == token_to_i8(t@),
{
    let n = t.len();
    if n == 0 {
        return None;
    }
    let negative = t[0] == '-';
    let start: usize = if t[0] == '-' || t[0] == '+' { 1 } else { 0 };
    let ghost digits = token_digits(t@);
    assert(digits =~= t@.subrange(start as int, n as int));
    if start == n {
        return None;
    }
    let mut acc: u32 = 0;
    let mut i: usize = start;
    while i < n
        invariant
            n == t@.len(),
            start <= i <= n,
            digits == t@.subrange(start as int, n as int),
            digits == token_digits(t@),
            negative == (t@[0] == '-'),
            forall|j: int| start <= j < i ==> is_decimal_digit(#[trigger] t@[j]),
            decimal_value(t@.subrange(start as int, i as int)) <= 1000 ==> acc
                == decimal_value(t@.subrange(start as int, i as int)),
            decimal_value(t@.subrange(start as int, i as int)) > 1000 ==> acc > 1000,
            acc <= 10009,
        decreases n - i,
    {
        let x = t[i] as u32;
        if x < 48 || x > 57 {
            assert(digits[i - start] == t@[i as int]);
            assert(!is_decimal_digit(digits[i - start]));
            assert(!all_decimal_digits(digits));
            return None;
        }
        let ghost prev = t@.subrange(start as int, i as int);
        assert(t@.subrange(start as int, i + 1).drop_last() =~= prev);
        assert(t@.subrange(start as int, i + 1).last() == t@[i as int]);
        if acc <= 1000 {
            acc = acc * 10 + (x - 48);
        }
        i = i + 1;
    }
    assert(t@.subrange(start as int, n as int) == digits);
    assert forall|j: int| 0 <= j < digits.len() implies is_decimal_digit(#[trigger] digits[j]) by {
        assert(digits[j] == t@[start + j]);
    }
    if negative {
        if acc <= 128 {
            let v: i32 = 0 - (acc as i32);
            Some(v as i8)
        } else {
            None
        }
    } else {
        if acc <= 127 {
            Some(acc as i8)
        } else {
            None
        }
    }
}

/// Whether `c` is a Unicode `White_Space` character.
pub fn is_white_space_char(c: char) -> (r: bool)
    ensures
        r == is_white_space(c),
{
    let x = c as u32;
    (0x9 <= x && x <= 0xd) || x == 0x20 || x == 0x85 || x == 0xa0 || x == 0x1680
        || (0x2000 <= x && x <= 0x200a) || x == 0x2028 || x == 0x2029 || x == 0x202f
        || x == 0x205f || x == 0x3000
}

/// Splits `s` into its maximal runs of non-white-space characters.
pub fn split_tokens(s: &str) -> (r: Vec<Vec<char>>)
    ensures
        r.deep_view() == split_white_space(s@),
{
    let mut toks: Vec<Vec<char>> = Vec::new();
    let mut cur: Vec<char> = Vec::new();
    for c in it: s.chars()
        invariant
            it.seq() == s@,
            0 <= it.index() <= s@.len(),
            cur.len() > 0 <==> (it.index() > 0 && !is_white_space(s@[it.index() - 1])),
            split_white_space(s@.take(it.index())) == if cur.len() > 0 {
                toks.deep_view().push(cur@)
            } else {
                toks.deep_view()
            },
    {
        let ghost i = it.index();
        let ghost before = toks.deep_view();
        assert(s@.take(i + 1).drop_last() =~= s@.take(i));
        assert(c == s@[i]);
        assert(s@.take(i + 1).last() == c);
        let ghost old_split = split_white_space(s@.take(i));
        if is_white_space_char(c) {
            if cur.len() > 0 {
                let ghost last = cur@;
                toks.push(cur);
                cur = Vec::new();
                assert(toks@[toks.len() - 1].deep_view() =~= last);
                assert(toks.deep_view() =~= before.push(last));
            }
        } else {
            let ghost old_cur = cur@;
            cur.push(c);
            proof {
                if old_cur.len() > 0 {
                    assert(old_split.update(old_split.len() - 1, old_split.last().push(c))
                        =~= before.push(cur@));
                } else {
                    assert(cur@ =~= seq![c]);
                }
            }
        }
    }
    assert(s@.take(s@.len() as int) =~= s@);
    if cur.len() > 0 {
        let ghost before = toks.deep_view();
        let ghost last = cur@;
        toks.push(cur);
        assert(toks@[toks.len() - 1].deep_view() =~= last);
        assert(toks.deep_view() =~= before.push(last));
    }
    toks
}

/// Reads a text of whitespace-separated ternary symbols (`-1`, `0`, `1`,
/// with an optional `+` or `-` sign and leading zeros allowed). Tokens are
/// read in order; the first token that is not an `i8`, or is an `i8` other
/// than -1, 0 and +1, is the error returned.
pub fn parse_ternary_string(s: &str) -> (r: Result<Vec<i8>, SymbolParseError>)
    ensures
        match r {
            Ok(v) => parse_ternary(s@) == Ok::<Seq<i8>, SymbolParseFailure>(v@),
            Err(e) => parse_ternary(s@) == Err::<Seq<i8>, SymbolParseFailure>(e@),
        },
        r matches Ok(v) ==> v@.len() == split_white_space(s@).len() && all_ternary(v@),
        (forall|i: int|
            0 <= i < split_white_space(s@).len() ==> #[trigger] token_is_symbol(
                split_white_space(s@)[i],
            )) <==> r is Ok,
        r matches Ok(v) ==> forall|i: int|
            0 <= i < split_white_space(s@).len() ==> token_to_i8(
                #[trigger] split_white_space(s@)[i],
            ) == Some(v@[i]),
        r matches Err(SymbolParseError::InvalidInteger(t)) ==> exists|i: int|
            0 <= i < split_white_space(s@).len() && #[trigger] split_white_space(s@)[i] == t@
                && token_to_i8(t@) is None && forall|j: int|
                0 <= j < i ==> #[trigger] token_is_symbol(split_white_space(s@)[j]),
        r matches Err(SymbolParseError::InvalidSymbol(v)) ==> exists|i: int|
            0 <= i < split_white_space(s@).len() && token_to_i8(
                #[trigger] split_white_space(s@)[i],
            ) == Some(v) && !is_ternary(v) && forall|j: int|
                0 <= j < i ==> #[trigger] token_is_symbol(split_white_space(s@)[j]),
{
    let toks = split_tokens(s);
    let ghost ts = toks.deep_view();
    proof {
        lemma_read_symbols_meaning(ts);
    }
    let mut out: Vec<i8> = Vec::new();
    let mut i: usize = 0;
    while i < toks.len()
        invariant
            ts == toks.deep_view(),
            ts == split_white_space(s@),
            i <= toks.len(),
            read_symbols(ts.take(i as int)) == Ok::<Seq<i8>, SymbolParseFailure>(out@),
        decreases toks.len() - i,
    {
        let tok = toks[i].as_slice();
        assert(tok@ =~= ts[i as int]);
        assert(ts.take(i + 1).drop_last() =~= ts.take(i as int));
        assert(ts.take(i + 1).last() == ts[i as int]);
        match parse_i8_token(tok) {
            None => {
                let e = SymbolParseError::InvalidInteger(vstd::slice::slice_to_vec(tok));
                proof {
                    lemma_read_symbols_failure_persists(ts, i + 1);
                    lemma_read_symbols_meaning(ts);
                }
                return Err(e);
            },
            Some(v) => {
                if !is_ternary_symbol(v) {
                    proof {
                        lemma_read_symbols_failure_persists(ts, i + 1);
                        lemma_read_symbols_meaning(ts);
                    }
                    return Err(SymbolParseError::InvalidSymbol(v));
                }
                out.push(v);
            },
        }
        i = i + 1;
    }
    assert(ts.take(toks.len() as int) =~= ts);
    proof {
        lemma_read_symbols_ok(ts);
        lemma_read_symbols_meaning(ts);
    }
    Ok(out)
}

} // verus!
