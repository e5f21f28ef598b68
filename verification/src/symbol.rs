use vstd::prelude::*;

verus! {

/// A symbol of the ternary alphabet: -1, 0 or +1.
pub open spec fn is_ternary(s: i8) -> bool {
    s == -1 || s == 0 || s == 1
}

/// Every element of `s` is a ternary symbol.
pub open spec fn all_ternary(s: Seq<i8>) -> bool {
    forall|i: int| 0 <= i < s.len() ==> #[trigger] is_ternary(s[i])
}

/// Position of a symbol in a `[-1, 0, +1]`-indexed table.
pub open spec fn spec_symbol_index(s: i8) -> int {
    if s == -1 { 0 } else if s == 0 { 1 } else { 2 }
}

/// Whether `s` is one of -1, 0, +1.
pub fn is_ternary_symbol(s: i8) -> (r: bool)
    ensures
        r == is_ternary(s),
{
    s == -1 || s == 0 || s == 1
}

/// Maps a ternary symbol to its index in a `[-1, 0, +1]`-ordered table:
/// -1 to 0, 0 to 1, +1 to 2.
pub fn symbol_to_index(s: i8) -> (r: usize)
    requires
        is_ternary(s),
    ensures
        r == spec_symbol_index(s),
        r < 3,
{
    match s {
        -1 => 0,
        0 => 1,
        _ => 2,
    }
}

} // verus!
