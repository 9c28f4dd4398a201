//! Small string helpers shared by the other modules.
use vstd::prelude::*;
use vstd::string::StrSliceExecFns;

verus! {

/// The character sequences held by a sequence of strings.
pub open spec fn strings_view(v: Seq<String>) -> Seq<Seq<char>> {
    v.map_values(|t: String| t@)
}

/// The one-character string found at position `i` of `s`.
pub fn char_at(s: &str, i: usize) -> (r: &str)
    requires
        i < s@.len() <= usize::MAX,
    ensures
        r@ == seq![s@[i as int]],
{
    let r = s.substring_char(i, i + 1);
    assert(r@ =~= seq![s@[i as int]]);
    r
}

} // verus!
