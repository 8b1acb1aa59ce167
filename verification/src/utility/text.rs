//! Texts and lists of texts.

use vstd::prelude::*;
use vstd::string::StrSliceExecFns;

verus! {

/// The texts of some strings, in order.
pub open spec fn texts(strings: Seq<String>) -> Seq<Seq<char>> {
    strings.map_values(|string: String| string@)
}

/// Decides whether two texts are the same.
pub fn same_text(left: &str, right: &str) -> (same: bool)
    ensures
        same == (left@ == right@),
{
    let len = left.unicode_len();
    if len != right.unicode_len() {
        return false;
    }
    let mut index: usize = 0;
    while index < len
        invariant
            index <= len,
            len == left@.len(),
            len == right@.len(),
            forall|i: int| 0 <= i < index ==> left@[i] == right@[i],
        decreases len - index,
    {
        if left.get_char(index) != right.get_char(index) {
            return false;
        }
        index = index + 1;
    }
    assert(left@ =~= right@);
    true
}

} // verus!
