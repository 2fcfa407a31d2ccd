//! Small helpers on owned text.

use vstd::prelude::*;

verus! {

/// Whether the text `a` reads `b`.
pub fn same_text(a: &String, b: &str) -> (r: bool)
    ensures
        r == (a@ == b@),
{
    let owned = b.to_owned();
    *a == owned
}

} // verus!
