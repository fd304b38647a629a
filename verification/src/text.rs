//! String helpers with exact specifications over the character view.

use vstd::prelude::*;
use vstd::string::StringExecFns;

verus! {

/// Whether two strings hold the same characters.
pub fn str_eq(a: &str, b: &str) -> (r: bool)
    ensures
        r == (a@ == b@),
{
    let x: String = a.to_owned();
    let y: String = b.to_owned();
    x == y
}

/// The characters of `a` followed by those of `b`.
pub(crate) fn concat(a: &str, b: &str) -> (r: String)
    ensures
        r@ == a@ + b@,
{
    let s: String = a.to_owned();
    s.concat(b)
}

} // verus!
