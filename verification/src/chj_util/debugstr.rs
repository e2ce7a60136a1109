//! Strings as std's `Debug` shows them.

use vstd::prelude::*;

verus! {

/// What std's `Debug` shows for the string `s`: the text in double
/// quotes, with quotes, backslashes and special characters escaped.
pub uninterp spec fn debug_quoted(s: Seq<char>) -> Seq<char>;

/// `format!("{:?}", s)`: std's `Debug` for `str`, which quotes and
/// escapes (`char::escape_debug`); its result depends on `s` alone.
#[verifier::external_body]
pub(crate) fn str_debug(s: &str) -> (r: String)
    ensures
        r@ == debug_quoted(s@),
{
    format!("{:?}", s)
}

} // verus!
