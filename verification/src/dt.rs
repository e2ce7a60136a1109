//! Indentation for the nesting of debug traces.

use vstd::prelude::*;
use vstd::string::*;
use vstd::string::StrSliceExecFns;

verus! {

/// `n` spaces (at most 200).
pub fn indent(n: u32) -> (r: &'static str)
    requires
        n <= 200,
    ensures
        r@ == Seq::new(n as nat, |i: int| ' '),
{
    let spaces = "                                                                                                                                                                                                        ";
    proof {
        reveal_strlit("                                                                                                                                                                                                        ");
    }
    let r = spaces.substring_ascii(0, n as usize);
    assert(r@ =~= Seq::new(n as nat, |i: int| ' '));
    r
}

} // verus!
