//! Whether timing output is switched on.

use vstd::prelude::*;
use vstd::string::*;


verus! {

/// The values of the `TIME_GUARD` variable that leave timing off: "0",
/// "", "off", "false" and "no".
pub open spec fn is_off_value(v: Seq<u8>) -> bool {
    v == "0"@.map_values(|c: char| c as u8) || v.len() == 0 || v == "off"@.map_values(
        |c: char| c as u8,
    ) || v == "false"@.map_values(|c: char| c as u8) || v == "no"@.map_values(|c: char| c as u8)
}

pub(crate) fn bytes_eq(a: &[u8], b: &[u8]) -> (r: bool)
    ensures
        r == (a@ == b@),
{
    if a.len() != b.len() {
        return false;
    }
    let mut i: usize = 0;
    while i < a.len()
        invariant
            a@.len() == b@.len(),
            i <= a@.len(),
            forall|j: int| 0 <= j < i ==> a@[j] == b@[j],
        decreases a@.len() - i,
    {
        if a[i] != b[i] {
            return false;
        }
        i = i + 1;
    }
    assert(a@ =~= b@);
    true
}

/// Whether timing is on for the value `v` of the `TIME_GUARD`
/// variable (`None` when it is not set).
pub fn time_guard_value_enabled(v: Option<&[u8]>) -> (r: bool)
    ensures
        r == match v {
            None => false,
            Some(b) => !is_off_value(b@),
        },
{
    match v {
        None => false,
        Some(b) => {
            let off = bytes_eq(b, "0".as_bytes()) || b.len() == 0 || bytes_eq(b, "off".as_bytes())
                || bytes_eq(b, "false".as_bytes()) || bytes_eq(b, "no".as_bytes());
            proof {
                reveal_strlit("0");
                reveal_strlit("off");
                reveal_strlit("false");
                reveal_strlit("no");
                vstd::string::is_ascii_spec_bytes("0");
                vstd::string::is_ascii_spec_bytes("off");
                vstd::string::is_ascii_spec_bytes("false");
                vstd::string::is_ascii_spec_bytes("no");
                assert("0".spec_bytes() =~= "0"@.map_values(|c: char| c as u8));
                assert("off".spec_bytes() =~= "off"@.map_values(|c: char| c as u8));
                assert("false".spec_bytes() =~= "false"@.map_values(|c: char| c as u8));
                assert("no".spec_bytes() =~= "no"@.map_values(|c: char| c as u8));
            }
            !off
        },
    }
}

} // verus!
