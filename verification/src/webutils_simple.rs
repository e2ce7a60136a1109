//! Small helpers for building web pages.

use vstd::prelude::*;
use vstd::string::*;

verus! {

/// Whether the bytes of `s` start with those of `prefix`.
pub fn str_starts_with(s: &str, prefix: &str) -> (r: bool)
    ensures
        r == prefix.spec_bytes().is_prefix_of(s.spec_bytes()),
{
    let a = s.as_bytes();
    let b = prefix.as_bytes();
    if b.len() > a.len() {
        return false;
    }
    let mut i: usize = 0;
    while i < b.len()
        invariant
            a@ == s.spec_bytes(),
            b@ == prefix.spec_bytes(),
            b@.len() <= a@.len(),
            i <= b@.len(),
            forall|j: int| 0 <= j < i ==> a@[j] == b@[j],
        decreases b@.len() - i,
    {
        if a[i] != b[i] {
            assert(a@.subrange(0, b@.len() as int)[i as int] == a@[i as int]);
            return false;
        }
        i = i + 1;
    }
    assert(b@ =~= a@.subrange(0, b@.len() as int));
    true
}

/// The link for an email address: `s` itself if it already is a
/// "mailto:", "https:" or "http:" URL, else `s` after "mailto:".
pub fn email_url(s: &str) -> (r: String)
    ensures
        r@ == if "mailto:".spec_bytes().is_prefix_of(s.spec_bytes()) || "https:".spec_bytes().is_prefix_of(
            s.spec_bytes(),
        ) || "http:".spec_bytes().is_prefix_of(s.spec_bytes()) {
            s@
        } else {
            "mailto:"@ + s@
        },
{
    if str_starts_with(s, "mailto:") {
        s.to_owned()
    } else if str_starts_with(s, "https:") || str_starts_with(s, "http:") {
        s.to_owned()
    } else {
        let mut out = String::new();
        out.append("mailto:");
        out.append(s);
        out
    }
}

} // verus!
