//! The key/value parts of a query string.

use vstd::prelude::*;
use vstd::string::*;
use vstd::string::StrSliceExecFns;

use crate::ahtml::util::softpre::{split_spec, split_str, strs_view};

verus! {

/// The position of the first '=' in `part` at or after `i`.
pub open spec fn first_eq_from(part: Seq<char>, i: int) -> Option<int>
    decreases part.len() - i,
{
    if i < 0 || i >= part.len() {
        None
    } else if part[i] == '=' {
        Some(i)
    } else {
        first_eq_from(part, i + 1)
    }
}

/// A part split at its first '=' into key and value; without '=', the
/// part is the key and the value is empty.
pub open spec fn query_pair(part: Seq<char>) -> (Seq<char>, Seq<char>) {
    match first_eq_from(part, 0) {
        Some(i) => (part.take(i), part.skip(i + 1)),
        None => (part, Seq::empty()),
    }
}

/// The pairs of the non-empty parts among `parts`, in order.
pub open spec fn pairs_of(parts: Seq<Seq<char>>) -> Seq<(Seq<char>, Seq<char>)>
    decreases parts.len(),
{
    if parts.len() == 0 {
        Seq::empty()
    } else {
        let rest = pairs_of(parts.drop_last());
        if parts.last().len() == 0 {
            rest
        } else {
            rest.push(query_pair(parts.last()))
        }
    }
}

/// What `query_parts` gives for `s`.
pub open spec fn query_parts_spec(s: Seq<char>) -> Seq<(Seq<char>, Seq<char>)> {
    pairs_of(split_spec(s, seq!['&']))
}

pub open spec fn str_pairs_view(v: Seq<(&str, &str)>) -> Seq<(Seq<char>, Seq<char>)> {
    v.map_values(|p: (&str, &str)| (p.0@, p.1@))
}

proof fn lemma_first_eq_from(part: Seq<char>, i: int)
    requires
        0 <= i,
    ensures
        first_eq_from(part, i) matches Some(j) ==> i <= j < part.len() && part[j] == '=',
    decreases part.len() - i,
{
    if i < part.len() && part[i] != '=' {
        lemma_first_eq_from(part, i + 1);
    }
}

/// The part split at its first '='.
fn split_pair<'a>(part: &'a str) -> (r: (&'a str, &'a str))
    ensures
        (r.0@, r.1@) == query_pair(part@),
{
    let n = part.unicode_len();
    let mut i: usize = 0;
    while i < n
        invariant
            i <= n,
            n == part@.len(),
            first_eq_from(part@, 0) == first_eq_from(part@, i as int),
        decreases n - i,
    {
        if part.get_char(i) == '=' {
            proof {
                lemma_first_eq_from(part@, 0);
            }
            return (part.substring_char(0, i), part.substring_char(i + 1, n));
        }
        i = i + 1;
    }
    let empty = part.substring_char(n, n);
    assert(empty@ =~= Seq::<char>::empty());
    (part, empty)
}

/// The key/value parts of the query string `s`, not yet decoded: the
/// parts between '&' characters, empty ones left out, each split at
/// its first '=' (a part without '=' has an empty value).
pub fn query_parts<'a>(s: &'a str) -> (r: Vec<(&'a str, &'a str)>)
    ensures
        str_pairs_view(r@) == query_parts_spec(s@),
{
    let amp = "&";
    proof {
        reveal_strlit("&");
        assert(amp@ =~= seq!['&']);
    }
    let parts = split_str(s, amp);
    let ghost pv = strs_view(parts@);
    let mut out: Vec<(&'a str, &'a str)> = Vec::new();
    let mut i: usize = 0;
    while i < parts.len()
        invariant
            i <= parts@.len(),
            pv == strs_view(parts@),
            pv == split_spec(s@, seq!['&']),
            str_pairs_view(out@) == pairs_of(pv.take(i as int)),
        decreases parts@.len() - i,
    {
        let part = parts[i];
        proof {
            assert(pv.take(i + 1).drop_last() =~= pv.take(i as int));
            assert(pv.take(i + 1).last() == part@);
        }
        if part.unicode_len() > 0 {
            let pair = split_pair(part);
            let ghost before = out@;
            out.push(pair);
            assert(str_pairs_view(out@) =~= str_pairs_view(before).push((pair.0@, pair.1@)));
        }
        i = i + 1;
    }
    assert(pv.take(parts@.len() as int) =~= pv);
    out
}

} // verus!
