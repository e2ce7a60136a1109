//! Byte-level string search and slicing, with their meaning for the
//! characters of the string.

use vstd::prelude::*;
use vstd::string::*;
use vstd::utf8::*;

verus! {

/// Whether `n` occurs in `b` at byte position `i`.
pub open spec fn matches_at(b: Seq<u8>, i: int, n: Seq<u8>) -> bool {
    0 <= i && i + n.len() <= b.len() && b.subrange(i, i + n.len()) == n
}

/// The first byte position at or after `from` where `n` occurs in `b`.
pub open spec fn find_spec(b: Seq<u8>, from: int, n: Seq<u8>) -> Option<int>
    decreases b.len() + 1 - from,
{
    if from < 0 || from + n.len() > b.len() {
        None
    } else if matches_at(b, from, n) {
        Some(from)
    } else {
        find_spec(b, from + 1, n)
    }
}

/// What `find_spec` returns is a match at or after `from`, and there is
/// none before it.
pub proof fn lemma_find_spec(b: Seq<u8>, from: int, n: Seq<u8>)
    ensures
        find_spec(b, from, n) matches Some(i) ==> from <= i && i + n.len() <= b.len() && matches_at(
            b,
            i,
            n,
        ),
        find_spec(b, from, n) matches Some(i) ==> forall|j: int|
            from <= j < i ==> !matches_at(b, j, n),
        find_spec(b, from, n) is None && from >= 0 ==> forall|j: int| from <= j ==> !matches_at(b, j, n),
    decreases b.len() + 1 - from,
{
    if from < 0 || from + n.len() > b.len() {
    } else if matches_at(b, from, n) {
    } else {
        lemma_find_spec(b, from + 1, n);
    }
}

/// Skipping positions that do not start `n` does not change the search.
pub proof fn lemma_find_skip(b: Seq<u8>, from: int, to: int, n: Seq<u8>)
    requires
        0 <= from <= to,
        n.len() > 0,
        forall|j: int| from <= j < to && j < b.len() ==> b[j] != n[0],
    ensures
        find_spec(b, from, n) == find_spec(b, to, n),
    decreases to - from,
{
    if from < to {
        if from + n.len() > b.len() {
            assert(find_spec(b, to, n) is None);
        } else {
            assert(b.subrange(from, from + n.len())[0] == b[from]);
            lemma_find_skip(b, from + 1, to, n);
        }
    }
}

/// Whether the bytes of `n` appear in `b` at position `i`.
fn bytes_match_at(b: &[u8], i: usize, n: &[u8]) -> (r: bool)
    requires
        i + n@.len() <= b@.len(),
    ensures
        r == matches_at(b@, i as int, n@),
{
    let bl = b.len();
    let mut k: usize = 0;
    while k < n.len()
        invariant
            bl == b@.len(),
            i + n@.len() <= b@.len(),
            0 <= k <= n@.len(),
            forall|j: int| 0 <= j < k ==> b@[i + j] == n@[j],
        decreases n@.len() - k,
    {
        if b[i + k] != n[k] {
            assert(b@.subrange(i as int, i + n@.len())[k as int] != n@[k as int]);
            return false;
        }
        k += 1;
    }
    assert(b@.subrange(i as int, i + n@.len()) =~= n@);
    true
}

/// The first byte position at or after `from` where `n` occurs in `b`.
pub fn find_bytes(b: &[u8], from: usize, n: &[u8]) -> (r: Option<usize>)
    ensures
        r == (match find_spec(b@, from as int, n@) {
            Some(i) => Some(i as usize),
            None => None::<usize>,
        }),
{
    let mut i = from;
    if n.len() > b.len() {
        assert(find_spec(b@, from as int, n@) is None);
        return None;
    }
    let bl = b.len();
    if n.len() == 0 {
        if from > bl {
            return None;
        }
        assert(b@.subrange(from as int, from as int) =~= n@);
        return Some(from);
    }
    while i <= bl - n.len()
        invariant
            bl == b@.len(),
            from <= i,
            0 < n@.len() <= b@.len(),
            find_spec(b@, from as int, n@) == find_spec(b@, i as int, n@),
        decreases b@.len() + 1 - i,
    {
        if bytes_match_at(b, i, n) {
            return Some(i);
        }
        i += 1;
    }
    None
}

/// The bytes of a string are valid UTF-8 and decode back to it.
pub proof fn lemma_str_bytes(s: &str)
    ensures
        valid_utf8(s.spec_bytes()),
        decode_utf8(s.spec_bytes()) == s@,
{
    encode_utf8_valid_utf8(s@);
    encode_utf8_decode_utf8(s@);
}

/// A position holding a byte below 128, or the end, is a character
/// boundary.
pub proof fn lemma_ascii_boundary(b: Seq<u8>, i: int)
    requires
        valid_utf8(b),
        0 <= i <= b.len(),
        i == b.len() || b[i] < 128,
    ensures
        is_char_boundary(b, i),
{
    if i == b.len() {
        is_char_boundary_start_end_of_seq(b);
    } else {
        is_char_boundary_iff_not_is_continuation_byte(b, i);
    }
}

/// The part of `s` from byte `start` to byte `end`.
pub fn substr(s: &str, start: usize, end: usize) -> (r: &str)
    requires
        start <= end <= s.spec_bytes().len(),
        is_char_boundary(s.spec_bytes(), start as int),
        is_char_boundary(s.spec_bytes(), end as int),
    ensures
        r@ == decode_utf8(s.spec_bytes().subrange(start as int, end as int)),
        r.spec_bytes() == s.spec_bytes().subrange(start as int, end as int),
{
    let ghost b = s.spec_bytes();
    proof {
        lemma_str_bytes(s);
        valid_utf8_split(b, end as int);
    }
    let (pre, _) = s.split_at(end);
    let ghost pb = pre.spec_bytes();
    proof {
        assert(pb =~= b.subrange(0, end as int));
        if start == end {
            is_char_boundary_start_end_of_seq(pb);
        } else if start > 0 {
            is_char_boundary_iff_not_is_continuation_byte(b, start as int);
            is_char_boundary_iff_not_is_continuation_byte(pb, start as int);
        }
    }
    let (_, r) = pre.split_at(start);
    proof {
        assert(r.spec_bytes() =~= b.subrange(start as int, end as int));
        lemma_str_bytes(r);
    }
    r
}

/// The first byte position at or after `pos` where `needle` occurs in
/// `s`.
pub fn find_from(s: &str, pos: usize, needle: &str) -> (r: Option<usize>)
    requires
        pos <= s.spec_bytes().len(),
        is_char_boundary(s.spec_bytes(), pos as int),
    ensures
        r == (match find_spec(s.spec_bytes(), pos as int, needle.spec_bytes()) {
            Some(i) => Some(i as usize),
            None => None::<usize>,
        }),
{
    find_bytes(s.as_bytes(), pos, needle.as_bytes())
}

/// A string has at most as many characters as bytes.
pub proof fn lemma_chars_le_bytes(chars: Seq<char>)
    ensures
        chars.len() <= encode_utf8(chars).len(),
    decreases chars.len(),
{
    if chars.len() > 0 {
        lemma_chars_le_bytes(chars.drop_first());
    }
}

/// A position following a byte below 128 is a character boundary.
pub proof fn lemma_after_ascii(b: Seq<u8>, i: int)
    requires
        valid_utf8(b),
        0 <= i < b.len(),
        b[i] < 128,
    ensures
        is_char_boundary(b, i + 1),
{
    if i + 1 == b.len() {
        is_char_boundary_start_end_of_seq(b);
    } else {
        is_char_boundary_iff_not_is_continuation_byte(b, i);
        valid_utf8_split(b, i);
        let s = b.subrange(i, b.len() as int);
        assert(s[0] == b[i]);
        reveal_with_fuel(is_char_boundary, 2);
        reveal_with_fuel(valid_utf8, 2);
        assert(is_char_boundary(s, 1));
        is_char_boundary_iff_not_is_continuation_byte(s, 1);
        assert(s[1] == b[i + 1]);
        is_char_boundary_iff_not_is_continuation_byte(b, i + 1);
    }
}


/// Encoding a concatenation gives the concatenated encodings.
pub proof fn lemma_encode_utf8_concat(a: Seq<char>, b: Seq<char>)
    ensures
        encode_utf8(a + b) == encode_utf8(a) + encode_utf8(b),
    decreases a.len(),
{
    if a.len() > 0 {
        lemma_encode_utf8_concat(a.drop_first(), b);
        assert((a + b).drop_first() =~= a.drop_first() + b);
        assert((a + b)[0] == a[0]);
        assert(encode_utf8(a + b) =~= encode_scalar(a[0] as u32) + encode_utf8(a.drop_first() + b));
    } else {
        assert(a + b =~= b);
    }
}

} // verus!
