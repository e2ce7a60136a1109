//! String-level path operations: file name suffixes, segments, and
//! (through `std::path`) joining and extension replacement.

use std::path::{Path, PathBuf};

use vstd::prelude::*;
use vstd::string::*;
use vstd::utf8::*;

use crate::ahtml::strutil::{lemma_after_ascii, lemma_ascii_boundary, lemma_str_bytes, substr};
use crate::ahtml::meta::str_eq;

verus! {

/// An ASCII word character: a letter, a digit or '_'.
pub open spec fn is_word_byte(c: u8) -> bool {
    (48 <= c <= 57) || (65 <= c <= 90) || (97 <= c <= 122) || c == 95
}

/// The position of the last byte before `i` that is not an ASCII word
/// character, or -1.
pub open spec fn last_non_word(b: Seq<u8>, i: int) -> int
    decreases i,
{
    if i <= 0 {
        -1
    } else if !is_word_byte(b[i - 1]) {
        i - 1
    } else {
        last_non_word(b, i - 1)
    }
}

/// The position of the '.' that starts the suffix of `b`: the suffix
/// is all ASCII word characters and follows that '.'.
pub open spec fn suffix_dot(b: Seq<u8>) -> Option<int> {
    let j = last_non_word(b, b.len() as int);
    if j >= 0 && b[j] == 46 {
        Some(j)
    } else {
        None
    }
}

proof fn lemma_last_non_word(b: Seq<u8>, i: int)
    requires
        0 <= i <= b.len(),
    ensures
        -1 <= last_non_word(b, i) < i,
        last_non_word(b, i) >= 0 ==> !is_word_byte(b[last_non_word(b, i)]),
        forall|k: int| last_non_word(b, i) < k < i ==> is_word_byte(#[trigger] b[k]),
    decreases i,
{
    if i > 0 && is_word_byte(b[i - 1]) {
        lemma_last_non_word(b, i - 1);
    }
}

fn is_word_b(c: u8) -> (r: bool)
    ensures
        r == is_word_byte(c),
{
    (48 <= c && c <= 57) || (65 <= c && c <= 90) || (97 <= c && c <= 122) || c == 95
}

/// Splits `s` at the '.' before its suffix (ASCII word characters up
/// to the end): the bytes before the '.', and the suffix.
pub fn _base_and_suffix(s: &str) -> (r: Option<(&[u8], &str)>)
    ensures
        match suffix_dot(s.spec_bytes()) {
            None => r is None,
            Some(j) => r matches Some((base, suf)) && base@ == s.spec_bytes().subrange(0, j)
                && suf.spec_bytes() == s.spec_bytes().subrange(j + 1, s.spec_bytes().len() as int),
        },
{
    let bs = s.as_bytes();
    let len = bs.len();
    let ghost b = bs@;
    proof {
        lemma_last_non_word(b, len as int);
        lemma_str_bytes(s);
    }
    let mut i: usize = len;
    while i > 0 && is_word_b(bs[i - 1])
        invariant
            i <= len,
            len == b.len(),
            bs@ == b,
            last_non_word(b, len as int) == last_non_word(b, i as int),
        decreases i,
    {
        i = i - 1;
    }
    if i == 0 || bs[i - 1] != 46 {
        return None;
    }
    let j = i - 1;
    proof {
        lemma_ascii_boundary(b, j as int);
        lemma_last_non_word(b, len as int);
        assert(forall|k: int| j < k < len ==> is_word_byte(#[trigger] b[k]));
        if i < len {
            lemma_ascii_boundary(b, i as int);
        } else {
            lemma_ascii_boundary(b, len as int);
        }
        lemma_ascii_boundary(b, len as int);
    }
    let (base, _) = bs.split_at(j);
    let suf = substr(s, i, len);
    Some((base, suf))
}

pub fn base_and_suffix(s: &str) -> (r: Option<(&str, &str)>)
    ensures
        match suffix_dot(s.spec_bytes()) {
            None => r is None,
            Some(j) => r matches Some((base, suf)) && base.spec_bytes() == s.spec_bytes().subrange(
                0,
                j,
            ) && suf.spec_bytes() == s.spec_bytes().subrange(j + 1, s.spec_bytes().len() as int),
        },
{
    let bs = s.as_bytes();
    proof {
        lemma_last_non_word(bs@, bs@.len() as int);
    }
    match _base_and_suffix(s) {
        None => None,
        Some((base, suf)) => {
            let j = base.len();
            let ghost j0 = suffix_dot(bs@)->0;
            proof {
                assert(suffix_dot(bs@) is Some);
                assert(j == j0);
                assert(bs@[j0] == 46);
                lemma_str_bytes(s);
                lemma_ascii_boundary(bs@, j as int);
                is_char_boundary_start_end_of_seq(bs@);
            }
            let b = substr(s, 0, j);
            Some((b, suf))
        },
    }
}

pub fn base(s: &str) -> (r: Option<&str>)
    ensures
        match suffix_dot(s.spec_bytes()) {
            None => r is None,
            Some(j) => r matches Some(base) && base.spec_bytes() == s.spec_bytes().subrange(0, j),
        },
{
    match base_and_suffix(s) {
        None => None,
        Some((b, _)) => Some(b),
    }
}

/// The suffix of `s` (after the last '.'), if it consists of ASCII
/// word characters (letters, digits, '_') only.
pub fn suffix(s: &str) -> (r: Option<&str>)
    ensures
        match suffix_dot(s.spec_bytes()) {
            None => r is None,
            Some(j) => r matches Some(suf) && suf.spec_bytes() == s.spec_bytes().subrange(
                j + 1,
                s.spec_bytes().len() as int,
            ),
        },
{
    match _base_and_suffix(s) {
        None => None,
        Some((_, suf)) => Some(suf),
    }
}

/// The non-empty '/'-separated segments of the bytes `b`, where `cur`
/// holds the bytes of the segment begun before `b`.
pub open spec fn segments_from(b: Seq<u8>, cur: Seq<u8>) -> Seq<Seq<u8>>
    decreases b.len(),
{
    if b.len() == 0 {
        if cur.len() > 0 {
            seq![cur]
        } else {
            Seq::empty()
        }
    } else if b[0] == 47 {
        (if cur.len() > 0 {
            seq![cur]
        } else {
            Seq::empty()
        }) + segments_from(b.drop_first(), Seq::empty())
    } else {
        segments_from(b.drop_first(), cur.push(b[0]))
    }
}

/// The segments of `s`, dropping empty ones wherever they are
/// (beginning, end or middle). Useful for search (walking into a
/// trie), not as sole information for path operations.
pub fn path_segments(s: &str) -> (r: Vec<&str>)
    ensures
        r@.len() == segments_from(s.spec_bytes(), Seq::empty()).len(),
        forall|k: int|
            0 <= k < r@.len() ==> (#[trigger] r@[k]).spec_bytes() == segments_from(
                s.spec_bytes(),
                Seq::empty(),
            )[k],
{
    let bs = s.as_bytes();
    let len = bs.len();
    let ghost b = bs@;
    proof {
        lemma_str_bytes(s);
        is_char_boundary_start_end_of_seq(b);
    }
    let mut out: Vec<&str> = Vec::new();
    let mut start: usize = 0;
    let mut i: usize = 0;
    assert(b.subrange(0, len as int) =~= b);
    assert(b.subrange(0, 0) =~= Seq::<u8>::empty());
    assert(out@.map_values(|t: &str| t.spec_bytes()) =~= Seq::<Seq<u8>>::empty());
    while i < len
        invariant
            start <= i <= len,
            len == b.len(),
            bs@ == b,
            b == s.spec_bytes(),
            valid_utf8(b),
            is_char_boundary(b, start as int),
            forall|k: int| start <= k < i ==> b[k] != 47,
            segments_from(b, Seq::empty()) == out@.map_values(|t: &str| t.spec_bytes())
                + segments_from(b.subrange(i as int, len as int), b.subrange(start as int, i as int)),
        decreases len - i,
    {
        let ghost rest = b.subrange(i as int, len as int);
        assert(rest[0] == b[i as int]);
        assert(rest.drop_first() =~= b.subrange(i + 1, len as int));
        if bs[i] == 47 {
            proof {
                lemma_ascii_boundary(b, i as int);
                if i + 1 < len {
                    assert(b[i as int] < 128);
                }
            }
            if i > start {
                let seg = substr(s, start, i);
                out.push(seg);
            }
            proof {
                lemma_after_ascii(b, i as int);
            }
            i = i + 1;
            start = i;
            assert(b.subrange(start as int, i as int) =~= Seq::<u8>::empty());
        } else {
            assert(b.subrange(start as int, i + 1) =~= b.subrange(start as int, i as int).push(b[i as int]));
            i = i + 1;
        }
    }
    if i > start {
        proof {
            is_char_boundary_start_end_of_seq(b);
        }
        let seg = substr(s, start, len);
        out.push(seg);
    }
    proof {
        assert(b.subrange(len as int, len as int) =~= Seq::<u8>::empty());
    }
    out
}

/// What `PathBuf::push` makes of `base` with `rel` pushed onto it.
pub uninterp spec fn path_pushed(base: Seq<char>, rel: Seq<char>) -> Seq<char>;

/// What `Path::extension` gives for a path.
pub uninterp spec fn path_extension(p: Seq<char>) -> Option<Seq<char>>;

/// What `Path::with_extension` gives for a path and an extension.
pub uninterp spec fn path_with_extension(p: Seq<char>, ext: Seq<char>) -> Seq<char>;

/// `PathBuf::push` of `rel` onto `base`. Both are UTF-8, so the result
/// is too. As documented, a relative `rel` (not starting with '/')
/// extends the path: `base` stays in front and `rel` ends the result.
#[verifier::external_body]
fn pathbuf_push(base: &str, rel: &str) -> (r: String)
    ensures
        r@ == path_pushed(base@, rel@),
        (rel@.len() == 0 || rel@[0] != '/') ==> base@.is_prefix_of(r@) && rel@.is_suffix_of(r@),
{
    let mut p = PathBuf::from(base);
    p.push(rel);
    p.to_string_lossy().into_owned()
}

/// `Path::extension`, as a string (the path is UTF-8, so its extension
/// is too).
#[verifier::external_body]
pub(crate) fn std_path_extension(p: &str) -> (r: Option<String>)
    ensures
        r matches Some(e) ==> path_extension(p@) == Some(e@),
        r is None ==> path_extension(p@) is None,
{
    Path::new(p).extension().map(|e| e.to_string_lossy().into_owned())
}

/// `Path::with_extension`. Recent std panics on an extension holding a
/// path separator, so that is left out.
#[verifier::external_body]
fn std_path_with_extension(p: &str, ext: &str) -> (r: String)
    requires
        !ext@.contains('/'),
    ensures
        r@ == path_with_extension(p@, ext@),
{
    Path::new(p).with_extension(ext).to_string_lossy().into_owned()
}

/// `base` with `rel` appended (as `PathBuf::push` does it).
pub fn path_append(base: &str, rel: &str) -> (r: String)
    ensures
        r@ == path_pushed(base@, rel@),
        (rel@.len() == 0 || rel@[0] != '/') ==> base@.is_prefix_of(r@) && rel@.is_suffix_of(r@),
{
    pathbuf_push(base, rel)
}

/// The path with its extension replaced by `new_extension`, if its
/// extension is `orig_extension`; `None` otherwise (also if it has
/// none). The new extension holds no '/'.
pub fn path_replace_extension(p: &str, orig_extension: &str, new_extension: &str) -> (r: Option<
    String,
>)
    requires
        !new_extension@.contains('/'),
    ensures
        path_extension(p@) == Some(orig_extension@) ==> (r matches Some(q) && q@
            == path_with_extension(p@, new_extension@)),
        path_extension(p@) != Some(orig_extension@) ==> r is None,
{
    match std_path_extension(p) {
        None => None,
        Some(ext) => {
            if str_eq(ext.as_str(), orig_extension) {
                Some(std_path_with_extension(p, new_extension))
            } else {
                None
            }
        },
    }
}

/// Whether the path's extension is `ext`.
pub fn extension_eq(path: &str, ext: &str) -> (r: bool)
    ensures
        r == (path_extension(path@) == Some(ext@)),
{
    match std_path_extension(path) {
        None => false,
        Some(e) => str_eq(e.as_str(), ext),
    }
}

} // verus!
