//! Utilities for HTML contexts: turning URLs in text into links.

use vstd::prelude::*;
use vstd::string::*;
use vstd::utf8::*;

use super::allocator::{max_u32, AhtmlError, ASlice, AVec, HtmlAllocator, Node};
use super::check::{att_at, att_slice_resolves, atts_check, body_check, element_check, node_at, node_slice_resolves};
use super::meta::ElementMeta;
use super::strutil::{lemma_after_ascii, find_from, find_spec, lemma_ascii_boundary, lemma_find_skip, lemma_find_spec, lemma_str_bytes, substr};

verus! {

pub open spec fn is_ascii_alnum(c: char) -> bool {
    ('0' <= c && c <= '9') || ('a' <= c && c <= 'z') || ('A' <= c && c <= 'Z')
}

/// Characters that are OK in http/https URLs for auto-detection
/// purposes.
pub fn is_url_character(c: char) -> (r: bool)
    ensures
        r == (is_ascii_alnum(c) || c == ':' || c == '/' || c == '.' || c == '-' || c == '%' || c
            == '='),
{
    ('0' <= c && c <= '9') || ('a' <= c && c <= 'z') || ('A' <= c && c <= 'Z') || c == ':' || c
        == '/' || c == '.' || c == '-' || c == '%' || c == '='
}

/// Characters unlikely to be part of an URL at its end (but OK in the
/// middle).
pub fn is_character_to_exclude_at_end(c: char) -> (r: bool)
    ensures
        r == (c == ':' || c == '.' || c == '-' || c == '%' || c == '='),
{
    c == ':' || c == '.' || c == '-' || c == '%' || c == '='
}

/// Characters expected in front (left) of an URL: a word boundary.
pub fn is_character_in_front(c: Option<char>) -> (r: bool)
    ensures
        r == match c {
            Some(c) => !is_ascii_alnum(c),
            None => true,
        },
{
    if let Some(c) = c {
        !(('0' <= c && c <= '9') || ('a' <= c && c <= 'z') || ('A' <= c && c <= 'Z'))
    } else {
        true
    }
}

pub open spec fn is_alnum_byte(c: u8) -> bool {
    (48 <= c <= 57) || (65 <= c <= 90) || (97 <= c <= 122)
}

pub open spec fn is_url_byte(c: u8) -> bool {
    is_alnum_byte(c) || c == 58 || c == 47 || c == 46 || c == 45 || c == 37 || c == 61
}

pub open spec fn is_end_excluded_byte(c: u8) -> bool {
    c == 58 || c == 46 || c == 45 || c == 37 || c == 61
}

/// The bytes a link runs over are exactly the ASCII letters and digits
/// and `:/.-%=`; and every byte left out at the end of a link is one
/// that a link runs over, so inside a URL it is kept.
pub proof fn lemma_url_bytes(c: u8)
    ensures
        is_url_byte(c) <==> ((48 <= c <= 57) || (65 <= c <= 90) || (97 <= c <= 122) || c == 58
            || c == 47 || c == 46 || c == 45 || c == 37 || c == 61),
        is_end_excluded_byte(c) ==> is_url_byte(c),
        is_end_excluded_byte(c) <==> (c == 58 || c == 46 || c == 45 || c == 37 || c == 61),
{
}

/// The bytes of "http".
pub open spec fn http_bytes() -> Seq<u8> {
    seq![104u8, 116u8, 116u8, 112u8]
}

/// The first position at or after `from` that does not hold an URL
/// character (or the end).
pub open spec fn url_scan_end(b: Seq<u8>, from: int) -> int
    decreases b.len() - from,
{
    if from >= b.len() || from < 0 {
        b.len() as int
    } else if !is_url_byte(b[from]) {
        from
    } else {
        url_scan_end(b, from + 1)
    }
}

/// How many bytes of "s:" or ":" follow the "http" at `pos` (0 for
/// neither).
pub open spec fn scheme_rest_len(b: Seq<u8>, pos: int) -> int {
    let r = pos + 4;
    if r < b.len() && b[r] == 115 {
        if r + 1 < b.len() && b[r + 1] == 58 {
            2
        } else {
            0
        }
    } else if r < b.len() && b[r] == 58 {
        1
    } else {
        0
    }
}

/// Where the link starting with the "http" at `pos` ends: the URL is
/// "http:" or "https:", then "//", then at least one URL character
/// once one final character among `:.-%=` is left out; it follows a
/// word boundary.
pub open spec fn link_end(b: Seq<u8>, pos: int) -> Option<int> {
    let k = scheme_rest_len(b, pos);
    let r = pos + 4 + k;
    if !(pos == 0 || !is_alnum_byte(b[pos - 1])) || k == 0 {
        None
    } else if !(r + 2 <= b.len() && b[r] == 47 && b[r + 1] == 47) {
        None
    } else {
        let end = url_scan_end(b, r + 2);
        if end == r + 2 {
            None
        } else if is_end_excluded_byte(b[end - 1]) {
            if end - 1 == r + 2 {
                None
            } else {
                Some(end - 1)
            }
        } else {
            Some(end)
        }
    }
}

/// A text that is "https://" followed by letters, digits and `:/.-%=`
/// (at least one, the last not among `:.-%=`) is one link from its
/// start to its end: none of these characters ends the URL early.
pub proof fn lemma_https_link_whole(w: Seq<u8>)
    requires
        w.len() > 0,
        forall|i: int|
            0 <= i < w.len() ==> {
                let c = #[trigger] w[i];
                (48 <= c <= 57) || (65 <= c <= 90) || (97 <= c <= 122) || c == 58 || c == 47 || c
                    == 46 || c == 45 || c == 37 || c == 61
            },
        !(w.last() == 58 || w.last() == 46 || w.last() == 45 || w.last() == 37 || w.last() == 61),
    ensures
        link_end(seq![104u8, 116u8, 116u8, 112u8, 115u8, 58u8, 47u8, 47u8] + w, 0) == Some(
            8 + w.len() as int,
        ),
{
    let b = seq![104u8, 116u8, 116u8, 112u8, 115u8, 58u8, 47u8, 47u8] + w;
    assert(b[4] == 115u8 && b[5] == 58u8 && b[6] == 47u8 && b[7] == 47u8);
    assert(scheme_rest_len(b, 0) == 2);
    lemma_url_scan_end(b, 8);
    let end = url_scan_end(b, 8);
    if end < b.len() {
        assert(b[end] == w[end - 8]);
        lemma_url_bytes(b[end]);
    }
    assert(end == b.len());
    assert(b[end - 1] == w.last());
}

/// A part of the text: plain (byte range) or link (byte range).
pub enum Piece {
    Text(int, int),
    Link(int, int),
}

pub proof fn lemma_url_scan_end(b: Seq<u8>, from: int)
    requires
        0 <= from <= b.len(),
    ensures
        from <= url_scan_end(b, from) <= b.len(),
        forall|j: int| from <= j < url_scan_end(b, from) ==> is_url_byte(#[trigger] b[j]),
        url_scan_end(b, from) < b.len() ==> !is_url_byte(b[url_scan_end(b, from)]),
    decreases b.len() - from,
{
    if from < b.len() && is_url_byte(b[from]) {
        lemma_url_scan_end(b, from + 1);
    }
}

pub proof fn lemma_link_end(b: Seq<u8>, pos: int)
    requires
        0 <= pos,
        pos + 4 <= b.len(),
    ensures
        link_end(b, pos) matches Some(e) ==> pos + 4 < e <= b.len(),
{
    let k = scheme_rest_len(b, pos);
    let r = pos + 4 + k;
    if r + 2 <= b.len() {
        lemma_url_scan_end(b, r + 2);
    }
}

/// The pieces of the text from position `from` on, where `done` is the
/// end of the last link (or 0).
pub open spec fn autolink_from(b: Seq<u8>, from: int, done: int) -> Seq<Piece>
    decreases b.len() + 1 - from,
{
    if from < 0 {
        Seq::empty()
    } else {
        match find_spec(b, from, http_bytes()) {
            None => if done < b.len() {
                seq![Piece::Text(done, b.len() as int)]
            } else {
                Seq::empty()
            },
            Some(pos) => {
                proof {
                    lemma_find_spec(b, from, http_bytes());
                    lemma_link_end(b, pos);
                }
                match link_end(b, pos) {
                    Some(e) => (if pos > done {
                        seq![Piece::Text(done, pos)]
                    } else {
                        Seq::empty()
                    }) + seq![Piece::Link(pos, e)] + autolink_from(b, e, e),
                    None => autolink_from(b, pos + 4, done),
                }
            },
        }
    }
}

/// Where a piece starts in the text.
pub open spec fn piece_start(p: Piece) -> int {
    match p {
        Piece::Text(s, _) => s,
        Piece::Link(s, _) => s,
    }
}

/// Where a piece ends in the text.
pub open spec fn piece_end(p: Piece) -> int {
    match p {
        Piece::Text(_, e) => e,
        Piece::Link(_, e) => e,
    }
}

/// The pieces `ps` are non-empty ranges that follow each other without
/// a gap, from `from` to `to`.
pub open spec fn tiles(ps: Seq<Piece>, from: int, to: int) -> bool
    decreases ps.len(),
{
    if ps.len() == 0 {
        from == to
    } else {
        &&& piece_start(ps[0]) == from
        &&& from < piece_end(ps[0])
        &&& tiles(ps.drop_first(), piece_end(ps[0]), to)
    }
}

/// Each link piece of `ps` is a link that `link_end` finds at its start.
pub open spec fn links_found(b: Seq<u8>, ps: Seq<Piece>) -> bool {
    forall|k: int|
        0 <= k < ps.len() ==> (#[trigger] ps[k] matches Piece::Link(s, e) ==> link_end(b, s) == Some(
            e,
        ))
}

proof fn lemma_tiles_concat(a: Seq<Piece>, c: Seq<Piece>, x: int, y: int, z: int)
    requires
        tiles(a, x, y),
        tiles(c, y, z),
    ensures
        tiles(a + c, x, z),
    decreases a.len(),
{
    if a.len() > 0 {
        lemma_tiles_concat(a.drop_first(), c, piece_end(a[0]), y, z);
        assert((a + c).drop_first() =~= a.drop_first() + c);
    }
}

proof fn lemma_autolink_tiles(b: Seq<u8>, from: int, done: int)
    requires
        0 <= done <= from <= b.len(),
    ensures
        tiles(autolink_from(b, from, done), done, b.len() as int),
        links_found(b, autolink_from(b, from, done)),
    decreases b.len() + 1 - from,
{
    let ps = autolink_from(b, from, done);
    lemma_find_spec(b, from, http_bytes());
    match find_spec(b, from, http_bytes()) {
        None => {
            if done < b.len() {
                assert(ps.drop_first() =~= Seq::<Piece>::empty());
                assert(tiles(ps.drop_first(), b.len() as int, b.len() as int));
            }
        },
        Some(pos) => {
            lemma_link_end(b, pos);
            match link_end(b, pos) {
                Some(e) => {
                    lemma_autolink_tiles(b, e, e);
                    let rest = autolink_from(b, e, e);
                    let front = (if pos > done {
                        seq![Piece::Text(done, pos)]
                    } else {
                        Seq::<Piece>::empty()
                    }) + seq![Piece::Link(pos, e)];
                    let link = seq![Piece::Link(pos, e)];
                    assert(link.drop_first() =~= Seq::<Piece>::empty());
                    assert(tiles(link.drop_first(), e, e));
                    assert(tiles(link, pos, e));
                    if pos > done {
                        let t = seq![Piece::Text(done, pos)];
                        assert(t.drop_first() =~= Seq::<Piece>::empty());
                        assert(tiles(t.drop_first(), pos, pos));
                        assert(tiles(t, done, pos));
                        lemma_tiles_concat(t, link, done, pos, e);
                        assert(front =~= t + link);
                    } else {
                        assert(front =~= link);
                    }
                    lemma_tiles_concat(front, rest, done, e, b.len() as int);
                    assert(ps == front + rest);
                    assert forall|k: int| 0 <= k < ps.len() implies (#[trigger] ps[k] matches Piece::Link(
                        s,
                        e2,
                    ) ==> link_end(b, s) == Some(e2)) by {
                        if k >= front.len() {
                            assert(ps[k] == rest[k - front.len()]);
                        }
                    }
                },
                None => {
                    lemma_autolink_tiles(b, pos + 4, done);
                },
            }
        },
    }
}

/// Every piece of `ps` starts at a character boundary of `b`.
pub open spec fn starts_at_boundaries(b: Seq<u8>, ps: Seq<Piece>) -> bool {
    forall|k: int| 0 <= k < ps.len() ==> is_char_boundary(b, piece_start(#[trigger] ps[k]))
}

/// The characters of the pieces `ps` of the text with bytes `b`, in
/// order.
pub open spec fn pieces_text(b: Seq<u8>, ps: Seq<Piece>) -> Seq<char>
    decreases ps.len(),
{
    if ps.len() == 0 {
        Seq::empty()
    } else {
        decode_utf8(b.subrange(piece_start(ps[0]), piece_end(ps[0]))) + pieces_text(
            b,
            ps.drop_first(),
        )
    }
}

proof fn lemma_autolink_boundaries(b: Seq<u8>, from: int, done: int)
    requires
        valid_utf8(b),
        0 <= done <= from <= b.len(),
        is_char_boundary(b, done),
    ensures
        starts_at_boundaries(b, autolink_from(b, from, done)),
    decreases b.len() + 1 - from,
{
    let ps = autolink_from(b, from, done);
    lemma_find_spec(b, from, http_bytes());
    match find_spec(b, from, http_bytes()) {
        None => {},
        Some(pos) => {
            lemma_link_end(b, pos);
            match link_end(b, pos) {
                Some(e) => {
                    assert(b.subrange(pos, pos + 4)[0] == b[pos]);
                    lemma_ascii_boundary(b, pos);
                    let k = scheme_rest_len(b, pos);
                    let r = pos + 4 + k;
                    lemma_url_scan_end(b, r + 2);
                    assert(is_url_byte(b[e - 1]));
                    lemma_after_ascii(b, e - 1);
                    lemma_autolink_boundaries(b, e, e);
                    let rest = autolink_from(b, e, e);
                    let front = (if pos > done {
                        seq![Piece::Text(done, pos)]
                    } else {
                        Seq::<Piece>::empty()
                    }) + seq![Piece::Link(pos, e)];
                    assert(ps == front + rest);
                    assert forall|j: int| 0 <= j < ps.len() implies is_char_boundary(
                        b,
                        piece_start(#[trigger] ps[j]),
                    ) by {
                        if j >= front.len() {
                            assert(ps[j] == rest[j - front.len()]);
                        }
                    }
                },
                None => {
                    lemma_autolink_boundaries(b, pos + 4, done);
                },
            }
        },
    }
}

/// Pieces that tile `b` from a character boundary to its end, each
/// starting at a boundary, hold the characters of that part in order.
proof fn lemma_tiles_decode(b: Seq<u8>, ps: Seq<Piece>, from: int)
    requires
        valid_utf8(b),
        0 <= from <= b.len(),
        is_char_boundary(b, from),
        tiles(ps, from, b.len() as int),
        starts_at_boundaries(b, ps),
    ensures
        pieces_text(b, ps) == decode_utf8(b.subrange(from, b.len() as int)),
    decreases ps.len(),
{
    if ps.len() == 0 {
        assert(b.subrange(from, b.len() as int) =~= Seq::<u8>::empty());
        assert(decode_utf8(Seq::<u8>::empty()) =~= Seq::<char>::empty());
    } else {
        let e0 = piece_end(ps[0]);
        let rest = ps.drop_first();
        assert(tiles(rest, e0, b.len() as int));
        lemma_tiles_bounds(rest, e0, b.len() as int);
        assert forall|k: int| 0 <= k < rest.len() implies is_char_boundary(
            b,
            piece_start(#[trigger] rest[k]),
        ) by {
            assert(rest[k] == ps[k + 1]);
        }
        if rest.len() > 0 {
            assert(is_char_boundary(b, piece_start(ps[1])));
            assert(piece_start(rest[0]) == e0);
        } else {
            assert(e0 == b.len());
            is_char_boundary_start_end_of_seq(b);
        }
        assert(is_char_boundary(b, e0));
        lemma_tiles_decode(b, rest, e0);
        let c = b.subrange(from, b.len() as int);
        valid_utf8_split(b, from);
        if e0 < b.len() {
            is_char_boundary_iff_not_is_continuation_byte(b, e0);
            is_char_boundary_iff_not_is_continuation_byte(c, e0 - from);
            assert(c[e0 - from] == b[e0]);
        } else {
            is_char_boundary_start_end_of_seq(c);
        }
        assert(is_char_boundary(c, e0 - from));
        decode_utf8_split(c, e0 - from);
        assert(c.subrange(0, e0 - from) =~= b.subrange(from, e0));
        assert(c.subrange(e0 - from, c.len() as int) =~= b.subrange(e0, b.len() as int));
    }
}

/// Pieces that tile from `from` to `to` lie between the two.
proof fn lemma_tiles_bounds(ps: Seq<Piece>, from: int, to: int)
    requires
        tiles(ps, from, to),
    ensures
        from <= to,
    decreases ps.len(),
{
    if ps.len() > 0 {
        lemma_tiles_bounds(ps.drop_first(), piece_end(ps[0]), to);
    }
}

/// Nothing of the text is dropped, repeated or reordered: the
/// characters of the pieces that `autolink` turns into nodes (each
/// node holds its piece's characters, as text or as a link's text)
/// are, in order, the characters of the text.
pub proof fn lemma_autolink_keeps_text(text: &str)
    ensures
        pieces_text(text.spec_bytes(), autolink_from(text.spec_bytes(), 0, 0)) == text@,
{
    let b = text.spec_bytes();
    lemma_str_bytes(text);
    is_char_boundary_start_end_of_seq(b);
    lemma_autolink_tiles(b, 0, 0);
    lemma_autolink_boundaries(b, 0, 0);
    lemma_tiles_decode(b, autolink_from(b, 0, 0), 0);
    assert(b.subrange(0, b.len() as int) =~= b);
}

/// The pieces that `autolink` turns into nodes cover the text in order,
/// each non-empty, with nothing left out or repeated, and every link
/// piece is a URL that `link_end` finds where it starts.
pub proof fn lemma_autolink_covers(b: Seq<u8>)
    ensures
        tiles(autolink_from(b, 0, 0), 0, b.len() as int),
        links_found(b, autolink_from(b, 0, 0)),
{
    lemma_autolink_tiles(b, 0, 0);
}

/// Node `nid` of `html` stands for `piece` of the text with bytes `b`:
/// a text node, or an element of kind `a_meta` with the single
/// attribute `href` set to the URL and the URL as its text.
pub open spec fn piece_ok(
    html: &HtmlAllocator,
    nid: u32,
    piece: Piece,
    b: Seq<u8>,
    a_meta: &ElementMeta,
) -> bool {
    &&& nid < html.nodes_view().len()
    &&& match piece {
        Piece::Text(s, e) => (html.nodes_view()[nid as int] matches Some(Node::String(t)) && t@
            == decode_utf8(b.subrange(s, e))),
        Piece::Link(s, e) => match html.nodes_view()[nid as int] {
            Some(Node::Element(el)) => {
                &&& el.meta == a_meta
                &&& el.attr.region() == html.region() && el.body.region() == html.region()
                &&& el.attr.slen() == 1 && el.body.slen() == 1
                &&& el.attr.send() <= html.ids_view().len() && el.body.send()
                    <= html.ids_view().len()
                &&& html.ids_view()[el.attr.sstart() as int] < html.atts_view().len()
                &&& (html.atts_view()[html.ids_view()[el.attr.sstart() as int] as int] matches Some(
                    (k, v),
                ) && k@ == "href"@ && v@ == decode_utf8(b.subrange(s, e)))
                &&& html.ids_view()[el.body.sstart() as int] < html.nodes_view().len()
                &&& (html.nodes_view()[html.ids_view()[el.body.sstart() as int] as int] matches Some(
                    Node::String(u),
                ) && u@ == decode_utf8(b.subrange(s, e)))
            },
            _ => false,
        },
    }
}

/// The id list positions that node `nid` (an element) refers to lie
/// outside `lo .. hi`.
pub open spec fn slices_outside(html: &HtmlAllocator, nid: u32, lo: int, hi: int) -> bool {
    match html.nodes_view()[nid as int] {
        Some(Node::Element(el)) => (el.attr.send() <= lo || el.attr.sstart() >= hi) && (
        el.body.send() <= lo || el.body.sstart() >= hi),
        _ => true,
    }
}

/// What a later state keeps of an earlier one: stored nodes and
/// attributes stay, and the id list only changes at positions `>= lo`
/// and `< hi`, or beyond its old end.
pub open spec fn kept(h1: &HtmlAllocator, h2: &HtmlAllocator, lo: int, hi: int) -> bool {
    &&& h2.region() == h1.region()
    &&& h1.nodes_view().len() <= h2.nodes_view().len()
    &&& forall|i: int| 0 <= i < h1.nodes_view().len() ==> #[trigger] h2.nodes_view()[i] == h1.nodes_view()[i]
    &&& h1.atts_view().len() <= h2.atts_view().len()
    &&& forall|i: int| 0 <= i < h1.atts_view().len() ==> #[trigger] h2.atts_view()[i] == h1.atts_view()[i]
    &&& h1.ids_view().len() <= h2.ids_view().len()
    &&& forall|p: int|
        0 <= p < h1.ids_view().len() && !(lo <= p < hi) ==> #[trigger] h2.ids_view()[p]
            == h1.ids_view()[p]
}

/// Keeping is transitive, where the second step changes no position
/// of the first state's id list that the first step keeps.
pub proof fn lemma_kept_trans(
    h1: &HtmlAllocator,
    h2: &HtmlAllocator,
    h3: &HtmlAllocator,
    lo: int,
    hi: int,
    lo2: int,
    hi2: int,
)
    requires
        kept(h1, h2, lo, hi),
        kept(h2, h3, lo2, hi2),
        hi2 <= lo2 || lo2 >= h1.ids_view().len() || (lo <= lo2 && hi2 <= hi),
    ensures
        kept(h1, h3, lo, hi),
{
    assert forall|p: int| 0 <= p < h1.ids_view().len() && !(lo <= p < hi) implies #[trigger] h3.ids_view()[p]
        == h1.ids_view()[p] by {
        assert(h2.ids_view()[p] == h1.ids_view()[p]);
        assert(h3.ids_view()[p] == h2.ids_view()[p]);
    }
    assert forall|i: int| 0 <= i < h1.nodes_view().len() implies #[trigger] h3.nodes_view()[i]
        == h1.nodes_view()[i] by {
        assert(h2.nodes_view()[i] == h1.nodes_view()[i]);
    }
    assert forall|i: int| 0 <= i < h1.atts_view().len() implies #[trigger] h3.atts_view()[i]
        == h1.atts_view()[i] by {
        assert(h2.atts_view()[i] == h1.atts_view()[i]);
    }
}

pub proof fn lemma_piece_kept(
    h1: &HtmlAllocator,
    h2: &HtmlAllocator,
    lo: int,
    hi: int,
    nid: u32,
    piece: Piece,
    b: Seq<u8>,
    a_meta: &ElementMeta,
)
    requires
        kept(h1, h2, lo, hi),
        piece_ok(h1, nid, piece, b, a_meta),
        slices_outside(h1, nid, lo, hi),
    ensures
        piece_ok(h2, nid, piece, b, a_meta),
        slices_outside(h2, nid, lo, hi),
{
    assert(h2.nodes_view()[nid as int] == h1.nodes_view()[nid as int]);
    if let Piece::Link(s, e) = piece {
        if let Some(Node::Element(el)) = h1.nodes_view()[nid as int] {
            let ap = el.attr.sstart() as int;
            let bp = el.body.sstart() as int;
            assert(h2.ids_view()[ap] == h1.ids_view()[ap]);
            assert(h2.ids_view()[bp] == h1.ids_view()[bp]);
            assert(h2.atts_view()[h1.ids_view()[ap] as int] == h1.atts_view()[h1.ids_view()[ap] as int]);
            assert(h2.nodes_view()[h1.ids_view()[bp] as int] == h1.nodes_view()[h1.ids_view()[bp] as int]);
        }
    }
}

fn is_alnum_b(c: u8) -> (r: bool)
    ensures
        r == is_alnum_byte(c),
{
    (48 <= c && c <= 57) || (65 <= c && c <= 90) || (97 <= c && c <= 122)
}

fn is_url_b(c: u8) -> (r: bool)
    ensures
        r == is_url_byte(c),
{
    is_alnum_b(c) || c == 58 || c == 47 || c == 46 || c == 45 || c == 37 || c == 61
}

/// Where a URL whose address starts at `from` ends: the URL characters
/// from there on, less one final character among `:.-%=`.
fn url_end_at(bytes: &[u8], from: usize) -> (r: usize)
    requires
        from <= bytes@.len(),
    ensures
        r as int == ({
            let e = url_scan_end(bytes@, from as int);
            if e > from && is_end_excluded_byte(bytes@[e - 1]) {
                e - 1
            } else {
                e
            }
        }),
{
    let len = bytes.len();
    proof {
        lemma_url_scan_end(bytes@, from as int);
    }
    let mut end = from;
    while end < len && is_url_b(bytes[end])
        invariant
            from <= end <= len,
            len == bytes@.len(),
            url_scan_end(bytes@, from as int) == url_scan_end(bytes@, end as int),
        decreases len - end,
    {
        end = end + 1;
    }
    if end > from && is_end_excluded_b(bytes[end - 1]) {
        end - 1
    } else {
        end
    }
}

fn is_end_excluded_b(c: u8) -> (r: bool)
    ensures
        r == is_end_excluded_byte(c),
{
    c == 58 || c == 46 || c == 45 || c == 37 || c == 61
}

/// The bytes of "http".
fn http_needle() -> (r: &'static str)
    ensures
        r.spec_bytes() == http_bytes(),
{
    let s = "http";
    proof {
        reveal_strlit("http");
        is_ascii_spec_bytes(s);
        assert(s.spec_bytes() =~= http_bytes());
    }
    s
}

/// The ids `ids` stand for the pieces `acc` in `html`, and the elements
/// among them refer to no id list position in `lo .. hi`.
spec fn pieces_ok(
    html: &HtmlAllocator,
    ids: Seq<u32>,
    acc: Seq<Piece>,
    b: Seq<u8>,
    a_meta: &ElementMeta,
    lo: int,
    hi: int,
) -> bool {
    &&& ids.len() == acc.len()
    &&& forall|k: int| 0 <= k < acc.len() ==> #[trigger] piece_ok(html, ids[k], acc[k], b, a_meta)
    &&& forall|k: int| 0 <= k < acc.len() ==> #[trigger] slices_outside(html, ids[k], lo, hi)
}

/// An element standing for a piece only refers to positions below the
/// end of the id list.
proof fn lemma_piece_below(
    html: &HtmlAllocator,
    nid: u32,
    piece: Piece,
    b: Seq<u8>,
    a_meta: &ElementMeta,
    lo: int,
    hi: int,
)
    requires
        piece_ok(html, nid, piece, b, a_meta),
        lo >= html.ids_view().len(),
    ensures
        slices_outside(html, nid, lo, hi),
{
}

proof fn lemma_pieces_kept(
    h1: &HtmlAllocator,
    h2: &HtmlAllocator,
    lo: int,
    hi: int,
    ids: Seq<u32>,
    acc: Seq<Piece>,
    b: Seq<u8>,
    a_meta: &ElementMeta,
    lo2: int,
    hi2: int,
)
    requires
        kept(h1, h2, lo, hi),
        pieces_ok(h1, ids, acc, b, a_meta, lo, hi),
        (lo2 == lo && hi2 == hi) || lo2 >= h1.ids_view().len(),
    ensures
        pieces_ok(h2, ids, acc, b, a_meta, lo2, hi2),
{
    assert forall|k: int| 0 <= k < acc.len() implies #[trigger] piece_ok(
        h2,
        ids[k],
        acc[k],
        b,
        a_meta,
    ) by {
        assert(piece_ok(h1, ids[k], acc[k], b, a_meta));
        assert(slices_outside(h1, ids[k], lo, hi));
        lemma_piece_kept(h1, h2, lo, hi, ids[k], acc[k], b, a_meta);
    }
    assert forall|k: int| 0 <= k < acc.len() implies #[trigger] slices_outside(
        h2,
        ids[k],
        lo2,
        hi2,
    ) by {
        assert(piece_ok(h1, ids[k], acc[k], b, a_meta));
        assert(slices_outside(h1, ids[k], lo, hi));
        lemma_piece_kept(h1, h2, lo, hi, ids[k], acc[k], b, a_meta);
        if lo2 >= h1.ids_view().len() {
            lemma_piece_below(h1, ids[k], acc[k], b, a_meta, lo2, hi2);
        }
    }
}

proof fn lemma_pieces_push(
    html: &HtmlAllocator,
    ids: Seq<u32>,
    acc: Seq<Piece>,
    b: Seq<u8>,
    a_meta: &ElementMeta,
    lo: int,
    hi: int,
    nid: u32,
    piece: Piece,
)
    requires
        pieces_ok(html, ids, acc, b, a_meta, lo, hi),
        piece_ok(html, nid, piece, b, a_meta),
        slices_outside(html, nid, lo, hi),
    ensures
        pieces_ok(html, ids.push(nid), acc.push(piece), b, a_meta, lo, hi),
{
    let ids2 = ids.push(nid);
    let acc2 = acc.push(piece);
    assert forall|k: int| 0 <= k < acc2.len() implies #[trigger] piece_ok(
        html,
        ids2[k],
        acc2[k],
        b,
        a_meta,
    ) by {
        if k < acc.len() {
            assert(piece_ok(html, ids[k], acc[k], b, a_meta));
        }
    }
    assert forall|k: int| 0 <= k < acc2.len() implies #[trigger] slices_outside(
        html,
        ids2[k],
        lo,
        hi,
    ) by {
        if k < acc.len() {
            assert(slices_outside(html, ids[k], lo, hi));
        }
    }
}

/// Storing a node or an attribute keeps everything stored before.
pub proof fn lemma_kept_store(h1: &HtmlAllocator, h2: &HtmlAllocator)
    requires
        h2.region() == h1.region(),
        h2.ids_view() == h1.ids_view(),
        h1.nodes_view().len() <= h2.nodes_view().len(),
        h2.nodes_view().subrange(0, h1.nodes_view().len() as int) =~= h1.nodes_view(),
        h1.atts_view().len() <= h2.atts_view().len(),
        h2.atts_view().subrange(0, h1.atts_view().len() as int) =~= h1.atts_view(),
    ensures
        forall|lo: int, hi: int| #[trigger] kept(h1, h2, lo, hi),
{
    assert forall|i: int| 0 <= i < h1.nodes_view().len() implies #[trigger] h2.nodes_view()[i]
        == h1.nodes_view()[i] by {
        assert(h2.nodes_view().subrange(0, h1.nodes_view().len() as int)[i] == h2.nodes_view()[i]);
    }
    assert forall|i: int| 0 <= i < h1.atts_view().len() implies #[trigger] h2.atts_view()[i]
        == h1.atts_view()[i] by {
        assert(h2.atts_view().subrange(0, h1.atts_view().len() as int)[i] == h2.atts_view()[i]);
    }
}

/// The elements among `ids` keep referring only to positions at or
/// above `floor` when stored nodes are kept.
proof fn lemma_floor_kept(
    h1: &HtmlAllocator,
    h2: &HtmlAllocator,
    lo: int,
    hi: int,
    ids: Seq<u32>,
    acc: Seq<Piece>,
    b: Seq<u8>,
    a_meta: &ElementMeta,
    lo1: int,
    hi1: int,
    floor: int,
)
    requires
        kept(h1, h2, lo, hi),
        pieces_ok(h1, ids, acc, b, a_meta, lo1, hi1),
        forall|k: int| 0 <= k < ids.len() ==> #[trigger] slices_outside(h1, ids[k], 0, floor),
    ensures
        forall|k: int| 0 <= k < ids.len() ==> #[trigger] slices_outside(h2, ids[k], 0, floor),
{
    assert forall|k: int| 0 <= k < ids.len() implies #[trigger] slices_outside(h2, ids[k], 0, floor) by {
        assert(piece_ok(h1, ids[k], acc[k], b, a_meta));
        assert(slices_outside(h1, ids[k], 0, floor));
        assert(h2.nodes_view()[ids[k] as int] == h1.nodes_view()[ids[k] as int]);
    }
}

/// Pieces found from `x` and from `y` are the same when the next "http"
/// is the same.
proof fn lemma_autolink_skip(b: Seq<u8>, x: int, y: int, done: int)
    requires
        0 <= x,
        0 <= y,
        find_spec(b, x, http_bytes()) == find_spec(b, y, http_bytes()),
    ensures
        autolink_from(b, x, done) == autolink_from(b, y, done),
{
}

/// The id list room that one more push into `v` takes: none while it
/// has room, else its new storage.
pub open spec fn push_cost<T>(v: AVec<T>) -> int {
    if v.vlen() < v.vcap() {
        0
    } else {
        max_u32(2 * v.vcap(), 8)
    }
}

/// The capacity of `v` after one more push.
pub open spec fn pushed_cap<T>(v: AVec<T>) -> int {
    if v.vlen() < v.vcap() {
        v.vcap() as int
    } else {
        max_u32(2 * v.vcap(), 8)
    }
}

/// A link of kind `a_meta` (an `href` attribute and a text child)
/// passes the structure checks of `html`: there are none without a
/// `MetaDb`; with one, `href` is a global attribute or one that
/// `a_meta` declares, and `a_meta` allows text children.
pub open spec fn link_allowed(html: &HtmlAllocator, a_meta: &ElementMeta) -> bool {
    match html.metadb_view() {
        None => true,
        Some(db) => (db.is_global_attribute("href"@) || a_meta.declares_attribute("href"@))
            && a_meta.allows_child_text,
    }
}

/// Appends a text node for bytes `s .. e` of `text` to `nodes`.
fn push_text_piece(
    html: &mut HtmlAllocator,
    nodes: &mut AVec<Node>,
    text: &str,
    s: usize,
    e: usize,
    Ghost(acc): Ghost<Seq<Piece>>,
    Ghost(floor): Ghost<int>,
    a_meta: &ElementMeta,
) -> (r: Result<(), AhtmlError>)
    requires
        old(html).wf(),
        old(nodes).wf_in(old(html)),
        floor <= old(html).ids_view().len(),
        forall|k: int|
            0 <= k < old(nodes).contents(old(html)).len() ==> #[trigger] slices_outside(
                old(html),
                old(nodes).contents(old(html))[k],
                0,
                floor,
            ),
        s <= e <= text.spec_bytes().len(),
        is_char_boundary(text.spec_bytes(), s as int),
        is_char_boundary(text.spec_bytes(), e as int),
        pieces_ok(
            old(html),
            old(nodes).contents(old(html)),
            acc,
            text.spec_bytes(),
            a_meta,
            old(nodes).vstart() as int,
            old(nodes).vstart() + old(nodes).vcap(),
        ),
    ensures
        final(html).wf(),
        final(html).nodes_cap() == old(html).nodes_cap(),
        final(html).atts_cap() == old(html).atts_cap(),
        final(html).ids_cap() == old(html).ids_cap(),
        old(html).nodes_view().len() < old(html).nodes_cap() && old(html).ids_view().len()
            + push_cost(*old(nodes)) <= old(html).ids_cap() ==> r is Ok,
        r is Ok ==> {
            &&& final(html).nodes_view().len() == old(html).nodes_view().len() + 1
            &&& final(html).atts_view().len() == old(html).atts_view().len()
            &&& final(html).ids_view().len() == old(html).ids_view().len() + push_cost(*old(nodes))
            &&& final(nodes).vlen() == old(nodes).vlen() + 1
            &&& final(nodes).vcap() == pushed_cap(*old(nodes))
        },
        r is Err ==> r == Err::<(), AhtmlError>(AhtmlError::OutOfMemory),
        r is Ok ==> forall|k: int|
            0 <= k < final(nodes).contents(final(html)).len() ==> #[trigger] slices_outside(
                final(html),
                final(nodes).contents(final(html))[k],
                0,
                floor,
            ),
        final(html).region() == old(html).region(),
        final(html).metadb_view() == old(html).metadb_view(),
        r is Ok ==> final(nodes).wf_in(final(html)) && pieces_ok(
            final(html),
            final(nodes).contents(final(html)),
            acc.push(Piece::Text(s as int, e as int)),
            text.spec_bytes(),
            a_meta,
            final(nodes).vstart() as int,
            final(nodes).vstart() + final(nodes).vcap(),
        ),
        r is Ok ==> kept(
            old(html),
            final(html),
            old(nodes).vstart() as int,
            old(nodes).vstart() + old(nodes).vcap(),
        ),
        r is Ok ==> (final(nodes).vstart() == old(nodes).vstart() && final(nodes).vcap() == old(
            nodes,
        ).vcap()) || final(nodes).vstart() >= old(html).ids_view().len(),
{
    let ghost b = text.spec_bytes();
    let part = substr(text, s, e);
    let ghost h1 = *html;
    let tid = html.text(part)?;
    proof {
        lemma_kept_store(&h1, html);
        lemma_pieces_kept(
            &h1,
            html,
            nodes.vstart() as int,
            nodes.vstart() + nodes.vcap(),
            nodes.contents(&h1),
            acc,
            b,
            a_meta,
            nodes.vstart() as int,
            nodes.vstart() + nodes.vcap(),
        );
        assert(nodes.contents(html) =~= nodes.contents(&h1));
        assert(html.nodes_view()[tid.bare() as int] == html.nodes_view().last());
        lemma_floor_kept(
            &h1,
            html,
            0,
            0,
            nodes.contents(&h1),
            acc,
            b,
            a_meta,
            nodes.vstart() as int,
            nodes.vstart() + nodes.vcap(),
            floor,
        );
    }
    let ghost h2 = *html;
    let ghost n2 = *nodes;
    nodes.push(html, tid)?;
    proof {
        lemma_pieces_kept(
            &h2,
            html,
            n2.vstart() as int,
            n2.vstart() + n2.vcap(),
            n2.contents(&h2),
            acc,
            b,
            a_meta,
            nodes.vstart() as int,
            nodes.vstart() + nodes.vcap(),
        );
        assert(html.nodes_view()[tid.bare() as int] == h2.nodes_view()[tid.bare() as int]);
        lemma_pieces_push(
            html,
            n2.contents(&h2),
            acc,
            b,
            a_meta,
            nodes.vstart() as int,
            nodes.vstart() + nodes.vcap(),
            tid.bare(),
            Piece::Text(s as int, e as int),
        );
        assert(kept(&h2, html, n2.vstart() as int, n2.vstart() + n2.vcap()));
        lemma_floor_kept(
            &h2,
            html,
            n2.vstart() as int,
            n2.vstart() + n2.vcap(),
            n2.contents(&h2),
            acc,
            b,
            a_meta,
            n2.vstart() as int,
            n2.vstart() + n2.vcap(),
            floor,
        );
        assert forall|k: int|
            0 <= k < nodes.contents(html).len() implies #[trigger] slices_outside(
            html,
            nodes.contents(html)[k],
            0,
            floor,
        ) by {
            if k < n2.contents(&h2).len() {
                assert(nodes.contents(html)[k] == n2.contents(&h2)[k]);
            } else {
                assert(nodes.contents(html)[k] == tid.bare());
            }
        }
    }
    Ok(())
}

/// Appends a link (an element of kind `a_meta`) for bytes `s .. e` of
/// `text` to `nodes`.
fn push_link_piece(
    html: &mut HtmlAllocator,
    nodes: &mut AVec<Node>,
    text: &str,
    s: usize,
    e: usize,
    Ghost(acc): Ghost<Seq<Piece>>,
    Ghost(floor): Ghost<int>,
    a_meta: &'static ElementMeta,
) -> (r: Result<(), AhtmlError>)
    requires
        old(html).wf(),
        old(nodes).wf_in(old(html)),
        floor <= old(html).ids_view().len(),
        forall|k: int|
            0 <= k < old(nodes).contents(old(html)).len() ==> #[trigger] slices_outside(
                old(html),
                old(nodes).contents(old(html))[k],
                0,
                floor,
            ),
        s <= e <= text.spec_bytes().len(),
        is_char_boundary(text.spec_bytes(), s as int),
        is_char_boundary(text.spec_bytes(), e as int),
        pieces_ok(
            old(html),
            old(nodes).contents(old(html)),
            acc,
            text.spec_bytes(),
            a_meta,
            old(nodes).vstart() as int,
            old(nodes).vstart() + old(nodes).vcap(),
        ),
    ensures
        final(html).wf(),
        final(html).nodes_cap() == old(html).nodes_cap(),
        final(html).atts_cap() == old(html).atts_cap(),
        final(html).ids_cap() == old(html).ids_cap(),
        link_allowed(old(html), a_meta) && old(html).nodes_view().len() + 2 <= old(html).nodes_cap()
            && old(html).atts_view().len() < old(html).atts_cap() && old(html).ids_view().len() + 16
            + push_cost(*old(nodes)) <= old(html).ids_cap() ==> r is Ok,
        r is Ok ==> {
            &&& final(html).nodes_view().len() == old(html).nodes_view().len() + 2
            &&& final(html).atts_view().len() == old(html).atts_view().len() + 1
            &&& final(html).ids_view().len() == old(html).ids_view().len() + 16 + push_cost(
                *old(nodes),
            )
            &&& final(nodes).vlen() == old(nodes).vlen() + 1
            &&& final(nodes).vcap() == pushed_cap(*old(nodes))
        },
        r is Err && link_allowed(old(html), a_meta) ==> r == Err::<(), AhtmlError>(AhtmlError::OutOfMemory),
        r is Ok ==> forall|k: int|
            0 <= k < final(nodes).contents(final(html)).len() ==> #[trigger] slices_outside(
                final(html),
                final(nodes).contents(final(html))[k],
                0,
                floor,
            ),
        final(html).region() == old(html).region(),
        final(html).metadb_view() == old(html).metadb_view(),
        r is Ok ==> final(nodes).wf_in(final(html)) && pieces_ok(
            final(html),
            final(nodes).contents(final(html)),
            acc.push(Piece::Link(s as int, e as int)),
            text.spec_bytes(),
            a_meta,
            final(nodes).vstart() as int,
            final(nodes).vstart() + final(nodes).vcap(),
        ),
        r is Ok ==> kept(
            old(html),
            final(html),
            old(nodes).vstart() as int,
            old(nodes).vstart() + old(nodes).vcap(),
        ),
        r is Ok ==> (final(nodes).vstart() == old(nodes).vstart() && final(nodes).vcap() == old(
            nodes,
        ).vcap()) || final(nodes).vstart() >= old(html).ids_view().len(),
{
    let ghost b = text.spec_bytes();
    let url = substr(text, s, e);
    let ghost h3 = *html;
    let uid = html.text(url)?;
    let ghost h4 = *html;
    let mut attv: AVec<(String, String)> = html.new_vec();
    let aid = html.attribute("href", url)?;
    let ghost h5 = *html;
    attv.push(html, aid)?;
    let ghost h6 = *html;
    let mut bodyv: AVec<Node> = html.new_vec();
    bodyv.push(html, uid)?;
    proof {
        lemma_kept_store(&h3, &h4);
        lemma_kept_store(&h4, &h5);
        assert(kept(&h3, html, nodes.vstart() as int, nodes.vstart() + nodes.vcap()));
        lemma_pieces_kept(
            &h3,
            html,
            nodes.vstart() as int,
            nodes.vstart() + nodes.vcap(),
            nodes.contents(&h3),
            acc,
            b,
            a_meta,
            nodes.vstart() as int,
            nodes.vstart() + nodes.vcap(),
        );
        assert(nodes.contents(html) =~= nodes.contents(&h3));
        assert(attv.contents(&h6) =~= seq![aid.bare()]);
        assert(h6.ids_view()[attv.vstart() as int] == attv.contents(&h6)[0]);
        assert(bodyv.contents(html) =~= seq![uid.bare()]);
        assert(html.ids_view()[bodyv.vstart() as int] == bodyv.contents(html)[0]);
        assert(html.ids_view()[attv.vstart() as int] == h6.ids_view()[attv.vstart() as int]);
        assert(h4.nodes_view()[uid.bare() as int] == h4.nodes_view().last());
        assert(html.nodes_view()[uid.bare() as int] == h4.nodes_view()[uid.bare() as int]);
        assert(h5.atts_view()[aid.bare() as int] == h5.atts_view().last());
        assert(html.atts_view()[aid.bare() as int] == h5.atts_view()[aid.bare() as int]);
        lemma_floor_kept(
            &h3,
            html,
            nodes.vstart() as int,
            nodes.vstart() + nodes.vcap(),
            nodes.contents(&h3),
            acc,
            b,
            a_meta,
            nodes.vstart() as int,
            nodes.vstart() + nodes.vcap(),
            floor,
        );
        assert(attv.vstart() >= floor);
        assert(bodyv.vstart() >= floor);
    }
    let ghost h7 = *html;
    let atts = attv.as_slice();
    let body = bodyv.as_slice();
    proof {
        if let Some(db) = h7.metadb_view() {
            if link_allowed(&h7, a_meta) {
                assert(att_at(&h7, atts.sstart() as int) == h7.atts_view()[aid.bare() as int]->0);
                assert(atts_check(&h7, db, a_meta, atts, 0) is None);
                assert(atts_check(&h7, db, a_meta, atts, 1) is None);
                assert(body_check(&h7, a_meta, body, 0) is None);
                assert(body_check(&h7, a_meta, body, 1) is None);
                assert(element_check(&h7, a_meta, atts, body) is None);
            }
        }
    }
    let link = html.new_element(a_meta, atts, body)?;
    let ghost h8 = *html;
    let ghost n8 = *nodes;
    let ghost piece = Piece::Link(s as int, e as int);
    proof {
        lemma_kept_store(&h7, &h8);
        lemma_pieces_kept(
            &h7,
            &h8,
            nodes.vstart() as int,
            nodes.vstart() + nodes.vcap(),
            nodes.contents(&h7),
            acc,
            b,
            a_meta,
            nodes.vstart() as int,
            nodes.vstart() + nodes.vcap(),
        );
        assert(nodes.contents(&h8) =~= nodes.contents(&h7));
        assert(h8.nodes_view()[link.bare() as int] == h8.nodes_view().last());
        assert(h8.nodes_view()[uid.bare() as int] == h7.nodes_view()[uid.bare() as int]);
        assert(piece_ok(&h8, link.bare(), piece, b, a_meta));
        lemma_floor_kept(
            &h7,
            &h8,
            0,
            0,
            nodes.contents(&h7),
            acc,
            b,
            a_meta,
            nodes.vstart() as int,
            nodes.vstart() + nodes.vcap(),
            floor,
        );
        assert(slices_outside(&h8, link.bare(), 0, floor));
        assert(slices_outside(&h8, link.bare(), nodes.vstart() as int, nodes.vstart() + nodes.vcap()));
    }
    nodes.push(html, link)?;
    proof {
        lemma_piece_kept(
            &h8,
            html,
            n8.vstart() as int,
            n8.vstart() + n8.vcap(),
            link.bare(),
            piece,
            b,
            a_meta,
        );
        if nodes.vstart() >= h8.ids_view().len() {
            lemma_piece_below(
                &h8,
                link.bare(),
                piece,
                b,
                a_meta,
                nodes.vstart() as int,
                nodes.vstart() + nodes.vcap(),
            );
        }
        lemma_pieces_kept(
            &h8,
            html,
            n8.vstart() as int,
            n8.vstart() + n8.vcap(),
            n8.contents(&h8),
            acc,
            b,
            a_meta,
            nodes.vstart() as int,
            nodes.vstart() + nodes.vcap(),
        );
        lemma_pieces_push(
            html,
            n8.contents(&h8),
            acc,
            b,
            a_meta,
            nodes.vstart() as int,
            nodes.vstart() + nodes.vcap(),
            link.bare(),
            piece,
        );
        assert(kept(&h8, html, n8.vstart() as int, n8.vstart() + n8.vcap()));
        lemma_floor_kept(
            &h8,
            html,
            n8.vstart() as int,
            n8.vstart() + n8.vcap(),
            n8.contents(&h8),
            acc,
            b,
            a_meta,
            n8.vstart() as int,
            n8.vstart() + n8.vcap(),
            floor,
        );
        assert(html.nodes_view()[link.bare() as int] == h8.nodes_view()[link.bare() as int]);
        assert forall|k: int|
            0 <= k < nodes.contents(html).len() implies #[trigger] slices_outside(
            html,
            nodes.contents(html)[k],
            0,
            floor,
        ) by {
            if k < n8.contents(&h8).len() {
                assert(nodes.contents(html)[k] == n8.contents(&h8)[k]);
            } else {
                assert(nodes.contents(html)[k] == link.bare());
            }
        }
    }
    Ok(())
}

/// Convert `text` to a list of nodes usable as an element body,
/// creating links (elements of kind `a_meta`) around the "http" and
/// "https" URLs contained in `text`.
#[verifier::rlimit(60)]
pub fn autolink(html: &mut HtmlAllocator, text: &str, a_meta: &'static ElementMeta) -> (r: Result<
    ASlice<Node>,
    AhtmlError,
>)
    requires
        old(html).wf(),
    ensures
        final(html).wf(),
        r is Err && link_allowed(old(html), a_meta) ==> r == Err::<ASlice<Node>, AhtmlError>(
            AhtmlError::OutOfMemory,
        ),
        final(html).region() == old(html).region(),
        final(html).metadb_view() == old(html).metadb_view(),
        final(html).nodes_cap() == old(html).nodes_cap(),
        final(html).atts_cap() == old(html).atts_cap(),
        final(html).ids_cap() == old(html).ids_cap(),
        link_allowed(old(html), a_meta) && old(html).nodes_view().len() + 2 * autolink_from(
            text.spec_bytes(),
            0,
            0,
        ).len() <= old(html).nodes_cap() && old(html).atts_view().len() + autolink_from(
            text.spec_bytes(),
            0,
            0,
        ).len() <= old(html).atts_cap() && old(html).ids_view().len() + 20 * autolink_from(
            text.spec_bytes(),
            0,
            0,
        ).len() + 16 <= old(html).ids_cap() ==> r is Ok,
        r is Ok ==> {
            &&& final(html).nodes_view().len() <= old(html).nodes_view().len() + 2 * autolink_from(
                text.spec_bytes(),
                0,
                0,
            ).len()
            &&& final(html).atts_view().len() <= old(html).atts_view().len() + autolink_from(
                text.spec_bytes(),
                0,
                0,
            ).len()
            &&& final(html).ids_view().len() <= old(html).ids_view().len() + 20 * autolink_from(
                text.spec_bytes(),
                0,
                0,
            ).len() + 16
        },
        r matches Ok(s) ==> ({
            let pieces = autolink_from(text.spec_bytes(), 0, 0);
            &&& s.region() == old(html).region()
            &&& s.send() <= final(html).ids_view().len()
            &&& s.slen() == pieces.len()
            &&& (s.slen() == 0 || s.sstart() >= old(html).ids_view().len())
            &&& kept(old(html), final(html), 0, 0)
            &&& forall|k: int|
                0 <= k < pieces.len() ==> slices_outside(
                    final(html),
                    #[trigger] final(html).ids_view()[s.sstart() + k],
                    0,
                    old(html).ids_view().len() as int,
                )
            &&& forall|k: int|
                0 <= k < pieces.len() ==> piece_ok(
                    final(html),
                    #[trigger] final(html).ids_view()[s.sstart() + k],
                    pieces[k],
                    text.spec_bytes(),
                    a_meta,
                )
        }),
{
    let ghost b = text.spec_bytes();
    let ghost all = autolink_from(b, 0, 0);
    let ghost floor = old(html).ids_view().len() as int;
    let ghost n0 = old(html).nodes_view().len() as int;
    let ghost a0 = old(html).atts_view().len() as int;
    let ghost pn = all.len() as int;
    let ghost good = link_allowed(old(html), a_meta) && n0 + 2 * pn <= old(html).nodes_cap() && a0
        + pn <= old(html).atts_cap() && floor + 20 * pn + 16 <= old(html).ids_cap();
    let ghost mut sumcaps: int = 0;
    proof {
        lemma_str_bytes(text);
        is_char_boundary_start_end_of_seq(b);
    }
    let bytes = text.as_bytes();
    let len = bytes.len();
    let needle = http_needle();
    let mut nodes: AVec<Node> = html.new_vec();
    let mut pos_done: usize = 0;
    let mut pos_remainder: usize = 0;
    let ghost mut acc: Seq<Piece> = Seq::empty();
    loop
        invariant
            html.wf(),
            html.region() == old(html).region(),
            html.metadb_view() == old(html).metadb_view(),
            b == text.spec_bytes(),
            bytes@ == b,
            needle.spec_bytes() == http_bytes(),
            valid_utf8(b),
            len == b.len(),
            pos_done <= pos_remainder <= len,
            is_char_boundary(b, pos_done as int),
            is_char_boundary(b, pos_remainder as int),
            all == autolink_from(b, 0, 0),
            acc + autolink_from(b, pos_remainder as int, pos_done as int) == all,
            nodes.wf_in(html),
            pieces_ok(
                html,
                nodes.contents(html),
                acc,
                b,
                a_meta,
                nodes.vstart() as int,
                nodes.vstart() + nodes.vcap(),
            ),
            kept(old(html), html, 0, 0),
            nodes.vcap() == 0 || nodes.vstart() >= old(html).ids_view().len(),
            nodes.vlen() <= nodes.vcap(),
            html.nodes_cap() == old(html).nodes_cap(),
            html.atts_cap() == old(html).atts_cap(),
            html.ids_cap() == old(html).ids_cap(),
            n0 == old(html).nodes_view().len(),
            a0 == old(html).atts_view().len(),
            pn == all.len(),
            nodes.vlen() == acc.len(),
            html.nodes_view().len() <= n0 + 2 * acc.len(),
            html.atts_view().len() <= a0 + acc.len(),
            html.ids_view().len() <= floor + 16 * acc.len() + sumcaps,
            0 <= sumcaps <= 2 * nodes.vcap(),
            nodes.vcap() <= 8 || nodes.vcap() <= 2 * acc.len(),
            good == (link_allowed(old(html), a_meta) && n0 + 2 * pn <= old(html).nodes_cap() && a0
                + pn <= old(html).atts_cap() && floor + 20 * pn + 16 <= old(html).ids_cap()),
            floor == old(html).ids_view().len(),
            forall|k: int|
                0 <= k < nodes.contents(html).len() ==> #[trigger] slices_outside(
                    html,
                    nodes.contents(html)[k],
                    0,
                    floor,
                ),
        ensures
            find_spec(b, pos_remainder as int, http_bytes()) is None,
            html.wf(),
            html.region() == old(html).region(),
            html.metadb_view() == old(html).metadb_view(),
            pos_done <= pos_remainder <= len,
            is_char_boundary(b, pos_done as int),
            acc + autolink_from(b, pos_remainder as int, pos_done as int) == all,
            nodes.wf_in(html),
            pieces_ok(
                html,
                nodes.contents(html),
                acc,
                b,
                a_meta,
                nodes.vstart() as int,
                nodes.vstart() + nodes.vcap(),
            ),
            kept(old(html), html, 0, 0),
            nodes.vcap() == 0 || nodes.vstart() >= old(html).ids_view().len(),
            nodes.vlen() <= nodes.vcap(),
            html.nodes_cap() == old(html).nodes_cap(),
            html.atts_cap() == old(html).atts_cap(),
            html.ids_cap() == old(html).ids_cap(),
            n0 == old(html).nodes_view().len(),
            a0 == old(html).atts_view().len(),
            pn == all.len(),
            nodes.vlen() == acc.len(),
            html.nodes_view().len() <= n0 + 2 * acc.len(),
            html.atts_view().len() <= a0 + acc.len(),
            html.ids_view().len() <= floor + 16 * acc.len() + sumcaps,
            0 <= sumcaps <= 2 * nodes.vcap(),
            nodes.vcap() <= 8 || nodes.vcap() <= 2 * acc.len(),
            good == (link_allowed(old(html), a_meta) && n0 + 2 * pn <= old(html).nodes_cap() && a0
                + pn <= old(html).atts_cap() && floor + 20 * pn + 16 <= old(html).ids_cap()),
            floor == old(html).ids_view().len(),
            forall|k: int|
                0 <= k < nodes.contents(html).len() ==> #[trigger] slices_outside(
                    html,
                    nodes.contents(html)[k],
                    0,
                    floor,
                ),
        decreases len + 1 - pos_remainder,
    {
        let found = find_from(text, pos_remainder, needle);
        let pos = match found {
            None => {
                break ;
            },
            Some(pos) => pos,
        };
        proof {
            lemma_find_spec(b, pos_remainder as int, http_bytes());
            lemma_link_end(b, pos as int);
            assert(b.subrange(pos as int, pos + 4)[0] == b[pos as int]);
            assert(b.subrange(pos as int, pos + 4)[3] == b[pos + 3]);
            lemma_after_ascii(b, pos + 3);
            lemma_ascii_boundary(b, pos as int);
            lemma_autolink_skip(b, pos_remainder as int, pos as int, pos_done as int);
        }
        let pos_rest = pos + 4;
        // a word boundary in front
        if pos > 0 && is_alnum_b(bytes[pos - 1]) {
            pos_remainder = pos_rest;
            continue ;
        }
        let skip_len: usize = if pos_rest < len && bytes[pos_rest] == 115u8 {
            if pos_rest + 1 < len && bytes[pos_rest + 1] == 58u8 {
                2
            } else {
                pos_remainder = pos_rest;
                continue ;
            }
        } else if pos_rest < len && bytes[pos_rest] == 58u8 {
            1
        } else {
            pos_remainder = pos_rest;
            continue ;
        };
        let pos_rest = pos_rest + skip_len;
        proof {
            lemma_after_ascii(b, pos_rest - 1);
            lemma_find_skip(b, pos + 4, pos_rest as int, http_bytes());
        }
        if !(len - pos_rest >= 2 && bytes[pos_rest] == 47u8 && bytes[pos_rest + 1] == 47u8) {
            proof {
                assert(link_end(b, pos as int) is None);
                lemma_autolink_skip(b, pos + 4, pos_rest as int, pos_done as int);
            }
            pos_remainder = pos_rest;
            continue ;
        }
        let pos_rest = pos_rest + 2;
        proof {
            lemma_after_ascii(b, pos_rest - 1);
            lemma_find_skip(b, pos + 4, pos_rest as int, http_bytes());
            lemma_url_scan_end(b, pos_rest as int);
        }
        // the end of the URL
        let real_end = url_end_at(bytes, pos_rest);
        let ghost end = url_scan_end(b, pos_rest as int);
        if real_end == pos_rest {
            proof {
                assert(link_end(b, pos as int) is None);
                lemma_autolink_skip(b, pos + 4, pos_rest as int, pos_done as int);
            }
            pos_remainder = pos_rest;
            continue ;
        }
        proof {
            lemma_after_ascii(b, end - 1);
            lemma_ascii_boundary(b, end - 1);
        }
        assert(link_end(b, pos as int) == Some(real_end as int));
        let ghost new_pieces = (if pos > pos_done {
            seq![Piece::Text(pos_done as int, pos as int)]
        } else {
            Seq::<Piece>::empty()
        }) + seq![Piece::Link(pos as int, real_end as int)];
        assert(autolink_from(b, pos as int, pos_done as int) == new_pieces + autolink_from(
            b,
            real_end as int,
            real_end as int,
        ));
        if pos > pos_done {
            let ghost nb = nodes;
            push_text_piece(html, &mut nodes, text, pos_done, pos, Ghost(acc), Ghost(floor), a_meta)?;
            proof {
                sumcaps = sumcaps + push_cost(nb);
                acc = acc.push(Piece::Text(pos_done as int, pos as int));
            }
        }
        let ghost nb = nodes;
        push_link_piece(html, &mut nodes, text, pos, real_end, Ghost(acc), Ghost(floor), a_meta)?;
        proof {
            sumcaps = sumcaps + push_cost(nb);
            acc = acc.push(Piece::Link(pos as int, real_end as int));
            assert(acc + autolink_from(b, real_end as int, real_end as int) =~= all);
        }
        pos_done = real_end;
        pos_remainder = real_end;
    }
    if pos_done < len {
        let ghost nb = nodes;
        push_text_piece(html, &mut nodes, text, pos_done, len, Ghost(acc), Ghost(floor), a_meta)?;
        proof {
            sumcaps = sumcaps + push_cost(nb);
            acc = acc.push(Piece::Text(pos_done as int, len as int));
        }
    }
    proof {
        assert(acc =~= all);
        assert forall|k: int| 0 <= k < all.len() implies piece_ok(
            html,
            #[trigger] html.ids_view()[nodes.vstart() + k],
            all[k],
            b,
            a_meta,
        ) by {
            assert(nodes.contents(html)[k] == html.ids_view()[nodes.vstart() + k]);
            assert(piece_ok(html, nodes.contents(html)[k], acc[k], b, a_meta));
        }
        assert forall|k: int| 0 <= k < all.len() implies slices_outside(
            html,
            #[trigger] html.ids_view()[nodes.vstart() + k],
            0,
            floor,
        ) by {
            assert(nodes.contents(html)[k] == html.ids_view()[nodes.vstart() + k]);
            assert(slices_outside(html, nodes.contents(html)[k], 0, floor));
        }
    }
    Ok(nodes.as_slice())
}

} // verus!
pub mod softpre;
