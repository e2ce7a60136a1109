//! Plain text as HTML that mimics `<pre>` but still allows dynamic line
//! breaks.

use vstd::prelude::*;
use vstd::string::*;
use vstd::string::StrSliceExecFns;

use vstd::utf8::*;

use crate::ahtml::allocator::{AhtmlError, AId, ASlice, AVec, HtmlAllocator, Node};
use crate::ahtml::meta::ElementMeta;
use crate::ahtml::check::{att_at, atts_check, child_error, element_check, lemma_body_check_none, node_at};
use crate::ahtml::print::string_push;
use crate::ahtml::util::{
    autolink, autolink_from, kept, lemma_kept_store, link_allowed, piece_ok, slices_outside, Piece,
};

verus! {

/// The non-breaking space.
pub const NBSP: &'static str = "\u{a0}";

/// Whether `n` occurs in `t` at position `i`.
pub open spec fn chars_match_at(t: Seq<char>, i: int, n: Seq<char>) -> bool {
    0 <= i && i + n.len() <= t.len() && t.subrange(i, i + n.len()) == n
}

/// The first position at or after `from` where `n` occurs in `t`.
pub open spec fn chars_find(t: Seq<char>, from: int, n: Seq<char>) -> Option<int>
    decreases t.len() + 1 - from,
{
    if from < 0 || from + n.len() > t.len() {
        None
    } else if chars_match_at(t, from, n) {
        Some(from)
    } else {
        chars_find(t, from + 1, n)
    }
}

pub proof fn lemma_chars_find(t: Seq<char>, from: int, n: Seq<char>)
    ensures
        chars_find(t, from, n) matches Some(i) ==> from <= i && i + n.len() <= t.len()
            && chars_match_at(t, i, n),
    decreases t.len() + 1 - from,
{
    if !(from < 0 || from + n.len() > t.len()) && !chars_match_at(t, from, n) {
        lemma_chars_find(t, from + 1, n);
    }
}

/// The parts of `t` from `from` on between the occurrences of the
/// (non-empty) separator `sep`.
pub open spec fn split_from(t: Seq<char>, sep: Seq<char>, from: int) -> Seq<Seq<char>>
    decreases t.len() + 1 - from,
{
    if sep.len() == 0 || from < 0 || from > t.len() {
        Seq::empty()
    } else {
        match chars_find(t, from, sep) {
            None => seq![t.subrange(from, t.len() as int)],
            Some(p) => {
                proof {
                    lemma_chars_find(t, from, sep);
                }
                seq![t.subrange(from, p)] + split_from(t, sep, p + sep.len())
            },
        }
    }
}

/// What `str::split` gives for `t` and the pattern `sep`: the parts
/// between the occurrences; for an empty pattern, an empty part, each
/// character, and an empty part.
pub open spec fn split_spec(t: Seq<char>, sep: Seq<char>) -> Seq<Seq<char>> {
    if sep.len() == 0 {
        seq![Seq::<char>::empty()] + Seq::new(t.len(), |i: int| seq![t[i]]) + seq![
            Seq::<char>::empty(),
        ]
    } else {
        split_from(t, sep, 0)
    }
}

pub open spec fn strs_view(v: Seq<&str>) -> Seq<Seq<char>> {
    v.map_values(|s: &str| s@)
}

/// The characters of `s`.
fn chars_of(s: &str) -> (r: Vec<char>)
    ensures
        r@ == s@,
{
    let mut v: Vec<char> = Vec::new();
    for c in it: s.chars()
        invariant
            it.seq() == s@,
            v@ == s@.take(it.index() as int),
    {
        v.push(c);
        assert(v@ =~= s@.take(it.index() + 1));
    }
    assert(s@.take(s@.len() as int) =~= s@);
    v
}

/// The first position at or after `from` where `n` occurs in `t`.
fn find_chars(t: &Vec<char>, from: usize, n: &Vec<char>) -> (r: Option<usize>)
    requires
        from <= t@.len(),
        n@.len() > 0,
    ensures
        r == match chars_find(t@, from as int, n@) {
            Some(i) => Some(i as usize),
            None => None::<usize>,
        },
{
    let tl = t.len();
    if n.len() > tl {
        return None;
    }
    let mut i = from;
    while i <= tl - n.len()
        invariant
            tl == t@.len(),
            from <= i,
            n@.len() <= t@.len(),
            n@.len() > 0,
            chars_find(t@, from as int, n@) == chars_find(t@, i as int, n@),
        decreases t@.len() + 1 - i,
    {
        let mut k: usize = 0;
        let mut all = true;
        while k < n.len()
            invariant
                tl == t@.len(),
                i + n@.len() <= t@.len(),
                k <= n@.len(),
                all == forall|j: int| 0 <= j < k ==> t@[i + j] == n@[j],
            decreases n@.len() - k,
        {
            if t[i + k] != n[k] {
                all = false;
            }
            k = k + 1;
        }
        if all {
            assert(t@.subrange(i as int, i + n@.len()) =~= n@);
            return Some(i);
        } else {
            proof {
                let j = choose|j: int| 0 <= j < n@.len() && t@[i + j] != n@[j];
                assert(t@.subrange(i as int, i + n@.len())[j] != n@[j]);
            }
        }
        i = i + 1;
    }
    None
}

/// The parts of `text` between the occurrences of `sep`, as
/// `str::split` gives them.
pub fn split_str<'t>(text: &'t str, sep: &str) -> (r: Vec<&'t str>)
    ensures
        strs_view(r@) == split_spec(text@, sep@),
{
    let tv = chars_of(text);
    let sv = chars_of(sep);
    let n = tv.len();
    let mut out: Vec<&'t str> = Vec::new();
    if sv.len() == 0 {
        let first = text.substring_char(0, 0);
        out.push(first);
        assert(first@ =~= Seq::<char>::empty());
        assert(strs_view(out@) =~= seq![Seq::<char>::empty()] + Seq::new(0, |j: int| seq![text@[j]]));
        let mut i: usize = 0;
        while i < n
            invariant
                i <= n,
                n == text@.len(),
                strs_view(out@) == seq![Seq::<char>::empty()] + Seq::new(
                    i as nat,
                    |j: int| seq![text@[j]],
                ),
            decreases n - i,
        {
            let c = text.substring_char(i, i + 1);
            let ghost before = out@;
            out.push(c);
            assert(c@ =~= seq![text@[i as int]]);
            assert(strs_view(out@) =~= strs_view(before).push(c@));
            i = i + 1;
            assert(strs_view(out@) =~= seq![Seq::<char>::empty()] + Seq::new(
                i as nat,
                |j: int| seq![text@[j]],
            ));
        }
        let last = text.substring_char(n, n);
        let ghost before = out@;
        out.push(last);
        assert(last@ =~= Seq::<char>::empty());
        assert(strs_view(out@) =~= strs_view(before).push(last@));
        assert(strs_view(out@) =~= split_spec(text@, sep@));
        return out;
    }
    let mut pos: usize = 0;
    assert(strs_view(out@) =~= Seq::<Seq<char>>::empty());
    loop
        invariant
            pos <= n,
            n == text@.len(),
            tv@ == text@,
            sv@ == sep@,
            sep@.len() > 0,
            strs_view(out@) + split_from(text@, sep@, pos as int) == split_spec(text@, sep@),
        decreases n + 1 - pos,
    {
        match find_chars(&tv, pos, &sv) {
            None => {
                let last = text.substring_char(pos, n);
                let ghost before = out@;
                out.push(last);
                assert(strs_view(out@) =~= strs_view(before).push(last@));
                assert(strs_view(out@) =~= split_spec(text@, sep@));
                return out;
            },
            Some(p) => {
                proof {
                    lemma_chars_find(text@, pos as int, sep@);
                }
                let part = text.substring_char(pos, p);
                let ghost before = out@;
                out.push(part);
                assert(strs_view(out@) =~= strs_view(before).push(part@));
                pos = p + sv.len();
            },
        }
    }
}

/// `s` with each tab replaced by `n` non-breaking spaces.
pub open spec fn replace_tabs_spec(s: Seq<char>, n: u8) -> Seq<char>
    decreases s.len(),
{
    if s.len() == 0 {
        Seq::empty()
    } else {
        replace_tabs_spec(s.drop_last(), n) + if s.last() == '\t' {
            Seq::new(n as nat, |i: int| '\u{a0}')
        } else {
            seq![s.last()]
        }
    }
}

/// `s` with each tab replaced by `n` non-breaking spaces.
pub fn replace_tabs(s: &str, n: u8) -> (r: String)
    ensures
        r@ == replace_tabs_spec(s@, n),
{
    let mut s2 = String::new();
    for c in it: s.chars()
        invariant
            it.seq() == s@,
            s2@ == replace_tabs_spec(s@.take(it.index() as int), n),
    {
        proof {
            assert(s@.take(it.index() + 1).drop_last() =~= s@.take(it.index() as int));
            assert(s@.take(it.index() + 1).last() == c);
        }
        let ghost before = s2@;
        if c == '\t' {
            let mut k: u8 = 0;
            while k < n
                invariant
                    k <= n,
                    s2@ == before + Seq::new(k as nat, |i: int| '\u{a0}'),
                decreases n - k,
            {
                string_push(&mut s2, '\u{a0}');
                k = k + 1;
                assert(s2@ =~= before + Seq::new(k as nat, |i: int| '\u{a0}'));
            }
        } else {
            string_push(&mut s2, c);
        }
        assert(s2@ =~= replace_tabs_spec(s@.take(it.index() + 1), n));
    }
    assert(s@.take(s@.len() as int) =~= s@);
    s2
}

/// Formats plain text as HTML that looks like `<pre>` but still lets
/// lines wrap.
pub struct SoftPre {
    /// Whether to replace tabs with the given number of non-breaking
    /// spaces.
    pub tabs_to_nbsp: Option<u8>,
    /// Whether to turn http:// and https:// URLs into links.
    pub autolink: bool,
    /// The text is split on this string into lines.
    pub line_separator: &'static str,
}

impl Default for SoftPre {
    fn default() -> (r: Self)
        ensures
            r.tabs_to_nbsp == Some(8u8),
            r.autolink,
            r.line_separator@ == seq!['\n'],
    {
        let sep = "\n";
        proof {
            reveal_strlit("\n");
        }
        SoftPre { tabs_to_nbsp: Some(8), autolink: true, line_separator: sep }
    }
}

/// The element kinds that formatting creates: links, line breaks and
/// the enclosing `div`.
pub struct SoftPreMetas {
    pub a: &'static ElementMeta,
    pub br: &'static ElementMeta,
    pub div: &'static ElementMeta,
}

/// The elements that `format` stores pass the structure checks of
/// `html`: links as `link_allowed` says; with a `MetaDb`, `class` is a
/// global attribute or one that the `div` kind declares, and that kind
/// allows text, links and line breaks as children.
pub open spec fn soft_pre_allowed(html: &HtmlAllocator, metas: &SoftPreMetas) -> bool {
    &&& link_allowed(html, metas.a)
    &&& match html.metadb_view() {
        None => true,
        Some(db) => {
            &&& (db.is_global_attribute("class"@) || metas.div.declares_attribute("class"@))
            &&& metas.div.allows_child_text
            &&& metas.div.allows_child(metas.a.tag_name@)
            &&& metas.div.allows_child(metas.br.tag_name@)
        },
    }
}

/// One node of formatted text.
pub enum SoftItem {
    /// A text node with these characters.
    Text(Seq<char>),
    /// A link to this URL, showing the URL.
    Link(Seq<char>),
    /// A line break.
    Break,
}

/// Node `nid` of `html` is `item`.
pub open spec fn item_ok(html: &HtmlAllocator, nid: u32, item: SoftItem, metas: &SoftPreMetas) -> bool {
    &&& nid < html.nodes_view().len()
    &&& match item {
        SoftItem::Text(t) => (html.nodes_view()[nid as int] matches Some(Node::String(s)) && s@
            == t),
        SoftItem::Link(u) => match html.nodes_view()[nid as int] {
            Some(Node::Element(el)) => {
                &&& el.meta == metas.a
                &&& el.attr.region() == html.region() && el.body.region() == html.region()
                &&& el.attr.slen() == 1 && el.body.slen() == 1
                &&& el.attr.send() <= html.ids_view().len() && el.body.send()
                    <= html.ids_view().len()
                &&& html.ids_view()[el.attr.sstart() as int] < html.atts_view().len()
                &&& (html.atts_view()[html.ids_view()[el.attr.sstart() as int] as int] matches Some(
                    (k, v),
                ) && k@ == "href"@ && v@ == u)
                &&& html.ids_view()[el.body.sstart() as int] < html.nodes_view().len()
                &&& (html.nodes_view()[html.ids_view()[el.body.sstart() as int] as int] matches Some(
                    Node::String(w),
                ) && w@ == u)
            },
            _ => false,
        },
        SoftItem::Break => match html.nodes_view()[nid as int] {
            Some(Node::Element(el)) => {
                &&& el.meta == metas.br
                &&& el.attr.region() == html.region() && el.body.region() == html.region()
                &&& el.attr.slen() == 0 && el.body.slen() == 0
                &&& el.attr.sstart() == 0 && el.body.sstart() == 0
            },
            _ => false,
        },
    }
}

/// The nodes `ids` of `html` are the items `its`, and the elements
/// among them refer to no id list position in `lo .. hi`.
pub open spec fn items_ok(
    html: &HtmlAllocator,
    ids: Seq<u32>,
    its: Seq<SoftItem>,
    metas: &SoftPreMetas,
    lo: int,
    hi: int,
) -> bool {
    &&& ids.len() == its.len()
    &&& forall|k: int| 0 <= k < its.len() ==> #[trigger] item_ok(html, ids[k], its[k], metas)
    &&& forall|k: int| 0 <= k < its.len() ==> #[trigger] slices_outside(html, ids[k], lo, hi)
}

/// The ids at the positions of `s`.
pub open spec fn slice_ids(html: &HtmlAllocator, s: ASlice<Node>) -> Seq<u32> {
    html.ids_view().subrange(s.sstart() as int, s.send())
}

/// The item for a piece of the text with bytes `b`.
pub open spec fn piece_item(b: Seq<u8>, p: Piece) -> SoftItem {
    match p {
        Piece::Text(s, e) => SoftItem::Text(decode_utf8(b.subrange(s, e))),
        Piece::Link(s, e) => SoftItem::Link(decode_utf8(b.subrange(s, e))),
    }
}

/// An item with its tabs replaced by `n` non-breaking spaces, where it
/// is text.
pub open spec fn tab_item(n: u8, it: SoftItem) -> SoftItem {
    match it {
        SoftItem::Text(t) => SoftItem::Text(replace_tabs_spec(t, n)),
        _ => it,
    }
}

/// The items of a line before tabs are replaced.
pub open spec fn raw_line_items(autolink: bool, line: Seq<char>) -> Seq<SoftItem> {
    if autolink {
        autolink_from(encode_utf8(line), 0, 0).map_values(
            |p: Piece| piece_item(encode_utf8(line), p),
        )
    } else {
        seq![SoftItem::Text(line)]
    }
}

/// The items of a line.
pub open spec fn line_items(tabs: Option<u8>, autolink: bool, line: Seq<char>) -> Seq<SoftItem> {
    match tabs {
        None => raw_line_items(autolink, line),
        Some(n) => raw_line_items(autolink, line).map_values(|it: SoftItem| tab_item(n, it)),
    }
}

/// The items of the body for `lines`: each line's items followed by a
/// line break.
pub open spec fn body_items(tabs: Option<u8>, autolink: bool, lines: Seq<Seq<char>>) -> Seq<
    SoftItem,
>
    decreases lines.len(),
{
    if lines.len() == 0 {
        Seq::empty()
    } else {
        body_items(tabs, autolink, lines.drop_last()) + line_items(tabs, autolink, lines.last())
            + seq![SoftItem::Break]
    }
}

/// The most nodes that the nodes of a line take: those of its pieces
/// (two for a link), and with `tabs` set one more per piece.
pub open spec fn line_nodes(tabs: Option<u8>, autolink: bool, line: Seq<char>) -> nat {
    let m = raw_line_items(autolink, line).len();
    (if autolink {
        2 * m
    } else {
        1
    }) + (if tabs is Some {
        m
    } else {
        0
    })
}

/// The most attributes that the nodes of a line take: one per piece
/// when URLs become links.
pub open spec fn line_atts(autolink: bool, line: Seq<char>) -> nat {
    if autolink {
        raw_line_items(autolink, line).len()
    } else {
        0
    }
}

/// The most id list positions that the nodes of a line take.
pub open spec fn line_ids(tabs: Option<u8>, autolink: bool, line: Seq<char>) -> nat {
    let m = raw_line_items(autolink, line).len();
    (if autolink {
        20 * m + 16
    } else {
        8
    }) + (if tabs is Some {
        4 * m + 16
    } else {
        0
    })
}

/// The most nodes that the body for `lines` takes (a break per line).
pub open spec fn soft_nodes(tabs: Option<u8>, autolink: bool, lines: Seq<Seq<char>>) -> nat
    decreases lines.len(),
{
    if lines.len() == 0 {
        0
    } else {
        soft_nodes(tabs, autolink, lines.drop_last()) + line_nodes(tabs, autolink, lines.last())
            + 1
    }
}

/// The most attributes that the body for `lines` takes.
pub open spec fn soft_atts(autolink: bool, lines: Seq<Seq<char>>) -> nat
    decreases lines.len(),
{
    if lines.len() == 0 {
        0
    } else {
        soft_atts(autolink, lines.drop_last()) + line_atts(autolink, lines.last())
    }
}

/// A bound on the id list positions that the body for `lines` takes,
/// counting four for each item that the body list holds.
pub open spec fn soft_ids(tabs: Option<u8>, autolink: bool, lines: Seq<Seq<char>>) -> nat
    decreases lines.len(),
{
    if lines.len() == 0 {
        0
    } else {
        soft_ids(tabs, autolink, lines.drop_last()) + line_ids(tabs, autolink, lines.last()) + 4
            * raw_line_items(autolink, lines.last()).len() + 4
    }
}

/// The bounds for the first lines and one more line.
proof fn lemma_soft_step(tabs: Option<u8>, autolink: bool, lines: Seq<Seq<char>>, i: int)
    requires
        0 <= i < lines.len(),
    ensures
        soft_nodes(tabs, autolink, lines.take(i + 1)) == soft_nodes(tabs, autolink, lines.take(i))
            + line_nodes(tabs, autolink, lines[i]) + 1,
        soft_atts(autolink, lines.take(i + 1)) == soft_atts(autolink, lines.take(i)) + line_atts(
            autolink,
            lines[i],
        ),
        soft_ids(tabs, autolink, lines.take(i + 1)) == soft_ids(tabs, autolink, lines.take(i))
            + line_ids(tabs, autolink, lines[i]) + 4 * raw_line_items(autolink, lines[i]).len()
            + 4,
{
    assert(lines.take(i + 1).drop_last() =~= lines.take(i));
    assert(lines.take(i + 1).last() == lines[i]);
}

/// The bounds grow with the number of lines taken.
proof fn lemma_soft_mono(tabs: Option<u8>, autolink: bool, lines: Seq<Seq<char>>, i: int, j: int)
    requires
        0 <= i <= j <= lines.len(),
    ensures
        soft_nodes(tabs, autolink, lines.take(i)) <= soft_nodes(tabs, autolink, lines.take(j)),
        soft_atts(autolink, lines.take(i)) <= soft_atts(autolink, lines.take(j)),
        soft_ids(tabs, autolink, lines.take(i)) <= soft_ids(tabs, autolink, lines.take(j)),
    decreases j - i,
{
    if i < j {
        lemma_soft_mono(tabs, autolink, lines, i, j - 1);
        lemma_soft_step(tabs, autolink, lines, j - 1);
    }
}

/// An item refers only to id list positions below the list's end.
proof fn lemma_item_below(
    html: &HtmlAllocator,
    nid: u32,
    item: SoftItem,
    metas: &SoftPreMetas,
    lo: int,
    hi: int,
)
    requires
        item_ok(html, nid, item, metas),
        lo >= html.ids_view().len(),
    ensures
        slices_outside(html, nid, lo, hi),
{
}

proof fn lemma_item_kept(
    h1: &HtmlAllocator,
    h2: &HtmlAllocator,
    lo: int,
    hi: int,
    nid: u32,
    item: SoftItem,
    metas: &SoftPreMetas,
)
    requires
        kept(h1, h2, lo, hi),
        item_ok(h1, nid, item, metas),
        slices_outside(h1, nid, lo, hi),
    ensures
        item_ok(h2, nid, item, metas),
        slices_outside(h2, nid, lo, hi),
{
    assert(h2.nodes_view()[nid as int] == h1.nodes_view()[nid as int]);
    if let SoftItem::Link(u) = item {
        if let Some(Node::Element(el)) = h1.nodes_view()[nid as int] {
            let ap = el.attr.sstart() as int;
            let bp = el.body.sstart() as int;
            assert(h2.ids_view()[ap] == h1.ids_view()[ap]);
            assert(h2.ids_view()[bp] == h1.ids_view()[bp]);
            assert(h2.atts_view()[h1.ids_view()[ap] as int] == h1.atts_view()[h1.ids_view()[ap] as int]);
            assert(h2.nodes_view()[h1.ids_view()[bp] as int] == h1.nodes_view()[h1.ids_view()[bp] as int]);
        }
    }
}

proof fn lemma_items_kept(
    h1: &HtmlAllocator,
    h2: &HtmlAllocator,
    lo: int,
    hi: int,
    ids: Seq<u32>,
    its: Seq<SoftItem>,
    metas: &SoftPreMetas,
    lo1: int,
    hi1: int,
    lo2: int,
    hi2: int,
)
    requires
        kept(h1, h2, lo, hi),
        items_ok(h1, ids, its, metas, lo1, hi1),
        forall|k: int| 0 <= k < its.len() ==> #[trigger] slices_outside(h1, ids[k], lo, hi),
        (lo2 == lo1 && hi2 == hi1) || lo2 >= h1.ids_view().len() || hi2 <= 0,
    ensures
        items_ok(h2, ids, its, metas, lo2, hi2),
{
    assert forall|k: int| 0 <= k < its.len() implies #[trigger] item_ok(h2, ids[k], its[k], metas) && slices_outside(h2, ids[k], lo2, hi2) by {
        assert(item_ok(h1, ids[k], its[k], metas));
        assert(slices_outside(h1, ids[k], lo, hi));
        assert(slices_outside(h1, ids[k], lo1, hi1));
        lemma_item_kept(h1, h2, lo, hi, ids[k], its[k], metas);
        assert(h2.nodes_view()[ids[k] as int] == h1.nodes_view()[ids[k] as int]);
        if lo2 >= h1.ids_view().len() {
            lemma_item_below(h1, ids[k], its[k], metas, lo2, hi2);
        }
    }
    assert forall|k: int| 0 <= k < its.len() implies #[trigger] slices_outside(h2, ids[k], lo2, hi2) by {
        assert(item_ok(h2, ids[k], its[k], metas) && slices_outside(h2, ids[k], lo2, hi2));
    }
}

/// Items whose elements refer only to positions at or above `floor`
/// refer to none in a range below it.
proof fn lemma_items_floor(
    html: &HtmlAllocator,
    ids: Seq<u32>,
    its: Seq<SoftItem>,
    metas: &SoftPreMetas,
    floor: int,
    lo: int,
    hi: int,
)
    requires
        items_ok(html, ids, its, metas, 0, floor),
        0 <= lo,
        hi <= floor,
    ensures
        items_ok(html, ids, its, metas, lo, hi),
{
    assert forall|k: int| 0 <= k < its.len() implies #[trigger] slices_outside(html, ids[k], lo, hi) by {
        assert(slices_outside(html, ids[k], 0, floor));
    }
}

proof fn lemma_items_concat(
    html: &HtmlAllocator,
    ids1: Seq<u32>,
    its1: Seq<SoftItem>,
    ids2: Seq<u32>,
    its2: Seq<SoftItem>,
    metas: &SoftPreMetas,
    lo: int,
    hi: int,
)
    requires
        items_ok(html, ids1, its1, metas, lo, hi),
        items_ok(html, ids2, its2, metas, lo, hi),
    ensures
        items_ok(html, ids1 + ids2, its1 + its2, metas, lo, hi),
{
    let ids = ids1 + ids2;
    let its = its1 + its2;
    assert forall|k: int| 0 <= k < its.len() implies #[trigger] item_ok(html, ids[k], its[k], metas) && slices_outside(html, ids[k], lo, hi) by {
        if k < its1.len() {
            assert(item_ok(html, ids1[k], its1[k], metas));
            assert(slices_outside(html, ids1[k], lo, hi));
        } else {
            assert(item_ok(html, ids2[k - its1.len()], its2[k - its1.len()], metas));
            assert(slices_outside(html, ids2[k - its1.len()], lo, hi));
        }
    }
    assert forall|k: int| 0 <= k < its.len() implies #[trigger] slices_outside(html, ids[k], lo, hi) by {
        assert(item_ok(html, ids[k], its[k], metas) && slices_outside(html, ids[k], lo, hi));
    }
}


/// The nodes for a line before tabs are replaced: its text, with links
/// where URLs are if `autolink_on` is set.
fn raw_line(autolink_on: bool, html: &mut HtmlAllocator, line: &str, metas: &SoftPreMetas) -> (r:
    Result<ASlice<Node>, AhtmlError>)
    requires
        old(html).wf(),
    ensures
        final(html).wf(),
        r is Err && link_allowed(old(html), metas.a) ==> r == Err::<ASlice<Node>, AhtmlError>(
            AhtmlError::OutOfMemory,
        ),
        final(html).region() == old(html).region(),
        final(html).metadb_view() == old(html).metadb_view(),
        final(html).nodes_cap() == old(html).nodes_cap(),
        final(html).atts_cap() == old(html).atts_cap(),
        final(html).ids_cap() == old(html).ids_cap(),
        link_allowed(old(html), metas.a) && old(html).nodes_view().len() + line_nodes(
            None,
            autolink_on,
            line@,
        ) <= old(html).nodes_cap() && old(html).atts_view().len() + line_atts(autolink_on, line@)
            <= old(html).atts_cap() && old(html).ids_view().len() + line_ids(
            None,
            autolink_on,
            line@,
        ) <= old(html).ids_cap() ==> r is Ok,
        r is Ok ==> {
            &&& final(html).nodes_view().len() <= old(html).nodes_view().len() + line_nodes(
                None,
                autolink_on,
                line@,
            )
            &&& final(html).atts_view().len() <= old(html).atts_view().len() + line_atts(
                autolink_on,
                line@,
            )
            &&& final(html).ids_view().len() <= old(html).ids_view().len() + line_ids(
                None,
                autolink_on,
                line@,
            )
        },
        r matches Ok(s) ==> {
            &&& s.region() == old(html).region()
            &&& s.send() <= final(html).ids_view().len()
            &&& s.slen() == raw_line_items(autolink_on, line@).len()
            &&& (s.slen() == 0 || s.sstart() >= old(html).ids_view().len())
            &&& kept(old(html), final(html), 0, 0)
            &&& items_ok(
                final(html),
                slice_ids(final(html), s),
                raw_line_items(autolink_on, line@),
                metas,
                0,
                old(html).ids_view().len() as int,
            )
        },
{
    let ghost floor = old(html).ids_view().len() as int;
    if autolink_on {
        let s = autolink(html, line, metas.a)?;
        proof {
            let b = line.spec_bytes();
            let pieces = autolink_from(b, 0, 0);
            let its = raw_line_items(true, line@);
            let ids = slice_ids(html, s);
            assert forall|k: int| 0 <= k < its.len() implies #[trigger] item_ok(html, ids[k], its[k], metas) && slices_outside(html, ids[k], 0, floor) by {
                assert(ids[k] == html.ids_view()[s.sstart() + k]);
                assert(piece_ok(html, html.ids_view()[s.sstart() + k], pieces[k], b, metas.a));
                assert(slices_outside(html, html.ids_view()[s.sstart() + k], 0, floor));
                assert(its[k] == piece_item(b, pieces[k]));
            }
            assert forall|k: int| 0 <= k < its.len() implies #[trigger] slices_outside(html, ids[k], 0, floor) by {
                assert(item_ok(html, ids[k], its[k], metas) && slices_outside(html, ids[k], 0, floor));
            }
        }
        Ok(s)
    } else {
        let ghost h0 = *html;
        let t = html.text(line)?;
        let ghost h1 = *html;
        let mut v: AVec<Node> = html.new_vec();
        v.push(html, t)?;
        let out = v.as_slice();
        proof {
            lemma_kept_store(&h0, &h1);
            assert(kept(&h1, html, 0, 0));
            crate::ahtml::util::lemma_kept_trans(&h0, &h1, html, 0, 0, 0, 0);
            assert(h1.nodes_view()[t.bare() as int] == h1.nodes_view().last());
            assert(slice_ids(html, out) =~= v.contents(html));
            assert(v.contents(html) =~= seq![t.bare()]);
            let its = raw_line_items(false, line@);
            let ids = slice_ids(html, out);
            assert(item_ok(html, ids[0], its[0], metas));
        }
        Ok(out)
    }
}

impl SoftPre {
    /// The nodes for one line: its text, with links where URLs are if
    /// `autolink` is set, and tabs replaced if `tabs_to_nbsp` is set.
    fn format_line(&self, html: &mut HtmlAllocator, line: &str, metas: &SoftPreMetas) -> (r: Result<
        ASlice<Node>,
        AhtmlError,
    >)
        requires
            old(html).wf(),
        ensures
            final(html).wf(),
            r is Err && link_allowed(old(html), metas.a) ==> r == Err::<ASlice<Node>, AhtmlError>(
                AhtmlError::OutOfMemory,
            ),
            final(html).region() == old(html).region(),
            final(html).metadb_view() == old(html).metadb_view(),
            final(html).nodes_cap() == old(html).nodes_cap(),
            final(html).atts_cap() == old(html).atts_cap(),
            final(html).ids_cap() == old(html).ids_cap(),
            link_allowed(old(html), metas.a) && old(html).nodes_view().len() + line_nodes(
                self.tabs_to_nbsp,
                self.autolink,
                line@,
            ) <= old(html).nodes_cap() && old(html).atts_view().len() + line_atts(
                self.autolink,
                line@,
            ) <= old(html).atts_cap() && old(html).ids_view().len() + line_ids(
                self.tabs_to_nbsp,
                self.autolink,
                line@,
            ) <= old(html).ids_cap() ==> r is Ok,
            r is Ok ==> {
                &&& final(html).nodes_view().len() <= old(html).nodes_view().len() + line_nodes(
                    self.tabs_to_nbsp,
                    self.autolink,
                    line@,
                )
                &&& final(html).atts_view().len() <= old(html).atts_view().len() + line_atts(
                    self.autolink,
                    line@,
                )
                &&& final(html).ids_view().len() <= old(html).ids_view().len() + line_ids(
                    self.tabs_to_nbsp,
                    self.autolink,
                    line@,
                )
            },
            r matches Ok(s) ==> {
                &&& s.region() == old(html).region()
                &&& s.send() <= final(html).ids_view().len()
                &&& s.slen() == line_items(self.tabs_to_nbsp, self.autolink, line@).len()
                &&& (s.slen() == 0 || s.sstart() >= old(html).ids_view().len())
                &&& kept(old(html), final(html), 0, 0)
                &&& items_ok(
                    final(html),
                    slice_ids(final(html), s),
                    line_items(self.tabs_to_nbsp, self.autolink, line@),
                    metas,
                    0,
                    old(html).ids_view().len() as int,
                )
            },
    {
        let ghost floor = old(html).ids_view().len() as int;
        let ghost fits = link_allowed(old(html), metas.a) && old(html).nodes_view().len()
            + line_nodes(self.tabs_to_nbsp, self.autolink, line@) <= old(html).nodes_cap()
            && old(html).atts_view().len() + line_atts(self.autolink, line@) <= old(
            html,
        ).atts_cap() && old(html).ids_view().len() + line_ids(
            self.tabs_to_nbsp,
            self.autolink,
            line@,
        ) <= old(html).ids_cap();
        let first = raw_line(self.autolink, html, line, metas)?;
        let n = match self.tabs_to_nbsp {
            None => {
                return Ok(first);
            },
            Some(n) => n,
        };
        let ghost raw = raw_line_items(self.autolink, line@);
        let ghost h1 = *html;
        let ghost first_ids = slice_ids(&h1, first);
        let mut items: AVec<Node> = html.new_vec();
        let len = first.len();
        let mut i: u32 = 0;
        while i < len
            invariant
                html.wf(),
                html.region() == old(html).region(),
                html.metadb_view() == old(html).metadb_view(),
                first.region() == html.region(),
                first.send() <= h1.ids_view().len(),
                len == first.slen(),
                first.slen() == raw.len(),
                raw == raw_line_items(self.autolink, line@),
                self.tabs_to_nbsp == Some(n),
                floor == old(html).ids_view().len(),
                first.slen() == 0 || first.sstart() >= floor,
                floor <= h1.ids_view().len(),
                kept(old(html), &h1, 0, 0),
                kept(&h1, html, h1.ids_view().len() as int, h1.ids_view().len() as int),
                first_ids == slice_ids(&h1, first),
                items_ok(html, first_ids, raw, metas, 0, floor),
                items_ok(html, first_ids, raw, metas, items.vstart() as int, items.vstart() + items.vcap()),
                0 <= i <= len,
                items.wf_in(html),
                items.vlen() == i,
                items.vcap() == 0 || items.vstart() >= h1.ids_view().len(),
                items_ok(
                    html,
                    items.contents(html),
                    raw.take(i as int).map_values(|it: SoftItem| tab_item(n, it)),
                    metas,
                    items.vstart() as int,
                    items.vstart() + items.vcap(),
                ),
                items_ok(
                    html,
                    items.contents(html),
                    raw.take(i as int).map_values(|it: SoftItem| tab_item(n, it)),
                    metas,
                    0,
                    floor,
                ),
                html.nodes_cap() == old(html).nodes_cap(),
                html.atts_cap() == old(html).atts_cap(),
                html.ids_cap() == old(html).ids_cap(),
                html.nodes_view().len() <= h1.nodes_view().len() + i,
                html.atts_view().len() == h1.atts_view().len(),
                html.ids_view().len() + 4 * items.vlen() - 2 * items.vcap() <= h1.ids_view().len()
                    + 4 * i,
                items.vcap() <= 2 * items.vlen() + 8,
                fits ==> h1.nodes_view().len() + len <= html.nodes_cap() && h1.ids_view().len() + 4
                    * len + 16 <= html.ids_cap(),
                fits ==> link_allowed(html, metas.a),
                fits == (link_allowed(old(html), metas.a) && old(html).nodes_view().len()
                    + line_nodes(self.tabs_to_nbsp, self.autolink, line@) <= old(html).nodes_cap()
                    && old(html).atts_view().len() + line_atts(self.autolink, line@) <= old(
                    html,
                ).atts_cap() && old(html).ids_view().len() + line_ids(
                    self.tabs_to_nbsp,
                    self.autolink,
                    line@,
                ) <= old(html).ids_cap()),
            decreases len - i,
        {
            let ghost h2 = *html;
            let ghost oldv = items;
            let ghost acc = raw.take(i as int).map_values(|it: SoftItem| tab_item(n, it));
            let id: AId<Node> = html.get_id(first.start_pos() + i).unwrap();
            proof {
                assert(first_ids[i as int] == h1.ids_view()[first.sstart() + i]);
                assert(h2.ids_view()[first.sstart() + i] == h1.ids_view()[first.sstart() + i]);
                assert(id.bare() == first_ids[i as int]);
                assert(item_ok(&h2, first_ids[i as int], raw[i as int], metas));
            }
            let replaced: Option<String> = match html.get_node(id) {
                Some(Node::String(st)) => Some(replace_tabs(st.as_str(), n)),
                _ => None,
            };
            let newid = match replaced {
                Some(s2) => html.string(s2)?,
                None => id,
            };
            let ghost h3 = *html;
            let ghost it2 = tab_item(n, raw[i as int]);
            proof {
                lemma_kept_store(&h2, &h3);
                assert(kept(&h2, &h3, 0, 0));
                lemma_items_kept(&h2, &h3, 0, 0, first_ids, raw, metas, 0, floor, 0, floor);
                lemma_items_kept(&h2, &h3, 0, 0, first_ids, raw, metas, oldv.vstart() as int, oldv.vstart() + oldv.vcap(), oldv.vstart() as int, oldv.vstart() + oldv.vcap());
                lemma_items_kept(&h2, &h3, 0, 0, oldv.contents(&h2), acc, metas, oldv.vstart() as int, oldv.vstart() + oldv.vcap(), oldv.vstart() as int, oldv.vstart() + oldv.vcap());
                lemma_items_kept(&h2, &h3, 0, 0, oldv.contents(&h2), acc, metas, 0, floor, 0, floor);
                assert(oldv.contents(&h3) =~= oldv.contents(&h2));
                lemma_item_kept(&h2, &h3, 0, 0, id.bare(), raw[i as int], metas);
                assert(slices_outside(&h2, first_ids[i as int], 0, floor));
                assert(slices_outside(&h2, first_ids[i as int], oldv.vstart() as int, oldv.vstart() + oldv.vcap()));
                if replaced is Some {
                    assert(h3.nodes_view()[newid.bare() as int] == h3.nodes_view().last());
                } else {
                    assert(newid == id);
                }
                assert(item_ok(&h3, newid.bare(), it2, metas));
                assert(slices_outside(&h3, newid.bare(), 0, floor));
                assert(slices_outside(&h3, newid.bare(), oldv.vstart() as int, oldv.vstart() + oldv.vcap()));
                assert(kept(&h1, &h3, h1.ids_view().len() as int, h1.ids_view().len() as int));
            }
            items.push(html, newid)?;
            proof {
                let lo2 = items.vstart() as int;
                let hi2 = items.vstart() + items.vcap();
                let lo1 = oldv.vstart() as int;
                let hi1 = oldv.vstart() + oldv.vcap();
                assert(kept(&h3, html, lo1, hi1));
                lemma_items_kept(&h3, html, lo1, hi1, first_ids, raw, metas, 0, floor, 0, floor);
                lemma_items_kept(&h3, html, lo1, hi1, first_ids, raw, metas, lo1, hi1, lo2, hi2);
                lemma_items_kept(&h3, html, lo1, hi1, oldv.contents(&h3), acc, metas, lo1, hi1, lo2, hi2);
                lemma_items_kept(&h3, html, lo1, hi1, oldv.contents(&h3), acc, metas, 0, floor, 0, floor);
                lemma_item_kept(&h3, html, lo1, hi1, newid.bare(), it2, metas);
                if lo2 >= h3.ids_view().len() {
                    lemma_item_below(&h3, newid.bare(), it2, metas, lo2, hi2);
                }
                assert(slices_outside(html, newid.bare(), lo2, hi2));
                assert(slices_outside(html, newid.bare(), 0, floor));
                assert(raw.take(i + 1).map_values(|it: SoftItem| tab_item(n, it)) =~= acc.push(it2));
                let single = seq![newid.bare()];
                assert(items_ok(html, single, seq![it2], metas, lo2, hi2));
                assert(items_ok(html, single, seq![it2], metas, 0, floor));
                lemma_items_concat(html, oldv.contents(&h3), acc, single, seq![it2], metas, lo2, hi2);
                lemma_items_concat(html, oldv.contents(&h3), acc, single, seq![it2], metas, 0, floor);
                assert(oldv.contents(&h3) + single =~= items.contents(html));
                assert(acc + seq![it2] =~= acc.push(it2));
                crate::ahtml::util::lemma_kept_trans(&h1, &h3, html, h1.ids_view().len() as int, h1.ids_view().len() as int, lo1, hi1);
            }
            i = i + 1;
        }
        let out = items.as_slice();
        proof {
            assert(raw.take(len as int) =~= raw);
            assert(slice_ids(html, out) =~= items.contents(html));
            crate::ahtml::util::lemma_kept_trans(old(html), &h1, html, 0, 0, h1.ids_view().len() as int, h1.ids_view().len() as int);
        }
        Ok(out)
    }
}

/// Node `nid` of `html` is a `div` element of kind `metas.div` with
/// the single attribute `class="soft_pre"` and the items `its` as its
/// body.
pub open spec fn soft_pre_ok(html: &HtmlAllocator, nid: u32, its: Seq<SoftItem>, metas: &SoftPreMetas) -> bool {
    &&& nid < html.nodes_view().len()
    &&& match html.nodes_view()[nid as int] {
        Some(Node::Element(el)) => {
            &&& el.meta == metas.div
            &&& el.attr.region() == html.region() && el.body.region() == html.region()
            &&& el.attr.slen() == 1
            &&& el.attr.send() <= html.ids_view().len() && el.body.send() <= html.ids_view().len()
            &&& html.ids_view()[el.attr.sstart() as int] < html.atts_view().len()
            &&& (html.atts_view()[html.ids_view()[el.attr.sstart() as int] as int] matches Some(
                (k, v),
            ) && k@ == "class"@ && v@ == "soft_pre"@)
            &&& items_ok(html, slice_ids(html, el.body), its, metas, 0, 0)
        },
        _ => false,
    }
}

/// The body items for the first lines and one more line.
proof fn lemma_body_items_step(tabs: Option<u8>, autolink: bool, lines: Seq<Seq<char>>, i: int)
    requires
        0 <= i < lines.len(),
    ensures
        body_items(tabs, autolink, lines.take(i + 1)) == body_items(tabs, autolink, lines.take(i))
            + line_items(tabs, autolink, lines[i]) + seq![SoftItem::Break],
{
    assert(lines.take(i + 1).drop_last() =~= lines.take(i));
    assert(lines.take(i + 1).last() == lines[i]);
}

impl SoftPre {
    /// `text` as a `div` element of class `soft_pre`, holding for each
    /// line (the parts of `text` between occurrences of
    /// `line_separator`) its nodes followed by a line break.
    #[verifier::rlimit(60)]
    pub fn format(&self, text: &str, html: &mut HtmlAllocator, metas: &SoftPreMetas) -> (r: Result<
        AId<Node>,
        AhtmlError,
    >)
        requires
            old(html).wf(),
        ensures
            final(html).wf(),
            r is Err && soft_pre_allowed(old(html), metas) ==> r == Err::<AId<Node>, AhtmlError>(
                AhtmlError::OutOfMemory,
            ),
            final(html).region() == old(html).region(),
            final(html).metadb_view() == old(html).metadb_view(),
            final(html).nodes_cap() == old(html).nodes_cap(),
            final(html).atts_cap() == old(html).atts_cap(),
            final(html).ids_cap() == old(html).ids_cap(),
            ({
                let lv = split_spec(text@, self.line_separator@);
                &&& soft_pre_allowed(old(html), metas)
                &&& old(html).nodes_view().len() + soft_nodes(self.tabs_to_nbsp, self.autolink, lv)
                    + 1 <= old(html).nodes_cap()
                &&& old(html).atts_view().len() + soft_atts(self.autolink, lv) + 1 <= old(
                    html,
                ).atts_cap()
                &&& old(html).ids_view().len() + soft_ids(self.tabs_to_nbsp, self.autolink, lv)
                    + 24 <= old(html).ids_cap()
            }) ==> r is Ok,
            r is Ok ==> ({
                let lv = split_spec(text@, self.line_separator@);
                &&& final(html).nodes_view().len() <= old(html).nodes_view().len() + soft_nodes(
                    self.tabs_to_nbsp,
                    self.autolink,
                    lv,
                ) + 1
                &&& final(html).atts_view().len() <= old(html).atts_view().len() + soft_atts(
                    self.autolink,
                    lv,
                ) + 1
                &&& final(html).ids_view().len() <= old(html).ids_view().len() + soft_ids(
                    self.tabs_to_nbsp,
                    self.autolink,
                    lv,
                ) + 24
            }),
            r matches Ok(id) ==> id.region() == old(html).region() && soft_pre_ok(
                final(html),
                id.bare(),
                body_items(
                    self.tabs_to_nbsp,
                    self.autolink,
                    split_spec(text@, self.line_separator@),
                ),
                metas,
            ),
    {
        let lines = split_str(text, self.line_separator);
        let ghost lv = split_spec(text@, self.line_separator@);
        let ghost fits = soft_pre_allowed(old(html), metas) && old(html).nodes_view().len()
            + soft_nodes(self.tabs_to_nbsp, self.autolink, lv) + 1 <= old(html).nodes_cap()
            && old(html).atts_view().len() + soft_atts(self.autolink, lv) + 1 <= old(
            html,
        ).atts_cap() && old(html).ids_view().len() + soft_ids(self.tabs_to_nbsp, self.autolink, lv)
            + 24 <= old(html).ids_cap();
        let mut body: AVec<Node> = html.new_vec();
        let nlines = lines.len();
        let mut i: usize = 0;
        proof {
            assert(body.contents(html) =~= Seq::<u32>::empty());
            assert(lv.take(0) =~= Seq::<Seq<char>>::empty());
        }
        while i < nlines
            invariant
                html.wf(),
                html.region() == old(html).region(),
                html.metadb_view() == old(html).metadb_view(),
                strs_view(lines@) == lv,
                lv == split_spec(text@, self.line_separator@),
                nlines == lines@.len(),
                i <= nlines,
                body.wf_in(html),
                body.region() == html.region(),
                items_ok(
                    html,
                    body.contents(html),
                    body_items(self.tabs_to_nbsp, self.autolink, lv.take(i as int)),
                    metas,
                    body.vstart() as int,
                    body.vstart() + body.vcap(),
                ),
                html.nodes_cap() == old(html).nodes_cap(),
                html.atts_cap() == old(html).atts_cap(),
                html.ids_cap() == old(html).ids_cap(),
                html.nodes_view().len() <= old(html).nodes_view().len() + soft_nodes(
                    self.tabs_to_nbsp,
                    self.autolink,
                    lv.take(i as int),
                ),
                html.atts_view().len() <= old(html).atts_view().len() + soft_atts(
                    self.autolink,
                    lv.take(i as int),
                ),
                html.ids_view().len() + 4 * body.vlen() - 2 * body.vcap() <= old(
                    html,
                ).ids_view().len() + soft_ids(self.tabs_to_nbsp, self.autolink, lv.take(i as int)),
                body.vcap() <= 2 * body.vlen() + 8,
                fits == (soft_pre_allowed(old(html), metas) && old(html).nodes_view().len()
                    + soft_nodes(self.tabs_to_nbsp, self.autolink, lv) + 1 <= old(html).nodes_cap()
                    && old(html).atts_view().len() + soft_atts(self.autolink, lv) + 1 <= old(
                    html,
                ).atts_cap() && old(html).ids_view().len() + soft_ids(
                    self.tabs_to_nbsp,
                    self.autolink,
                    lv,
                ) + 24 <= old(html).ids_cap()),
            decreases nlines - i,
        {
            let line = lines[i];
            let ghost acc = body_items(self.tabs_to_nbsp, self.autolink, lv.take(i as int));
            let ghost li = line_items(self.tabs_to_nbsp, self.autolink, line@);
            let ghost h1 = *html;
            let ghost b1 = body;
            proof {
                lemma_soft_step(self.tabs_to_nbsp, self.autolink, lv, i as int);
                lemma_soft_mono(self.tabs_to_nbsp, self.autolink, lv, i + 1, nlines as int);
                assert(lv.take(nlines as int) =~= lv);
                assert(lines@[i as int]@ == lv[i as int]);
            }
            let s = self.format_line(html, line, metas)?;
            let ghost h2 = *html;
            proof {
                let lo1 = b1.vstart() as int;
                let hi1 = b1.vstart() + b1.vcap();
                lemma_items_kept(&h1, &h2, 0, 0, b1.contents(&h1), acc, metas, lo1, hi1, lo1, hi1);
                assert(b1.contents(&h2) =~= b1.contents(&h1));
                lemma_items_floor(&h2, slice_ids(&h2, s), li, metas, h1.ids_view().len() as int, lo1, hi1);
            }
            if s.len() > 0 {
                body.append(html, s)?;
            }
            let ghost h3 = *html;
            let ghost b3 = body;
            proof {
                let lo1 = b1.vstart() as int;
                let hi1 = b1.vstart() + b1.vcap();
                let lo3 = b3.vstart() as int;
                let hi3 = b3.vstart() + b3.vcap();
                assert(kept(&h2, &h3, lo1, hi1));
                lemma_items_kept(&h2, &h3, lo1, hi1, b1.contents(&h2), acc, metas, lo1, hi1, lo3, hi3);
                lemma_items_kept(&h2, &h3, lo1, hi1, slice_ids(&h2, s), li, metas, lo1, hi1, lo3, hi3);
                if s.slen() > 0 {
                    assert(b3.contents(&h3) =~= b1.contents(&h2) + slice_ids(&h2, s));
                } else {
                    assert(slice_ids(&h2, s) =~= Seq::<u32>::empty());
                    assert(b3.contents(&h3) =~= b1.contents(&h2) + slice_ids(&h2, s));
                }
                lemma_items_concat(&h3, b1.contents(&h2), acc, slice_ids(&h2, s), li, metas, lo3, hi3);
            }
            let empty_atts = html.empty_slice();
            let empty_body = html.empty_slice();
            let br = html.new_element(metas.br, empty_atts, empty_body)?;
            let ghost h4 = *html;
            proof {
                let lo3 = b3.vstart() as int;
                let hi3 = b3.vstart() + b3.vcap();
                lemma_kept_store(&h3, &h4);
                lemma_items_kept(&h3, &h4, 0, 0, b3.contents(&h3), acc + li, metas, lo3, hi3, lo3, hi3);
                assert(b3.contents(&h4) =~= b3.contents(&h3));
                assert(h4.nodes_view()[br.bare() as int] == h4.nodes_view().last());
                assert(item_ok(&h4, br.bare(), SoftItem::Break, metas));
            }
            body.push(html, br)?;
            proof {
                let lo3 = b3.vstart() as int;
                let hi3 = b3.vstart() + b3.vcap();
                let lo5 = body.vstart() as int;
                let hi5 = body.vstart() + body.vcap();
                assert(kept(&h4, html, lo3, hi3));
                lemma_items_kept(&h4, html, lo3, hi3, b3.contents(&h4), acc + li, metas, lo3, hi3, lo5, hi5);
                lemma_item_kept(&h4, html, lo3, hi3, br.bare(), SoftItem::Break, metas);
                let single = seq![br.bare()];
                assert(items_ok(html, single, seq![SoftItem::Break], metas, lo5, hi5));
                lemma_items_concat(html, b3.contents(&h4), acc + li, single, seq![SoftItem::Break], metas, lo5, hi5);
                assert(body.contents(html) =~= b3.contents(&h4) + single);
                assert(lines@[i as int]@ == lv[i as int]);
                lemma_body_items_step(self.tabs_to_nbsp, self.autolink, lv, i as int);
            }
            i = i + 1;
        }
        let ghost all = body_items(self.tabs_to_nbsp, self.autolink, lv);
        let ghost h5 = *html;
        proof {
            assert(lv.take(nlines as int) =~= lv);
        }
        let cls = html.attribute("class", "soft_pre")?;
        let ghost h6 = *html;
        let mut attv: AVec<(String, String)> = html.new_vec();
        attv.push(html, cls)?;
        let ghost h7 = *html;
        let atts = attv.as_slice();
        let bodys = body.as_slice();
        proof {
            let lo = body.vstart() as int;
            let hi = body.vstart() + body.vcap();
            lemma_kept_store(&h5, &h6);
            assert(kept(&h6, &h7, 0, 0));
            crate::ahtml::util::lemma_kept_trans(&h5, &h6, &h7, 0, 0, 0, 0);
            lemma_items_kept(&h5, &h7, 0, 0, body.contents(&h5), all, metas, lo, hi, 0, 0);
            assert(body.contents(&h7) =~= body.contents(&h5));
            assert(slice_ids(&h7, bodys) =~= body.contents(&h7));
            assert(h6.atts_view()[cls.bare() as int] == h6.atts_view().last());
            assert(attv.contents(&h7) =~= seq![cls.bare()]);
            assert(h7.ids_view()[atts.sstart() as int] == attv.contents(&h7)[0]);
            assert forall|p: int| bodys.sstart() <= p < bodys.send() implies #[trigger] h7.ids_view()[p] < h7.nodes_view().len() && h7.nodes_view()[h7.ids_view()[p] as int] is Some by {
                let k = p - bodys.sstart();
                assert(body.contents(&h7)[k] == h7.ids_view()[p]);
                assert(item_ok(&h7, body.contents(&h7)[k], all[k], metas));
            }
            if let Some(db) = h7.metadb_view() {
                if soft_pre_allowed(&h7, metas) {
                    assert(att_at(&h7, atts.sstart() as int) == h7.atts_view()[cls.bare() as int]->0);
                    assert(atts_check(&h7, db, metas.div, atts, 0) is None);
                    assert(atts_check(&h7, db, metas.div, atts, 1) is None);
                    assert forall|i: int| 0 <= i < bodys.slen() implies #[trigger] child_error(
                        metas.div,
                        node_at(&h7, bodys.sstart() + i),
                        i,
                    ) is None by {
                        assert(body.contents(&h7)[i] == h7.ids_view()[bodys.sstart() + i]);
                        assert(item_ok(&h7, body.contents(&h7)[i], all[i], metas));
                    }
                    lemma_body_check_none(&h7, metas.div, bodys, bodys.slen() as nat);
                    assert(element_check(&h7, metas.div, atts, bodys) is None);
                }
            }
        }
        let div = html.new_element(metas.div, atts, bodys)?;
        proof {
            lemma_kept_store(&h7, html);
            lemma_items_kept(&h7, html, 0, 0, slice_ids(&h7, bodys), all, metas, 0, 0, 0, 0);
            assert(slice_ids(html, bodys) =~= slice_ids(&h7, bodys));
            assert(html.nodes_view()[div.bare() as int] == html.nodes_view().last());
            assert(html.ids_view()[atts.sstart() as int] == h7.ids_view()[atts.sstart() as int]);
            assert(html.atts_view()[cls.bare() as int] == h7.atts_view()[cls.bare() as int]);
        }
        Ok(div)
    }
}

} // verus!
