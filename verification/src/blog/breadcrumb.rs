//! The breadcrumb navigation of blog pages: links from the top of the
//! blog down to the current directory.

use std::sync::Arc;

use vstd::prelude::*;

use crate::ahtml::allocator::{max_u32, AhtmlError, AId, ASlice, AVec, HtmlAllocator, Node, SerHtmlFrag};
use crate::ahtml::meta::ElementMeta;
use crate::ahtml::check::{att_error, child_error, lemma_element_refused_iff};
use crate::ahtml::print::{escape_spec, html_of, render_atts, render_body, render_node};
use crate::ahtml::util::{kept, lemma_kept_store, lemma_kept_trans};
use crate::blog::ParsedContextFrame;
use crate::conslist::List;

verus! {

/// The element kinds of a breadcrumb.
pub struct BreadcrumbMetas {
    pub div: &'static ElementMeta,
    pub ul: &'static ElementMeta,
    pub li: &'static ElementMeta,
    pub a: &'static ElementMeta,
}

/// The relative path up `k` levels from `top`: `top` followed by `k`
/// times "/..".
pub open spec fn uplink(top: Seq<char>, k: nat) -> Seq<char>
    decreases k,
{
    if k == 0 {
        top
    } else {
        uplink(top, (k - 1) as nat) + "/.."@
    }
}

/// An element as HTML, given its attributes and body as HTML.
pub open spec fn element_html(meta: &ElementMeta, atts: Seq<char>, body: Seq<char>) -> Seq<char> {
    "<"@ + meta.tag_name@ + atts + ">"@ + body + (if meta.has_closing_tag {
        "</"@ + meta.tag_name@ + ">"@
    } else {
        Seq::empty()
    })
}

/// One attribute as HTML, after a space.
pub open spec fn att_html(key: Seq<char>, val: Seq<char>) -> Seq<char> {
    " "@ + (key + "=\""@ + escape_spec(val) + "\""@)
}

/// The list item linking to `href`, showing `name`.
pub open spec fn crumb_html(metas: &BreadcrumbMetas, name: Seq<char>, href: Seq<char>) -> Seq<
    char,
> {
    element_html(
        metas.li,
        att_html("class"@, "breadcrumb_item"@),
        element_html(metas.a, att_html("href"@, href), escape_spec(name)),
    )
}

/// The list items for the outermost `k` of `names` (given innermost
/// first), outermost first; name number `j` links `j` levels up from
/// `top`.
pub open spec fn crumbs_html(metas: &BreadcrumbMetas, names: Seq<Seq<char>>, top: Seq<char>, k: nat) -> Seq<
    char,
>
    decreases k,
{
    if k == 0 {
        Seq::empty()
    } else {
        let j = names.len() - k;
        crumbs_html(metas, names, top, (k - 1) as nat) + crumb_html(metas, names[j], uplink(top, j as nat))
    }
}

/// The breadcrumb for the directory names `names` (innermost first),
/// with links relative to `top`.
pub open spec fn breadcrumb_spec(metas: &BreadcrumbMetas, names: Seq<Seq<char>>, top: Seq<char>) -> Seq<
    char,
> {
    element_html(
        metas.div,
        att_html("class"@, "breadcrumb"@),
        element_html(metas.ul, Seq::empty(), crumbs_html(metas, names, top, names.len())),
    )
}

/// The file names of the frames of a parsed context.
pub open spec fn frame_names<'f>(frames: Seq<ParsedContextFrame<'f>>) -> Seq<Seq<char>> {
    frames.map_values(|f: ParsedContextFrame<'f>| f.filename@)
}

/// Position `pos` of the id list holds an attribute `key="val"`.
pub open spec fn att_at(html: &HtmlAllocator, pos: int, key: Seq<char>, val: Seq<char>) -> bool {
    &&& 0 <= pos < html.ids_view().len()
    &&& html.ids_view()[pos] < html.atts_view().len()
    &&& (html.atts_view()[html.ids_view()[pos] as int] matches Some((k, v)) && k@ == key && v@
        == val)
}

/// Position `pos` of the id list holds a text node with `text`.
pub open spec fn text_at(html: &HtmlAllocator, pos: int, text: Seq<char>) -> bool {
    &&& 0 <= pos < html.ids_view().len()
    &&& html.ids_view()[pos] < html.nodes_view().len()
    &&& (html.nodes_view()[html.ids_view()[pos] as int] matches Some(Node::String(s)) && s@ == text)
}

/// The node at id list position `pos`.
pub open spec fn node_at(html: &HtmlAllocator, pos: int) -> Option<Node> {
    html.nodes_view()[html.ids_view()[pos] as int]
}

/// An element with one attribute `key="val"` and one body item, both
/// within the id list.
pub open spec fn single_el(
    html: &HtmlAllocator,
    el: crate::ahtml::allocator::Element,
    meta: &ElementMeta,
    key: Seq<char>,
    val: Seq<char>,
) -> bool {
    &&& el.meta == meta
    &&& el.attr.region() == html.region() && el.body.region() == html.region()
    &&& el.attr.slen() == 1 && el.body.slen() == 1
    &&& el.attr.send() <= html.ids_view().len() && el.body.send() <= html.ids_view().len()
    &&& att_at(html, el.attr.sstart() as int, key, val)
    &&& html.ids_view()[el.body.sstart() as int] < html.nodes_view().len()
}

/// Node `nid` of `html` is the list item for `name` linking to `href`.
pub open spec fn crumb_ok(
    html: &HtmlAllocator,
    nid: u32,
    name: Seq<char>,
    href: Seq<char>,
    metas: &BreadcrumbMetas,
) -> bool {
    &&& nid < html.nodes_view().len()
    &&& html.nodes_view()[nid as int] matches Some(Node::Element(li))
    &&& single_el(html, li, metas.li, "class"@, "breadcrumb_item"@)
    &&& node_at(html, li.body.sstart() as int) matches Some(Node::Element(a))
    &&& single_el(html, a, metas.a, "href"@, href)
    &&& text_at(html, a.body.sstart() as int, name)
}

pub open spec fn slice_outside<T>(s: ASlice<T>, lo: int, hi: int) -> bool {
    s.send() <= lo || s.sstart() >= hi
}

/// The id list positions that the list item `nid` and its link refer
/// to lie outside `lo .. hi`.
pub open spec fn crumb_outside(html: &HtmlAllocator, nid: u32, lo: int, hi: int) -> bool {
    match html.nodes_view()[nid as int] {
        Some(Node::Element(li)) => {
            &&& slice_outside(li.attr, lo, hi)
            &&& slice_outside(li.body, lo, hi)
            &&& match node_at(html, li.body.sstart() as int) {
                Some(Node::Element(a)) => slice_outside(a.attr, lo, hi) && slice_outside(
                    a.body,
                    lo,
                    hi,
                ),
                _ => true,
            }
        },
        _ => true,
    }
}

/// The nodes `ids` are the list items for `names` (innermost first),
/// and refer to no id list position in `lo .. hi`.
pub open spec fn crumbs_ok(
    html: &HtmlAllocator,
    ids: Seq<u32>,
    names: Seq<Seq<char>>,
    top: Seq<char>,
    metas: &BreadcrumbMetas,
    lo: int,
    hi: int,
) -> bool {
    &&& ids.len() == names.len()
    &&& forall|k: int|
        0 <= k < ids.len() ==> #[trigger] crumb_ok(html, ids[k], names[k], uplink(top, k as nat), metas)
    &&& forall|k: int| 0 <= k < ids.len() ==> #[trigger] crumb_outside(html, ids[k], lo, hi)
}

proof fn lemma_crumb_below(
    html: &HtmlAllocator,
    nid: u32,
    name: Seq<char>,
    href: Seq<char>,
    metas: &BreadcrumbMetas,
    lo: int,
    hi: int,
)
    requires
        crumb_ok(html, nid, name, href, metas),
        lo >= html.ids_view().len(),
    ensures
        crumb_outside(html, nid, lo, hi),
{
}

proof fn lemma_crumb_kept(
    h1: &HtmlAllocator,
    h2: &HtmlAllocator,
    lo: int,
    hi: int,
    nid: u32,
    name: Seq<char>,
    href: Seq<char>,
    metas: &BreadcrumbMetas,
)
    requires
        kept(h1, h2, lo, hi),
        crumb_ok(h1, nid, name, href, metas),
        crumb_outside(h1, nid, lo, hi),
    ensures
        crumb_ok(h2, nid, name, href, metas),
        crumb_outside(h2, nid, lo, hi),
{
    assert(h2.nodes_view()[nid as int] == h1.nodes_view()[nid as int]);
    if let Some(Node::Element(li)) = h1.nodes_view()[nid as int] {
        let ap = li.attr.sstart() as int;
        let bp = li.body.sstart() as int;
        assert(h2.ids_view()[ap] == h1.ids_view()[ap]);
        assert(h2.ids_view()[bp] == h1.ids_view()[bp]);
        assert(h2.atts_view()[h1.ids_view()[ap] as int] == h1.atts_view()[h1.ids_view()[ap] as int]);
        assert(h2.nodes_view()[h1.ids_view()[bp] as int] == h1.nodes_view()[h1.ids_view()[bp] as int]);
        if let Some(Node::Element(a)) = node_at(h1, bp) {
            let aap = a.attr.sstart() as int;
            let abp = a.body.sstart() as int;
            assert(h2.ids_view()[aap] == h1.ids_view()[aap]);
            assert(h2.ids_view()[abp] == h1.ids_view()[abp]);
            assert(h2.atts_view()[h1.ids_view()[aap] as int] == h1.atts_view()[h1.ids_view()[aap] as int]);
            assert(h2.nodes_view()[h1.ids_view()[abp] as int] == h1.nodes_view()[h1.ids_view()[abp] as int]);
        }
    }
}

proof fn lemma_crumbs_kept(
    h1: &HtmlAllocator,
    h2: &HtmlAllocator,
    lo: int,
    hi: int,
    ids: Seq<u32>,
    names: Seq<Seq<char>>,
    top: Seq<char>,
    metas: &BreadcrumbMetas,
    lo2: int,
    hi2: int,
)
    requires
        kept(h1, h2, lo, hi),
        crumbs_ok(h1, ids, names, top, metas, lo, hi),
        (lo2 == lo && hi2 == hi) || lo2 >= h1.ids_view().len() || hi2 <= 0,
    ensures
        crumbs_ok(h2, ids, names, top, metas, lo2, hi2),
{
    assert forall|k: int| 0 <= k < ids.len() implies #[trigger] crumb_ok(h2, ids[k], names[k], uplink(top, k as nat), metas) && crumb_outside(h2, ids[k], lo2, hi2) by {
        assert(crumb_ok(h1, ids[k], names[k], uplink(top, k as nat), metas));
        assert(crumb_outside(h1, ids[k], lo, hi));
        lemma_crumb_kept(h1, h2, lo, hi, ids[k], names[k], uplink(top, k as nat), metas);
        if lo2 >= h1.ids_view().len() {
            lemma_crumb_below(h1, ids[k], names[k], uplink(top, k as nat), metas, lo2, hi2);
            assert(h2.nodes_view()[ids[k] as int] == h1.nodes_view()[ids[k] as int]);
            if let Some(Node::Element(li)) = h1.nodes_view()[ids[k] as int] {
                let bp = li.body.sstart() as int;
                assert(h2.ids_view()[bp] == h1.ids_view()[bp]);
                assert(h2.nodes_view()[h1.ids_view()[bp] as int] == h1.nodes_view()[h1.ids_view()[bp] as int]);
            }
        }
    }
    assert forall|k: int| 0 <= k < ids.len() implies #[trigger] crumb_outside(h2, ids[k], lo2, hi2) by {
        assert(crumb_ok(h2, ids[k], names[k], uplink(top, k as nat), metas) && crumb_outside(h2, ids[k], lo2, hi2));
    }
}

/// A list item renders as `crumb_html`.
proof fn lemma_crumb_render(
    html: &HtmlAllocator,
    nid: u32,
    name: Seq<char>,
    href: Seq<char>,
    metas: &BreadcrumbMetas,
    fuel: nat,
)
    requires
        crumb_ok(html, nid, name, href, metas),
        fuel >= 3,
    ensures
        render_node(html, nid as int, fuel) == Some(crumb_html(metas, name, href)),
{
    let li = html.nodes_view()[nid as int]->0->Element_0;
    let ap = li.attr.sstart() as int;
    let bp = li.body.sstart() as int;
    let aid = html.ids_view()[bp];
    let a = html.nodes_view()[aid as int]->0->Element_0;
    let aap = a.attr.sstart() as int;
    let abp = a.body.sstart() as int;
    let tid = html.ids_view()[abp];
    let t = html.nodes_view()[tid as int]->0->String_0;
    assert(render_node(html, tid as int, (fuel - 2) as nat) == Some(escape_spec(name)));
    assert(render_body(html, abp, 0, (fuel - 2) as nat) == Some(Seq::<char>::empty()));
    assert(render_body(html, abp, 1, (fuel - 2) as nat) == Some(escape_spec(name))) by {
        assert(Seq::<char>::empty() + escape_spec(name) =~= escape_spec(name));
    }
    assert(render_atts(html, aap, 0) == Some(Seq::<char>::empty()));
    assert(render_atts(html, aap, 1) == Some(att_html("href"@, href))) by {
        assert(Seq::<char>::empty() + " "@ + ("href"@ + "=\""@ + escape_spec(href) + "\""@) =~= att_html("href"@, href));
    }
    let ahtml = element_html(metas.a, att_html("href"@, href), escape_spec(name));
    assert(render_node(html, aid as int, (fuel - 1) as nat) == Some(ahtml));
    assert(render_body(html, bp, 0, (fuel - 1) as nat) == Some(Seq::<char>::empty()));
    assert(render_body(html, bp, 1, (fuel - 1) as nat) == Some(ahtml)) by {
        assert(Seq::<char>::empty() + ahtml =~= ahtml);
    }
    assert(render_atts(html, ap, 0) == Some(Seq::<char>::empty()));
    assert(render_atts(html, ap, 1) == Some(att_html("class"@, "breadcrumb_item"@))) by {
        assert(Seq::<char>::empty() + " "@ + ("class"@ + "=\""@ + escape_spec("breadcrumb_item"@) + "\""@) =~= att_html("class"@, "breadcrumb_item"@));
    }
}

/// The first `k` positions from `start`, holding the list items in
/// reverse, render as the outermost `k` crumbs.
proof fn lemma_crumbs_render(
    html: &HtmlAllocator,
    start: int,
    names: Seq<Seq<char>>,
    top: Seq<char>,
    metas: &BreadcrumbMetas,
    k: nat,
    fuel: nat,
)
    requires
        0 <= start,
        start + names.len() <= html.ids_view().len(),
        k <= names.len(),
        fuel >= 3,
        forall|j: int|
            0 <= j < names.len() ==> #[trigger] crumb_ok(
                html,
                html.ids_view()[start + j],
                names[names.len() - 1 - j],
                uplink(top, (names.len() - 1 - j) as nat),
                metas,
            ),
    ensures
        render_body(html, start, k, fuel) == Some(crumbs_html(metas, names, top, k)),
    decreases k,
{
    if k > 0 {
        lemma_crumbs_render(html, start, names, top, metas, (k - 1) as nat, fuel);
        let j = k - 1;
        assert(crumb_ok(
            html,
            html.ids_view()[start + j],
            names[names.len() - 1 - j],
            uplink(top, (names.len() - 1 - j) as nat),
            metas,
        ));
        lemma_crumb_render(
            html,
            html.ids_view()[start + j],
            names[names.len() - 1 - j],
            uplink(top, (names.len() - 1 - j) as nat),
            metas,
            fuel,
        );
    }
}

/// A list item referring only to positions at or above `floor` refers
/// to none in a range below it.
proof fn lemma_crumb_floor(html: &HtmlAllocator, nid: u32, floor: int, lo: int, hi: int)
    requires
        crumb_outside(html, nid, 0, floor),
        0 <= lo,
        hi <= floor,
    ensures
        crumb_outside(html, nid, lo, hi),
{
}

/// The elements of a breadcrumb pass the structure checks of `html`:
/// there are none without a `MetaDb`; with one, the `href` of links and
/// the `class` of list items and of the `div` are global attributes or
/// ones their kinds declare, links allow text, list items allow links,
/// the list allows list items, and the `div` allows the list.
pub open spec fn breadcrumb_allowed(html: &HtmlAllocator, metas: &BreadcrumbMetas) -> bool {
    match html.metadb_view() {
        None => true,
        Some(db) => {
            &&& (db.is_global_attribute("href"@) || metas.a.declares_attribute("href"@))
            &&& metas.a.allows_child_text
            &&& (db.is_global_attribute("class"@) || metas.li.declares_attribute("class"@))
            &&& metas.li.allows_child(metas.a.tag_name@)
            &&& metas.ul.allows_child(metas.li.tag_name@)
            &&& (db.is_global_attribute("class"@) || metas.div.declares_attribute("class"@))
            &&& metas.div.allows_child(metas.ul.tag_name@)
        },
    }
}

/// The list item for `name` with a link to `href`.
fn make_crumb(html: &mut HtmlAllocator, name: &str, href: &str, metas: &BreadcrumbMetas) -> (r: Result<
    AId<Node>,
    AhtmlError,
>)
    requires
        old(html).wf(),
    ensures
        final(html).wf(),
        r is Err && breadcrumb_allowed(old(html), metas) ==> r == Err::<AId<Node>, AhtmlError>(
            AhtmlError::OutOfMemory,
        ),
        final(html).region() == old(html).region(),
        final(html).metadb_view() == old(html).metadb_view(),
        kept(old(html), final(html), 0, 0),
        final(html).nodes_cap() == old(html).nodes_cap(),
        final(html).atts_cap() == old(html).atts_cap(),
        final(html).ids_cap() == old(html).ids_cap(),
        breadcrumb_allowed(old(html), metas) && old(html).nodes_view().len() + 3 <= old(html).nodes_cap()
            && old(html).atts_view().len() + 2 <= old(html).atts_cap() && old(html).ids_view().len()
            + 32 <= old(html).ids_cap() ==> r is Ok,
        r matches Ok(id) ==> {
            &&& id.region() == old(html).region()
            &&& crumb_ok(final(html), id.bare(), name@, href@, metas)
            &&& crumb_outside(final(html), id.bare(), 0, old(html).ids_view().len() as int)
            &&& final(html).nodes_view().len() == old(html).nodes_view().len() + 3
            &&& final(html).atts_view().len() == old(html).atts_view().len() + 2
            &&& final(html).ids_view().len() == old(html).ids_view().len() + 32
        },
{
    let ghost h0 = *html;
    let tid = html.str(name)?;
    let ghost h1 = *html;
    let hrefid = html.attribute("href", href)?;
    let ghost h2 = *html;
    let mut aatts: AVec<(String, String)> = html.new_vec();
    aatts.push(html, hrefid)?;
    let ghost h3 = *html;
    let mut abody: AVec<Node> = html.new_vec();
    abody.push(html, tid)?;
    let ghost h4 = *html;
    proof {
        lemma_kept_store(&h0, &h1);
        lemma_kept_store(&h1, &h2);
        assert(kept(&h2, &h3, 0, 0));
        assert(kept(&h3, &h4, 0, 0));
        lemma_kept_trans(&h0, &h1, &h2, 0, 0, 0, 0);
        lemma_kept_trans(&h0, &h2, &h3, 0, 0, 0, 0);
        lemma_kept_trans(&h0, &h3, &h4, 0, 0, 0, 0);
        assert(aatts.contents(&h3) =~= seq![hrefid.bare()]);
        assert(h3.ids_view()[aatts.vstart() as int] == aatts.contents(&h3)[0]);
        assert(abody.contents(&h4) =~= seq![tid.bare()]);
        assert(h4.ids_view()[abody.vstart() as int] == abody.contents(&h4)[0]);
        assert(h4.ids_view()[aatts.vstart() as int] == h3.ids_view()[aatts.vstart() as int]);
        assert(h1.nodes_view()[tid.bare() as int] == h1.nodes_view().last());
        assert(h4.nodes_view()[tid.bare() as int] == h1.nodes_view()[tid.bare() as int]);
        assert(h2.atts_view()[hrefid.bare() as int] == h2.atts_view().last());
        assert(h4.atts_view()[hrefid.bare() as int] == h2.atts_view()[hrefid.bare() as int]);
    }
    let aa = aatts.as_slice();
    let ab = abody.as_slice();
    proof {
        if let Some(db) = h4.metadb_view() {
            if breadcrumb_allowed(&h4, metas) {
                assert(crate::ahtml::check::att_at(&h4, aa.sstart() as int) == h4.atts_view()[hrefid.bare() as int]->0);
                assert(att_error(db, metas.a, crate::ahtml::check::att_at(&h4, aa.sstart() as int).0, 0) is None);
                assert(child_error(metas.a, crate::ahtml::check::node_at(&h4, ab.sstart() as int), 0) is None);
            }
        }
        lemma_element_refused_iff(&h4, metas.a, aa, ab);
    }
    let link = html.new_element(metas.a, aa, ab)?;
    let ghost h5 = *html;
    let cls = html.attribute("class", "breadcrumb_item")?;
    let ghost h6 = *html;
    let mut liatts: AVec<(String, String)> = html.new_vec();
    liatts.push(html, cls)?;
    let ghost h7 = *html;
    let mut libody: AVec<Node> = html.new_vec();
    libody.push(html, link)?;
    let ghost h8 = *html;
    proof {
        lemma_kept_store(&h4, &h5);
        lemma_kept_store(&h5, &h6);
        assert(kept(&h6, &h7, 0, 0));
        assert(kept(&h7, &h8, 0, 0));
        lemma_kept_trans(&h4, &h5, &h6, 0, 0, 0, 0);
        lemma_kept_trans(&h4, &h6, &h7, 0, 0, 0, 0);
        lemma_kept_trans(&h4, &h7, &h8, 0, 0, 0, 0);
        lemma_kept_trans(&h0, &h4, &h8, 0, 0, 0, 0);
        assert(liatts.contents(&h7) =~= seq![cls.bare()]);
        assert(h7.ids_view()[liatts.vstart() as int] == liatts.contents(&h7)[0]);
        assert(libody.contents(&h8) =~= seq![link.bare()]);
        assert(h8.ids_view()[libody.vstart() as int] == libody.contents(&h8)[0]);
        assert(h8.ids_view()[liatts.vstart() as int] == h7.ids_view()[liatts.vstart() as int]);
        assert(h5.nodes_view()[link.bare() as int] == h5.nodes_view().last());
        assert(h8.nodes_view()[link.bare() as int] == h5.nodes_view()[link.bare() as int]);
        assert(h6.atts_view()[cls.bare() as int] == h6.atts_view().last());
        assert(h8.atts_view()[cls.bare() as int] == h6.atts_view()[cls.bare() as int]);
        assert(h8.ids_view()[aatts.vstart() as int] == h4.ids_view()[aatts.vstart() as int]);
        assert(h8.ids_view()[abody.vstart() as int] == h4.ids_view()[abody.vstart() as int]);
        assert(h8.atts_view()[hrefid.bare() as int] == h4.atts_view()[hrefid.bare() as int]);
        assert(h8.nodes_view()[tid.bare() as int] == h4.nodes_view()[tid.bare() as int]);
    }
    let la = liatts.as_slice();
    let lb = libody.as_slice();
    proof {
        if let Some(db) = h8.metadb_view() {
            if breadcrumb_allowed(&h8, metas) {
                assert(crate::ahtml::check::att_at(&h8, la.sstart() as int) == h8.atts_view()[cls.bare() as int]->0);
                assert(att_error(db, metas.li, crate::ahtml::check::att_at(&h8, la.sstart() as int).0, 0) is None);
                assert(crate::ahtml::check::node_at(&h8, lb.sstart() as int) == h5.nodes_view()[link.bare() as int]->0);
                assert(child_error(metas.li, crate::ahtml::check::node_at(&h8, lb.sstart() as int), 0) is None);
            }
        }
        lemma_element_refused_iff(&h8, metas.li, la, lb);
    }
    let li = html.new_element(metas.li, la, lb)?;
    proof {
        lemma_kept_store(&h8, html);
        lemma_kept_trans(&h0, &h8, html, 0, 0, 0, 0);
        assert(html.nodes_view()[li.bare() as int] == html.nodes_view().last());
        assert(html.nodes_view()[link.bare() as int] == h8.nodes_view()[link.bare() as int]);
        assert(html.nodes_view()[tid.bare() as int] == h8.nodes_view()[tid.bare() as int]);
        assert(html.atts_view()[hrefid.bare() as int] == h8.atts_view()[hrefid.bare() as int]);
        assert(html.atts_view()[cls.bare() as int] == h8.atts_view()[cls.bare() as int]);
        assert(html.ids_view()[aatts.vstart() as int] == h8.ids_view()[aatts.vstart() as int]);
        assert(html.ids_view()[abody.vstart() as int] == h8.ids_view()[abody.vstart() as int]);
        assert(html.ids_view()[liatts.vstart() as int] == h8.ids_view()[liatts.vstart() as int]);
        assert(html.ids_view()[libody.vstart() as int] == h8.ids_view()[libody.vstart() as int]);
        assert(node_at(html, libody.vstart() as int) == html.nodes_view()[link.bare() as int]);
    }
    Ok(li)
}

/// The breadcrumb for the directories of `parsed_context` (innermost
/// first): a `div` of class "breadcrumb" holding a `ul` with one list
/// item (class "breadcrumb_item") per directory, outermost first, each
/// with a link to its directory relative to `top_relpath` ("." or
/// ".."); preserialized.
#[verifier::rlimit(60)]
pub fn breadcrumb_html<'f>(
    html: &mut HtmlAllocator,
    parsed_context: &List<'f, ParsedContextFrame<'f>>,
    top_relpath: &str,
    metas: &BreadcrumbMetas,
) -> (r: Result<SerHtmlFrag, AhtmlError>)
    requires
        old(html).wf(),
    ensures
        final(html).wf(),
        r is Err && breadcrumb_allowed(old(html), metas) ==> r == Err::<SerHtmlFrag, AhtmlError>(
            AhtmlError::OutOfMemory,
        ),
        final(html).region() == old(html).region(),
        final(html).metadb_view() == old(html).metadb_view(),
        breadcrumb_allowed(old(html), metas) && old(html).nodes_view().len() + 3 * parsed_context@.len()
            + 2 <= old(html).nodes_cap() && old(html).atts_view().len() + 2 * parsed_context@.len()
            + 1 <= old(html).atts_cap() && old(html).ids_view().len() + 36 * parsed_context@.len()
            + 32 <= old(html).ids_cap() ==> r is Ok,
        final(html).nodes_cap() == old(html).nodes_cap(),
        final(html).atts_cap() == old(html).atts_cap(),
        final(html).ids_cap() == old(html).ids_cap(),
        r is Ok ==> final(html).nodes_view().len() == old(html).nodes_view().len() + 3
            * parsed_context@.len() + 2 && final(html).atts_view().len() == old(html).atts_view().len()
            + 2 * parsed_context@.len() + 1 && final(html).ids_view().len() <= old(html).ids_view().len()
            + 36 * parsed_context@.len() + 32,
        r matches Ok(f) ==> f.frag_meta() == metas.div && f.frag_str() == breadcrumb_spec(
            metas,
            frame_names(parsed_context@),
            top_relpath@,
        ),
{
    let ghost names = frame_names(parsed_context@);
    let ghost top = top_relpath@;
    let ghost n0 = old(html).nodes_view().len() as int;
    let ghost a0 = old(html).atts_view().len() as int;
    let ghost i0 = old(html).ids_view().len() as int;
    let ghost good = breadcrumb_allowed(old(html), metas) && old(html).nodes_view().len() + 3
        * parsed_context@.len() + 2 <= old(html).nodes_cap() && old(html).atts_view().len() + 2
        * parsed_context@.len() + 1 <= old(html).atts_cap() && old(html).ids_view().len() + 36
        * parsed_context@.len() + 32 <= old(html).ids_cap();
    let ghost mut sumcaps: int = 0;
    let mut v: AVec<Node> = html.new_vec();
    let mut l = parsed_context;
    let mut up = top_relpath.to_owned();
    let ghost mut k: nat = 0;
    proof {
        assert(parsed_context@.skip(0) =~= parsed_context@);
        assert(v.contents(html) =~= Seq::<u32>::empty());
        assert(names.take(0) =~= Seq::<Seq<char>>::empty());
    }
    loop
        invariant
            html.wf(),
            html.region() == old(html).region(),
            html.metadb_view() == old(html).metadb_view(),
            names == frame_names(parsed_context@),
            top == top_relpath@,
            k <= names.len(),
            names.len() == parsed_context@.len(),
            l@ == parsed_context@.skip(k as int),
            up@ == uplink(top, k),
            v.wf_in(html),
            v.region() == html.region(),
            html.nodes_view().len() >= 3 * k,
            html.nodes_cap() == old(html).nodes_cap(),
            html.atts_cap() == old(html).atts_cap(),
            html.ids_cap() == old(html).ids_cap(),
            n0 == old(html).nodes_view().len(),
            a0 == old(html).atts_view().len(),
            i0 == old(html).ids_view().len(),
            html.nodes_view().len() == n0 + 3 * k,
            html.atts_view().len() == a0 + 2 * k,
            html.ids_view().len() == i0 + 32 * k + sumcaps,
            0 <= sumcaps <= 2 * v.vcap(),
            v.vcap() <= 8 || v.vcap() <= 2 * k,
            v.vlen() == k,
            good == (breadcrumb_allowed(old(html), metas) && n0 + 3 * names.len() + 2 <= old(
                html,
            ).nodes_cap() && a0 + 2 * names.len() + 1 <= old(html).atts_cap() && i0 + 36
                * names.len() + 32 <= old(html).ids_cap()),
            crumbs_ok(
                html,
                v.contents(html),
                names.take(k as int),
                top,
                metas,
                v.vstart() as int,
                v.vstart() + v.vcap(),
            ),
        ensures
            html.wf(),
            html.region() == old(html).region(),
            html.metadb_view() == old(html).metadb_view(),
            k == names.len(),
            v.wf_in(html),
            v.region() == html.region(),
            html.nodes_view().len() >= 3 * k,
            html.nodes_cap() == old(html).nodes_cap(),
            html.atts_cap() == old(html).atts_cap(),
            html.ids_cap() == old(html).ids_cap(),
            n0 == old(html).nodes_view().len(),
            a0 == old(html).atts_view().len(),
            i0 == old(html).ids_view().len(),
            html.nodes_view().len() == n0 + 3 * k,
            html.atts_view().len() == a0 + 2 * k,
            html.ids_view().len() == i0 + 32 * k + sumcaps,
            0 <= sumcaps <= 2 * v.vcap(),
            v.vcap() <= 8 || v.vcap() <= 2 * k,
            v.vlen() == k,
            good == (breadcrumb_allowed(old(html), metas) && n0 + 3 * names.len() + 2 <= old(
                html,
            ).nodes_cap() && a0 + 2 * names.len() + 1 <= old(html).atts_cap() && i0 + 36
                * names.len() + 32 <= old(html).ids_cap()),
            crumbs_ok(
                html,
                v.contents(html),
                names.take(k as int),
                top,
                metas,
                v.vstart() as int,
                v.vstart() + v.vcap(),
            ),
        decreases l@.len(),
    {
        match l {
            List::Pair(a, r) => {
                let ghost h1 = *html;
                let ghost v1 = v;
                proof {
                    assert(l@ == seq![*a] + r@);
                    assert(parsed_context@.skip(k as int)[0] == parsed_context@[k as int]);
                    assert(a.filename@ == names[k as int]);
                    assert(r@ =~= l@.drop_first());
                    assert(parsed_context@.skip(k as int).drop_first() =~= parsed_context@.skip(k + 1 as int));
                }
                let li = make_crumb(html, a.filename, up.as_str(), metas)?;
                let ghost h2 = *html;
                proof {
                    let lo = v1.vstart() as int;
                    let hi = v1.vstart() + v1.vcap();
                    lemma_crumbs_kept(&h1, &h2, 0, 0, v1.contents(&h1), names.take(k as int), top, metas, 0, 0);
                    lemma_crumbs_kept(&h1, &h1, lo, hi, v1.contents(&h1), names.take(k as int), top, metas, 0, 0);
                    assert(kept(&h1, &h2, lo, hi));
                    lemma_crumbs_kept(&h1, &h2, lo, hi, v1.contents(&h1), names.take(k as int), top, metas, lo, hi);
                    assert(v1.contents(&h2) =~= v1.contents(&h1));
                    lemma_crumb_floor(&h2, li.bare(), h1.ids_view().len() as int, lo, hi);
                }
                v.push(html, li)?;
                proof {
                    if v1.vlen() == v1.vcap() {
                        sumcaps = sumcaps + v.vcap();
                    }
                    let lo = v1.vstart() as int;
                    let hi = v1.vstart() + v1.vcap();
                    let lo2 = v.vstart() as int;
                    let hi2 = v.vstart() + v.vcap();
                    assert(kept(&h2, html, lo, hi));
                    lemma_crumbs_kept(&h2, html, lo, hi, v1.contents(&h2), names.take(k as int), top, metas, lo2, hi2);
                    lemma_crumb_kept(&h2, html, lo, hi, li.bare(), names[k as int], uplink(top, k), metas);
                    if lo2 >= h2.ids_view().len() {
                        lemma_crumb_below(&h2, li.bare(), names[k as int], uplink(top, k), metas, lo2, hi2);
                        assert(html.nodes_view()[li.bare() as int] == h2.nodes_view()[li.bare() as int]);
                        if let Some(Node::Element(e)) = h2.nodes_view()[li.bare() as int] {
                            let bp = e.body.sstart() as int;
                            assert(html.ids_view()[bp] == h2.ids_view()[bp]);
                            assert(html.nodes_view()[h2.ids_view()[bp] as int] == h2.nodes_view()[h2.ids_view()[bp] as int]);
                        }
                    }
                    assert(crumb_outside(html, li.bare(), lo2, hi2));
                    let ids2 = v.contents(html);
                    assert(ids2 =~= v1.contents(&h2).push(li.bare()));
                    let names2 = names.take(k + 1 as int);
                    assert(names2 =~= names.take(k as int).push(names[k as int]));
                    assert forall|j: int| 0 <= j < ids2.len() implies #[trigger] crumb_ok(html, ids2[j], names2[j], uplink(top, j as nat), metas) && crumb_outside(html, ids2[j], lo2, hi2) by {
                        if j < k {
                            assert(ids2[j] == v1.contents(&h2)[j]);
                            assert(names2[j] == names.take(k as int)[j]);
                            assert(crumb_ok(html, v1.contents(&h2)[j], names.take(k as int)[j], uplink(top, j as nat), metas));
                            assert(crumb_outside(html, v1.contents(&h2)[j], lo2, hi2));
                        }
                    }
                    assert forall|j: int| 0 <= j < ids2.len() implies #[trigger] crumb_outside(html, ids2[j], lo2, hi2) by {
                        assert(crumb_ok(html, ids2[j], names2[j], uplink(top, j as nat), metas) && crumb_outside(html, ids2[j], lo2, hi2));
                    }
                }
                l = r;
                up.append("/..");
                proof {
                    k = k + 1;
                }
            },
            List::Null => {
                proof {
                    assert(l@.len() == 0);
                }
                break ;
            },
        }
    }
    let ghost n = names.len();
    let ghost h3 = *html;
    let ghost before = v.contents(html);
    proof {
        assert(names.take(n as int) =~= names);
    }
    v.reverse(html);
    let ghost h4 = *html;
    proof {
        let lo = v.vstart() as int;
        let hi = v.vstart() + v.vcap();
        assert(kept(&h3, &h4, lo, hi));
        lemma_crumbs_kept(&h3, &h4, lo, hi, before, names, top, metas, 0, 0);
        assert forall|j: int| 0 <= j < n implies #[trigger] crumb_ok(
            &h4,
            h4.ids_view()[v.vstart() + j],
            names[n - 1 - j],
            uplink(top, (n - 1 - j) as nat),
            metas,
        ) by {
            assert(h4.ids_view()[v.vstart() + j] == v.contents(&h4)[j]);
            assert(v.contents(&h4)[j] == before[n - 1 - j]);
            assert(crumb_ok(&h4, before[n - 1 - j], names[n - 1 - j], uplink(top, (n - 1 - j) as nat), metas));
        }
    }
    let empty_atts = html.empty_slice();
    let items = v.as_slice();
    proof {
        assert forall|p: int| items.sstart() <= p < items.send() implies #[trigger] h4.ids_view()[p] < h4.nodes_view().len() && h4.nodes_view()[h4.ids_view()[p] as int] is Some by {
            let j = p - items.sstart();
            assert(crumb_ok(&h4, h4.ids_view()[v.vstart() + j], names[n - 1 - j], uplink(top, (n - 1 - j) as nat), metas));
        }
    }
    proof {
        if let Some(db) = h4.metadb_view() {
            if breadcrumb_allowed(&h4, metas) {
                assert forall|i: int| 0 <= i < items.slen() implies #[trigger] child_error(
                    metas.ul,
                    crate::ahtml::check::node_at(&h4, items.sstart() + i),
                    i,
                ) is None by {
                    assert(crumb_ok(&h4, h4.ids_view()[v.vstart() + i], names[n - 1 - i], uplink(top, (n - 1 - i) as nat), metas));
                }
            }
        }
        lemma_element_refused_iff(&h4, metas.ul, empty_atts, items);
    }
    let ul = html.new_element(metas.ul, empty_atts, items)?;
    let ghost h5 = *html;
    let cls = html.attribute("class", "breadcrumb")?;
    let ghost h6 = *html;
    let mut datts: AVec<(String, String)> = html.new_vec();
    datts.push(html, cls)?;
    let ghost h7 = *html;
    let mut dbody: AVec<Node> = html.new_vec();
    dbody.push(html, ul)?;
    let ghost h8 = *html;
    proof {
        lemma_kept_store(&h4, &h5);
        lemma_kept_store(&h5, &h6);
        assert(kept(&h6, &h7, 0, 0));
        assert(kept(&h7, &h8, 0, 0));
        lemma_kept_trans(&h4, &h5, &h6, 0, 0, 0, 0);
        lemma_kept_trans(&h4, &h6, &h7, 0, 0, 0, 0);
        lemma_kept_trans(&h4, &h7, &h8, 0, 0, 0, 0);
        assert(datts.contents(&h7) =~= seq![cls.bare()]);
        assert(h7.ids_view()[datts.vstart() as int] == datts.contents(&h7)[0]);
        assert(dbody.contents(&h8) =~= seq![ul.bare()]);
        assert(h8.ids_view()[dbody.vstart() as int] == dbody.contents(&h8)[0]);
        assert(h8.ids_view()[datts.vstart() as int] == h7.ids_view()[datts.vstart() as int]);
        assert(h6.atts_view()[cls.bare() as int] == h6.atts_view().last());
        assert(h8.atts_view()[cls.bare() as int] == h6.atts_view()[cls.bare() as int]);
        assert(h5.nodes_view()[ul.bare() as int] == h5.nodes_view().last());
        assert(h8.nodes_view()[ul.bare() as int] == h5.nodes_view()[ul.bare() as int]);
    }
    let da = datts.as_slice();
    let db_ = dbody.as_slice();
    proof {
        if let Some(db) = h8.metadb_view() {
            if breadcrumb_allowed(&h8, metas) {
                assert(crate::ahtml::check::att_at(&h8, da.sstart() as int) == h8.atts_view()[cls.bare() as int]->0);
                assert(att_error(db, metas.div, crate::ahtml::check::att_at(&h8, da.sstart() as int).0, 0) is None);
                assert(crate::ahtml::check::node_at(&h8, db_.sstart() as int) == h5.nodes_view()[ul.bare() as int]->0);
                assert(child_error(metas.div, crate::ahtml::check::node_at(&h8, db_.sstart() as int), 0) is None);
            }
        }
        lemma_element_refused_iff(&h8, metas.div, da, db_);
    }
    let div = html.new_element(metas.div, da, db_)?;
    proof {
        lemma_kept_store(&h8, html);
        lemma_kept_trans(&h4, &h8, html, 0, 0, 0, 0);
        let fuel = (html.nodes_view().len() + 1) as nat;
        assert(html.nodes_view()[div.bare() as int] == html.nodes_view().last());
        assert(html.nodes_view()[ul.bare() as int] == h8.nodes_view()[ul.bare() as int]);
        assert(html.ids_view()[dbody.vstart() as int] == h8.ids_view()[dbody.vstart() as int]);
        assert(html.ids_view()[datts.vstart() as int] == h8.ids_view()[datts.vstart() as int]);
        assert(html.atts_view()[cls.bare() as int] == h8.atts_view()[cls.bare() as int]);
        assert forall|j: int| 0 <= j < n implies #[trigger] crumb_ok(
            html,
            html.ids_view()[items.sstart() + j],
            names[n - 1 - j],
            uplink(top, (n - 1 - j) as nat),
            metas,
        ) by {
            let p = items.sstart() + j;
            assert(html.ids_view()[p] == h4.ids_view()[p]);
            assert(crumb_ok(&h4, h4.ids_view()[p], names[n - 1 - j], uplink(top, (n - 1 - j) as nat), metas));
            assert(crumb_outside(&h4, h4.ids_view()[p], 0, 0));
            lemma_crumb_kept(&h4, html, 0, 0, h4.ids_view()[p], names[n - 1 - j], uplink(top, (n - 1 - j) as nat), metas);
        }
        let crumbs = crumbs_html(metas, names, top, n);
        if n > 0 {
            lemma_crumbs_render(html, items.sstart() as int, names, top, metas, n, (fuel - 2) as nat);
        }
        assert(render_body(html, items.sstart() as int, n, (fuel - 2) as nat) == Some(crumbs));
        assert(render_atts(html, 0, 0) == Some(Seq::<char>::empty()));
        let ulhtml = element_html(metas.ul, Seq::empty(), crumbs);
        assert(render_node(html, ul.bare() as int, (fuel - 1) as nat) == Some(ulhtml));
        let bp = dbody.vstart() as int;
        assert(render_body(html, bp, 0, (fuel - 1) as nat) == Some(Seq::<char>::empty()));
        assert(render_body(html, bp, 1, (fuel - 1) as nat) == Some(ulhtml)) by {
            assert(Seq::<char>::empty() + ulhtml =~= ulhtml);
        }
        let ap = datts.vstart() as int;
        assert(render_atts(html, ap, 0) == Some(Seq::<char>::empty()));
        assert(render_atts(html, ap, 1) == Some(att_html("class"@, "breadcrumb"@))) by {
            assert(Seq::<char>::empty() + " "@ + ("class"@ + "=\""@ + escape_spec("breadcrumb"@) + "\""@) =~= att_html("class"@, "breadcrumb"@));
        }
        assert(render_node(html, div.bare() as int, fuel) == Some(breadcrumb_spec(metas, names, top)));
        assert(html_of(html, div) == Some(breadcrumb_spec(metas, names, top)));
    }
    html.preserialize(div)
}

/// The breadcrumb of a page, for both forms of its URL: without a
/// trailing slash ("2023/10/23", links relative to ".") and with one
/// ("2023/10/23/", links relative to "..").
pub struct Breadcrumb {
    pub without_slash: Arc<SerHtmlFrag>,
    pub with_slash: Arc<SerHtmlFrag>,
}

impl Breadcrumb {
    /// The form for URLs with a trailing slash, or without.
    pub fn with_slash(&self, with_slash: bool) -> (r: &Arc<SerHtmlFrag>)
        ensures
            *r == if with_slash {
                self.with_slash
            } else {
                self.without_slash
            },
    {
        if with_slash {
            &self.with_slash
        } else {
            &self.without_slash
        }
    }
}

/// The breadcrumb for the directories of `parsed_context`, in both
/// forms.
pub fn breadcrumb<'f>(
    html: &mut HtmlAllocator,
    parsed_context: &List<'f, ParsedContextFrame<'f>>,
    metas: &BreadcrumbMetas,
) -> (r: Result<Breadcrumb, AhtmlError>)
    requires
        old(html).wf(),
    ensures
        final(html).wf(),
        r is Err && breadcrumb_allowed(old(html), metas) ==> r == Err::<Breadcrumb, AhtmlError>(
            AhtmlError::OutOfMemory,
        ),
        final(html).region() == old(html).region(),
        final(html).metadb_view() == old(html).metadb_view(),
        breadcrumb_allowed(old(html), metas) && old(html).nodes_view().len() + 6 * parsed_context@.len()
            + 4 <= old(html).nodes_cap() && old(html).atts_view().len() + 4 * parsed_context@.len()
            + 2 <= old(html).atts_cap() && old(html).ids_view().len() + 72 * parsed_context@.len()
            + 64 <= old(html).ids_cap() ==> r is Ok,
        r matches Ok(b) ==> {
            &&& b.without_slash.frag_str() == breadcrumb_spec(metas, frame_names(parsed_context@), "."@)
            &&& b.with_slash.frag_str() == breadcrumb_spec(metas, frame_names(parsed_context@), ".."@)
        },
{
    let without_slash = breadcrumb_html(html, parsed_context, ".", metas)?;
    let with_slash = breadcrumb_html(html, parsed_context, "..", metas)?;
    Ok(Breadcrumb { without_slash: Arc::new(without_slash), with_slash: Arc::new(with_slash) })
}

} // verus!
