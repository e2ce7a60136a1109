//! Image elements for files whose size is known.

use vstd::prelude::*;

use crate::ahtml::allocator::{max_u32, AhtmlError, AId, AVec, HtmlAllocator, Node};
use crate::ahtml::check::{att_at, att_error, att_slice_resolves, lemma_element_refused_iff, node_slice_resolves};
use crate::ahtml::meta::{ElementMeta, MetaDb};
use crate::date_format::{decimal, push_decimal_u64};

verus! {

/// The ids `ids` name stored attributes with the keys and values `kvs`.
pub open spec fn atts_hold(html: &HtmlAllocator, ids: Seq<u32>, kvs: Seq<(Seq<char>, Seq<char>)>) -> bool {
    &&& ids.len() == kvs.len()
    &&& forall|k: int|
        0 <= k < ids.len() ==> #[trigger] ids[k] < html.atts_view().len() && (html.atts_view()[ids[k] as int] matches Some(
            (a, b),
        ) && a@ == kvs[k].0 && b@ == kvs[k].1)
}

/// Stores the attribute `key="val"` and appends it to `atts`.
fn push_att(
    html: &mut HtmlAllocator,
    atts: &mut AVec<(String, String)>,
    key: &str,
    val: &str,
    Ghost(kvs): Ghost<Seq<(Seq<char>, Seq<char>)>>,
) -> (r: Result<(), AhtmlError>)
    requires
        old(html).wf(),
        old(atts).wf_in(old(html)),
        atts_hold(old(html), old(atts).contents(old(html)), kvs),
    ensures
        final(html).wf(),
        final(html).region() == old(html).region(),
        final(html).metadb_view() == old(html).metadb_view(),
        r is Err ==> r == Err::<(), AhtmlError>(AhtmlError::OutOfMemory),
        final(html).nodes_view().len() == old(html).nodes_view().len(),
        final(html).nodes_cap() == old(html).nodes_cap(),
        final(html).atts_cap() == old(html).atts_cap(),
        final(html).ids_cap() == old(html).ids_cap(),
        old(html).atts_view().len() < old(html).atts_cap() && (old(atts).vlen() < old(atts).vcap()
            || old(html).ids_view().len() + max_u32(2 * old(atts).vcap(), 8) <= old(html).ids_cap())
            ==> r is Ok,
        r is Ok ==> {
            &&& final(html).atts_view().len() == old(html).atts_view().len() + 1
            &&& final(atts).vlen() == old(atts).vlen() + 1
            &&& old(atts).vlen() < old(atts).vcap() ==> final(atts).vcap() == old(atts).vcap()
                && final(html).ids_view().len() == old(html).ids_view().len()
            &&& old(atts).vlen() == old(atts).vcap() ==> final(atts).vcap() == max_u32(
                2 * old(atts).vcap(),
                8,
            ) && final(html).ids_view().len() == old(html).ids_view().len() + max_u32(
                2 * old(atts).vcap(),
                8,
            )
        },
        r is Ok ==> final(atts).wf_in(final(html)) && atts_hold(
            final(html),
            final(atts).contents(final(html)),
            kvs.push((key@, val@)),
        ),
{
    let ghost h1 = *html;
    let aid = html.attribute(key, val)?;
    let ghost h2 = *html;
    proof {
        assert(atts.contents(&h2) =~= atts.contents(&h1));
        assert forall|k: int| 0 <= k < kvs.len() implies #[trigger] atts.contents(&h2)[k]
            < h2.atts_view().len() && (h2.atts_view()[atts.contents(&h2)[k] as int] matches Some(
            (a, b),
        ) && a@ == kvs[k].0 && b@ == kvs[k].1) by {
            let id = atts.contents(&h1)[k];
            assert(h1.atts_view()[id as int] == h2.atts_view().drop_last()[id as int]);
        }
        assert(h2.atts_view()[aid.bare() as int] == h2.atts_view().last());
    }
    let ghost a2 = *atts;
    atts.push(html, aid)?;
    proof {
        let c = atts.contents(html);
        assert forall|k: int| 0 <= k < c.len() implies #[trigger] c[k] < html.atts_view().len() && (
        html.atts_view()[c[k] as int] matches Some((a, b)) && a@ == kvs.push((key@, val@))[k].0
            && b@ == kvs.push((key@, val@))[k].1) by {
            if k < kvs.len() {
                assert(c[k] == a2.contents(&h2)[k]);
            }
        }
    }
    Ok(())
}

/// The attributes of an image: source, alternative text, width, height
/// and, if given, class.
pub open spec fn img_atts(
    width: usize,
    height: usize,
    src: Seq<char>,
    alt: Seq<char>,
    class: Option<Seq<char>>,
) -> Seq<(Seq<char>, Seq<char>)> {
    let base = seq![
        ("src"@, src),
        ("alt"@, alt),
        ("width"@, decimal(width as nat)),
        ("height"@, decimal(height as nat)),
    ];
    match class {
        Some(c) => base.push(("class"@, c)),
        None => base,
    }
}

/// Attribute `name` passes the structure checks for kind `meta` under
/// `db`: it is global or `meta` declares it.
pub open spec fn att_name_ok(db: &MetaDb, meta: &ElementMeta, name: Seq<char>) -> bool {
    db.is_global_attribute(name) || meta.declares_attribute(name)
}

/// An image element of kind `img_meta` passes the structure checks of
/// `html`: there are none without a `MetaDb`; with one, `src`, `alt`,
/// `width`, `height` and (if given) `class` are attributes it allows.
pub open spec fn img_allowed(html: &HtmlAllocator, img_meta: &ElementMeta, with_class: bool) -> bool {
    match html.metadb_view() {
        None => true,
        Some(db) => {
            &&& att_name_ok(db, img_meta, "src"@)
            &&& att_name_ok(db, img_meta, "alt"@)
            &&& att_name_ok(db, img_meta, "width"@)
            &&& att_name_ok(db, img_meta, "height"@)
            &&& (with_class ==> att_name_ok(db, img_meta, "class"@))
        },
    }
}

/// An image element (of kind `img_meta`) for an image of `width` by
/// `height` pixels served at `src`.
pub fn static_img(
    html: &mut HtmlAllocator,
    width: usize,
    height: usize,
    src: &str,
    alt: &str,
    class: Option<&str>,
    img_meta: &'static ElementMeta,
) -> (r: Result<AId<Node>, AhtmlError>)
    requires
        old(html).wf(),
    ensures
        final(html).wf(),
        r is Err && img_allowed(old(html), img_meta, class is Some) ==> r == Err::<AId<Node>, AhtmlError>(
            AhtmlError::OutOfMemory,
        ),
        img_allowed(old(html), img_meta, class is Some) && old(html).nodes_view().len() < old(html).nodes_cap()
            && old(html).atts_view().len() + 5 <= old(html).atts_cap() && old(html).ids_view().len()
            + 8 <= old(html).ids_cap() ==> r is Ok,
        final(html).region() == old(html).region(),
        final(html).metadb_view() == old(html).metadb_view(),
        r matches Ok(id) ==> id.bare() < final(html).nodes_view().len() && (
        final(html).nodes_view()[id.bare() as int] matches Some(Node::Element(e)) && e.meta
            == img_meta && e.body.slen() == 0 && e.attr.send() <= final(html).ids_view().len()
            && atts_hold(
            final(html),
            final(html).ids_view().subrange(e.attr.sstart() as int, e.attr.send()),
            img_atts(
                width,
                height,
                src@,
                alt@,
                match class {
                    Some(c) => Some(c@),
                    None => None,
                },
            ),
        )),
{
    let mut w = String::new();
    push_decimal_u64(&mut w, width as u64);
    let mut h = String::new();
    push_decimal_u64(&mut h, height as u64);
    let mut atts: AVec<(String, String)> = html.new_vec();
    proof {
        assert(atts.contents(html) =~= Seq::<u32>::empty());
    }
    let ghost k0: Seq<(Seq<char>, Seq<char>)> = Seq::empty();
    let ghost k1 = k0.push(("src"@, src@));
    let ghost k2 = k1.push(("alt"@, alt@));
    let ghost k3 = k2.push(("width"@, w@));
    let ghost kvs4 = k3.push(("height"@, h@));
    push_att(html, &mut atts, "src", src, Ghost(k0))?;
    push_att(html, &mut atts, "alt", alt, Ghost(k1))?;
    push_att(html, &mut atts, "width", w.as_str(), Ghost(k2))?;
    push_att(html, &mut atts, "height", h.as_str(), Ghost(k3))?;
    if let Some(c) = class {
        push_att(html, &mut atts, "class", c, Ghost(kvs4))?;
    }
    let ghost kvs = img_atts(
        width,
        height,
        src@,
        alt@,
        match class {
            Some(c) => Some(c@),
            None => None,
        },
    );
    proof {
        assert(w@ =~= decimal(width as nat));
        assert(h@ =~= decimal(height as nat));
        if class is Some {
            assert(kvs4.push(("class"@, class->0@)) =~= kvs);
        } else {
            assert(kvs4 =~= kvs);
        }
    }
    let attr = atts.as_slice();
    let body = html.empty_slice();
    proof {
        assert forall|p: int| attr.sstart() <= p < attr.send() implies #[trigger] html.ids_view()[p]
            < html.atts_view().len() && html.atts_view()[html.ids_view()[p] as int] is Some by {
            assert(html.ids_view()[p] == atts.contents(html)[p - attr.sstart()]);
        }
        assert(att_slice_resolves(html, attr));
        assert(node_slice_resolves(html, body));
    }
    let ghost h7 = *html;
    proof {
        let c = atts.contents(&h7);
        assert forall|k: int| 0 <= k < c.len() implies #[trigger] c[k] < h7.atts_view().len() && (
        h7.atts_view()[c[k] as int] matches Some((a, b)) && a@ == kvs[k].0 && b@ == kvs[k].1) by {
            assert(c[k] < h7.atts_view().len());
        }
        if let Some(db) = h7.metadb_view() {
            if img_allowed(&h7, img_meta, class is Some) {
                assert forall|i: int| 0 <= i < attr.slen() implies #[trigger] att_error(
                    db,
                    img_meta,
                    att_at(&h7, attr.sstart() + i).0,
                    i,
                ) is None by {
                    assert(h7.ids_view()[attr.sstart() + i] == c[i]);
                    assert(att_name_ok(db, img_meta, kvs[i].0));
                }
            }
        }
        lemma_element_refused_iff(&h7, img_meta, attr, body);
    }
    let id = html.new_element(img_meta, attr, body)?;
    proof {
        assert(html.nodes_view()[id.bare() as int] == html.nodes_view().last());
        assert(html.ids_view().subrange(attr.sstart() as int, attr.send()) =~= atts.contents(&h7));
        let c = atts.contents(&h7);
        assert forall|k: int| 0 <= k < c.len() implies #[trigger] c[k] < html.atts_view().len() && (
        html.atts_view()[c[k] as int] matches Some((a, b)) && a@ == kvs[k].0 && b@ == kvs[k].1) by {
            assert(c[k] < h7.atts_view().len());
        }
    }
    Ok(id)
}

} // verus!
