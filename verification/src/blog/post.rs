//! Blog posts and directory indexes as the cache keeps them, and the
//! split of a post's body into its lead and the rest.

use std::sync::Arc;

use vstd::prelude::*;

use crate::ahtml::allocator::{AhtmlError, AId, ASlice, HtmlAllocator, Node, SerHtmlFrag};
use crate::ahtml::check::{child_error, lemma_child_error_index, lemma_element_refused_iff, node_at, node_slice_resolves};
use crate::ahtml::meta::{str_eq, ElementMeta};
use crate::blog::breadcrumb::Breadcrumb;
use crate::blog::Date;
use crate::cmpfilemeta::CmpFileMeta;
use crate::systime::TimeStamp;

verus! {

pub struct BlogPost {
    pub cmpfilemeta: CmpFileMeta,
    /// Parsed from the file path.
    pub publish_date: Date,
    pub title_plain: String,
    pub title_html: Arc<SerHtmlFrag>,
    /// The table of contents.
    pub toc: Arc<SerHtmlFrag>,
    /// The part before the first header, or the first paragraph (teaser).
    pub lead: Option<Arc<SerHtmlFrag>>,
    /// The part after the lead.
    pub main: Arc<SerHtmlFrag>,
    pub num_footnotes: usize,
    pub footnotes: Arc<SerHtmlFrag>,
    pub breadcrumb: Breadcrumb,
}

impl BlogPost {
    /// The modification time of the post's file.
    pub fn modified(&self) -> (r: TimeStamp)
        ensures
            r == self.cmpfilemeta.modified_time,
    {
        self.cmpfilemeta.modified_time
    }
}

pub struct BlogPostIndex {
    /// `None` for the top level index.
    pub breadcrumb: Option<Breadcrumb>,
}

pub enum BlogNode {
    BlogPost(BlogPost),
    BlogPostIndex(BlogPostIndex),
}

impl BlogNode {
    pub fn blogpost(&self) -> (r: Option<&BlogPost>)
        ensures
            match self {
                BlogNode::BlogPost(p) => r == Some(p),
                BlogNode::BlogPostIndex(_) => r is None,
            },
    {
        match self {
            BlogNode::BlogPost(p) => Some(p),
            BlogNode::BlogPostIndex(_) => None,
        }
    }
}

/// The post of the previous scan that can be kept for a file: the one
/// found at its place, if the file's metadata did not change.
pub fn reusable_post<'a>(old: Option<&'a BlogNode>, cmpfilemeta: &CmpFileMeta) -> (r: Option<&'a BlogPost>)
    ensures
        match old {
            Some(BlogNode::BlogPost(p)) => if p.cmpfilemeta == *cmpfilemeta {
                r == Some(p)
            } else {
                r is None
            },
            _ => r is None,
        },
{
    match old {
        Some(node) => match node.blogpost() {
            Some(p) => {
                if p.cmpfilemeta == *cmpfilemeta {
                    Some(p)
                } else {
                    None
                }
            },
            None => None,
        },
        None => None,
    }
}

/// The element kinds that splitting off the lead looks for or creates.
pub struct LeadMetas {
    pub h2: &'static ElementMeta,
    pub p: &'static ElementMeta,
    pub div: &'static ElementMeta,
}

/// Node `nid` is an element with the tag name of `meta`.
pub open spec fn is_kind(html: &HtmlAllocator, nid: u32, meta: &ElementMeta) -> bool {
    &&& nid < html.nodes_view().len()
    &&& html.nodes_view()[nid as int] matches Some(Node::Element(e))
    &&& e.meta.tag_name@ == meta.tag_name@
}

/// `p` is the first position of `body` holding an `h2` element.
pub open spec fn first_heading_at(html: &HtmlAllocator, body: ASlice<Node>, metas: &LeadMetas, p: int) -> bool {
    &&& body.sstart() <= p < body.send()
    &&& is_kind(html, html.ids_view()[p], metas.h2)
    &&& forall|q: int| body.sstart() <= q < p ==> !is_kind(html, #[trigger] html.ids_view()[q], metas.h2)
}

/// Node `id` is a `div` without attributes whose body is the id list
/// positions `start .. end`.
pub open spec fn div_over(html: &HtmlAllocator, id: AId<Node>, metas: &LeadMetas, start: int, end: int) -> bool {
    &&& id.region() == html.region()
    &&& id.bare() < html.nodes_view().len()
    &&& html.nodes_view()[id.bare() as int] matches Some(Node::Element(e))
    &&& e.meta == metas.div
    &&& e.attr.slen() == 0
    &&& e.body.region() == html.region()
    &&& e.body.sstart() == start
    &&& e.body.send() == end
}

/// With a `MetaDb`, the `div` kind accepts each item of `body` as a
/// child (without one, nothing is checked).
pub open spec fn div_accepts(html: &HtmlAllocator, metas: &LeadMetas, body: ASlice<Node>) -> bool {
    html.metadb_view() is Some ==> forall|p: int|
        body.sstart() <= p < body.send() ==> #[trigger] child_error(metas.div, node_at(html, p), 0)
            is None
}

fn kind_eq(html: &HtmlAllocator, id: AId<Node>, meta: &ElementMeta) -> (r: bool)
    requires
        id.region() == html.region(),
    ensures
        r == is_kind(html, id.bare(), meta),
{
    match html.get_node(id) {
        Some(Node::Element(e)) => str_eq(e.meta.tag_name.as_str(), meta.tag_name.as_str()),
        _ => false,
    }
}

/// A `div` without attributes around `body`.
fn wrap_div(html: &mut HtmlAllocator, body: ASlice<Node>, metas: &LeadMetas) -> (r: Result<AId<Node>, AhtmlError>)
    requires
        old(html).wf(),
        body.region() == old(html).region(),
        node_slice_resolves(old(html), body),
    ensures
        final(html).wf(),
        r is Err && div_accepts(old(html), metas, body) ==> r == Err::<AId<Node>, AhtmlError>(
            AhtmlError::OutOfMemory,
        ),
        final(html).same_except_nodes(old(html)),
        final(html).nodes_view().len() >= old(html).nodes_view().len(),
        forall|i: int| 0 <= i < old(html).nodes_view().len() ==> #[trigger] final(html).nodes_view()[i] == old(html).nodes_view()[i],
        r is Ok ==> final(html).nodes_view().len() == old(html).nodes_view().len() + 1,
        div_accepts(old(html), metas, body) && old(html).nodes_view().len() < old(html).nodes_cap() ==> r is Ok,
        r matches Ok(id) ==> div_over(final(html), id, metas, body.sstart() as int, body.send()),
{
    let empty = html.empty_slice();
    proof {
        if div_accepts(html, metas, body) && html.metadb_view() is Some {
            assert forall|i: int| 0 <= i < body.slen() implies #[trigger] child_error(
                metas.div,
                node_at(html, body.sstart() + i),
                i,
            ) is None by {
                assert(child_error(metas.div, node_at(html, body.sstart() + i), 0) is None);
                lemma_child_error_index(metas.div, node_at(html, body.sstart() + i), 0, i);
            }
        }
        lemma_element_refused_iff(html, metas.div, empty, body);
    }
    let r = html.new_element(metas.div, empty, body);
    proof {
        if r is Ok {
            assert(html.nodes_view()[r->Ok_0.bare() as int] == html.nodes_view().last());
        }
    }
    r
}

/// Splits the body of a post into its lead and the rest: before the
/// first `h2` element (each part in a `div`), or, without such an
/// element, the first item if it is a `p` element (the rest in a
/// `div`); otherwise there is no lead and the whole body goes into a
/// `div`. Elements are told apart by their tag names.
pub fn split_lead(html: &mut HtmlAllocator, body: ASlice<Node>, metas: &LeadMetas) -> (r: Result<
    (Option<AId<Node>>, AId<Node>),
    AhtmlError,
>)
    requires
        old(html).wf(),
        body.region() == old(html).region(),
        node_slice_resolves(old(html), body),
    ensures
        final(html).wf(),
        r is Err && div_accepts(old(html), metas, body) ==> r == Err::<(Option<AId<Node>>, AId<Node>), AhtmlError>(
            AhtmlError::OutOfMemory,
        ),
        final(html).region() == old(html).region(),
        final(html).metadb_view() == old(html).metadb_view(),
        final(html).ids_view() == old(html).ids_view(),
        div_accepts(old(html), metas, body) && old(html).nodes_view().len() + 2 <= old(
            html,
        ).nodes_cap() ==> r is Ok,
        r matches Ok((lead, main)) ==> {
            ||| exists|p: int|
                first_heading_at(old(html), body, metas, p) && (lead matches Some(l) && div_over(
                    final(html),
                    l,
                    metas,
                    body.sstart() as int,
                    p,
                )) && div_over(final(html), main, metas, p, body.send())
            ||| {
                &&& forall|q: int|
                    body.sstart() <= q < body.send() ==> !is_kind(
                        old(html),
                        #[trigger] old(html).ids_view()[q],
                        metas.h2,
                    )
                &&& if body.slen() >= 1 && is_kind(
                    old(html),
                    old(html).ids_view()[body.sstart() as int],
                    metas.p,
                ) {
                    lead == Some(old(html).aid_at::<Node>(body.sstart() as int)) && div_over(
                        final(html),
                        main,
                        metas,
                        body.sstart() + 1,
                        body.send(),
                    )
                } else {
                    lead is None && div_over(final(html), main, metas, body.sstart() as int, body.send())
                }
            }
        },
{
    let ghost h0 = *html;
    let h2 = metas.h2;
    let hr: &HtmlAllocator = html;
    let is_heading = |id: AId<Node>| -> (b: bool)
        requires
            id.region() == hr.region(),
        ensures
            b == is_kind(hr, id.bare(), h2),
        { kind_eq(hr, id, h2) };
    proof {
        assert forall|p: int| body.sstart() <= p < body.send() implies call_requires(is_heading, (hr.aid_at::<Node>(p),)) by {
            hr.lemma_aid_at::<Node>(p);
        }
    }
    let split = body.split_when(is_heading, hr);
    match split {
        Some((lead, main)) => {
            proof {
                h0.lemma_aid_at::<Node>(main.sstart() as int);
                assert forall|q: int| body.sstart() <= q < main.sstart() implies !is_kind(&h0, #[trigger] h0.ids_view()[q], metas.h2) by {
                    h0.lemma_aid_at::<Node>(q);
                }
                assert(first_heading_at(&h0, body, metas, main.sstart() as int));
            }
            let ld = wrap_div(html, lead, metas)?;
            let ghost h1 = *html;
            proof {
                if div_accepts(&h0, metas, body) && h1.metadb_view() is Some {
                    assert forall|p: int| main.sstart() <= p < main.send() implies #[trigger] child_error(
                        metas.div,
                        node_at(&h1, p),
                        0,
                    ) is None by {
                        assert(child_error(metas.div, node_at(&h0, p), 0) is None);
                        assert(h0.ids_view()[p] < h0.nodes_view().len());
                        assert(h1.nodes_view()[h0.ids_view()[p] as int] == h0.nodes_view()[h0.ids_view()[p] as int]);
                    }
                }
            }
            let mn = wrap_div(html, main, metas)?;
            proof {
                assert(html.nodes_view()[ld.bare() as int] == h1.nodes_view()[ld.bare() as int]);
            }
            Ok((Some(ld), mn))
        },
        None => {
            proof {
                assert forall|q: int| body.sstart() <= q < body.send() implies !is_kind(&h0, #[trigger] h0.ids_view()[q], metas.h2) by {
                    h0.lemma_aid_at::<Node>(q);
                }
            }
            match body.first_and_rest(html) {
                Some((first, rest)) => {
                    proof {
                        h0.lemma_aid_at::<Node>(body.sstart() as int);
                    }
                    if kind_eq(html, first, metas.p) {
                        let mn = wrap_div(html, rest, metas)?;
                        Ok((Some(first), mn))
                    } else {
                        let mn = wrap_div(html, body, metas)?;
                        Ok((None, mn))
                    }
                },
                None => {
                    let mn = wrap_div(html, body, metas)?;
                    Ok((None, mn))
                },
            }
        },
    }
}

} // verus!
