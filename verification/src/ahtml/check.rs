//! The DOM structure checks that an allocator with a `MetaDb` applies
//! when storing an element: which attributes and which children an
//! element kind allows.

use vstd::prelude::*;

use super::allocator::{AhtmlError, ASlice, HtmlAllocator, Node};
use super::meta::{ElementMeta, MetaDb};

verus! {

/// ASCII whitespace as `char::is_ascii_whitespace` defines it.
pub open spec fn is_ascii_ws(c: char) -> bool {
    c == ' ' || c == '\t' || c == '\n' || c == '\x0C' || c == '\r'
}

pub open spec fn all_whitespace_spec(s: Seq<char>) -> bool {
    forall|i: int| 0 <= i < s.len() ==> is_ascii_ws(#[trigger] s[i])
}

/// Whether `s` consists of ASCII whitespace only.
pub fn all_whitespace(s: &str) -> (r: bool)
    ensures
        r == all_whitespace_spec(s@),
{
    let mut all = true;
    for c in it: s.chars()
        invariant
            it.seq() == s@,
            all == all_whitespace_spec(s@.take(it.index() as int)),
    {
        assert(s@.take(it.index() + 1).drop_last() =~= s@.take(it.index() as int));
        let ws = c == ' ' || c == '\t' || c == '\n' || c == '\x0C' || c == '\r';
        proof {
            let t = s@.take(it.index() + 1);
            if all && ws {
                assert forall|i: int| 0 <= i < t.len() implies is_ascii_ws(#[trigger] t[i]) by {
                    if i < it.index() {
                        assert(t[i] == s@.take(it.index() as int)[i]);
                    }
                }
            }
            if !ws {
                assert(!is_ascii_ws(t[it.index() as int]));
            }
            if !all {
                let p = s@.take(it.index() as int);
                let j = choose|j: int| 0 <= j < p.len() && !is_ascii_ws(#[trigger] p[j]);
                assert(t[j] == p[j]);
            }
        }
        all = all && ws;
    }
    assert(s@.take(s@.len() as int) =~= s@);
    all
}

/// The attribute at id list position `pos`.
pub open spec fn att_at(html: &HtmlAllocator, pos: int) -> (String, String) {
    html.atts_view()[html.ids_view()[pos] as int]->0
}

/// The node at id list position `pos`.
pub open spec fn node_at(html: &HtmlAllocator, pos: int) -> Node {
    html.nodes_view()[html.ids_view()[pos] as int]->0
}

/// Every position of the slice holds the id of a stored attribute.
pub open spec fn att_slice_resolves(html: &HtmlAllocator, s: ASlice<(String, String)>) -> bool {
    &&& s.region() == html.region()
    &&& s.send() <= html.ids_view().len()
    &&& forall|p: int|
        s.sstart() <= p < s.send() ==> #[trigger] html.ids_view()[p] < html.atts_view().len()
            && html.atts_view()[html.ids_view()[p] as int] is Some
}

/// Every position of the slice holds the id of a stored node.
pub open spec fn node_slice_resolves(html: &HtmlAllocator, s: ASlice<Node>) -> bool {
    &&& s.region() == html.region()
    &&& s.send() <= html.ids_view().len()
    &&& forall|p: int|
        s.sstart() <= p < s.send() ==> #[trigger] html.ids_view()[p] < html.nodes_view().len()
            && html.nodes_view()[html.ids_view()[p] as int] is Some
}

/// The complaint about attribute number `index`, named `name`, if any.
pub open spec fn att_error(db: &MetaDb, meta: &ElementMeta, name: String, index: int) -> Option<
    AhtmlError,
> {
    if db.is_global_attribute(name@) || meta.declares_attribute(name@) {
        None
    } else {
        Some(
            AhtmlError::InvalidAttribute {
                index: index as usize,
                attribute: name,
                element: meta.tag_name,
            },
        )
    }
}

/// The first complaint about the first `k` attributes of `attr`.
pub open spec fn atts_check(
    html: &HtmlAllocator,
    db: &MetaDb,
    meta: &ElementMeta,
    attr: ASlice<(String, String)>,
    k: nat,
) -> Option<AhtmlError>
    decreases k,
{
    if k == 0 {
        None
    } else {
        match atts_check(html, db, meta, attr, (k - 1) as nat) {
            Some(e) => Some(e),
            None => att_error(db, meta, att_at(html, attr.sstart() + k - 1).0, k - 1),
        }
    }
}

/// The complaint about a child of kind `child` at `index`, if any.
pub open spec fn child_meta_error(meta: &ElementMeta, child: &ElementMeta, index: int) -> Option<
    AhtmlError,
> {
    if meta.allows_child(child.tag_name@) {
        None
    } else {
        Some(
            AhtmlError::ChildElementNotAllowed {
                index: index as usize,
                child: child.tag_name,
                element: meta.tag_name,
            },
        )
    }
}

/// The complaint about body item `node` at `index`, if any.
pub open spec fn child_error(meta: &ElementMeta, node: Node, index: int) -> Option<AhtmlError> {
    match node {
        Node::Element(e) => child_meta_error(meta, e.meta, index),
        Node::String(s) => if !meta.allows_child_text && !all_whitespace_spec(s@) {
            Some(AhtmlError::TextNotAllowed { index: index as usize, element: meta.tag_name })
        } else {
            None
        },
        Node::Preserialized(p) => child_meta_error(meta, p.frag_meta(), index),
        Node::Empty => None,
    }
}

/// The first complaint about the first `k` items of `body`.
pub open spec fn body_check(html: &HtmlAllocator, meta: &ElementMeta, body: ASlice<Node>, k: nat) -> Option<
    AhtmlError,
>
    decreases k,
{
    if k == 0 {
        None
    } else {
        match body_check(html, meta, body, (k - 1) as nat) {
            Some(e) => Some(e),
            None => child_error(meta, node_at(html, body.sstart() + k - 1), k - 1),
        }
    }
}

/// What storing an element of kind `meta` with `attr` and `body` is
/// refused for: the first bad attribute, else the first bad body item;
/// nothing is checked without a `MetaDb`.
pub open spec fn element_check(
    html: &HtmlAllocator,
    meta: &ElementMeta,
    attr: ASlice<(String, String)>,
    body: ASlice<Node>,
) -> Option<AhtmlError> {
    match html.metadb_view() {
        None => None,
        Some(db) => match atts_check(html, db, meta, attr, attr.slen() as nat) {
            Some(e) => Some(e),
            None => body_check(html, meta, body, body.slen() as nat),
        },
    }
}

/// The first `k` attributes draw no complaint exactly when none of them
/// does.
pub proof fn lemma_atts_check_none(
    html: &HtmlAllocator,
    db: &MetaDb,
    meta: &ElementMeta,
    attr: ASlice<(String, String)>,
    k: nat,
)
    ensures
        atts_check(html, db, meta, attr, k) is None <==> forall|i: int|
            0 <= i < k ==> #[trigger] att_error(db, meta, att_at(html, attr.sstart() + i).0, i)
                is None,
    decreases k,
{
    if k > 0 {
        lemma_atts_check_none(html, db, meta, attr, (k - 1) as nat);
    }
}

/// The first `k` body items draw no complaint exactly when none of them
/// does.
pub proof fn lemma_body_check_none(html: &HtmlAllocator, meta: &ElementMeta, body: ASlice<Node>, k: nat)
    ensures
        body_check(html, meta, body, k) is None <==> forall|i: int|
            0 <= i < k ==> #[trigger] child_error(meta, node_at(html, body.sstart() + i), i) is None,
    decreases k,
{
    if k > 0 {
        lemma_body_check_none(html, meta, body, (k - 1) as nat);
    }
}

/// Whether a body item draws a complaint does not depend on its index.
pub proof fn lemma_child_error_index(meta: &ElementMeta, node: Node, i: int, j: int)
    ensures
        child_error(meta, node, i) is None <==> child_error(meta, node, j) is None,
{
}

/// With a `MetaDb`, an element is refused exactly when one of its
/// attributes is neither global nor declared by its kind, or one of its
/// body items is an element (or preserialized fragment) of a kind it
/// does not allow as a child, or non-whitespace text where it allows
/// none. Without a `MetaDb` nothing is refused.
pub proof fn lemma_element_refused_iff(
    html: &HtmlAllocator,
    meta: &ElementMeta,
    attr: ASlice<(String, String)>,
    body: ASlice<Node>,
)
    ensures
        element_check(html, meta, attr, body) is Some <==> (html.metadb_view() matches Some(db)
            && ((exists|i: int|
            0 <= i < attr.slen() && #[trigger] att_error(
                db,
                meta,
                att_at(html, attr.sstart() + i).0,
                i,
            ) is Some) || (exists|i: int|
            0 <= i < body.slen() && #[trigger] child_error(meta, node_at(html, body.sstart() + i), i)
                is Some))),
{
    if let Some(db) = html.metadb_view() {
        lemma_atts_check_none(html, db, meta, attr, attr.slen() as nat);
        lemma_body_check_none(html, meta, body, body.slen() as nat);
    }
}


/// Once a complaint is found, looking at more attributes keeps it.
proof fn lemma_atts_check_stable(
    html: &HtmlAllocator,
    db: &MetaDb,
    meta: &ElementMeta,
    attr: ASlice<(String, String)>,
    k1: nat,
    k2: nat,
)
    requires
        k1 <= k2,
        atts_check(html, db, meta, attr, k1) is Some,
    ensures
        atts_check(html, db, meta, attr, k2) == atts_check(html, db, meta, attr, k1),
    decreases k2,
{
    if k2 > k1 {
        lemma_atts_check_stable(html, db, meta, attr, k1, (k2 - 1) as nat);
    }
}

/// Once a complaint is found, looking at more body items keeps it.
proof fn lemma_body_check_stable(
    html: &HtmlAllocator,
    meta: &ElementMeta,
    body: ASlice<Node>,
    k1: nat,
    k2: nat,
)
    requires
        k1 <= k2,
        body_check(html, meta, body, k1) is Some,
    ensures
        body_check(html, meta, body, k2) == body_check(html, meta, body, k1),
    decreases k2,
{
    if k2 > k1 {
        lemma_body_check_stable(html, meta, body, k1, (k2 - 1) as nat);
    }
}

/// Finds the first attribute of `attr` that neither `db` nor `meta`
/// allows.
pub fn check_atts(
    html: &HtmlAllocator,
    db: &MetaDb,
    meta: &ElementMeta,
    attr: ASlice<(String, String)>,
) -> (r: Option<AhtmlError>)
    requires
        html.wf(),
        att_slice_resolves(html, attr),
    ensures
        r == atts_check(html, db, meta, attr, attr.slen() as nat),
{
    let n = attr.len();
    let mut i: u32 = 0;
    while i < n
        invariant
            html.wf(),
            att_slice_resolves(html, attr),
            n == attr.slen(),
            0 <= i <= n,
            atts_check(html, db, meta, attr, i as nat) is None,
        decreases n - i,
    {
        let pos = attr.start_pos() + i;
        let aid = html.get_id::<(String, String)>(pos).unwrap();
        let att = html.get_att(aid).unwrap();
        if !(db.global_attribute(att.0.as_str()) || meta.get_attribute(att.0.as_str()).is_some()) {
            proof {
                lemma_atts_check_stable(html, db, meta, attr, (i + 1) as nat, n as nat);
            }
            return Some(
                AhtmlError::InvalidAttribute {
                    index: i as usize,
                    attribute: att.0.clone(),
                    element: meta.tag_name.clone(),
                },
            );
        }
        i = i + 1;
    }
    None
}

/// The complaint about a child of kind `child` at `index`, if any.
fn check_child_meta(meta: &ElementMeta, child: &ElementMeta, index: usize) -> (r: Option<
    AhtmlError,
>)
    ensures
        r == child_meta_error(meta, child, index as int),
{
    if meta.child_allowed(child.tag_name.as_str()) {
        None
    } else {
        Some(
            AhtmlError::ChildElementNotAllowed {
                index,
                child: child.tag_name.clone(),
                element: meta.tag_name.clone(),
            },
        )
    }
}

/// Finds the first item of `body` that `meta` does not allow as a
/// child.
pub fn check_body(html: &HtmlAllocator, meta: &ElementMeta, body: ASlice<Node>) -> (r: Option<
    AhtmlError,
>)
    requires
        html.wf(),
        node_slice_resolves(html, body),
    ensures
        r == body_check(html, meta, body, body.slen() as nat),
{
    let n = body.len();
    let mut i: u32 = 0;
    while i < n
        invariant
            html.wf(),
            node_slice_resolves(html, body),
            n == body.slen(),
            0 <= i <= n,
            body_check(html, meta, body, i as nat) is None,
        decreases n - i,
    {
        let pos = body.start_pos() + i;
        let nid = html.get_id::<Node>(pos).unwrap();
        let node = html.get_node(nid).unwrap();
        let e = match node {
            Node::Element(elt) => check_child_meta(meta, elt.meta, i as usize),
            Node::String(s) => {
                if !meta.allows_child_text && !all_whitespace(s.as_str()) {
                    Some(AhtmlError::TextNotAllowed { index: i as usize, element: meta.tag_name.clone() })
                } else {
                    None
                }
            },
            Node::Preserialized(ser) => check_child_meta(meta, ser.meta(), i as usize),
            Node::Empty => None,
        };
        if e.is_some() {
            proof {
                lemma_body_check_stable(html, meta, body, (i + 1) as nat, n as nat);
            }
            return e;
        }
        i = i + 1;
    }
    None
}

} // verus!
