//! Region allocator for HTML nodes, attributes and the id lists that
//! make up element bodies and attribute lists.

use std::marker::PhantomData;
use std::sync::Arc;

use vstd::prelude::*;

use crate::chj_util::u24::{U24, U24MAX};
use super::meta::{ElementMeta, MetaDb};
use super::stillvec::StillVec;
use super::check::{element_check, att_slice_resolves, node_slice_resolves, check_atts, check_body};

verus! {

/// The largest number of allocations an allocator can be created for
/// (all id arithmetic then stays within `u32`).
pub const MAX_ALLOCATIONS: u32 = 0x7fff_ffffu32;

/// Errors of the allocator and of the DOM structure checks.
#[derive(Debug)]
pub enum AhtmlError {
    /// The storage given at creation is used up.
    OutOfMemory,
    /// Attribute number `index` is neither global nor declared by the element.
    InvalidAttribute { index: usize, attribute: String, element: String },
    /// Body item number `index` is an element not allowed as a child.
    ChildElementNotAllowed { index: usize, child: String, element: String },
    /// Body item number `index` is non-whitespace text where no text is allowed.
    TextNotAllowed { index: usize, element: String },
    /// The node is not an element.
    NotAnElement,
    /// Preserialized HTML cannot be turned into plain text.
    PreserializedAsPlain,
}

#[derive(Debug, Clone, Copy, PartialEq, Eq)]
pub enum AllocKind {
    Att,
    Node,
    Id,
}

/// The kinds of values that have storage in an allocator.
pub trait AllocatorType {
    fn allockind() -> AllocKind;
}

impl AllocatorType for (String, String) {
    fn allockind() -> (r: AllocKind)
        ensures
            r == AllocKind::Att,
    {
        AllocKind::Att
    }
}

impl AllocatorType for Node {
    fn allockind() -> (r: AllocKind)
        ensures
            r == AllocKind::Node,
    {
        AllocKind::Node
    }
}

impl<T> AllocatorType for AId<T> {
    fn allockind() -> (r: AllocKind)
        ensures
            r == AllocKind::Id,
    {
        AllocKind::Id
    }
}

/// Hands out allocator ids, counting up and wrapping around after
/// `U24MAX`.
pub struct AllocatorIdCounter {
    next: u32,
}

impl AllocatorIdCounter {
    pub closed spec fn spec_next(&self) -> u32 {
        self.next
    }

    pub open spec fn wf(&self) -> bool {
        self.spec_next() <= U24MAX
    }

    pub fn new() -> (r: Self)
        ensures
            r.spec_next() == 0,
            r.wf(),
    {
        AllocatorIdCounter { next: 0 }
    }

    /// Returns the current id and advances the counter.
    pub fn next_allocator_id(&mut self) -> (r: U24)
        requires
            old(self).wf(),
        ensures
            final(self).wf(),
            r.value() == old(self).spec_next(),
            final(self).spec_next() == (if old(self).spec_next() < U24MAX {
                old(self).spec_next() + 1
            } else {
                0
            }),
    {
        let id = self.next;
        self.next = if id < U24MAX {
            id + 1
        } else {
            0
        };
        U24::new(id)
    }
}

/// Identifies one allocator in one of its generations (it gets a new
/// generation on every `clear`).
#[derive(Debug, Clone, Copy, PartialEq, Eq, Structural)]
pub struct RegionId {
    allocator_id: U24,
    generation: u8,
}

impl RegionId {
    pub closed spec fn allocator_id(self) -> U24 {
        self.allocator_id
    }

    pub closed spec fn generation(self) -> u8 {
        self.generation
    }

    pub fn generation_number(&self) -> (r: u8)
        ensures
            r == self.generation(),
    {
        self.generation
    }
}

/// Reference to a value of type `T` stored in an allocator.
#[derive(Debug)]
pub struct AId<T> {
    t: PhantomData<T>,
    regionid: RegionId,
    id: u32,
}

impl<T> AId<T> {
    /// The region the id belongs to.
    pub closed spec fn region(self) -> RegionId {
        self.regionid
    }

    /// The index into the storage for `T`.
    pub closed spec fn bare(self) -> u32 {
        self.id
    }

    /// The index into the storage for `T`.
    pub fn bare_id(&self) -> (r: u32)
        ensures
            r == self.bare(),
    {
        self.id
    }

    pub(crate) fn new(regionid: RegionId, id: u32) -> (r: AId<T>)
        ensures
            r.region() == regionid,
            r.bare() == id,
    {
        AId { t: PhantomData, regionid, id }
    }

    /// Ids with the same region and index are the same.
    pub proof fn lemma_eq(a: AId<T>, b: AId<T>)
        requires
            a.region() == b.region(),
            a.bare() == b.bare(),
        ensures
            a == b,
    {
        assert(a.t == b.t);
    }
}

impl<T> Clone for AId<T> {
    fn clone(&self) -> (r: Self)
        ensures
            r == *self,
    {
        AId { t: PhantomData, regionid: self.regionid, id: self.id }
    }
}

impl<T> Copy for AId<T> {
}

/// A slice of stored `AId<T>`s inside an allocator: the id list
/// positions `start .. start + len`.
#[derive(Debug)]
pub struct ASlice<T> {
    t: PhantomData<T>,
    regionid: RegionId,
    pub(crate) len: u32,
    pub(crate) start: u32,
}

impl<T> Clone for ASlice<T> {
    fn clone(&self) -> (r: Self)
        ensures
            r == *self,
    {
        ASlice { t: PhantomData, regionid: self.regionid, len: self.len, start: self.start }
    }
}

impl<T> Copy for ASlice<T> {
}

impl<T> ASlice<T> {
    pub closed spec fn region(self) -> RegionId {
        self.regionid
    }

    pub closed spec fn slen(self) -> u32 {
        self.len
    }

    pub closed spec fn sstart(self) -> u32 {
        self.start
    }

    /// One past the last position.
    pub open spec fn send(self) -> int {
        self.sstart() + self.slen()
    }

    pub(crate) fn new_raw(regionid: RegionId, start: u32, len: u32) -> (r: ASlice<T>)
        ensures
            r.region() == regionid,
            r.sstart() == start,
            r.slen() == len,
    {
        ASlice { t: PhantomData, regionid, len, start }
    }

    pub fn len(&self) -> (r: u32)
        ensures
            r == self.slen(),
    {
        self.len
    }

    pub(crate) fn region_exec(&self) -> (r: RegionId)
        ensures
            r == self.region(),
    {
        self.regionid
    }

    /// The first id list position.
    pub fn start_pos(&self) -> (r: u32)
        ensures
            r == self.sstart(),
    {
        self.start
    }

    /// Split the slice at position `i`, if that is within the slice.
    pub fn split_at(&self, i: u32) -> (r: Option<(ASlice<T>, ASlice<T>)>)
        requires
            self.send() <= u32::MAX,
        ensures
            i <= self.slen() <==> r is Some,
            r matches Some((a, b)) ==> {
                &&& a.region() == self.region() && b.region() == self.region()
                &&& a.sstart() == self.sstart() && a.slen() == i
                &&& b.sstart() == self.sstart() + i && b.slen() == self.slen() - i
            },
    {
        if i <= self.len {
            Some(
                (
                    ASlice { t: PhantomData, regionid: self.regionid, start: self.start, len: i },
                    ASlice {
                        t: PhantomData,
                        regionid: self.regionid,
                        start: self.start + i,
                        len: self.len - i,
                    },
                ),
            )
        } else {
            None
        }
    }
}

/// Serialized HTML fragment, with the metainformation about its
/// outermost element for the DOM checks.
#[derive(Debug)]
pub struct SerHtmlFrag {
    pub(crate) meta: &'static ElementMeta,
    pub(crate) kstring: String,
}

impl SerHtmlFrag {
    pub closed spec fn frag_meta(&self) -> &'static ElementMeta {
        self.meta
    }

    /// The serialized HTML.
    pub closed spec fn frag_str(&self) -> Seq<char> {
        self.kstring@
    }

    pub(crate) fn new(meta: &'static ElementMeta, kstring: String) -> (r: SerHtmlFrag)
        ensures
            r.frag_meta() == meta,
            r.frag_str() == kstring@,
    {
        SerHtmlFrag { meta, kstring }
    }

    pub fn meta(&self) -> (r: &'static ElementMeta)
        ensures
            r == self.frag_meta(),
    {
        self.meta
    }

    pub fn as_str(&self) -> (r: &str)
        ensures
            r@ == self.frag_str(),
    {
        self.kstring.as_str()
    }
}

/// A node; lives inside an allocator.
#[derive(Debug)]
pub enum Node {
    Element(Element),
    String(String),
    Preserialized(Arc<SerHtmlFrag>),
    Empty,
}

impl Node {
    pub fn as_element(&self) -> (r: Option<&Element>)
        ensures
            r is Some <==> self is Element,
            r matches Some(e) ==> *self == (Node::Element(*e)),
    {
        match self {
            Node::Element(e) => Some(e),
            Node::String(_) => None,
            Node::Preserialized(_) => None,
            Node::Empty => None,
        }
    }

    pub fn try_element(&self) -> (r: Result<&Element, AhtmlError>)
        ensures
            r is Ok <==> self is Element,
            r matches Ok(e) ==> *self == (Node::Element(*e)),
            r matches Err(e) ==> e == AhtmlError::NotAnElement,
    {
        match self {
            Node::Element(e) => Ok(e),
            _ => Err(AhtmlError::NotAnElement),
        }
    }
}

/// An element: its kind, attribute list and body.
#[derive(Debug)]
pub struct Element {
    pub meta: &'static ElementMeta,
    pub attr: ASlice<(String, String)>,
    pub body: ASlice<Node>,
}

impl Clone for Element {
    fn clone(&self) -> (r: Self)
        ensures
            r == *self,
    {
        Element { meta: self.meta, attr: self.attr, body: self.body }
    }
}

impl Element {
    pub fn meta(&self) -> (r: &'static ElementMeta)
        ensures
            r == self.meta,
    {
        self.meta
    }

    pub fn attr(&self) -> (r: &ASlice<(String, String)>)
        ensures
            *r == self.attr,
    {
        &self.attr
    }

    pub fn body(&self) -> (r: &ASlice<Node>)
        ensures
            *r == self.body,
    {
        &self.body
    }
}

/// A vector of `AId<T>`s whose storage is taken from an allocator's id
/// list: positions `start .. start + cap`, of which the first `len`
/// are in use.
pub struct AVec<T> {
    t: PhantomData<T>,
    regionid: RegionId,
    len: u32,
    cap: u32,
    start: u32,
}

impl<T> AVec<T> {
    pub closed spec fn region(&self) -> RegionId {
        self.regionid
    }

    pub closed spec fn vlen(&self) -> u32 {
        self.len
    }

    pub closed spec fn vcap(&self) -> u32 {
        self.cap
    }

    pub closed spec fn vstart(&self) -> u32 {
        self.start
    }

    /// The vector's storage lies within `html`'s id list.
    pub open spec fn wf_in(&self, html: &HtmlAllocator) -> bool {
        &&& self.region() == html.region()
        &&& self.vlen() <= self.vcap()
        &&& self.vstart() + self.vcap() <= html.ids_view().len()
    }

    /// The ids the vector holds.
    pub open spec fn contents(&self, html: &HtmlAllocator) -> Seq<u32> {
        html.ids_view().subrange(self.vstart() as int, self.vstart() + self.vlen())
    }

    /// A vector without storage yet.
    pub fn new(html: &HtmlAllocator) -> (r: AVec<T>)
        ensures
            r.region() == html.region(),
            r.vlen() == 0,
            r.vcap() == 0,
            r.vstart() == 0,
    {
        AVec { t: PhantomData, regionid: html.regionid, len: 0, cap: 0, start: 0 }
    }

    /// A vector with storage for `capacity` ids.
    pub fn new_with_capacity(html: &mut HtmlAllocator, capacity: u32) -> (r: Result<
        AVec<T>,
        AhtmlError,
    >)
        requires
            old(html).wf(),
        ensures
            final(html).wf(),
            final(html).same_except_ids(old(html)),
            old(html).ids_view().len() + capacity <= old(html).ids_cap() <==> r is Ok,
            r matches Ok(v) ==> {
                &&& v.region() == old(html).region()
                &&& v.vlen() == 0 && v.vcap() == capacity
                &&& v.vstart() == old(html).ids_view().len()
                &&& final(html).ids_view() == old(html).ids_view() + Seq::new(
                    capacity as nat,
                    |i: int| u32::MAX,
                )
                &&& v.wf_in(final(html))
            },
            r is Err ==> r == Err::<AVec<T>, AhtmlError>(AhtmlError::OutOfMemory) && *final(html)
                == *old(html),
    {
        let start = html.alloc_ids(capacity, None)?;
        Ok(AVec { t: PhantomData, regionid: html.regionid, len: 0, cap: capacity, start })
    }

    pub fn len(&self) -> (r: u32)
        ensures
            r == self.vlen(),
    {
        self.len
    }

    /// Appends `itemid`, moving the vector to new storage (of twice
    /// the capacity, at least 8) when it is full.
    pub fn push(&mut self, html: &mut HtmlAllocator, itemid: AId<T>) -> (r: Result<
        (),
        AhtmlError,
    >)
        requires
            old(html).wf(),
            old(self).wf_in(old(html)),
            itemid.region() == old(html).region(),
        ensures
            final(html).wf(),
            final(html).same_except_ids(old(html)),
            final(self).region() == old(self).region(),
            r is Err <==> (old(self).vlen() == old(self).vcap() && old(html).ids_view().len()
                + max_u32(2 * old(self).vcap(), 8) > old(html).ids_cap()),
            r is Err ==> r == Err::<(), AhtmlError>(AhtmlError::OutOfMemory) && *final(html)
                == *old(html) && *final(self) == *old(self),
            r is Ok ==> {
                &&& final(self).wf_in(final(html))
                &&& final(self).vlen() == old(self).vlen() + 1
                &&& old(self).vlen() < old(self).vcap() ==> final(self).vcap() == old(self).vcap()
                    && final(html).ids_view().len() == old(html).ids_view().len()
                &&& old(self).vlen() == old(self).vcap() ==> final(self).vcap() == max_u32(
                    2 * old(self).vcap(),
                    8,
                ) && final(html).ids_view().len() == old(html).ids_view().len() + max_u32(
                    2 * old(self).vcap(),
                    8,
                )
                &&& (final(self).vstart() == old(self).vstart() && final(self).vcap() == old(self).vcap()) || final(self).vstart() >= old(html).ids_view().len()
                &&& final(self).contents(final(html)) == old(self).contents(old(html)).push(
                    itemid.bare(),
                )
                &&& old(html).ids_view().len() <= final(html).ids_view().len()
                &&& forall|p: int|
                    0 <= p < old(html).ids_view().len() && !(old(self).vlen() < old(self).vcap()
                        && p == old(self).vstart() + old(self).vlen()) ==> #[trigger] final(html).ids_view()[p] == old(html).ids_view()[p]
            },
    {
        if self.len == self.cap {
            let newcap: u32 = if self.cap * 2 > 8 {
                self.cap * 2
            } else {
                8
            };
            let newstart = html.alloc_ids(newcap, Some((self.start, self.start + self.len)))?;
            self.start = newstart;
            self.cap = newcap;
        }
        html.set_id(self.start + self.len, itemid);
        self.len = self.len + 1;
        assert(self.contents(html) =~= old(self).contents(old(html)).push(itemid.bare()));
        Ok(())
    }

    /// Appends all ids of `elements` (reading each just before it is
    /// pushed).
    pub fn append(&mut self, html: &mut HtmlAllocator, elements: ASlice<T>) -> (r: Result<
        (),
        AhtmlError,
    >)
        requires
            old(html).wf(),
            old(self).wf_in(old(html)),
            elements.send() <= old(html).ids_view().len(),
        ensures
            final(html).wf(),
            final(html).same_except_ids(old(html)),
            final(self).wf_in(final(html)),
            final(self).region() == old(self).region(),
            old(html).ids_view().len() <= final(html).ids_view().len(),
            forall|p: int|
                0 <= p < old(html).ids_view().len() && !(old(self).vstart() <= p < old(self).vstart()
                    + old(self).vcap()) ==> #[trigger] final(html).ids_view()[p] == old(html).ids_view()[p],
            (final(self).vstart() == old(self).vstart() && final(self).vcap() == old(self).vcap())
                || final(self).vstart() >= old(html).ids_view().len(),
            r is Ok ==> final(self).vlen() == old(self).vlen() + elements.slen(),
            r is Err ==> r == Err::<(), AhtmlError>(AhtmlError::OutOfMemory),
            old(html).ids_view().len() + 4 * old(self).vlen() - 2 * old(self).vcap() + 4
                * elements.slen() + 4 <= old(html).ids_cap() ==> r is Ok,
            r is Ok ==> final(html).ids_view().len() + 4 * final(self).vlen()
                - 2 * final(self).vcap() <= old(html).ids_view().len() + 4 * old(self).vlen() - 2 * old(self).vcap()
                + 4 * elements.slen(),
            r is Ok && old(self).vcap() <= 2 * old(self).vlen() + 8 ==> final(self).vcap() <= 2
                * final(self).vlen() + 8,
            r is Ok && (elements.send() <= old(self).vstart() + old(self).vlen()
                || old(self).vstart() + old(self).vcap() <= elements.sstart()) ==> final(self).contents(final(html)) == old(self).contents(old(html)) + old(html).ids_view().subrange(
                elements.sstart() as int,
                elements.send(),
            ),
    {
        let ghost disjoint = elements.send() <= old(self).vstart() + old(self).vlen()
            || old(self).vstart() + old(self).vcap() <= elements.sstart();
        let ghost src = old(html).ids_view().subrange(elements.sstart() as int, elements.send());
        let mut i: u32 = 0;
        while i < elements.len
            invariant
                html.wf(),
                html.same_except_ids(old(html)),
                self.wf_in(html),
                0 <= i <= elements.slen(),
                elements.send() <= html.ids_view().len(),
                disjoint ==> (elements.send() <= self.vstart() + self.vlen() || self.vstart()
                    + self.vcap() <= elements.sstart()),
                disjoint ==> html.ids_view().subrange(elements.sstart() as int, elements.send())
                    == src,
                disjoint ==> self.contents(html) == old(self).contents(old(html)) + src.take(
                    i as int,
                ),
                self.region() == old(html).region(),
                self.region() == old(self).region(),
                self.vlen() == old(self).vlen() + i,
                old(html).ids_view().len() <= html.ids_view().len(),
                forall|p: int|
                    0 <= p < old(html).ids_view().len() && !(old(self).vstart() <= p < old(self).vstart()
                        + old(self).vcap()) ==> #[trigger] html.ids_view()[p] == old(html).ids_view()[p],
                (self.vstart() == old(self).vstart() && self.vcap() == old(self).vcap())
                    || self.vstart() >= old(html).ids_view().len(),
                html.ids_view().len() + 4 * self.vlen() - 2 * self.vcap() <= old(html).ids_view().len()
                    + 4 * old(self).vlen() - 2 * old(self).vcap() + 4 * i,
                old(self).vcap() <= 2 * old(self).vlen() + 8 ==> self.vcap() <= 2 * self.vlen()
                    + 8,
            decreases elements.slen() - i,
        {
            let pos = elements.start + i;
            let aid: AId<T> = AId::new(html.regionid, html.ids[pos as usize]);
            let ghost before = html.ids_view();
            let ghost oldself = *self;
            self.push(html, aid)?;
            proof {
                if disjoint {
                    assert(html.ids_view().subrange(elements.sstart() as int, elements.send())
                        =~= src);
                    assert(src.take(i + 1) =~= src.take(i as int).push(aid.bare()));
                }
            }
            i = i + 1;
        }
        proof {
            if disjoint {
                assert(src.take(elements.slen() as int) =~= src);
            }
        }
        Ok(())
    }

    /// The in-use part as a slice.
    pub fn as_slice(&self) -> (r: ASlice<T>)
        ensures
            r.region() == self.region(),
            r.sstart() == self.vstart(),
            r.slen() == self.vlen(),
    {
        ASlice { t: PhantomData, regionid: self.regionid, len: self.len, start: self.start }
    }

    /// Reverses the order of the ids in place.
    pub fn reverse(&mut self, html: &mut HtmlAllocator)
        requires
            old(html).wf(),
            old(self).wf_in(old(html)),
        ensures
            final(html).wf(),
            final(html).same_except_ids(old(html)),
            *final(self) == *old(self),
            final(html).ids_view().len() == old(html).ids_view().len(),
            final(self).contents(final(html)) == old(self).contents(old(html)).reverse(),
            forall|p: int|
                0 <= p < old(html).ids_view().len() && !(old(self).vstart() <= p < old(self).vstart() + old(self).vlen()) ==> #[trigger] final(html).ids_view()[p] == old(html).ids_view()[p],
    {
        let ghost orig = old(self).contents(old(html));
        let s = self.start;
        let n = self.len;
        let mut i: u32 = 0;
        while i < n / 2
            invariant
                html.wf(),
                html.same_except_ids(old(html)),
                html.ids_view().len() == old(html).ids_view().len(),
                s == self.vstart(),
                n == self.vlen(),
                *self == *old(self),
                self.wf_in(html),
                orig == old(self).contents(old(html)),
                0 <= i <= n / 2,
                forall|p: int| s <= p < s + i ==> #[trigger] html.ids_view()[p] == orig[n - 1 - (p - s)],
                forall|p: int| s + n - i <= p < s + n ==> #[trigger] html.ids_view()[p] == orig[n - 1 - (p - s)],
                forall|p: int| s + i <= p < s + n - i ==> #[trigger] html.ids_view()[p] == orig[p - s],
                forall|p: int|
                    0 <= p < old(html).ids_view().len() && !(s <= p < s + n) ==> #[trigger] html.ids_view()[p]
                        == old(html).ids_view()[p],
            decreases n / 2 - i,
        {
            html.swap_ids(s + i, s + n - 1 - i);
            i = i + 1;
        }
        assert(self.contents(html) =~= orig.reverse());
    }

    /// Appends all ids of `slice`.
    pub fn extend_from_slice(&mut self, slice: &ASlice<T>, html: &mut HtmlAllocator) -> (r: Result<
        (),
        AhtmlError,
    >)
        requires
            old(html).wf(),
            old(self).wf_in(old(html)),
            slice.send() <= old(html).ids_view().len(),
        ensures
            final(html).wf(),
            final(html).same_except_ids(old(html)),
            final(self).wf_in(final(html)),
            final(self).region() == old(self).region(),
            old(html).ids_view().len() <= final(html).ids_view().len(),
            forall|p: int|
                0 <= p < old(html).ids_view().len() && !(old(self).vstart() <= p < old(self).vstart()
                    + old(self).vcap()) ==> #[trigger] final(html).ids_view()[p] == old(html).ids_view()[p],
            (final(self).vstart() == old(self).vstart() && final(self).vcap() == old(self).vcap())
                || final(self).vstart() >= old(html).ids_view().len(),
            r is Ok ==> final(self).vlen() == old(self).vlen() + slice.slen(),
            r is Err ==> r == Err::<(), AhtmlError>(AhtmlError::OutOfMemory),
            old(html).ids_view().len() + 4 * old(self).vlen() - 2 * old(self).vcap() + 4
                * slice.slen() + 4 <= old(html).ids_cap() ==> r is Ok,
            r is Ok ==> final(html).ids_view().len() + 4 * final(self).vlen()
                - 2 * final(self).vcap() <= old(html).ids_view().len() + 4 * old(self).vlen()
                - 2 * old(self).vcap() + 4 * slice.slen(),
            r is Ok && (slice.send() <= old(self).vstart() + old(self).vlen()
                || old(self).vstart() + old(self).vcap() <= slice.sstart()) ==> final(self).contents(final(html)) == old(self).contents(old(html)) + old(html).ids_view().subrange(
                slice.sstart() as int,
                slice.send(),
            ),
    {
        self.append(html, *slice)
    }
}

pub open spec fn max_u32(a: int, b: int) -> int {
    if a > b {
        a
    } else {
        b
    }
}

/// Arena for the nodes and attributes of HTML documents; ids into it
/// carry the region (allocator and generation) they belong to.
pub struct HtmlAllocator {
    regionid: RegionId,
    // If present, DOM structure validation is done:
    metadb: Option<&'static MetaDb>,
    atts: StillVec<Option<(String, String)>>,
    nodes: StillVec<Option<Node>>,
    ids: Vec<u32>,
    ids_cap: usize,
}

impl HtmlAllocator {
    pub closed spec fn region(&self) -> RegionId {
        self.regionid
    }

    pub closed spec fn metadb_view(&self) -> Option<&'static MetaDb> {
        self.metadb
    }

    pub closed spec fn atts_view(&self) -> Seq<Option<(String, String)>> {
        self.atts@
    }

    pub closed spec fn nodes_view(&self) -> Seq<Option<Node>> {
        self.nodes@
    }

    pub closed spec fn ids_view(&self) -> Seq<u32> {
        self.ids@
    }

    pub closed spec fn atts_cap(&self) -> nat {
        self.atts.spec_cap()
    }

    pub closed spec fn nodes_cap(&self) -> nat {
        self.nodes.spec_cap()
    }

    pub closed spec fn ids_cap(&self) -> nat {
        self.ids_cap as nat
    }

    /// Storage stays within the capacity limits, which stay within
    /// `MAX_ALLOCATIONS`.
    pub open spec fn wf(&self) -> bool {
        &&& self.atts_view().len() <= self.atts_cap() <= MAX_ALLOCATIONS
        &&& self.nodes_view().len() <= self.nodes_cap() <= MAX_ALLOCATIONS
        &&& self.ids_view().len() <= self.ids_cap() <= MAX_ALLOCATIONS
    }

    /// Everything but the id list is as in `other`.
    pub open spec fn same_except_ids(&self, other: &HtmlAllocator) -> bool {
        &&& self.region() == other.region()
        &&& self.metadb_view() == other.metadb_view()
        &&& self.atts_view() == other.atts_view()
        &&& self.nodes_view() == other.nodes_view()
        &&& self.atts_cap() == other.atts_cap()
        &&& self.nodes_cap() == other.nodes_cap()
        &&& self.ids_cap() == other.ids_cap()
    }

    /// Everything but the node storage is as in `other`.
    pub open spec fn same_except_nodes(&self, other: &HtmlAllocator) -> bool {
        &&& self.region() == other.region()
        &&& self.metadb_view() == other.metadb_view()
        &&& self.atts_view() == other.atts_view()
        &&& self.ids_view() == other.ids_view()
        &&& self.atts_cap() == other.atts_cap()
        &&& self.nodes_cap() == other.nodes_cap()
        &&& self.ids_cap() == other.ids_cap()
    }

    /// Everything but the attribute storage is as in `other`.
    pub open spec fn same_except_atts(&self, other: &HtmlAllocator) -> bool {
        &&& self.region() == other.region()
        &&& self.metadb_view() == other.metadb_view()
        &&& self.nodes_view() == other.nodes_view()
        &&& self.ids_view() == other.ids_view()
        &&& self.atts_cap() == other.atts_cap()
        &&& self.nodes_cap() == other.nodes_cap()
        &&& self.ids_cap() == other.ids_cap()
    }

    /// Creates an allocator for up to `max_allocations` nodes and id
    /// list entries, and half as many attributes. It takes its
    /// allocator id from `counter`.
    pub fn new_with_metadb(
        max_allocations: u32,
        metadb: Option<&'static MetaDb>,
        counter: &mut AllocatorIdCounter,
    ) -> (r: Self)
        requires
            max_allocations <= MAX_ALLOCATIONS,
            old(counter).wf(),
        ensures
            r.wf(),
            final(counter).wf(),
            final(counter).spec_next() == (if old(counter).spec_next() < U24MAX {
                old(counter).spec_next() + 1
            } else {
                0
            }),
            r.region().allocator_id().value() == old(counter).spec_next(),
            r.region().generation() == 0,
            r.metadb_view() == metadb,
            r.atts_view().len() == 0,
            r.nodes_view().len() == 0,
            r.ids_view().len() == 0,
            r.atts_cap() == max_allocations / 2,
            r.nodes_cap() == max_allocations,
            r.ids_cap() == max_allocations,
    {
        let max = max_allocations as usize;
        let half_max_alloc = max / 2;
        HtmlAllocator {
            regionid: RegionId { allocator_id: counter.next_allocator_id(), generation: 0 },
            metadb,
            atts: StillVec::with_capacity(half_max_alloc),
            nodes: StillVec::with_capacity(max),
            ids: Vec::new(),
            ids_cap: max,
        }
    }

    /// Drops all stored values and starts a new generation, so that
    /// ids from before are recognized as stale.
    pub fn clear(&mut self)
        requires
            old(self).wf(),
            old(self).region().generation() < 255,
        ensures
            final(self).wf(),
            final(self).region().allocator_id() == old(self).region().allocator_id(),
            final(self).region().generation() == old(self).region().generation() + 1,
            final(self).metadb_view() == old(self).metadb_view(),
            final(self).atts_view().len() == 0,
            final(self).nodes_view().len() == 0,
            final(self).ids_view().len() == 0,
            final(self).atts_cap() == old(self).atts_cap(),
            final(self).nodes_cap() == old(self).nodes_cap(),
            final(self).ids_cap() == old(self).ids_cap(),
    {
        self.atts.exclusive_clear();
        self.nodes.exclusive_clear();
        self.ids.clear();
        self.regionid.generation = self.regionid.generation + 1;
    }

    /// The number of stored nodes.
    pub fn nodes_len(&self) -> (r: usize)
        ensures
            r == self.nodes_view().len(),
    {
        self.nodes.len()
    }

    pub fn regionid(&self) -> (r: RegionId)
        ensures
            r == self.region(),
    {
        self.regionid
    }

    /// Ids of other regions may not be used with this allocator.
    pub fn assert_regionid(&self, rid: RegionId)
        requires
            rid == self.region(),
    {
    }

    pub fn get_node(&self, id: AId<Node>) -> (r: Option<&Node>)
        requires
            id.region() == self.region(),
        ensures
            r is Some <==> (id.bare() < self.nodes_view().len() && self.nodes_view()[id.bare() as int] is Some),
            r is Some ==> *r.unwrap() == self.nodes_view()[id.bare() as int]->0,
    {
        match self.nodes.get(id.id as usize) {
            Some(v) => match v {
                Some(n) => Some(n),
                None => None,
            },
            None => None,
        }
    }

    pub fn get_att(&self, id: AId<(String, String)>) -> (r: Option<&(String, String)>)
        requires
            id.region() == self.region(),
        ensures
            r is Some <==> (id.bare() < self.atts_view().len() && self.atts_view()[id.bare() as int] is Some),
            r is Some ==> *r.unwrap() == self.atts_view()[id.bare() as int]->0,
    {
        match self.atts.get(id.id as usize) {
            Some(v) => match v {
                Some(n) => Some(n),
                None => None,
            },
            None => None,
        }
    }

    /// The id that position `p` of the id list holds, as an `AId<T>`.
    pub closed spec fn aid_at<T>(&self, p: int) -> AId<T> {
        AId { t: PhantomData, regionid: self.regionid, id: self.ids@[p] }
    }

    pub proof fn lemma_aid_at<T>(&self, p: int)
        ensures
            self.aid_at::<T>(p).region() == self.region(),
            self.aid_at::<T>(p).bare() == self.ids_view()[p],
    {
    }

    /// The id stored at position `id_bare` of the id list.
    pub fn get_id<T>(&self, id_bare: u32) -> (r: Option<AId<T>>)
        ensures
            r is Some <==> id_bare < self.ids_view().len(),
            r matches Some(a) ==> a.region() == self.region() && a.bare()
                == self.ids_view()[id_bare as int] && a == self.aid_at::<T>(id_bare as int),
    {
        if (id_bare as usize) < self.ids.len() {
            Some(AId::new(self.regionid, self.ids[id_bare as usize]))
        } else {
            None
        }
    }

    pub(crate) fn set_id<T>(&mut self, id_bare: u32, val: AId<T>)
        requires
            id_bare < old(self).ids_view().len(),
            val.region() == old(self).region(),
        ensures
            final(self).same_except_ids(old(self)),
            final(self).ids_view() == old(self).ids_view().update(id_bare as int, val.bare()),
    {
        self.ids.set(id_bare as usize, val.id);
    }

    pub(crate) fn swap_ids(&mut self, a: u32, b: u32)
        requires
            a < old(self).ids_view().len(),
            b < old(self).ids_view().len(),
        ensures
            final(self).same_except_ids(old(self)),
            final(self).ids_view() == old(self).ids_view().update(
                a as int,
                old(self).ids_view()[b as int],
            ).update(b as int, old(self).ids_view()[a as int]),
    {
        let va = self.ids[a as usize];
        let vb = self.ids[b as usize];
        self.ids.set(a as usize, vb);
        self.ids.set(b as usize, va);
    }

    /// Allocates `n` id list positions, after copying the positions
    /// `copy_range` (if given) into the start of them; the rest is
    /// filled with `u32::MAX`.
    pub(crate) fn alloc_ids(&mut self, n: u32, copy_range: Option<(u32, u32)>) -> (r: Result<
        u32,
        AhtmlError,
    >)
        requires
            old(self).wf(),
            copy_range matches Some((s, e)) ==> s <= e <= old(self).ids_view().len() && e - s < n,
        ensures
            final(self).wf(),
            final(self).same_except_ids(old(self)),
            old(self).ids_view().len() + n <= old(self).ids_cap() <==> r is Ok,
            r is Err ==> r == Err::<u32, AhtmlError>(AhtmlError::OutOfMemory) && *final(self)
                == *old(self),
            r matches Ok(id) ==> {
                &&& id == old(self).ids_view().len()
                &&& final(self).ids_view().len() == id + n
                &&& final(self).ids_view().subrange(0, id as int) == old(self).ids_view()
                &&& copy_range matches Some((s, e)) ==> final(self).ids_view().subrange(
                    id as int,
                    id + e - s,
                ) == old(self).ids_view().subrange(s as int, e as int)
                &&& copy_range is None ==> final(self).ids_view() == old(self).ids_view()
                    + Seq::new(n as nat, |i: int| u32::MAX)
            },
    {
        let id = self.ids.len();
        if n as usize > self.ids_cap - id {
            return Err(AhtmlError::OutOfMemory);
        }
        let newlen = id + n as usize;
        let ghost orig = self.ids@;
        if let Some((start, end)) = copy_range {
            let mut p: u32 = start;
            while p < end
                invariant
                    self.same_except_ids(old(self)),
                    start <= p <= end <= orig.len(),
                    self.ids@.len() == id + (p - start),
                    self.ids@.subrange(0, id as int) == orig,
                    self.ids@.subrange(id as int, self.ids@.len() as int) == orig.subrange(
                        start as int,
                        p as int,
                    ),
                    orig == old(self).ids_view(),
                    id == orig.len(),
                decreases end - p,
            {
                let v = self.ids[p as usize];
                self.ids.push(v);
                assert(self.ids@.subrange(id as int, self.ids@.len() as int) =~= orig.subrange(
                    start as int,
                    p + 1,
                ));
                assert(self.ids@.subrange(0, id as int) =~= orig);
                p = p + 1;
            }
        }
        let ghost copied = self.ids@;
        while self.ids.len() < newlen
            invariant
                self.same_except_ids(old(self)),
                copied.len() <= self.ids@.len() <= newlen,
                self.ids@.subrange(0, copied.len() as int) == copied,
                forall|k: int| copied.len() <= k < self.ids@.len() ==> #[trigger] self.ids@[k]
                    == u32::MAX,
            decreases newlen - self.ids@.len(),
        {
            self.ids.push(u32::MAX);
            assert(self.ids@.subrange(0, copied.len() as int) =~= copied);
        }
        proof {
            assert(self.ids@.subrange(0, id as int) =~= copied.subrange(0, id as int));
            if let Some((s, e)) = copy_range {
                assert(self.ids@.subrange(id as int, id + e - s) =~= copied.subrange(
                    id as int,
                    id + e - s,
                ));
            } else {
                assert(self.ids@ =~= orig + Seq::new(n as nat, |i: int| u32::MAX));
            }
        }
        Ok(id as u32)
    }

    pub fn new_vec<T>(&self) -> (r: AVec<T>)
        ensures
            r.region() == self.region(),
            r.vlen() == 0,
            r.vcap() == 0,
            r.vstart() == 0,
    {
        AVec::new(self)
    }

    pub fn new_vec_with_capacity<T>(&mut self, capacity: u32) -> (r: Result<AVec<T>, AhtmlError>)
        requires
            old(self).wf(),
        ensures
            final(self).wf(),
            final(self).same_except_ids(old(self)),
            old(self).ids_view().len() + capacity <= old(self).ids_cap() <==> r is Ok,
            r matches Ok(v) ==> {
                &&& v.region() == old(self).region()
                &&& v.vlen() == 0 && v.vcap() == capacity
                &&& v.vstart() == old(self).ids_view().len()
                &&& final(self).ids_view() == old(self).ids_view() + Seq::new(
                    capacity as nat,
                    |i: int| u32::MAX,
                )
                &&& v.wf_in(final(self))
            },
            r is Err ==> r == Err::<AVec<T>, AhtmlError>(AhtmlError::OutOfMemory) && *final(self)
                == *old(self),
    {
        AVec::new_with_capacity(self, capacity)
    }

    /// Stores `node`, unless the node storage is full.
    fn push_node(&mut self, node: Node) -> (r: Result<AId<Node>, AhtmlError>)
        requires
            old(self).wf(),
        ensures
            final(self).wf(),
            final(self).same_except_nodes(old(self)),
            old(self).nodes_view().len() < old(self).nodes_cap() <==> r is Ok,
            r matches Ok(id) ==> id.region() == old(self).region() && id.bare() == old(self).nodes_view().len() && final(self).nodes_view() == old(self).nodes_view().push(
                Some(node),
            ),
            r is Err ==> r == Err::<AId<Node>, AhtmlError>(AhtmlError::OutOfMemory) && *final(self) == *old(self),
    {
        let id_ = self.nodes.len();
        match self.nodes.push_within_capacity_(Some(node)) {
            Ok(()) => Ok(AId::new(self.regionid, id_ as u32)),
            Err(_) => Err(AhtmlError::OutOfMemory),
        }
    }

    fn new_string(&mut self, s: String) -> (r: Result<AId<Node>, AhtmlError>)
        requires
            old(self).wf(),
        ensures
            final(self).wf(),
            final(self).same_except_nodes(old(self)),
            old(self).nodes_view().len() < old(self).nodes_cap() <==> r is Ok,
            r matches Ok(id) ==> id.region() == old(self).region() && id.bare() == old(self).nodes_view().len() && final(self).nodes_view() == old(self).nodes_view().push(
                Some(Node::String(s)),
            ),
            r is Err ==> r == Err::<AId<Node>, AhtmlError>(AhtmlError::OutOfMemory) && *final(self) == *old(self),
    {
        self.push_node(Node::String(s))
    }

    /// A text node holding `s`.
    pub fn str(&mut self, s: &str) -> (r: Result<AId<Node>, AhtmlError>)
        requires
            old(self).wf(),
        ensures
            final(self).wf(),
            final(self).same_except_nodes(old(self)),
            old(self).nodes_view().len() < old(self).nodes_cap() <==> r is Ok,
            r matches Ok(id) ==> id.region() == old(self).region() && id.bare() == old(self).nodes_view().len() && final(self).nodes_view().len() == old(self).nodes_view().len()
                + 1 && final(self).nodes_view().drop_last() == old(self).nodes_view() && (final(self).nodes_view().last() matches Some(Node::String(t)) && t@ == s@),
            r is Err ==> r == Err::<AId<Node>, AhtmlError>(AhtmlError::OutOfMemory) && *final(self) == *old(self),
    {
        let r = self.new_string(s.to_owned());
        proof {
            if r is Ok {
                assert(self.nodes_view().drop_last() =~= old(self).nodes_view());
            }
        }
        r
    }

    /// A text node holding `s`.
    pub fn staticstr(&mut self, s: &'static str) -> (r: Result<AId<Node>, AhtmlError>)
        requires
            old(self).wf(),
        ensures
            final(self).wf(),
            final(self).same_except_nodes(old(self)),
            old(self).nodes_view().len() < old(self).nodes_cap() <==> r is Ok,
            r matches Ok(id) ==> id.region() == old(self).region() && id.bare() == old(self).nodes_view().len() && final(self).nodes_view().len() == old(self).nodes_view().len()
                + 1 && final(self).nodes_view().drop_last() == old(self).nodes_view() && (final(self).nodes_view().last() matches Some(Node::String(t)) && t@ == s@),
            r is Err ==> r == Err::<AId<Node>, AhtmlError>(AhtmlError::OutOfMemory) && *final(self) == *old(self),
    {
        self.str(s)
    }

    /// A text node holding `s`.
    pub fn text(&mut self, s: &str) -> (r: Result<AId<Node>, AhtmlError>)
        requires
            old(self).wf(),
        ensures
            final(self).wf(),
            final(self).same_except_nodes(old(self)),
            old(self).nodes_view().len() < old(self).nodes_cap() <==> r is Ok,
            r matches Ok(id) ==> id.region() == old(self).region() && id.bare() == old(self).nodes_view().len() && final(self).nodes_view().len() == old(self).nodes_view().len()
                + 1 && final(self).nodes_view().drop_last() == old(self).nodes_view() && (final(self).nodes_view().last() matches Some(Node::String(t)) && t@ == s@),
            r is Err ==> r == Err::<AId<Node>, AhtmlError>(AhtmlError::OutOfMemory) && *final(self) == *old(self),
    {
        self.str(s)
    }

    /// A text node holding `s`.
    pub fn string(&mut self, s: String) -> (r: Result<AId<Node>, AhtmlError>)
        requires
            old(self).wf(),
        ensures
            final(self).wf(),
            final(self).same_except_nodes(old(self)),
            old(self).nodes_view().len() < old(self).nodes_cap() <==> r is Ok,
            r matches Ok(id) ==> id.region() == old(self).region() && id.bare() == old(self).nodes_view().len() && final(self).nodes_view() == old(self).nodes_view().push(
                Some(Node::String(s)),
            ),
            r is Err ==> r == Err::<AId<Node>, AhtmlError>(AhtmlError::OutOfMemory) && *final(self) == *old(self),
    {
        self.new_string(s)
    }

    /// A text node for `Some`, an empty node for `None`.
    pub fn opt_string(&mut self, s: Option<String>) -> (r: Result<AId<Node>, AhtmlError>)
        requires
            old(self).wf(),
        ensures
            final(self).wf(),
            final(self).same_except_nodes(old(self)),
            old(self).nodes_view().len() < old(self).nodes_cap() <==> r is Ok,
            r matches Ok(id) ==> id.region() == old(self).region() && id.bare() == old(self).nodes_view().len() && final(self).nodes_view() == old(self).nodes_view().push(
                Some(
                    match s {
                        Some(t) => Node::String(t),
                        None => Node::Empty,
                    },
                ),
            ),
            r is Err ==> r == Err::<AId<Node>, AhtmlError>(AhtmlError::OutOfMemory) && *final(self) == *old(self),
    {
        match s {
            Some(s) => self.new_string(s),
            None => self.empty_node(),
        }
    }

    /// A node that renders as nothing.
    pub fn empty_node(&mut self) -> (r: Result<AId<Node>, AhtmlError>)
        requires
            old(self).wf(),
        ensures
            final(self).wf(),
            final(self).same_except_nodes(old(self)),
            old(self).nodes_view().len() < old(self).nodes_cap() <==> r is Ok,
            r matches Ok(id) ==> id.region() == old(self).region() && id.bare() == old(self).nodes_view().len() && final(self).nodes_view() == old(self).nodes_view().push(
                Some(Node::Empty),
            ),
            r is Err ==> r == Err::<AId<Node>, AhtmlError>(AhtmlError::OutOfMemory) && *final(self) == *old(self),
    {
        self.push_node(Node::Empty)
    }

    /// A node holding preserialized HTML.
    pub fn preserialized(&mut self, val: Arc<SerHtmlFrag>) -> (r: Result<AId<Node>, AhtmlError>)
        requires
            old(self).wf(),
        ensures
            final(self).wf(),
            final(self).same_except_nodes(old(self)),
            old(self).nodes_view().len() < old(self).nodes_cap() <==> r is Ok,
            r matches Ok(id) ==> id.region() == old(self).region() && id.bare() == old(self).nodes_view().len() && final(self).nodes_view() == old(self).nodes_view().push(
                Some(Node::Preserialized(val)),
            ),
            r is Err ==> r == Err::<AId<Node>, AhtmlError>(AhtmlError::OutOfMemory) && *final(self) == *old(self),
    {
        self.push_node(Node::Preserialized(val))
    }

    /// Stores an attribute, unless the attribute storage is full.
    pub fn new_attribute(&mut self, att: (String, String)) -> (r: Result<
        AId<(String, String)>,
        AhtmlError,
    >)
        requires
            old(self).wf(),
        ensures
            final(self).wf(),
            final(self).same_except_atts(old(self)),
            old(self).atts_view().len() < old(self).atts_cap() <==> r is Ok,
            r matches Ok(id) ==> id.region() == old(self).region() && id.bare() == old(self).atts_view().len() && final(self).atts_view() == old(self).atts_view().push(
                Some(att),
            ),
            r is Err ==> r == Err::<AId<(String, String)>, AhtmlError>(AhtmlError::OutOfMemory)
                && *final(self) == *old(self),
    {
        let id_ = self.atts.len();
        match self.atts.push_within_capacity_(Some(att)) {
            Ok(()) => Ok(AId::new(self.regionid, id_ as u32)),
            Err(_) => Err(AhtmlError::OutOfMemory),
        }
    }

    /// Stores the attribute `key="val"`.
    pub fn attribute(&mut self, key: &str, val: &str) -> (r: Result<
        AId<(String, String)>,
        AhtmlError,
    >)
        requires
            old(self).wf(),
        ensures
            final(self).wf(),
            final(self).same_except_atts(old(self)),
            old(self).atts_view().len() < old(self).atts_cap() <==> r is Ok,
            r matches Ok(id) ==> id.region() == old(self).region() && id.bare() == old(self).atts_view().len() && final(self).atts_view().len() == old(self).atts_view().len()
                + 1 && final(self).atts_view().drop_last() == old(self).atts_view() && (final(self).atts_view().last() matches Some((k, v)) && k@ == key@ && v@ == val@),
            r is Err ==> r == Err::<AId<(String, String)>, AhtmlError>(AhtmlError::OutOfMemory)
                && *final(self) == *old(self),
    {
        let r = self.new_attribute((key.to_owned(), val.to_owned()));
        proof {
            if r is Ok {
                assert(self.atts_view().drop_last() =~= old(self).atts_view());
            }
        }
        r
    }

    /// Stores an element of kind `meta`, after the DOM structure checks
    /// (when the allocator has a `MetaDb`).
    pub fn new_element(
        &mut self,
        meta: &'static ElementMeta,
        attr: ASlice<(String, String)>,
        body: ASlice<Node>,
    ) -> (r: Result<AId<Node>, AhtmlError>)
        requires
            old(self).wf(),
            old(self).metadb_view() is Some ==> att_slice_resolves(old(self), attr)
                && node_slice_resolves(old(self), body),
        ensures
            final(self).wf(),
            final(self).same_except_nodes(old(self)),
            element_check(old(self), meta, attr, body) matches Some(e) ==> r == Err::<
                AId<Node>,
                AhtmlError,
            >(e) && *final(self) == *old(self),
            element_check(old(self), meta, attr, body) is None ==> {
                &&& old(self).nodes_view().len() < old(self).nodes_cap() <==> r is Ok
                &&& r matches Ok(id) ==> id.region() == old(self).region() && id.bare() == old(self).nodes_view().len() && final(self).nodes_view() == old(self).nodes_view().push(
                    Some(Node::Element(Element { meta, attr, body })),
                )
                &&& r is Err ==> r == Err::<AId<Node>, AhtmlError>(AhtmlError::OutOfMemory)
                    && *final(self) == *old(self)
            },
    {
        if let Some(db) = self.metadb {
            if let Some(e) = check_atts(self, db, meta, attr) {
                return Err(e);
            }
            if let Some(e) = check_body(self, meta, body) {
                return Err(e);
            }
        }
        self.push_node(Node::Element(Element { meta, attr, body }))
    }

    /// Stores `elt` as `new_element` does.
    pub fn allocate_element(&mut self, elt: Element) -> (r: Result<AId<Node>, AhtmlError>)
        requires
            old(self).wf(),
            old(self).metadb_view() is Some ==> att_slice_resolves(old(self), elt.attr)
                && node_slice_resolves(old(self), elt.body),
        ensures
            final(self).wf(),
            final(self).same_except_nodes(old(self)),
            element_check(old(self), elt.meta, elt.attr, elt.body) matches Some(e) ==> r == Err::<
                AId<Node>,
                AhtmlError,
            >(e) && *final(self) == *old(self),
            element_check(old(self), elt.meta, elt.attr, elt.body) is None ==> {
                &&& old(self).nodes_view().len() < old(self).nodes_cap() <==> r is Ok
                &&& r matches Ok(id) ==> id.region() == old(self).region() && id.bare() == old(self).nodes_view().len() && final(self).nodes_view() == old(self).nodes_view().push(
                    Some(Node::Element(elt)),
                )
                &&& r is Err ==> r == Err::<AId<Node>, AhtmlError>(AhtmlError::OutOfMemory)
                    && *final(self) == *old(self)
            },
    {
        self.new_element(elt.meta, elt.attr, elt.body)
    }

    /// A text node holding `s`.
    pub fn kstring(&mut self, s: String) -> (r: Result<AId<Node>, AhtmlError>)
        requires
            old(self).wf(),
        ensures
            final(self).wf(),
            final(self).same_except_nodes(old(self)),
            old(self).nodes_view().len() < old(self).nodes_cap() <==> r is Ok,
            r matches Ok(id) ==> id.region() == old(self).region() && id.bare() == old(self).nodes_view().len() && final(self).nodes_view() == old(self).nodes_view().push(
                Some(Node::String(s)),
            ),
            r is Err ==> r == Err::<AId<Node>, AhtmlError>(AhtmlError::OutOfMemory) && *final(self) == *old(self),
    {
        self.new_string(s)
    }

    /// A text node with just a non-breaking space.
    pub fn nbsp(&mut self) -> (r: Result<AId<Node>, AhtmlError>)
        requires
            old(self).wf(),
        ensures
            final(self).wf(),
            final(self).same_except_nodes(old(self)),
            old(self).nodes_view().len() < old(self).nodes_cap() <==> r is Ok,
            r matches Ok(id) ==> id.region() == old(self).region() && id.bare() == old(self).nodes_view().len() && final(self).nodes_view().len() == old(self).nodes_view().len()
                + 1 && final(self).nodes_view().drop_last() == old(self).nodes_view() && (final(self).nodes_view().last() matches Some(Node::String(t)) && t@ == seq!['\u{a0}']),
            r is Err ==> r == Err::<AId<Node>, AhtmlError>(AhtmlError::OutOfMemory) && *final(self) == *old(self),
    {
        let s = "\u{a0}";
        proof {
            reveal_strlit("\u{a0}");
        }
        self.str(s)
    }

    /// A slice without positions.
    pub fn empty_slice<T>(&self) -> (r: ASlice<T>)
        ensures
            r.region() == self.region(),
            r.sstart() == 0,
            r.slen() == 0,
    {
        ASlice { t: PhantomData, regionid: self.regionid, len: 0, start: 0 }
    }
}

/// The attribute `key="val"`, as an optional item of an attribute list.
pub fn att(key: &str, val: &str) -> (r: Option<(String, String)>)
    ensures
        r matches Some((k, v)) && k@ == key@ && v@ == val@,
{
    Some((key.to_owned(), val.to_owned()))
}

/// The attribute `key="val"` if there is a value.
pub fn opt_att(key: &str, val: Option<&str>) -> (r: Option<(String, String)>)
    ensures
        match val {
            None => r is None,
            Some(w) => r matches Some((k, v)) && k@ == key@ && v@ == w@,
        },
{
    match val {
        Some(w) => Some((key.to_owned(), w.to_owned())),
        None => None,
    }
}

} // verus!
