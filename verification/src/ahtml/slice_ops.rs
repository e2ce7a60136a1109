//! Operations on slices of ids: access, splitting, filtering and
//! unwrapping of single elements.

use vstd::prelude::*;

use super::allocator::{AhtmlError, AId, ASlice, AVec, Element, HtmlAllocator, Node};
use super::flat::Flat;
use super::check::{att_slice_resolves, node_slice_resolves};
use super::meta::{ElementMeta, str_eq};

verus! {

impl<T> ASlice<T> {
    /// The ids of the slice, in order.
    pub fn iter_aid(&self, html: &HtmlAllocator) -> (r: Vec<AId<T>>)
        requires
            html.wf(),
            self.send() <= html.ids_view().len(),
        ensures
            r@.len() == self.slen(),
            forall|i: int| 0 <= i < self.slen() ==> #[trigger] r@[i] == html.aid_at::<T>(self.sstart() + i),
    {
        let mut v: Vec<AId<T>> = Vec::new();
        let n = self.len();
        let start = self.start_pos();
        let mut i: u32 = 0;
        while i < n
            invariant
                html.wf(),
                n == self.slen(),
                start == self.sstart(),
                self.send() <= html.ids_view().len(),
                0 <= i <= n,
                v@.len() == i,
                forall|k: int| 0 <= k < i ==> #[trigger] v@[k] == html.aid_at::<T>(start + k),
            decreases n - i,
        {
            let id = html.get_id::<T>(start + i).unwrap();
            v.push(id);
            i = i + 1;
        }
        v
    }

    /// The first id and the rest, unless the slice is empty.
    pub fn first_and_rest(&self, html: &HtmlAllocator) -> (r: Option<(AId<T>, ASlice<T>)>)
        requires
            self.send() <= u32::MAX,
            self.slen() >= 1 ==> self.sstart() < html.ids_view().len(),
        ensures
            r is Some <==> self.slen() >= 1,
            r matches Some((id, rest)) ==> {
                &&& id == html.aid_at::<T>(self.sstart() as int)
                &&& rest.region() == self.region()
                &&& rest.sstart() == self.sstart() + 1
                &&& rest.slen() == self.slen() - 1
            },
    {
        if self.len() >= 1 {
            let id = html.get_id::<T>(self.start_pos()).unwrap();
            Some((id, ASlice::new_raw(self.regionid(), self.start_pos() + 1, self.len() - 1)))
        } else {
            None
        }
    }

    /// The id at index `i` of the slice, if `i` is within the slice
    /// and the id list.
    pub fn get(&self, i: u32, html: &HtmlAllocator) -> (r: Option<AId<T>>)
        requires
            self.send() <= u32::MAX,
        ensures
            r is Some <==> (i < self.slen() && self.sstart() + i < html.ids_view().len()),
            r matches Some(id) ==> id == html.aid_at::<T>(self.sstart() + i),
    {
        if i < self.len() {
            html.get_id(self.start_pos() + i)
        } else {
            None
        }
    }

    /// Split the slice before the first id for which `f` returns true.
    pub fn split_when<F: Fn(AId<T>) -> bool>(&self, f: F, html: &HtmlAllocator) -> (r: Option<
        (ASlice<T>, ASlice<T>),
    >)
        requires
            self.send() <= html.ids_view().len(),
            html.wf(),
            forall|p: int|
                self.sstart() <= p < self.send() ==> call_requires(f, (html.aid_at::<T>(p),)),
        ensures
            r is None ==> forall|p: int|
                self.sstart() <= p < self.send() ==> call_ensures(f, (html.aid_at::<T>(p),), false),
            r matches Some((a, b)) ==> {
                &&& a.region() == self.region() && b.region() == self.region()
                &&& a.sstart() == self.sstart()
                &&& b.sstart() == a.send()
                &&& b.send() == self.send()
                &&& b.slen() >= 1
                &&& call_ensures(f, (html.aid_at::<T>(b.sstart() as int),), true)
                &&& forall|p: int|
                    self.sstart() <= p < b.sstart() ==> call_ensures(f, (html.aid_at::<T>(p),), false)
            },
    {
        let start = self.start_pos();
        let end = start + self.len();
        let mut place = start;
        while place < end
            invariant
                start == self.sstart(),
                end == self.send(),
                self.send() <= html.ids_view().len(),
                start <= place <= end,
                forall|p: int|
                    self.sstart() <= p < self.send() ==> call_requires(f, (html.aid_at::<T>(p),)),
                forall|p: int| start <= p < place ==> call_ensures(f, (html.aid_at::<T>(p),), false),
            decreases end - place,
        {
            let id = html.get_id::<T>(place).unwrap();
            if f(id) {
                return Some(
                    (
                        ASlice::new_raw(self.regionid(), start, place - start),
                        ASlice::new_raw(self.regionid(), place, end - place),
                    ),
                );
            }
            place = place + 1;
        }
        None
    }

    /// The region of the slice.
    pub fn regionid(&self) -> (r: super::allocator::RegionId)
        ensures
            r == self.region(),
    {
        self.region_exec()
    }
}

/// The body of `node` if it is an element of kind `meta` (without
/// attributes, if `strict`).
pub open spec fn unwrap_node_spec(node: Node, meta: &ElementMeta, strict: bool) -> Option<ASlice<Node>> {
    match node {
        Node::Element(e) => if e.meta.tag_name@ == meta.tag_name@ && (!strict || e.attr.slen() == 0) {
            Some(e.body)
        } else {
            None
        },
        _ => None,
    }
}

fn unwrap_node(node: &Node, meta: &ElementMeta, strict: bool) -> (r: Option<ASlice<Node>>)
    ensures
        r == unwrap_node_spec(*node, meta, strict),
{
    match node {
        Node::Element(e) => {
            if str_eq(e.meta.tag_name.as_str(), meta.tag_name.as_str()) && (!strict || e.attr.len()
                == 0) {
                Some(e.body)
            } else {
                None
            }
        },
        _ => None,
    }
}

/// The node that position `p` of the id list refers to.
pub open spec fn node_at_pos(html: &HtmlAllocator, p: int) -> Node {
    html.nodes_view()[html.ids_view()[p] as int]->0
}

/// The ids of slice `s` with each element of kind `meta` replaced by
/// its body's ids, for the first `k` ids.
pub open spec fn unwrap_all(html: &HtmlAllocator, meta: &ElementMeta, strict: bool, s: ASlice<Node>, k: nat) -> Seq<u32>
    decreases k,
{
    if k == 0 {
        Seq::empty()
    } else {
        let prev = unwrap_all(html, meta, strict, s, (k - 1) as nat);
        let p = s.sstart() + k - 1;
        match unwrap_node_spec(node_at_pos(html, p), meta, strict) {
            Some(b) => prev + html.ids_view().subrange(b.sstart() as int, b.send()),
            None => prev.push(html.ids_view()[p]),
        }
    }
}

impl ASlice<Node> {
    /// If this slice holds exactly one element, of kind `meta` (and
    /// without attributes, if `strict`), its body.
    pub fn unwrap_element_opt(&self, meta: &ElementMeta, strict: bool, html: &HtmlAllocator) -> (r: Option<
        ASlice<Node>,
    >)
        requires
            self.slen() == 1 ==> node_slice_resolves(html, *self),
            self.send() <= u32::MAX,
        ensures
            r == (if self.slen() == 1 {
                unwrap_node_spec(node_at_pos(html, self.sstart() as int), meta, strict)
            } else {
                None
            }),
    {
        if self.len() == 1 {
            let nodeid = self.get(0, html).unwrap();
            proof {
                html.lemma_aid_at::<Node>(self.sstart() as int);
            }
            let node = html.get_node(nodeid).unwrap();
            unwrap_node(node, meta, strict)
        } else {
            None
        }
    }

    /// Like `unwrap_element_opt`, but the slice itself where that gives
    /// nothing.
    pub fn unwrap_element(&self, meta: &ElementMeta, strict: bool, html: &HtmlAllocator) -> (r: ASlice<Node>)
        requires
            self.slen() == 1 ==> node_slice_resolves(html, *self),
            self.send() <= u32::MAX,
        ensures
            r == (if self.slen() == 1 {
                match unwrap_node_spec(node_at_pos(html, self.sstart() as int), meta, strict) {
                    Some(b) => b,
                    None => *self,
                }
            } else {
                *self
            }),
    {
        match self.unwrap_element_opt(meta, strict, html) {
            Some(b) => b,
            None => *self,
        }
    }

    /// Unwraps all elements of kind `meta` in the slice (see
    /// `unwrap_element_opt`), into a new vector unless the slice is a
    /// single such element.
    pub fn unwrap_elements(&self, meta: &ElementMeta, strict: bool, html: &mut HtmlAllocator) -> (r: Result<
        ASlice<Node>,
        AhtmlError,
    >)
        requires
            old(html).wf(),
            node_slice_resolves(old(html), *self),
            forall|p: int|
                self.sstart() <= p < self.send() ==> (unwrap_node_spec(#[trigger] node_at_pos(old(html), p), meta, strict) matches Some(b) ==> b.send() <= old(html).ids_view().len()),
        ensures
            final(html).wf(),
            final(html).same_except_ids(old(html)),
            r is Err ==> r == Err::<ASlice<Node>, AhtmlError>(AhtmlError::OutOfMemory),
            self.slen() == 1 && unwrap_node_spec(node_at_pos(old(html), self.sstart() as int), meta, strict) is Some
                ==> r == Ok::<ASlice<Node>, AhtmlError>(unwrap_node_spec(node_at_pos(old(html), self.sstart() as int), meta, strict)->0)
                && *final(html) == *old(html),
            !(self.slen() == 1 && unwrap_node_spec(node_at_pos(old(html), self.sstart() as int), meta, strict) is Some)
                ==> (r matches Ok(s) ==> s.region() == old(html).region() && final(html).ids_view().subrange(s.sstart() as int, s.send())
                == unwrap_all(old(html), meta, strict, *self, self.slen() as nat)),
    {
        if let Some(b) = self.unwrap_element_opt(meta, strict, html) {
            return Ok(b);
        }
        let ghost h0 = *html;
        let mut v: AVec<Node> = html.new_vec();
        let n = self.len();
        let start = self.start_pos();
        let mut i: u32 = 0;
        while i < n
            invariant
                html.wf(),
                html.same_except_ids(&h0),
                h0 == *old(html),
                n == self.slen(),
                start == self.sstart(),
                0 <= i <= n,
                node_slice_resolves(&h0, *self),
                forall|p: int|
                    self.sstart() <= p < self.send() ==> (unwrap_node_spec(#[trigger] node_at_pos(&h0, p), meta, strict) matches Some(b) ==> b.send() <= h0.ids_view().len()),
                v.wf_in(html),
                v.vlen() == 0 ==> v.vcap() == 0,
                v.vlen() > 0 ==> v.vstart() >= h0.ids_view().len(),
                !(self.slen() == 1 && unwrap_node_spec(node_at_pos(&h0, self.sstart() as int), meta, strict) is Some),
                h0.ids_view().len() <= html.ids_view().len(),
                html.ids_view().subrange(0, h0.ids_view().len() as int) == h0.ids_view(),
                v.contents(html) == unwrap_all(&h0, meta, strict, *self, i as nat),
            decreases n - i,
        {
            let id = html.get_id::<Node>(start + i).unwrap();
            assert(html.ids_view()[start + i] == h0.ids_view()[start + i]);
            proof {
                html.lemma_aid_at::<Node>(start + i);
            }
            let node = html.get_node(id).unwrap();
            assert(*node == node_at_pos(&h0, start + i));
            match unwrap_node(node, meta, strict) {
                Some(sub) => {
                    let m = sub.len();
                    let sstart = sub.start_pos();
                    let ghost before = v.contents(html);
                    let mut j: u32 = 0;
                    while j < m
                        invariant
                            html.wf(),
                            html.same_except_ids(&h0),
                            m == sub.slen(),
                            sstart == sub.sstart(),
                            sub.send() <= h0.ids_view().len(),
                            0 <= j <= m,
                            v.wf_in(html),
                            h0 == *old(html),
                            v.vlen() == 0 ==> v.vcap() == 0,
                            v.vlen() > 0 ==> v.vstart() >= h0.ids_view().len(),
                            !(self.slen() == 1 && unwrap_node_spec(node_at_pos(&h0, self.sstart() as int), meta, strict) is Some),
                            h0.ids_view().len() <= html.ids_view().len(),
                            html.ids_view().subrange(0, h0.ids_view().len() as int) == h0.ids_view(),
                            v.contents(html) == before + h0.ids_view().subrange(sstart as int, sstart + j),
                        decreases m - j,
                    {
                        let cid = html.get_id::<Node>(sstart + j).unwrap();
                        assert(html.ids_view()[sstart + j] == h0.ids_view()[sstart + j]);
                        proof {
                            html.lemma_aid_at::<Node>(sstart + j);
                        }
                        v.push(html, cid)?;
                        proof {
                            assert(html.ids_view().subrange(0, h0.ids_view().len() as int) =~= h0.ids_view());
                            assert(h0.ids_view().subrange(sstart as int, sstart + j + 1) =~= h0.ids_view().subrange(sstart as int, sstart + j).push(cid.bare()));
                        }
                        j = j + 1;
                    }
                },
                None => {
                    v.push(html, id)?;
                    proof {
                        assert(html.ids_view().subrange(0, h0.ids_view().len() as int) =~= h0.ids_view());
                    }
                },
            }
            i = i + 1;
        }
        Ok(v.as_slice())
    }
}

/// The indices of the ids among `outs`, in order.
pub open spec fn somes<T>(outs: Seq<Option<AId<T>>>) -> Seq<u32>
    decreases outs.len(),
{
    if outs.len() == 0 {
        Seq::empty()
    } else {
        somes(outs.drop_last()) + match outs.last() {
            Some(a) => seq![a.bare()],
            None => Seq::empty(),
        }
    }
}

/// The ids of all of `outs`, in order, read from `html`.
pub open spec fn flat_items<T>(html: &HtmlAllocator, outs: Seq<Flat<T>>) -> Seq<u32>
    decreases outs.len(),
{
    if outs.len() == 0 {
        Seq::empty()
    } else {
        flat_items(html, outs.drop_last()) + outs.last().items(html)
    }
}

/// Whatever `f` gives for an id of `s` (as `html` holds them) is a
/// success with at most `w` ids.
pub open spec fn flat_outputs_within<T, F: Fn(AId<T>) -> Result<Flat<T>, AhtmlError>>(
    f: F,
    html: &HtmlAllocator,
    s: ASlice<T>,
    w: nat,
) -> bool {
    forall|p: int, o: Result<Flat<T>, AhtmlError>|
        s.sstart() <= p < s.send() && #[trigger] call_ensures(f, (html.aid_at::<T>(p),), o) ==> (
        o matches Ok(fl) && fl.count() <= w)
}

impl<T> ASlice<T> {
    /// The ids that `f` gives for the ids of the slice, in order,
    /// leaving out those for which it gives `None`, in a new vector
    /// with room for `capacity` ids (the slice's length if `None`);
    /// the first error of `f` is returned.
    pub fn try_filter_map<F: Fn(AId<T>) -> Result<Option<AId<T>>, AhtmlError>>(
        &self,
        f: F,
        capacity: Option<u32>,
        html: &mut HtmlAllocator,
    ) -> (r: Result<AVec<T>, AhtmlError>)
        requires
            old(html).wf(),
            self.send() <= old(html).ids_view().len(),
            forall|p: int|
                self.sstart() <= p < self.send() ==> call_requires(f, (old(html).aid_at::<T>(p),)),
            forall|x: AId<T>, o: Result<Option<AId<T>>, AhtmlError>|
                call_ensures(f, (x,), o) ==> (o matches Ok(Some(a)) ==> a.region() == old(
                    html,
                ).region()),
        ensures
            final(html).wf(),
            final(html).same_except_ids(old(html)),
            forall|p: int|
                0 <= p < old(html).ids_view().len() ==> #[trigger] final(html).ids_view()[p] == old(
                    html,
                ).ids_view()[p],
            r matches Ok(v) ==> v.wf_in(final(html)) && v.region() == old(html).region() && exists|
                outs: Seq<Option<AId<T>>>,
            |
                {
                    &&& outs.len() == self.slen()
                    &&& forall|k: int|
                        0 <= k < outs.len() ==> call_ensures(
                            f,
                            (old(html).aid_at::<T>(self.sstart() + k),),
                            Ok::<Option<AId<T>>, AhtmlError>(#[trigger] outs[k]),
                        )
                    &&& v.contents(final(html)) == somes(outs)
                },
            r matches Err(e) ==> e == AhtmlError::OutOfMemory || exists|p: int|
                self.sstart() <= p < self.send() && call_ensures(
                    f,
                    (old(html).aid_at::<T>(p),),
                    Err::<Option<AId<T>>, AhtmlError>(e),
                ),
            ({
                let cap = match capacity {
                    Some(c) => c as int,
                    None => self.slen() as int,
                };
                &&& forall|p: int, o: Result<Option<AId<T>>, AhtmlError>|
                    self.sstart() <= p < self.send() && #[trigger] call_ensures(
                        f,
                        (old(html).aid_at::<T>(p),),
                        o,
                    ) ==> o is Ok
                &&& old(html).ids_view().len() + cap <= old(html).ids_cap()
                &&& (self.slen() <= cap || old(html).ids_view().len() - cap + 4 * self.slen() + 4
                    <= old(html).ids_cap())
            }) ==> r is Ok,
    {
        let ghost h0 = *html;
        let ghost l0 = old(html).ids_view().len();
        let cap = match capacity {
            Some(c) => c,
            None => self.len(),
        };
        let ghost fits = (forall|p: int, o: Result<Option<AId<T>>, AhtmlError>|
            self.sstart() <= p < self.send() && #[trigger] call_ensures(
                f,
                (old(html).aid_at::<T>(p),),
                o,
            ) ==> o is Ok) && l0 + cap <= h0.ids_cap() && (self.slen() <= cap || l0 - cap + 4
            * self.slen() + 4 <= h0.ids_cap());
        let mut v: AVec<T> = html.new_vec_with_capacity(cap)?;
        let start = self.start_pos();
        let n = self.len();
        let mut i: u32 = 0;
        let ghost mut outs: Seq<Option<AId<T>>> = Seq::empty();
        proof {
            assert(v.contents(html) =~= Seq::<u32>::empty());
        }
        while i < n
            invariant
                html.wf(),
                html.same_except_ids(&h0),
                h0 == *old(html),
                l0 == h0.ids_view().len(),
                html.ids_view().len() >= l0,
                forall|p: int| 0 <= p < l0 ==> #[trigger] html.ids_view()[p] == h0.ids_view()[p],
                v.wf_in(html),
                v.region() == h0.region(),
                v.vstart() >= l0,
                start == self.sstart(),
                n == self.slen(),
                self.send() <= l0,
                i <= n,
                outs.len() == i,
                forall|p: int|
                    self.sstart() <= p < self.send() ==> call_requires(f, (h0.aid_at::<T>(p),)),
                forall|x: AId<T>, o: Result<Option<AId<T>>, AhtmlError>|
                    call_ensures(f, (x,), o) ==> (o matches Ok(Some(a)) ==> a.region() == h0.region()),
                forall|k: int|
                    0 <= k < outs.len() ==> call_ensures(
                        f,
                        (h0.aid_at::<T>(self.sstart() + k),),
                        Ok::<Option<AId<T>>, AhtmlError>(#[trigger] outs[k]),
                    ),
                v.contents(html) == somes(outs),
                html.ids_view().len() - 2 * v.vcap() <= l0 - cap,
                v.vlen() <= i,
                n <= cap ==> v.vcap() == cap,
                fits ==> forall|p: int, o: Result<Option<AId<T>>, AhtmlError>|
                    self.sstart() <= p < self.send() && #[trigger] call_ensures(
                        f,
                        (h0.aid_at::<T>(p),),
                        o,
                    ) ==> o is Ok,
                fits ==> (n <= cap || l0 - cap + 4 * n + 4 <= h0.ids_cap()),
                cap as int == match capacity {
                    Some(c) => c as int,
                    None => self.slen() as int,
                },
                fits == ((forall|p: int, o: Result<Option<AId<T>>, AhtmlError>|
                    self.sstart() <= p < self.send() && #[trigger] call_ensures(
                        f,
                        (old(html).aid_at::<T>(p),),
                        o,
                    ) ==> o is Ok) && l0 + cap <= h0.ids_cap() && (self.slen() <= cap || l0 - cap
                    + 4 * self.slen() + 4 <= h0.ids_cap())),
            decreases n - i,
        {
            let id = html.get_id::<T>(start + i).unwrap();
            proof {
                html.lemma_aid_at::<T>(start + i);
                h0.lemma_aid_at::<T>(start + i);
                AId::<T>::lemma_eq(id, h0.aid_at::<T>(start + i));
            }
            let o = f(id)?;
            let ghost vb = v;
            let ghost hb = *html;
            match o {
                Some(a) => {
                    v.push(html, a)?;
                },
                None => {},
            }
            proof {
                let outs2 = outs.push(o);
                assert(outs2.drop_last() =~= outs);
                outs = outs2;
                if o is None {
                    assert(v.contents(html) =~= somes(outs));
                }
            }
            i = i + 1;
        }
        Ok(v)
    }

    /// The ids of what `f` gives for the ids of the slice, in order, in
    /// a new vector with room for `capacity` ids (the slice's length if
    /// `None`); the first error of `f` is returned. Slices that `f`
    /// gives must lie within the id list as it was at the call.
    pub fn try_flat_map<F: Fn(AId<T>) -> Result<Flat<T>, AhtmlError>>(
        &self,
        f: F,
        capacity: Option<u32>,
        html: &mut HtmlAllocator,
    ) -> (r: Result<AVec<T>, AhtmlError>)
        requires
            old(html).wf(),
            self.send() <= old(html).ids_view().len(),
            forall|p: int|
                self.sstart() <= p < self.send() ==> call_requires(f, (old(html).aid_at::<T>(p),)),
            forall|x: AId<T>, o: Result<Flat<T>, AhtmlError>|
                call_ensures(f, (x,), o) ==> (o matches Ok(fl) ==> fl.fits(old(html))),
        ensures
            final(html).wf(),
            final(html).same_except_ids(old(html)),
            forall|p: int|
                0 <= p < old(html).ids_view().len() ==> #[trigger] final(html).ids_view()[p] == old(
                    html,
                ).ids_view()[p],
            r matches Ok(v) ==> v.wf_in(final(html)) && v.region() == old(html).region() && exists|
                outs: Seq<Flat<T>>,
            |
                {
                    &&& outs.len() == self.slen()
                    &&& forall|k: int|
                        0 <= k < outs.len() ==> call_ensures(
                            f,
                            (old(html).aid_at::<T>(self.sstart() + k),),
                            Ok::<Flat<T>, AhtmlError>(#[trigger] outs[k]),
                        )
                    &&& v.contents(final(html)) == flat_items(old(html), outs)
                },
            r matches Err(e) ==> e == AhtmlError::OutOfMemory || exists|p: int|
                self.sstart() <= p < self.send() && call_ensures(
                    f,
                    (old(html).aid_at::<T>(p),),
                    Err::<Flat<T>, AhtmlError>(e),
                ),
            forall|w: nat|
                #[trigger] flat_outputs_within(f, old(html), *self, w) && old(html).ids_view().len()
                    + (match capacity {
                    Some(c) => c as int,
                    None => self.slen() as int,
                }) <= old(html).ids_cap() && old(html).ids_view().len() - (match capacity {
                    Some(c) => c as int,
                    None => self.slen() as int,
                }) + 4 * self.slen() * w + 4 <= old(html).ids_cap() ==> r is Ok,
    {
        let ghost h0 = *html;
        let ghost l0 = old(html).ids_view().len();
        let cap = match capacity {
            Some(c) => c,
            None => self.len(),
        };
        let mut v: AVec<T> = html.new_vec_with_capacity(cap)?;
        let start = self.start_pos();
        let n = self.len();
        let mut i: u32 = 0;
        let ghost mut outs: Seq<Flat<T>> = Seq::empty();
        proof {
            assert(v.contents(html) =~= Seq::<u32>::empty());
        }
        while i < n
            invariant
                html.wf(),
                html.same_except_ids(&h0),
                h0 == *old(html),
                l0 == h0.ids_view().len(),
                html.ids_view().len() >= l0,
                forall|p: int| 0 <= p < l0 ==> #[trigger] html.ids_view()[p] == h0.ids_view()[p],
                v.wf_in(html),
                v.region() == h0.region(),
                v.vstart() >= l0,
                start == self.sstart(),
                n == self.slen(),
                self.send() <= l0,
                i <= n,
                outs.len() == i,
                forall|p: int|
                    self.sstart() <= p < self.send() ==> call_requires(f, (h0.aid_at::<T>(p),)),
                forall|x: AId<T>, o: Result<Flat<T>, AhtmlError>|
                    call_ensures(f, (x,), o) ==> (o matches Ok(fl) ==> fl.fits(&h0)),
                forall|k: int|
                    0 <= k < outs.len() ==> call_ensures(
                        f,
                        (h0.aid_at::<T>(self.sstart() + k),),
                        Ok::<Flat<T>, AhtmlError>(#[trigger] outs[k]),
                    ),
                v.contents(html) == flat_items(&h0, outs),
                html.ids_view().len() - 2 * v.vcap() <= l0 - cap,
                html.ids_cap() == h0.ids_cap(),
                forall|w: nat| #[trigger]
                    flat_outputs_within(f, &h0, *self, w) ==> v.vlen() <= i * w,
                cap as int == match capacity {
                    Some(c) => c as int,
                    None => self.slen() as int,
                },
            decreases n - i,
        {
            let id = html.get_id::<T>(start + i).unwrap();
            proof {
                html.lemma_aid_at::<T>(start + i);
                h0.lemma_aid_at::<T>(start + i);
                AId::<T>::lemma_eq(id, h0.aid_at::<T>(start + i));
            }
            let fl = f(id)?;
            let ghost hb = *html;
            proof {
                assert(fl.fits(&h0));
                if let Flat::Slice(s) = fl {
                    assert(hb.ids_view().subrange(s.sstart() as int, s.send()) =~= h0.ids_view().subrange(
                        s.sstart() as int,
                        s.send(),
                    ));
                }
                assert(fl.items(&hb) == fl.items(&h0));
                assert forall|w: nat| #[trigger] flat_outputs_within(f, &h0, *self, w) implies v.vlen()
                    + fl.count() <= (i + 1) * w && (i + 1) * w <= n * w by {
                    assert(fl.count() <= w);
                    assert((i + 1) * w == i * w + w) by (nonlinear_arith);
                    assert((i + 1) * w <= n * w) by (nonlinear_arith)
                        requires
                            i + 1 <= n,
                    ;
                }
            }
            proof {
                assert forall|w: nat| #[trigger] flat_outputs_within(f, &h0, *self, w) && l0 - cap
                    + 4 * n * w + 4 <= h0.ids_cap() implies html.ids_view().len() + 4 * v.vlen() - 2
                    * v.vcap() + 4 * fl.count() + 4 <= html.ids_cap() by {
                    assert(v.vlen() + fl.count() <= n * w);
                    assert(4 * n * w == 4 * (n * w)) by (nonlinear_arith);
                }
            }
            let ghost vb = v;
            v.push_flat(html, fl)?;
            proof {
                assert forall|w: nat| #[trigger] flat_outputs_within(f, &h0, *self, w) implies v.vlen()
                    <= (i + 1) * w by {
                    assert(vb.vlen() + fl.count() <= (i + 1) * w);
                }
                let outs2 = outs.push(fl);
                assert(outs2.drop_last() =~= outs);
                outs = outs2;
            }
            i = i + 1;
        }
        Ok(v)
    }
}

impl Element {
    /// The element with the body that `try_filter_map` gives for it.
    pub fn try_filter_map_body<F: Fn(AId<Node>) -> Result<Option<AId<Node>>, AhtmlError>>(
        &self,
        f: F,
        html: &mut HtmlAllocator,
    ) -> (r: Result<Element, AhtmlError>)
        requires
            old(html).wf(),
            self.body.send() <= old(html).ids_view().len(),
            forall|p: int|
                self.body.sstart() <= p < self.body.send() ==> call_requires(
                    f,
                    (old(html).aid_at::<Node>(p),),
                ),
            forall|x: AId<Node>, o: Result<Option<AId<Node>>, AhtmlError>|
                call_ensures(f, (x,), o) ==> (o matches Ok(Some(a)) ==> a.region() == old(
                    html,
                ).region()),
        ensures
            final(html).wf(),
            final(html).same_except_ids(old(html)),
            r matches Ok(e) ==> e.meta == self.meta && e.attr == self.attr && e.body.region()
                == old(html).region() && e.body.send() <= final(html).ids_view().len() && exists|
                outs: Seq<Option<AId<Node>>>,
            |
                {
                    &&& outs.len() == self.body.slen()
                    &&& forall|k: int|
                        0 <= k < outs.len() ==> call_ensures(
                            f,
                            (old(html).aid_at::<Node>(self.body.sstart() + k),),
                            Ok::<Option<AId<Node>>, AhtmlError>(#[trigger] outs[k]),
                        )
                    &&& final(html).ids_view().subrange(e.body.sstart() as int, e.body.send())
                        == somes(outs)
                },
            (forall|p: int, o: Result<Option<AId<Node>>, AhtmlError>|
                self.body.sstart() <= p < self.body.send() && #[trigger] call_ensures(
                    f,
                    (old(html).aid_at::<Node>(p),),
                    o,
                ) ==> o is Ok) && old(html).ids_view().len() + self.body.slen() <= old(
                html,
            ).ids_cap() ==> r is Ok,
    {
        let v = self.body.try_filter_map(f, None, html)?;
        Ok(Element { meta: self.meta, attr: self.attr, body: v.as_slice() })
    }

    /// The element with the body that `try_flat_map` gives for it.
    pub fn try_flat_map_body<F: Fn(AId<Node>) -> Result<Flat<Node>, AhtmlError>>(
        &self,
        f: F,
        html: &mut HtmlAllocator,
    ) -> (r: Result<Element, AhtmlError>)
        requires
            old(html).wf(),
            self.body.send() <= old(html).ids_view().len(),
            forall|p: int|
                self.body.sstart() <= p < self.body.send() ==> call_requires(
                    f,
                    (old(html).aid_at::<Node>(p),),
                ),
            forall|x: AId<Node>, o: Result<Flat<Node>, AhtmlError>|
                call_ensures(f, (x,), o) ==> (o matches Ok(fl) ==> fl.fits(old(html))),
        ensures
            final(html).wf(),
            final(html).same_except_ids(old(html)),
            r matches Ok(e) ==> e.meta == self.meta && e.attr == self.attr && e.body.region()
                == old(html).region() && e.body.send() <= final(html).ids_view().len() && exists|
                outs: Seq<Flat<Node>>,
            |
                {
                    &&& outs.len() == self.body.slen()
                    &&& forall|k: int|
                        0 <= k < outs.len() ==> call_ensures(
                            f,
                            (old(html).aid_at::<Node>(self.body.sstart() + k),),
                            Ok::<Flat<Node>, AhtmlError>(#[trigger] outs[k]),
                        )
                    &&& final(html).ids_view().subrange(e.body.sstart() as int, e.body.send())
                        == flat_items(old(html), outs)
                },
            forall|w: nat|
                #[trigger] flat_outputs_within(f, old(html), self.body, w) && old(
                    html,
                ).ids_view().len() + self.body.slen() <= old(html).ids_cap() && old(
                    html,
                ).ids_view().len() - self.body.slen() + 4 * self.body.slen() * w + 4 <= old(
                    html,
                ).ids_cap() ==> r is Ok,
    {
        let v = self.body.try_flat_map(f, None, html)?;
        Ok(Element { meta: self.meta, attr: self.attr, body: v.as_slice() })
    }
}

impl ASlice<Node> {
    /// The nodes of the slice, in order.
    pub fn iter_node<'a>(&self, html: &'a HtmlAllocator) -> (r: Vec<&'a Node>)
        requires
            html.wf(),
            node_slice_resolves(html, *self),
        ensures
            r@.len() == self.slen(),
            forall|k: int|
                0 <= k < self.slen() ==> *#[trigger] r@[k] == html.nodes_view()[html.ids_view()[self.sstart()
                    + k] as int]->0,
    {
        let mut v: Vec<&'a Node> = Vec::new();
        let start = self.start_pos();
        let n = self.len();
        let mut i: u32 = 0;
        while i < n
            invariant
                html.wf(),
                node_slice_resolves(html, *self),
                start == self.sstart(),
                n == self.slen(),
                i <= n,
                v@.len() == i,
                forall|k: int|
                    0 <= k < i ==> *#[trigger] v@[k] == html.nodes_view()[html.ids_view()[start
                        + k] as int]->0,
            decreases n - i,
        {
            let id = html.get_id::<Node>(start + i).unwrap();
            proof {
                html.lemma_aid_at::<Node>(start + i);
                assert(html.ids_view()[start + i] < html.nodes_view().len());
            }
            let node = html.get_node(id).unwrap();
            v.push(node);
            i = i + 1;
        }
        v
    }
}

impl ASlice<(String, String)> {
    /// The attributes of the slice, in order.
    pub fn iter_att<'a>(&self, html: &'a HtmlAllocator) -> (r: Vec<&'a (String, String)>)
        requires
            html.wf(),
            att_slice_resolves(html, *self),
        ensures
            r@.len() == self.slen(),
            forall|k: int|
                0 <= k < self.slen() ==> *#[trigger] r@[k] == html.atts_view()[html.ids_view()[self.sstart()
                    + k] as int]->0,
    {
        let mut v: Vec<&'a (String, String)> = Vec::new();
        let start = self.start_pos();
        let n = self.len();
        let mut i: u32 = 0;
        while i < n
            invariant
                html.wf(),
                att_slice_resolves(html, *self),
                start == self.sstart(),
                n == self.slen(),
                i <= n,
                v@.len() == i,
                forall|k: int|
                    0 <= k < i ==> *#[trigger] v@[k] == html.atts_view()[html.ids_view()[start
                        + k] as int]->0,
            decreases n - i,
        {
            let id = html.get_id::<(String, String)>(start + i).unwrap();
            proof {
                html.lemma_aid_at::<(String, String)>(start + i);
                assert(html.ids_view()[start + i] < html.atts_view().len());
            }
            let att = html.get_att(id).unwrap();
            v.push(att);
            i = i + 1;
        }
        v
    }
}

} // verus!
