//! Passing zero, one, two or a slice of ids as one value.

use vstd::prelude::*;

use super::allocator::{AhtmlError, AId, ASlice, AVec, HtmlAllocator};

verus! {

/// Zero, one, two or a slice of ids, for code paths that produce
/// different numbers of items.
pub enum Flat<T> {
    Empty,
    One(AId<T>),
    Two(AId<T>, AId<T>),
    Slice(ASlice<T>),
}

impl<T> Flat<T> {
    /// The ids can be stored into `html`'s vectors.
    pub open spec fn fits(&self, html: &HtmlAllocator) -> bool {
        match *self {
            Flat::Empty => true,
            Flat::One(a) => a.region() == html.region(),
            Flat::Two(a, b) => a.region() == html.region() && b.region() == html.region(),
            Flat::Slice(s) => s.send() <= html.ids_view().len(),
        }
    }

    /// How many ids there are.
    pub open spec fn count(&self) -> nat {
        match *self {
            Flat::Empty => 0,
            Flat::One(_) => 1,
            Flat::Two(_, _) => 2,
            Flat::Slice(s) => s.slen() as nat,
        }
    }

    /// The ids, in order (the slice's ids as `html` holds them).
    pub open spec fn items(&self, html: &HtmlAllocator) -> Seq<u32> {
        match *self {
            Flat::Empty => Seq::empty(),
            Flat::One(a) => seq![a.bare()],
            Flat::Two(a, b) => seq![a.bare(), b.bare()],
            Flat::Slice(s) => html.ids_view().subrange(s.sstart() as int, s.send()),
        }
    }
}

/// Conversion to a slice of ids stored in an allocator.
pub trait ToASlice<T>: Sized {
    /// The value can be converted using `html`.
    spec fn fits_in(&self, html: &HtmlAllocator) -> bool;

    fn to_aslice(self, html: &mut HtmlAllocator) -> (r: Result<ASlice<T>, AhtmlError>)
        requires
            old(html).wf(),
            self.fits_in(old(html)),
        ensures
            final(html).wf(),
            final(html).same_except_ids(old(html)),
            r is Err ==> r == Err::<ASlice<T>, AhtmlError>(AhtmlError::OutOfMemory),
    ;
}

impl<T> ToASlice<T> for ASlice<T> {
    open spec fn fits_in(&self, html: &HtmlAllocator) -> bool {
        true
    }

    fn to_aslice(self, html: &mut HtmlAllocator) -> (r: Result<ASlice<T>, AhtmlError>)
        ensures
            r == Ok::<ASlice<T>, AhtmlError>(self),
            *final(html) == *old(html),
    {
        Ok(self)
    }
}

impl<T> ToASlice<T> for AVec<T> {
    open spec fn fits_in(&self, html: &HtmlAllocator) -> bool {
        true
    }

    fn to_aslice(self, html: &mut HtmlAllocator) -> (r: Result<ASlice<T>, AhtmlError>)
        ensures
            r matches Ok(s) && s.region() == self.region() && s.sstart() == self.vstart()
                && s.slen() == self.vlen(),
            *final(html) == *old(html),
    {
        Ok(self.as_slice())
    }
}

impl<T> ToASlice<T> for AId<T> {
    open spec fn fits_in(&self, html: &HtmlAllocator) -> bool {
        self.region() == html.region()
    }

    fn to_aslice(self, html: &mut HtmlAllocator) -> (r: Result<ASlice<T>, AhtmlError>)
        ensures
            r matches Ok(s) ==> s.region() == old(html).region() && final(html).ids_view().subrange(
                s.sstart() as int,
                s.send(),
            ) == seq![self.bare()],
    {
        let mut vec: AVec<T> = html.new_vec();
        vec.push(html, self)?;
        Ok(vec.as_slice())
    }
}

impl<T> ToASlice<T> for Flat<T> {
    open spec fn fits_in(&self, html: &HtmlAllocator) -> bool {
        self.fits(html)
    }

    fn to_aslice(self, html: &mut HtmlAllocator) -> (r: Result<ASlice<T>, AhtmlError>)
        ensures
            r matches Ok(s) ==> s.region() == old(html).region() && final(html).ids_view().subrange(
                s.sstart() as int,
                s.send(),
            ) == self.items(old(html)) || self is Slice,
            self matches Flat::Slice(sl) ==> r == Ok::<ASlice<T>, AhtmlError>(sl),
    {
        match self {
            Flat::Empty => {
                let s = html.empty_slice();
                assert(html.ids_view().subrange(0, 0) =~= Seq::<u32>::empty());
                Ok(s)
            },
            Flat::One(a) => {
                let mut v: AVec<T> = html.new_vec();
                v.push(html, a)?;
                Ok(v.as_slice())
            },
            Flat::Two(a, b) => {
                let mut v: AVec<T> = html.new_vec();
                v.push(html, a)?;
                v.push(html, b)?;
                assert(v.contents(html) =~= seq![a.bare(), b.bare()]);
                Ok(v.as_slice())
            },
            Flat::Slice(sl) => Ok(sl),
        }
    }
}

impl<T> AVec<T> {
    /// Appends the ids of `flat`.
    pub fn push_flat(&mut self, html: &mut HtmlAllocator, flat: Flat<T>) -> (r: Result<(), AhtmlError>)
        requires
            old(html).wf(),
            old(self).wf_in(old(html)),
            flat.fits(old(html)),
        ensures
            final(html).wf(),
            final(html).same_except_ids(old(html)),
            old(html).ids_view().len() <= final(html).ids_view().len(),
            forall|p: int|
                0 <= p < old(html).ids_view().len() && !(old(self).vstart() <= p < old(self).vstart()
                    + old(self).vcap()) ==> #[trigger] final(html).ids_view()[p] == old(html).ids_view()[p],
            final(self).region() == old(self).region(),
            (final(self).vstart() == old(self).vstart() && final(self).vcap() == old(self).vcap())
                || final(self).vstart() >= old(html).ids_view().len(),
            r is Err ==> r == Err::<(), AhtmlError>(AhtmlError::OutOfMemory),
            old(html).ids_view().len() + 4 * old(self).vlen() - 2 * old(self).vcap() + 4
                * flat.count() + 4 <= old(html).ids_cap() ==> r is Ok,
            r is Ok ==> final(self).vlen() == old(self).vlen() + flat.count(),
            r is Ok ==> final(html).ids_view().len() - 2 * final(self).vcap() <= old(
                html,
            ).ids_view().len() - 2 * old(self).vcap(),
            r is Ok ==> final(self).wf_in(final(html)),
            r is Ok && !(flat is Slice) ==> final(self).contents(final(html)) == old(self).contents(old(html)) + flat.items(old(html)),
            r is Ok && (flat matches Flat::Slice(s) && (s.send() <= old(self).vstart() + old(self).vlen()
                || old(self).vstart() + old(self).vcap() <= s.sstart())) ==> final(self).contents(final(html))
                == old(self).contents(old(html)) + flat.items(old(html)),
    {
        match flat {
            Flat::Empty => {
                assert(self.contents(html) =~= old(self).contents(old(html)) + Seq::<u32>::empty());
                Ok(())
            },
            Flat::One(aid) => {
                self.push(html, aid)?;
                assert(self.contents(html) =~= old(self).contents(old(html)) + seq![aid.bare()]);
                Ok(())
            },
            Flat::Two(a, b) => {
                self.push(html, a)?;
                self.push(html, b)?;
                assert(self.contents(html) =~= old(self).contents(old(html)) + seq![a.bare(), b.bare()]);
                Ok(())
            },
            Flat::Slice(slice) => self.extend_from_slice(&slice, html),
        }
    }
}

} // verus!
