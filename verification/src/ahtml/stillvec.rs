//! A vector with a fixed capacity limit: its slots never move, and
//! pushing never goes beyond the capacity given at creation.

use vstd::prelude::*;

verus! {

pub struct StillVec<T> {
    v: Vec<T>,
    cap: usize,
}

impl<T> View for StillVec<T> {
    type V = Seq<T>;

    closed spec fn view(&self) -> Seq<T> {
        self.v@
    }
}

impl<T> StillVec<T> {
    /// The capacity limit.
    pub closed spec fn spec_cap(&self) -> nat {
        self.cap as nat
    }

    /// The length stays within the capacity limit.
    pub open spec fn wf(&self) -> bool {
        self@.len() <= self.spec_cap()
    }

    pub fn with_capacity(cap: usize) -> (r: Self)
        ensures
            r@ == Seq::<T>::empty(),
            r.spec_cap() == cap,
            r.wf(),
    {
        StillVec { v: Vec::with_capacity(cap), cap }
    }

    pub fn len(&self) -> (r: usize)
        ensures
            r == self@.len(),
    {
        self.v.len()
    }

    pub fn capacity(&self) -> (r: usize)
        ensures
            r == self.spec_cap(),
    {
        self.cap
    }

    /// Pushes `value` if that stays within the capacity limit, else
    /// hands it back.
    pub fn push_within_capacity_(&mut self, value: T) -> (r: Result<(), T>)
        requires
            old(self).wf(),
        ensures
            final(self).wf(),
            final(self).spec_cap() == old(self).spec_cap(),
            old(self)@.len() < old(self).spec_cap() ==> r is Ok && final(self)@ == old(self)@.push(value),
            old(self)@.len() >= old(self).spec_cap() ==> r == Err::<(), T>(value) && *final(self) == *old(self),
    {
        if self.v.len() < self.cap {
            self.v.push(value);
            Ok(())
        } else {
            Err(value)
        }
    }

    pub fn get(&self, i: usize) -> (r: Option<&T>)
        ensures
            i < self@.len() ==> r == Some(&self@[i as int]),
            i >= self@.len() ==> r is None,
    {
        if i < self.v.len() {
            Some(&self.v[i])
        } else {
            None
        }
    }

    /// Removes all items; the capacity limit stays.
    pub fn exclusive_clear(&mut self)
        ensures
            final(self)@ == Seq::<T>::empty(),
            final(self).spec_cap() == old(self).spec_cap(),
            final(self).wf(),
    {
        self.v.clear();
    }
}

} // verus!
