//! Vector operations that stay within the capacity a vector already
//! has.

use vstd::prelude::*;

verus! {

/// One end of a range of positions.
#[derive(Debug, Clone, Copy, PartialEq, Eq, Structural)]
pub enum Bound {
    Included(usize),
    Excluded(usize),
    Unbounded,
}

/// A range of positions, as `a..b`, `a..=b`, `a..`, `..b`, `..=b` or
/// `..` write it.
#[derive(Debug, Clone, Copy, PartialEq, Eq, Structural)]
pub struct UsizeRange {
    pub start: Bound,
    pub end: Bound,
}

impl UsizeRange {
    /// `start..end`
    pub fn range(start: usize, end: usize) -> (r: Self)
        ensures
            r == (UsizeRange { start: Bound::Included(start), end: Bound::Excluded(end) }),
    {
        UsizeRange { start: Bound::Included(start), end: Bound::Excluded(end) }
    }

    /// `start..=end`
    pub fn range_inclusive(start: usize, end: usize) -> (r: Self)
        ensures
            r == (UsizeRange { start: Bound::Included(start), end: Bound::Included(end) }),
    {
        UsizeRange { start: Bound::Included(start), end: Bound::Included(end) }
    }

    /// `start..`
    pub fn range_from(start: usize) -> (r: Self)
        ensures
            r == (UsizeRange { start: Bound::Included(start), end: Bound::Unbounded }),
    {
        UsizeRange { start: Bound::Included(start), end: Bound::Unbounded }
    }

    /// `..end`
    pub fn range_to(end: usize) -> (r: Self)
        ensures
            r == (UsizeRange { start: Bound::Unbounded, end: Bound::Excluded(end) }),
    {
        UsizeRange { start: Bound::Unbounded, end: Bound::Excluded(end) }
    }

    /// `..=end`
    pub fn range_to_inclusive(end: usize) -> (r: Self)
        ensures
            r == (UsizeRange { start: Bound::Unbounded, end: Bound::Included(end) }),
    {
        UsizeRange { start: Bound::Unbounded, end: Bound::Included(end) }
    }

    /// `..`
    pub fn full() -> (r: Self)
        ensures
            r == (UsizeRange { start: Bound::Unbounded, end: Bound::Unbounded }),
    {
        UsizeRange { start: Bound::Unbounded, end: Bound::Unbounded }
    }

    /// The first position of the range.
    pub open spec fn first(self) -> int {
        match self.start {
            Bound::Included(a) => a as int,
            Bound::Excluded(a) => a + 1,
            Bound::Unbounded => 0,
        }
    }

    /// The position after the range, where an open end is `end_excl`.
    pub open spec fn after(self, end_excl: usize) -> int {
        match self.end {
            Bound::Included(e) => e + 1,
            Bound::Excluded(e) => e as int,
            Bound::Unbounded => end_excl as int,
        }
    }

    /// The range can be measured: it does not start with an excluded
    /// bound, and does not end before it starts.
    pub open spec fn measurable(self, end_excl: usize) -> bool {
        &&& !(self.start is Excluded)
        &&& match self.end {
            Bound::Included(e) => self.first() <= e < usize::MAX,
            Bound::Excluded(e) => self.first() <= e,
            Bound::Unbounded => self.first() <= end_excl,
        }
    }
}

/// The number of positions in `range`, where an open end stands for
/// `end_excl`.
pub fn usize_range_len(range: &UsizeRange, end_excl: usize) -> (r: usize)
    requires
        range.measurable(end_excl),
    ensures
        r == range.after(end_excl) - range.first(),
{
    let start = match range.start {
        Bound::Included(a) => a,
        Bound::Excluded(_) => 0,
        Bound::Unbounded => 0,
    };
    match range.end {
        Bound::Included(e_incl) => (e_incl - start) + 1,
        Bound::Excluded(e_excl) => e_excl - start,
        Bound::Unbounded => end_excl - start,
    }
}

/// `Vec::capacity`: at least the length.
#[verifier::external_body]
fn vec_capacity<T>(v: &Vec<T>) -> (r: usize)
    ensures
        r >= v@.len(),
{
    v.capacity()
}

pub trait MoreVec<T>: Sized {
    spec fn items(&self) -> Seq<T>;

    /// Appends `value` if that needs no new allocation; hands it back
    /// otherwise.
    fn push_within_capacity_(&mut self, value: T) -> (r: Result<(), T>)
        ensures
            r is Ok ==> final(self).items() == old(self).items().push(value),
            r matches Err(v) ==> v == value && final(self).items() == old(self).items(),
    ;

    /// Appends clones of the items at the positions `src`, if that needs
    /// no new allocation; fails otherwise. Whether the allocation at hand
    /// has room is up to the allocator, except for an empty range, which
    /// needs none.
    fn extend_from_within_within_capacity(&mut self, src: UsizeRange) -> (r: Result<(), ()>) where
        T: Clone,
        requires
            src.measurable(old(self).items().len() as usize),
            src.after(old(self).items().len() as usize) <= old(self).items().len(),
        ensures
            r is Err ==> final(self).items() == old(self).items(),
            src.after(old(self).items().len() as usize) == src.first() ==> r is Ok,
            r is Ok ==> {
                let n = old(self).items().len();
                let a = src.first();
                let e = src.after(n as usize);
                &&& final(self).items().len() == n + (e - a)
                &&& final(self).items().take(n as int) == old(self).items()
                &&& forall|k: int|
                    0 <= k < e - a ==> cloned(
                        old(self).items()[a + k],
                        #[trigger] final(self).items()[n + k],
                    )
            },
    ;
}

impl<T> MoreVec<T> for Vec<T> {
    open spec fn items(&self) -> Seq<T> {
        self@
    }

    fn push_within_capacity_(&mut self, value: T) -> (r: Result<(), T>) {
        if self.len() < vec_capacity(self) {
            self.push(value);
            Ok(())
        } else {
            Err(value)
        }
    }

    fn extend_from_within_within_capacity(&mut self, src: UsizeRange) -> (r: Result<(), ()>) where
        T: Clone,
     {
        let len = self.len();
        let additional_len = usize_range_len(&src, len);
        let cap = vec_capacity(self);
        if additional_len > cap - len {
            return Err(());
        }
        let a: usize = match src.start {
            Bound::Included(a) => a,
            Bound::Excluded(_) => 0,
            Bound::Unbounded => 0,
        };
        let ghost orig = self@;
        let mut k: usize = 0;
        while k < additional_len
            invariant
                len == orig.len(),
                a == src.first(),
                a + additional_len <= len,
                k <= additional_len,
                self@.len() == len + k,
                self@.take(len as int) == orig,
                forall|j: int| 0 <= j < k ==> cloned(orig[a + j], #[trigger] self@[len + j]),
            decreases additional_len - k,
        {
            let c = self[a + k].clone();
            proof {
                assert(self@[a + k] == orig[a + k]) by {
                    assert(self@.take(len as int)[a + k] == self@[a + k]);
                }
            }
            self.push(c);
            proof {
                assert(self@.take(len as int) =~= orig);
            }
            k = k + 1;
        }
        Ok(())
    }
}

} // verus!
