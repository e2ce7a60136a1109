//! Cons list over references: each list borrows its rest.

use vstd::prelude::*;

verus! {

pub enum List<'t, T> {
    Pair(T, &'t List<'t, T>),
    Null,
}

impl<'t, T> View for List<'t, T> {
    type V = Seq<T>;

    /// The values, first to last.
    open spec fn view(&self) -> Seq<T> {
        self.values()
    }
}

impl<'t, T> List<'t, T> {
    pub open spec fn values(&self) -> Seq<T>
        decreases self,
    {
        match self {
            List::Pair(v, r) => seq![*v] + r.values(),
            List::Null => Seq::empty(),
        }
    }

    pub fn len(&self) -> (r: usize)
        requires
            self@.len() <= usize::MAX,
        ensures
            r == self@.len(),
        decreases self,
    {
        match self {
            List::Pair(_, r) => r.len() + 1,
            List::Null => 0,
        }
    }

    pub fn first(&self) -> (r: Option<&T>)
        ensures
            r matches Some(v) ==> self@.len() > 0 && *v == self@[0],
            r is None <==> self@.len() == 0,
    {
        match self {
            List::Pair(v, _) => Some(v),
            List::Null => None,
        }
    }

    pub fn rest(&self) -> (r: Option<&List<'t, T>>)
        ensures
            r matches Some(l) ==> self@.len() > 0 && l@ == self@.drop_first(),
            r is None <==> self@.len() == 0,
    {
        match self {
            List::Pair(_, r) => {
                assert(self@.drop_first() =~= r@);
                Some(r)
            },
            List::Null => None,
        }
    }

    pub fn last(&self) -> (r: Option<&T>)
        ensures
            r matches Some(v) ==> self@.len() > 0 && *v == self@.last(),
            r is None <==> self@.len() == 0,
        decreases self,
    {
        match self {
            List::Pair(v, List::Null) => Some(v),
            List::Pair(v, r) => {
                let l = r.last();
                proof {
                    assert(r@.len() > 0);
                    assert((seq![*v] + r@).last() == r@.last());
                }
                l
            },
            List::Null => None,
        }
    }

    /// All the values, as references, first to last.
    pub fn as_ref_vec(&self) -> (r: Vec<&T>)
        ensures
            r@.len() == self@.len(),
            forall|i: int| 0 <= i < r@.len() ==> *#[trigger] r@[i] == self@[i],
    {
        let mut vs: Vec<&T> = Vec::new();
        let mut r = self;
        loop
            invariant
                vs@.len() + r@.len() == self@.len(),
                forall|i: int| 0 <= i < vs@.len() ==> *#[trigger] vs@[i] == self@[i],
                r@ == self@.skip(vs@.len() as int),
            ensures
                vs@.len() == self@.len(),
                forall|i: int| 0 <= i < vs@.len() ==> *#[trigger] vs@[i] == self@[i],
            decreases r@.len(),
        {
            match r {
                List::Pair(v, r2) => {
                    proof {
                        assert(self@.skip(vs@.len() as int)[0] == self@[vs@.len() as int]);
                        assert(self@.skip((vs@.len() + 1) as int) =~= self@.skip(vs@.len() as int).drop_first());
                    }
                    vs.push(v);
                    r = r2;
                },
                List::Null => break,
            }
        }
        vs
    }

    /// All the values, cloned, first to last.
    pub fn to_vec(&self) -> (r: Vec<T>) where T: Clone
        ensures
            r@.len() == self@.len(),
            forall|i: int| 0 <= i < r@.len() ==> cloned(self@[i], #[trigger] r@[i]),
    {
        let mut vs: Vec<T> = Vec::new();
        let mut r = self;
        loop
            invariant
                vs@.len() + r@.len() == self@.len(),
                forall|i: int| 0 <= i < vs@.len() ==> cloned(self@[i], #[trigger] vs@[i]),
                r@ == self@.skip(vs@.len() as int),
            ensures
                vs@.len() == self@.len(),
                forall|i: int| 0 <= i < vs@.len() ==> cloned(self@[i], #[trigger] vs@[i]),
            decreases r@.len(),
        {
            match r {
                List::Pair(v, r2) => {
                    proof {
                        assert(self@.skip(vs@.len() as int)[0] == self@[vs@.len() as int]);
                        assert(self@.skip((vs@.len() + 1) as int) =~= self@.skip(vs@.len() as int).drop_first());
                    }
                    let c = v.clone();
                    vs.push(c);
                    r = r2;
                },
                List::Null => break,
            }
        }
        vs
    }
}

/// The list with `v` in front of `r`.
pub fn cons<'l, T>(v: T, r: &'l List<'l, T>) -> (l: List<'l, T>)
    ensures
        l@ == seq![v] + r@,
{
    List::Pair(v, r)
}

} // verus!
