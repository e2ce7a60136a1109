//! Taking a slice apart at its first item.

use vstd::prelude::*;

verus! {

pub fn first<T>(items: &[T]) -> (r: Option<&T>)
    ensures
        r matches Some(v) ==> items@.len() > 0 && *v == items@[0],
        r is None <==> items@.len() == 0,
{
    if items.len() > 0 {
        Some(&items[0])
    } else {
        None
    }
}

pub fn rest<T>(items: &[T]) -> (r: Option<&[T]>)
    ensures
        r matches Some(s) ==> items@.len() > 0 && s@ == items@.drop_first(),
        r is None <==> items@.len() == 0,
{
    if items.len() > 0 {
        let (_, r) = items.split_at(1);
        Some(r)
    } else {
        None
    }
}

pub fn first_and_rest<T>(items: &[T]) -> (r: Option<(&T, &[T])>)
    ensures
        r matches Some((v, s)) ==> items@.len() > 0 && *v == items@[0] && s@
            == items@.drop_first(),
        r is None <==> items@.len() == 0,
{
    if items.len() > 0 {
        let (_, r) = items.split_at(1);
        Some((&items[0], r))
    } else {
        None
    }
}

/// The first item followed by the rest is the slice again.
pub proof fn lemma_first_rest<T>(items: Seq<T>)
    requires
        items.len() > 0,
    ensures
        seq![items[0]] + items.drop_first() == items,
{
    assert(seq![items[0]] + items.drop_first() =~= items);
}

} // verus!
