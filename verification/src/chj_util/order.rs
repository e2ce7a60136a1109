//! Ordering strings by their bytes (as `str`'s `Ord` does), sorting
//! positions by such keys, and keeping one of each run of equal keys.

use vstd::prelude::*;

use crate::chj_util::time_guard::bytes_eq;

verus! {

/// `a` sorts before `b` or equals it, comparing byte by byte.
pub open spec fn bytes_le(a: Seq<u8>, b: Seq<u8>) -> bool
    decreases a.len(),
{
    if a.len() == 0 {
        true
    } else if b.len() == 0 {
        false
    } else if a[0] != b[0] {
        a[0] < b[0]
    } else {
        bytes_le(a.drop_first(), b.drop_first())
    }
}

/// Whether `a` sorts before `b` or equals it.
pub fn bytes_le_exec(a: &[u8], b: &[u8]) -> (r: bool)
    ensures
        r == bytes_le(a@, b@),
{
    let mut i: usize = 0;
    assert(a@.skip(0) =~= a@);
    assert(b@.skip(0) =~= b@);
    while i < a.len() && i < b.len()
        invariant
            i <= a@.len(),
            i <= b@.len(),
            bytes_le(a@, b@) == bytes_le(a@.skip(i as int), b@.skip(i as int)),
        decreases a@.len() - i,
    {
        if a[i] != b[i] {
            return a[i] < b[i];
        }
        assert(a@.skip(i as int).drop_first() =~= a@.skip(i + 1));
        assert(b@.skip(i as int).drop_first() =~= b@.skip(i + 1));
        i = i + 1;
    }
    i == a.len()
}

/// The position in `idx` (among its first `n`) of the first index
/// whose key is least.
pub open spec fn min_pos(keys: Seq<Seq<u8>>, idx: Seq<int>, n: int) -> int
    decreases n,
{
    if n <= 1 {
        0
    } else {
        let m = min_pos(keys, idx, n - 1);
        if !bytes_le(keys[idx[m]], keys[idx[n - 1]]) {
            n - 1
        } else {
            m
        }
    }
}

pub proof fn lemma_min_pos(keys: Seq<Seq<u8>>, idx: Seq<int>, n: int)
    requires
        n >= 1,
    ensures
        0 <= min_pos(keys, idx, n) < n,
    decreases n,
{
    if n > 1 {
        lemma_min_pos(keys, idx, n - 1);
    }
}

/// The indices `idx` ordered by their keys; of equal keys, the one
/// earlier in `idx` comes first.
pub open spec fn sel_sort(keys: Seq<Seq<u8>>, idx: Seq<int>) -> Seq<int>
    decreases idx.len(),
{
    if idx.len() == 0 {
        Seq::empty()
    } else {
        let m = min_pos(keys, idx, idx.len() as int);
        proof {
            lemma_min_pos(keys, idx, idx.len() as int);
        }
        seq![idx[m]] + sel_sort(keys, idx.remove(m))
    }
}

/// The positions `ps`, leaving out each whose key equals the next
/// one's (of a run of equal keys, the last stays).
pub open spec fn keep_last(keys: Seq<Seq<u8>>, ps: Seq<int>) -> Seq<int>
    decreases ps.len(),
{
    if ps.len() == 0 {
        Seq::empty()
    } else if ps.len() == 1 {
        ps
    } else {
        let rest = keep_last(keys, ps.drop_first());
        if keys[ps[0]] == keys[ps[1]] {
            rest
        } else {
            seq![ps[0]] + rest
        }
    }
}

pub open spec fn keys_view(keys: Seq<Vec<u8>>) -> Seq<Seq<u8>> {
    keys.map_values(|k: Vec<u8>| k@)
}

pub open spec fn ints(v: Seq<usize>) -> Seq<int> {
    v.map_values(|x: usize| x as int)
}

/// The positions `0 .. keys.len()`, ordered by key (stably), keeping
/// only the last of each run of equal keys.
pub open spec fn sorted_unique(keys: Seq<Seq<u8>>) -> Seq<int> {
    keep_last(keys, sel_sort(keys, Seq::new(keys.len(), |i: int| i)))
}

/// The positions of `keys`, ordered by key, each key once (the last
/// position it has among those of equal keys).
pub fn sorted_unique_positions(keys: &Vec<Vec<u8>>) -> (r: Vec<usize>)
    ensures
        ints(r@) == sorted_unique(keys_view(keys@)),
        forall|i: int| 0 <= i < r@.len() ==> r@[i] < keys@.len(),
{
    let ghost kv = keys_view(keys@);
    let n = keys.len();
    let mut rest: Vec<usize> = Vec::new();
    let mut i: usize = 0;
    while i < n
        invariant
            i <= n,
            n == keys@.len(),
            ints(rest@) =~= Seq::new(i as nat, |j: int| j),
        decreases n - i,
    {
        let ghost before = rest@;
        rest.push(i);
        assert(ints(rest@) =~= ints(before).push(i as int));
        i = i + 1;
    }
    let ghost all = ints(rest@);
    assert forall|j: int| 0 <= j < rest@.len() implies rest@[j] < n by {
        assert(ints(rest@)[j] == j);
    }
    let mut sorted: Vec<usize> = Vec::new();
    while rest.len() > 0
        invariant
            kv == keys_view(keys@),
            n == keys@.len(),
            forall|j: int| 0 <= j < rest@.len() ==> rest@[j] < n,
            forall|j: int| 0 <= j < sorted@.len() ==> sorted@[j] < n,
            ints(sorted@) + sel_sort(kv, ints(rest@)) == sel_sort(kv, all),
        decreases rest@.len(),
    {
        let ghost ri = ints(rest@);
        let mut m: usize = 0;
        let mut j: usize = 1;
        while j < rest.len()
            invariant
                kv == keys_view(keys@),
                ri == ints(rest@),
                1 <= j <= rest@.len(),
                forall|q: int| 0 <= q < rest@.len() ==> rest@[q] < n,
                n == keys@.len(),
                m as int == min_pos(kv, ri, j as int),
                m < j,
            decreases rest@.len() - j,
        {
            proof {
                lemma_min_pos(kv, ri, j as int);
            }
            let km = &keys[rest[m]];
            let kj = &keys[rest[j]];
            proof {
                assert(kv[ri[m as int]] == km@);
                assert(kv[ri[j as int]] == kj@);
            }
            if !bytes_le_exec(km.as_slice(), kj.as_slice()) {
                m = j;
            }
            j = j + 1;
        }
        proof {
            lemma_min_pos(kv, ri, ri.len() as int);
        }
        let p = rest.remove(m);
        proof {
            assert(ints(rest@) =~= ri.remove(m as int));
        }
        let ghost before = ints(sorted@);
        sorted.push(p);
        proof {
            assert(ints(sorted@) =~= before.push(p as int));
            assert(sel_sort(kv, ri) == seq![ri[m as int]] + sel_sort(kv, ri.remove(m as int)));
            assert(before.push(p as int) + sel_sort(kv, ri.remove(m as int)) =~= before + (seq![ri[m as int]] + sel_sort(kv, ri.remove(m as int))));
        }
    }
    proof {
        assert(ints(rest@) =~= Seq::<int>::empty());
        assert(ints(sorted@) + Seq::<int>::empty() =~= ints(sorted@));
        assert(all =~= Seq::new(kv.len(), |j: int| j));
    }
    let ghost ps = ints(sorted@);
    let mut out: Vec<usize> = Vec::new();
    let ns = sorted.len();
    let mut k: usize = 0;
    proof {
        assert(ps.skip(0) =~= ps);
    }
    while k < ns
        invariant
            kv == keys_view(keys@),
            ps == ints(sorted@),
            ns == sorted@.len(),
            n == keys@.len(),
            k <= ns,
            forall|j: int| 0 <= j < sorted@.len() ==> sorted@[j] < n,
            forall|j: int| 0 <= j < out@.len() ==> out@[j] < n,
            ints(out@) + keep_last(kv, ps.skip(k as int)) == keep_last(kv, ps),
        decreases ns - k,
    {
        let ghost before = ints(out@);
        let ghost tail = ps.skip(k as int);
        proof {
            assert(tail.drop_first() =~= ps.skip(k + 1));
        }
        let keep = if k + 1 == ns {
            true
        } else {
            let a = &keys[sorted[k]];
            let b = &keys[sorted[k + 1]];
            proof {
                assert(tail[0] == sorted@[k as int] as int);
                assert(tail[1] == sorted@[k + 1] as int);
                assert(kv[tail[0]] == a@);
                assert(kv[tail[1]] == b@);
            }
            !bytes_eq(a.as_slice(), b.as_slice())
        };
        if keep {
            out.push(sorted[k]);
            proof {
                assert(ints(out@) =~= before.push(sorted@[k as int] as int));
                if k + 1 == ns {
                    assert(tail =~= seq![sorted@[k as int] as int]);
                    assert(ps.skip(k + 1) =~= Seq::<int>::empty());
                }
                assert(before.push(sorted@[k as int] as int) + keep_last(kv, ps.skip(k + 1)) =~= before + (seq![tail[0]] + keep_last(kv, tail.drop_first())));
            }
        }
        k = k + 1;
    }
    proof {
        assert(ps.skip(ns as int) =~= Seq::<int>::empty());
        assert(ints(out@) + Seq::<int>::empty() =~= ints(out@));
    }
    out
}

} // verus!
