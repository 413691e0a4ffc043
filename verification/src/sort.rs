//! A stable-by-construction merge sort over `(major, minor)` keys.
use vstd::prelude::*;

verus! {

/// Lexicographic order on `(major, minor)` keys.
pub open spec fn key_le(a: (u128, usize), b: (u128, usize)) -> bool {
    a.0 < b.0 || (a.0 == b.0 && a.1 <= b.1)
}

/// Strict lexicographic order on `(major, minor)` keys.
pub open spec fn key_lt(a: (u128, usize), b: (u128, usize)) -> bool {
    a.0 < b.0 || (a.0 == b.0 && a.1 < b.1)
}

/// `s` is in non-decreasing lexicographic order.
pub open spec fn keys_sorted(s: Seq<(u128, usize)>) -> bool {
    forall|i: int, j: int| 0 <= i < j < s.len() ==> key_le(#[trigger] s[i], #[trigger] s[j])
}

fn key_le_exec(a: (u128, usize), b: (u128, usize)) -> (r: bool)
    ensures
        r == key_le(a, b),
{
    a.0 < b.0 || (a.0 == b.0 && a.1 <= b.1)
}

/// Merges two sorted key sequences into one sorted sequence holding both.
fn merge(a: &Vec<(u128, usize)>, b: &Vec<(u128, usize)>) -> (r: Vec<(u128, usize)>)
    requires
        keys_sorted(a@),
        keys_sorted(b@),
    ensures
        keys_sorted(r@),
        r@.to_multiset() == a@.to_multiset().add(b@.to_multiset()),
{
    broadcast use vstd::seq_lib::group_to_multiset_ensures;
    broadcast use vstd::multiset::group_multiset_axioms;

    let mut r: Vec<(u128, usize)> = Vec::new();
    let mut i: usize = 0;
    let mut j: usize = 0;
    while i < a.len() || j < b.len()
        invariant
            i <= a.len(),
            j <= b.len(),
            keys_sorted(a@),
            keys_sorted(b@),
            keys_sorted(r@),
            r@.len() == i + j,
            r@.to_multiset() == a@.subrange(0, i as int).to_multiset().add(
                b@.subrange(0, j as int).to_multiset(),
            ),
            r@.len() > 0 && i < a.len() ==> key_le(r@.last(), a@[i as int]),
            r@.len() > 0 && j < b.len() ==> key_le(r@.last(), b@[j as int]),
        decreases a.len() + b.len() - i - j,
    {
        let take_a = if i < a.len() && j < b.len() {
            key_le_exec(a[i], b[j])
        } else {
            i < a.len()
        };
        let ghost old_r = r@;
        if take_a {
            let x = a[i];
            let ghost ai = a@.subrange(0, i as int);
            let ghost bj = b@.subrange(0, j as int);
            assert(a@.subrange(0, i + 1) =~= ai.push(x));
            r.push(x);
            assert(r@ =~= old_r.push(x));
            proof { vstd::seq_lib::to_multiset_build(old_r, x); }
            proof { vstd::seq_lib::to_multiset_build(ai, x); }
            assert(ai.to_multiset().add(bj.to_multiset()).insert(x) =~= ai.to_multiset().insert(
                x,
            ).add(bj.to_multiset()));
            i = i + 1;
        } else {
            let x = b[j];
            let ghost ai = a@.subrange(0, i as int);
            let ghost bj = b@.subrange(0, j as int);
            assert(b@.subrange(0, j + 1) =~= bj.push(x));
            r.push(x);
            assert(r@ =~= old_r.push(x));
            proof { vstd::seq_lib::to_multiset_build(old_r, x); }
            proof { vstd::seq_lib::to_multiset_build(bj, x); }
            assert(ai.to_multiset().add(bj.to_multiset()).insert(x) =~= ai.to_multiset().add(
                bj.to_multiset().insert(x),
            ));
            j = j + 1;
        }
        assert(r@ =~= old_r.push(r@.last()));
        assert forall|p: int, q: int| 0 <= p < q < r@.len() implies key_le(
            #[trigger] r@[p],
            #[trigger] r@[q],
        ) by {
            if q == r@.len() - 1 && p < q {
                assert(key_le(old_r[p], old_r.last()));
            }
        }
    }
    assert(a@.subrange(0, a@.len() as int) =~= a@);
    assert(b@.subrange(0, b@.len() as int) =~= b@);
    r
}

fn sort_range(v: &Vec<(u128, usize)>, lo: usize, hi: usize) -> (r: Vec<(u128, usize)>)
    requires
        lo <= hi <= v.len(),
    ensures
        keys_sorted(r@),
        r@.to_multiset() == v@.subrange(lo as int, hi as int).to_multiset(),
    decreases hi - lo,
{
    broadcast use vstd::seq_lib::group_to_multiset_ensures;
    broadcast use vstd::multiset::group_multiset_axioms;

    if hi - lo <= 1 {
        let mut r: Vec<(u128, usize)> = Vec::new();
        if hi - lo == 1 {
            r.push(v[lo]);
            assert(v@.subrange(lo as int, hi as int) =~= Seq::<(u128, usize)>::empty().push(
                v@[lo as int],
            ));
        } else {
            assert(v@.subrange(lo as int, hi as int) =~= Seq::<(u128, usize)>::empty());
        }
        r
    } else {
        let mid = lo + (hi - lo) / 2;
        let a = sort_range(v, lo, mid);
        let b = sort_range(v, mid, hi);
        let r = merge(&a, &b);
        proof {
            let s = v@.subrange(lo as int, hi as int);
            assert(s =~= v@.subrange(lo as int, mid as int) + v@.subrange(mid as int, hi as int));
            vstd::seq_lib::lemma_multiset_commutative(
                v@.subrange(lo as int, mid as int),
                v@.subrange(mid as int, hi as int),
            );
        }
        r
    }
}

/// Sorts keys into lexicographic order.
///
/// The result is a permutation of the input (the same multiset of keys)
/// in non-decreasing lexicographic order.
pub fn sort_keys(v: &Vec<(u128, usize)>) -> (r: Vec<(u128, usize)>)
    ensures
        keys_sorted(r@),
        r@.to_multiset() == v@.to_multiset(),
        r@.len() == v@.len(),
{
    broadcast use vstd::seq_lib::group_to_multiset_ensures;

    let r = sort_range(v, 0, v.len());
    assert(v@.subrange(0, v@.len() as int) =~= v@);
    assert(r@.len() == r@.to_multiset().len());
    assert(v@.len() == v@.to_multiset().len());
    r
}

/// A sorted permutation of keys without duplicates is strictly increasing.
pub proof fn lemma_sorted_permutation_strict(src: Seq<(u128, usize)>, out: Seq<(u128, usize)>)
    requires
        src.no_duplicates(),
        out.to_multiset() == src.to_multiset(),
        keys_sorted(out),
    ensures
        out.no_duplicates(),
        forall|i: int, j: int| 0 <= i < j < out.len() ==> key_lt(#[trigger] out[i], #[trigger] out[j]),
{
    src.lemma_multiset_has_no_duplicates();
    out.lemma_multiset_has_no_duplicates_conv();
    assert forall|i: int, j: int| 0 <= i < j < out.len() implies key_lt(
        #[trigger] out[i],
        #[trigger] out[j],
    ) by {
        assert(key_le(out[i], out[j]));
        assert(out[i] != out[j]);
    }
}

} // verus!
