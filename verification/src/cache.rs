//! The list of finished renders kept for redrawing while the view moves.
use vstd::prelude::*;

verus! {

/// Most finished renders kept at once.
pub const MAX_CACHES: usize = 6;

/// The entries of `s` whose flag in `keep` is set, in order.
pub open spec fn retained<T>(s: Seq<T>, keep: Seq<bool>) -> Seq<T>
    decreases s.len(),
{
    if s.len() == 0 {
        Seq::empty()
    } else {
        let r = retained(s.drop_last(), keep);
        if keep[s.len() - 1] {
            r.push(s.last())
        } else {
            r
        }
    }
}

/// The cache list after `newest` finished: `newest` first, then the old
/// entries flagged in `keep`, cut to `MAX_CACHES` entries.
pub open spec fn remembered<T>(old: Seq<T>, keep: Seq<bool>, newest: T) -> Seq<T> {
    let all = seq![newest] + retained(old, keep);
    if all.len() > MAX_CACHES {
        all.take(MAX_CACHES as int)
    } else {
        all
    }
}

/// Number of set flags among the first `n` of `keep`.
pub open spec fn set_flags(keep: Seq<bool>, n: int) -> int
    decreases n,
{
    if n <= 0 {
        0
    } else {
        set_flags(keep, n - 1) + if keep[n - 1] {
            1int
        } else {
            0int
        }
    }
}

proof fn lemma_set_flags_monotone(keep: Seq<bool>, i: int, n: int)
    requires
        0 <= i <= n,
    ensures
        0 <= set_flags(keep, i) <= set_flags(keep, n),
        i < n && keep[i] ==> set_flags(keep, i) < set_flags(keep, n),
    decreases n - i,
{
    if i < n {
        lemma_set_flags_monotone(keep, i + 1, n);
        lemma_set_flags_nonneg(keep, i);
    } else {
        lemma_set_flags_nonneg(keep, n);
    }
}

proof fn lemma_set_flags_nonneg(keep: Seq<bool>, n: int)
    ensures
        set_flags(keep, n) >= 0,
    decreases n,
{
    if n > 0 {
        lemma_set_flags_nonneg(keep, n - 1);
    }
}

/// Dropping entries keeps exactly the flagged ones, in their order: as many
/// entries as there are set flags, and the old entry `i` with its flag set
/// comes after the `set_flags(keep, i)` flagged entries before it.
pub proof fn lemma_retained_selects<T>(s: Seq<T>, keep: Seq<bool>)
    requires
        keep.len() >= s.len(),
    ensures
        retained(s, keep).len() == set_flags(keep, s.len() as int),
        forall|i: int|
            0 <= i < s.len() && keep[i] ==> retained(s, keep)[#[trigger] set_flags(keep, i)]
                == s[i],
    decreases s.len(),
{
    if s.len() > 0 {
        let n = s.len() - 1;
        let d = s.drop_last();
        lemma_retained_selects(d, keep);
        assert forall|i: int| 0 <= i < s.len() && keep[i] implies retained(
            s,
            keep,
        )[#[trigger] set_flags(keep, i)] == s[i] by {
            if i < n {
                lemma_set_flags_monotone(keep, i, n);
                assert(d[i] == s[i]);
            }
        }
    }
}

/// The cache list after a render finished: the new render first, then the
/// old entries whose flag is set, in their order, cut to `MAX_CACHES`.
/// Its length is one more than the number of set flags, at most
/// `MAX_CACHES`; old entry `i` with its flag set stands at position
/// `1 + set_flags(keep, i)` when that is below `MAX_CACHES`.
pub proof fn lemma_remembered_keeps_flagged<T>(old: Seq<T>, keep: Seq<bool>, newest: T)
    requires
        keep.len() == old.len(),
    ensures
        remembered(old, keep, newest).len() == if 1 + set_flags(keep, old.len() as int)
            <= MAX_CACHES {
            1 + set_flags(keep, old.len() as int)
        } else {
            MAX_CACHES as int
        },
        remembered(old, keep, newest)[0] == newest,
        forall|i: int|
            0 <= i < old.len() && keep[i] && 1 + set_flags(keep, i) < MAX_CACHES ==> remembered(
                old,
                keep,
                newest,
            )[1 + #[trigger] set_flags(keep, i)] == old[i],
{
    lemma_retained_selects(old, keep);
    assert forall|i: int|
        0 <= i < old.len() && keep[i] && 1 + set_flags(keep, i) < MAX_CACHES implies remembered(
        old,
        keep,
        newest,
    )[1 + #[trigger] set_flags(keep, i)] == old[i] by {
        lemma_set_flags_monotone(keep, i, old.len() as int);
    }
}

proof fn lemma_retained_len<T>(s: Seq<T>, keep: Seq<bool>)
    ensures
        retained(s, keep).len() <= s.len(),
    decreases s.len(),
{
    if s.len() > 0 {
        lemma_retained_len(s.drop_last(), keep);
    }
}

/// Records a finished render: drops the old entries whose flag in `keep`
/// is clear (those showing the same view), puts `newest` first, and keeps
/// at most `MAX_CACHES` entries.
pub fn remember_render<T>(caches: &mut Vec<T>, keep: &Vec<bool>, newest: T)
    requires
        keep@.len() == old(caches)@.len(),
    ensures
        final(caches)@ == remembered(old(caches)@, keep@, newest),
        final(caches)@.len() <= MAX_CACHES,
        final(caches)@[0] == newest,
        final(caches)@.len() == if 1 + set_flags(keep@, old(caches)@.len() as int) <= MAX_CACHES {
            1 + set_flags(keep@, old(caches)@.len() as int)
        } else {
            MAX_CACHES as int
        },
        forall|i: int|
            0 <= i < old(caches)@.len() && keep@[i] && 1 + set_flags(keep@, i) < MAX_CACHES
                ==> final(caches)@[1 + #[trigger] set_flags(keep@, i)] == old(caches)@[i],
{
    let ghost old_caches = caches@;
    let n = caches.len();
    let mut i: usize = 0;
    let mut j: usize = 0;
    assert(old_caches.take(0) =~= Seq::<T>::empty());
    assert(old_caches.skip(0) =~= old_caches);
    while i < n
        invariant
            n == old_caches.len(),
            keep@.len() == n,
            i <= n,
            j == retained(old_caches.take(i as int), keep@).len(),
            caches@ == retained(old_caches.take(i as int), keep@) + old_caches.skip(i as int),
        decreases n - i,
    {
        let ghost before = caches@;
        let ghost kept = retained(old_caches.take(i as int), keep@);
        assert(old_caches.take(i + 1).drop_last() =~= old_caches.take(i as int));
        assert(old_caches.take(i + 1).last() == old_caches[i as int]);
        proof {
            lemma_retained_len(old_caches.take(i as int), keep@);
        }
        if keep[i] {
            assert(caches@ =~= kept.push(old_caches[i as int]) + old_caches.skip(i + 1));
            j = j + 1;
        } else {
            caches.remove(j);
            assert(caches@ =~= kept + old_caches.skip(i + 1));
        }
        i = i + 1;
    }
    assert(old_caches.take(n as int) =~= old_caches);
    assert(old_caches.skip(n as int) =~= Seq::<T>::empty());
    assert(caches@ =~= retained(old_caches, keep@));
    caches.insert(0, newest);
    assert(caches@ =~= seq![newest] + retained(old_caches, keep@));
    if caches.len() > MAX_CACHES {
        caches.truncate(MAX_CACHES);
    }
    assert(caches@ =~= remembered(old_caches, keep@, newest));
    proof {
        lemma_remembered_keeps_flagged(old_caches, keep@, newest);
    }
}

} // verus!
