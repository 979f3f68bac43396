//! What holds of every batching pass, proved from the definitions that the
//! contract of `find_work` is stated in.
use crate::algo::{
    admitted, class_of, continues_run, gather, halts_at, joins_group, kept,
    kept_below, key_matches, run_key, Class, GetKey,
};
use vstd::multiset::Multiset;
use vstd::prelude::*;
use vstd::seq_lib::{lemma_multiset_commutative, to_multiset_build};
use vstd::std_specs::cmp::PartialEqSpec;

verus! {

/// Keys that match are next to each other: an element that is matched by
/// one further up the pool is matched by the one right above it. A pool
/// sorted by its grouping key has this shape.
pub open spec fn grouped<T: GetKey<K>, K: PartialEq>(pool: Seq<T>) -> bool {
    forall|i: int, j: int|
        0 <= i < j < pool.len() && #[trigger] key_matches::<T, K>(pool[j], pool[i])
            ==> key_matches::<T, K>(pool[i + 1], pool[i])
}

/// Every two elements at positions `lo..hi` have matching keys.
pub open spec fn is_run<T: GetKey<K>, K: PartialEq>(pool: Seq<T>, lo: int, hi: int) -> bool {
    &&& 0 <= lo <= hi <= pool.len()
    &&& forall|i: int, j: int|
        lo <= i < hi && lo <= j < hi ==> key_matches::<T, K>(#[trigger] pool[i], #[trigger] pool[j])
}

/// Every element at positions `lo..hi` is fully read.
pub open spec fn fully_read<T: GetKey<K>, K: PartialEq>(pool: Seq<T>, lo: int, hi: int) -> bool {
    forall|i: int| lo <= i < hi ==> (#[trigger] pool[i]).bytes_remaining_spec() == 0
}

proof fn lemma_kept_below<T: GetKey<K>, K: PartialEq>(pool: Seq<T>, budget: nat, n: int)
    requires
        0 <= n <= pool.len(),
    ensures
        0 <= kept_below::<T, K>(pool, budget, n) <= n,
        forall|j: int|
            kept_below::<T, K>(pool, budget, n) <= j < n ==> !#[trigger] halts_at::<T, K>(
                pool,
                budget,
                j,
            ),
        kept_below::<T, K>(pool, budget, n) > 0 ==> halts_at::<T, K>(
            pool,
            budget,
            kept_below::<T, K>(pool, budget, n) - 1,
        ),
    decreases n,
{
    if n > 0 && !halts_at::<T, K>(pool, budget, n - 1) {
        lemma_kept_below::<T, K>(pool, budget, n - 1);
    }
}

proof fn lemma_gather_covers<T: GetKey<K>, K: PartialEq>(pool: Seq<T>, lo: int)
    requires
        0 <= lo <= pool.len(),
    ensures
        gather::<T, K>(pool, lo, Class::Work).to_multiset().add(
            gather::<T, K>(pool, lo, Class::Duplicate).to_multiset(),
        ).add(gather::<T, K>(pool, lo, Class::Unique).to_multiset()) =~= pool.subrange(
            lo,
            pool.len() as int,
        ).to_multiset(),
        gather::<T, K>(pool, lo, Class::Work).len() + gather::<T, K>(
            pool,
            lo,
            Class::Duplicate,
        ).len() + gather::<T, K>(pool, lo, Class::Unique).len() == pool.len() - lo,
    decreases pool.len() - lo,
{
    broadcast use vstd::multiset::group_multiset_axioms;

    let n = pool.len() as int;
    Seq::<T>::empty().to_multiset_ensures();
    assert(Seq::<T>::empty().to_multiset() =~= Multiset::<T>::empty());
    if lo < n {
        lemma_gather_covers::<T, K>(pool, lo + 1);
        let x = pool[lo];
        let rest = pool.subrange(lo + 1, n);
        assert(pool.subrange(lo, n) =~= Seq::<T>::empty().push(x) + rest);
        lemma_multiset_commutative(Seq::<T>::empty().push(x), rest);
        to_multiset_build(gather::<T, K>(pool, lo + 1, Class::Work), x);
        to_multiset_build(gather::<T, K>(pool, lo + 1, Class::Duplicate), x);
        to_multiset_build(gather::<T, K>(pool, lo + 1, Class::Unique), x);
    } else {
        assert(pool.subrange(lo, n) =~= Seq::<T>::empty());
    }
}

/// A pass takes a top part of the pool and deals every element of it into
/// exactly one of the three lists: together with what stays in the pool, the
/// lists hold the elements of the pool, each as often as the pool held it.
pub proof fn law_pass_partitions_pool<T: GetKey<K>, K: PartialEq>(pool: Seq<T>, budget: nat)
    ensures
        0 <= kept::<T, K>(pool, budget) <= pool.len(),
        pool.take(kept::<T, K>(pool, budget)).to_multiset().add(
            gather::<T, K>(pool, kept::<T, K>(pool, budget), Class::Work).to_multiset(),
        ).add(
            gather::<T, K>(pool, kept::<T, K>(pool, budget), Class::Duplicate).to_multiset(),
        ).add(gather::<T, K>(pool, kept::<T, K>(pool, budget), Class::Unique).to_multiset())
            =~= pool.to_multiset(),
        kept::<T, K>(pool, budget) + gather::<T, K>(
            pool,
            kept::<T, K>(pool, budget),
            Class::Work,
        ).len() + gather::<T, K>(pool, kept::<T, K>(pool, budget), Class::Duplicate).len()
            + gather::<T, K>(pool, kept::<T, K>(pool, budget), Class::Unique).len()
            == pool.len(),
{
    let n = pool.len() as int;
    lemma_kept_below::<T, K>(pool, budget, n);
    let k = kept::<T, K>(pool, budget);
    lemma_gather_covers::<T, K>(pool, k);
    assert(pool =~= pool.take(k) + pool.subrange(k, n));
    lemma_multiset_commutative(pool.take(k), pool.subrange(k, n));
}

/// On an empty pool a pass takes nothing and every list stays empty.
pub proof fn law_empty_pool_yields_nothing<T: GetKey<K>, K: PartialEq>(pool: Seq<T>, budget: nat)
    requires
        pool.len() == 0,
    ensures
        kept::<T, K>(pool, budget) == 0,
        pool.take(kept::<T, K>(pool, budget)) =~= pool,
        gather::<T, K>(pool, 0, Class::Work) =~= Seq::<T>::empty(),
        gather::<T, K>(pool, 0, Class::Duplicate) =~= Seq::<T>::empty(),
        gather::<T, K>(pool, 0, Class::Unique) =~= Seq::<T>::empty(),
{
}

proof fn lemma_run_continues<T: GetKey<K>, K: PartialEq>(pool: Seq<T>, lo: int, hi: int, i: int)
    requires
        is_run::<T, K>(pool, lo, hi),
        lo + 2 <= hi,
        lo <= i < hi,
    ensures
        joins_group::<T, K>(pool, i),
        i < hi - 1 ==> continues_run::<T, K>(pool, i),
    decreases hi - i,
{
    if i < hi - 1 {
        lemma_run_continues::<T, K>(pool, lo, hi, i + 1);
        assert(run_key::<T, K>(pool, i) == Some(pool[i + 1].key_spec()));
        assert(key_matches::<T, K>(pool[i + 1], pool[i]));
    } else {
        assert(key_matches::<T, K>(pool[i - 1], pool[i]));
    }
}

proof fn lemma_gather_contains<T: GetKey<K>, K: PartialEq>(pool: Seq<T>, lo: int, i: int)
    requires
        0 <= lo <= i < pool.len(),
    ensures
        gather::<T, K>(pool, lo, class_of::<T, K>(pool, i)).contains(pool[i]),
    decreases i - lo,
{
    let c = class_of::<T, K>(pool, i);
    if lo < i {
        lemma_gather_contains::<T, K>(pool, lo + 1, i);
        let inner = gather::<T, K>(pool, lo + 1, c);
        let at = choose|at: int| 0 <= at < inner.len() && inner[at] == pool[i];
        assert(gather::<T, K>(pool, lo, c)[at] == pool[i]);
    } else {
        let g = gather::<T, K>(pool, lo, c);
        assert(g[g.len() - 1] == pool[i]);
    }
}

/// A run of two or more elements with matching keys, all of them fully
/// read, goes to the duplicates as a whole: each of its elements is classed
/// as a duplicate, and a pass that takes the top of the run takes all of it,
/// whatever the budget.
pub proof fn law_fully_read_run_is_duplicates<T: GetKey<K>, K: PartialEq>(
    pool: Seq<T>,
    lo: int,
    hi: int,
    budget: nat,
)
    requires
        is_run::<T, K>(pool, lo, hi),
        lo + 2 <= hi,
        fully_read::<T, K>(pool, lo, hi),
    ensures
        forall|i: int| lo <= i < hi ==> #[trigger] class_of::<T, K>(pool, i) is Duplicate,
        kept::<T, K>(pool, budget) < hi ==> kept::<T, K>(pool, budget) <= lo,
        kept::<T, K>(pool, budget) < hi ==> forall|i: int|
            lo <= i < hi ==> gather::<T, K>(
                pool,
                kept::<T, K>(pool, budget),
                Class::Duplicate,
            ).contains(#[trigger] pool[i]),
{
    assert forall|i: int| lo <= i < hi implies #[trigger] class_of::<T, K>(
        pool,
        i,
    ) is Duplicate by {
        lemma_run_continues::<T, K>(pool, lo, hi, i);
    }
    let k = kept::<T, K>(pool, budget);
    lemma_kept_below::<T, K>(pool, budget, pool.len() as int);
    if lo < k < hi {
        lemma_run_continues::<T, K>(pool, lo, hi, k - 1);
        assert(halts_at::<T, K>(pool, budget, k - 1));
    }
    if k < hi {
        assert forall|i: int| lo <= i < hi implies gather::<T, K>(
            pool,
            k,
            Class::Duplicate,
        ).contains(#[trigger] pool[i]) by {
            assert(class_of::<T, K>(pool, i) is Duplicate);
            lemma_gather_contains::<T, K>(pool, k, i);
        }
    }
}

proof fn lemma_run_key_source<T: GetKey<K>, K: PartialEq>(pool: Seq<T>, i: int)
    requires
        -1 <= i < pool.len(),
    ensures
        run_key::<T, K>(pool, i) matches Some(k) ==> exists|j: int|
            i < j < pool.len() && k == (#[trigger] pool[j]).key_spec(),
    decreases pool.len() - i,
{
    if i + 1 < pool.len() {
        if joins_group::<T, K>(pool, i + 1) {
            assert(pool[i + 1].key_spec() == pool[i + 1].key_spec());
        } else {
            lemma_run_key_source::<T, K>(pool, i + 1);
        }
    }
}

/// In a grouped pool, an element whose key matches neither neighbour is
/// classed as unique.
pub proof fn law_lone_key_is_unique<T: GetKey<K>, K: PartialEq>(pool: Seq<T>, i: int)
    requires
        grouped::<T, K>(pool),
        0 <= i < pool.len(),
        i + 1 < pool.len() ==> !key_matches::<T, K>(pool[i + 1], pool[i]),
        i > 0 ==> !key_matches::<T, K>(pool[i - 1], pool[i]),
    ensures
        class_of::<T, K>(pool, i) is Unique,
{
    lemma_run_key_source::<T, K>(pool, i);
    if continues_run::<T, K>(pool, i) {
        let k = run_key::<T, K>(pool, i)->0;
        let j = choose|j: int| i < j < pool.len() && k == (#[trigger] pool[j]).key_spec();
        assert(key_matches::<T, K>(pool[j], pool[i]));
    }
}

proof fn lemma_gather_work_len<T: GetKey<K>, K: PartialEq>(pool: Seq<T>, lo: int)
    requires
        0 <= lo <= pool.len(),
    ensures
        gather::<T, K>(pool, lo, Class::Work).len() == admitted::<T, K>(pool, lo - 1),
    decreases pool.len() - lo,
{
    if lo < pool.len() {
        lemma_gather_work_len::<T, K>(pool, lo + 1);
    }
}

proof fn lemma_work_source<T: GetKey<K>, K: PartialEq>(pool: Seq<T>, lo: int, p: int)
    requires
        0 <= lo <= pool.len(),
        0 <= p < gather::<T, K>(pool, lo, Class::Work).len(),
    ensures
        exists|i: int|
            lo <= i < pool.len() && admitted::<T, K>(pool, i) == p && gather::<T, K>(
                pool,
                lo,
                Class::Work,
            )[p] == #[trigger] pool[i],
    decreases pool.len() - lo,
{
    lemma_gather_work_len::<T, K>(pool, lo + 1);
    if p < gather::<T, K>(pool, lo + 1, Class::Work).len() {
        lemma_work_source::<T, K>(pool, lo + 1, p);
        let i = choose|i: int|
            lo + 1 <= i < pool.len() && admitted::<T, K>(pool, i) == p && gather::<T, K>(
                pool,
                lo + 1,
                Class::Work,
            )[p] == #[trigger] pool[i];
        assert(gather::<T, K>(pool, lo, Class::Work)[p] == pool[i]);
    } else {
        assert(gather::<T, K>(pool, lo, Class::Work)[p] == pool[lo]);
    }
}

/// The budget bounds the groups that a pass starts, not the ones it
/// finishes: once as many elements went to work as the budget allows, the
/// pass takes an element only if it carries the key of the run in progress.
/// So whatever the work list holds beyond its first `budget` elements
/// continues a run. The number of elements that went to work before the one
/// at position `i` was taken is `admitted(pool, i)`; below the last element
/// taken it is the length of the work list. A budget of zero takes nothing.
pub proof fn law_budget_limits_new_groups<T: GetKey<K>, K: PartialEq>(pool: Seq<T>, budget: nat)
    ensures
        forall|i: int|
            kept::<T, K>(pool, budget) <= i < pool.len() && admitted::<T, K>(pool, i) >= budget
                ==> #[trigger] continues_run::<T, K>(pool, i),
        forall|p: int|
            budget <= p < gather::<T, K>(pool, kept::<T, K>(pool, budget), Class::Work).len()
                ==> exists|i: int|
                kept::<T, K>(pool, budget) <= i < pool.len() && continues_run::<T, K>(pool, i)
                    && (#[trigger] gather::<T, K>(
                    pool,
                    kept::<T, K>(pool, budget),
                    Class::Work,
                )[p]) == #[trigger] pool[i],
        gather::<T, K>(pool, kept::<T, K>(pool, budget), Class::Work).len() == admitted::<T, K>(
            pool,
            kept::<T, K>(pool, budget) - 1,
        ),
        budget == 0 ==> kept::<T, K>(pool, budget) == pool.len(),
{
    let n = pool.len() as int;
    lemma_kept_below::<T, K>(pool, budget, n);
    let k = kept::<T, K>(pool, budget);
    lemma_gather_work_len::<T, K>(pool, k);
    assert forall|i: int|
        k <= i < n && admitted::<T, K>(pool, i) >= budget implies #[trigger] continues_run::<T, K>(
        pool,
        i,
    ) by {
        assert(!halts_at::<T, K>(pool, budget, i));
    }
    assert forall|p: int|
        budget <= p < gather::<T, K>(pool, k, Class::Work).len() implies exists|i: int|
        k <= i < n && continues_run::<T, K>(pool, i) && (#[trigger] gather::<T, K>(
            pool,
            k,
            Class::Work,
        )[p]) == #[trigger] pool[i] by {
        lemma_work_source::<T, K>(pool, k, p);
        let i = choose|i: int|
            k <= i < n && admitted::<T, K>(pool, i) == p && gather::<T, K>(
                pool,
                k,
                Class::Work,
            )[p] == #[trigger] pool[i];
        assert(continues_run::<T, K>(pool, i));
    }
    if budget == 0 && n > 0 {
        assert(run_key::<T, K>(pool, n - 1) is None);
        assert(halts_at::<T, K>(pool, budget, n - 1));
    }
}

/// A pass with a budget of at least one takes at least one element of a pool
/// that is not empty.
pub proof fn law_positive_budget_takes_something<T: GetKey<K>, K: PartialEq>(
    pool: Seq<T>,
    budget: nat,
)
    requires
        budget >= 1,
        pool.len() > 0,
    ensures
        kept::<T, K>(pool, budget) < pool.len(),
{
    let n = pool.len() as int;
    assert(!halts_at::<T, K>(pool, budget, n - 1));
    lemma_kept_below::<T, K>(pool, budget, n - 1);
}

proof fn lemma_admitted_bound<T: GetKey<K>, K: PartialEq>(pool: Seq<T>, i: int)
    requires
        -1 <= i < pool.len(),
    ensures
        admitted::<T, K>(pool, i) <= pool.len() - 1 - i,
    decreases pool.len() - i,
{
    if i + 1 < pool.len() {
        lemma_admitted_bound::<T, K>(pool, i + 1);
    }
}

/// A budget that is at least the size of the pool is never used up: the pass
/// takes every element.
pub proof fn law_ample_budget_takes_all<T: GetKey<K>, K: PartialEq>(pool: Seq<T>, budget: nat)
    requires
        budget >= pool.len(),
    ensures
        kept::<T, K>(pool, budget) == 0,
{
    let n = pool.len() as int;
    lemma_kept_below::<T, K>(pool, budget, n);
    let k = kept::<T, K>(pool, budget);
    if k > 0 {
        lemma_admitted_bound::<T, K>(pool, k - 1);
        assert(halts_at::<T, K>(pool, budget, k - 1));
    }
}

proof fn lemma_gather_run<T: GetKey<K>, K: PartialEq>(pool: Seq<T>, lo: int)
    requires
        is_run::<T, K>(pool, 0, pool.len() as int),
        fully_read::<T, K>(pool, 0, pool.len() as int),
        pool.len() >= 2,
        0 <= lo <= pool.len(),
    ensures
        gather::<T, K>(pool, lo, Class::Duplicate) =~= pool.subrange(
            lo,
            pool.len() as int,
        ).reverse(),
        gather::<T, K>(pool, lo, Class::Work) =~= Seq::<T>::empty(),
        gather::<T, K>(pool, lo, Class::Unique) =~= Seq::<T>::empty(),
        admitted::<T, K>(pool, lo - 1) == 0,
    decreases pool.len() - lo,
{
    let n = pool.len() as int;
    if lo < n {
        lemma_gather_run::<T, K>(pool, lo + 1);
        lemma_run_continues::<T, K>(pool, 0, n, lo);
    }
}

/// A pool that is one group whose members have all been read to the end,
/// such as the work of an earlier pass after its last reads, goes to the
/// duplicates entirely, in the order the pass takes it, on any budget that
/// lets the pass start.
pub proof fn law_reread_group_is_duplicates<T: GetKey<K>, K: PartialEq>(pool: Seq<T>, budget: nat)
    requires
        pool.len() >= 2,
        is_run::<T, K>(pool, 0, pool.len() as int),
        fully_read::<T, K>(pool, 0, pool.len() as int),
        budget >= 1,
    ensures
        kept::<T, K>(pool, budget) == 0,
        gather::<T, K>(pool, 0, Class::Duplicate) =~= pool.reverse(),
        gather::<T, K>(pool, 0, Class::Work) =~= Seq::<T>::empty(),
        gather::<T, K>(pool, 0, Class::Unique) =~= Seq::<T>::empty(),
{
    let n = pool.len() as int;
    lemma_kept_below::<T, K>(pool, budget, n);
    let k = kept::<T, K>(pool, budget);
    if k > 0 {
        lemma_gather_run::<T, K>(pool, k);
        assert(halts_at::<T, K>(pool, budget, k - 1));
    }
    lemma_gather_run::<T, K>(pool, 0);
    assert(pool.subrange(0, n) =~= pool);
}

} // verus!
