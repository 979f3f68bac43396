//! The batching pass: one sweep over a pool of candidates, from its high end,
//! that sorts each candidate taken into "read further", "duplicate" or
//! "unique", under a budget for the number of reads a round may start.
use crate::algo_laws::law_pass_partitions_pool;
use vstd::prelude::*;
use vstd::std_specs::cmp::PartialEqSpec;

verus! {

/// What the batching pass needs to know of a pool element: its grouping key
/// and how many of its bytes are still unread.
pub trait GetKey<K> {
    /// The grouping key, as contracts speak of it.
    spec fn key_spec(&self) -> K;

    /// The number of unread bytes, as contracts speak of it.
    spec fn bytes_remaining_spec(&self) -> u64;

    /// The grouping key of the element.
    fn key(&self) -> (k: K)
        ensures
            k == self.key_spec(),
    ;

    /// The number of bytes of the element that are still unread.
    fn bytes_remaining(&self) -> (n: u64)
        ensures
            n == self.bytes_remaining_spec(),
    ;
}

/// The outcome of one batching pass. Each list holds its elements in the
/// order in which they left the pool, highest position first.
pub struct Work<T> {
    /// Elements that share their key with a neighbour and have bytes left.
    pub work: Vec<T>,
    /// Elements that share their key with a neighbour and are fully read.
    pub duplicates: Vec<T>,
    /// Elements whose key matches neither neighbour.
    pub uniques: Vec<T>,
}

/// The three ways a pass can dispose of an element it takes.
pub enum Class {
    /// In a group, with bytes left to read.
    Work,
    /// In a group and fully read.
    Duplicate,
    /// In no group.
    Unique,
}

/// `a`'s key compares equal to `b`'s, with `b` the element under inspection.
pub open spec fn key_matches<T: GetKey<K>, K: PartialEq>(a: T, b: T) -> bool {
    a.key_spec().eq_spec(&b.key_spec())
}

/// The key of the run in progress at the moment the element at position `i`
/// is taken: the key of the nearest element above `i` that joined a group,
/// if there is one. Defined for `-1 <= i < pool.len()`.
pub open spec fn run_key<T: GetKey<K>, K: PartialEq>(pool: Seq<T>, i: int) -> Option<K>
    decreases pool.len() - i, 0int,
{
    if -1 <= i && i + 1 < pool.len() {
        if joins_group::<T, K>(pool, i + 1) {
            Some(pool[i + 1].key_spec())
        } else {
            run_key::<T, K>(pool, i + 1)
        }
    } else {
        None
    }
}

/// The element at position `i` carries the key of the run in progress.
pub open spec fn continues_run<T: GetKey<K>, K: PartialEq>(pool: Seq<T>, i: int) -> bool
    decreases pool.len() - i, 1int,
{
    0 <= i < pool.len() && match run_key::<T, K>(pool, i) {
        Some(k) => k.eq_spec(&pool[i].key_spec()),
        None => false,
    }
}

/// The element at position `i` belongs to a group: it continues the run in
/// progress, or the element just below it has a matching key.
pub open spec fn joins_group<T: GetKey<K>, K: PartialEq>(pool: Seq<T>, i: int) -> bool
    decreases pool.len() - i, 2int,
{
    0 <= i < pool.len() && (continues_run::<T, K>(pool, i) || (i > 0 && key_matches::<T, K>(
        pool[i - 1],
        pool[i],
    )))
}

/// How a pass disposes of the element at position `i`, should it take it.
pub open spec fn class_of<T: GetKey<K>, K: PartialEq>(pool: Seq<T>, i: int) -> Class {
    if joins_group::<T, K>(pool, i) {
        if pool[i].bytes_remaining_spec() == 0 {
            Class::Duplicate
        } else {
            Class::Work
        }
    } else {
        Class::Unique
    }
}

/// The number of elements above position `i` that a pass classes as work.
/// Defined for `-1 <= i < pool.len()`.
pub open spec fn admitted<T: GetKey<K>, K: PartialEq>(pool: Seq<T>, i: int) -> nat
    decreases pool.len() - i,
{
    if -1 <= i && i + 1 < pool.len() {
        admitted::<T, K>(pool, i + 1) + if class_of::<T, K>(pool, i + 1) is Work {
            1nat
        } else {
            0nat
        }
    } else {
        0
    }
}

/// What is left of `budget` at the moment the element at position `i` is
/// taken.
pub open spec fn budget_left<T: GetKey<K>, K: PartialEq>(pool: Seq<T>, budget: nat, i: int) -> nat {
    if budget >= admitted::<T, K>(pool, i) {
        (budget - admitted::<T, K>(pool, i)) as nat
    } else {
        0
    }
}

/// The pass ends before the element at position `i`: the budget is used up
/// and the element would start a new group.
pub open spec fn halts_at<T: GetKey<K>, K: PartialEq>(pool: Seq<T>, budget: nat, i: int) -> bool {
    budget_left::<T, K>(pool, budget, i) == 0 && !continues_run::<T, K>(pool, i)
}

/// The number of elements that a pass leaves in the pool, given that it has
/// already taken every element from position `n` upwards.
pub open spec fn kept_below<T: GetKey<K>, K: PartialEq>(pool: Seq<T>, budget: nat, n: int) -> int
    decreases n,
{
    if n <= 0 {
        0
    } else if halts_at::<T, K>(pool, budget, n - 1) {
        n
    } else {
        kept_below::<T, K>(pool, budget, n - 1)
    }
}

/// The number of elements that a pass with this budget leaves in the pool.
pub open spec fn kept<T: GetKey<K>, K: PartialEq>(pool: Seq<T>, budget: nat) -> int {
    kept_below::<T, K>(pool, budget, pool.len() as int)
}

/// The elements at positions `lo` and above that fall in class `c`, highest
/// position first.
pub open spec fn gather<T: GetKey<K>, K: PartialEq>(pool: Seq<T>, lo: int, c: Class) -> Seq<T>
    decreases pool.len() - lo,
{
    if 0 <= lo < pool.len() {
        if class_of::<T, K>(pool, lo) == c {
            gather::<T, K>(pool, lo + 1, c).push(pool[lo])
        } else {
            gather::<T, K>(pool, lo + 1, c)
        }
    } else {
        Seq::empty()
    }
}

/// Takes elements off the high end of `possible` and classes each one, until
/// the pool is empty or the budget `desired` is used up and the next element
/// would start a new group. A group that was begun is always finished.
pub fn find_work<T, K>(possible: &mut Vec<T>, desired: usize) -> (w: Work<T>) where
    T: GetKey<K>,
    K: PartialEq + Clone,

    requires
        K::obeys_eq_spec(),
    ensures
        final(possible)@ == old(possible)@.take(kept::<T, K>(old(possible)@, desired as nat)),
        w.work@ == gather::<T, K>(
            old(possible)@,
            kept::<T, K>(old(possible)@, desired as nat),
            Class::Work,
        ),
        w.duplicates@ == gather::<T, K>(
            old(possible)@,
            kept::<T, K>(old(possible)@, desired as nat),
            Class::Duplicate,
        ),
        w.uniques@ == gather::<T, K>(
            old(possible)@,
            kept::<T, K>(old(possible)@, desired as nat),
            Class::Unique,
        ),
        final(possible)@.to_multiset().add(w.work@.to_multiset()).add(
            w.duplicates@.to_multiset(),
        ).add(w.uniques@.to_multiset()) =~= old(possible)@.to_multiset(),
        final(possible)@.len() + w.work@.len() + w.duplicates@.len() + w.uniques@.len() == old(
            possible,
        )@.len(),
        old(possible)@.len() == 0 ==> final(possible)@.len() == 0,
{
    let ghost pool = possible@;
    let mut last_key: Option<K> = None;
    let mut remaining: usize = desired;
    let mut work: Vec<T> = Vec::new();
    let mut duplicates: Vec<T> = Vec::new();
    let mut uniques: Vec<T> = Vec::new();

    loop
        invariant_except_break
            last_key == run_key::<T, K>(pool, possible.len() - 1),
            remaining == budget_left::<T, K>(pool, desired as nat, possible.len() - 1),
            kept::<T, K>(pool, desired as nat) == kept_below::<T, K>(
                pool,
                desired as nat,
                possible.len() as int,
            ),
        invariant
            K::obeys_eq_spec(),
            possible.len() <= pool.len(),
            possible@ == pool.take(possible.len() as int),
            work@ == gather::<T, K>(pool, possible.len() as int, Class::Work),
            duplicates@ == gather::<T, K>(pool, possible.len() as int, Class::Duplicate),
            uniques@ == gather::<T, K>(pool, possible.len() as int, Class::Unique),
        ensures
            kept::<T, K>(pool, desired as nat) == possible.len(),
        decreases possible.len(),
    {
        let ghost n = possible.len() as int;
        let item = match possible.pop() {
            Some(item) => item,
            None => {
                break ;
            },
        };
        let ghost i = n - 1;
        assert(item == pool[i]);
        assert(possible@ == pool.take(i));

        let last_key_matches = match &last_key {
            Some(key) => *key == item.key(),
            None => false,
        };
        assert(last_key_matches == continues_run::<T, K>(pool, i));

        if remaining == 0 && !last_key_matches {
            possible.push(item);
            assert(possible@ == pool.take(n));
            break ;
        }
        let either_matches = if last_key_matches {
            true
        } else {
            if possible.len() > 0 {
                possible[possible.len() - 1].key() == item.key()
            } else {
                false
            }
        };
        assert(either_matches == joins_group::<T, K>(pool, i));

        if either_matches {
            last_key = Some(item.key());
            if item.bytes_remaining() == 0 {
                duplicates.push(item);
            } else {
                work.push(item);
                remaining = remaining.saturating_sub(1);
            }
        } else {
            uniques.push(item);
        }
    }

    proof {
        law_pass_partitions_pool::<T, K>(pool, desired as nat);
    }
    Work { work, duplicates, uniques }
}

} // verus!
