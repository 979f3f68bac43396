//! Ordering and stable sorting: the byte-wise lexicographic order, rankings
//! (total preorders that can be tested at run time), and a merge sort that
//! keeps elements of equal rank in the order it found them.
use vstd::prelude::*;
use vstd::seq_lib::to_multiset_build;

verus! {

/// `a` comes before `b`, or equals it, in the lexicographic order of bytes:
/// the first byte in which they differ decides, and a sequence comes before
/// every longer one that begins with it.
pub open spec fn lex_le(a: Seq<u8>, b: Seq<u8>) -> bool
    decreases a.len(),
{
    if a.len() == 0 {
        true
    } else if b.len() == 0 {
        false
    } else if a[0] != b[0] {
        a[0] < b[0]
    } else {
        lex_le(a.drop_first(), b.drop_first())
    }
}

/// Every byte sequence is at most itself.
pub proof fn lemma_lex_reflexive(a: Seq<u8>)
    ensures
        lex_le(a, a),
    decreases a.len(),
{
    if a.len() > 0 {
        lemma_lex_reflexive(a.drop_first());
    }
}

/// Of two byte sequences, one is at most the other.
pub proof fn lemma_lex_total(a: Seq<u8>, b: Seq<u8>)
    ensures
        lex_le(a, b) || lex_le(b, a),
    decreases a.len(),
{
    if a.len() > 0 && b.len() > 0 && a[0] == b[0] {
        lemma_lex_total(a.drop_first(), b.drop_first());
    }
}

/// The lexicographic order is transitive.
pub proof fn lemma_lex_transitive(a: Seq<u8>, b: Seq<u8>, c: Seq<u8>)
    requires
        lex_le(a, b),
        lex_le(b, c),
    ensures
        lex_le(a, c),
    decreases a.len(),
{
    if a.len() > 0 && b.len() > 0 && c.len() > 0 && a[0] == b[0] && b[0] == c[0] {
        lemma_lex_transitive(a.drop_first(), b.drop_first(), c.drop_first());
    }
}

/// Two byte sequences that are each at most the other are the same.
pub proof fn lemma_lex_antisymmetric(a: Seq<u8>, b: Seq<u8>)
    requires
        lex_le(a, b),
        lex_le(b, a),
    ensures
        a == b,
    decreases a.len(),
{
    if a.len() > 0 && b.len() > 0 {
        lemma_lex_antisymmetric(a.drop_first(), b.drop_first());
        assert(a =~= seq![a[0]] + a.drop_first());
        assert(b =~= seq![b[0]] + b.drop_first());
    } else {
        assert(a =~= b);
    }
}

/// Tests the lexicographic order on two byte slices.
pub fn bytes_le(a: &[u8], b: &[u8]) -> (r: bool)
    ensures
        r == lex_le(a@, b@),
{
    let mut i: usize = 0;
    assert(a@.skip(0) =~= a@ && b@.skip(0) =~= b@);
    while i < a.len() && i < b.len()
        invariant
            i <= a.len(),
            i <= b.len(),
            lex_le(a@, b@) == lex_le(a@.skip(i as int), b@.skip(i as int)),
        decreases a.len() - i,
    {
        assert(a@.skip(i as int).drop_first() =~= a@.skip(i + 1));
        assert(b@.skip(i as int).drop_first() =~= b@.skip(i + 1));
        if a[i] != b[i] {
            return a[i] < b[i];
        }
        i += 1;
    }
    a.len() <= b.len()
}

/// A ranking of the values of `T`: a relation "at most" in which any two
/// values can be compared and which is transitive, with a run-time test.
/// Distinct values may share a rank.
pub trait Ranking<T> {
    /// `a` ranks at most as high as `b`.
    spec fn le(a: T, b: T) -> bool;

    /// Any two values are comparable.
    proof fn total(a: T, b: T)
        ensures
            Self::le(a, b) || Self::le(b, a),
    ;

    /// What is at most a value that is at most a third is at most the third.
    proof fn transitive(a: T, b: T, c: T)
        requires
            Self::le(a, b),
            Self::le(b, c),
        ensures
            Self::le(a, c),
    ;

    /// Tests whether `a` ranks at most as high as `b`.
    fn precedes(a: &T, b: &T) -> (r: bool)
        ensures
            r == Self::le(*a, *b),
    ;
}

/// No element of `s` ranks higher than one that follows it.
pub open spec fn sorted<T, O: Ranking<T>>(s: Seq<T>) -> bool {
    forall|i: int, j: int| 0 <= i < j < s.len() ==> O::le(#[trigger] s[i], #[trigger] s[j])
}

/// The values that share the rank of `x`.
pub open spec fn ties<T, O: Ranking<T>>(x: T) -> spec_fn(T) -> bool {
    |y: T| O::le(x, y) && O::le(y, x)
}

/// `after` holds the elements of each rank as `before` does: the same ones,
/// as often, in the same order.
pub open spec fn keeps_ranks<T, O: Ranking<T>>(before: Seq<T>, after: Seq<T>) -> bool {
    forall|x: T| #[trigger] after.filter(ties::<T, O>(x)) == before.filter(ties::<T, O>(x))
}

proof fn lemma_filter_push<T>(s: Seq<T>, x: T, p: spec_fn(T) -> bool)
    ensures
        s.push(x).filter(p) == if p(x) {
            s.filter(p).push(x)
        } else {
            s.filter(p)
        },
{
    reveal(Seq::filter);
    assert(s.push(x).drop_last() =~= s);
}

proof fn lemma_filter_none<T>(s: Seq<T>, p: spec_fn(T) -> bool)
    requires
        forall|i: int| 0 <= i < s.len() ==> !p(#[trigger] s[i]),
    ensures
        s.filter(p) == Seq::<T>::empty(),
    decreases s.len(),
{
    reveal(Seq::filter);
    if s.len() > 0 {
        lemma_filter_none(s.drop_last(), p);
    }
}

proof fn lemma_take_push<T>(s: Seq<T>, i: int)
    requires
        0 <= i < s.len(),
    ensures
        s.take(i + 1) == s.take(i).push(s[i]),
{
    assert(s.take(i + 1) =~= s.take(i).push(s[i]));
}

proof fn lemma_filter_witness<T>(s: Seq<T>, p: spec_fn(T) -> bool)
    requires
        s.filter(p).len() > 0,
    ensures
        exists|i: int| 0 <= i < s.len() && p(#[trigger] s[i]),
{
    let f = s.filter(p);
    s.lemma_filter_pred(p, 0);
    assert(f.contains(f[0]));
    s.lemma_filter_contains_rev(p, f[0]);
    let i = choose|i: int| 0 <= i < s.len() && s[i] == f[0];
    assert(p(s[i]));
}

proof fn lemma_filter_drop_last<T>(s: Seq<T>, p: spec_fn(T) -> bool)
    requires
        s.len() > 0,
    ensures
        s.filter(p) == if p(s.last()) {
            s.drop_last().filter(p).push(s.last())
        } else {
            s.drop_last().filter(p)
        },
{
    reveal(Seq::filter);
}

/// Two sorted sequences that hold the same elements of each rank, in the
/// same order, are the same sequence: sorting stably has one outcome.
pub proof fn lemma_stable_order_unique<T, O: Ranking<T>>(s1: Seq<T>, s2: Seq<T>)
    requires
        sorted::<T, O>(s1),
        sorted::<T, O>(s2),
        keeps_ranks::<T, O>(s1, s2),
    ensures
        s1 == s2,
    decreases s1.len(),
{
    if s1.len() == 0 || s2.len() == 0 {
        if s1.len() > 0 || s2.len() > 0 {
            let x = if s1.len() > 0 {
                s1[0]
            } else {
                s2[0]
            };
            let p = ties::<T, O>(x);
            O::total(x, x);
            assert(s2.filter(p) == s1.filter(p));
            if s1.len() > 0 {
                s1.lemma_filter_contains(p, 0);
                lemma_filter_none(s2, p);
            } else {
                s2.lemma_filter_contains(p, 0);
                lemma_filter_none(s1, p);
            }
        }
        assert(s1 =~= s2);
    } else {
        let m1 = s1.last();
        let m2 = s2.last();
        let p1 = ties::<T, O>(m1);
        let p2 = ties::<T, O>(m2);
        O::total(m1, m1);
        O::total(m2, m2);
        assert(s2.filter(p1) == s1.filter(p1));
        assert(s2.filter(p2) == s1.filter(p2));
        lemma_filter_drop_last(s1, p1);
        lemma_filter_drop_last(s2, p1);
        lemma_filter_drop_last(s1, p2);
        lemma_filter_drop_last(s2, p2);
        if !p1(m2) {
            lemma_filter_witness(s2.drop_last(), p1);
            let k = choose|k: int| 0 <= k < s2.drop_last().len() && p1(#[trigger] s2.drop_last()[k]);
            assert(O::le(s2[k], s2[s2.len() - 1]));
            O::transitive(m1, s2[k], m2);
            lemma_filter_witness(s1, p2);
            let k1 = choose|k1: int| 0 <= k1 < s1.len() && p2(#[trigger] s1[k1]);
            if k1 < s1.len() - 1 {
                assert(O::le(s1[k1], s1[s1.len() - 1]));
                O::transitive(m2, s1[k1], m1);
            }
            assert(false);
        }
        let a = s1.drop_last().filter(p1);
        let b = s2.drop_last().filter(p1);
        assert(a.push(m1) == b.push(m2));
        assert(a.push(m1).last() == m1);
        assert(b.push(m2).last() == m2);
        assert(m1 == m2);
        assert forall|x: T| #[trigger]
            s2.drop_last().filter(ties::<T, O>(x)) == s1.drop_last().filter(ties::<T, O>(x)) by {
            let q = ties::<T, O>(x);
            assert(s2.filter(q) == s1.filter(q));
            lemma_filter_drop_last(s1, q);
            lemma_filter_drop_last(s2, q);
            if q(m1) {
                let c = s1.drop_last().filter(q);
                let d = s2.drop_last().filter(q);
                assert(c.push(m1).drop_last() =~= c);
                assert(d.push(m1).drop_last() =~= d);
            }
        }
        lemma_stable_order_unique::<T, O>(s1.drop_last(), s2.drop_last());
        assert(s1 =~= s1.drop_last().push(m1));
        assert(s2 =~= s2.drop_last().push(m2));
    }
}

/// The elements of `before`, sorted by the ranking `O` with elements of one
/// rank left in their order.
pub open spec fn stably_sorted<T, O: Ranking<T>>(before: Seq<T>) -> Seq<T> {
    choose|after: Seq<T>| sorted::<T, O>(after) && keeps_ranks::<T, O>(before, after)
}

/// Whatever is sorted and keeps the ranks of `before` is `stably_sorted`
/// of it.
pub proof fn lemma_stably_sorted<T, O: Ranking<T>>(before: Seq<T>, after: Seq<T>)
    requires
        sorted::<T, O>(after),
        keeps_ranks::<T, O>(before, after),
    ensures
        after == stably_sorted::<T, O>(before),
{
    let chosen = stably_sorted::<T, O>(before);
    assert forall|x: T| #[trigger]
        chosen.filter(ties::<T, O>(x)) == after.filter(ties::<T, O>(x)) by {
        assert(after.filter(ties::<T, O>(x)) == before.filter(ties::<T, O>(x)));
    }
    lemma_stable_order_unique::<T, O>(after, chosen);
}

/// The elements of `v`, last first.
pub(crate) fn reversed<T>(v: Vec<T>) -> (r: Vec<T>)
    ensures
        r@ == v@.reverse(),
{
    let ghost orig = v@;
    let mut v = v;
    let mut r: Vec<T> = Vec::new();
    assert(orig.skip(orig.len() as int).reverse() =~= Seq::<T>::empty());
    while v.len() > 0
        invariant
            v.len() <= orig.len(),
            v@ == orig.take(v.len() as int),
            r@ == orig.skip(v.len() as int).reverse(),
        decreases v.len(),
    {
        let ghost n = v.len() as int;
        let x = v.pop().unwrap();
        r.push(x);
        assert(v@ =~= orig.take(n - 1));
        assert(r@ =~= orig.skip(n - 1).reverse());
    }
    assert(orig.skip(0) =~= orig);
    r
}

/// Merges two sorted vectors into one. Where an element of `a` and one of
/// `b` share a rank, the one of `a` comes first.
fn merge<T, O: Ranking<T>>(a: Vec<T>, b: Vec<T>) -> (out: Vec<T>)
    requires
        sorted::<T, O>(a@),
        sorted::<T, O>(b@),
    ensures
        sorted::<T, O>(out@),
        forall|x: T| #[trigger]
            out@.filter(ties::<T, O>(x)) == a@.filter(ties::<T, O>(x)) + b@.filter(
                ties::<T, O>(x),
            ),
        out@.to_multiset() =~= a@.to_multiset().add(b@.to_multiset()),
{
    broadcast use vstd::multiset::group_multiset_axioms;

    let ghost sa = a@;
    let ghost sb = b@;
    let mut ra = reversed(a);
    let mut rb = reversed(b);
    let mut out: Vec<T> = Vec::new();
    proof {
        assert(sa.skip(0) =~= sa);
        assert(sb.skip(0) =~= sb);
        assert(sa.take(0) =~= Seq::<T>::empty());
        assert(sb.take(0) =~= Seq::<T>::empty());
        Seq::<T>::empty().to_multiset_ensures();
        assert(Seq::<T>::empty().to_multiset() =~= vstd::multiset::Multiset::<T>::empty());
        assert forall|x: T| #[trigger]
            out@.filter(ties::<T, O>(x)) == sa.take(0).filter(ties::<T, O>(x)) + sb.take(
                0,
            ).filter(ties::<T, O>(x)) by {
            reveal(Seq::filter);
            assert(Seq::<T>::empty().filter(ties::<T, O>(x)) + Seq::<T>::empty().filter(
                ties::<T, O>(x),
            ) =~= Seq::<T>::empty());
        }
    }
    while ra.len() > 0 || rb.len() > 0
        invariant
            sorted::<T, O>(sa),
            sorted::<T, O>(sb),
            ra.len() <= sa.len(),
            rb.len() <= sb.len(),
            ra@ == sa.skip(sa.len() - ra.len()).reverse(),
            rb@ == sb.skip(sb.len() - rb.len()).reverse(),
            sorted::<T, O>(out@),
            forall|k: int|
                0 <= k < out.len() && ra.len() > 0 ==> O::le(
                    #[trigger] out@[k],
                    sa[sa.len() - ra.len()],
                ),
            forall|k: int|
                0 <= k < out.len() && rb.len() > 0 ==> O::le(
                    #[trigger] out@[k],
                    sb[sb.len() - rb.len()],
                ),
            forall|k: int|
                0 <= k < sb.len() - rb.len() && ra.len() > 0 ==> !O::le(
                    sa[sa.len() - ra.len()],
                    #[trigger] sb[k],
                ),
            forall|x: T| #[trigger]
                out@.filter(ties::<T, O>(x)) == sa.take(sa.len() - ra.len()).filter(
                    ties::<T, O>(x),
                ) + sb.take(sb.len() - rb.len()).filter(ties::<T, O>(x)),
            out@.to_multiset() =~= sa.take(sa.len() - ra.len()).to_multiset().add(
                sb.take(sb.len() - rb.len()).to_multiset(),
            ),
        decreases ra.len() + rb.len(),
    {
        let ghost i = sa.len() - ra.len();
        let ghost j = sb.len() - rb.len();
        let ghost before = out@;
        let from_a = if rb.len() == 0 {
            true
        } else if ra.len() == 0 {
            false
        } else {
            O::precedes(&ra[ra.len() - 1], &rb[rb.len() - 1])
        };
        if from_a {
            let x = ra.pop().unwrap();
            out.push(x);
            proof {
                assert(x == sa[i]);
                assert(ra@ =~= sa.skip(i + 1).reverse());
                lemma_take_push(sa, i);
                to_multiset_build(sa.take(i), x);
                to_multiset_build(before, x);
                assert forall|k: int| 0 <= k < out.len() && ra.len() > 0 implies O::le(
                    #[trigger] out@[k],
                    sa[i + 1],
                ) by {
                    if k < before.len() {
                        O::transitive(before[k], sa[i], sa[i + 1]);
                    }
                }
                assert forall|k: int| 0 <= k < j && ra.len() > 0 implies !O::le(
                    sa[i + 1],
                    #[trigger] sb[k],
                ) by {
                    if O::le(sa[i + 1], sb[k]) {
                        O::transitive(sa[i], sa[i + 1], sb[k]);
                    }
                }
                assert forall|y: T| #[trigger]
                    out@.filter(ties::<T, O>(y)) == sa.take(i + 1).filter(ties::<T, O>(y))
                        + sb.take(j).filter(ties::<T, O>(y)) by {
                    let p = ties::<T, O>(y);
                    lemma_filter_push(before, x, p);
                    lemma_filter_push(sa.take(i), x, p);
                    assert(before.filter(p) == sa.take(i).filter(p) + sb.take(j).filter(p));
                    if p(x) {
                        assert forall|k: int| 0 <= k < sb.take(j).len() implies !p(
                            #[trigger] sb.take(j)[k],
                        ) by {
                            let z = sb[k];
                            if p(z) {
                                O::transitive(x, y, z);
                            }
                        }
                        lemma_filter_none(sb.take(j), p);
                        assert(sa.take(i).filter(p).push(x) + Seq::<T>::empty() =~= (sa.take(
                            i,
                        ).filter(p) + Seq::<T>::empty()).push(x));
                    }
                }
            }
        } else {
            let x = rb.pop().unwrap();
            out.push(x);
            proof {
                assert(x == sb[j]);
                assert(rb@ =~= sb.skip(j + 1).reverse());
                lemma_take_push(sb, j);
                to_multiset_build(sb.take(j), x);
                to_multiset_build(before, x);
                if ra.len() > 0 {
                    O::total(sa[i], x);
                }
                assert forall|k: int| 0 <= k < out.len() && rb.len() > 0 implies O::le(
                    #[trigger] out@[k],
                    sb[j + 1],
                ) by {
                    if k < before.len() {
                        O::transitive(before[k], sb[j], sb[j + 1]);
                    }
                }
                assert forall|y: T| #[trigger]
                    out@.filter(ties::<T, O>(y)) == sa.take(i).filter(ties::<T, O>(y)) + sb.take(
                        j + 1,
                    ).filter(ties::<T, O>(y)) by {
                    let p = ties::<T, O>(y);
                    lemma_filter_push(before, x, p);
                    lemma_filter_push(sb.take(j), x, p);
                    assert(before.filter(p) == sa.take(i).filter(p) + sb.take(j).filter(p));
                    if p(x) {
                        assert((sa.take(i).filter(p) + sb.take(j).filter(p)).push(x)
                            =~= sa.take(i).filter(p) + sb.take(j).filter(p).push(x));
                    }
                }
            }
        }
    }
    proof {
        assert(sa.take(sa.len() as int) =~= sa);
        assert(sb.take(sb.len() as int) =~= sb);
    }
    out
}

/// Sorts `v` by merging sorted halves.
fn merge_sort<T, O: Ranking<T>>(v: Vec<T>) -> (out: Vec<T>)
    ensures
        sorted::<T, O>(out@),
        keeps_ranks::<T, O>(v@, out@),
        out@.to_multiset() =~= v@.to_multiset(),
    decreases v.len(),
{
    if v.len() < 2 {
        return v;
    }
    let ghost whole = v@;
    let mut left = v;
    let mid = left.len() / 2;
    let right = left.split_off(mid);
    let ghost l = left@;
    let ghost r = right@;
    let left = merge_sort::<T, O>(left);
    let right = merge_sort::<T, O>(right);
    let out = merge::<T, O>(left, right);
    proof {
        assert(whole =~= l + r);
        vstd::seq_lib::lemma_multiset_commutative(l, r);
        assert forall|x: T| #[trigger]
            out@.filter(ties::<T, O>(x)) == whole.filter(ties::<T, O>(x)) by {
            let p = ties::<T, O>(x);
            assert(left@.filter(p) == l.filter(p));
            assert(right@.filter(p) == r.filter(p));
            Seq::filter_distributes_over_add(l, r, p);
        }
    }
    out
}

/// Sorts `v` by the ranking `O`. The sort is stable: elements that share a
/// rank stay in the order in which they stood.
pub fn stable_sort<T, O: Ranking<T>>(v: &mut Vec<T>)
    ensures
        final(v)@ == stably_sorted::<T, O>(old(v)@),
        sorted::<T, O>(final(v)@),
        keeps_ranks::<T, O>(old(v)@, final(v)@),
        final(v)@.to_multiset() =~= old(v)@.to_multiset(),
        final(v)@.len() == old(v)@.len(),
{
    let mut taken: Vec<T> = Vec::new();
    core::mem::swap(v, &mut taken);
    let ghost before = taken@;
    let done = merge_sort::<T, O>(taken);
    proof {
        before.to_multiset_ensures();
        done@.to_multiset_ensures();
        lemma_stably_sorted::<T, O>(before, done@);
    }
    *v = done;
}

/// The first element of `s` alone, or nothing where `s` is empty.
pub open spec fn first_of<T>(s: Seq<T>) -> Seq<T> {
    if s.len() > 0 {
        seq![s[0]]
    } else {
        s
    }
}

/// Each element of `s` ranks strictly below the ones that follow it: `s` is
/// sorted and holds no rank twice.
pub open spec fn ascending<T, O: Ranking<T>>(s: Seq<T>) -> bool {
    forall|i: int, j: int|
        0 <= i < j < s.len() ==> O::le(#[trigger] s[i], #[trigger] s[j]) && !O::le(s[j], s[i])
}

/// Of each rank that occurs in `before`, `after` holds the first element and
/// no other; it holds nothing of a rank that `before` lacks.
pub open spec fn keeps_first_of_ranks<T, O: Ranking<T>>(before: Seq<T>, after: Seq<T>) -> bool {
    forall|x: T| #[trigger]
        after.filter(ties::<T, O>(x)) == first_of(before.filter(ties::<T, O>(x)))
}

/// Drops from a sorted vector every element that shares its rank with the
/// element before it, so that one element of each rank stays: the first.
pub fn drop_repeats<T, O: Ranking<T>>(v: &mut Vec<T>)
    requires
        sorted::<T, O>(old(v)@),
    ensures
        ascending::<T, O>(final(v)@),
        keeps_first_of_ranks::<T, O>(old(v)@, final(v)@),
{
    let mut taken: Vec<T> = Vec::new();
    core::mem::swap(v, &mut taken);
    let ghost all = taken@;
    let mut rest = reversed(taken);
    let mut out: Vec<T> = Vec::new();
    proof {
        assert(all.skip(0) =~= all);
        assert(all.take(0) =~= Seq::<T>::empty());
        assert forall|x: T| #[trigger]
            out@.filter(ties::<T, O>(x)) == first_of(all.take(0).filter(ties::<T, O>(x))) by {
            reveal(Seq::filter);
        }
    }
    while rest.len() > 0
        invariant
            sorted::<T, O>(all),
            rest.len() <= all.len(),
            rest@ == all.skip(all.len() - rest.len()).reverse(),
            ascending::<T, O>(out@),
            forall|x: T| #[trigger]
                out@.filter(ties::<T, O>(x)) == first_of(
                    all.take(all.len() - rest.len()).filter(ties::<T, O>(x)),
                ),
            rest.len() == all.len() <==> out.len() == 0,
            out.len() > 0 ==> O::le(out@.last(), all[all.len() - rest.len() - 1]) && O::le(
                all[all.len() - rest.len() - 1],
                out@.last(),
            ),
        decreases rest.len(),
    {
        let ghost i = all.len() - rest.len();
        let ghost before = out@;
        let x = rest.pop().unwrap();
        proof {
            assert(x == all[i]);
            assert(rest@ =~= all.skip(i + 1).reverse());
            lemma_take_push(all, i);
            O::total(x, x);
            if i > 0 {
                assert(O::le(all[i - 1], all[i]));
                O::transitive(before.last(), all[i - 1], x);
            }
        }
        let keep = out.len() == 0 || !O::precedes(&x, &out[out.len() - 1]);
        if keep {
            out.push(x);
            proof {
                assert forall|a: int, b: int| 0 <= a < b < out.len() implies O::le(
                    #[trigger] out@[a],
                    #[trigger] out@[b],
                ) && !O::le(out@[b], out@[a]) by {
                    if b == before.len() {
                        if a < before.len() - 1 {
                            assert(O::le(before[a], before[before.len() - 1]));
                            O::transitive(before[a], before.last(), x);
                            if O::le(x, before[a]) {
                                O::transitive(x, before[a], before.last());
                            }
                        }
                    }
                }
                assert forall|y: T| #[trigger]
                    out@.filter(ties::<T, O>(y)) == first_of(
                        all.take(i + 1).filter(ties::<T, O>(y)),
                    ) by {
                    let p = ties::<T, O>(y);
                    lemma_filter_push(before, x, p);
                    lemma_filter_push(all.take(i), x, p);
                    assert(before.filter(p) == first_of(all.take(i).filter(p)));
                    if p(x) {
                        assert forall|k: int| 0 <= k < all.take(i).len() implies !p(
                            #[trigger] all.take(i)[k],
                        ) by {
                            let z = all[k];
                            if p(z) {
                                O::transitive(x, y, z);
                                assert(O::le(all[k], all[i - 1]) || k == i - 1);
                                if k < i - 1 {
                                    O::transitive(x, z, all[i - 1]);
                                }
                                O::transitive(x, all[i - 1], before.last());
                            }
                        }
                        lemma_filter_none(all.take(i), p);
                        assert(Seq::<T>::empty().push(x) =~= seq![x]);
                    }
                }
            }
        } else {
            proof {
                assert forall|y: T| #[trigger]
                    out@.filter(ties::<T, O>(y)) == first_of(
                        all.take(i + 1).filter(ties::<T, O>(y)),
                    ) by {
                    let p = ties::<T, O>(y);
                    lemma_filter_push(all.take(i), x, p);
                    assert(before.filter(p) == first_of(all.take(i).filter(p)));
                    if p(x) {
                        let z = all[i - 1];
                        O::transitive(z, before.last(), x);
                        O::transitive(x, before.last(), z);
                        O::transitive(y, x, z);
                        O::transitive(z, x, y);
                        assert(all.take(i)[i - 1] == z);
                        all.take(i).lemma_filter_contains(p, i - 1);
                        assert(all.take(i).filter(p).len() > 0);
                    }
                }
            }
        }
    }
    proof {
        assert(all.take(all.len() as int) =~= all);
    }
    *v = out;
}

} // verus!
