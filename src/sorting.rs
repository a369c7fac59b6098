use vstd::prelude::*;
use crate::geometry::{Point, lex_le, lex_less_eq};

verus! {

/// Every earlier point comes no later, lexicographically, than every later one.
pub open spec fn lex_sorted(s: Seq<Point>) -> bool {
    forall|i: int, j: int| 0 <= i < j < s.len() ==> lex_le(#[trigger] s[i], #[trigger] s[j])
}

/// `p` put into the sorted sequence `t` after every point that does not come
/// after it.
pub open spec fn insert_sorted(t: Seq<Point>, p: Point) -> Seq<Point>
    decreases t.len(),
{
    if t.len() == 0 {
        seq![p]
    } else if lex_le(t.last(), p) {
        t.push(p)
    } else {
        insert_sorted(t.drop_last(), p).push(t.last())
    }
}

/// The points of `s` in lexicographic order.
pub open spec fn sorted_points(s: Seq<Point>) -> Seq<Point>
    decreases s.len(),
{
    if s.len() == 0 {
        Seq::empty()
    } else {
        insert_sorted(sorted_points(s.drop_last()), s.last())
    }
}

proof fn lemma_insert_sorted(t: Seq<Point>, p: Point)
    ensures
        insert_sorted(t, p).to_multiset() =~= t.to_multiset().insert(p),
        insert_sorted(t, p).len() == t.len() + 1,
        lex_sorted(t) ==> lex_sorted(insert_sorted(t, p)),
    decreases t.len(),
{
    broadcast use vstd::seq_lib::to_multiset_build, vstd::seq_lib::to_multiset_contains;
    if t.len() == 0 {
        assert(seq![p] =~= Seq::<Point>::empty().push(p));
        Seq::<Point>::empty().to_multiset_ensures();
    } else if lex_le(t.last(), p) {
    } else {
        let u = t.drop_last();
        let l = t.last();
        lemma_insert_sorted(u, p);
        assert(t =~= u.push(l));
        if lex_sorted(t) {
            let w = insert_sorted(u, p);
            assert forall|i: int| 0 <= i < w.len() implies lex_le(#[trigger] w[i], l) by {
                assert(w.to_multiset().count(w[i]) > 0);
                if w[i] != p {
                    assert(u.to_multiset().count(w[i]) > 0);
                    let k = choose|k: int| 0 <= k < u.len() && u[k] == w[i];
                    assert(t[k] == u[k]);
                }
            }
            assert forall|i: int, j: int| 0 <= i < j < w.push(l).len() implies lex_le(
                #[trigger] w.push(l)[i],
                #[trigger] w.push(l)[j],
            ) by {
                if j == w.len() {
                    assert(w.push(l)[i] == w[i]);
                }
            }
        }
    }
}

/// Sorting keeps the multiset of points and yields a sorted sequence.
pub proof fn lemma_sorted_points(s: Seq<Point>)
    ensures
        sorted_points(s).to_multiset() =~= s.to_multiset(),
        sorted_points(s).len() == s.len(),
        lex_sorted(sorted_points(s)),
    decreases s.len(),
{
    broadcast use vstd::seq_lib::to_multiset_build;
    if s.len() == 0 {
        assert(s =~= Seq::<Point>::empty());
        Seq::<Point>::empty().to_multiset_ensures();
    } else {
        lemma_sorted_points(s.drop_last());
        lemma_insert_sorted(sorted_points(s.drop_last()), s.last());
        assert(s =~= s.drop_last().push(s.last()));
        assert(s.to_multiset() =~= s.drop_last().to_multiset().insert(s.last()));
    }
}

/// The points of `points`, sorted lexicographically by a stable insertion sort.
pub fn sort_points(points: &Vec<Point>) -> (r: Vec<Point>)
    ensures
        r@ == sorted_points(points@),
{
    let mut r: Vec<Point> = Vec::new();
    let n = points.len();
    for k in 0..n
        invariant
            n == points@.len(),
            r@ == sorted_points(points@.subrange(0, k as int)),
    {
        proof {
            let s = points@.subrange(0, k as int + 1);
            assert(s.drop_last() =~= points@.subrange(0, k as int));
            lemma_sorted_points(points@.subrange(0, k as int));
        }
        let ghost t = r@;
        let p = points[k];
        r.push(p);
        let mut j: usize = r.len() - 1;
        assert(t.subrange(0, j as int) =~= t);
        assert(t.subrange(j as int, t.len() as int) =~= Seq::<Point>::empty());
        while j > 0 && !lex_less_eq(r[j - 1], p)
            invariant
                j < r@.len(),
                r@.len() == t.len() + 1,
                r@ =~= t.subrange(0, j as int) + seq![p] + t.subrange(j as int, t.len() as int),
                insert_sorted(t, p) == insert_sorted(t.subrange(0, j as int), p) + t.subrange(
                    j as int,
                    t.len() as int,
                ),
            decreases j,
        {
            proof {
                let u = t.subrange(0, j as int);
                assert(u.drop_last() =~= t.subrange(0, j - 1));
                assert(t.subrange(j - 1, t.len() as int) =~= seq![u.last()] + t.subrange(
                    j as int,
                    t.len() as int,
                ));
                assert(insert_sorted(u, p) == insert_sorted(u.drop_last(), p).push(u.last()));
                assert(insert_sorted(u.drop_last(), p).push(u.last()) + t.subrange(
                    j as int,
                    t.len() as int,
                ) =~= insert_sorted(u.drop_last(), p) + t.subrange(j - 1, t.len() as int));
            }
            let q = r[j - 1];
            r.set(j, q);
            r.set(j - 1, p);
            j = j - 1;
        }
        proof {
            let u = t.subrange(0, j as int);
            if j == 0 {
                assert(u =~= Seq::<Point>::empty());
            } else {
                assert(u.last() == t[j - 1]);
                assert(insert_sorted(u, p) =~= u.push(p));
            }
            assert(points@.subrange(0, k as int + 1).drop_last() =~= points@.subrange(0, k as int));
            assert(points@.subrange(0, k as int + 1).last() == p);
        }
    }
    assert(points@.subrange(0, n as int) =~= points@);
    r
}

} // verus!
