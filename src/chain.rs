use vstd::prelude::*;
use crate::geometry::{Point, lex_le, orient, orientation};
use crate::sorting::lex_sorted;

verus! {

/// The two passes of the scan.
#[derive(Clone, Copy, Debug, PartialEq, Eq, Structural)]
pub enum Phase {
    Upper,
    Lower,
}

/// One recorded change to the chain under construction.
#[derive(Clone, Copy, Debug, PartialEq, Eq, Structural)]
pub enum Operation {
    /// The point was appended to the chain.
    Push(Point),
    /// The second-to-last point of the chain was removed.
    Pop,
}

/// Whether the middle one of three consecutive chain points has to leave in
/// this phase: a counter-clockwise turn above, a clockwise turn below.
pub open spec fn redundant(phase: Phase, a: Point, b: Point, c: Point) -> bool {
    match phase {
        Phase::Upper => orient(a, b, c) > 0,
        Phase::Lower => orient(a, b, c) < 0,
    }
}

/// No three consecutive points of `c` make a turn that the phase forbids.
pub open spec fn convex(phase: Phase, c: Seq<Point>) -> bool {
    forall|i: int|
        0 <= i && i + 2 < c.len() ==> !redundant(phase, #[trigger] c[i], c[i + 1], c[i + 2])
}

/// The chain after one operation.
pub open spec fn apply(chain: Seq<Point>, op: Operation) -> Seq<Point> {
    match op {
        Operation::Push(p) => chain.push(p),
        Operation::Pop => if chain.len() >= 2 {
            chain.remove(chain.len() - 2)
        } else {
            chain
        },
    }
}

/// The chain that a log of operations builds from an empty one.
pub open spec fn replay(ops: Seq<Operation>) -> Seq<Point>
    decreases ops.len(),
{
    if ops.len() == 0 {
        Seq::empty()
    } else {
        apply(replay(ops.drop_last()), ops.last())
    }
}

/// Whether the last three points of the chain make a forbidden turn.
pub open spec fn must_pop(phase: Phase, c: Seq<Point>) -> bool {
    c.len() >= 3 && redundant(phase, c[c.len() - 3], c[c.len() - 2], c[c.len() - 1])
}

/// The chain once the backtracking after a push is over.
pub open spec fn settled(phase: Phase, c: Seq<Point>) -> Seq<Point>
    decreases c.len(),
{
    if must_pop(phase, c) {
        settled(phase, c.remove(c.len() - 2))
    } else {
        c
    }
}

/// How many pops the backtracking after a push makes.
pub open spec fn pop_count(phase: Phase, c: Seq<Point>) -> nat
    decreases c.len(),
{
    if must_pop(phase, c) {
        1 + pop_count(phase, c.remove(c.len() - 2))
    } else {
        0
    }
}

/// `n` pops.
pub open spec fn pops(n: nat) -> Seq<Operation> {
    Seq::new(n, |i: int| Operation::Pop)
}

/// The chain that the scan of one phase builds from the sorted points `s`:
/// each point is pushed in turn, and the chain settles after each push.
pub open spec fn scan_chain(phase: Phase, s: Seq<Point>) -> Seq<Point>
    decreases s.len(),
{
    if s.len() == 0 {
        Seq::empty()
    } else {
        settled(phase, scan_chain(phase, s.drop_last()).push(s.last()))
    }
}

/// The log of operations of the scan of one phase over the sorted points `s`.
pub open spec fn scan_log(phase: Phase, s: Seq<Point>) -> Seq<Operation>
    decreases s.len(),
{
    if s.len() == 0 {
        Seq::empty()
    } else {
        scan_log(phase, s.drop_last()).push(Operation::Push(s.last())) + pops(
            pop_count(phase, scan_chain(phase, s.drop_last()).push(s.last())),
        )
    }
}

/// `steps` holds, for each operation of `log`, the chain right after it.
pub open spec fn snapshots_of(log: Seq<Operation>, steps: Seq<Vec<Point>>) -> bool {
    &&& steps.len() == log.len()
    &&& forall|i: int| 0 <= i < steps.len() ==> (#[trigger] steps[i])@ == replay(log.take(i + 1))
}

proof fn lemma_replay_push(log: Seq<Operation>, op: Operation)
    ensures
        replay(log.push(op)) == apply(replay(log), op),
{
    assert(log.push(op).drop_last() =~= log);
}

/// Whether the phase forbids the turn `a`, `b`, `c`.
pub fn is_redundant(phase: Phase, a: Point, b: Point, c: Point) -> (r: bool)
    ensures
        r == redundant(phase, a, b, c),
{
    let o = orientation(a, b, c);
    match phase {
        Phase::Upper => o > 0,
        Phase::Lower => o < 0,
    }
}

/// A copy of the chain.
pub fn copy_points(c: &Vec<Point>) -> (r: Vec<Point>)
    ensures
        r@ == c@,
{
    let mut r: Vec<Point> = Vec::new();
    for i in 0..c.len()
        invariant
            r@ == c@.take(i as int),
    {
        r.push(c[i]);
        assert(r@ =~= c@.take(i + 1));
    }
    assert(r@ =~= c@);
    r
}

fn record(log: &mut Vec<Operation>, steps: &mut Vec<Vec<Point>>, op: Operation, chain: &Vec<Point>)
    requires
        snapshots_of(old(log)@, old(steps)@),
        chain@ == apply(replay(old(log)@), op),
    ensures
        final(log)@ == old(log)@.push(op),
        snapshots_of(final(log)@, final(steps)@),
        chain@ == replay(final(log)@),
{
    let ghost old_log = log@;
    log.push(op);
    steps.push(copy_points(chain));
    proof {
        lemma_replay_push(old_log, op);
        assert forall|i: int| 0 <= i < steps@.len() implies (#[trigger] steps@[i])@ == replay(
            log@.take(i + 1),
        ) by {
            if i < old_log.len() {
                assert(log@.take(i + 1) =~= old_log.take(i + 1));
            } else {
                assert(log@.take(i + 1) =~= log@);
            }
        }
    }
}

/// Runs the scan of one phase over the sorted points, and returns its log of
/// operations and the chain after each of them.
pub fn build_chain(phase: Phase, sorted: &Vec<Point>) -> (r: (Vec<Operation>, Vec<Vec<Point>>))
    ensures
        r.0@ == scan_log(phase, sorted@),
        snapshots_of(r.0@, r.1@),
        replay(r.0@) == scan_chain(phase, sorted@),
        r.0@.len() + scan_chain(phase, sorted@).len() == 2 * sorted@.len(),
{
    let mut chain: Vec<Point> = Vec::new();
    let mut log: Vec<Operation> = Vec::new();
    let mut steps: Vec<Vec<Point>> = Vec::new();
    let n = sorted.len();
    for k in 0..n
        invariant
            n == sorted@.len(),
            chain@ == scan_chain(phase, sorted@.take(k as int)),
            log@ == scan_log(phase, sorted@.take(k as int)),
            chain@ == replay(log@),
            snapshots_of(log@, steps@),
            log@.len() + chain@.len() == 2 * k,
    {
        let ghost before = sorted@.take(k as int);
        let ghost log0 = log@;
        let p = sorted[k];
        chain.push(p);
        record(&mut log, &mut steps, Operation::Push(p), &chain);
        let ghost pushed = chain@;
        let ghost pushed_log = log@;
        while chain.len() >= 3 && is_redundant(
            phase,
            chain[chain.len() - 3],
            chain[chain.len() - 2],
            chain[chain.len() - 1],
        )
            invariant
                pushed.len() >= chain@.len(),
                settled(phase, chain@) == settled(phase, pushed),
                pop_count(phase, pushed) == (pushed.len() - chain@.len()) + pop_count(
                    phase,
                    chain@,
                ),
                log@ == pushed_log + pops((pushed.len() - chain@.len()) as nat),
                chain@ == replay(log@),
                snapshots_of(log@, steps@),
                log@.len() + chain@.len() == 2 * k + 2,
            decreases chain@.len(),
        {
            let ghost c0 = chain@;
            let ghost l0 = log@;
            let m = chain.len() - 2;
            chain.remove(m);
            record(&mut log, &mut steps, Operation::Pop, &chain);
            assert(log@ =~= pushed_log + pops((pushed.len() - chain@.len()) as nat));
        }
        proof {
            let now = sorted@.take(k + 1);
            assert(now.drop_last() =~= before);
            assert(now.last() == p);
            assert(pushed_log == log0.push(Operation::Push(p)));
        }
    }
    assert(sorted@.take(n as int) =~= sorted@);
    (log, steps)
}

proof fn lemma_remove_sorted(c: Seq<Point>, j: int)
    requires
        lex_sorted(c),
        0 <= j < c.len(),
    ensures
        lex_sorted(c.remove(j)),
{
    let d = c.remove(j);
    assert forall|a: int, b: int| 0 <= a < b < d.len() implies lex_le(
        #[trigger] d[a],
        #[trigger] d[b],
    ) by {
        let a0 = if a < j { a } else { a + 1 };
        let b0 = if b < j { b } else { b + 1 };
        assert(d[a] == c[a0] && d[b] == c[b0]);
    }
}

/// What the backtracking after a push keeps: the first and the last point,
/// at least two points, order, and convexity once the chain before the push
/// was convex.
pub proof fn lemma_settled(phase: Phase, c: Seq<Point>)
    requires
        c.len() >= 1,
    ensures
        settled(phase, c).len() >= 1,
        c.len() >= 2 ==> settled(phase, c).len() >= 2,
        settled(phase, c)[0] == c[0],
        settled(phase, c).last() == c.last(),
        settled(phase, c).len() + pop_count(phase, c) == c.len(),
        forall|i: int|
            0 <= i < settled(phase, c).len() ==> c.contains(#[trigger] settled(phase, c)[i]),
        lex_sorted(c) ==> lex_sorted(settled(phase, c)),
        convex(phase, c.drop_last()) ==> convex(phase, settled(phase, c)),
    decreases c.len(),
{
    if must_pop(phase, c) {
        let d = c.remove(c.len() - 2);
        lemma_settled(phase, d);
        assert(d[0] == c[0]);
        assert(d.last() == c.last());
        assert forall|i: int|
            0 <= i < settled(phase, c).len() implies c.contains(#[trigger] settled(phase, c)[i]) by {
            assert(d.contains(settled(phase, d)[i]));
            let k = choose|k: int| 0 <= k < d.len() && d[k] == settled(phase, d)[i];
            if k < c.len() - 2 {
                assert(c[k] == d[k]);
            } else {
                assert(c[k + 1] == d[k]);
            }
        }
        if lex_sorted(c) {
            lemma_remove_sorted(c, c.len() - 2);
        }
        if convex(phase, c.drop_last()) {
            assert forall|i: int| 0 <= i && i + 2 < d.drop_last().len() implies !redundant(
                phase,
                #[trigger] d.drop_last()[i],
                d.drop_last()[i + 1],
                d.drop_last()[i + 2],
            ) by {
                assert(d.drop_last()[i] == c.drop_last()[i]);
                assert(d.drop_last()[i + 1] == c.drop_last()[i + 1]);
                assert(d.drop_last()[i + 2] == c.drop_last()[i + 2]);
            }
        }
    } else {
        assert forall|i: int| 0 <= i < c.len() implies c.contains(#[trigger] c[i]) by {}
        if convex(phase, c.drop_last()) {
            assert forall|i: int| 0 <= i && i + 2 < c.len() implies !redundant(
                phase,
                #[trigger] c[i],
                c[i + 1],
                c[i + 2],
            ) by {
                if i + 3 < c.len() {
                    assert(c.drop_last()[i] == c[i]);
                    assert(c.drop_last()[i + 1] == c[i + 1]);
                    assert(c.drop_last()[i + 2] == c[i + 2]);
                }
            }
        }
    }
}

/// The chain that the scan of sorted points builds is convex for its phase,
/// sorted, made of input points, and runs from the first input point to the
/// last.
pub proof fn lemma_scan_chain(phase: Phase, s: Seq<Point>)
    requires
        lex_sorted(s),
    ensures
        convex(phase, scan_chain(phase, s)),
        lex_sorted(scan_chain(phase, s)),
        scan_chain(phase, s).len() <= s.len(),
        s.len() >= 1 ==> scan_chain(phase, s).len() >= 1 && scan_chain(phase, s)[0] == s[0]
            && scan_chain(phase, s).last() == s.last(),
        s.len() >= 2 ==> scan_chain(phase, s).len() >= 2,
        forall|i: int|
            0 <= i < scan_chain(phase, s).len() ==> s.contains(#[trigger] scan_chain(phase, s)[i]),
    decreases s.len(),
{
    if s.len() > 0 {
        let t = s.drop_last();
        assert(lex_sorted(t)) by {
            assert forall|a: int, b: int| 0 <= a < b < t.len() implies lex_le(
                #[trigger] t[a],
                #[trigger] t[b],
            ) by {
                assert(t[a] == s[a] && t[b] == s[b]);
            }
        }
        lemma_scan_chain(phase, t);
        let prev = scan_chain(phase, t);
        let c = prev.push(s.last());
        assert(c.drop_last() =~= prev);
        assert forall|a: int, b: int| 0 <= a < b < c.len() implies lex_le(
            #[trigger] c[a],
            #[trigger] c[b],
        ) by {
            if b == c.len() - 1 {
                assert(c[a] == prev[a]);
                assert(t.contains(prev[a]));
                let k = choose|k: int| 0 <= k < t.len() && t[k] == prev[a];
                assert(s[k] == t[k]);
                assert(lex_le(s[k], s[s.len() - 1]));
            } else {
                assert(c[a] == prev[a] && c[b] == prev[b]);
            }
        }
        lemma_settled(phase, c);
        assert forall|i: int| 0 <= i < scan_chain(phase, s).len() implies s.contains(
            #[trigger] scan_chain(phase, s)[i],
        ) by {
            assert(c.contains(settled(phase, c)[i]));
            let k = choose|k: int| 0 <= k < c.len() && c[k] == settled(phase, c)[i];
            if k < prev.len() {
                assert(c[k] == prev[k]);
                assert(t.contains(prev[k]));
                let m = choose|m: int| 0 <= m < t.len() && t[m] == prev[k];
                assert(s[m] == t[m]);
            } else {
                assert(s[s.len() - 1] == c[k]);
            }
        }
        if s.len() >= 2 {
            assert(t[0] == s[0]);
        } else {
            assert(prev.len() == 0);
        }
    }
}

proof fn lemma_replay_pops(log: Seq<Operation>, phase: Phase, c: Seq<Point>)
    requires
        replay(log) == c,
    ensures
        replay(log + pops(pop_count(phase, c))) == settled(phase, c),
    decreases c.len(),
{
    if must_pop(phase, c) {
        let d = c.remove(c.len() - 2);
        lemma_replay_push(log, Operation::Pop);
        lemma_replay_pops(log.push(Operation::Pop), phase, d);
        assert(log.push(Operation::Pop) + pops(pop_count(phase, d)) =~= log + pops(
            pop_count(phase, c),
        ));
    } else {
        assert(log + pops(0) =~= log);
    }
}

/// Replaying the log of a scan gives the chain of that scan.
pub proof fn lemma_replay_scan(phase: Phase, s: Seq<Point>)
    ensures
        replay(scan_log(phase, s)) == scan_chain(phase, s),
        s.len() >= 1 ==> scan_log(phase, s).len() >= 1 && scan_log(phase, s)[0]
            == Operation::Push(s[0]),
    decreases s.len(),
{
    if s.len() > 0 {
        let t = s.drop_last();
        lemma_replay_scan(phase, t);
        let l = scan_log(phase, t);
        let c = scan_chain(phase, t).push(s.last());
        lemma_replay_push(l, Operation::Push(s.last()));
        lemma_replay_pops(l.push(Operation::Push(s.last())), phase, c);
        if t.len() >= 1 {
            assert(t[0] == s[0]);
        }
    }
}

} // verus!
