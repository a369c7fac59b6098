use vstd::prelude::*;
use itertools::Itertools;
use crate::chain::{
    Operation, Phase, build_chain, convex, copy_points, lemma_replay_scan, lemma_scan_chain, pops,
    pop_count, replay, scan_chain, scan_log, snapshots_of,
};
use crate::geometry::{Point, lex_le};
use crate::hull::{lemma_supporting, strictly_sorted, supports};
use crate::sorting::{insert_sorted, lex_sorted, lemma_sorted_points, sort_points, sorted_points};

verus! {

/// How the steps of an algorithm are drawn.
#[derive(Clone, Copy, Debug, PartialEq, Eq, Structural)]
pub enum DrawMethod {
    Edge,
}

/// The segments between neighbours of a chain, in order.
pub open spec fn edges(c: Seq<Point>) -> Seq<(Point, Point)> {
    Seq::new(if c.len() == 0 { 0 } else { (c.len() - 1) as nat }, |i: int| (c[i], c[i + 1]))
}

/// Relies on itertools' `tuple_windows`, which yields each pair of neighbours
/// of the chain in order, and nothing for fewer than two points.
#[verifier::external_body]
fn consecutive_pairs(c: &Vec<Point>) -> (r: Vec<(Point, Point)>)
    ensures
        r@ == edges(c@),
{
    c.iter().tuple_windows().map(|(a, b): (&Point, &Point)| (*a, *b)).collect()
}

/// The monotone-chain hull engine. It keeps the log of operations of each
/// phase and the chain after every one of them.
pub struct GrahamScan {
    pub points: Vec<Point>,
    pub upper_log: Vec<Operation>,
    pub lower_log: Vec<Operation>,
    pub upper_steps: Vec<Vec<Point>>,
    pub lower_steps: Vec<Vec<Point>>,
    pub maximum_step_count: usize,
}

impl GrahamScan {
    /// The snapshots follow the logs, and the step count is the length of
    /// both logs together.
    pub open spec fn wf(&self) -> bool {
        &&& snapshots_of(self.upper_log@, self.upper_steps@)
        &&& snapshots_of(self.lower_log@, self.lower_steps@)
        &&& self.maximum_step_count == self.upper_log@.len() + self.lower_log@.len()
    }

    /// The logs are those of the two scans over the sorted points; a single
    /// point is one push of the upper phase, and there is no lower phase.
    pub open spec fn computed(&self) -> bool {
        &&& self.upper_log@ == scan_log(Phase::Upper, sorted_points(self.points@))
        &&& self.lower_log@ == if self.points@.len() == 1 {
            Seq::empty()
        } else {
            scan_log(Phase::Lower, sorted_points(self.points@))
        }
    }

    /// The final chain of a phase.
    pub open spec fn final_chain(&self, phase: Phase) -> Seq<Point> {
        match phase {
            Phase::Upper => replay(self.upper_log@),
            Phase::Lower => replay(self.lower_log@),
        }
    }

    /// The number of operations in the log of a phase.
    pub open spec fn log_len(&self, phase: Phase) -> nat {
        match phase {
            Phase::Upper => self.upper_log@.len(),
            Phase::Lower => self.lower_log@.len(),
        }
    }

    /// What is drawn after operation `i` of a phase: the upper chain so far;
    /// in the lower phase, the final upper chain followed by the lower chain
    /// so far.
    pub open spec fn chain_at_spec(&self, phase: Phase, i: int) -> Seq<Point> {
        match phase {
            Phase::Upper => replay(self.upper_log@.take(i + 1)),
            Phase::Lower => replay(self.upper_log@) + replay(self.lower_log@.take(i + 1)),
        }
    }

    pub fn new() -> (r: GrahamScan)
        ensures
            r.wf(),
            r.points@.len() == 0,
            r.upper_log@.len() == 0,
            r.lower_log@.len() == 0,
    {
        GrahamScan {
            points: Vec::new(),
            upper_log: Vec::new(),
            lower_log: Vec::new(),
            upper_steps: Vec::new(),
            lower_steps: Vec::new(),
            maximum_step_count: 0,
        }
    }

    /// The name shown on the tab.
    pub fn get_title(&self) -> (r: &str)
        ensures
            r@ == "Graham scan"@,
    {
        "Graham scan"
    }

    pub fn get_draw_method(&self) -> (r: DrawMethod)
        ensures
            r == DrawMethod::Edge,
    {
        DrawMethod::Edge
    }

    /// The points the engine works on.
    pub fn get_points(&self) -> (r: &Vec<Point>)
        ensures
            r@ == self.points@,
    {
        &self.points
    }

    /// Replaces the points, and drops the logs of the former ones.
    pub fn set_points(&mut self, points: Vec<Point>)
        ensures
            final(self).wf(),
            final(self).points@ == points@,
            final(self).upper_log@.len() == 0,
            final(self).lower_log@.len() == 0,
    {
        self.points = points;
        self.upper_log = Vec::new();
        self.lower_log = Vec::new();
        self.upper_steps = Vec::new();
        self.lower_steps = Vec::new();
        self.maximum_step_count = 0;
    }

    /// Runs the upper scan, then the lower scan, each over its own sorted
    /// copy of the points, and records both logs with their snapshots. A
    /// single point is only pushed in the upper phase.
    pub fn calculate(&mut self)
        requires
            old(self).points@.len() <= usize::MAX / 4,
        ensures
            final(self).wf(),
            final(self).computed(),
            final(self).points@ == old(self).points@,
    {
        let sorted = sort_points(&self.points);
        let (upper_log, upper_steps) = build_chain(Phase::Upper, &sorted);
        let (lower_log, lower_steps) = if self.points.len() == 1 {
            (Vec::new(), Vec::new())
        } else {
            let sorted = sort_points(&self.points);
            build_chain(Phase::Lower, &sorted)
        };
        proof {
            lemma_sorted_points(self.points@);
            assert(snapshots_of(lower_log@, lower_steps@));
        }
        self.maximum_step_count = upper_log.len() + lower_log.len();
        self.upper_log = upper_log;
        self.upper_steps = upper_steps;
        self.lower_log = lower_log;
        self.lower_steps = lower_steps;
    }

    /// The number of steps of both phases together.
    pub fn get_maximum_step_count(&self) -> (r: usize)
        requires
            self.wf(),
        ensures
            r == self.upper_log@.len() + self.lower_log@.len(),
    {
        self.maximum_step_count
    }

    /// The number of operations in the log of a phase.
    pub fn step_count(&self, phase: Phase) -> (r: usize)
        ensures
            r == self.log_len(phase),
    {
        match phase {
            Phase::Upper => self.upper_log.len(),
            Phase::Lower => self.lower_log.len(),
        }
    }

    /// The final chain of a phase.
    pub fn final_chain_of(&self, phase: Phase) -> (r: Vec<Point>)
        requires
            self.wf(),
        ensures
            r@ == self.final_chain(phase),
    {
        match phase {
            Phase::Upper => {
                if self.upper_steps.len() == 0 {
                    Vec::new()
                } else {
                    assert(self.upper_log@.take(self.upper_log@.len() as int) =~= self.upper_log@);
                    copy_points(&self.upper_steps[self.upper_steps.len() - 1])
                }
            },
            Phase::Lower => {
                if self.lower_steps.len() == 0 {
                    Vec::new()
                } else {
                    assert(self.lower_log@.take(self.lower_log@.len() as int) =~= self.lower_log@);
                    copy_points(&self.lower_steps[self.lower_steps.len() - 1])
                }
            },
        }
    }

    /// The points drawn after operation `i` of a phase.
    pub fn chain_at(&self, phase: Phase, i: usize) -> (r: Vec<Point>)
        requires
            self.wf(),
            i < self.log_len(phase),
        ensures
            r@ == self.chain_at_spec(phase, i as int),
    {
        match phase {
            Phase::Upper => copy_points(&self.upper_steps[i]),
            Phase::Lower => {
                let mut r = self.final_chain_of(Phase::Upper);
                let mut tail = copy_points(&self.lower_steps[i]);
                r.append(&mut tail);
                r
            },
        }
    }

    /// For every step of the timeline, upper phase first, the segments to
    /// draw: the upper chain so far; in the lower phase, the segments of the
    /// final upper chain followed by those of the lower chain so far.
    pub fn get_steps(&self) -> (r: Vec<Vec<(Point, Point)>>)
        requires
            self.wf(),
        ensures
            r@.len() == self.upper_log@.len() + self.lower_log@.len(),
            forall|i: int|
                0 <= i < self.upper_log@.len() ==> (#[trigger] r@[i])@ == edges(
                    self.chain_at_spec(Phase::Upper, i),
                ),
            forall|j: int|
                0 <= j < self.lower_log@.len() ==> (#[trigger] r@[self.upper_log@.len() + j])@
                    == edges(replay(self.upper_log@)) + edges(replay(self.lower_log@.take(j + 1))),
    {
        let mut r: Vec<Vec<(Point, Point)>> = Vec::new();
        let nu = self.upper_steps.len();
        for i in 0..nu
            invariant
                self.wf(),
                nu == self.upper_log@.len(),
                r@.len() == i,
                forall|k: int|
                    0 <= k < i ==> (#[trigger] r@[k])@ == edges(
                        self.chain_at_spec(Phase::Upper, k),
                    ),
        {
            r.push(consecutive_pairs(&self.upper_steps[i]));
        }
        let upper = self.final_chain_of(Phase::Upper);
        let nl = self.lower_steps.len();
        for j in 0..nl
            invariant
                self.wf(),
                nu == self.upper_log@.len(),
                nl == self.lower_log@.len(),
                upper@ == replay(self.upper_log@),
                r@.len() == nu + j,
                forall|k: int|
                    0 <= k < nu ==> (#[trigger] r@[k])@ == edges(
                        self.chain_at_spec(Phase::Upper, k),
                    ),
                forall|k: int|
                    0 <= k < j ==> (#[trigger] r@[nu + k])@ == edges(replay(self.upper_log@))
                        + edges(replay(self.lower_log@.take(k + 1))),
        {
            let mut e = consecutive_pairs(&upper);
            let mut f = consecutive_pairs(&self.lower_steps[j]);
            e.append(&mut f);
            r.push(e);
            assert(r@[nu + j as int] == e);
        }
        r
    }
}

/// The algorithms a tab can show.
pub enum AlgorithmWrapper {
    GrahamScan(GrahamScan),
}

impl AlgorithmWrapper {
    /// The engine behind the tab.
    pub open spec fn engine(&self) -> GrahamScan {
        match self {
            AlgorithmWrapper::GrahamScan(a) => *a,
        }
    }

    /// Borrows the engine behind the tab.
    pub fn scan(&self) -> (r: &GrahamScan)
        ensures
            *r == self.engine(),
    {
        match self {
            AlgorithmWrapper::GrahamScan(a) => a,
        }
    }

    /// Sets the points the algorithm works with.
    pub fn set_points(&mut self, points: Vec<Point>)
        ensures
            final(self).engine().wf(),
            final(self).engine().points@ == points@,
            final(self).engine().upper_log@.len() == 0,
            final(self).engine().lower_log@.len() == 0,
    {
        match self {
            AlgorithmWrapper::GrahamScan(a) => a.set_points(points),
        }
    }

    /// Runs the algorithm.
    pub fn calculate(&mut self)
        requires
            old(self).engine().points@.len() <= usize::MAX / 4,
        ensures
            final(self).engine().wf(),
            final(self).engine().computed(),
            final(self).engine().points@ == old(self).engine().points@,
    {
        match self {
            AlgorithmWrapper::GrahamScan(a) => a.calculate(),
        }
    }

    /// The number of steps, which bounds the cursor.
    pub fn get_maximum_step_count(&self) -> (r: usize)
        requires
            self.engine().wf(),
        ensures
            r == self.engine().upper_log@.len() + self.engine().lower_log@.len(),
    {
        match self {
            AlgorithmWrapper::GrahamScan(a) => a.get_maximum_step_count(),
        }
    }
}

/// After a run, the final chain of each phase is that of its scan over the
/// sorted points, but for the lower phase of a single point, which is empty.
pub proof fn lemma_final_is_scan(g: GrahamScan, phase: Phase)
    requires
        g.computed(),
    ensures
        phase == Phase::Lower && g.points@.len() == 1 ==> g.final_chain(phase).len() == 0,
        !(phase == Phase::Lower && g.points@.len() == 1) ==> g.final_chain(phase) == scan_chain(
            phase,
            sorted_points(g.points@),
        ),
{
    lemma_replay_scan(phase, sorted_points(g.points@));
}

/// After a run, each final chain is convex for its phase (no turn to the
/// left along the upper chain, none to the right along the lower one), is
/// sorted lexicographically and so has non-decreasing `x`, consists of input
/// points, and runs from the lexicographically smallest input point to the
/// largest (a single point has no lower chain).
pub proof fn lemma_final_chains(g: GrahamScan, phase: Phase)
    requires
        g.computed(),
    ensures
        convex(phase, g.final_chain(phase)),
        lex_sorted(g.final_chain(phase)),
        forall|i: int, j: int|
            0 <= i < j < g.final_chain(phase).len() ==> (#[trigger] g.final_chain(phase)[i]).x
                <= (#[trigger] g.final_chain(phase)[j]).x,
        forall|i: int|
            0 <= i < g.final_chain(phase).len() ==> g.points@.contains(
                #[trigger] g.final_chain(phase)[i],
            ),
        g.points@.len() >= 1 && !(phase == Phase::Lower && g.points@.len() == 1) ==> {
            let c = g.final_chain(phase);
            let s = sorted_points(g.points@);
            &&& c.len() >= 1
            &&& c[0] == s[0]
            &&& c.last() == s.last()
        },
        g.points@.len() >= 2 ==> g.final_chain(phase).len() >= 2,
{
    broadcast use vstd::seq_lib::to_multiset_contains;
    let s = sorted_points(g.points@);
    lemma_sorted_points(g.points@);
    lemma_final_is_scan(g, phase);
    lemma_scan_chain(phase, s);
    let c = g.final_chain(phase);
    assert forall|i: int, j: int| 0 <= i < j < c.len() implies (#[trigger] c[i]).x <= (
    #[trigger] c[j]).x by {
        assert(lex_le(c[i], c[j]));
    }
    assert forall|i: int| 0 <= i < c.len() implies g.points@.contains(#[trigger] c[i]) by {
        assert(s.contains(c[i]));
        assert(s.to_multiset().count(c[i]) > 0);
        assert(g.points@.to_multiset().count(c[i]) > 0);
    }
}

/// Across the boundary between the phases no frame is skipped or repeated:
/// at the last upper step the whole final upper chain is drawn, and at the
/// first lower step the final upper chain followed by the first lower push,
/// the lexicographically smallest point. (A single point has no lower
/// phase, and so no boundary.)
pub proof fn lemma_phase_boundary(g: GrahamScan)
    requires
        g.computed(),
        g.points@.len() >= 2,
    ensures
        g.upper_log@.len() >= 1,
        g.lower_log@.len() >= 1,
        g.chain_at_spec(Phase::Upper, g.upper_log@.len() - 1) == g.final_chain(Phase::Upper),
        g.lower_log@[0] == Operation::Push(sorted_points(g.points@)[0]),
        g.chain_at_spec(Phase::Lower, 0) == g.final_chain(Phase::Upper).push(
            sorted_points(g.points@)[0],
        ),
{
    let s = sorted_points(g.points@);
    lemma_sorted_points(g.points@);
    lemma_replay_scan(Phase::Upper, s);
    lemma_replay_scan(Phase::Lower, s);
    assert(g.upper_log@.take(g.upper_log@.len() as int) =~= g.upper_log@);
    let first = g.lower_log@.take(1);
    assert(first.drop_last() =~= Seq::<Operation>::empty());
    assert(first.last() == g.lower_log@[0]);
    assert(replay(first.drop_last()) == Seq::<Point>::empty());
    assert(replay(first) =~= seq![s[0]]);
    assert(g.final_chain(Phase::Upper) + seq![s[0]] =~= g.final_chain(Phase::Upper).push(s[0]));
}

/// Small inputs: no points give no steps; one point gives a single push,
/// in the upper phase, and no lower phase; two distinct points give two pushes and no pop in each
/// phase, and both chains are the two points in sorted order.
pub proof fn lemma_small_inputs(g: GrahamScan)
    requires
        g.wf(),
        g.computed(),
    ensures
        g.points@.len() == 0 ==> g.maximum_step_count == 0,
        g.points@.len() == 1 ==> {
            &&& g.upper_log@ == seq![Operation::Push(g.points@[0])]
            &&& g.lower_log@.len() == 0
            &&& g.maximum_step_count == 1
        },
        g.points@.len() == 2 && g.points@[0] != g.points@[1] ==> {
            let p = g.points@[0];
            let q = g.points@[1];
            let s = if lex_le(p, q) {
                seq![p, q]
            } else {
                seq![q, p]
            };
            &&& g.upper_log@ == seq![Operation::Push(s[0]), Operation::Push(s[1])]
            &&& g.lower_log@ == seq![Operation::Push(s[0]), Operation::Push(s[1])]
            &&& g.final_chain(Phase::Upper) == s
            &&& g.final_chain(Phase::Lower) == s
            &&& g.maximum_step_count == 4
        },
{
    let pts = g.points@;
    if pts.len() == 0 {
        assert(pts =~= Seq::<Point>::empty());
    }
    if pts.len() == 1 {
        assert(pts.drop_last() =~= Seq::<Point>::empty());
        let s = sorted_points(pts);
        assert(sorted_points(pts.drop_last()) == Seq::<Point>::empty());
        assert(s =~= seq![pts[0]]);
        assert(s.drop_last() =~= Seq::<Point>::empty());
        assert(scan_chain(Phase::Upper, s) =~= seq![pts[0]]);
        assert(pops(0) =~= Seq::<Operation>::empty());
        assert(scan_log(Phase::Upper, s.drop_last()) == Seq::<Operation>::empty());
        assert(scan_chain(Phase::Upper, s.drop_last()) == Seq::<Point>::empty());
        assert(Seq::<Point>::empty().push(pts[0]) =~= seq![pts[0]]);
        assert(pop_count(Phase::Upper, seq![pts[0]]) == 0);
        assert(Seq::<Operation>::empty().push(Operation::Push(pts[0])) + pops(0) =~= seq![
            Operation::Push(pts[0]),
        ]);
        assert(g.upper_log@ =~= seq![Operation::Push(pts[0])]);
    }
    if pts.len() == 2 && pts[0] != pts[1] {
        let p = pts[0];
        let q = pts[1];
        let t = pts.drop_last();
        assert(t =~= seq![p]);
        assert(t.drop_last() =~= Seq::<Point>::empty());
        assert(sorted_points(t.drop_last()) == Seq::<Point>::empty());
        assert(sorted_points(t) =~= seq![p]);
        let s = sorted_points(pts);
        let e = if lex_le(p, q) {
            seq![p, q]
        } else {
            seq![q, p]
        };
        assert(seq![p].drop_last() =~= Seq::<Point>::empty());
        assert(pts.last() == q);
        assert(s == insert_sorted(seq![p], q));
        assert(seq![p].last() == p);
        if lex_le(p, q) {
            assert(seq![p].push(q) =~= e);
        } else {
            assert(insert_sorted(Seq::<Point>::empty(), q) == seq![q]);
            assert(seq![q].push(p) =~= e);
        }
        assert(s =~= e);
        assert(s.drop_last() =~= seq![e[0]]);
        assert(s.drop_last().drop_last() =~= Seq::<Point>::empty());
        assert(pops(0) =~= Seq::<Operation>::empty());
        assert(scan_chain(Phase::Upper, Seq::<Point>::empty()) == Seq::<Point>::empty());
        assert(scan_chain(Phase::Lower, Seq::<Point>::empty()) == Seq::<Point>::empty());
        assert(scan_log(Phase::Upper, Seq::<Point>::empty()) == Seq::<Operation>::empty());
        assert(scan_log(Phase::Lower, Seq::<Point>::empty()) == Seq::<Operation>::empty());
        assert(Seq::<Point>::empty().push(e[0]) =~= seq![e[0]]);
        assert(Seq::<Operation>::empty().push(Operation::Push(e[0])) + pops(0) =~= seq![
            Operation::Push(e[0]),
        ]);
        assert(pop_count(Phase::Upper, seq![e[0]]) == 0);
        assert(pop_count(Phase::Lower, seq![e[0]]) == 0);
        assert(pop_count(Phase::Upper, e) == 0);
        assert(pop_count(Phase::Lower, e) == 0);
        assert(seq![Operation::Push(e[0])].push(Operation::Push(e[1])) + pops(0) =~= seq![
            Operation::Push(e[0]),
            Operation::Push(e[1]),
        ]);
        assert(scan_chain(Phase::Upper, s.drop_last()) =~= seq![e[0]]);
        assert(scan_chain(Phase::Lower, s.drop_last()) =~= seq![e[0]]);
        assert(seq![e[0]].push(e[1]) =~= e);
        assert(scan_log(Phase::Upper, s.drop_last()) =~= seq![Operation::Push(e[0])]);
        assert(scan_log(Phase::Lower, s.drop_last()) =~= seq![Operation::Push(e[0])]);
        assert(g.upper_log@ =~= seq![Operation::Push(e[0]), Operation::Push(e[1])]);
        assert(g.lower_log@ =~= seq![Operation::Push(e[0]), Operation::Push(e[1])]);
        lemma_replay_scan(Phase::Upper, s);
        lemma_replay_scan(Phase::Lower, s);
    }
}

/// Two runs on the same points, in the same order, give the same logs and
/// the same final chains.
pub proof fn lemma_runs_agree(a: GrahamScan, b: GrahamScan)
    requires
        a.computed(),
        b.computed(),
        a.points@ == b.points@,
    ensures
        a.upper_log@ == b.upper_log@,
        a.lower_log@ == b.lower_log@,
        a.final_chain(Phase::Upper) == b.final_chain(Phase::Upper),
        a.final_chain(Phase::Lower) == b.final_chain(Phase::Lower),
{
}

/// For pairwise distinct points, each final chain is a side of the convex
/// hull: the line through each of its edges leaves every input point on its
/// inner side or on the line (below for the upper chain, above for the lower
/// one). With the facts of `lemma_final_chains` (convex, sorted, made of
/// input points, from the smallest input point to the largest), the two
/// chains together are the hull's boundary.
pub proof fn lemma_hull(g: GrahamScan, phase: Phase)
    requires
        g.computed(),
        g.points@.no_duplicates(),
    ensures
        forall|q: Point| #[trigger] g.points@.contains(q) ==> supports(phase, g.final_chain(phase), q),
{
    broadcast use vstd::seq_lib::to_multiset_contains;
    let s = sorted_points(g.points@);
    lemma_sorted_points(g.points@);
    lemma_final_is_scan(g, phase);
    g.points@.lemma_multiset_has_no_duplicates();
    assert forall|x: Point| s.to_multiset().contains(x) implies s.to_multiset().count(x) == 1 by {}
    s.lemma_multiset_has_no_duplicates_conv();
    assert(strictly_sorted(s));
    lemma_supporting(phase, s, s.len() as int);
    assert(s.take(s.len() as int) =~= s);
    assert forall|q: Point| #[trigger] g.points@.contains(q) implies supports(
        phase,
        g.final_chain(phase),
        q,
    ) by {
        if !(phase == Phase::Lower && g.points@.len() == 1) {
            assert(g.points@.to_multiset().count(q) > 0);
            assert(s.to_multiset().count(q) > 0);
            assert(s.take(s.len() as int).contains(q));
        }
    }
}

} // verus!
