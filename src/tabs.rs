use vstd::prelude::*;
use crate::chain::{Phase, replay};
use crate::geometry::Point;
use crate::graham_scan::AlgorithmWrapper;

verus! {

/// The cursor after one step forward: it stays on the last step.
pub open spec fn advance_step(step: nat, total: nat) -> nat {
    if step + 1 < total {
        step + 1
    } else {
        step
    }
}

/// The cursor after one step back: it stays on the first step.
pub open spec fn retreat_step(step: nat) -> nat {
    if step > 0 {
        (step - 1) as nat
    } else {
        0
    }
}

/// The cursor after `k` steps forward.
pub open spec fn advance_times(step: nat, total: nat, k: nat) -> nat
    decreases k,
{
    if k == 0 {
        step
    } else {
        advance_times(advance_step(step, total), total, (k - 1) as nat)
    }
}

/// The cursor after `k` steps back.
pub open spec fn retreat_times(step: nat, k: nat) -> nat
    decreases k,
{
    if k == 0 {
        step
    } else {
        retreat_times(retreat_step(step), (k - 1) as nat)
    }
}

/// The cursor saturates at both ends: steps forward from a cursor on the
/// timeline stop on the last step, and steps back stop on the first, never
/// wrapping around. In particular `total + 5` steps forward from 0 end on
/// `total - 1`, and from there `total - 1` steps back, or more, end on 0.
pub proof fn lemma_cursor_saturates(step: nat, total: nat, k: nat)
    requires
        step < total || step == 0,
    ensures
        advance_times(step, total, k) == if step + k < total {
            step + k
        } else if total > 0 {
            (total - 1) as nat
        } else {
            step
        },
        retreat_times(step, k) == if k <= step {
            (step - k) as nat
        } else {
            0
        },
    decreases k,
{
    if k > 0 {
        lemma_cursor_saturates(advance_step(step, total), total, (k - 1) as nat);
        lemma_cursor_saturates_back(step, k);
    }
}

proof fn lemma_cursor_saturates_back(step: nat, k: nat)
    ensures
        retreat_times(step, k) == if k <= step {
            (step - k) as nat
        } else {
            0
        },
    decreases k,
{
    if k > 0 {
        lemma_cursor_saturates_back(retreat_step(step), (k - 1) as nat);
    }
}

/// Where a cursor over the whole timeline falls, given the length of the
/// upper log: a phase and the index of the operation within it.
pub open spec fn phase_of(step: nat, upper_len: nat) -> (Phase, nat) {
    if step < upper_len {
        (Phase::Upper, step)
    } else {
        (Phase::Lower, (step - upper_len) as nat)
    }
}

/// One tab: an algorithm and a cursor over its timeline. `max_steps` is
/// `None` until the algorithm has run on the current points.
pub struct Tab {
    pub algorithm: AlgorithmWrapper,
    pub step: usize,
    pub max_steps: Option<usize>,
    pub point_amount: Option<usize>,
}

impl Tab {
    /// The number of steps the cursor ranges over; none before a run.
    pub open spec fn total(&self) -> nat {
        match self.max_steps {
            Some(m) => m as nat,
            None => 0,
        }
    }

    /// The length of the upper log.
    pub open spec fn upper_len(&self) -> nat {
        self.algorithm.engine().upper_log@.len()
    }

    /// Before a run the cursor is 0; after one, the step count is that of
    /// the run on the current points, and the cursor lies on one of its
    /// steps (or at 0 when there are none).
    pub open spec fn wf(&self) -> bool {
        &&& self.algorithm.engine().wf()
        &&& match self.max_steps {
            Some(m) => {
                &&& m == self.algorithm.engine().maximum_step_count
                &&& self.algorithm.engine().computed()
                &&& (self.step < m || self.step == 0)
            },
            None => self.step == 0,
        }
    }

    /// The points drawn at the cursor: the upper chain so far, the lower
    /// chain so far after the final upper chain, and all the points.
    pub open spec fn chains_spec(&self) -> (Seq<Point>, Seq<Point>, Seq<Point>) {
        let e = self.algorithm.engine();
        let points = e.points@;
        if self.total() == 0 {
            (Seq::empty(), Seq::empty(), points)
        } else if self.step < self.upper_len() {
            (e.chain_at_spec(Phase::Upper, self.step as int), Seq::empty(), points)
        } else {
            (
                replay(e.upper_log@),
                e.chain_at_spec(Phase::Lower, self.step - self.upper_len()),
                points,
            )
        }
    }

    pub fn new(algorithm: AlgorithmWrapper) -> (r: Tab)
        requires
            algorithm.engine().wf(),
        ensures
            r.wf(),
            r.algorithm == algorithm,
            r.step == 0,
            r.max_steps.is_none(),
            r.point_amount.is_none(),
    {
        Tab { algorithm, step: 0, max_steps: None, point_amount: None }
    }

    /// One step forward, unless the cursor is on the last step.
    pub fn advance(&mut self)
        requires
            old(self).wf(),
        ensures
            final(self).wf(),
            final(self).step == advance_step(old(self).step as nat, old(self).total()),
            final(self).algorithm == old(self).algorithm,
            final(self).max_steps == old(self).max_steps,
            final(self).point_amount == old(self).point_amount,
    {
        if let Some(m) = self.max_steps {
            if self.step < m && self.step + 1 < m {
                self.step = self.step + 1;
            }
        }
    }

    /// One step back, unless the cursor is on the first step.
    pub fn retreat(&mut self)
        requires
            old(self).wf(),
        ensures
            final(self).wf(),
            final(self).step == retreat_step(old(self).step as nat),
            final(self).algorithm == old(self).algorithm,
            final(self).max_steps == old(self).max_steps,
            final(self).point_amount == old(self).point_amount,
    {
        if self.step > 0 {
            self.step = self.step - 1;
        }
    }

    /// Back to the first step.
    pub fn reset(&mut self)
        requires
            old(self).wf(),
        ensures
            final(self).wf(),
            final(self).step == 0,
            final(self).algorithm == old(self).algorithm,
            final(self).max_steps == old(self).max_steps,
            final(self).point_amount == old(self).point_amount,
    {
        self.step = 0;
    }

    /// The phase the cursor is in, and the index of its operation there.
    pub fn phase_and_local_index(&self) -> (r: (Phase, usize))
        requires
            self.wf(),
            self.total() > 0,
        ensures
            (r.0, r.1 as nat) == phase_of(self.step as nat, self.upper_len()),
    {
        let upper = self.algorithm.scan().step_count(Phase::Upper);
        if self.step < upper {
            (Phase::Upper, self.step)
        } else {
            (Phase::Lower, self.step - upper)
        }
    }

    /// The points to draw at the cursor.
    pub fn current_chains(&self) -> (r: (Vec<Point>, Vec<Point>, Vec<Point>))
        requires
            self.wf(),
        ensures
            (r.0@, r.1@, r.2@) == self.chains_spec(),
    {
        let scan = self.algorithm.scan();
        let points = crate::chain::copy_points(scan.get_points());
        match self.max_steps {
            Some(m) if m > 0 => {
                let (phase, i) = self.phase_and_local_index();
                match phase {
                    Phase::Upper => (scan.chain_at(Phase::Upper, i), Vec::new(), points),
                    Phase::Lower => (
                        scan.final_chain_of(Phase::Upper),
                        scan.chain_at(Phase::Lower, i),
                        points,
                    ),
                }
            },
            _ => (Vec::new(), Vec::new(), points),
        }
    }
}

/// The tabs and which of them is shown.
pub struct TabsState {
    pub tabs: Vec<Tab>,
    pub index: usize,
}

impl TabsState {
    /// At least one tab, the index on one of them, every tab well formed.
    pub open spec fn wf(&self) -> bool {
        &&& self.tabs@.len() > 0
        &&& self.index < self.tabs@.len()
        &&& forall|i: int| 0 <= i < self.tabs@.len() ==> (#[trigger] self.tabs@[i]).wf()
    }

    pub fn new(tabs: Vec<Tab>) -> (r: TabsState)
        ensures
            r.tabs@ == tabs@,
            r.index == 0,
    {
        TabsState { tabs, index: 0 }
    }

    /// The next tab, from the last back to the first.
    pub fn next(&mut self)
        requires
            old(self).index < old(self).tabs@.len(),
        ensures
            final(self).tabs == old(self).tabs,
            final(self).index == (old(self).index + 1) % (old(self).tabs@.len() as int),
    {
        let n = self.tabs.len();
        self.index = (self.index + 1) % n;
    }

    /// The previous tab, from the first on to the last.
    pub fn previous(&mut self)
        requires
            old(self).index < old(self).tabs@.len(),
        ensures
            final(self).tabs == old(self).tabs,
            final(self).index == if old(self).index > 0 {
                old(self).index - 1
            } else {
                old(self).tabs@.len() - 1
            },
    {
        if self.index > 0 {
            self.index = self.index - 1;
        } else {
            self.index = self.tabs.len() - 1;
        }
    }
}

} // verus!
