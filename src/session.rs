use vstd::prelude::*;
use rand::Rng;
use crate::geometry::Point;
use crate::graham_scan::{AlgorithmWrapper, GrahamScan};
use crate::tabs::{Tab, TabsState, advance_step, retreat_step};

verus! {

/// Whether keys go to the commands or to the point-count input.
#[derive(Clone, Copy, Debug, PartialEq, Eq, Structural)]
pub enum InputMode {
    Normal,
    Editing,
}

/// The keys the session reacts to.
#[derive(Clone, Copy, Debug, PartialEq, Eq, Structural)]
pub enum Key {
    Right,
    Left,
    Tab,
    BackTab,
    Enter,
    Backspace,
    Esc,
    Char(char),
    Other,
}

/// Why a point count was refused.
#[derive(Clone, Copy, Debug, PartialEq, Eq, Structural)]
pub enum InputError {
    /// The text is not a non-negative integer that fits in `usize`.
    InvalidInput,
    /// The count is beyond what the step counter can hold.
    TooManyPoints,
}

/// The largest point count a run accepts.
pub const MAX_POINT_AMOUNT: usize = usize::MAX / 4;

pub open spec fn is_digit(c: char) -> bool {
    '0' <= c <= '9'
}

pub open spec fn all_digits(s: Seq<char>) -> bool {
    forall|i: int| 0 <= i < s.len() ==> is_digit(#[trigger] s[i])
}

/// The number that a string of decimal digits writes.
pub open spec fn digits_value(s: Seq<char>) -> nat
    decreases s.len(),
{
    if s.len() == 0 {
        0
    } else {
        digits_value(s.drop_last()) * 10 + ((s.last() as u32) - ('0' as u32)) as nat
    }
}

/// Whether `s` writes a point count: one or more decimal digits, of a value
/// that fits in `usize`.
pub open spec fn valid_count(s: Seq<char>) -> bool {
    s.len() > 0 && all_digits(s) && digits_value(s) <= usize::MAX
}

proof fn lemma_digits_value_grows(s: Seq<char>, k: int)
    requires
        all_digits(s),
        0 <= k <= s.len(),
    ensures
        digits_value(s.take(k)) <= digits_value(s),
    decreases s.len() - k,
{
    if k < s.len() {
        lemma_digits_value_grows(s, k + 1);
        assert(s.take(k + 1).drop_last() =~= s.take(k));
    } else {
        assert(s.take(k) =~= s);
    }
}

/// Reads a point count written in decimal digits.
pub fn parse_count(s: &str) -> (r: Result<usize, InputError>)
    ensures
        match r {
            Ok(v) => valid_count(s@) && v == digits_value(s@),
            Err(e) => !valid_count(s@) && e == InputError::InvalidInput,
        },
{
    let n = s.unicode_len();
    if n == 0 {
        return Err(InputError::InvalidInput);
    }
    let mut acc: usize = 0;
    let mut i: usize = 0;
    while i < n
        invariant
            n == s@.len(),
            i <= n,
            all_digits(s@.take(i as int)),
            acc == digits_value(s@.take(i as int)),
        decreases n - i,
    {
        let c = s.get_char(i);
        if !('0' <= c && c <= '9') {
            return Err(InputError::InvalidInput);
        }
        let d = (c as u32 - '0' as u32) as usize;
        assert(s@.take(i + 1).drop_last() =~= s@.take(i as int));
        assert(all_digits(s@.take(i + 1))) by {
            assert forall|j: int| 0 <= j < i + 1 implies is_digit(#[trigger] s@.take(i + 1)[j]) by {
                if j < i {
                    assert(s@.take(i + 1)[j] == s@.take(i as int)[j]);
                }
            }
        }
        if acc > (usize::MAX - d) / 10 {
            proof {
                let m = usize::MAX - d;
                assert(acc * 10 + d > usize::MAX) by (nonlinear_arith)
                    requires
                        acc > m / 10,
                        m == usize::MAX - d,
                        d <= 9,
                ;
                if all_digits(s@) {
                    lemma_digits_value_grows(s@, i + 1);
                }
            }
            return Err(InputError::InvalidInput);
        }
        assert(acc * 10 + d <= usize::MAX) by (nonlinear_arith)
            requires
                acc <= (usize::MAX - d) / 10,
                d <= 9,
        ;
        acc = acc * 10 + d;
        i = i + 1;
    }
    assert(s@.take(n as int) =~= s@);
    Ok(acc)
}

/// Relies on rand's `gen_range` with an inclusive range, drawn from the
/// thread-local generator: the value lies in the range, which must not be
/// empty.
#[verifier::external_body]
fn random_in(low: i32, high: i32) -> (r: i32)
    requires
        low <= high,
    ensures
        low <= r <= high,
{
    rand::thread_rng().gen_range(low..=high)
}

/// Relies on `String::push`: the character is appended.
#[verifier::external_body]
fn push_char(s: &mut String, c: char)
    ensures
        final(s)@ == old(s)@.push(c),
{
    s.push(c)
}

/// Relies on `String::pop`: the last character, if any, is removed.
#[verifier::external_body]
fn pop_char(s: &mut String)
    ensures
        final(s)@ == if old(s)@.len() > 0 {
            old(s)@.drop_last()
        } else {
            old(s)@
        },
{
    s.pop();
}

/// `n` points drawn at random within the bounds, both ends included.
pub fn random_points(n: usize, x_bounds: [i32; 2], y_bounds: [i32; 2]) -> (r: Vec<Point>)
    requires
        x_bounds[0] <= x_bounds[1],
        y_bounds[0] <= y_bounds[1],
    ensures
        r@.len() == n,
        forall|i: int|
            0 <= i < n ==> x_bounds[0] <= (#[trigger] r@[i]).x <= x_bounds[1] && y_bounds[0]
                <= r@[i].y <= y_bounds[1],
{
    let mut r: Vec<Point> = Vec::new();
    for k in 0..n
        invariant
            x_bounds[0] <= x_bounds[1],
            y_bounds[0] <= y_bounds[1],
            r@.len() == k,
            forall|i: int|
                0 <= i < k ==> x_bounds[0] <= (#[trigger] r@[i]).x <= x_bounds[1] && y_bounds[0]
                    <= r@[i].y <= y_bounds[1],
    {
        let x = random_in(x_bounds[0], x_bounds[1]);
        let y = random_in(y_bounds[0], y_bounds[1]);
        r.push(Point::new(x, y));
    }
    r
}

/// The session: the tabs, the point-count input and the drawing bounds.
pub struct App {
    pub title: String,
    pub tab_state: TabsState,
    pub input_mode: InputMode,
    pub input: String,
    pub x_bounds: [i32; 2],
    pub y_bounds: [i32; 2],
    pub should_quit: bool,
}

impl App {
    pub open spec fn wf(&self) -> bool {
        &&& self.tab_state.wf()
        &&& self.x_bounds[0] <= self.x_bounds[1]
        &&& self.y_bounds[0] <= self.y_bounds[1]
    }

    /// The tab shown.
    pub open spec fn current(&self) -> Tab {
        self.tab_state.tabs@[self.tab_state.index as int]
    }

    /// Everything but the tabs is as in `o`.
    pub open spec fn same_frame(&self, o: &App) -> bool {
        &&& self.title@ == o.title@
        &&& self.input_mode == o.input_mode
        &&& self.input@ == o.input@
        &&& self.x_bounds == o.x_bounds
        &&& self.y_bounds == o.y_bounds
        &&& self.should_quit == o.should_quit
        &&& self.tab_state.index == o.tab_state.index
    }

    /// Only the tab shown differs from `o`, and it is `t`.
    pub open spec fn current_becomes(&self, o: &App, t: Tab) -> bool {
        &&& self.same_frame(o)
        &&& self.tab_state.tabs@ == o.tab_state.tabs@.update(o.tab_state.index as int, t)
    }

    pub fn new(title: &str, x_bounds: [i32; 2], y_bounds: [i32; 2]) -> (r: App)
        requires
            x_bounds[0] <= x_bounds[1],
            y_bounds[0] <= y_bounds[1],
        ensures
            r.wf(),
            r.title@ == title@,
            r.tab_state.tabs@.len() == 2,
            r.tab_state.index == 0,
            forall|k: int|
                0 <= k < 2 ==> {
                    let t = #[trigger] r.tab_state.tabs@[k];
                    &&& t.step == 0
                    &&& t.max_steps.is_none()
                    &&& t.point_amount.is_none()
                    &&& t.algorithm.engine().points@.len() == 0
                    &&& t.algorithm.engine().upper_log@.len() == 0
                    &&& t.algorithm.engine().lower_log@.len() == 0
                },
            r.input_mode == InputMode::Normal,
            r.input@.len() == 0,
            r.x_bounds == x_bounds,
            r.y_bounds == y_bounds,
            !r.should_quit,
    {
        let mut tabs: Vec<Tab> = Vec::new();
        tabs.push(Tab::new(AlgorithmWrapper::GrahamScan(GrahamScan::new())));
        tabs.push(Tab::new(AlgorithmWrapper::GrahamScan(GrahamScan::new())));
        App {
            title: String::from_str(title),
            tab_state: TabsState::new(tabs),
            input_mode: InputMode::Normal,
            input: String::new(),
            x_bounds,
            y_bounds,
            should_quit: false,
        }
    }

    /// The tab shown.
    pub fn get_current_tab(&self) -> (r: &Tab)
        requires
            self.wf(),
        ensures
            *r == self.current(),
    {
        &self.tab_state.tabs[self.tab_state.index]
    }

    /// The tab shown, to change it.
    pub fn get_current_tab_mut(&mut self) -> (r: &mut Tab)
        requires
            old(self).wf(),
        ensures
            *r == old(self).current(),
            final(self).current_becomes(old(self), *final(r)),
    {
        let i = self.tab_state.index;
        &mut self.tab_state.tabs[i]
    }

    /// Takes the point count from the input: the tab shown is reset to its
    /// first step and will draw that many points. A refused count changes
    /// nothing.
    pub fn reset_tab(&mut self) -> (r: Result<(), InputError>)
        requires
            old(self).wf(),
        ensures
            final(self).wf(),
            match r {
                Ok(()) => {
                    &&& valid_count(old(self).input@)
                    &&& digits_value(old(self).input@) <= MAX_POINT_AMOUNT
                    &&& final(self).current_becomes(
                        old(self),
                        Tab {
                            step: 0,
                            point_amount: Some(digits_value(old(self).input@) as usize),
                            ..old(self).current()
                        },
                    )
                },
                Err(e) => {
                    &&& *final(self) == *old(self)
                    &&& e == if !valid_count(old(self).input@) {
                        InputError::InvalidInput
                    } else {
                        InputError::TooManyPoints
                    }
                    &&& valid_count(old(self).input@) ==> digits_value(old(self).input@)
                        > MAX_POINT_AMOUNT
                },
            },
    {
        let amount = match parse_count(self.input.as_str()) {
            Ok(a) => a,
            Err(e) => {
                return Err(e);
            },
        };
        if amount > MAX_POINT_AMOUNT {
            return Err(InputError::TooManyPoints);
        }
        let tab = self.get_current_tab_mut();
        tab.step = 0;
        tab.point_amount = Some(amount);
        Ok(())
    }

    /// Draws the tab's point count of random points within the bounds and
    /// hands them to its algorithm; the tab waits for a run.
    fn generate_points(&mut self)
        requires
            old(self).wf(),
        ensures
            final(self).wf(),
            final(self).same_frame(old(self)),
            final(self).tab_state.tabs@.len() == old(self).tab_state.tabs@.len(),
            forall|i: int|
                0 <= i < old(self).tab_state.tabs@.len() && i != old(self).tab_state.index
                    ==> final(self).tab_state.tabs@[i] == old(self).tab_state.tabs@[i],
            final(self).current().step == 0,
            final(self).current().max_steps.is_none(),
            final(self).current().point_amount == old(self).current().point_amount,
            final(self).current().algorithm.engine().points@.len() == match old(
                self,
            ).current().point_amount {
                Some(n) => n as nat,
                None => 0,
            },
            forall|i: int|
                0 <= i < final(self).current().algorithm.engine().points@.len() ==> {
                    let p = #[trigger] final(self).current().algorithm.engine().points@[i];
                    &&& old(self).x_bounds[0] <= p.x <= old(self).x_bounds[1]
                    &&& old(self).y_bounds[0] <= p.y <= old(self).y_bounds[1]
                },
    {
        let n = match self.get_current_tab().point_amount {
            Some(n) => n,
            None => 0,
        };
        let points = random_points(n, self.x_bounds, self.y_bounds);
        let tab = self.get_current_tab_mut();
        tab.algorithm.set_points(points);
        tab.max_steps = None;
        tab.step = 0;
    }

    /// Runs the algorithm of the tab shown on its points, and puts the
    /// cursor on the first step.
    pub fn setup_tab(&mut self)
        requires
            old(self).wf(),
            old(self).current().algorithm.engine().points@.len() <= MAX_POINT_AMOUNT,
        ensures
            final(self).wf(),
            final(self).same_frame(old(self)),
            final(self).tab_state.tabs@.len() == old(self).tab_state.tabs@.len(),
            forall|i: int|
                0 <= i < old(self).tab_state.tabs@.len() && i != old(self).tab_state.index
                    ==> final(self).tab_state.tabs@[i] == old(self).tab_state.tabs@[i],
            final(self).current().algorithm.engine().points@ == old(
                self,
            ).current().algorithm.engine().points@,
            final(self).current().algorithm.engine().computed(),
            final(self).current().max_steps == Some(
                final(self).current().algorithm.engine().maximum_step_count,
            ),
            final(self).current().step == 0,
            final(self).current().point_amount == old(self).current().point_amount,
    {
        let tab = self.get_current_tab_mut();
        tab.algorithm.calculate();
        let m = tab.algorithm.get_maximum_step_count();
        tab.max_steps = Some(m);
        tab.step = 0;
    }

    /// Handles one key. Right and Left move the cursor of the tab shown,
    /// Tab and BackTab change tabs. In normal mode `i` starts editing and `q`
    /// asks to quit; while editing, digits and Backspace change the input,
    /// Esc stops editing, and Enter draws the points and runs the algorithm.
    /// Only Enter can fail, on a refused count, and then nothing changes.
    pub fn on_key(&mut self, key: Key) -> (r: Result<(), InputError>)
        requires
            old(self).wf(),
        ensures
            final(self).wf(),
            r.is_err() ==> {
                &&& key == Key::Enter
                &&& old(self).input_mode == InputMode::Editing
                &&& *final(self) == *old(self)
                &&& r == Err::<(), InputError>(refusal(old(self).input@))
            },
            key == Key::Right ==> r.is_ok() && final(self).current_becomes(
                old(self),
                Tab {
                    step: advance_step(
                        old(self).current().step as nat,
                        old(self).current().total(),
                    ) as usize,
                    ..old(self).current()
                },
            ),
            key == Key::Left ==> r.is_ok() && final(self).current_becomes(
                old(self),
                Tab { step: retreat_step(old(self).current().step as nat) as usize, ..old(self).current() },
            ),
            key == Key::Tab ==> r.is_ok() && *final(self) == (App {
                tab_state: TabsState {
                    index: ((old(self).tab_state.index + 1) % (old(self).tab_state.tabs@.len() as int)) as usize,
                    ..old(self).tab_state
                },
                ..*old(self)
            }),
            key == Key::BackTab ==> r.is_ok() && *final(self) == (App {
                tab_state: TabsState {
                    index: if old(self).tab_state.index > 0 {
                        (old(self).tab_state.index - 1) as usize
                    } else {
                        (old(self).tab_state.tabs@.len() - 1) as usize
                    },
                    ..old(self).tab_state
                },
                ..*old(self)
            }),
            old(self).input_mode == InputMode::Normal ==> {
                &&& key == Key::Char('i') ==> *final(self) == (App {
                    input_mode: InputMode::Editing,
                    ..*old(self)
                })
                &&& key == Key::Char('q') ==> *final(self) == (App {
                    should_quit: true,
                    ..*old(self)
                })
                &&& (key == Key::Enter || key == Key::Backspace || key == Key::Esc || key
                    == Key::Other || (key is Char && key != Key::Char('i') && key != Key::Char(
                    'q',
                ))) ==> *final(self) == *old(self)
            },
            old(self).input_mode == InputMode::Editing ==> {
                &&& key == Key::Esc ==> *final(self) == (App {
                    input_mode: InputMode::Normal,
                    ..*old(self)
                })
                &&& key is Char ==> *final(self) == (App { input: final(self).input, ..*old(self) })
                    && final(self).input@ == if is_digit(key->Char_0) {
                    old(self).input@.push(key->Char_0)
                } else {
                    old(self).input@
                }
                &&& key == Key::Backspace ==> *final(self) == (App {
                    input: final(self).input,
                    ..*old(self)
                }) && final(self).input@ == if old(self).input@.len() > 0 {
                    old(self).input@.drop_last()
                } else {
                    old(self).input@
                }
                &&& key == Key::Other ==> *final(self) == *old(self)
                &&& key == Key::Enter ==> (r.is_ok() <==> (valid_count(old(self).input@)
                    && digits_value(old(self).input@) <= MAX_POINT_AMOUNT))
                &&& key == Key::Enter && r.is_ok() ==> committed(
                    old(self),
                    final(self),
                    digits_value(old(self).input@),
                )
            },
    {
        match key {
            Key::Right => {
                let tab = self.get_current_tab_mut();
                tab.advance();
                return Ok(());
            },
            Key::Left => {
                let tab = self.get_current_tab_mut();
                tab.retreat();
                return Ok(());
            },
            Key::Tab => {
                self.tab_state.next();
                return Ok(());
            },
            Key::BackTab => {
                self.tab_state.previous();
                return Ok(());
            },
            _ => {},
        }
        match self.input_mode {
            InputMode::Normal => match key {
                Key::Char('i') => {
                    self.input_mode = InputMode::Editing;
                },
                Key::Char('q') => {
                    self.should_quit = true;
                },
                _ => {},
            },
            InputMode::Editing => match key {
                Key::Enter => {
                    match self.reset_tab() {
                        Ok(()) => {},
                        Err(e) => {
                            return Err(e);
                        },
                    }
                    self.generate_points();
                    self.setup_tab();
                },
                Key::Char(c) => {
                    if '0' <= c && c <= '9' {
                        push_char(&mut self.input, c);
                    }
                },
                Key::Backspace => {
                    pop_char(&mut self.input);
                },
                Key::Esc => {
                    self.input_mode = InputMode::Normal;
                },
                _ => {},
            },
        }
        Ok(())
    }
}

/// The error a refused point count gets.
pub open spec fn refusal(s: Seq<char>) -> InputError {
    if !valid_count(s) {
        InputError::InvalidInput
    } else {
        InputError::TooManyPoints
    }
}

/// `post` is `pre` after a run on `n` fresh random points within the bounds
/// in the tab shown, with the cursor on the first step; the other tabs and
/// the rest of the session are as they were.
pub open spec fn committed(pre: &App, post: &App, n: nat) -> bool {
    let t = post.current();
    let e = t.algorithm.engine();
    &&& post.same_frame(pre)
    &&& post.tab_state.tabs@.len() == pre.tab_state.tabs@.len()
    &&& forall|i: int|
        0 <= i < pre.tab_state.tabs@.len() && i != pre.tab_state.index
            ==> post.tab_state.tabs@[i] == pre.tab_state.tabs@[i]
    &&& t.step == 0
    &&& t.point_amount == Some(n as usize)
    &&& t.max_steps == Some(e.maximum_step_count)
    &&& e.computed()
    &&& e.points@.len() == n
    &&& forall|i: int|
        0 <= i < n ==> {
            let p = #[trigger] e.points@[i];
            &&& pre.x_bounds[0] <= p.x <= pre.x_bounds[1]
            &&& pre.y_bounds[0] <= p.y <= pre.y_bounds[1]
        }
}

} // verus!
