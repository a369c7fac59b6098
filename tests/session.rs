use hull_steps::chain::Phase;
use hull_steps::graham_scan::{AlgorithmWrapper, GrahamScan};
use hull_steps::session::{parse_count, random_points, App, InputError, InputMode, Key, MAX_POINT_AMOUNT};
use hull_steps::tabs::{Tab, TabsState};
use hull_steps::geometry::Point;

fn calculated_tab(v: &[(i32, i32)]) -> Tab {
    let mut g = GrahamScan::new();
    g.set_points(v.iter().map(|&(x, y)| Point::new(x, y)).collect());
    g.calculate();
    let total = g.get_maximum_step_count();
    let mut t = Tab::new(AlgorithmWrapper::GrahamScan(g));
    t.max_steps = Some(total);
    t
}

fn typed(app: &mut App, text: &str) {
    for c in text.chars() {
        app.on_key(Key::Char(c)).unwrap();
    }
}

#[test]
fn cursor_saturates_at_both_ends() {
    let mut t = calculated_tab(&[(0, 0), (4, 0), (2, 2), (2, 1)]);
    let total = t.max_steps.unwrap();
    assert_eq!(total, 11);
    for _ in 0..total + 5 {
        t.advance();
    }
    assert_eq!(t.step, total - 1);
    for _ in 0..total + 5 {
        t.retreat();
    }
    assert_eq!(t.step, 0);
    t.retreat();
    assert_eq!(t.step, 0);
}

#[test]
fn cursor_before_a_run_stays_at_zero() {
    let mut t = Tab::new(AlgorithmWrapper::GrahamScan(GrahamScan::new()));
    t.advance();
    assert_eq!(t.step, 0);
    let (u, l, p) = t.current_chains();
    assert!(u.is_empty() && l.is_empty() && p.is_empty());
}

#[test]
fn phase_and_index_across_the_boundary() {
    let mut t = calculated_tab(&[(0, 0), (4, 0), (2, 2), (2, 1)]);
    for _ in 0..4 {
        t.advance();
    }
    assert_eq!(t.phase_and_local_index(), (Phase::Upper, 4));
    let (u, l, _) = t.current_chains();
    let (a, c, d) = (Point::new(0, 0), Point::new(2, 2), Point::new(4, 0));
    assert_eq!(u, vec![a, c, d]);
    assert!(l.is_empty());
    t.advance();
    assert_eq!(t.phase_and_local_index(), (Phase::Lower, 0));
    let (u, l, p) = t.current_chains();
    assert_eq!(u, vec![a, c, d]);
    assert_eq!(l, vec![a, c, d, a]);
    assert_eq!(p.len(), 4);
    t.retreat();
    assert_eq!(t.phase_and_local_index(), (Phase::Upper, 4));
    t.reset();
    assert_eq!(t.step, 0);
    assert_eq!(t.phase_and_local_index(), (Phase::Upper, 0));
}

#[test]
fn tabs_cycle() {
    let mut s = TabsState::new(vec![
        Tab::new(AlgorithmWrapper::GrahamScan(GrahamScan::new())),
        Tab::new(AlgorithmWrapper::GrahamScan(GrahamScan::new())),
        Tab::new(AlgorithmWrapper::GrahamScan(GrahamScan::new())),
    ]);
    s.next();
    s.next();
    assert_eq!(s.index, 2);
    s.next();
    assert_eq!(s.index, 0);
    s.previous();
    assert_eq!(s.index, 2);
}

#[test]
fn parses_counts() {
    assert_eq!(parse_count("42"), Ok(42));
    assert_eq!(parse_count("007"), Ok(7));
    assert_eq!(parse_count(""), Err(InputError::InvalidInput));
    assert_eq!(parse_count("4a"), Err(InputError::InvalidInput));
    assert_eq!(parse_count("-3"), Err(InputError::InvalidInput));
    assert_eq!(parse_count("99999999999999999999999"), Err(InputError::InvalidInput));
    assert_eq!(parse_count(&usize::MAX.to_string()), Ok(usize::MAX));
}

#[test]
fn random_points_lie_in_bounds() {
    let v = random_points(200, [-5, 5], [10, 12]);
    assert_eq!(v.len(), 200);
    for p in &v {
        assert!(-5 <= p.x && p.x <= 5 && 10 <= p.y && p.y <= 12);
    }
    let one = random_points(3, [7, 7], [-1, -1]);
    assert_eq!(one, vec![Point::new(7, -1); 3]);
}

#[test]
fn session_runs_on_enter() {
    let mut app = App::new("hulls", [-200, 200], [-100, 100]);
    assert_eq!(app.title, "hulls");
    app.on_key(Key::Char('4')).unwrap();
    assert!(app.input.is_empty());
    app.on_key(Key::Char('i')).unwrap();
    assert_eq!(app.input_mode, InputMode::Editing);
    typed(&mut app, "1x5");
    assert_eq!(app.input, "15");
    app.on_key(Key::Backspace).unwrap();
    typed(&mut app, "2");
    assert_eq!(app.input, "12");
    app.on_key(Key::Enter).unwrap();
    let tab = app.get_current_tab();
    assert_eq!(tab.point_amount, Some(12));
    assert_eq!(tab.step, 0);
    let total = tab.max_steps.unwrap();
    assert_eq!(total, tab.algorithm.get_maximum_step_count());
    let points = tab.algorithm.scan().get_points();
    assert_eq!(points.len(), 12);
    for p in points {
        assert!(-200 <= p.x && p.x <= 200 && -100 <= p.y && p.y <= 100);
    }
    app.on_key(Key::Right).unwrap();
    app.on_key(Key::Right).unwrap();
    assert_eq!(app.get_current_tab().step, 2);
    app.on_key(Key::Left).unwrap();
    assert_eq!(app.get_current_tab().step, 1);
    app.on_key(Key::Tab).unwrap();
    assert_eq!(app.tab_state.index, 1);
    assert_eq!(app.get_current_tab().max_steps, None);
    app.on_key(Key::BackTab).unwrap();
    assert_eq!(app.tab_state.index, 0);
    assert_eq!(app.get_current_tab().step, 1);
    app.on_key(Key::Esc).unwrap();
    assert_eq!(app.input_mode, InputMode::Normal);
    app.on_key(Key::Char('q')).unwrap();
    assert!(app.should_quit);
}

#[test]
fn refused_count_changes_nothing() {
    let mut app = App::new("hulls", [0, 10], [0, 10]);
    app.on_key(Key::Char('i')).unwrap();
    typed(&mut app, "3");
    app.on_key(Key::Enter).unwrap();
    app.on_key(Key::Right).unwrap();
    let total = app.get_current_tab().max_steps;
    app.on_key(Key::Backspace).unwrap();
    assert_eq!(app.on_key(Key::Enter), Err(InputError::InvalidInput));
    assert_eq!(app.get_current_tab().step, 1);
    assert_eq!(app.get_current_tab().max_steps, total);
    assert_eq!(app.get_current_tab().point_amount, Some(3));
    typed(&mut app, &(MAX_POINT_AMOUNT as u128 + 1).to_string());
    assert_eq!(app.reset_tab(), Err(InputError::TooManyPoints));
    assert_eq!(app.get_current_tab().step, 1);
}

#[test]
fn zero_points_run() {
    let mut app = App::new("hulls", [0, 10], [0, 10]);
    app.on_key(Key::Char('i')).unwrap();
    typed(&mut app, "0");
    app.on_key(Key::Enter).unwrap();
    assert_eq!(app.get_current_tab().max_steps, Some(0));
    app.on_key(Key::Right).unwrap();
    assert_eq!(app.get_current_tab().step, 0);
}

#[test]
fn setup_after_reset() {
    let mut app = App::new("hulls", [0, 10], [0, 10]);
    app.input = "5".to_string();
    app.reset_tab().unwrap();
    assert_eq!(app.get_current_tab().point_amount, Some(5));
    app.setup_tab();
    assert_eq!(app.get_current_tab().max_steps, Some(0));
    app.get_current_tab_mut().step = 0;
}

#[test]
fn one_point_timeline() {
    let mut t = calculated_tab(&[(3, 4)]);
    assert_eq!(t.max_steps, Some(1));
    t.advance();
    assert_eq!(t.step, 0);
    assert_eq!(t.phase_and_local_index(), (Phase::Upper, 0));
    let (u, l, p) = t.current_chains();
    assert_eq!(u, vec![Point::new(3, 4)]);
    assert!(l.is_empty());
    assert_eq!(p, vec![Point::new(3, 4)]);
}

#[test]
fn new_session_is_fresh() {
    let app = App::new("hulls", [-200, 200], [-100, 100]);
    assert_eq!(app.tab_state.tabs.len(), 2);
    for tab in &app.tab_state.tabs {
        assert_eq!(tab.step, 0);
        assert_eq!(tab.max_steps, None);
        assert_eq!(tab.point_amount, None);
        let g = tab.algorithm.scan();
        assert!(g.get_points().is_empty());
        assert!(g.upper_log.is_empty() && g.lower_log.is_empty());
    }
    assert_eq!(app.input_mode, InputMode::Normal);
    assert!(app.input.is_empty());
    assert!(!app.should_quit);
}

#[test]
fn refused_first_count_leaves_fresh_tab() {
    let mut app = App::new("t", [-200, 200], [-100, 100]);
    assert_eq!(app.reset_tab(), Err(InputError::InvalidInput));
    assert_eq!(app.get_current_tab().point_amount, None);
    assert_eq!(app.get_current_tab().max_steps, None);
    assert!(app.input.is_empty());
    app.on_key(Key::Char('i')).unwrap();
    assert_eq!(app.on_key(Key::Enter), Err(InputError::InvalidInput));
    assert_eq!(app.get_current_tab().point_amount, None);
    assert_eq!(app.input_mode, InputMode::Editing);
}
