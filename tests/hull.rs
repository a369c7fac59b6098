use hull_steps::chain::{build_chain, Operation, Phase};
use hull_steps::geometry::{lex_less_eq, orientation, Point};
use hull_steps::graham_scan::{AlgorithmWrapper, DrawMethod, GrahamScan};
use hull_steps::sorting::sort_points;

fn pts(v: &[(i32, i32)]) -> Vec<Point> {
    v.iter().map(|&(x, y)| Point::new(x, y)).collect()
}

fn run(v: &[(i32, i32)]) -> GrahamScan {
    let mut g = GrahamScan::new();
    g.set_points(pts(v));
    g.calculate();
    g
}

#[test]
fn orientation_signs() {
    let o = Point::new(0, 0);
    assert_eq!(orientation(o, Point::new(1, 0), Point::new(1, 1)), 1);
    assert_eq!(orientation(o, Point::new(1, 0), Point::new(2, 0)), 0);
    assert_eq!(orientation(o, Point::new(1, 1), Point::new(2, 0)), -2);
}

#[test]
fn orientation_extreme_coordinates() {
    let a = Point::new(i32::MIN, i32::MIN);
    let b = Point::new(i32::MAX, i32::MIN);
    let c = Point::new(i32::MAX, i32::MAX);
    let w = (i32::MAX as i128) - (i32::MIN as i128);
    assert_eq!(orientation(a, b, c), w * w);
}

#[test]
fn lexicographic_order() {
    assert!(lex_less_eq(Point::new(1, 5), Point::new(2, 0)));
    assert!(lex_less_eq(Point::new(2, 0), Point::new(2, 1)));
    assert!(lex_less_eq(Point::new(2, 1), Point::new(2, 1)));
    assert!(!lex_less_eq(Point::new(2, 1), Point::new(2, 0)));
}

#[test]
fn sorts_by_x_then_y() {
    let s = sort_points(&pts(&[(2, 1), (0, 0), (2, 0), (1, 5), (0, 0)]));
    assert_eq!(s, pts(&[(0, 0), (0, 0), (1, 5), (2, 0), (2, 1)]));
}

#[test]
fn scenario_interior_point_is_popped() {
    let g = run(&[(0, 0), (4, 0), (2, 2), (2, 1)]);
    let (a, b, c, d) = (
        Point::new(0, 0),
        Point::new(2, 1),
        Point::new(2, 2),
        Point::new(4, 0),
    );
    assert_eq!(
        g.upper_log,
        vec![
            Operation::Push(a),
            Operation::Push(b),
            Operation::Push(c),
            Operation::Pop,
            Operation::Push(d)
        ]
    );
    assert_eq!(g.final_chain_of(Phase::Upper), vec![a, c, d]);
    assert_eq!(
        g.lower_log,
        vec![
            Operation::Push(a),
            Operation::Push(b),
            Operation::Push(c),
            Operation::Push(d),
            Operation::Pop,
            Operation::Pop
        ]
    );
    assert_eq!(g.final_chain_of(Phase::Lower), vec![a, d]);
    assert_eq!(g.get_maximum_step_count(), 11);
    assert_eq!(g.chain_at(Phase::Upper, 2), vec![a, b, c]);
    assert_eq!(g.chain_at(Phase::Upper, 3), vec![a, c]);
    let mut hull = hull_vertices(&g);
    hull.sort_by_key(|p| (p.x, p.y));
    assert_eq!(hull, vec![a, c, d]);
}

#[test]
fn builder_alone() {
    let s = pts(&[(0, 0), (1, 1), (2, 0)]);
    let (log, steps) = build_chain(Phase::Lower, &s);
    assert_eq!(log.len(), 4);
    assert_eq!(log[3], Operation::Pop);
    assert_eq!(steps[3], pts(&[(0, 0), (2, 0)]));
    let (log, steps) = build_chain(Phase::Upper, &s);
    assert_eq!(log.len(), 3);
    assert_eq!(steps[2], s);
}

#[test]
fn steps_draw_segments() {
    let g = run(&[(0, 0), (4, 0), (2, 2), (2, 1)]);
    let steps = g.get_steps();
    assert_eq!(steps.len(), 11);
    assert!(steps[0].is_empty());
    let (a, b, c, d) = (
        Point::new(0, 0),
        Point::new(2, 1),
        Point::new(2, 2),
        Point::new(4, 0),
    );
    assert_eq!(steps[2], vec![(a, b), (b, c)]);
    assert_eq!(steps[4], vec![(a, c), (c, d)]);
    // The first lower step shows the final upper chain and one point more.
    assert_eq!(steps[5], vec![(a, c), (c, d)]);
    assert_eq!(steps[6], vec![(a, c), (c, d), (a, b)]);
    assert_eq!(steps[10], vec![(a, c), (c, d), (a, d)]);
    assert_eq!(g.get_draw_method(), DrawMethod::Edge);
    assert_eq!(g.get_title(), "Graham scan");
}

#[test]
fn boundary_between_phases() {
    let g = run(&[(3, 1), (0, 0), (5, 5), (1, 4), (6, 0), (2, 2)]);
    let u = g.step_count(Phase::Upper);
    let upper = g.final_chain_of(Phase::Upper);
    assert_eq!(g.chain_at(Phase::Upper, u - 1), upper);
    let mut expected = upper.clone();
    expected.push(Point::new(0, 0));
    assert_eq!(g.chain_at(Phase::Lower, 0), expected);
    assert_eq!(g.lower_log[0], Operation::Push(Point::new(0, 0)));
}

#[test]
fn no_points() {
    let g = run(&[]);
    assert_eq!(g.get_maximum_step_count(), 0);
    assert!(g.get_steps().is_empty());
    assert!(g.final_chain_of(Phase::Upper).is_empty());
}

#[test]
fn one_point() {
    let g = run(&[(3, 4)]);
    let p = Point::new(3, 4);
    assert_eq!(g.upper_log, vec![Operation::Push(p)]);
    assert!(g.lower_log.is_empty());
    assert!(g.lower_steps.is_empty());
    assert_eq!(g.upper_steps, vec![vec![p]]);
    assert_eq!(g.get_maximum_step_count(), 1);
    assert_eq!(g.final_chain_of(Phase::Upper), vec![p]);
    assert!(g.final_chain_of(Phase::Lower).is_empty());
    assert_eq!(g.get_steps(), vec![Vec::<(Point, Point)>::new()]);
}

#[test]
fn two_points() {
    let g = run(&[(5, 1), (2, 7)]);
    let (p, q) = (Point::new(2, 7), Point::new(5, 1));
    let pushes = vec![Operation::Push(p), Operation::Push(q)];
    assert_eq!(g.upper_log, pushes);
    assert_eq!(g.lower_log, pushes);
    assert_eq!(g.final_chain_of(Phase::Upper), vec![p, q]);
    assert_eq!(g.final_chain_of(Phase::Lower), vec![p, q]);
    assert_eq!(g.get_maximum_step_count(), 4);
}

#[test]
fn duplicates_and_collinear_points() {
    let g = run(&[(0, 0), (1, 1), (1, 1), (2, 2), (3, 3), (0, 0)]);
    let upper = g.final_chain_of(Phase::Upper);
    let lower = g.final_chain_of(Phase::Lower);
    assert_eq!(upper.first(), Some(&Point::new(0, 0)));
    assert_eq!(upper.last(), Some(&Point::new(3, 3)));
    assert_eq!(lower.first(), Some(&Point::new(0, 0)));
    assert_eq!(lower.last(), Some(&Point::new(3, 3)));
    // Collinear points make no turn, so none of them is ever popped.
    assert_eq!(upper.len(), 6);
    assert_eq!(lower.len(), 6);
}

#[test]
fn same_points_same_run() {
    let v = [(7, 3), (-2, 5), (0, 0), (4, 9), (4, -6), (1, 1), (-3, -3)];
    let a = run(&v);
    let b = run(&v);
    assert_eq!(a.upper_log, b.upper_log);
    assert_eq!(a.lower_log, b.lower_log);
    assert_eq!(a.upper_steps, b.upper_steps);
    assert_eq!(a.lower_steps, b.lower_steps);
    assert_eq!(a.final_chain_of(Phase::Upper), b.final_chain_of(Phase::Upper));
}

#[test]
fn a_new_run_replaces_the_old() {
    let mut g = run(&[(0, 0), (4, 0), (2, 2), (2, 1)]);
    g.set_points(pts(&[(1, 1)]));
    assert_eq!(g.get_maximum_step_count(), 0);
    g.calculate();
    assert_eq!(g.get_maximum_step_count(), 1);
    assert_eq!(g.get_points(), &pts(&[(1, 1)]));
}

#[test]
fn wrapper_forwards() {
    let mut w = AlgorithmWrapper::GrahamScan(GrahamScan::new());
    w.set_points(pts(&[(0, 0), (4, 0), (2, 2), (2, 1)]));
    w.calculate();
    assert_eq!(w.get_maximum_step_count(), 11);
    assert_eq!(w.scan().step_count(Phase::Lower), 6);
}

fn cross(a: Point, b: Point, c: Point) -> i128 {
    let (ax, ay, bx, by, cx, cy) = (
        a.x as i128, a.y as i128, b.x as i128, b.y as i128, c.x as i128, c.y as i128,
    );
    (bx - ax) * (cy - ay) - (by - ay) * (cx - ax)
}

fn dist2(a: Point, b: Point) -> i128 {
    let dx = (a.x - b.x) as i128;
    let dy = (a.y - b.y) as i128;
    dx * dx + dy * dy
}

/// Strict hull vertices by gift wrapping, counter-clockwise.
fn gift_wrap(points: &[Point]) -> Vec<Point> {
    let mut distinct: Vec<Point> = Vec::new();
    for p in points {
        if !distinct.contains(p) {
            distinct.push(*p);
        }
    }
    if distinct.len() < 3 {
        return distinct;
    }
    let start = *distinct.iter().min_by_key(|p| (p.x, p.y)).unwrap();
    let mut hull = vec![start];
    let mut current = start;
    loop {
        let mut next = if distinct[0] == current { distinct[1] } else { distinct[0] };
        for &q in &distinct {
            if q == current {
                continue;
            }
            let c = cross(current, next, q);
            if c < 0 || (c == 0 && dist2(current, q) > dist2(current, next)) {
                next = q;
            }
        }
        if next == start {
            break;
        }
        hull.push(next);
        current = next;
    }
    hull
}

/// The hull polygon from the two final chains, without repeated points and
/// without vertices where the boundary runs straight on.
fn hull_vertices(g: &GrahamScan) -> Vec<Point> {
    let upper = g.final_chain_of(Phase::Upper);
    let lower = g.final_chain_of(Phase::Lower);
    let mut cycle: Vec<Point> = Vec::new();
    for p in lower.iter().chain(upper.iter().rev()) {
        if cycle.last() != Some(p) {
            cycle.push(*p);
        }
    }
    while cycle.len() > 1 && cycle.first() == cycle.last() {
        cycle.pop();
    }
    let mut changed = true;
    while changed && cycle.len() >= 3 {
        changed = false;
        let n = cycle.len();
        for i in 0..n {
            let (a, b, c) = (cycle[(i + n - 1) % n], cycle[i], cycle[(i + 1) % n]);
            if cross(a, b, c) == 0 {
                cycle.remove(i);
                changed = true;
                break;
            }
        }
    }
    cycle
}

#[test]
fn agrees_with_gift_wrapping() {
    let mut seed: u64 = 0x2545_f491_4f6c_dd1d;
    for round in 0..60 {
        let n = 3 + round % 25;
        let mut v: Vec<(i32, i32)> = Vec::new();
        for _ in 0..n {
            seed = seed.wrapping_mul(6364136223846793005).wrapping_add(1442695040888963407);
            let x = ((seed >> 33) % 41) as i32 - 20;
            seed = seed.wrapping_mul(6364136223846793005).wrapping_add(1442695040888963407);
            let y = ((seed >> 33) % 41) as i32 - 20;
            // A repeated point stops the backtracking past it (its
            // orientation with any point is 0), so the hull is only owed
            // for distinct points.
            if !v.contains(&(x, y)) {
                v.push((x, y));
            }
        }
        let g = run(&v);
        let mut ours = hull_vertices(&g);
        let mut reference = gift_wrap(&pts(&v));
        if reference.len() < 3 {
            continue;
        }
        ours.sort_by_key(|p| (p.x, p.y));
        reference.sort_by_key(|p| (p.x, p.y));
        assert_eq!(ours, reference, "points {:?}", v);
    }
}

#[test]
fn repeated_point_blocks_backtracking() {
    let g = run(&[(0, 0), (1, 0), (1, 0), (2, 5)]);
    assert_eq!(g.final_chain_of(Phase::Upper), pts(&[(0, 0), (1, 0), (1, 0), (2, 5)]));
    assert_eq!(g.final_chain_of(Phase::Lower), pts(&[(0, 0), (1, 0), (1, 0), (2, 5)]));
}

#[test]
fn final_chains_are_convex_and_monotone() {
    let v = [(7, 3), (-2, 5), (0, 0), (4, 9), (4, -6), (1, 1), (-3, -3), (4, 2), (-3, 8)];
    let g = run(&v);
    let upper = g.final_chain_of(Phase::Upper);
    let lower = g.final_chain_of(Phase::Lower);
    for w in upper.windows(3) {
        assert!(orientation(w[0], w[1], w[2]) <= 0);
    }
    for w in lower.windows(3) {
        assert!(orientation(w[0], w[1], w[2]) >= 0);
    }
    for w in upper.windows(2).chain(lower.windows(2)) {
        assert!(w[0].x <= w[1].x);
    }
}
