use vstd::prelude::*;

verus! {

/// A point of the plane with integer coordinates.
#[derive(Clone, Copy, Debug, PartialEq, Eq, Structural)]
pub struct Point {
    pub x: i32,
    pub y: i32,
}

impl Point {
    pub fn new(x: i32, y: i32) -> (r: Point)
        ensures
            r.x == x,
            r.y == y,
    {
        Point { x, y }
    }
}

/// The z-component of the cross product of `b - a` and `c - b`: positive for a
/// counter-clockwise turn at `b`, negative for a clockwise one, zero when the
/// three points are collinear.
pub open spec fn orient(a: Point, b: Point, c: Point) -> int {
    (b.x - a.x) * (c.y - b.y) - (c.x - b.x) * (b.y - a.y)
}

/// Lexicographic order: by `x`, then by `y`.
pub open spec fn lex_le(p: Point, q: Point) -> bool {
    p.x < q.x || (p.x == q.x && p.y <= q.y)
}

/// The orientation test, computed exactly.
pub fn orientation(a: Point, b: Point, c: Point) -> (r: i128)
    ensures
        r == orient(a, b, c),
{
    let ux = b.x as i128 - a.x as i128;
    let uy = b.y as i128 - a.y as i128;
    let vx = c.x as i128 - b.x as i128;
    let vy = c.y as i128 - b.y as i128;
    assert(-0x1_0000_0000 * 0x1_0000_0000 <= ux * vy <= 0x1_0000_0000 * 0x1_0000_0000) by (nonlinear_arith)
        requires
            -0x1_0000_0000 <= ux <= 0x1_0000_0000,
            -0x1_0000_0000 <= vy <= 0x1_0000_0000,
    ;
    assert(-0x1_0000_0000 * 0x1_0000_0000 <= vx * uy <= 0x1_0000_0000 * 0x1_0000_0000) by (nonlinear_arith)
        requires
            -0x1_0000_0000 <= vx <= 0x1_0000_0000,
            -0x1_0000_0000 <= uy <= 0x1_0000_0000,
    ;
    ux * vy - vx * uy
}

/// Whether `p` comes no later than `q` in lexicographic order.
pub fn lex_less_eq(p: Point, q: Point) -> (r: bool)
    ensures
        r == lex_le(p, q),
{
    p.x < q.x || (p.x == q.x && p.y <= q.y)
}

} // verus!
