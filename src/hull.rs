//! Why the monotone chain yields the hull: the algebra of turns, and the
//! induction over the scan.

use vstd::prelude::*;
use crate::chain::{Phase, convex, lemma_scan_chain, lemma_settled, must_pop, redundant, scan_chain, settled};
use crate::geometry::{Point, lex_le, orient};

verus! {

pub open spec fn cross(ax: int, ay: int, bx: int, by: int) -> int {
    ax * by - ay * bx
}

/// Points right, or straight up.
pub open spec fn lex_pos(x: int, y: int) -> bool {
    x > 0 || (x == 0 && y > 0)
}

/// Points left, or straight down.
pub open spec fn lex_neg(x: int, y: int) -> bool {
    x < 0 || (x == 0 && y < 0)
}

/// A turn that the phase allows: clockwise or none above, counter-clockwise
/// or none below.
pub open spec fn allowed(upper: bool, t: int) -> bool {
    if upper {
        t <= 0
    } else {
        t >= 0
    }
}

proof fn lemma_mul_le0(a: int, b: int)
    requires
        a <= 0 && b >= 0 || a >= 0 && b <= 0,
    ensures
        a * b <= 0,
{
    assert(a * b <= 0) by (nonlinear_arith)
        requires
            a <= 0 && b >= 0 || a >= 0 && b <= 0,
    ;
}

proof fn lemma_mul_ge0(a: int, b: int)
    requires
        a <= 0 && b <= 0 || a >= 0 && b >= 0,
    ensures
        a * b >= 0,
{
    assert(a * b >= 0) by (nonlinear_arith)
        requires
            a <= 0 && b <= 0 || a >= 0 && b >= 0,
    ;
}

proof fn lemma_div_sign(a: int, b: int)
    requires
        b > 0,
    ensures
        a * b <= 0 ==> a <= 0,
        a * b >= 0 ==> a >= 0,
        a * b < 0 ==> a < 0,
        a * b > 0 ==> a > 0,
{
    assert(a * b <= 0 ==> a <= 0) by (nonlinear_arith)
        requires
            b > 0,
    ;
    assert(a * b >= 0 ==> a >= 0) by (nonlinear_arith)
        requires
            b > 0,
    ;
    assert(a * b < 0 ==> a < 0) by (nonlinear_arith)
        requires
            b > 0,
    ;
    assert(a * b > 0 ==> a > 0) by (nonlinear_arith)
        requires
            b > 0,
    ;
}

proof fn lemma_three_vectors(ax: int, ay: int, bx: int, by: int, cx: int, cy: int)
    ensures
        cross(ax, ay, bx, by) * cx == cross(cx, cy, bx, by) * ax + cross(ax, ay, cx, cy) * bx,
        cross(ax, ay, bx, by) * cy == cross(cx, cy, bx, by) * ay + cross(ax, ay, cx, cy) * by,
{
    assert((ax * by - ay * bx) * cx == (cx * by - cy * bx) * ax + (ax * cy - ay * cx) * bx)
        by (nonlinear_arith);
    assert((ax * by - ay * bx) * cy == (cx * by - cy * bx) * ay + (ax * cy - ay * cx) * by)
        by (nonlinear_arith);
}

proof fn lemma_four_vectors(ux: int, uy: int, wx: int, wy: int, vx: int, vy: int, rx: int, ry: int)
    ensures
        cross(ux, uy, wx, wy) * cross(vx, vy, rx, ry) == cross(wx, wy, rx, ry) * cross(
            ux,
            uy,
            vx,
            vy,
        ) - cross(ux, uy, rx, ry) * cross(wx, wy, vx, vy),
{
    lemma_three_vectors(ux, uy, wx, wy, rx, ry);
    let k = cross(ux, uy, wx, wy);
    let a = cross(rx, ry, wx, wy);
    let b = cross(ux, uy, rx, ry);
    assert(vx * (k * ry) == vx * (a * uy + b * wy));
    assert(vy * (k * rx) == vy * (a * ux + b * wx));
    assert(k * (vx * ry - vy * rx) == vx * (k * ry) - vy * (k * rx)) by (nonlinear_arith);
    assert(vx * (a * uy + b * wy) == a * (vx * uy) + b * (vx * wy)) by (nonlinear_arith);
    assert(vy * (a * ux + b * wx) == a * (vy * ux) + b * (vy * wx)) by (nonlinear_arith);
    assert(a * (vx * uy) - a * (vy * ux) == a * (vx * uy - vy * ux)) by (nonlinear_arith);
    assert(b * (vx * wy) - b * (vy * wx) == b * (vx * wy - vy * wx)) by (nonlinear_arith);
    assert(a == -cross(wx, wy, rx, ry));
    assert(vx * uy - vy * ux == -(ux * vy - uy * vx)) by (nonlinear_arith);
    assert(vx * wy - vy * wx == -(wx * vy - wy * vx)) by (nonlinear_arith);
    assert(a * (vx * uy - vy * ux) == cross(wx, wy, rx, ry) * cross(ux, uy, vx, vy))
        by (nonlinear_arith)
        requires
            a == -cross(wx, wy, rx, ry),
            vx * uy - vy * ux == -cross(ux, uy, vx, vy),
    ;
    assert(b * (vx * wy - vy * wx) == -(b * cross(wx, wy, vx, vy))) by (nonlinear_arith)
        requires
            vx * wy - vy * wx == -cross(wx, wy, vx, vy),
    ;
}

proof fn lemma_cross_zero_x(ax: int, ay: int, bx: int, by: int)
    requires
        ax == 0,
    ensures
        cross(ax, ay, bx, by) == -(ay * bx),
{
    assert(ax * by == 0) by (nonlinear_arith)
        requires
            ax == 0,
    ;
}

proof fn lemma_cross_zero_x2(ax: int, ay: int, bx: int, by: int)
    requires
        bx == 0,
    ensures
        cross(ax, ay, bx, by) == ax * by,
{
    assert(ay * bx == 0) by (nonlinear_arith)
        requires
            bx == 0,
    ;
}

/// Two vectors that both point right (or straight up) are less than a
/// half-turn apart, so the order of their directions is transitive.
pub proof fn lemma_turn_transitive(
    upper: bool,
    ax: int,
    ay: int,
    bx: int,
    by: int,
    cx: int,
    cy: int,
)
    requires
        lex_pos(ax, ay),
        lex_pos(bx, by),
        lex_pos(cx, cy),
        allowed(upper, cross(ax, ay, bx, by)),
        allowed(upper, cross(bx, by, cx, cy)),
    ensures
        allowed(upper, cross(ax, ay, cx, cy)),
{
    let ab = cross(ax, ay, bx, by);
    let bc = cross(bx, by, cx, cy);
    let ac = cross(ax, ay, cx, cy);
    lemma_three_vectors(ax, ay, cx, cy, bx, by);
    assert(ac * bx == bc * ax + ab * cx);
    if bx > 0 {
        if upper {
            lemma_mul_le0(bc, ax);
            lemma_mul_le0(ab, cx);
        } else {
            lemma_mul_ge0(bc, ax);
            lemma_mul_ge0(ab, cx);
        }
        lemma_div_sign(ac, bx);
    } else {
        lemma_cross_zero_x2(ax, ay, bx, by);
        lemma_cross_zero_x(bx, by, cx, cy);
        if upper {
            lemma_div_sign(ax, by);
            lemma_cross_zero_x(ax, ay, cx, cy);
            lemma_mul_ge0(ay, cx);
        } else {
            lemma_div_sign(cx, by);
            lemma_cross_zero_x2(ax, ay, cx, cy);
            lemma_mul_ge0(ax, cy);
        }
    }
}

/// A point on the inner side of two edges that meet at a vertex the phase
/// allows is on the inner side of the line from that vertex to any point
/// inside the first edge and outside the second. Vectors start at the
/// vertex: `u` to the point before it, `w` to the point after it, `v` to the
/// new point, `r` to the point tested.
pub proof fn lemma_wedge_vectors(
    upper: bool,
    ux: int,
    uy: int,
    wx: int,
    wy: int,
    vx: int,
    vy: int,
    rx: int,
    ry: int,
)
    requires
        lex_neg(ux, uy),
        lex_pos(wx, wy),
        lex_pos(vx, vy),
        allowed(!upper, cross(ux, uy, wx, wy)),
        allowed(!upper, cross(ux, uy, rx, ry)),
        allowed(upper, cross(wx, wy, rx, ry)),
        allowed(!upper, cross(ux, uy, vx, vy)),
        !allowed(upper, cross(wx, wy, vx, vy)),
    ensures
        allowed(upper, cross(vx, vy, rx, ry)),
{
    let uw = cross(ux, uy, wx, wy);
    let ur = cross(ux, uy, rx, ry);
    let wr = cross(wx, wy, rx, ry);
    let uv = cross(ux, uy, vx, vy);
    let wv = cross(wx, wy, vx, vy);
    let vr = cross(vx, vy, rx, ry);
    lemma_four_vectors(ux, uy, wx, wy, vx, vy, rx, ry);
    if uw != 0 {
        lemma_mul_le0(wr, uv);
        lemma_mul_ge0(ur, wv);
        if upper {
            lemma_div_sign(vr, uw);
        } else {
            assert(uw < 0);
            assert(uw * vr <= 0);
            assert(vr >= 0) by (nonlinear_arith)
                requires
                    uw * vr <= 0,
                    uw < 0,
            ;
        }
    } else {
        // u and w are parallel and point opposite ways, so the new point
        // cannot be inside one edge and outside the other.
        lemma_three_vectors(ux, uy, wx, wy, vx, vy);
        assert(cross(vx, vy, wx, wy) == -wv);
        assert(uw * vx == 0 && uw * vy == 0) by (nonlinear_arith)
            requires
                uw == 0,
        ;
        assert(cross(vx, vy, wx, wy) * ux == -(wv * ux)) by (nonlinear_arith)
            requires
                cross(vx, vy, wx, wy) == -wv,
        ;
        assert(cross(vx, vy, wx, wy) * uy == -(wv * uy)) by (nonlinear_arith)
            requires
                cross(vx, vy, wx, wy) == -wv,
        ;
        assert(0 == -(wv * ux) + uv * wx);
        assert(0 == -(wv * uy) + uv * wy);
        if upper {
            lemma_mul_le0(wv, ux);
            lemma_mul_ge0(uv, wx);
        } else {
            lemma_mul_ge0(wv, ux);
            lemma_mul_le0(uv, wx);
        }
        assert(ux == 0) by (nonlinear_arith)
            requires
                wv * ux == 0,
                wv != 0,
        ;
        if wx > 0 {
            assert(uv == 0) by (nonlinear_arith)
                requires
                    uv * wx == 0,
                    wx > 0,
            ;
            assert(wv * uy != 0) by (nonlinear_arith)
                requires
                    wv != 0,
                    uy < 0,
            ;
        } else {
            if upper {
                lemma_mul_ge0(uv, wy);
                assert(wv * uy < 0) by (nonlinear_arith)
                    requires
                        wv > 0,
                        uy < 0,
                ;
            } else {
                lemma_mul_le0(uv, wy);
                assert(wv * uy > 0) by (nonlinear_arith)
                    requires
                        wv < 0,
                        uy < 0,
                ;
            }
        }
    }
}

/// At the leftmost point, which has no edge before it: a point to its right
/// (or above it, or the point itself) on the inner side of its first edge is
/// on the inner side of the line to any point outside that edge.
pub proof fn lemma_first_vectors(
    upper: bool,
    wx: int,
    wy: int,
    vx: int,
    vy: int,
    rx: int,
    ry: int,
)
    requires
        lex_pos(wx, wy),
        lex_pos(vx, vy),
        lex_pos(rx, ry) || (rx == 0 && ry == 0),
        allowed(upper, cross(wx, wy, rx, ry)),
        !allowed(upper, cross(wx, wy, vx, vy)),
    ensures
        allowed(upper, cross(vx, vy, rx, ry)),
{
    let wr = cross(wx, wy, rx, ry);
    let wv = cross(wx, wy, vx, vy);
    let vr = cross(vx, vy, rx, ry);
    lemma_three_vectors(wx, wy, vx, vy, rx, ry);
    assert((rx * vy - ry * vx) * wx == -((vx * ry - vy * rx) * wx)) by (nonlinear_arith);
    assert(vr * wx == wr * vx - wv * rx);
    if wx > 0 {
        if upper {
            lemma_mul_le0(wr, vx);
            lemma_mul_ge0(wv, rx);
        } else {
            lemma_mul_ge0(wr, vx);
            lemma_mul_le0(wv, rx);
        }
        lemma_div_sign(vr, wx);
    } else {
        lemma_cross_zero_x(wx, wy, vx, vy);
        lemma_cross_zero_x(wx, wy, rx, ry);
        if upper {
            lemma_mul_ge0(wy, vx);
        } else {
            lemma_div_sign(-rx, wy);
            assert(-rx * wy == -(wy * rx)) by (nonlinear_arith);
            lemma_cross_zero_x(rx, ry, vx, vy);
            assert(vr == vx * ry) by (nonlinear_arith)
                requires
                    rx == 0,
                    vr == vx * ry - vy * rx,
            ;
            lemma_mul_ge0(vx, ry);
        }
    }
}

/// At the last point of a chain, with a point after it that needs no
/// pop: a point before the last (or the last itself) on the inner side of
/// the last edge is on the inner side of the line to the new point. `u` goes
/// from the last point back to the one before it.
pub proof fn lemma_last_vectors(
    upper: bool,
    ux: int,
    uy: int,
    vx: int,
    vy: int,
    rx: int,
    ry: int,
)
    requires
        lex_neg(ux, uy),
        lex_pos(vx, vy),
        lex_neg(rx, ry) || (rx == 0 && ry == 0),
        allowed(!upper, cross(ux, uy, rx, ry)),
        allowed(!upper, cross(ux, uy, vx, vy)),
    ensures
        allowed(upper, cross(vx, vy, rx, ry)),
{
    let ur = cross(ux, uy, rx, ry);
    let uv = cross(ux, uy, vx, vy);
    let vr = cross(vx, vy, rx, ry);
    lemma_three_vectors(ux, uy, vx, vy, rx, ry);
    assert((rx * vy - ry * vx) * ux == -((vx * ry - vy * rx) * ux)) by (nonlinear_arith);
    assert(vr * ux == ur * vx - uv * rx);
    if ux < 0 {
        if upper {
            lemma_mul_ge0(ur, vx);
            lemma_mul_ge0(uv, -rx);
            assert(uv * -rx == -(uv * rx)) by (nonlinear_arith);
            assert(vr * ux >= 0);
            assert(vr <= 0) by (nonlinear_arith)
                requires
                    vr * ux >= 0,
                    ux < 0,
            ;
        } else {
            lemma_mul_le0(ur, vx);
            lemma_mul_le0(uv, -rx);
            assert(uv * -rx == -(uv * rx)) by (nonlinear_arith);
            assert(vr * ux <= 0);
            assert(vr >= 0) by (nonlinear_arith)
                requires
                    vr * ux <= 0,
                    ux < 0,
            ;
        }
    } else {
        lemma_cross_zero_x(ux, uy, rx, ry);
        lemma_cross_zero_x(ux, uy, vx, vy);
        if upper {
            assert(rx >= 0) by (nonlinear_arith)
                requires
                    -(uy * rx) >= 0,
                    uy < 0,
            ;
            assert(vr == vx * ry) by (nonlinear_arith)
                requires
                    rx == 0,
                    vr == vx * ry - vy * rx,
            ;
            lemma_mul_le0(vx, ry);
        } else {
            assert(vx <= 0) by (nonlinear_arith)
                requires
                    -(uy * vx) <= 0,
                    uy < 0,
            ;
            assert(vr == -(vy * rx)) by (nonlinear_arith)
                requires
                    vx == 0,
                    vr == vx * ry - vy * rx,
            ;
            lemma_mul_le0(vy, rx);
        }
    }
}

/// `p` comes strictly before `q` in lexicographic order.
pub open spec fn lex_lt(p: Point, q: Point) -> bool {
    lex_le(p, q) && p != q
}

/// Every earlier point comes strictly before every later one.
pub open spec fn strictly_sorted(s: Seq<Point>) -> bool {
    forall|i: int, j: int| 0 <= i < j < s.len() ==> lex_lt(#[trigger] s[i], #[trigger] s[j])
}

/// The orientation of `a`, `b`, `c` from vectors at `b`.
proof fn lemma_orient_at(a: Point, b: Point, c: Point)
    ensures
        orient(a, b, c) == -cross(a.x - b.x, a.y - b.y, c.x - b.x, c.y - b.y),
        orient(a, b, c) == cross(b.x - a.x, b.y - a.y, c.x - b.x, c.y - b.y),
{
    let (ax, ay, bx, by, cx, cy) = (a.x as int, a.y as int, b.x as int, b.y as int, c.x as int, c.y as int);
    assert((bx - ax) * (cy - by) - (cx - bx) * (by - ay) == -((ax - bx) * (cy - by) - (ay - by) * (
    cx - bx))) by (nonlinear_arith);
    assert((bx - ax) * (cy - by) - (cx - bx) * (by - ay) == (bx - ax) * (cy - by) - (by - ay) * (cx
        - bx)) by (nonlinear_arith);
}

/// The orientation of `b`, `e`, `q` from vectors at `b`.
proof fn lemma_orient_from(b: Point, e: Point, q: Point)
    ensures
        orient(b, e, q) == cross(e.x - b.x, e.y - b.y, q.x - b.x, q.y - b.y),
{
    let (bx, by, ex, ey, qx, qy) = (b.x as int, b.y as int, e.x as int, e.y as int, q.x as int, q.y as int);
    assert((ex - bx) * (qy - ey) - (qx - ex) * (ey - by) == (ex - bx) * (qy - by) - (ey - by) * (qx
        - bx)) by (nonlinear_arith);
}

/// Point-level form of the wedge: the vertex `b` between `a` and `e`.
pub proof fn lemma_wedge(phase: Phase, a: Point, b: Point, e: Point, p: Point, q: Point)
    requires
        lex_lt(a, b),
        lex_lt(b, e),
        lex_lt(b, p),
        !redundant(phase, a, b, e),
        !redundant(phase, a, b, q),
        !redundant(phase, b, e, q),
        !redundant(phase, a, b, p),
        redundant(phase, b, e, p),
    ensures
        !redundant(phase, b, p, q),
{
    let upper = phase == Phase::Upper;
    lemma_orient_at(a, b, e);
    lemma_orient_at(a, b, q);
    lemma_orient_at(a, b, p);
    lemma_orient_from(b, e, q);
    lemma_orient_from(b, e, p);
    lemma_orient_from(b, p, q);
    lemma_wedge_vectors(
        upper,
        a.x - b.x,
        a.y - b.y,
        e.x - b.x,
        e.y - b.y,
        p.x - b.x,
        p.y - b.y,
        q.x - b.x,
        q.y - b.y,
    );
}

/// Point-level form at the leftmost point `b`.
pub proof fn lemma_first(phase: Phase, b: Point, e: Point, p: Point, q: Point)
    requires
        lex_lt(b, e),
        lex_lt(b, p),
        lex_le(b, q),
        !redundant(phase, b, e, q),
        redundant(phase, b, e, p),
    ensures
        !redundant(phase, b, p, q),
{
    lemma_orient_from(b, e, q);
    lemma_orient_from(b, e, p);
    lemma_orient_from(b, p, q);
    lemma_first_vectors(
        phase == Phase::Upper,
        e.x - b.x,
        e.y - b.y,
        p.x - b.x,
        p.y - b.y,
        q.x - b.x,
        q.y - b.y,
    );
}

/// Point-level form at the last point `b` of a chain that takes `p`
/// without a pop.
pub proof fn lemma_last(phase: Phase, a: Point, b: Point, p: Point, q: Point)
    requires
        lex_lt(a, b),
        lex_lt(b, p),
        lex_le(q, b),
        !redundant(phase, a, b, q),
        !redundant(phase, a, b, p),
    ensures
        !redundant(phase, b, p, q),
{
    lemma_orient_at(a, b, q);
    lemma_orient_at(a, b, p);
    lemma_orient_from(b, p, q);
    lemma_last_vectors(
        phase == Phase::Upper,
        a.x - b.x,
        a.y - b.y,
        p.x - b.x,
        p.y - b.y,
        q.x - b.x,
        q.y - b.y,
    );
}

/// The turn from the direction of edge `i` to that of edge `l`.
pub open spec fn edge_turn(c: Seq<Point>, i: int, l: int) -> int {
    cross(
        c[i + 1].x - c[i].x,
        c[i + 1].y - c[i].y,
        c[l + 1].x - c[l].x,
        c[l + 1].y - c[l].y,
    )
}

proof fn lemma_edge_turns(phase: Phase, c: Seq<Point>, i: int, l: int)
    requires
        strictly_sorted(c),
        convex(phase, c),
        0 <= i < l,
        l + 1 < c.len(),
    ensures
        allowed(phase == Phase::Upper, edge_turn(c, i, l)),
    decreases l - i,
{
    let upper = phase == Phase::Upper;
    assert(lex_lt(c[l - 1], c[l]) && lex_lt(c[l], c[l + 1]));
    lemma_orient_at(c[l - 1], c[l], c[l + 1]);
    assert(!redundant(phase, c[l - 1], c[l], c[l + 1]));
    if i + 1 < l {
        lemma_edge_turns(phase, c, i, l - 1);
        assert(lex_lt(c[i], c[i + 1]));
        lemma_turn_transitive(
            upper,
            c[i + 1].x - c[i].x,
            c[i + 1].y - c[i].y,
            c[l].x - c[l - 1].x,
            c[l].y - c[l - 1].y,
            c[l + 1].x - c[l].x,
            c[l + 1].y - c[l].y,
        );
    }
}

proof fn lemma_orient_step(a: Point, b: Point, x: Point, y: Point)
    ensures
        orient(a, b, y) == orient(a, b, x) + cross(b.x - a.x, b.y - a.y, y.x - x.x, y.y - x.y),
{
    lemma_orient_at(a, b, x);
    lemma_orient_at(a, b, y);
    let (ax, ay, bx, by) = (a.x as int, a.y as int, b.x as int, b.y as int);
    let (xx, xy, yx, yy) = (x.x as int, x.y as int, y.x as int, y.y as int);
    assert((bx - ax) * (yy - by) - (by - ay) * (yx - bx) == (bx - ax) * (xy - by) - (by - ay) * (xx
        - bx) + ((bx - ax) * (yy - xy) - (by - ay) * (yx - xx))) by (nonlinear_arith);
}

/// In a convex chain of strictly sorted points, every later point lies on
/// the inner side of the line through every edge.
pub proof fn lemma_convex_chain(phase: Phase, c: Seq<Point>, i: int, k: int)
    requires
        strictly_sorted(c),
        convex(phase, c),
        0 <= i,
        i + 1 < k < c.len(),
    ensures
        !redundant(phase, c[i], c[i + 1], c[k]),
    decreases k,
{
    let upper = phase == Phase::Upper;
    if k == i + 2 {
    } else {
        lemma_convex_chain(phase, c, i, k - 1);
        lemma_orient_step(c[i], c[i + 1], c[k - 1], c[k]);
        lemma_edge_turns(phase, c, i, k - 1);
    }
}

/// `q` lies on the inner side of the line through every edge of the chain
/// `c`, or on that line.
pub open spec fn supports(phase: Phase, c: Seq<Point>, q: Point) -> bool {
    forall|i: int| 0 <= i && i + 1 < c.len() ==> !redundant(phase, #[trigger] c[i], c[i + 1], q)
}

proof fn lemma_remove_strict(c: Seq<Point>, j: int)
    requires
        strictly_sorted(c),
        0 <= j < c.len(),
    ensures
        strictly_sorted(c.remove(j)),
{
    let d = c.remove(j);
    assert forall|a: int, b: int| 0 <= a < b < d.len() implies lex_lt(
        #[trigger] d[a],
        #[trigger] d[b],
    ) by {
        let a0 = if a < j { a } else { a + 1 };
        let b0 = if b < j { b } else { b + 1 };
        assert(d[a] == c[a0] && d[b] == c[b0]);
    }
}

proof fn lemma_settled_strict(phase: Phase, c: Seq<Point>)
    requires
        strictly_sorted(c),
    ensures
        strictly_sorted(settled(phase, c)),
    decreases c.len(),
{
    if must_pop(phase, c) {
        lemma_remove_strict(c, c.len() - 2);
        lemma_settled_strict(phase, c.remove(c.len() - 2));
    }
}

proof fn lemma_take_strict(s: Seq<Point>, k: int)
    requires
        strictly_sorted(s),
        0 <= k <= s.len(),
    ensures
        strictly_sorted(s.take(k)),
        crate::sorting::lex_sorted(s.take(k)),
{
    let t = s.take(k);
    assert forall|a: int, b: int| 0 <= a < b < t.len() implies lex_lt(#[trigger] t[a], #[trigger] t[b]) by {
        assert(t[a] == s[a] && t[b] == s[b]);
    }
}

/// The chain of a scan over strictly sorted points is strictly sorted.
proof fn lemma_scan_chain_strict(phase: Phase, s: Seq<Point>)
    requires
        strictly_sorted(s),
    ensures
        strictly_sorted(scan_chain(phase, s)),
    decreases s.len(),
{
    if s.len() > 0 {
        let t = s.drop_last();
        lemma_take_strict(s, s.len() - 1);
        assert(t =~= s.take(s.len() - 1));
        lemma_scan_chain_strict(phase, t);
        lemma_scan_chain(phase, t);
        let prev = scan_chain(phase, t);
        let c = prev.push(s.last());
        assert forall|a: int, b: int| 0 <= a < b < c.len() implies lex_lt(
            #[trigger] c[a],
            #[trigger] c[b],
        ) by {
            if b == c.len() - 1 {
                assert(c[a] == prev[a]);
                assert(t.contains(prev[a]));
                let k = choose|k: int| 0 <= k < t.len() && t[k] == prev[a];
                assert(s[k] == t[k]);
            } else {
                assert(c[a] == prev[a] && c[b] == prev[b]);
            }
        }
        lemma_settled_strict(phase, c);
    }
}

/// Where the backtracking after pushing `p` onto `c.take(i + 1)` stops.
pub open spec fn settle_index(phase: Phase, c: Seq<Point>, p: Point, i: int) -> int
    decreases i,
{
    if i >= 1 && redundant(phase, c[i - 1], c[i], p) {
        settle_index(phase, c, p, i - 1)
    } else {
        i
    }
}

proof fn lemma_settle_index(phase: Phase, c: Seq<Point>, p: Point, i: int)
    requires
        0 <= i < c.len(),
    ensures
        0 <= settle_index(phase, c, p, i) <= i,
        settled(phase, c.take(i + 1).push(p)) == c.take(settle_index(phase, c, p, i) + 1).push(p),
        settle_index(phase, c, p, i) >= 1 ==> !redundant(
            phase,
            c[settle_index(phase, c, p, i) - 1],
            c[settle_index(phase, c, p, i)],
            p,
        ),
        settle_index(phase, c, p, i) < i ==> redundant(
            phase,
            c[settle_index(phase, c, p, i)],
            c[settle_index(phase, c, p, i) + 1],
            p,
        ),
    decreases i,
{
    let d = c.take(i + 1).push(p);
    if i >= 1 {
        assert(d[d.len() - 3] == c[i - 1] && d[d.len() - 2] == c[i] && d[d.len() - 1] == p);
    }
    if i >= 1 && redundant(phase, c[i - 1], c[i], p) {
        assert(must_pop(phase, d));
        assert(d.remove(d.len() - 2) =~= c.take(i).push(p));
        lemma_settle_index(phase, c, p, i - 1);
    } else {
        assert(!must_pop(phase, d));
    }
}

proof fn lemma_orient_repeat(b: Point, p: Point)
    ensures
        orient(b, p, p) == 0,
        orient(b, p, b) == 0,
{
    lemma_orient_from(b, p, b);
    assert(cross(p.x - b.x, p.y - b.y, 0, 0) == 0);
}

/// The edge from where the backtracking stopped to the new point `p` leaves
/// each earlier point `q == s[y]` on its inner side.
proof fn lemma_new_edge(
    phase: Phase,
    s: Seq<Point>,
    c: Seq<Point>,
    p: Point,
    q: Point,
    j: int,
    k: int,
    y: int,
)
    requires
        strictly_sorted(s),
        2 <= k <= s.len(),
        p == s[k - 1],
        0 <= y < k - 1,
        q == s[y],
        strictly_sorted(c),
        convex(phase, c),
        c.len() >= 2 || k == 2,
        c.len() >= 1,
        c[0] == s[0],
        c[c.len() - 1] == s[k - 2],
        k == 2 ==> c.len() == 1,
        forall|x: int| 0 <= x < c.len() ==> lex_lt(#[trigger] c[x], p),
        supports(phase, c, q),
        j == settle_index(phase, c, p, c.len() - 1),
        0 <= j <= c.len() - 1,
        j >= 1 ==> !redundant(phase, c[j - 1], c[j], p),
        j < c.len() - 1 ==> redundant(phase, c[j], c[j + 1], p),
    ensures
        !redundant(phase, c[j], p, q),
{
    let m = c.len() - 1;
    lemma_orient_repeat(c[j], p);
    if j == m {
        if m == 0 {
            assert(q == c[0]);
        } else {
            assert(lex_lt(c[m - 1], c[m]));
            if y < k - 2 {
                assert(lex_lt(s[y], s[k - 2]));
            }
            assert(!redundant(phase, c[m - 1], c[m], q));
            lemma_last(phase, c[m - 1], c[m], p, q);
        }
    } else if j == 0 {
        assert(lex_lt(c[0], c[1]));
        if y > 0 {
            assert(lex_lt(s[0], s[y]));
        }
        assert(!redundant(phase, c[0], c[1], q));
        lemma_first(phase, c[0], c[1], p, q);
    } else {
        assert(lex_lt(c[j - 1], c[j]) && lex_lt(c[j], c[j + 1]));
        assert(!redundant(phase, c[j - 1], c[j], q));
        assert(!redundant(phase, c[j], c[j + 1], q));
        assert(!redundant(phase, c[j - 1], c[j], c[j + 1]));
        lemma_wedge(phase, c[j - 1], c[j], c[j + 1], p, q);
    }
}

/// The chain after the step that takes `p == s[k - 1]` leaves the point `q`
/// of the first `k` points on the inner side of each of its edges.
#[verifier::spinoff_prover]
proof fn lemma_supporting_point(
    phase: Phase,
    s: Seq<Point>,
    k: int,
    c: Seq<Point>,
    f: Seq<Point>,
    j: int,
    q: Point,
)
    requires
        strictly_sorted(s),
        2 <= k <= s.len(),
        c == scan_chain(phase, s.take(k - 1)),
        strictly_sorted(c),
        strictly_sorted(f),
        convex(phase, c),
        convex(phase, f),
        c.len() >= 2 || k == 2,
        c.len() >= 1,
        c[0] == s[0],
        c[c.len() - 1] == s[k - 2],
        k == 2 ==> c.len() == 1,
        forall|x: int| 0 <= x < c.len() ==> lex_lt(#[trigger] c[x], s[k - 1]),
        j == settle_index(phase, c, s[k - 1], c.len() - 1),
        0 <= j <= c.len() - 1,
        j >= 1 ==> !redundant(phase, c[j - 1], c[j], s[k - 1]),
        j < c.len() - 1 ==> redundant(phase, c[j], c[j + 1], s[k - 1]),
        f == c.take(j + 1).push(s[k - 1]),
        s.take(k).contains(q),
        forall|r: Point| #[trigger] s.take(k - 1).contains(r) ==> supports(phase, c, r),
    ensures
        supports(phase, f, q),
{
    let p = s[k - 1];
    let t = s.take(k);
    let y = choose|y: int| 0 <= y < t.len() && t[y] == q;
    assert(s[y] == q);
    if q != p {
        assert(y < k - 1);
        assert(s.take(k - 1)[y] == q);
        assert(s.take(k - 1).contains(q));
        assert(supports(phase, c, q));
    }
    assert forall|i: int| 0 <= i && i + 1 < f.len() implies !redundant(
        phase,
        #[trigger] f[i],
        f[i + 1],
        q,
    ) by {
        if i < j {
            assert(f[i] == c[i] && f[i + 1] == c[i + 1]);
            if q == p {
                assert(f[f.len() - 1] == p);
                lemma_convex_chain(phase, f, i, f.len() - 1);
            }
        } else {
            assert(f[i] == c[j] && f[i + 1] == p);
            lemma_orient_repeat(c[j], p);
            if q != p {
                lemma_new_edge(phase, s, c, p, q, j, k, y);
            }
        }
    }
}

#[verifier::spinoff_prover]
proof fn lemma_supporting_step(phase: Phase, s: Seq<Point>, k: int)
    requires
        strictly_sorted(s),
        2 <= k <= s.len(),
        forall|q: Point|
            #[trigger] s.take(k - 1).contains(q) ==> supports(
                phase,
                scan_chain(phase, s.take(k - 1)),
                q,
            ),
    ensures
        forall|q: Point|
            #[trigger] s.take(k).contains(q) ==> supports(phase, scan_chain(phase, s.take(k)), q),
{
    let t = s.take(k);
    let prev = s.take(k - 1);
    assert(t.drop_last() =~= prev);
    let p = s[k - 1];
    assert(t.last() == p);
    lemma_take_strict(s, k - 1);
    lemma_take_strict(s, k);
    let c = scan_chain(phase, prev);
    lemma_scan_chain(phase, prev);
    lemma_scan_chain(phase, t);
    lemma_scan_chain_strict(phase, prev);
    lemma_scan_chain_strict(phase, t);
    let f = scan_chain(phase, t);
    assert(f == settled(phase, c.push(p)));
    let m = c.len() - 1;
    assert(c.take(m + 1) =~= c);
    lemma_settle_index(phase, c, p, m);
    let j = settle_index(phase, c, p, m);
    assert(f == c.take(j + 1).push(p));
    assert forall|x: int| 0 <= x < c.len() implies lex_lt(#[trigger] c[x], p) by {
        assert(prev.contains(c[x]));
        let y = choose|y: int| 0 <= y < prev.len() && prev[y] == c[x];
        assert(s[y] == prev[y]);
    }
    assert(c[0] == s[0]);
    assert(c[c.len() - 1] == s[k - 2]);
    if k == 2 {
        assert(c.len() <= 1);
    }
    assert forall|q: Point| t.contains(q) implies supports(phase, f, q) by {
        lemma_supporting_point(phase, s, k, c, f, j, q);
    }
}

/// After the scan has taken the first `k` points of `s`, no point taken lies
/// on the outer side of the line through any edge of the chain.
pub proof fn lemma_supporting(phase: Phase, s: Seq<Point>, k: int)
    requires
        strictly_sorted(s),
        0 <= k <= s.len(),
    ensures
        forall|q: Point|
            #[trigger] s.take(k).contains(q) ==> supports(phase, scan_chain(phase, s.take(k)), q),
    decreases k,
{
    if k > 0 {
        lemma_supporting(phase, s, k - 1);
        if k == 1 {
            let t = s.take(1);
            assert(t.drop_last() =~= Seq::<Point>::empty());
            assert(scan_chain(phase, Seq::<Point>::empty()) == Seq::<Point>::empty());
            assert(Seq::<Point>::empty().push(t.last()) =~= seq![t.last()]);
            assert(!must_pop(phase, seq![t.last()]));
            assert(scan_chain(phase, t).len() == 1);
        } else {
            lemma_supporting_step(phase, s, k);
        }
    }
}

} // verus!
