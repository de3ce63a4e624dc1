//! Points in centered screen coordinates, linear interpolation over integer
//! steps, and line drawing.
use vstd::prelude::*;
use vstd::arithmetic::div_mod::lemma_fundamental_div_mod_converse;

use crate::canvas::Canvas;
use crate::color::Color;

verus! {

/// A pixel position in centered canvas coordinates.
#[derive(Clone, Copy, Debug, PartialEq, Eq, Structural)]
pub struct Point {
    pub x: i32,
    pub y: i32,
}

impl Point {
    pub fn new(x: i32, y: i32) -> (p: Point)
        ensures
            p.x == x,
            p.y == y,
    {
        Point { x, y }
    }
}

pub open spec fn abs(v: int) -> int {
    if v < 0 {
        -v
    } else {
        v
    }
}

/// The value at step `k` of the straight run from `d0` at `i0` to `d1` at
/// `i1`, rounded down; a run with `i0 == i1` is the single value `d0`.
pub open spec fn lerp(i0: int, d0: int, i1: int, d1: int, k: int) -> int {
    if i1 == i0 {
        d0
    } else {
        d0 + (d1 - d0) * k / (i1 - i0)
    }
}

/// How many values `interpolate` gives: one per integer step from `i0` to
/// `i1` inclusive, one when they are equal, none when `i1 < i0`.
pub open spec fn run_length(i0: int, i1: int) -> nat {
    if i0 == i1 {
        1
    } else if i0 < i1 {
        (i1 - i0 + 1) as nat
    } else {
        0
    }
}

/// The pixels that `draw_line` writes, in order. The axis with the larger
/// change is stepped one pixel at a time from the lower end, and the other
/// coordinate follows by `lerp`; on a tie the `y` axis is stepped.
pub open spec fn line_points(p0: Point, p1: Point) -> Seq<(int, int)> {
    if abs(p1.x - p0.x) > abs(p1.y - p0.y) {
        let a = if p0.x > p1.x { p1 } else { p0 };
        let b = if p0.x > p1.x { p0 } else { p1 };
        Seq::new(
            (b.x - a.x + 1) as nat,
            |k: int| (a.x + k, lerp(a.x as int, a.y as int, b.x as int, b.y as int, k)),
        )
    } else {
        let a = if p0.y > p1.y { p1 } else { p0 };
        let b = if p0.y > p1.y { p0 } else { p1 };
        Seq::new(
            (b.y - a.y + 1) as nat,
            |k: int| (lerp(a.y as int, a.x as int, b.y as int, b.x as int, k), a.y + k),
        )
    }
}

/// A step of a run stays between its two ends.
proof fn lemma_lerp_between(i0: int, d0: int, i1: int, d1: int, k: int)
    requires
        i0 < i1,
        0 <= k <= i1 - i0,
    ensures
        d0 <= d1 ==> d0 <= lerp(i0, d0, i1, d1, k) <= d1,
        d1 < d0 ==> d1 <= lerp(i0, d0, i1, d1, k) <= d0,
{
    let den = i1 - i0;
    let dd = d1 - d0;
    let x = dd * k;
    let q = x / den;
    let r = x % den;
    assert(x == q * den + r && 0 <= r < den) by {
        vstd::arithmetic::div_mod::lemma_fundamental_div_mod(x, den);
    }
    if dd >= 0 {
        assert(0 <= q <= dd) by (nonlinear_arith)
            requires
                x == q * den + r,
                0 <= r < den,
                x == dd * k,
                0 <= k <= den,
                dd >= 0,
        ;
    } else {
        assert(dd <= q <= 0) by (nonlinear_arith)
            requires
                x == q * den + r,
                0 <= r < den,
                x == dd * k,
                0 <= k <= den,
                dd < 0,
        ;
    }
}

/// Floor division of a non-positive numerator, through the ceiling of its magnitude.
proof fn lemma_floor_of_negative(n: int, den: int)
    requires
        n >= 0,
        den > 0,
    ensures
        (-n) / den == -((n + den - 1) / den),
{
    let q = (n + den - 1) / den;
    let r = (n + den - 1) % den;
    vstd::arithmetic::div_mod::lemma_fundamental_div_mod(n + den - 1, den);
    assert(-n == (-q) * den + (den - 1 - r)) by (nonlinear_arith)
        requires
            n + den - 1 == den * q + r,
    ;
    lemma_fundamental_div_mod_converse(-n, den, -q, den - 1 - r);
}

/// `lerp(i0, d0, i1, d1, k)` for `den = i1 - i0 > 0`.
fn lerp_step(d0: i32, d1: i32, den: i64, k: i64, Ghost(i0): Ghost<int>, Ghost(i1): Ghost<int>) -> (v: i32)
    requires
        den == i1 - i0,
        den > 0,
        0 <= k <= den,
        den <= u32::MAX,
    ensures
        v == lerp(i0, d0 as int, i1, d1 as int, k as int),
{
    let dd: i64 = d1 as i64 - d0 as i64;
    proof {
        lemma_lerp_between(i0, d0 as int, i1, d1 as int, k as int);
    }
    let m: u128 = if dd >= 0 { dd as u128 } else { (-dd) as u128 };
    assert(m * k <= 0x1_0000_0000u128 * 0x1_0000_0000u128) by (nonlinear_arith)
        requires
            0 <= m <= 0x1_0000_0000u128,
            0 <= k <= 0x1_0000_0000u128,
    ;
    if dd >= 0 {
        let n: u128 = m * (k as u128);
        let q: u128 = n / (den as u128);
        proof {
            assert(q == (dd * k) / (den as int));
        }
        (d0 as i64 + q as i64) as i32
    } else {
        let n: u128 = m * (k as u128);
        let q: u128 = (n + den as u128 - 1) / (den as u128);
        proof {
            assert(n == -(dd * k)) by (nonlinear_arith)
                requires
                    n == (-dd) * k,
            ;
            lemma_floor_of_negative(n as int, den as int);
            assert((dd * k) / (den as int) == -(q as int));
        }
        (d0 as i64 - q as i64) as i32
    }
}

/// The values of the straight run from `d0` at `i0` to `d1` at `i1`, one per
/// integer step of the independent axis, each rounded down.
pub fn interpolate(i0: i32, d0: i32, i1: i32, d1: i32) -> (r: Vec<i32>)
    ensures
        r@.len() == run_length(i0 as int, i1 as int),
        forall|k: int|
            0 <= k < r@.len() ==> #[trigger] r@[k] == lerp(i0 as int, d0 as int, i1 as int, d1 as int, k),
{
    let mut values: Vec<i32> = Vec::new();
    if i0 == i1 {
        values.push(d0);
    } else if i0 < i1 {
        let den: i64 = i1 as i64 - i0 as i64;
        let mut k: i64 = 0;
        while k <= den
            invariant
                den == i1 - i0,
                den > 0,
                den <= u32::MAX,
                0 <= k <= den + 1,
                values@.len() == k,
                forall|j: int|
                    0 <= j < k ==> #[trigger] values@[j] == lerp(i0 as int, d0 as int, i1 as int, d1 as int, j),
            decreases den + 1 - k,
        {
            let v = lerp_step(d0, d1, den, k, Ghost(i0 as int), Ghost(i1 as int));
            values.push(v);
            k = k + 1;
        }
    }
    values
}

/// Draws the segment from `p0` to `p1` inclusive: one pixel per step of the
/// axis along which the segment changes most, none skipped.
pub fn draw_line(canvas: &mut Canvas, p0: Point, p1: Point, color: Color)
    requires
        old(canvas).wf(),
    ensures
        final(canvas).wf(),
        final(canvas)@ == old(canvas)@.paint(line_points(p0, p1), color),
{
    let ghost start = canvas@;
    let ghost pts = line_points(p0, p1);
    let dx: i64 = p1.x as i64 - p0.x as i64;
    let dy: i64 = p1.y as i64 - p0.y as i64;
    let adx: i64 = if dx < 0 { -dx } else { dx };
    let ady: i64 = if dy < 0 { -dy } else { dy };
    if adx > ady {
        let a = if p0.x > p1.x { p1 } else { p0 };
        let b = if p0.x > p1.x { p0 } else { p1 };
        let ys = interpolate(a.x, a.y, b.x, b.y);
        let n: i64 = b.x as i64 - a.x as i64 + 1;
        let mut k: i64 = 0;
        while k < n
            invariant
                canvas.wf(),
                0 <= k <= n,
                n == pts.len(),
                ys@.len() == n,
                n == b.x - a.x + 1,
                pts == line_points(p0, p1),
                forall|j: int| 0 <= j < n ==> #[trigger] pts[j] == (a.x + j, ys@[j] as int),
                canvas@ == start.paint(pts.take(k as int), color),
            decreases n - k,
        {
            canvas.put_pixel((a.x as i64 + k) as i32, ys[k as usize], color);
            proof {
                let t = pts.take(k + 1);
                assert(t.drop_last() =~= pts.take(k as int));
                assert(t.last() == pts[k as int]);
                assert(start.paint(t, color) == start.paint(t.drop_last(), color).put(
                    t.last().0,
                    t.last().1,
                    color,
                ));
            }
            k = k + 1;
        }
        assert(pts.take(n as int) =~= pts);
    } else {
        let a = if p0.y > p1.y { p1 } else { p0 };
        let b = if p0.y > p1.y { p0 } else { p1 };
        let xs = interpolate(a.y, a.x, b.y, b.x);
        let n: i64 = b.y as i64 - a.y as i64 + 1;
        let mut k: i64 = 0;
        while k < n
            invariant
                canvas.wf(),
                0 <= k <= n,
                n == pts.len(),
                xs@.len() == n,
                n == b.y - a.y + 1,
                pts == line_points(p0, p1),
                forall|j: int| 0 <= j < n ==> #[trigger] pts[j] == (xs@[j] as int, a.y + j),
                canvas@ == start.paint(pts.take(k as int), color),
            decreases n - k,
        {
            canvas.put_pixel(xs[k as usize], (a.y as i64 + k) as i32, color);
            proof {
                let t = pts.take(k + 1);
                assert(t.drop_last() =~= pts.take(k as int));
                assert(t.last() == pts[k as int]);
                assert(start.paint(t, color) == start.paint(t.drop_last(), color).put(
                    t.last().0,
                    t.last().1,
                    color,
                ));
            }
            k = k + 1;
        }
        assert(pts.take(n as int) =~= pts);
    }
}

/// A horizontal segment, drawn left to right, covers its row from one end to
/// the other: one pixel per column, in order, and nothing else.
pub proof fn lemma_horizontal_line(p0: Point, p1: Point)
    requires
        p0.y == p1.y,
        p0.x <= p1.x,
    ensures
        line_points(p0, p1) =~= Seq::new((p1.x - p0.x + 1) as nat, |k: int| (p0.x + k, p0.y as int)),
{
    if p0.x < p1.x {
        assert forall|k: int| 0 <= k <= p1.x - p0.x implies lerp(
            p0.x as int,
            p0.y as int,
            p1.x as int,
            p1.y as int,
            k,
        ) == p0.y by {
            assert((p1.y - p0.y) * k == 0);
        }
    }
}

/// Consecutive steps of a run whose change is at most its length move by at most one.
proof fn lemma_lerp_step(i0: int, d0: int, i1: int, d1: int, k: int)
    requires
        i0 < i1,
        abs(d1 - d0) <= i1 - i0,
    ensures
        abs(lerp(i0, d0, i1, d1, k + 1) - lerp(i0, d0, i1, d1, k)) <= 1,
{
    let den = i1 - i0;
    let dd = d1 - d0;
    let q0 = (dd * k) / den;
    let r0 = (dd * k) % den;
    let q1 = (dd * (k + 1)) / den;
    let r1 = (dd * (k + 1)) % den;
    vstd::arithmetic::div_mod::lemma_fundamental_div_mod(dd * k, den);
    vstd::arithmetic::div_mod::lemma_fundamental_div_mod(dd * (k + 1), den);
    assert(dd == (q1 - q0) * den + (r1 - r0)) by (nonlinear_arith)
        requires
            dd * k == den * q0 + r0,
            dd * (k + 1) == den * q1 + r1,
    ;
    assert(-1 <= q1 - q0 <= 1) by (nonlinear_arith)
        requires
            dd == (q1 - q0) * den + (r1 - r0),
            0 <= r0 < den,
            0 <= r1 < den,
            -den <= dd <= den,
            den > 0,
    ;
}

/// A run starts on its near end, and its last step lands on its far end.
proof fn lemma_lerp_end(i0: int, d0: int, i1: int, d1: int)
    requires
        i0 < i1 || (i0 == i1 && d0 == d1),
    ensures
        lerp(i0, d0, i1, d1, 0) == d0,
        lerp(i0, d0, i1, d1, i1 - i0) == d1,
{
    if i0 < i1 {
        lemma_fundamental_div_mod_converse((d1 - d0) * (i1 - i0), i1 - i0, d1 - d0, 0);
        lemma_fundamental_div_mod_converse(0, i1 - i0, 0, 0);
        assert((d1 - d0) * 0 == 0);
    }
}

/// A drawn segment has no gaps: it starts at one end, finishes at the
/// other, and each pixel touches the previous one (they differ by at most
/// one in each coordinate).
pub proof fn lemma_line_connected(p0: Point, p1: Point)
    ensures
        line_points(p0, p1).len() >= 1,
        ({
            let pts = line_points(p0, p1);
            let first = pts[0];
            let last = pts[pts.len() - 1];
            ||| first == (p0.x as int, p0.y as int) && last == (p1.x as int, p1.y as int)
            ||| first == (p1.x as int, p1.y as int) && last == (p0.x as int, p0.y as int)
        }),
        forall|k: int|
            0 <= k < line_points(p0, p1).len() - 1 ==> {
                &&& abs(#[trigger] line_points(p0, p1)[k + 1].0 - line_points(p0, p1)[k].0) <= 1
                &&& abs(line_points(p0, p1)[k + 1].1 - line_points(p0, p1)[k].1) <= 1
            },
{
    let pts = line_points(p0, p1);
    if abs(p1.x - p0.x) > abs(p1.y - p0.y) {
        let a = if p0.x > p1.x { p1 } else { p0 };
        let b = if p0.x > p1.x { p0 } else { p1 };
        lemma_lerp_end(a.x as int, a.y as int, b.x as int, b.y as int);
        assert forall|k: int| 0 <= k < pts.len() - 1 implies {
            &&& abs(#[trigger] pts[k + 1].0 - pts[k].0) <= 1
            &&& abs(pts[k + 1].1 - pts[k].1) <= 1
        } by {
            lemma_lerp_step(a.x as int, a.y as int, b.x as int, b.y as int, k);
        }
    } else {
        let a = if p0.y > p1.y { p1 } else { p0 };
        let b = if p0.y > p1.y { p0 } else { p1 };
        lemma_lerp_end(a.y as int, a.x as int, b.y as int, b.x as int);
        assert forall|k: int| 0 <= k < pts.len() - 1 implies {
            &&& abs(#[trigger] pts[k + 1].0 - pts[k].0) <= 1
            &&& abs(pts[k + 1].1 - pts[k].1) <= 1
        } by {
            lemma_lerp_step(a.y as int, a.x as int, b.y as int, b.x as int, k);
        }
    }
}

} // verus!
