//! Depth-tested filling of one scanline run.
use vstd::prelude::*;

use crate::canvas::{Canvas, CanvasView};
use crate::color::Color;
use crate::line::{interpolate, lerp, run_length};

verus! {

/// One depth-tested write: when `z` is nearer than what `(x, y)` holds, the
/// depth is stored and the pixel takes `c`; otherwise nothing changes.
pub open spec fn plot(v: CanvasView, x: int, y: int, z: u64, c: Color) -> CanvasView {
    if v.passes_depth(x, y, z) {
        v.test_depth(x, y, z).put(x, y, c)
    } else {
        v
    }
}

/// The first `n` depth-tested writes of a run that starts at column `lx` of row `y`.
pub open spec fn fill(v: CanvasView, y: int, lx: int, zs: Seq<u64>, cs: Seq<Color>, n: nat) -> CanvasView
    decreases n,
{
    if n == 0 {
        v
    } else {
        let k = n - 1;
        plot(fill(v, y, lx, zs, cs, k as nat), lx + k, y, zs[k], cs[k])
    }
}

/// How many pixels a run writes: columns `lx..=rx`, cut short by the depths
/// or colors given.
pub open spec fn span_len(lx: int, rx: int, depths: nat, colors: nat) -> nat {
    let cols: int = if rx < lx { 0 } else { rx - lx + 1 };
    let m: int = if depths < colors { depths as int } else { colors as int };
    (if cols < m { cols } else { m }) as nat
}

/// Fills row `y` from column `lx` to `rx`: pixel `lx + k` is depth-tested with
/// `depths[k]` and, where it passes, written with `colors[k]`.
pub fn fill_span(canvas: &mut Canvas, y: i32, lx: i32, rx: i32, depths: &Vec<u64>, colors: &Vec<Color>)
    requires
        old(canvas).wf(),
    ensures
        final(canvas).wf(),
        final(canvas)@ == fill(
            old(canvas)@,
            y as int,
            lx as int,
            depths@,
            colors@,
            span_len(lx as int, rx as int, depths@.len(), colors@.len()),
        ),
{
    let ghost start = canvas@;
    let cols: u64 = if rx < lx { 0 } else { (rx as i64 - lx as i64 + 1) as u64 };
    let m: u64 = if depths.len() < colors.len() { depths.len() as u64 } else { colors.len() as u64 };
    let n: u64 = if cols < m { cols } else { m };
    let mut k: u64 = 0;
    while k < n
        invariant
            canvas.wf(),
            0 <= k <= n,
            n == span_len(lx as int, rx as int, depths@.len(), colors@.len()),
            n <= depths@.len(),
            n <= colors@.len(),
            n > 0 ==> lx + n - 1 <= rx,
            canvas@ == fill(start, y as int, lx as int, depths@, colors@, k as nat),
        decreases n - k,
    {
        let x: i32 = (lx as i64 + k as i64) as i32;
        if canvas.update_depth_buffer(x, y, depths[k as usize]) {
            canvas.put_pixel(x, y, colors[k as usize]);
        }
        k = k + 1;
    }
}

/// The values `interpolate(i0, d0, i1, d1)` gives.
pub open spec fn run(i0: int, d0: int, i1: int, d1: int) -> Seq<i32> {
    Seq::new(run_length(i0, i1), |k: int| lerp(i0, d0, i1, d1, k) as i32)
}

/// The run without its last value; an empty run stays empty.
pub open spec fn without_last(s: Seq<i32>) -> Seq<i32> {
    if s.len() == 0 {
        s
    } else {
        s.drop_last()
    }
}

/// The two sides of a triangle whose corners are sorted by row: the long
/// edge from corner 0 to corner 2, and the two short edges from 0 to 1 and
/// 1 to 2 joined, the shared row counted once. Each has one value per row.
pub fn edge_interpolate(y0: i32, x0: i32, y1: i32, x1: i32, y2: i32, x2: i32) -> (r: (Vec<i32>, Vec<i32>))
    ensures
        r.0@ == run(y0 as int, x0 as int, y2 as int, x2 as int),
        r.1@ == without_last(run(y0 as int, x0 as int, y1 as int, x1 as int)) + run(
            y1 as int,
            x1 as int,
            y2 as int,
            x2 as int,
        ),
        y0 <= y1 <= y2 ==> r.0@.len() == y2 - y0 + 1 && r.1@.len() == y2 - y0 + 1,
{
    let mut x01 = interpolate(y0, x0, y1, x1);
    let x12 = interpolate(y1, x1, y2, x2);
    let x02 = interpolate(y0, x0, y2, x2);
    assert(x01@ =~= run(y0 as int, x0 as int, y1 as int, x1 as int));
    assert(x12@ =~= run(y1 as int, x1 as int, y2 as int, x2 as int));
    assert(x02@ =~= run(y0 as int, x0 as int, y2 as int, x2 as int));
    let ghost full = x01@;
    let _ = x01.pop();
    assert(x01@ =~= without_last(full));
    let mut x012 = x01;
    let mut k: usize = 0;
    while k < x12.len()
        invariant
            0 <= k <= x12@.len(),
            x012@ == without_last(full) + x12@.take(k as int),
        decreases x12@.len() - k,
    {
        x012.push(x12[k]);
        k = k + 1;
        assert(x012@ =~= without_last(full) + x12@.take(k as int));
    }
    assert(x12@.take(k as int) =~= x12@);
    (x02, x012)
}

/// Whether the long edge is the left side: at the middle row its column is
/// smaller than that of the joined short edges.
pub fn long_edge_on_left(x02: &Vec<i32>, x012: &Vec<i32>) -> (r: bool)
    requires
        x02@.len() > 0,
        x02@.len() / 2 < x012@.len(),
    ensures
        r == (x02@[(x02@.len() / 2) as int] < x012@[(x02@.len() / 2) as int]),
{
    let m = x02.len() / 2;
    x02[m] < x012[m]
}

} // verus!
