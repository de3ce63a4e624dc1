//! The pixel and depth buffers that both pipelines draw into.
//!
//! Coordinates are centered: `(0, 0)` is the middle of the canvas and `y`
//! grows upward. Storage is row-major with rows running top to bottom.
use vstd::prelude::*;

use crate::color::{packed, Color};
use crate::ieee::{f64_lt, less_than, INFINITY_BITS};

verus! {

/// The word a cleared canvas holds in every pixel: white.
pub const BACKGROUND_COLOR: u32 = 0x00FF_FFFF;

/// What a canvas holds: its size, its pixels as `0x00RRGGBB` words and its
/// depths as the bits of doubles, both row-major.
pub struct CanvasView {
    pub width: nat,
    pub height: nat,
    pub pixels: Seq<u32>,
    pub depths: Seq<u64>,
}

impl CanvasView {
    /// Storage column of centered coordinate `x`.
    pub open spec fn column(self, x: int) -> int {
        self.width as int / 2 + x
    }

    /// Storage row of centered coordinate `y`.
    pub open spec fn row(self, y: int) -> int {
        self.height as int / 2 - y - 1
    }

    /// Whether centered coordinates `(x, y)` fall on the canvas.
    pub open spec fn contains(self, x: int, y: int) -> bool {
        0 <= self.column(x) < self.width && 0 <= self.row(y) < self.height
    }

    /// Storage offset of centered coordinates `(x, y)`.
    pub open spec fn offset(self, x: int, y: int) -> int {
        self.row(y) * self.width + self.column(x)
    }

    /// The canvas after writing `c` at `(x, y)`; a write off the canvas changes nothing.
    pub open spec fn put(self, x: int, y: int, c: Color) -> CanvasView {
        if self.contains(x, y) {
            CanvasView { pixels: self.pixels.update(self.offset(x, y), packed(c)), ..self }
        } else {
            self
        }
    }

    /// Whether depth `z` at `(x, y)` is strictly nearer than the stored one.
    pub open spec fn passes_depth(self, x: int, y: int, z: u64) -> bool {
        self.contains(x, y) && f64_lt(z, self.depths[self.offset(x, y)])
    }

    /// The canvas after a depth test of `z` at `(x, y)`: the depth is stored
    /// when the test passes.
    pub open spec fn test_depth(self, x: int, y: int, z: u64) -> CanvasView {
        if self.passes_depth(x, y, z) {
            CanvasView { depths: self.depths.update(self.offset(x, y), z), ..self }
        } else {
            self
        }
    }

    /// The canvas of the same size with every pixel background and every depth infinite.
    pub open spec fn cleared(self) -> CanvasView {
        CanvasView {
            width: self.width,
            height: self.height,
            pixels: Seq::new(self.width * self.height, |i: int| BACKGROUND_COLOR),
            depths: Seq::new(self.width * self.height, |i: int| INFINITY_BITS),
        }
    }

    /// The canvas after writing `c` at each point of `points` in turn.
    pub open spec fn paint(self, points: Seq<(int, int)>, c: Color) -> CanvasView
        decreases points.len(),
    {
        if points.len() == 0 {
            self
        } else {
            self.paint(points.drop_last(), c).put(points.last().0, points.last().1, c)
        }
    }
}

/// A pixel buffer with a depth buffer of the same size.
pub struct Canvas {
    width: usize,
    height: usize,
    buffer: Vec<u32>,
    depth_buffer: Vec<u64>,
}

impl View for Canvas {
    type V = CanvasView;

    closed spec fn view(&self) -> CanvasView {
        CanvasView {
            width: self.width as nat,
            height: self.height as nat,
            pixels: self.buffer@,
            depths: self.depth_buffer@,
        }
    }
}

proof fn lemma_offset_in_bounds(v: CanvasView, x: int, y: int)
    requires
        v.contains(x, y),
    ensures
        0 <= v.offset(x, y) < v.width * v.height,
{
    let r = v.row(y);
    let c = v.column(x);
    let w = v.width as int;
    let h = v.height as int;
    assert(0 <= r * w + c < h * w) by (nonlinear_arith)
        requires
            0 <= r < h,
            0 <= c < w,
    ;
    assert(h * w == w * h) by (nonlinear_arith);
}

impl Canvas {
    /// Both buffers have one entry per pixel, and the size fits centered `i32` coordinates.
    pub open spec fn wf(&self) -> bool {
        &&& self@.pixels.len() == self@.width * self@.height
        &&& self@.depths.len() == self@.width * self@.height
        &&& self@.width <= i32::MAX
        &&& self@.height <= i32::MAX
    }

    /// A cleared canvas of `width` by `height` pixels.
    pub fn new(width: usize, height: usize) -> (c: Canvas)
        requires
            width <= i32::MAX,
            height <= i32::MAX,
            width * height <= usize::MAX,
        ensures
            c.wf(),
            c@.width == width,
            c@.height == height,
            c@ == c@.cleared(),
    {
        let n: usize = width * height;
        let mut buffer: Vec<u32> = Vec::new();
        let mut depth_buffer: Vec<u64> = Vec::new();
        let mut i: usize = 0;
        while i < n
            invariant
                i <= n,
                buffer@ == Seq::new(i as nat, |k: int| BACKGROUND_COLOR),
                depth_buffer@ == Seq::new(i as nat, |k: int| INFINITY_BITS),
            decreases n - i,
        {
            buffer.push(BACKGROUND_COLOR);
            depth_buffer.push(INFINITY_BITS);
            i = i + 1;
            assert(buffer@ =~= Seq::new(i as nat, |k: int| BACKGROUND_COLOR));
            assert(depth_buffer@ =~= Seq::new(i as nat, |k: int| INFINITY_BITS));
        }
        let c = Canvas { width, height, buffer, depth_buffer };
        assert(c@ == c@.cleared());
        c
    }

    pub fn width(&self) -> (w: usize)
        ensures
            w == self@.width,
    {
        self.width
    }

    pub fn height(&self) -> (h: usize)
        ensures
            h == self@.height,
    {
        self.height
    }

    /// The pixels as `0x00RRGGBB` words, row-major from the top row.
    pub fn buffer(&self) -> (b: &Vec<u32>)
        ensures
            b@ == self@.pixels,
    {
        &self.buffer
    }

    /// Storage offset of `(x, y)`, or `None` off the canvas.
    fn locate(&self, x: i32, y: i32) -> (r: Option<usize>)
        requires
            self.wf(),
        ensures
            r.is_some() == self@.contains(x as int, y as int),
            r.is_some() ==> r.unwrap() == self@.offset(x as int, y as int),
            r.is_some() ==> r.unwrap() < self@.pixels.len(),
    {
        let sx: i64 = (self.width / 2) as i64 + x as i64;
        let sy: i64 = (self.height / 2) as i64 - y as i64 - 1;
        if sx < 0 || sx >= self.width as i64 || sy < 0 || sy >= self.height as i64 {
            return None;
        }
        let len = self.buffer.len();
        proof {
            lemma_offset_in_bounds(self@, x as int, y as int);
            assert(len == self@.width * self@.height);
            assert(sy == self@.row(y as int));
            assert(sx == self@.column(x as int));
            assert(sy * self.width <= self@.offset(x as int, y as int));
        }
        let base: usize = sy as usize * self.width;
        Some(base + sx as usize)
    }

    /// The word at centered coordinates `(x, y)`, or `None` off the canvas.
    pub fn pixel(&self, x: i32, y: i32) -> (r: Option<u32>)
        requires
            self.wf(),
        ensures
            r == (if self@.contains(x as int, y as int) {
                Some(self@.pixels[self@.offset(x as int, y as int)])
            } else {
                None
            }),
    {
        match self.locate(x, y) {
            Some(i) => Some(self.buffer[i]),
            None => None,
        }
    }

    /// The depth bits at centered coordinates `(x, y)`, or `None` off the canvas.
    pub fn depth(&self, x: i32, y: i32) -> (r: Option<u64>)
        requires
            self.wf(),
        ensures
            r == (if self@.contains(x as int, y as int) {
                Some(self@.depths[self@.offset(x as int, y as int)])
            } else {
                None
            }),
    {
        match self.locate(x, y) {
            Some(i) => Some(self.depth_buffer[i]),
            None => None,
        }
    }

    /// Writes `color` at centered coordinates `(x, y)`; off the canvas it does nothing.
    pub fn put_pixel(&mut self, x: i32, y: i32, color: Color)
        requires
            old(self).wf(),
        ensures
            final(self).wf(),
            final(self)@ == old(self)@.put(x as int, y as int, color),
    {
        if let Some(i) = self.locate(x, y) {
            self.buffer.set(i, color.to_u32());
        }
    }

    /// Depth test at `(x, y)` for the double whose bits are `z`: true, and
    /// `z` stored, exactly when `z` is strictly below the stored depth.
    /// Off the canvas it returns false.
    pub fn update_depth_buffer(&mut self, x: i32, y: i32, z: u64) -> (r: bool)
        requires
            old(self).wf(),
        ensures
            final(self).wf(),
            r == old(self)@.passes_depth(x as int, y as int, z),
            final(self)@ == old(self)@.test_depth(x as int, y as int, z),
    {
        match self.locate(x, y) {
            Some(i) => {
                if less_than(z, self.depth_buffer[i]) {
                    self.depth_buffer.set(i, z);
                    true
                } else {
                    false
                }
            },
            None => false,
        }
    }

    /// Clears the canvas for a new frame: every pixel background, every depth infinite.
    pub fn reset(&mut self)
        requires
            old(self).wf(),
        ensures
            final(self).wf(),
            final(self)@ == old(self)@.cleared(),
    {
        let n = self.buffer.len();
        let mut i: usize = 0;
        while i < n
            invariant
                self.wf(),
                self@.width == old(self)@.width,
                self@.height == old(self)@.height,
                n == self@.pixels.len(),
                i <= n,
                forall|k: int| 0 <= k < i ==> self@.pixels[k] == BACKGROUND_COLOR,
                forall|k: int| 0 <= k < i ==> self@.depths[k] == INFINITY_BITS,
            decreases n - i,
        {
            self.buffer.set(i, BACKGROUND_COLOR);
            self.depth_buffer.set(i, INFINITY_BITS);
            i = i + 1;
        }
        assert(self@.pixels =~= old(self)@.cleared().pixels);
        assert(self@.depths =~= old(self)@.cleared().depths);
    }
}

/// Whether some point of `points` lands on storage offset `o` of `v`.
pub open spec fn lands_on(v: CanvasView, points: Seq<(int, int)>, o: int) -> bool {
    exists|k: int|
        0 <= k < points.len() && v.contains(points[k].0, points[k].1) && v.offset(#[trigger] points[k].0, points[k].1)
            == o
}

/// Painting changes only pixels: each pixel some point lands on takes the
/// color, every other keeps its word.
pub proof fn lemma_paint(v: CanvasView, points: Seq<(int, int)>, c: Color)
    requires
        v.pixels.len() == v.width * v.height,
    ensures
        v.paint(points, c).width == v.width,
        v.paint(points, c).height == v.height,
        v.paint(points, c).depths == v.depths,
        v.paint(points, c).pixels.len() == v.pixels.len(),
        forall|o: int|
            0 <= o < v.pixels.len() ==> #[trigger] v.paint(points, c).pixels[o] == if lands_on(v, points, o) {
                packed(c)
            } else {
                v.pixels[o]
            },
    decreases points.len(),
{
    if points.len() > 0 {
        let front = points.drop_last();
        let last = points.last();
        lemma_paint(v, front, c);
        let w = v.paint(front, c);
        if w.contains(last.0, last.1) {
            lemma_offset_in_bounds(w, last.0, last.1);
        }
        assert forall|o: int| 0 <= o < v.pixels.len() implies #[trigger] v.paint(points, c).pixels[o] == if lands_on(
            v,
            points,
            o,
        ) {
            packed(c)
        } else {
            v.pixels[o]
        } by {
            let here = v.contains(last.0, last.1) && v.offset(last.0, last.1) == o;
            if here {
                lemma_offset_in_bounds(v, last.0, last.1);
                assert(points[points.len() - 1] == last);
                assert(lands_on(v, points, o));
            } else {
                if lands_on(v, front, o) {
                    let k = choose|k: int|
                        0 <= k < front.len() && v.contains(front[k].0, front[k].1) && v.offset(
                            #[trigger] front[k].0,
                            front[k].1,
                        ) == o;
                    assert(points[k] == front[k]);
                    assert(lands_on(v, points, o));
                }
                if lands_on(v, points, o) {
                    let k = choose|k: int|
                        0 <= k < points.len() && v.contains(points[k].0, points[k].1) && v.offset(
                            #[trigger] points[k].0,
                            points[k].1,
                        ) == o;
                    assert(k < front.len());
                    assert(front[k] == points[k]);
                    assert(lands_on(v, front, o));
                }
                if v.contains(last.0, last.1) {
                    lemma_offset_in_bounds(v, last.0, last.1);
                }
            }
        }
    }
}

/// Painting the same points in the same color a second time changes nothing.
pub proof fn lemma_paint_idempotent(v: CanvasView, points: Seq<(int, int)>, c: Color)
    requires
        v.pixels.len() == v.width * v.height,
    ensures
        v.paint(points, c).paint(points, c) == v.paint(points, c),
{
    let once = v.paint(points, c);
    lemma_paint(v, points, c);
    lemma_paint(once, points, c);
    let twice = once.paint(points, c);
    assert forall|o: int| 0 <= o < once.pixels.len() implies twice.pixels[o] == once.pixels[o] by {
        assert(lands_on(once, points, o) == lands_on(v, points, o));
    }
    assert(twice.pixels =~= once.pixels);
}

/// A frame drawn after a reset does not depend on what the canvas held
/// before: two canvases of one size that are reset and then painted with the
/// same points and color end with identical pixels and depths.
pub proof fn lemma_frame_repeatable(a: CanvasView, b: CanvasView, points: Seq<(int, int)>, c: Color)
    requires
        a.width == b.width,
        a.height == b.height,
    ensures
        a.cleared().paint(points, c) == b.cleared().paint(points, c),
{
    assert(a.cleared().pixels =~= b.cleared().pixels);
    assert(a.cleared().depths =~= b.cleared().depths);
    assert(a.cleared() == b.cleared());
}

} // verus!
