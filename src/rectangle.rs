use vstd::prelude::*;

use crate::canvas::{HEIGHT, WIDTH};

verus! {

/// `v` clamped into `[lo, hi]`.
pub open spec fn clamp_to(v: int, lo: int, hi: int) -> int {
    if v < lo {
        lo
    } else if v > hi {
        hi
    } else {
        v
    }
}

/// Row-major scan of the closed box `[sx, sx + w] x [sy, sy + h]`, starting at
/// offset `(cx, cy)` from its top-left corner.
pub open spec fn rect_scan(sx: int, sy: int, w: int, h: int, cx: int, cy: int) -> Seq<(int, int)>
    decreases h - cy + 1, w - cx + 1,
{
    if cy > h {
        Seq::empty()
    } else if cx + 1 > w {
        seq![(sx + cx, sy + cy)] + rect_scan(sx, sy, w, h, 0, cy + 1)
    } else {
        seq![(sx + cx, sy + cy)] + rect_scan(sx, sy, w, h, cx + 1, cy)
    }
}

/// The points of the rectangle with corner `(x1, y1)` and size
/// `width x height`, after the corner and the size are clamped to the canvas.
pub open spec fn rectangle_points(x1: int, y1: int, width: int, height: int) -> Seq<(int, int)> {
    rect_scan(
        clamp_to(x1, 0, WIDTH as int),
        clamp_to(y1, 0, HEIGHT as int),
        clamp_to(width, 0, WIDTH as int),
        clamp_to(height, 0, HEIGHT as int),
        0,
        0,
    )
}

proof fn lemma_rect_scan(sx: int, sy: int, w: int, h: int, cx: int, cy: int)
    requires
        0 <= w,
        0 <= h,
        0 <= cx <= w,
        0 <= cy,
    ensures
        rect_scan(sx, sy, w, h, cx, cy).len() == if cy > h {
            0
        } else {
            (h - cy) * (w + 1) + (w + 1 - cx)
        },
        forall|k: int|
            0 <= k < rect_scan(sx, sy, w, h, cx, cy).len() ==> {
                let p = #[trigger] rect_scan(sx, sy, w, h, cx, cy)[k];
                &&& sx <= p.0 <= sx + w
                &&& sy + cy <= p.1 <= sy + h
            },
    decreases h - cy + 1, w - cx + 1,
{
    let s = rect_scan(sx, sy, w, h, cx, cy);
    if cy <= h {
        if cx + 1 > w {
            let t = rect_scan(sx, sy, w, h, 0, cy + 1);
            lemma_rect_scan(sx, sy, w, h, 0, cy + 1);
            assert((h - cy - 1) * (w + 1) + (w + 1) == (h - cy) * (w + 1)) by (nonlinear_arith);
            if cy == h {
                assert((h - cy) * (w + 1) == 0) by (nonlinear_arith)
                    requires
                        h == cy,
                {
                }
            }
            assert forall|k: int| 0 < k < s.len() implies s[k] == t[k - 1] by {}
        } else {
            let t = rect_scan(sx, sy, w, h, cx + 1, cy);
            lemma_rect_scan(sx, sy, w, h, cx + 1, cy);
            assert forall|k: int| 0 < k < s.len() implies s[k] == t[k - 1] by {}
        }
    }
}

/// A rectangle has `(w + 1) * (h + 1)` points, where `w` and `h` are its width
/// and height after clamping to the canvas.
pub proof fn rectangle_count(x1: int, y1: int, width: int, height: int)
    ensures
        rectangle_points(x1, y1, width, height).len() == (clamp_to(width, 0, WIDTH as int) + 1) * (
        clamp_to(height, 0, HEIGHT as int) + 1),
{
    let w = clamp_to(width, 0, WIDTH as int);
    let h = clamp_to(height, 0, HEIGHT as int);
    lemma_rect_scan(clamp_to(x1, 0, WIDTH as int), clamp_to(y1, 0, HEIGHT as int), w, h, 0, 0);
    assert(h * (w + 1) + (w + 1) == (w + 1) * (h + 1)) by (nonlinear_arith);
}

/// Every point of a rectangle lies within `[0, WIDTH] x [0, HEIGHT]` whenever
/// the clamped corner plus the clamped size stays on the canvas.
pub proof fn rectangle_within_canvas(x1: int, y1: int, width: int, height: int)
    requires
        clamp_to(x1, 0, WIDTH as int) + clamp_to(width, 0, WIDTH as int) <= WIDTH,
        clamp_to(y1, 0, HEIGHT as int) + clamp_to(height, 0, HEIGHT as int) <= HEIGHT,
    ensures
        forall|k: int|
            0 <= k < rectangle_points(x1, y1, width, height).len() ==> {
                let p = #[trigger] rectangle_points(x1, y1, width, height)[k];
                &&& 0 <= p.0 <= WIDTH
                &&& 0 <= p.1 <= HEIGHT
            },
{
    lemma_rect_scan(
        clamp_to(x1, 0, WIDTH as int),
        clamp_to(y1, 0, HEIGHT as int),
        clamp_to(width, 0, WIDTH as int),
        clamp_to(height, 0, HEIGHT as int),
        0,
        0,
    );
}

/// Walk over every integer point of an axis-aligned box clamped to the canvas,
/// far edges included, row by row.
#[derive(Debug, Clone, Copy, PartialEq, Eq)]
pub struct Rectangle {
    start: (usize, usize),
    size: (usize, usize),
    current: (usize, usize),
}

impl Rectangle {
    pub closed spec fn wf(&self) -> bool {
        &&& self.start.0 <= WIDTH
        &&& self.start.1 <= HEIGHT
        &&& self.size.0 <= WIDTH
        &&& self.size.1 <= HEIGHT
        &&& self.current.0 <= self.size.0
        &&& self.current.1 <= self.size.1 + 1
    }

    /// The points that the walk has still to hand out, in order.
    pub closed spec fn points(&self) -> Seq<(int, int)> {
        rect_scan(
            self.start.0 as int,
            self.start.1 as int,
            self.size.0 as int,
            self.size.1 as int,
            self.current.0 as int,
            self.current.1 as int,
        )
    }

    /// The box with corner `(x1, y1)` and size `width x height`; the corner
    /// is clamped into `[0, WIDTH] x [0, HEIGHT]` and the size into the same
    /// ranges.
    pub fn new(x1: isize, y1: isize, width: usize, height: usize) -> (r: Self)
        ensures
            r.wf(),
            r.points() == rectangle_points(x1 as int, y1 as int, width as int, height as int),
    {
        let start_x: usize = if x1 < 0 {
            0
        } else if x1 > WIDTH as isize {
            WIDTH
        } else {
            x1 as usize
        };
        let start_y: usize = if y1 < 0 {
            0
        } else if y1 > HEIGHT as isize {
            HEIGHT
        } else {
            y1 as usize
        };
        let w: usize = if width > WIDTH {
            WIDTH
        } else {
            width
        };
        let h: usize = if height > HEIGHT {
            HEIGHT
        } else {
            height
        };
        Rectangle { start: (start_x, start_y), size: (w, h), current: (0, 0) }
    }

    /// Hands out the next point of the box, or `None` once it is exhausted.
    pub fn next(&mut self) -> (r: Option<(usize, usize)>)
        requires
            old(self).wf(),
        ensures
            final(self).wf(),
            match r {
                Some(p) => old(self).points().len() > 0 && (p.0 as int, p.1 as int)
                    == old(self).points()[0] && final(self).points() == old(
                    self,
                ).points().drop_first(),
                None => old(self).points().len() == 0 && *final(self) == *old(self),
            },
    {
        if self.current.1 <= self.size.1 {
            let returning = (self.current.0 + self.start.0, self.current.1 + self.start.1);
            self.current.0 = self.current.0 + 1;
            if self.current.0 > self.size.0 {
                self.current.0 = 0;
                self.current.1 = self.current.1 + 1;
            }
            proof {
                let s = *old(self);
                assert(s.points() == seq![(returning.0 as int, returning.1 as int)]
                    + self.points());
                assert(s.points().drop_first() =~= self.points());
            }
            Some(returning)
        } else {
            None
        }
    }
}

} // verus!
