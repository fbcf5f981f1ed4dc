use vstd::prelude::*;

use crate::dilation::abs;
use vstd::arithmetic::div_mod::lemma_fundamental_div_mod_converse;

verus! {

/// Largest magnitude of an endpoint coordinate.
pub const COORD_LIMIT: isize = 0xfff_ffff;

/// Largest magnitude of a line's thickness.
pub const MAX_THICKNESS: isize = 0x3fff;

/// What the last core step of a line walk was.
#[derive(Debug, Clone, Copy, PartialEq, Eq, Structural)]
pub enum Direction {
    /// The first point of the line, drawn with a full square cap.
    Center,
    /// Only the long axis advanced.
    Straight,
    /// Both axes advanced: a staircase step.
    Side,
}

/// A line walk as plain integers. The long axis is the one along which the
/// line advances by one at every core step; `(step, offset)` is the current
/// core point in (long, short) coordinates from `origin`, and `error` is the
/// Bresenham error term `2 * (step * short - offset * long)`.
pub struct LineWalk {
    pub origin: (int, int),
    pub octant: int,
    pub long: int,
    pub short: int,
    pub thickness: int,
    pub step: int,
    pub offset: int,
    pub error: int,
    pub direction: Direction,
    pub brush: int,
}

/// Cross-section width of a line of thickness `t`.
pub open spec fn side_of(t: int) -> int {
    2 * t + 1
}

/// Number of points that the brush of a core step stamps.
pub open spec fn brush_len(t: int, dir: Direction) -> int {
    if t <= 0 {
        1
    } else {
        match dir {
            Direction::Center => side_of(t) * side_of(t),
            Direction::Straight => side_of(t),
            Direction::Side => 2 * side_of(t) + 1,
        }
    }
}

/// Point `k` of a brush, as a (long, short) offset from its core point.
/// A line of thickness 0 stamps the core point alone; a thick one stamps a square cap
/// at the start, a perpendicular cross-section after a straight step, and
/// after a staircase step the new cross-section followed by the previous one
/// extended by the outer corner of the turn.
pub open spec fn brush_offset(t: int, dir: Direction, k: int) -> (int, int) {
    if t <= 0 {
        (0, 0)
    } else {
        let side = side_of(t);
        match dir {
            Direction::Center => (k / side - t, k % side - t),
            Direction::Straight => (0, k - t),
            Direction::Side => if k < side {
                (0, k - t)
            } else {
                (-1, k - side - t - 1)
            },
        }
    }
}

/// Maps a (long, short) offset of the canonical octant to real axes.
pub open spec fn to_global(octant: int, a: int, b: int) -> (int, int) {
    if octant == 0 {
        (a, b)
    } else if octant == 1 {
        (b, a)
    } else if octant == 2 {
        (a, -b)
    } else {
        (b, -a)
    }
}

/// The octant of a line from `(x1, y1)` to `(x2, y2)` with `x1 <= x2`:
/// steep lines have the odd numbers, upward ones the upper two.
pub open spec fn octant_of(x1: int, y1: int, x2: int, y2: int) -> int {
    (if abs(y2 - y1) > abs(x2 - x1) {
        1int
    } else {
        0int
    }) + (if y2 < y1 {
        2int
    } else {
        0int
    })
}

/// Whether the endpoints are taken in the other order, so that the walk
/// always runs toward growing `x`. A thick line, whose cap makes its ends
/// differ, also runs toward growing `y` when it is vertical.
pub open spec fn swaps(t: int, x1: int, y1: int, x2: int, y2: int) -> bool {
    x1 > x2 || (t != 0 && x1 == x2 && y1 > y2)
}

/// The walk of a line before its first point.
pub open spec fn line_start(t: int, x1: int, y1: int, x2: int, y2: int) -> LineWalk {
    let (sx, sy, ex, ey) = if swaps(t, x1, y1, x2, y2) {
        (x2, y2, x1, y1)
    } else {
        (x1, y1, x2, y2)
    };
    let dx = ex - sx;
    let dy = abs(ey - sy);
    let octant = octant_of(sx, sy, ex, ey);
    let steep = octant == 1 || octant == 3;
    LineWalk {
        origin: (sx, sy),
        octant,
        long: if steep {
            dy
        } else {
            dx
        },
        short: if steep {
            dx
        } else {
            dy
        },
        thickness: abs(t),
        step: 0,
        offset: 0,
        error: 0,
        direction: Direction::Center,
        brush: 0,
    }
}

/// One core step: advance along the long axis, and along the short one too
/// where the error term reaches the threshold.
pub open spec fn core_step(w: LineWalk) -> LineWalk {
    let e = w.error + 2 * w.short;
    if e >= w.long {
        LineWalk {
            step: w.step + 1,
            offset: w.offset + 1,
            error: e - 2 * w.long,
            direction: Direction::Side,
            brush: 0,
            ..w
        }
    } else {
        LineWalk { step: w.step + 1, error: e, direction: Direction::Straight, brush: 0, ..w }
    }
}

/// The point that the walk hands out next, when it has one.
pub open spec fn walk_point(w: LineWalk) -> (int, int) {
    let o = brush_offset(w.thickness, w.direction, w.brush);
    let g = to_global(w.octant, w.step + o.0, w.offset + o.1);
    (w.origin.0 + g.0, w.origin.1 + g.1)
}

/// The points that a line walk has still to hand out, in order.
pub open spec fn walk_points(w: LineWalk) -> Seq<(int, int)>
    decreases w.long - w.step + 1, brush_len(w.thickness, w.direction) - w.brush,
{
    if w.step > w.long {
        Seq::empty()
    } else if w.brush >= brush_len(w.thickness, w.direction) {
        walk_points(core_step(w))
    } else {
        seq![walk_point(w)] + walk_points(LineWalk { brush: w.brush + 1, ..w })
    }
}

/// The points of the line of thickness `t` from `(x1, y1)` to `(x2, y2)`.
pub open spec fn line_points(t: int, x1: int, y1: int, x2: int, y2: int) -> Seq<(int, int)> {
    walk_points(line_start(t, x1, y1, x2, y2))
}

/// Short-axis offset of the pixel nearest to the ideal line at long-axis step
/// `i`, halves rounded up.
pub open spec fn nearest_offset(i: int, long: int, short: int) -> int {
    if long == 0 {
        0
    } else {
        (2 * i * short + long) / (2 * long)
    }
}

/// The classic one-pixel Bresenham path between two points: one pixel per
/// long-axis position, each the one nearest to the ideal line.
pub open spec fn bresenham_path(x1: int, y1: int, x2: int, y2: int) -> Seq<(int, int)> {
    let w = line_start(0, x1, y1, x2, y2);
    Seq::new(
        (w.long + 1) as nat,
        |i: int|
            {
                let g = to_global(w.octant, i, nearest_offset(i, w.long, w.short));
                (w.origin.0 + g.0, w.origin.1 + g.1)
            },
    )
}

/// What holds of every state of a line walk.
pub open spec fn walk_inv(w: LineWalk) -> bool {
    &&& 0 <= w.short <= w.long
    &&& 0 <= w.octant < 4
    &&& 0 <= w.thickness
    &&& 0 <= w.step <= w.long + 1
    &&& 0 <= w.offset <= w.step
    &&& w.error == 2 * (w.step * w.short - w.offset * w.long)
    &&& -w.long <= w.error
    &&& (w.error < w.long || w.long == 0)
    &&& 0 <= w.brush
}

pub(crate) proof fn lemma_core_step_inv(w: LineWalk)
    requires
        walk_inv(w),
        w.step <= w.long,
    ensures
        walk_inv(core_step(w)),
{
    assert((w.step + 1) * w.short == w.step * w.short + w.short) by (nonlinear_arith);
    assert((w.offset + 1) * w.long == w.offset * w.long + w.long) by (nonlinear_arith);
}

pub(crate) proof fn lemma_line_start_inv(t: int, x1: int, y1: int, x2: int, y2: int)
    ensures
        walk_inv(line_start(t, x1, y1, x2, y2)),
        line_start(t, x1, y1, x2, y2).long == if abs(x2 - x1) > abs(y2 - y1) {
            abs(x2 - x1)
        } else {
            abs(y2 - y1)
        },
{
    let w = line_start(t, x1, y1, x2, y2);
    assert(0 * w.short - 0 * w.long == 0);
}

proof fn lemma_offset_is_nearest(w: LineWalk)
    requires
        walk_inv(w),
        w.step <= w.long,
    ensures
        w.offset == nearest_offset(w.step, w.long, w.short),
{
    if w.long == 0 {
        assert(w.step == 0);
    } else {
        let n = 2 * w.step * w.short + w.long;
        assert(n == w.offset * (2 * w.long) + (w.error + w.long)) by (nonlinear_arith)
            requires
                w.error == 2 * (w.step * w.short - w.offset * w.long),
                n == 2 * w.step * w.short + w.long,
        {
        }
        lemma_fundamental_div_mod_converse(n, 2 * w.long, w.offset, w.error + w.long);
    }
}

proof fn lemma_thin_walk(w: LineWalk)
    requires
        walk_inv(w),
        w.thickness == 0,
        w.brush == 0,
    ensures
        walk_points(w) == Seq::new(
            (w.long - w.step + 1) as nat,
            |j: int|
                {
                    let i = w.step + j;
                    let g = to_global(w.octant, i, nearest_offset(i, w.long, w.short));
                    (w.origin.0 + g.0, w.origin.1 + g.1)
                },
        ),
    decreases w.long - w.step + 1,
{
    let target = Seq::new(
        (w.long - w.step + 1) as nat,
        |j: int|
            {
                let i = w.step + j;
                let g = to_global(w.octant, i, nearest_offset(i, w.long, w.short));
                (w.origin.0 + g.0, w.origin.1 + g.1)
            },
    );
    if w.step <= w.long {
        let w1 = LineWalk { brush: w.brush + 1, ..w };
        let n = core_step(w);
        lemma_core_step_inv(w);
        lemma_offset_is_nearest(w);
        lemma_thin_walk(n);
        assert(walk_points(w1) == walk_points(n));
        assert(walk_points(w) =~= target);
    } else {
        assert(walk_points(w) =~= target);
    }
}

/// A line of thickness 0 is exactly the classic Bresenham path between its
/// endpoints, from the one with the smaller `x` (the first one where the two
/// `x` are equal), with `max(|dx|, |dy|) + 1` points.
pub proof fn thin_line_is_bresenham(t: int, x1: int, y1: int, x2: int, y2: int)
    requires
        t == 0,
    ensures
        line_points(t, x1, y1, x2, y2) == bresenham_path(x1, y1, x2, y2),
        line_points(t, x1, y1, x2, y2).len() == (if abs(x2 - x1) > abs(y2 - y1) {
            abs(x2 - x1)
        } else {
            abs(y2 - y1)
        }) + 1,
{
    let w = line_start(t, x1, y1, x2, y2);
    lemma_line_start_inv(t, x1, y1, x2, y2);
    lemma_thin_walk(w);
    assert(line_points(t, x1, y1, x2, y2) =~= bresenham_path(x1, y1, x2, y2));
}

/// Swapping the two endpoints of a line leaves its set of points unchanged.
/// The order is kept too, except for a vertical line of thickness 0, which is
/// walked from its first endpoint.
pub proof fn line_reversible(t: int, x1: int, y1: int, x2: int, y2: int)
    ensures
        line_points(t, x1, y1, x2, y2).to_set() == line_points(t, x2, y2, x1, y1).to_set(),
        (t != 0 || x1 != x2) ==> line_points(t, x1, y1, x2, y2) == line_points(
            t,
            x2,
            y2,
            x1,
            y1,
        ),
{
    if t != 0 || x1 != x2 || y1 == y2 {
        assert(line_start(t, x1, y1, x2, y2) == line_start(t, x2, y2, x1, y1));
    } else {
        lemma_vertical_thin_reversible(x1, y1, y2);
    }
}

proof fn lemma_vertical_thin_reversible(x: int, y1: int, y2: int)
    requires
        y1 != y2,
    ensures
        line_points(0, x, y1, x, y2).to_set() == line_points(0, x, y2, x, y1).to_set(),
{
    let len = abs(y2 - y1);
    let (lo, hi) = if y1 < y2 {
        (y1, y2)
    } else {
        (y2, y1)
    };
    thin_line_is_bresenham(0, x, y1, x, y2);
    thin_line_is_bresenham(0, x, y2, x, y1);
    assert forall|i: int| 0 <= i <= len implies nearest_offset(i, len, 0) == 0 by {
        lemma_fundamental_div_mod_converse(2 * i * 0 + len, 2 * len, 0, len);
    }
    let a = line_points(0, x, y1, x, y2);
    let b = line_points(0, x, y2, x, y1);
    assert forall|p: (int, int)| a.contains(p) <==> (p.0 == x && lo <= p.1 <= hi) by {
        if p.0 == x && lo <= p.1 <= hi {
            let i = if y1 < y2 {
                p.1 - y1
            } else {
                y1 - p.1
            };
            assert(a[i] == p);
        }
    }
    assert forall|p: (int, int)| b.contains(p) <==> (p.0 == x && lo <= p.1 <= hi) by {
        if p.0 == x && lo <= p.1 <= hi {
            let i = if y2 < y1 {
                p.1 - y2
            } else {
                y2 - p.1
            };
            assert(b[i] == p);
        }
    }
    assert(a.to_set() =~= b.to_set());
}

/// Every coordinate that a line can produce fits in an `isize`, and so does
/// every intermediate value of its walk.
pub open spec fn line_fits(t: isize, x1: isize, y1: isize, x2: isize, y2: isize) -> bool {
    &&& abs(t as int) <= MAX_THICKNESS
    &&& abs(x1 as int) <= COORD_LIMIT
    &&& abs(y1 as int) <= COORD_LIMIT
    &&& abs(x2 as int) <= COORD_LIMIT
    &&& abs(y2 as int) <= COORD_LIMIT
}

impl Direction {
    /// Number of points that the brush of a thick line stamps after a step of
    /// this kind.
    fn max_index(&self, thickness: isize) -> (r: usize)
        requires
            0 < thickness <= MAX_THICKNESS,
        ensures
            r == brush_len(thickness as int, *self),
    {
        let side = self.side(thickness) as usize;
        proof {
            assert(side * side <= 0x7fff * 0x7fff) by (nonlinear_arith)
                requires
                    side <= 0x7fff,
            {
            }
        }
        match self {
            Direction::Center => side * side,
            Direction::Side => side + side + 1,
            Direction::Straight => side,
        }
    }

    /// Cross-section width of a line of the given thickness.
    fn side(&self, thickness: isize) -> (r: isize)
        requires
            0 <= thickness <= MAX_THICKNESS,
        ensures
            r == side_of(thickness as int),
    {
        thickness * 2 + 1
    }
}

/// Walk over the pixels of a line of adjustable thickness: a Bresenham walk
/// along the long axis that stamps a brush at each core step.
#[derive(Debug, Clone, Copy, PartialEq, Eq)]
pub struct Bresenham {
    origin: (isize, isize),
    octant: u8,
    long: isize,
    short: isize,
    thickness: isize,
    step: isize,
    offset: isize,
    error: isize,
    direction: Direction,
    brush: usize,
}

impl View for Bresenham {
    type V = LineWalk;

    closed spec fn view(&self) -> LineWalk {
        LineWalk {
            origin: (self.origin.0 as int, self.origin.1 as int),
            octant: self.octant as int,
            long: self.long as int,
            short: self.short as int,
            thickness: self.thickness as int,
            step: self.step as int,
            offset: self.offset as int,
            error: self.error as int,
            direction: self.direction,
            brush: self.brush as int,
        }
    }
}

impl Bresenham {
    pub closed spec fn wf(&self) -> bool {
        &&& walk_inv(self@)
        &&& abs(self.origin.0 as int) <= COORD_LIMIT
        &&& abs(self.origin.1 as int) <= COORD_LIMIT
        &&& self.long <= 2 * COORD_LIMIT
        &&& self.thickness <= MAX_THICKNESS
        &&& self.brush <= brush_len(self.thickness as int, self.direction)
    }

    /// The points that the walk has still to hand out, in order.
    pub open spec fn points(&self) -> Seq<(int, int)> {
        walk_points(self@)
    }

    /// The line from `(x1, y1)` to `(x2, y2)`. Thickness 0 gives the one-pixel
    /// Bresenham path; a thickness of magnitude `t >= 1` gives a line `2t + 1`
    /// pixels across.
    pub fn new(thickness: isize, x1: isize, y1: isize, x2: isize, y2: isize) -> (r: Self)
        requires
            line_fits(thickness, x1, y1, x2, y2),
        ensures
            r.wf(),
            r@ == line_start(thickness as int, x1 as int, y1 as int, x2 as int, y2 as int),
            r.points() == line_points(
                thickness as int,
                x1 as int,
                y1 as int,
                x2 as int,
                y2 as int,
            ),
    {
        let swap = x1 > x2 || (thickness != 0 && x1 == x2 && y1 > y2);
        let (start_x, start_y, end_x, end_y) = if swap {
            (x2, y2, x1, y1)
        } else {
            (x1, y1, x2, y2)
        };
        let dx = end_x - start_x;
        let dy = if end_y < start_y {
            start_y - end_y
        } else {
            end_y - start_y
        };
        let octant = Self::octant(start_x, start_y, end_x, end_y);
        let steep = octant == 1 || octant == 3;
        proof {
            lemma_line_start_inv(thickness as int, x1 as int, y1 as int, x2 as int, y2 as int);
        }
        Bresenham {
            origin: (start_x, start_y),
            octant,
            long: if steep {
                dy
            } else {
                dx
            },
            short: if steep {
                dx
            } else {
                dy
            },
            thickness: if thickness < 0 {
                -thickness
            } else {
                thickness
            },
            step: 0,
            offset: 0,
            error: 0,
            direction: Direction::Center,
            brush: 0,
        }
    }

    /// The octant of the line from `(x1, y1)` to `(x2, y2)`, where `x1 <= x2`.
    fn octant(x1: isize, y1: isize, x2: isize, y2: isize) -> (r: u8)
        requires
            abs(x1 as int) <= COORD_LIMIT,
            abs(y1 as int) <= COORD_LIMIT,
            abs(x2 as int) <= COORD_LIMIT,
            abs(y2 as int) <= COORD_LIMIT,
        ensures
            r == octant_of(x1 as int, y1 as int, x2 as int, y2 as int),
    {
        let dx = x2 - x1;
        let dy = y2 - y1;
        let adx = if dx < 0 {
            -dx
        } else {
            dx
        };
        let ady = if dy < 0 {
            -dy
        } else {
            dy
        };
        let mut oct: u8 = 0;
        if ady > adx {
            oct = oct + 1;
        }
        if y2 < y1 {
            oct = oct + 2;
        }
        oct
    }

    /// Number of points of the current brush.
    fn brush_len(&self) -> (r: usize)
        requires
            self.wf(),
        ensures
            r == brush_len(self.thickness as int, self.direction),
    {
        if self.thickness == 0 {
            1
        } else {
            self.direction.max_index(self.thickness)
        }
    }

    /// The current brush point, as a (long, short) offset from the core point.
    fn brush_offset(&self) -> (r: (isize, isize))
        requires
            self.wf(),
            self.brush < brush_len(self.thickness as int, self.direction),
        ensures
            (r.0 as int, r.1 as int) == brush_offset(
                self.thickness as int,
                self.direction,
                self.brush as int,
            ),
            -self.thickness - 1 <= r.0 <= self.thickness,
            -self.thickness - 1 <= r.1 <= self.thickness,
    {
        let t = self.thickness;
        if t == 0 {
            return (0, 0);
        }
        let side = self.direction.side(t);
        let k = self.brush;
        match self.direction {
            Direction::Center => {
                let s = side as usize;
                proof {
                    assert(k < s * s);
                    assert(k / s < s) by (nonlinear_arith)
                        requires
                            k < s * s,
                            0 < s,
                    {
                    }
                }
                ((k / s) as isize - t, (k % s) as isize - t)
            },
            Direction::Straight => (0, k as isize - t),
            Direction::Side => {
                if (k as isize) < side {
                    (0, k as isize - t)
                } else {
                    (-1, k as isize - side - t - 1)
                }
            },
        }
    }

    /// Maps a (long, short) offset from the core point to a pixel.
    fn translate(&self, local: (isize, isize)) -> (r: (isize, isize))
        requires
            self.wf(),
            self.step <= self.long,
            -self.thickness - 1 <= local.0 <= self.thickness,
            -self.thickness - 1 <= local.1 <= self.thickness,
        ensures
            ({
                let g = to_global(
                    self.octant as int,
                    self.step + local.0,
                    self.offset + local.1,
                );
                (r.0 as int, r.1 as int) == (self.origin.0 + g.0, self.origin.1 + g.1)
            }),
    {
        let a = self.step + local.0;
        let b = self.offset + local.1;
        let rotated = if self.octant == 0 {
            (a, b)
        } else if self.octant == 1 {
            (b, a)
        } else if self.octant == 2 {
            (a, -b)
        } else {
            (b, -a)
        };
        (rotated.0 + self.origin.0, rotated.1 + self.origin.1)
    }

    /// Takes one core step along the long axis.
    fn inc(&mut self)
        requires
            old(self).wf(),
            old(self).step <= old(self).long,
        ensures
            final(self).wf(),
            final(self)@ == core_step(old(self)@),
    {
        proof {
            lemma_core_step_inv(self@);
        }
        self.brush = 0;
        self.step = self.step + 1;
        let e = self.error + 2 * self.short;
        if e >= self.long {
            self.offset = self.offset + 1;
            self.error = e - 2 * self.long;
            self.direction = Direction::Side;
        } else {
            self.error = e;
            self.direction = Direction::Straight;
        }
    }

    /// Hands out the next pixel of the line, or `None` once it is exhausted.
    pub fn next(&mut self) -> (r: Option<(isize, isize)>)
        requires
            old(self).wf(),
        ensures
            final(self).wf(),
            match r {
                Some(p) => old(self).points().len() > 0 && (p.0 as int, p.1 as int)
                    == old(self).points()[0] && final(self).points() == old(
                    self,
                ).points().drop_first(),
                None => old(self).points().len() == 0 && *final(self) == *old(self),
            },
    {
        if self.step > self.long {
            return None;
        }
        if self.brush >= self.brush_len() {
            if self.step == self.long {
                assert(walk_points(core_step(self@)).len() == 0);
                return None;
            }
            self.inc();
            assert(old(self).points() == self.points());
        }
        let local = self.brush_offset();
        let point = self.translate(local);
        let ghost before = *self;
        self.brush = self.brush + 1;
        proof {
            assert(old(self).points() == before.points());
            assert(before.points() == seq![(point.0 as int, point.1 as int)] + self.points());
            assert(before.points().drop_first() =~= self.points());
        }
        Some(point)
    }
}

} // verus!
