use vstd::prelude::*;

use crate::dilation::{abs, lemma_cons_contains};

verus! {

/// The largest radius magnitude a circle accepts, so that the decision term
/// of the walk stays within `isize`.
pub const MAX_RADIUS: isize = 0x7ff_ffff;

/// How far `(x, y)` lies off the circle of radius `r`, in squared units.
pub open spec fn circle_error(x: int, y: int, r: int) -> int {
    x * x + y * y - r * r
}

/// Reflection number `k` (of eight) of the first-octant offset `(x, y)`,
/// moved to `(cx, cy)`.
pub open spec fn reflect(cx: int, cy: int, x: int, y: int, k: int) -> (int, int) {
    let p = if k == 0 {
        (x, y)
    } else if k == 1 {
        (y, x)
    } else if k == 2 {
        (y, -x)
    } else if k == 3 {
        (x, -y)
    } else if k == 4 {
        (-x, -y)
    } else if k == 5 {
        (-y, -x)
    } else if k == 6 {
        (-y, x)
    } else {
        (-x, y)
    };
    (cx + p.0, cy + p.1)
}

/// One radial step of the midpoint rule: `x` always grows, `y` falls when the
/// decision term `d` is not negative.
pub open spec fn advance(x: int, y: int, d: int) -> (int, int, int) {
    if d < 0 {
        (x + 1, y, d + 4 * x + 6)
    } else {
        (x + 1, y - 1, d + 4 * (x - y) + 10)
    }
}

/// The points of a circle around `(cx, cy)` from radial state `(x, y, d)`,
/// reflection `k` on.
pub open spec fn circle_scan(cx: int, cy: int, x: int, y: int, d: int, k: int) -> Seq<(int, int)>
    decreases y - x + 2, 8 - k,
{
    if x > y || x < 0 {
        Seq::empty()
    } else if k >= 8 {
        let n = advance(x, y, d);
        circle_scan(cx, cy, n.0, n.1, n.2, 0)
    } else {
        seq![reflect(cx, cy, x, y, k)] + circle_scan(cx, cy, x, y, d, k + 1)
    }
}

/// The number of radial states `(x, y)` with `x <= y` that the walk visits.
pub open spec fn radial_steps(x: int, y: int, d: int) -> nat
    decreases y - x + 2,
{
    if x > y || x < 0 {
        0
    } else {
        let n = advance(x, y, d);
        1 + radial_steps(n.0, n.1, n.2)
    }
}

/// The points of the circle of the given center and radius, in order.
pub open spec fn circle_points(center: (int, int), radius: int) -> Seq<(int, int)> {
    circle_scan(center.0, center.1, 0, abs(radius), 3 - 2 * abs(radius), 0)
}

/// Every point of the circle fits in an `isize`, and so does its decision term.
pub open spec fn circle_fits(center: (isize, isize), radius: isize) -> bool {
    let r = abs(radius as int);
    &&& r <= MAX_RADIUS
    &&& isize::MIN <= center.0 - r
    &&& center.0 + r <= isize::MAX
    &&& isize::MIN <= center.1 - r
    &&& center.1 + r <= isize::MAX
}

/// What holds of each radial state: the decision term tracks the midpoint
/// error, and a state that is drawn lies within `y` of the true circle.
pub open spec fn radial_inv(x: int, y: int, d: int, r: int) -> bool {
    &&& 0 <= x
    &&& y <= r
    &&& x <= r + 1
    &&& d == 2 * circle_error(x, y, r) + 4 * x - 2 * y + 3
    &&& x <= y ==> -y <= circle_error(x, y, r) <= y
}

proof fn lemma_advance(x: int, y: int, d: int, r: int)
    requires
        radial_inv(x, y, d, r),
        x <= y,
    ensures
        ({
            let n = advance(x, y, d);
            radial_inv(n.0, n.1, n.2, r)
        }),
{
    assert(circle_error(x + 1, y, r) == circle_error(x, y, r) + 2 * x + 1) by (nonlinear_arith);
    assert(circle_error(x + 1, y - 1, r) == circle_error(x, y, r) + 2 * x - 2 * y + 2)
        by (nonlinear_arith);
}

proof fn lemma_scan_shape(cx: int, cy: int, x: int, y: int, d: int, k: int, r: int)
    requires
        radial_inv(x, y, d, r),
        0 <= k <= 8,
    ensures
        circle_scan(cx, cy, x, y, d, k).len() == if x > y {
            0
        } else {
            8 * radial_steps(x, y, d) - k
        },
        forall|i: int|
            0 <= i < circle_scan(cx, cy, x, y, d, k).len() ==> {
                let p = #[trigger] circle_scan(cx, cy, x, y, d, k)[i];
                let (a, b) = (p.0 - cx, p.1 - cy);
                let m = if abs(a) > abs(b) {
                    abs(a)
                } else {
                    abs(b)
                };
                &&& r * r - m <= a * a + b * b <= r * r + m
            },
    decreases y - x + 2, 8 - k,
{
    let s = circle_scan(cx, cy, x, y, d, k);
    if x <= y {
        if k >= 8 {
            let n = advance(x, y, d);
            lemma_advance(x, y, d, r);
            lemma_scan_shape(cx, cy, n.0, n.1, n.2, 0, r);
        } else {
            let t = circle_scan(cx, cy, x, y, d, k + 1);
            lemma_scan_shape(cx, cy, x, y, d, k + 1, r);
            let p = reflect(cx, cy, x, y, k);
            assert(s[0] == p);
            let (a, b) = (p.0 - cx, p.1 - cy);
            assert(a * a + b * b == x * x + y * y) by (nonlinear_arith)
                requires
                    (a == x || a == -x || a == y || a == -y),
                    (b == x || b == -x || b == y || b == -y),
                    (a == x || a == -x) <==> (b == y || b == -y),
                    (a == y || a == -y) ==> (b == x || b == -x),
            {
            }
            assert forall|i: int| 0 < i < s.len() implies s[i] == t[i - 1] by {}
        }
    }
}

/// A circle of radius `r` hands out eight points (its reflections) for each
/// radial step, and each point `(a, b)` off the center satisfies
/// `r^2 - m <= a^2 + b^2 <= r^2 + m`, where `m` is the larger of `|a|` and `|b|`.
pub proof fn circle_count_and_distance(center: (int, int), radius: int)
    ensures
        circle_points(center, radius).len() == 8 * radial_steps(
            0,
            abs(radius),
            3 - 2 * abs(radius),
        ),
        forall|i: int|
            0 <= i < circle_points(center, radius).len() ==> {
                let p = #[trigger] circle_points(center, radius)[i];
                let (a, b) = (p.0 - center.0, p.1 - center.1);
                let m = if abs(a) > abs(b) {
                    abs(a)
                } else {
                    abs(b)
                };
                &&& radius * radius - m <= a * a + b * b <= radius * radius + m
            },
{
    let r = abs(radius);
    assert(circle_error(0, r, r) == 0) by (nonlinear_arith);
    assert(r * r == radius * radius) by (nonlinear_arith)
        requires
            r == radius || r == -radius,
    {
    }
    lemma_scan_shape(center.0, center.1, 0, r, 3 - 2 * r, 0, r);
}

/// Reflection number `k` mirrored across the vertical axis through the center.
spec fn mirror_x_index(k: int) -> int {
    7 - k
}

/// Reflection number `k` mirrored across the horizontal axis through the center.
spec fn mirror_y_index(k: int) -> int {
    if k <= 3 {
        3 - k
    } else {
        11 - k
    }
}

/// Reflection number `k` mirrored across the diagonal through the center.
spec fn swap_index(k: int) -> int {
    if k <= 1 {
        1 - k
    } else {
        9 - k
    }
}

proof fn lemma_scan_members(cx: int, cy: int, x: int, y: int, d: int, k: int)
    requires
        0 <= x <= y,
        0 <= k <= 8,
    ensures
        forall|p: (int, int)| #[trigger]
            circle_scan(cx, cy, x, y, d, k).contains(p) <==> ((exists|j: int|
                k <= j < 8 && p == #[trigger] reflect(cx, cy, x, y, j)) || circle_scan(
                cx,
                cy,
                advance(x, y, d).0,
                advance(x, y, d).1,
                advance(x, y, d).2,
                0,
            ).contains(p)),
    decreases 8 - k,
{
    if k < 8 {
        lemma_scan_members(cx, cy, x, y, d, k + 1);
        lemma_cons_contains(reflect(cx, cy, x, y, k), circle_scan(cx, cy, x, y, d, k + 1));
    }
}

proof fn lemma_reflect_mirrors(cx: int, cy: int, x: int, y: int, j: int)
    requires
        0 <= j < 8,
    ensures
        0 <= mirror_x_index(j) < 8,
        0 <= mirror_y_index(j) < 8,
        0 <= swap_index(j) < 8,
        reflect(cx, cy, x, y, mirror_x_index(j)) == (
        2 * cx - reflect(cx, cy, x, y, j).0,
        reflect(cx, cy, x, y, j).1,
        ),
        reflect(cx, cy, x, y, mirror_y_index(j)) == (
        reflect(cx, cy, x, y, j).0,
        2 * cy - reflect(cx, cy, x, y, j).1,
        ),
        reflect(cx, cy, x, y, swap_index(j)) == (
        cx + reflect(cx, cy, x, y, j).1 - cy,
        cy + reflect(cx, cy, x, y, j).0 - cx,
        ),
{
}

proof fn lemma_scan_symmetric(cx: int, cy: int, x: int, y: int, d: int, p: (int, int))
    requires
        0 <= x,
        circle_scan(cx, cy, x, y, d, 0).contains(p),
    ensures
        circle_scan(cx, cy, x, y, d, 0).contains((2 * cx - p.0, p.1)),
        circle_scan(cx, cy, x, y, d, 0).contains((p.0, 2 * cy - p.1)),
        circle_scan(cx, cy, x, y, d, 0).contains((cx + p.1 - cy, cy + p.0 - cx)),
    decreases y - x + 2,
{
    let n = advance(x, y, d);
    lemma_scan_members(cx, cy, x, y, d, 0);
    if exists|j: int| 0 <= j < 8 && p == #[trigger] reflect(cx, cy, x, y, j) {
        let j = choose|j: int| 0 <= j < 8 && p == #[trigger] reflect(cx, cy, x, y, j);
        lemma_reflect_mirrors(cx, cy, x, y, j);
    } else {
        lemma_scan_symmetric(cx, cy, n.0, n.1, n.2, p);
    }
}

/// A circle is symmetric: mirroring any of its points across the vertical or
/// the horizontal axis through the center, or across the diagonal, gives a
/// point of the circle.
pub proof fn circle_symmetric(center: (int, int), radius: int)
    ensures
        forall|p: (int, int)| #[trigger]
            circle_points(center, radius).contains(p) ==> {
                &&& circle_points(center, radius).contains((2 * center.0 - p.0, p.1))
                &&& circle_points(center, radius).contains((p.0, 2 * center.1 - p.1))
                &&& circle_points(center, radius).contains(
                    (center.0 + p.1 - center.1, center.1 + p.0 - center.0),
                )
            },
{
    assert forall|p: (int, int)| #[trigger] circle_points(center, radius).contains(p) implies {
        &&& circle_points(center, radius).contains((2 * center.0 - p.0, p.1))
        &&& circle_points(center, radius).contains((p.0, 2 * center.1 - p.1))
        &&& circle_points(center, radius).contains(
            (center.0 + p.1 - center.1, center.1 + p.0 - center.0),
        )
    } by {
        lemma_scan_symmetric(center.0, center.1, 0, abs(radius), 3 - 2 * abs(radius), p);
    }
}

/// Walk over the boundary of a circle by the midpoint rule, eight mirrored
/// points per radial step.
pub struct Circle {
    center: (isize, isize),
    current: (isize, isize),
    octant: u8,
    d: isize,
    radius: Ghost<int>,
}

impl Circle {
    pub closed spec fn wf(&self) -> bool {
        let r = self.radius@;
        let (x, y) = (self.current.0 as int, self.current.1 as int);
        &&& 0 <= r <= MAX_RADIUS
        &&& isize::MIN <= self.center.0 - r
        &&& self.center.0 + r <= isize::MAX
        &&& isize::MIN <= self.center.1 - r
        &&& self.center.1 + r <= isize::MAX
        &&& radial_inv(x, y, self.d as int, r)
        &&& self.octant <= 8
        &&& self.octant == 8 ==> x <= y
    }

    /// The points that the walk has still to hand out, in order.
    pub closed spec fn points(&self) -> Seq<(int, int)> {
        circle_scan(
            self.center.0 as int,
            self.center.1 as int,
            self.current.0 as int,
            self.current.1 as int,
            self.d as int,
            self.octant as int,
        )
    }

    /// The circle of the given center whose radius is the magnitude of `radius`.
    pub fn new(center: (isize, isize), radius: isize) -> (r: Self)
        requires
            circle_fits(center, radius),
        ensures
            r.wf(),
            r.points() == circle_points((center.0 as int, center.1 as int), radius as int),
    {
        let magnitude: isize = if radius < 0 {
            -radius
        } else {
            radius
        };
        proof {
            assert(circle_error(0, magnitude as int, magnitude as int) == 0) by (nonlinear_arith);
        }
        Circle {
            center,
            current: (0, magnitude),
            octant: 0,
            d: 3 - 2 * magnitude,
            radius: Ghost(magnitude as int),
        }
    }

    /// Moves to the next radial state and back to the first reflection.
    fn inc(&mut self)
        requires
            old(self).wf(),
            old(self).current.0 <= old(self).current.1,
        ensures
            final(self).wf(),
            final(self).center == old(self).center,
            final(self).radius == old(self).radius,
            final(self).octant == 0,
            (final(self).current.0 as int, final(self).current.1 as int, final(self).d as int)
                == advance(old(self).current.0 as int, old(self).current.1 as int, old(self).d as int),
    {
        proof {
            lemma_advance(
                self.current.0 as int,
                self.current.1 as int,
                self.d as int,
                self.radius@,
            );
        }
        self.octant = 0;
        if self.d < 0 {
            self.d = self.d + 4 * self.current.0 + 6;
        } else {
            self.d = self.d + 4 * (self.current.0 - self.current.1) + 10;
            self.current.1 = self.current.1 - 1;
        }
        self.current.0 = self.current.0 + 1;
    }

    /// The current radial state under the current reflection, moved to the center.
    fn from_octant(&self) -> (r: (isize, isize))
        requires
            self.wf(),
            self.current.0 <= self.current.1,
            self.octant < 8,
        ensures
            (r.0 as int, r.1 as int) == reflect(
                self.center.0 as int,
                self.center.1 as int,
                self.current.0 as int,
                self.current.1 as int,
                self.octant as int,
            ),
    {
        let (x, y) = self.current;
        let point = if self.octant == 0 {
            (x, y)
        } else if self.octant == 1 {
            (y, x)
        } else if self.octant == 2 {
            (y, -x)
        } else if self.octant == 3 {
            (x, -y)
        } else if self.octant == 4 {
            (-x, -y)
        } else if self.octant == 5 {
            (-y, -x)
        } else if self.octant == 6 {
            (-y, x)
        } else {
            (-x, y)
        };
        (point.0 + self.center.0, point.1 + self.center.1)
    }

    /// Hands out the next point of the circle, or `None` once it is exhausted.
    pub fn next(&mut self) -> (r: Option<(isize, isize)>)
        requires
            old(self).wf(),
        ensures
            final(self).wf(),
            match r {
                Some(p) => old(self).points().len() > 0 && (p.0 as int, p.1 as int)
                    == old(self).points()[0] && final(self).points() == old(
                    self,
                ).points().drop_first(),
                None => old(self).points().len() == 0 && *final(self) == *old(self),
            },
    {
        if self.current.0 > self.current.1 {
            return None;
        }
        if self.octant >= 8 {
            let next_y = if self.d < 0 {
                self.current.1
            } else {
                self.current.1 - 1
            };
            if self.current.0 + 1 > next_y {
                proof {
                    let n = advance(self.current.0 as int, self.current.1 as int, self.d as int);
                    assert(n.0 > n.1);
                    assert(circle_scan(
                        self.center.0 as int,
                        self.center.1 as int,
                        n.0,
                        n.1,
                        n.2,
                        0,
                    ).len() == 0);
                    assert(self.points() == circle_scan(
                        self.center.0 as int,
                        self.center.1 as int,
                        n.0,
                        n.1,
                        n.2,
                        0,
                    ));
                }
                return None;
            }
            self.inc();
        }
        assert(old(self).points() == self.points());
        let point = self.from_octant();
        let ghost before = *self;
        self.octant = self.octant + 1;
        proof {
            assert(before.points() == seq![(point.0 as int, point.1 as int)] + self.points());
            assert(old(self).points() == before.points());
            assert(before.points().drop_first() =~= self.points());
        }
        Some(point)
    }
}

} // verus!
