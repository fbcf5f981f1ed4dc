use vstd::prelude::*;

verus! {

pub open spec fn abs(v: int) -> int {
    if v < 0 {
        -v
    } else {
        v
    }
}

/// The L1-radius of the diamond that a thickness asks for: one less than the
/// thickness, and never below zero.
pub open spec fn dilation_radius(thickness: int) -> int {
    if thickness <= 0 {
        0
    } else {
        thickness - 1
    }
}

/// Half the width of row `y` of a diamond of radius `r`.
pub open spec fn row_half(r: int, y: int) -> int {
    r - abs(y)
}

/// The rows of the diamond of radius `r` around `(cx, cy)`, top to bottom and
/// each left to right, from offset `(x, y)` on.
pub open spec fn diamond_scan(cx: int, cy: int, r: int, x: int, y: int) -> Seq<(int, int)>
    decreases r - y + 1, row_half(r, y) - x + 1,
{
    if y > r {
        Seq::empty()
    } else if x + 1 > row_half(r, y) {
        seq![(cx + x, cy + y)] + diamond_scan(cx, cy, r, -row_half(r, y + 1), y + 1)
    } else {
        seq![(cx + x, cy + y)] + diamond_scan(cx, cy, r, x + 1, y)
    }
}

/// The points of the dilation of `center` at `thickness`, in order.
pub open spec fn dilation_points(center: (int, int), thickness: int) -> Seq<(int, int)> {
    let r = dilation_radius(thickness);
    diamond_scan(center.0, center.1, r, 0, -r)
}

/// Every point of the dilation fits in an `isize`.
pub open spec fn dilation_fits(center: (isize, isize), thickness: usize) -> bool {
    let r = dilation_radius(thickness as int);
    &&& r < isize::MAX
    &&& isize::MIN <= center.0 - r
    &&& center.0 + r <= isize::MAX
    &&& isize::MIN <= center.1 - r
    &&& center.1 + r <= isize::MAX
}

pub(crate) proof fn lemma_cons_contains(a: (int, int), t: Seq<(int, int)>)
    ensures
        forall|p: (int, int)| #[trigger] (seq![a] + t).contains(p) <==> (p == a || t.contains(p)),
{
    let s = seq![a] + t;
    assert(s[0] == a);
    assert forall|p: (int, int)| #[trigger] s.contains(p) <==> (p == a || t.contains(p)) by {
        if t.contains(p) {
            let k = choose|k: int| 0 <= k < t.len() && t[k] == p;
            assert(s[k + 1] == p);
        }
        if s.contains(p) && p != a {
            let k = choose|k: int| 0 <= k < s.len() && s[k] == p;
            assert(t[k - 1] == p);
        }
    }
}

proof fn lemma_diamond_members(cx: int, cy: int, r: int, x: int, y: int)
    requires
        0 <= r,
        -r <= y <= r + 1,
        y <= r ==> -row_half(r, y) <= x <= row_half(r, y),
    ensures
        forall|p: (int, int)| #[trigger]
            diamond_scan(cx, cy, r, x, y).contains(p) <==> {
                &&& abs(p.0 - cx) + abs(p.1 - cy) <= r
                &&& (p.1 - cy > y || (p.1 - cy == y && p.0 - cx >= x))
            },
    decreases r - y + 1, row_half(r, y) - x + 1,
{
    if y <= r {
        let a = (cx + x, cy + y);
        if x + 1 > row_half(r, y) {
            lemma_diamond_members(cx, cy, r, -row_half(r, y + 1), y + 1);
            lemma_cons_contains(a, diamond_scan(cx, cy, r, -row_half(r, y + 1), y + 1));
        } else {
            lemma_diamond_members(cx, cy, r, x + 1, y);
            lemma_cons_contains(a, diamond_scan(cx, cy, r, x + 1, y));
        }
    }
}

/// A dilation of thickness `t >= 1` holds exactly the points whose L1
/// distance to the center is at most `t - 1`: a closed diamond.
pub proof fn dilation_is_diamond(center: (int, int), thickness: int)
    requires
        thickness >= 1,
    ensures
        forall|p: (int, int)| #[trigger]
            dilation_points(center, thickness).contains(p) <==> abs(p.0 - center.0) + abs(
                p.1 - center.1,
            ) <= thickness - 1,
{
    let r = thickness - 1;
    lemma_diamond_members(center.0, center.1, r, 0, -r);
}

/// Walk over a filled diamond around a center, row by row.
#[derive(Debug, Clone, Copy, PartialEq, Eq)]
pub struct Dilation {
    radius: usize,
    center: (isize, isize),
    current: (isize, isize),
}

impl Dilation {
    pub closed spec fn radius(&self) -> int {
        self.radius as int
    }

    pub closed spec fn center(&self) -> (int, int) {
        (self.center.0 as int, self.center.1 as int)
    }

    pub closed spec fn wf(&self) -> bool {
        let r = self.radius as int;
        let (x, y) = (self.current.0 as int, self.current.1 as int);
        &&& r < isize::MAX
        &&& isize::MIN <= self.center.0 - r
        &&& self.center.0 + r <= isize::MAX
        &&& isize::MIN <= self.center.1 - r
        &&& self.center.1 + r <= isize::MAX
        &&& -r <= y <= r + 1
        &&& y <= r ==> -row_half(r, y) <= x <= row_half(r, y)
    }

    /// The points that the walk has still to hand out, in order.
    pub closed spec fn points(&self) -> Seq<(int, int)> {
        diamond_scan(
            self.center.0 as int,
            self.center.1 as int,
            self.radius as int,
            self.current.0 as int,
            self.current.1 as int,
        )
    }

    /// The dilation of `center` at `thickness`: a diamond of L1-radius
    /// `thickness - 1` (a single point for thickness 0 or 1).
    pub fn new(center: (isize, isize), thickness: usize) -> (r: Self)
        requires
            dilation_fits(center, thickness),
        ensures
            r.wf(),
            r.radius() == dilation_radius(thickness as int),
            r.center() == (center.0 as int, center.1 as int),
            r.points() == dilation_points((center.0 as int, center.1 as int), thickness as int),
    {
        let thick: usize = if thickness == 0 {
            0
        } else {
            thickness - 1
        };
        Dilation { radius: thick, center, current: (0, -(thick as isize)) }
    }

    /// Starts the walk over from its first point, keeping center and radius.
    pub fn reset(&mut self)
        requires
            old(self).wf(),
        ensures
            final(self).wf(),
            final(self).radius() == old(self).radius(),
            final(self).center() == old(self).center(),
            final(self).points() == diamond_scan(
                old(self).center().0,
                old(self).center().1,
                old(self).radius(),
                0,
                -old(self).radius(),
            ),
    {
        self.current = (0, -(self.radius as isize));
    }

    /// Hands out the next point of the diamond, or `None` once it is exhausted.
    pub fn next(&mut self) -> (r: Option<(isize, isize)>)
        requires
            old(self).wf(),
        ensures
            final(self).wf(),
            final(self).radius() == old(self).radius(),
            final(self).center() == old(self).center(),
            match r {
                Some(p) => old(self).points().len() > 0 && (p.0 as int, p.1 as int)
                    == old(self).points()[0] && final(self).points() == old(
                    self,
                ).points().drop_first(),
                None => old(self).points().len() == 0 && *final(self) == *old(self),
            },
    {
        if self.current.1 <= self.radius as isize {
            let returning = (self.current.0 + self.center.0, self.current.1 + self.center.1);
            let ay: isize = if self.current.1 < 0 {
                -self.current.1
            } else {
                self.current.1
            };
            let width: isize = self.radius as isize - ay;
            self.current.0 = self.current.0 + 1;
            if self.current.0 > width {
                self.current.1 = self.current.1 + 1;
                let ay2: isize = if self.current.1 < 0 {
                    -self.current.1
                } else {
                    self.current.1
                };
                self.current.0 = -(self.radius as isize - ay2);
            }
            proof {
                let s = *old(self);
                assert(s.points() == seq![(returning.0 as int, returning.1 as int)]
                    + self.points());
                assert(s.points().drop_first() =~= self.points());
            }
            Some(returning)
        } else {
            None
        }
    }
}

} // verus!
