use vstd::prelude::*;

use crate::dilation::abs;
use crate::line::{
    brush_len, brush_offset, core_step, line_start, side_of, to_global, walk_inv, walk_point,
    Direction, LineWalk,
};
use vstd::arithmetic::div_mod::lemma_fundamental_div_mod_converse;

verus! {

/// Whether two pixels share an edge.
pub open spec fn adjacent(p: (int, int), q: (int, int)) -> bool {
    abs(p.0 - q.0) + abs(p.1 - q.1) == 1
}

/// Whether each point of `path` shares an edge with the next one.
pub open spec fn chain(path: Seq<(int, int)>) -> bool {
    forall|k: int| 0 <= k < path.len() - 1 ==> adjacent(#[trigger] path[k], path[k + 1])
}

/// Whether `path` leads from `p` to `q` through pixels of `s` only.
pub open spec fn connects(path: Seq<(int, int)>, s: Set<(int, int)>, p: (int, int), q: (int, int)) -> bool {
    &&& path.len() > 0
    &&& path[0] == p
    &&& path.last() == q
    &&& chain(path)
    &&& forall|k: int| 0 <= k < path.len() ==> s.contains(#[trigger] path[k])
}

/// Whether any two pixels of `s` are joined by a path of edge-sharing pixels of `s`.
pub open spec fn four_connected(s: Set<(int, int)>) -> bool {
    forall|p: (int, int), q: (int, int)|
        s.contains(p) && s.contains(q) ==> exists|path: Seq<(int, int)>| connects(path, s, p, q)
}

/// The pixels that the brush of core state `w` stamps.
pub open spec fn brush_set(w: LineWalk) -> Set<(int, int)> {
    Set::new(
        |p: (int, int)|
            exists|k: int|
                0 <= k < brush_len(w.thickness, w.direction) && p == #[trigger] walk_point(
                    LineWalk { brush: k, ..w },
                ),
    )
}

/// The core state of a line after `n` core steps.
pub open spec fn core_state(t: int, x1: int, y1: int, x2: int, y2: int, n: nat) -> LineWalk
    decreases n,
{
    if n == 0 {
        line_start(t, x1, y1, x2, y2)
    } else {
        core_step(core_state(t, x1, y1, x2, y2, (n - 1) as nat))
    }
}

/// Brush point `k` of `w` in (long, short) coordinates from the origin.
spec fn canon_point(w: LineWalk, k: int) -> (int, int) {
    let o = brush_offset(w.thickness, w.direction, k);
    (w.step + o.0, w.offset + o.1)
}

/// A (long, short) point moved to real axes.
spec fn place(w: LineWalk, c: (int, int)) -> (int, int) {
    let g = to_global(w.octant, c.0, c.1);
    (w.origin.0 + g.0, w.origin.1 + g.1)
}

/// The shape of a thick brush at core point `(i, s)`, in (long, short) coordinates.
spec fn in_shape(t: int, dir: Direction, i: int, s: int, c: (int, int)) -> bool {
    match dir {
        Direction::Center => i - t <= c.0 <= i + t && s - t <= c.1 <= s + t,
        Direction::Straight => c.0 == i && s - t <= c.1 <= s + t,
        Direction::Side => (c.0 == i && s - t <= c.1 <= s + t) || (c.0 == i - 1 && s - t - 1 <= c.1
            <= s + t),
    }
}

spec fn shape_of(w: LineWalk, c: (int, int)) -> bool {
    in_shape(w.thickness, w.direction, w.step, w.offset, c)
}

proof fn lemma_brush_in_shape(w: LineWalk, k: int)
    requires
        w.thickness >= 1,
        0 <= k < brush_len(w.thickness, w.direction),
    ensures
        shape_of(w, canon_point(w, k)),
{
    let t = w.thickness;
    let side = side_of(t);
    if w.direction == Direction::Center {
        assert(0 <= k / side < side) by (nonlinear_arith)
            requires
                0 <= k < side * side,
                0 < side,
        {
        }
    }
}

proof fn lemma_shape_in_brush(w: LineWalk, c: (int, int))
    requires
        w.thickness >= 1,
        shape_of(w, c),
    ensures
        exists|k: int|
            0 <= k < brush_len(w.thickness, w.direction) && c == #[trigger] canon_point(w, k),
{
    let t = w.thickness;
    let side = side_of(t);
    let (i, s) = (w.step, w.offset);
    match w.direction {
        Direction::Center => {
            let (a, b) = (c.0 - i + t, c.1 - s + t);
            let k = a * side + b;
            assert(0 <= k < side * side) by (nonlinear_arith)
                requires
                    0 <= a < side,
                    0 <= b < side,
                    k == a * side + b,
            {
            }
            lemma_fundamental_div_mod_converse(k, side, a, b);
            assert(c == canon_point(w, k));
        },
        Direction::Straight => {
            assert(c == canon_point(w, c.1 - s + t));
        },
        Direction::Side => {
            if c.0 == i && s - t <= c.1 <= s + t {
                assert(c == canon_point(w, c.1 - s + t));
            } else {
                assert(c == canon_point(w, c.1 - s + t + 1 + side));
            }
        },
    }
}

/// The points from `(x, y0)` to `(x, y1)`, one row at a time.
spec fn vseg(x: int, y0: int, y1: int) -> Seq<(int, int)> {
    Seq::new(
        (abs(y1 - y0) + 1) as nat,
        |k: int|
            (
                x,
                if y0 <= y1 {
                    y0 + k
                } else {
                    y0 - k
                },
            ),
    )
}

/// The points from `(x0, y)` to `(x1, y)`, one column at a time.
spec fn hseg(y: int, x0: int, x1: int) -> Seq<(int, int)> {
    Seq::new(
        (abs(x1 - x0) + 1) as nat,
        |k: int|
            (
                if x0 <= x1 {
                    x0 + k
                } else {
                    x0 - k
                },
                y,
            ),
    )
}

proof fn lemma_vseg(x: int, y0: int, y1: int)
    ensures
        vseg(x, y0, y1).len() > 0,
        vseg(x, y0, y1)[0] == (x, y0),
        vseg(x, y0, y1).last() == (x, y1),
        chain(vseg(x, y0, y1)),
        forall|k: int|
            0 <= k < vseg(x, y0, y1).len() ==> {
                let p = #[trigger] vseg(x, y0, y1)[k];
                &&& p.0 == x
                &&& (y0 <= p.1 <= y1 || y1 <= p.1 <= y0)
            },
{
}

proof fn lemma_hseg(y: int, x0: int, x1: int)
    ensures
        hseg(y, x0, x1).len() > 0,
        hseg(y, x0, x1)[0] == (x0, y),
        hseg(y, x0, x1).last() == (x1, y),
        chain(hseg(y, x0, x1)),
        forall|k: int|
            0 <= k < hseg(y, x0, x1).len() ==> {
                let p = #[trigger] hseg(y, x0, x1)[k];
                &&& p.1 == y
                &&& (x0 <= p.0 <= x1 || x1 <= p.0 <= x0)
            },
{
}

/// `a` followed by `b`, where `b` starts where `a` ends.
spec fn join(a: Seq<(int, int)>, b: Seq<(int, int)>) -> Seq<(int, int)> {
    a + b.drop_first()
}

proof fn lemma_join(a: Seq<(int, int)>, b: Seq<(int, int)>, s: Set<(int, int)>)
    requires
        a.len() > 0,
        b.len() > 0,
        a.last() == b[0],
        chain(a),
        chain(b),
        forall|k: int| 0 <= k < a.len() ==> s.contains(#[trigger] a[k]),
        forall|k: int| 0 <= k < b.len() ==> s.contains(#[trigger] b[k]),
    ensures
        join(a, b).len() > 0,
        join(a, b)[0] == a[0],
        join(a, b).last() == b.last(),
        chain(join(a, b)),
        forall|k: int| 0 <= k < join(a, b).len() ==> s.contains(#[trigger] join(a, b)[k]),
{
    let j = join(a, b);
    assert forall|k: int| 0 <= k < j.len() - 1 implies adjacent(#[trigger] j[k], j[k + 1]) by {
        if k < a.len() - 1 {
            assert(j[k] == a[k] && j[k + 1] == a[k + 1]);
        } else if k == a.len() - 1 {
            assert(j[k] == b[0] && j[k + 1] == b[1]);
        } else {
            let m = k - a.len() + 1;
            assert(j[k] == b[m] && j[k + 1] == b[m + 1]);
        }
    }
    assert forall|k: int| 0 <= k < j.len() implies s.contains(#[trigger] j[k]) by {
        if k < a.len() {
            assert(j[k] == a[k]);
        } else {
            assert(j[k] == b[k - a.len() + 1]);
        }
    }
    if b.len() == 1 {
        assert(j.last() == a.last());
    } else {
        assert(j.last() == b[b.len() - 1]);
    }
}

proof fn lemma_joint_path(w: LineWalk, p: (int, int), q: (int, int)) -> (path: Seq<(int, int)>)
    requires
        walk_inv(w),
        w.thickness >= 1,
        w.step < w.long,
        shape_of(w, p) || shape_of(core_step(w), p),
        shape_of(w, q) || shape_of(core_step(w), q),
    ensures
        connects(
            path,
            Set::new(|c: (int, int)| shape_of(w, c) || shape_of(core_step(w), c)),
            p,
            q,
        ),
{
    let n = core_step(w);
    let u = Set::new(|c: (int, int)| shape_of(w, c) || shape_of(n, c));
    let (i, s) = (w.step, w.offset);
    let a = vseg(p.0, p.1, s);
    let b = hseg(s, p.0, i);
    let c = hseg(s, i, q.0);
    let d = vseg(q.0, s, q.1);
    lemma_vseg(p.0, p.1, s);
    lemma_hseg(s, p.0, i);
    lemma_hseg(s, i, q.0);
    lemma_vseg(q.0, s, q.1);
    assert forall|k: int| 0 <= k < a.len() implies u.contains(#[trigger] a[k]) by {}
    assert forall|k: int| 0 <= k < b.len() implies u.contains(#[trigger] b[k]) by {}
    assert forall|k: int| 0 <= k < c.len() implies u.contains(#[trigger] c[k]) by {}
    assert forall|k: int| 0 <= k < d.len() implies u.contains(#[trigger] d[k]) by {}
    lemma_join(a, b, u);
    lemma_join(join(a, b), c, u);
    lemma_join(join(join(a, b), c), d, u);
    join(join(join(a, b), c), d)
}

proof fn lemma_place_adjacent(w: LineWalk, c: (int, int), d: (int, int))
    requires
        0 <= w.octant < 4,
        adjacent(c, d),
    ensures
        adjacent(place(w, c), place(w, d)),
{
}

proof fn lemma_consecutive_connected(w: LineWalk)
    requires
        walk_inv(w),
        w.thickness >= 1,
        w.step < w.long,
    ensures
        four_connected(brush_set(w).union(brush_set(core_step(w)))),
{
    let n = core_step(w);
    let all = brush_set(w).union(brush_set(n));
    let u = Set::new(|c: (int, int)| shape_of(w, c) || shape_of(n, c));
    assert forall|p: (int, int), q: (int, int)| all.contains(p) && all.contains(q) implies exists|
        path: Seq<(int, int)>,
    | connects(path, all, p, q) by {
        let cp = if brush_set(w).contains(p) {
            let k = choose|k: int|
                0 <= k < brush_len(w.thickness, w.direction) && p == #[trigger] walk_point(
                    LineWalk { brush: k, ..w },
                );
            lemma_brush_in_shape(w, k);
            canon_point(w, k)
        } else {
            let k = choose|k: int|
                0 <= k < brush_len(n.thickness, n.direction) && p == #[trigger] walk_point(
                    LineWalk { brush: k, ..n },
                );
            lemma_brush_in_shape(n, k);
            canon_point(n, k)
        };
        let cq = if brush_set(w).contains(q) {
            let k = choose|k: int|
                0 <= k < brush_len(w.thickness, w.direction) && q == #[trigger] walk_point(
                    LineWalk { brush: k, ..w },
                );
            lemma_brush_in_shape(w, k);
            canon_point(w, k)
        } else {
            let k = choose|k: int|
                0 <= k < brush_len(n.thickness, n.direction) && q == #[trigger] walk_point(
                    LineWalk { brush: k, ..n },
                );
            lemma_brush_in_shape(n, k);
            canon_point(n, k)
        };
        let cpath = lemma_joint_path(w, cp, cq);
        let path = cpath.map_values(|c: (int, int)| place(w, c));
        assert forall|k: int| 0 <= k < path.len() - 1 implies adjacent(
            #[trigger] path[k],
            path[k + 1],
        ) by {
            lemma_place_adjacent(w, cpath[k], cpath[k + 1]);
        }
        assert forall|k: int| 0 <= k < path.len() implies all.contains(#[trigger] path[k]) by {
            let c = cpath[k];
            assert(u.contains(c));
            if shape_of(w, c) {
                lemma_shape_in_brush(w, c);
                let j = choose|j: int|
                    0 <= j < brush_len(w.thickness, w.direction) && c == #[trigger] canon_point(
                        w,
                        j,
                    );
                assert(path[k] == walk_point(LineWalk { brush: j, ..w }));
            } else {
                lemma_shape_in_brush(n, c);
                let j = choose|j: int|
                    0 <= j < brush_len(n.thickness, n.direction) && c == #[trigger] canon_point(
                        n,
                        j,
                    );
                assert(path[k] == walk_point(LineWalk { brush: j, ..n }));
            }
        }
        assert(connects(path, all, p, q));
    }
}

proof fn lemma_core_state_inv(t: int, x1: int, y1: int, x2: int, y2: int, n: nat)
    requires
        n <= line_start(t, x1, y1, x2, y2).long,
    ensures
        walk_inv(core_state(t, x1, y1, x2, y2, n)),
        core_state(t, x1, y1, x2, y2, n).step == n,
        core_state(t, x1, y1, x2, y2, n).long == line_start(t, x1, y1, x2, y2).long,
        core_state(t, x1, y1, x2, y2, n).thickness == abs(t),
    decreases n,
{
    if n == 0 {
        crate::line::lemma_line_start_inv(t, x1, y1, x2, y2);
    } else {
        lemma_core_state_inv(t, x1, y1, x2, y2, (n - 1) as nat);
        crate::line::lemma_core_step_inv(core_state(t, x1, y1, x2, y2, (n - 1) as nat));
    }
}

/// On a line of thickness `|t| >= 1`, the brushes of any two
/// consecutive core steps together form a 4-connected set of pixels, so the
/// line leaves no gap between them.
pub proof fn thick_line_has_no_gaps(t: int, x1: int, y1: int, x2: int, y2: int, n: nat)
    requires
        abs(t) >= 1,
        n < line_start(t, x1, y1, x2, y2).long,
    ensures
        four_connected(
            brush_set(core_state(t, x1, y1, x2, y2, n)).union(
                brush_set(core_state(t, x1, y1, x2, y2, n + 1)),
            ),
        ),
{
    lemma_core_state_inv(t, x1, y1, x2, y2, n);
    lemma_consecutive_connected(core_state(t, x1, y1, x2, y2, n));
}

} // verus!
