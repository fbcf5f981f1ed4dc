use raster::{fill_mode, Bresenham, Circle, Dilation, FillMode, Rectangle};

fn line(t: isize, x1: isize, y1: isize, x2: isize, y2: isize) -> Vec<(isize, isize)> {
    let mut walk = Bresenham::new(t, x1, y1, x2, y2);
    let mut out = Vec::new();
    while let Some(p) = walk.next() {
        out.push(p);
    }
    assert_eq!(walk.next(), None);
    out
}

fn circle(cx: isize, cy: isize, r: isize) -> Vec<(isize, isize)> {
    let mut walk = Circle::new((cx, cy), r);
    let mut out = Vec::new();
    while let Some(p) = walk.next() {
        out.push(p);
    }
    assert_eq!(walk.next(), None);
    out
}

fn dilation(cx: isize, cy: isize, t: usize) -> Vec<(isize, isize)> {
    let mut walk = Dilation::new((cx, cy), t);
    let mut out = Vec::new();
    while let Some(p) = walk.next() {
        out.push(p);
    }
    out
}

fn rectangle(x: isize, y: isize, w: usize, h: usize) -> Vec<(usize, usize)> {
    let mut walk = Rectangle::new(x, y, w, h);
    let mut out = Vec::new();
    while let Some(p) = walk.next() {
        out.push(p);
    }
    out
}

fn sorted(mut v: Vec<(isize, isize)>) -> Vec<(isize, isize)> {
    v.sort();
    v.dedup();
    v
}

#[test]
fn thin_horizontal_line() {
    assert_eq!(line(0, 0, 0, 3, 0), vec![(0, 0), (1, 0), (2, 0), (3, 0)]);
}

#[test]
fn thin_diagonal_line() {
    assert_eq!(line(0, 0, 0, 3, 3), vec![(0, 0), (1, 1), (2, 2), (3, 3)]);
}

#[test]
fn thin_steep_line() {
    assert_eq!(line(0, 0, 0, 1, 3), vec![(0, 0), (0, 1), (1, 2), (1, 3)]);
}

#[test]
fn thin_shallow_upward_line() {
    assert_eq!(line(0, 0, 0, 4, -2), vec![(0, 0), (1, -1), (2, -1), (3, -2), (4, -2)]);
}

#[test]
fn thin_steep_upward_line() {
    assert_eq!(line(0, 0, 0, 1, -3), vec![(0, 0), (0, -1), (1, -2), (1, -3)]);
}

#[test]
fn thin_vertical_line_either_way() {
    let up = line(0, 5, 2, 5, -1);
    assert_eq!(up, vec![(5, 2), (5, 1), (5, 0), (5, -1)]);
    let down = line(0, 5, -1, 5, 2);
    assert_eq!(down, vec![(5, -1), (5, 0), (5, 1), (5, 2)]);
    assert_eq!(sorted(up), sorted(down));
}

#[test]
fn thick_vertical_line_either_way() {
    assert_eq!(line(1, 5, 2, 5, -1), line(1, 5, -1, 5, 2));
}

#[test]
fn thin_line_single_point() {
    assert_eq!(line(0, 7, 7, 7, 7), vec![(7, 7)]);
}

#[test]
fn thin_line_length_is_long_axis_plus_one() {
    assert_eq!(line(0, 3, 9, -4, 1).len(), 9);
    assert_eq!(line(0, 0, 0, 10, 3).len(), 11);
}

#[test]
fn thickness_one_is_three_wide() {
    let pts = line(1, 0, 0, 1, 1);
    assert_eq!(pts.len(), 9 + 7);
    assert_eq!(&pts[0..3], &[(-1, -1), (-1, 0), (-1, 1)]);
    assert_eq!(&pts[9..16], &[(1, 0), (1, 1), (1, 2), (0, -1), (0, 0), (0, 1), (0, 2)]);
    assert_eq!(line(-1, 0, 0, 1, 1), pts);
}

#[test]
fn thickness_one_diagonal_has_no_gaps() {
    let pts = sorted(line(1, 0, 0, 4, 4));
    for &(x, y) in &pts {
        let joined = pts.contains(&(x + 1, y)) || pts.contains(&(x, y + 1))
            || pts.contains(&(x - 1, y)) || pts.contains(&(x, y - 1));
        assert!(joined);
    }
    for k in 0..=4 {
        assert!(pts.contains(&(k, k)));
    }
}

#[test]
fn exhausted_walks_stay_put() {
    let mut b = Bresenham::new(2, 0, 0, 3, 1);
    while b.next().is_some() {}
    let kept = b;
    assert_eq!(b.next(), None);
    assert_eq!(b, kept);
    let mut r = Rectangle::new(0, 0, 1, 1);
    while r.next().is_some() {}
    let kept = r;
    assert_eq!(r.next(), None);
    assert_eq!(r, kept);
    let mut d = Dilation::new((0, 0), 2);
    while d.next().is_some() {}
    let kept = d;
    assert_eq!(d.next(), None);
    assert_eq!(d, kept);
    let mut c = Circle::new((0, 0), 3);
    while c.next().is_some() {}
    assert_eq!(c.next(), None);
    assert_eq!(c.next(), None);
}

#[test]
fn swapped_endpoints_give_same_points() {
    assert_eq!(line(0, 1, 2, 9, 5), line(0, 9, 5, 1, 2));
    assert_eq!(line(3, 1, 2, 9, 5), line(3, 9, 5, 1, 2));
    assert_eq!(line(2, 4, 0, 4, 6), line(2, 4, 6, 4, 0));
}

#[test]
fn thick_straight_line_brushes() {
    let pts = line(2, 0, 0, 2, 0);
    assert_eq!(pts.len(), 25 + 5 + 5);
    assert_eq!(pts[0], (-2, -2));
    assert_eq!(pts[1], (-2, -1));
    assert_eq!(pts[24], (2, 2));
    assert_eq!(&pts[25..30], &[(1, -2), (1, -1), (1, 0), (1, 1), (1, 2)]);
}

#[test]
fn thick_diagonal_line_uses_elbow() {
    let pts = line(2, 0, 0, 1, 1);
    assert_eq!(pts.len(), 25 + 11);
    assert_eq!(&pts[25..30], &[(1, -1), (1, 0), (1, 1), (1, 2), (1, 3)]);
    assert_eq!(&pts[30..36], &[(0, -2), (0, -1), (0, 0), (0, 1), (0, 2), (0, 3)]);
}

#[test]
fn thick_line_has_no_gaps() {
    let pts = sorted(line(2, 0, 0, 7, 3));
    for x in 0..=7 {
        assert!(pts.iter().any(|p| p.0 == x));
    }
    for w in pts.windows(2) {
        if w[0].0 == w[1].0 {
            assert_eq!(w[1].1, w[0].1 + 1);
        }
    }
}

#[test]
fn circle_radius_five() {
    let pts = circle(0, 0, 5);
    assert_eq!(pts.len(), 32);
    assert_eq!(&pts[0..8], &[(0, 5), (5, 0), (5, 0), (0, -5), (0, -5), (-5, 0), (-5, 0), (0, 5)]);
    let set = sorted(pts);
    for p in [(5, 0), (0, 5), (-5, 0), (0, -5), (3, 4), (-4, -3)] {
        assert!(set.contains(&p));
    }
    for &(x, y) in &set {
        assert!(set.contains(&(-x, y)));
        assert!(set.contains(&(x, -y)));
        assert!(set.contains(&(y, x)));
        let m = x.abs().max(y.abs());
        assert!(25 - m <= x * x + y * y && x * x + y * y <= 25 + m);
    }
}

#[test]
fn circle_radius_zero_is_one_point() {
    assert_eq!(circle(4, -2, 0), vec![(4, -2); 8]);
}

#[test]
fn circle_negative_radius_uses_magnitude() {
    assert_eq!(circle(10, 20, -7), circle(10, 20, 7));
}

#[test]
fn circle_is_moved_to_center() {
    let shifted: Vec<(isize, isize)> = circle(0, 0, 9).iter().map(|p| (p.0 + 100, p.1 - 50)).collect();
    assert_eq!(circle(100, -50, 9), shifted);
    assert_eq!(shifted.len() % 8, 0);
}

#[test]
fn dilation_thickness_one() {
    assert_eq!(dilation(10, 10, 1), vec![(10, 10)]);
}

#[test]
fn dilation_thickness_two() {
    assert_eq!(dilation(0, 0, 2), vec![(0, -1), (-1, 0), (0, 0), (1, 0), (0, 1)]);
}

#[test]
fn dilation_thickness_zero_is_one_point() {
    assert_eq!(dilation(3, 4, 0), vec![(3, 4)]);
}

#[test]
fn dilation_is_diamond() {
    let pts = dilation(5, -5, 4);
    assert_eq!(pts.len(), 25);
    assert_eq!(sorted(pts.clone()).len(), 25);
    for &(x, y) in &pts {
        assert!((x - 5).abs() + (y + 5).abs() <= 3);
    }
}

#[test]
fn dilation_reset_starts_over() {
    let mut walk = Dilation::new((1, 1), 3);
    let first: Vec<(isize, isize)> = (0..4).map(|_| walk.next().unwrap()).collect();
    walk.reset();
    let again: Vec<(isize, isize)> = (0..4).map(|_| walk.next().unwrap()).collect();
    assert_eq!(first, again);
    assert_eq!(first[0], (1, -1));
}

#[test]
fn rectangle_clamped_corner() {
    let pts = rectangle(-5, -5, 10, 10);
    assert_eq!(pts.len(), 121);
    assert_eq!(pts[0], (0, 0));
    assert_eq!(pts[1], (1, 0));
    assert_eq!(pts[11], (0, 1));
    assert_eq!(pts[120], (10, 10));
}

#[test]
fn rectangle_clamped_size() {
    let pts = rectangle(0, 0, 1000, 1000);
    assert_eq!(pts.len(), 321 * 201);
    assert!(pts.iter().all(|p| p.0 <= 320 && p.1 <= 200));
}

#[test]
fn rectangle_degenerate() {
    assert_eq!(rectangle(400, 300, 0, 0), vec![(320, 200)]);
    assert_eq!(rectangle(3, 4, 2, 0), vec![(3, 4), (4, 4), (5, 4)]);
}

#[test]
fn fill_mode_from_thickness() {
    assert_eq!(fill_mode(0), FillMode::Fill);
    assert_eq!(fill_mode(3), FillMode::Outline(3));
}
