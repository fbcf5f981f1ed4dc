use vstd::prelude::*;

use crate::circle::{circle_fits, circle_points, Circle};
use crate::dilation::{dilation_fits, dilation_points, Dilation};
use crate::line::{line_fits, line_points, Bresenham};
use crate::rectangle::{rectangle_points, Rectangle};

verus! {

/// Width of the canvas in pixels.
pub const WIDTH: usize = 320;

/// Height of the canvas in pixels.
pub const HEIGHT: usize = 200;

/// Number of pixels of the canvas.
pub const SIZE: usize = 64000;

/// Whether `(x, y)` is a pixel of the canvas.
pub open spec fn on_canvas(x: int, y: int) -> bool {
    0 <= x < WIDTH && 0 <= y < HEIGHT
}

/// `buf` with pixel `p` set to `color`, or unchanged where `p` is off the canvas.
pub open spec fn put(buf: Seq<u8>, p: (int, int), color: u8) -> Seq<u8> {
    if on_canvas(p.0, p.1) {
        buf.update(p.1 * WIDTH + p.0, color)
    } else {
        buf
    }
}

/// `buf` with every point of `pts`, in order, set to `color`.
pub open spec fn paint(buf: Seq<u8>, pts: Seq<(int, int)>, color: u8) -> Seq<u8>
    decreases pts.len(),
{
    if pts.len() == 0 {
        buf
    } else {
        paint(put(buf, pts[0], color), pts.drop_first(), color)
    }
}

/// The swatch of palette entry `color` in a debug grid of cells of `size`.
pub open spec fn swatch(color: int, size: int) -> Seq<(int, int)> {
    rectangle_points((color % 16) * size, (color / 16) * size, size, size)
}

/// `buf` with the swatches of the palette entries below `n` painted, in order.
pub open spec fn palette_grid(buf: Seq<u8>, size: int, n: int) -> Seq<u8>
    decreases n,
{
    if n <= 0 {
        buf
    } else {
        paint(palette_grid(buf, size, n - 1), swatch(n - 1, size), (n - 1) as u8)
    }
}

/// A framebuffer of `WIDTH x HEIGHT` palette indices, row by row. Writes and
/// reads off the canvas are ignored.
pub struct Screen {
    buffer: Vec<u8>,
}

impl View for Screen {
    type V = Seq<u8>;

    closed spec fn view(&self) -> Seq<u8> {
        self.buffer@
    }
}

impl Screen {
    /// The buffer holds one index per pixel of the canvas.
    pub open spec fn wf(&self) -> bool {
        self@.len() == SIZE
    }

    /// A screen with every pixel set to `color`.
    pub fn new(color: u8) -> (r: Self)
        ensures
            r.wf(),
            r@ == Seq::new(SIZE as nat, |i: int| color),
    {
        let mut buffer: Vec<u8> = Vec::new();
        while buffer.len() < SIZE
            invariant
                buffer.len() <= SIZE,
                forall|i: int| 0 <= i < buffer.len() ==> buffer@[i] == color,
            decreases SIZE - buffer.len(),
        {
            buffer.push(color);
        }
        let r = Screen { buffer };
        assert(r@ =~= Seq::new(SIZE as nat, |i: int| color));
        r
    }

    /// Sets every pixel to `color`.
    pub fn clear(&mut self, color: u8)
        requires
            old(self).wf(),
        ensures
            final(self).wf(),
            final(self)@ == Seq::new(SIZE as nat, |i: int| color),
    {
        let mut i: usize = 0;
        while i < SIZE
            invariant
                self.buffer@.len() == SIZE,
                i <= SIZE,
                forall|j: int| 0 <= j < i ==> self.buffer@[j] == color,
            decreases SIZE - i,
        {
            self.buffer.set(i, color);
            i = i + 1;
        }
        assert(self@ =~= Seq::new(SIZE as nat, |i: int| color));
    }

    /// Sets pixel `(x, y)` to `color`; does nothing off the canvas.
    pub fn pixel(&mut self, x: usize, y: usize, color: u8)
        requires
            old(self).wf(),
        ensures
            final(self).wf(),
            final(self)@ == put(old(self)@, (x as int, y as int), color),
    {
        if x >= WIDTH || y >= HEIGHT {
            return;
        }
        self.buffer.set(y * WIDTH + x, color);
    }

    /// The palette index of pixel `(x, y)`, or `0` off the canvas.
    pub fn get_pixel(&self, x: usize, y: usize) -> (r: u8)
        requires
            self.wf(),
        ensures
            on_canvas(x as int, y as int) ==> r == self@[y * WIDTH + x],
            !on_canvas(x as int, y as int) ==> r == 0,
    {
        if x >= WIDTH || y >= HEIGHT {
            return 0;
        }
        self.buffer[y * WIDTH + x]
    }

    /// Sets the signed pixel `(x, y)`; does nothing off the canvas.
    fn point(&mut self, p: (isize, isize), color: u8)
        requires
            old(self).wf(),
        ensures
            final(self).wf(),
            final(self)@ == put(old(self)@, (p.0 as int, p.1 as int), color),
    {
        if p.0 >= 0 && p.1 >= 0 {
            self.pixel(p.0 as usize, p.1 as usize, color);
        }
    }

    /// Draws the line of the given thickness between two points.
    pub fn line(&mut self, color: u8, thickness: isize, x1: isize, y1: isize, x2: isize, y2: isize)
        requires
            old(self).wf(),
            line_fits(thickness, x1, y1, x2, y2),
        ensures
            final(self).wf(),
            final(self)@ == paint(
                old(self)@,
                line_points(thickness as int, x1 as int, y1 as int, x2 as int, y2 as int),
                color,
            ),
    {
        let mut walk = Bresenham::new(thickness, x1, y1, x2, y2);
        loop
            invariant
                self.wf(),
                walk.wf(),
                paint(self@, walk.points(), color) == paint(
                    old(self)@,
                    line_points(thickness as int, x1 as int, y1 as int, x2 as int, y2 as int),
                    color,
                ),
            ensures
                self.wf(),
                walk.points().len() == 0,
                paint(self@, walk.points(), color) == paint(
                    old(self)@,
                    line_points(thickness as int, x1 as int, y1 as int, x2 as int, y2 as int),
                    color,
                ),
            decreases walk.points().len(),
        {
            let ghost before = walk.points();
            match walk.next() {
                Some(p) => {
                    proof {
                        assert(before.drop_first() == walk.points());
                    }
                    self.point(p, color);
                },
                None => {
                    break ;
                },
            }
        }
    }

    /// Fills the rectangle with corner `(x1, y1)` and size `width x height`,
    /// clamped to the canvas.
    pub fn rect(&mut self, color: u8, x1: isize, y1: isize, width: usize, height: usize)
        requires
            old(self).wf(),
        ensures
            final(self).wf(),
            final(self)@ == paint(
                old(self)@,
                rectangle_points(x1 as int, y1 as int, width as int, height as int),
                color,
            ),
    {
        let mut walk = Rectangle::new(x1, y1, width, height);
        loop
            invariant
                self.wf(),
                walk.wf(),
                paint(self@, walk.points(), color) == paint(
                    old(self)@,
                    rectangle_points(x1 as int, y1 as int, width as int, height as int),
                    color,
                ),
            ensures
                self.wf(),
                walk.points().len() == 0,
                paint(self@, walk.points(), color) == paint(
                    old(self)@,
                    rectangle_points(x1 as int, y1 as int, width as int, height as int),
                    color,
                ),
            decreases walk.points().len(),
        {
            let ghost before = walk.points();
            match walk.next() {
                Some(p) => {
                    proof {
                        assert(before.drop_first() == walk.points());
                    }
                    self.pixel(p.0, p.1, color);
                },
                None => {
                    break ;
                },
            }
        }
    }

    /// Draws a thick dot: the diamond of the given thickness around `(x, y)`.
    pub fn dilation(&mut self, color: u8, x: usize, y: usize, thickness: usize)
        requires
            old(self).wf(),
            x <= isize::MAX,
            y <= isize::MAX,
            dilation_fits((x as isize, y as isize), thickness),
        ensures
            final(self).wf(),
            final(self)@ == paint(
                old(self)@,
                dilation_points((x as int, y as int), thickness as int),
                color,
            ),
    {
        let mut walk = Dilation::new((x as isize, y as isize), thickness);
        loop
            invariant
                self.wf(),
                walk.wf(),
                paint(self@, walk.points(), color) == paint(
                    old(self)@,
                    dilation_points((x as int, y as int), thickness as int),
                    color,
                ),
            ensures
                self.wf(),
                walk.points().len() == 0,
                paint(self@, walk.points(), color) == paint(
                    old(self)@,
                    dilation_points((x as int, y as int), thickness as int),
                    color,
                ),
            decreases walk.points().len(),
        {
            let ghost before = walk.points();
            match walk.next() {
                Some(p) => {
                    proof {
                        assert(before.drop_first() == walk.points());
                    }
                    self.point(p, color);
                },
                None => {
                    break ;
                },
            }
        }
    }

    /// Draws the outline of the circle of the given center and radius.
    pub fn circle(&mut self, color: u8, center_x: isize, center_y: isize, radius: isize)
        requires
            old(self).wf(),
            circle_fits((center_x, center_y), radius),
        ensures
            final(self).wf(),
            final(self)@ == paint(
                old(self)@,
                circle_points((center_x as int, center_y as int), radius as int),
                color,
            ),
    {
        let mut walk = Circle::new((center_x, center_y), radius);
        loop
            invariant
                self.wf(),
                walk.wf(),
                paint(self@, walk.points(), color) == paint(
                    old(self)@,
                    circle_points((center_x as int, center_y as int), radius as int),
                    color,
                ),
            ensures
                self.wf(),
                walk.points().len() == 0,
                paint(self@, walk.points(), color) == paint(
                    old(self)@,
                    circle_points((center_x as int, center_y as int), radius as int),
                    color,
                ),
            decreases walk.points().len(),
        {
            let ghost before = walk.points();
            match walk.next() {
                Some(p) => {
                    proof {
                        assert(before.drop_first() == walk.points());
                    }
                    self.point(p, color);
                },
                None => {
                    break ;
                },
            }
        }
    }

    /// Draws the whole palette as a 16 x 16 grid of square swatches of side
    /// `size + 1`, entry `c` at column `c % 16` and row `c / 16`.
    pub fn debug(&mut self, size: usize)
        requires
            old(self).wf(),
            size <= isize::MAX / 16,
        ensures
            final(self).wf(),
            final(self)@ == palette_grid(old(self)@, size as int, 256),
    {
        let mut color: usize = 0;
        while color < 256
            invariant
                self.wf(),
                color <= 256,
                size <= isize::MAX / 16,
                self@ == palette_grid(old(self)@, size as int, color as int),
            decreases 256 - color,
        {
            let column = color % 16;
            let row = color / 16;
            proof {
                assert(column * size <= 15 * size) by (nonlinear_arith)
                    requires
                        column <= 15,
                {
                }
                assert(row * size <= 15 * size) by (nonlinear_arith)
                    requires
                        row <= 15,
                {
                }
            }
            let x = column * size;
            let y = row * size;
            self.rect(color as u8, x as isize, y as isize, size, size);
            color = color + 1;
        }
    }
}

} // verus!
