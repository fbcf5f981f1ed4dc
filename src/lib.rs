//! Integer rasterization of lines, circles, diamonds and rectangles for a
//! low-resolution indexed-color framebuffer.
//!
//! Every shape is a walk: a small state machine whose `next` hands out one
//! point at a time until the shape is exhausted. Each walk describes what is
//! still to come as a sequence of points (`points`), and `next` is specified
//! as taking the head of that sequence. The modules also state, as proof
//! functions, what holds of the whole shapes: a thin line is the Bresenham
//! path, a line does not depend on the order of its endpoints, thick lines
//! have no gaps, circles are symmetric and close to the true circle, a
//! dilation is a diamond, and a rectangle has the expected size.

pub mod canvas;
pub mod circle;
pub mod dilation;
pub mod fill;
pub mod joints;
pub mod line;
pub mod rectangle;

pub use canvas::{Screen, HEIGHT, WIDTH};
pub use circle::Circle;
pub use dilation::Dilation;
pub use fill::{fill_mode, FillMode};
pub use line::Bresenham;
pub use rectangle::Rectangle;
