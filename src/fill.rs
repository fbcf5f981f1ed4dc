use vstd::prelude::*;

verus! {

/// How a closed shape is drawn: filled, or as an outline of a given thickness.
#[derive(Debug, Clone, Copy, PartialEq, Eq, Structural)]
pub enum FillMode {
    Fill,
    Outline(usize),
}

/// The drawing style that a thickness selects: `0` fills, anything else
/// outlines with that thickness.
pub fn fill_mode(thickness: usize) -> (r: FillMode)
    ensures
        thickness == 0 ==> r == FillMode::Fill,
        thickness != 0 ==> r == FillMode::Outline(thickness),
{
    if thickness == 0 {
        FillMode::Fill
    } else {
        FillMode::Outline(thickness)
    }
}

} // verus!
