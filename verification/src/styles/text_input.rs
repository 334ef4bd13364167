use super::cell::CellColor;
use vstd::prelude::*;

verus! {

/// The colouring of an input field.
#[derive(Debug, Clone, Copy)]
pub struct CustomTextStyles {
    pub color: CellColor,
}

impl CustomTextStyles {
    /// The background of the field while it takes input: its colour.
    pub fn background(&self) -> (color: CellColor)
        ensures
            color == self.color,
    {
        self.color
    }

    /// The background of the field while it takes no input: its colour, but
    /// for a white field, which takes the weak background of its
    /// surroundings instead.
    pub fn disabled_background(&self) -> (color: Option<CellColor>)
        ensures
            color == if self.color == CellColor::White {
                None
            } else {
                Some(self.color)
            },
    {
        if self.color == CellColor::White {
            None
        } else {
            Some(self.color)
        }
    }
}

} // verus!
