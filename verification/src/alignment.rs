//! Pane alignment of the status graphic: where content sits inside the
//! space left over along each axis.

use vstd::prelude::*;

verus! {

#[derive(Clone, Copy, PartialEq, Eq, Structural, Debug)]
pub enum HorizontalAlignment {
    Left,
    Center,
    Right,
}

impl HorizontalAlignment {
    /// The offset into `value` spare pixels: none for left, half for
    /// center (rounded toward zero, also for negative spare space), all
    /// for right.
    pub open spec fn spec_align(self, value: i32) -> int {
        match self {
            HorizontalAlignment::Left => 0,
            HorizontalAlignment::Center => if value >= 0 {
                value as int / 2
            } else {
                0 - ((0 - value as int) / 2)
            },
            HorizontalAlignment::Right => value as int,
        }
    }

    pub fn align(&self, value: i32) -> (r: i32)
        ensures
            r == self.spec_align(value),
    {
        match self {
            HorizontalAlignment::Left => 0,
            HorizontalAlignment::Center => {
                if value >= 0 {
                    value / 2
                } else if value == i32::MIN {
                    -0x4000_0000
                } else {
                    -((-value) / 2)
                }
            },
            HorizontalAlignment::Right => value,
        }
    }
}

#[derive(Clone, Copy, PartialEq, Eq, Structural, Debug)]
pub enum VerticalAlignment {
    Top,
    Middle,
    Bottom,
}

impl VerticalAlignment {
    /// The offset into `value` spare pixels: none for top, half for middle
    /// (rounded toward zero, also for negative spare space), all for
    /// bottom.
    pub open spec fn spec_align(self, value: i32) -> int {
        match self {
            VerticalAlignment::Top => 0,
            VerticalAlignment::Middle => if value >= 0 {
                value as int / 2
            } else {
                0 - ((0 - value as int) / 2)
            },
            VerticalAlignment::Bottom => value as int,
        }
    }

    pub fn align(&self, value: i32) -> (r: i32)
        ensures
            r == self.spec_align(value),
    {
        match self {
            VerticalAlignment::Top => 0,
            VerticalAlignment::Middle => {
                if value >= 0 {
                    value / 2
                } else if value == i32::MIN {
                    -0x4000_0000
                } else {
                    -((-value) / 2)
                }
            },
            VerticalAlignment::Bottom => value,
        }
    }
}

#[derive(Clone, Copy, PartialEq, Eq, Structural, Debug)]
pub struct Alignment {
    pub horizontal: HorizontalAlignment,
    pub vertical: VerticalAlignment,
}

impl Alignment {
    pub fn new(horizontal: HorizontalAlignment, vertical: VerticalAlignment) -> (r: Self)
        ensures
            r == (Alignment { horizontal, vertical }),
    {
        Alignment { horizontal, vertical }
    }

    /// Content centered on both axes.
    pub fn center() -> (r: Self)
        ensures
            r == (Alignment {
                horizontal: HorizontalAlignment::Center,
                vertical: VerticalAlignment::Middle,
            }),
    {
        Alignment::new(HorizontalAlignment::Center, VerticalAlignment::Middle)
    }

    /// Content on the left edge, vertically centered.
    pub fn left() -> (r: Self)
        ensures
            r == (Alignment {
                horizontal: HorizontalAlignment::Left,
                vertical: VerticalAlignment::Middle,
            }),
    {
        Alignment::new(HorizontalAlignment::Left, VerticalAlignment::Middle)
    }
}

} // verus!
