use vstd::prelude::*;

verus! {

/// An integer pixel rectangle; `(x, y)` is its top-left corner.
#[derive(Clone, Copy, Debug, PartialEq, Eq, Structural)]
pub struct Rect {
    pub x: i32,
    pub y: i32,
    pub width: i32,
    pub height: i32,
}

/// Top-left coordinate of a region on the page.
pub type Origin = (i32, i32);

/// Which pair of opposite corners defined an expanded region.
#[derive(Clone, Copy, Debug, PartialEq, Eq, Structural)]
pub enum DiagonalOrientation {
    TopLeftBottomRight,
    TopRightBottomLeft,
}

/// A region grown to the extent of its speech bubble.
#[derive(Clone, Copy, Debug, PartialEq, Eq, Structural)]
pub struct ExpandedRegion {
    pub rect: Rect,
    pub diagonal: DiagonalOrientation,
}

impl Rect {
    /// Non-empty and fully inside a `w` by `h` image.
    pub open spec fn inside(self, w: int, h: int) -> bool {
        &&& 0 <= self.x
        &&& 0 <= self.y
        &&& 0 < self.width
        &&& 0 < self.height
        &&& self.x + self.width <= w
        &&& self.y + self.height <= h
    }

    pub open spec fn area(self) -> int {
        self.width * self.height
    }
}

} // verus!
