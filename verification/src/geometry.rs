//! Logical points and rectangles.

use crate::binary::Binary32;
use vstd::prelude::*;

verus! {

/// A logical point. `==` is identity of the bit patterns.
#[derive(Clone, Copy, Debug, PartialEq, Eq, Structural)]
pub struct Point {
    /// Distance from the left.
    pub x: Binary32,
    /// Distance from the top.
    pub y: Binary32,
}

impl Point {
    /// The point at two coordinates.
    pub open spec fn spec_new(x: Binary32, y: Binary32) -> Point {
        Point { x, y }
    }

    /// The point at two coordinates.
    #[verifier::when_used_as_spec(spec_new)]
    pub fn new(x: Binary32, y: Binary32) -> (point: Point)
        ensures
            point == Point::spec_new(x, y),
    {
        Point { x, y }
    }
}

/// A logical rectangle. `==` is identity of the bit patterns.
#[derive(Clone, Copy, Debug, PartialEq, Eq, Structural)]
pub struct Rect {
    /// The upper left corner.
    pub min: Point,
    /// The lower right corner.
    pub max: Point,
}

impl Rect {
    /// The rectangle with an upper left corner and a size.
    pub open spec fn spec_from_xy_size(
        x: Binary32,
        y: Binary32,
        width: Binary32,
        height: Binary32,
    ) -> Rect {
        Rect { min: Point { x, y }, max: Point { x: x.add(width), y: y.add(height) } }
    }

    /// The rectangle with an upper left corner and a size.
    #[verifier::when_used_as_spec(spec_from_xy_size)]
    pub fn from_xy_size(x: Binary32, y: Binary32, width: Binary32, height: Binary32) -> (rect: Rect)
        ensures
            rect == Rect::spec_from_xy_size(x, y, width, height),
    {
        Rect { min: Point { x, y }, max: Point { x: x.add(width), y: y.add(height) } }
    }

    /// The distance between the sides.
    pub open spec fn spec_width(self) -> Binary32 {
        self.max.x.sub(self.min.x)
    }

    /// The distance between the sides.
    #[verifier::when_used_as_spec(spec_width)]
    pub fn width(self) -> (width: Binary32)
        ensures
            width == self.spec_width(),
    {
        self.max.x.sub(self.min.x)
    }

    /// The distance between top and bottom.
    pub open spec fn spec_height(self) -> Binary32 {
        self.max.y.sub(self.min.y)
    }

    /// The distance between top and bottom.
    #[verifier::when_used_as_spec(spec_height)]
    pub fn height(self) -> (height: Binary32)
        ensures
            height == self.spec_height(),
    {
        self.max.y.sub(self.min.y)
    }

    /// The rectangle with every side moved inward.
    pub open spec fn spec_inset(self, distance: Binary32) -> Rect {
        Rect {
            min: Point { x: self.min.x.add(distance), y: self.min.y.add(distance) },
            max: Point { x: self.max.x.sub(distance), y: self.max.y.sub(distance) },
        }
    }

    /// The rectangle with every side moved inward.
    #[verifier::when_used_as_spec(spec_inset)]
    pub fn inset(self, distance: Binary32) -> (rect: Rect)
        ensures
            rect == self.spec_inset(distance),
    {
        Rect {
            min: Point { x: self.min.x.add(distance), y: self.min.y.add(distance) },
            max: Point { x: self.max.x.sub(distance), y: self.max.y.sub(distance) },
        }
    }
}

} // verus!
