//! Points, rectangles and directions.
use vstd::prelude::*;

verus! {

#[derive(Clone, Copy, Debug, PartialEq, Eq, Structural)]
pub struct Point {
    pub x: i32,
    pub y: i32,
}

/// Rectangle in screen coordinates.
#[derive(Clone, Copy, Debug, PartialEq, Eq, Structural)]
pub struct Rect {
    pub left: i32,
    pub top: i32,
    pub right: i32,
    pub bottom: i32,
}

/// Half of a length, rounded toward zero.
pub open spec fn half(length: int) -> int {
    if length >= 0 {
        length / 2
    } else {
        -((-length) / 2)
    }
}

fn half_of(length: i64) -> (h: i64)
    requires
        -0x1_0000_0000 <= length <= 0x1_0000_0000,
    ensures
        h == half(length as int),
{
    if length >= 0 {
        length / 2
    } else {
        -((-length) / 2)
    }
}

/// How far a coordinate lies outside of an interval.
pub open spec fn overshoot(from: int, to: int, at: int) -> int {
    if at < from {
        from - at
    } else if at > to {
        at - to
    } else {
        0
    }
}

fn overshoot_of(from: i32, to: i32, at: i32) -> (distance: i64)
    ensures
        distance == overshoot(from as int, to as int, at as int),
        0 <= distance < 0x1_0000_0000,
{
    if at < from {
        from as i64 - at as i64
    } else if at > to {
        at as i64 - to as i64
    } else {
        0
    }
}

pub open spec fn fits_i32(n: int) -> bool {
    i32::MIN <= n <= i32::MAX
}

fn is_i32(n: i64) -> (fits: bool)
    ensures
        fits == fits_i32(n as int),
{
    i32::MIN as i64 <= n && n <= i32::MAX as i64
}

impl Rect {
    /// Creates a rectangle from its top left corner and size.
    pub fn from_xy(x: i32, y: i32, width: i32, height: i32) -> (rect: Rect)
        requires
            fits_i32(x + width),
            fits_i32(y + height),
        ensures
            rect == (Rect {
                left: x,
                top: y,
                right: (x + width) as i32,
                bottom: (y + height) as i32,
            }),
    {
        Rect { left: x, top: y, right: x + width, bottom: y + height }
    }

    pub open spec fn spec_width(self) -> int {
        self.right - self.left
    }

    pub open spec fn spec_height(self) -> int {
        self.bottom - self.top
    }

    pub fn width(&self) -> (width: i64)
        ensures
            width == self.spec_width(),
    {
        self.right as i64 - self.left as i64
    }

    pub fn height(&self) -> (height: i64)
        ensures
            height == self.spec_height(),
    {
        self.bottom as i64 - self.top as i64
    }

    pub open spec fn spec_center(self) -> (int, int) {
        (self.left + half(self.spec_width()), self.top + half(self.spec_height()))
    }

    pub fn center_point(&self) -> (center: Point)
        ensures
            center.x == self.spec_center().0,
            center.y == self.spec_center().1,
    {
        let x = self.left as i64 + half_of(self.width());
        let y = self.top as i64 + half_of(self.height());
        Point { x: x as i32, y: y as i32 }
    }

    pub open spec fn spec_contains(self, point: Point) -> bool {
        self.left <= point.x <= self.right && self.top <= point.y <= self.bottom
    }

    /// Whether the point lies within the rectangle, its edges included.
    pub fn contains_point(&self, point: &Point) -> (contains: bool)
        ensures
            contains == self.spec_contains(*point),
    {
        self.left <= point.x && point.x <= self.right && self.top <= point.y && point.y
            <= self.bottom
    }

    /// Square of the distance between the rectangle and a point, 0 within the rectangle.
    pub open spec fn spec_distance(self, point: Point) -> int {
        let dx = overshoot(self.left as int, self.right as int, point.x as int);
        let dy = overshoot(self.top as int, self.bottom as int, point.y as int);
        dx * dx + dy * dy
    }

    /// Square of the distance between the rectangle and a point, by which rectangles are
    /// ordered from near to far.
    pub fn distance_to_point(&self, point: &Point) -> (distance: u128)
        ensures
            distance == self.spec_distance(*point),
    {
        let dx = overshoot_of(self.left, self.right, point.x) as u128;
        let dy = overshoot_of(self.top, self.bottom, point.y) as u128;
        assert(0 <= dx * dx <= 0x1_0000_0000 * 0x1_0000_0000) by (nonlinear_arith)
            requires
                0 <= dx < 0x1_0000_0000,
        ;
        assert(0 <= dy * dy <= 0x1_0000_0000 * 0x1_0000_0000) by (nonlinear_arith)
            requires
                0 <= dy < 0x1_0000_0000,
        ;
        dx * dx + dy * dy
    }

    /// Top left corner that centers the rectangle within another.
    pub open spec fn centered_corner(self, outer: Rect) -> (int, int) {
        (
            outer.spec_center().0 - half(self.spec_width()),
            outer.spec_center().1 - half(self.spec_height()),
        )
    }

    /// Whether the rectangle stays within the coordinate range when centered within another.
    pub open spec fn can_center(self, outer: Rect) -> bool {
        let (x, y) = self.centered_corner(outer);
        fits_i32(x) && fits_i32(y) && fits_i32(x + self.spec_width()) && fits_i32(
            y + self.spec_height(),
        )
    }

    /// The rectangle, centered within another.
    pub open spec fn centered(self, outer: Rect) -> Rect {
        let (x, y) = self.centered_corner(outer);
        Rect {
            left: x as i32,
            top: y as i32,
            right: (x + self.spec_width()) as i32,
            bottom: (y + self.spec_height()) as i32,
        }
    }

    /// Whether the rectangle can be moved to the center of another.
    pub fn fits_centered(&self, outer: &Rect) -> (fits: bool)
        ensures
            fits == self.can_center(*outer),
    {
        let center = outer.center_point();
        let x: i64 = center.x as i64 - half_of(self.width());
        let y: i64 = center.y as i64 - half_of(self.height());
        is_i32(x) && is_i32(y) && is_i32(x + self.width()) && is_i32(y + self.height())
    }

    /// Moves the rectangle to the center of another, keeping its size.
    pub fn translate_to_center(&self, outer: &Rect) -> (rect: Rect)
        requires
            self.can_center(*outer),
        ensures
            rect == self.centered(*outer),
    {
        let center = outer.center_point();
        let width = self.width();
        let height = self.height();
        let x = center.x as i64 - half_of(width);
        let y = center.y as i64 - half_of(height);
        Rect {
            left: x as i32,
            top: y as i32,
            right: (x + width) as i32,
            bottom: (y + height) as i32,
        }
    }
}

/// A centered rectangle keeps its size, and centering it again changes nothing.
pub proof fn law_centering_keeps_size(rect: Rect, outer: Rect)
    requires
        rect.can_center(outer),
    ensures
        rect.centered(outer).spec_width() == rect.spec_width(),
        rect.centered(outer).spec_height() == rect.spec_height(),
        rect.centered(outer).can_center(outer),
        rect.centered(outer).centered(outer) == rect.centered(outer),
{
}

/// Direction in which a container places its children.
#[derive(Clone, Copy, Debug, PartialEq, Eq, Structural)]
pub enum TilingDirection {
    Horizontal,
    Vertical,
}

impl TilingDirection {
    pub open spec fn spec_inverse(self) -> TilingDirection {
        match self {
            TilingDirection::Horizontal => TilingDirection::Vertical,
            TilingDirection::Vertical => TilingDirection::Horizontal,
        }
    }

    /// The other direction.
    pub fn inverse(&self) -> (inverse: TilingDirection)
        ensures
            inverse == self.spec_inverse(),
    {
        match self {
            TilingDirection::Horizontal => TilingDirection::Vertical,
            TilingDirection::Vertical => TilingDirection::Horizontal,
        }
    }
}

} // verus!
