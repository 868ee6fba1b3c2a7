//! Points, rectangles and the geometry of a selected window.

use vstd::prelude::*;

verus! {

/// A cursor position, relative to the window that holds the pointer grab.
#[derive(Clone, Copy, Debug, PartialEq, Eq, Structural)]
pub struct Point {
    pub x: i16,
    pub y: i16,
}

/// A position and a size. The position may be negative, the size never is.
#[derive(Clone, Copy, Debug, PartialEq, Eq, Structural)]
pub struct Rectangle {
    pub x: i16,
    pub y: i16,
    pub width: u16,
    pub height: u16,
}

/// The area that a run ends with, and the window it belongs to.
#[derive(Clone, Copy, Debug, PartialEq, Eq, Structural)]
pub struct HacksawResult {
    pub window: u32,
    pub rect: Rectangle,
}

/// Orders two coordinates: the smaller one comes first.
pub fn min_max(a: i16, b: i16) -> (r: (i16, i16))
    ensures
        r.0 <= r.1,
        r == (a, b) || r == (b, a),
{
    if a < b {
        (a, b)
    } else {
        (b, a)
    }
}

impl HacksawResult {
    /// Whether the point lies in the area. The test is deliberately lopsided:
    /// a point on the left or top edge is outside, a point on the right or
    /// bottom edge is inside.
    pub open spec fn covers(self, point: Point) -> bool {
        &&& self.rect.x < point.x
        &&& self.rect.y < point.y
        &&& point.x - self.rect.x <= self.rect.width
        &&& point.y - self.rect.y <= self.rect.height
    }

    /// Whether the area can be moved by the position of `parent` without
    /// leaving the range of coordinates.
    pub open spec fn fits_within(self, parent: HacksawResult) -> bool {
        &&& i16::MIN <= parent.rect.x + self.rect.x <= i16::MAX
        &&& i16::MIN <= parent.rect.y + self.rect.y <= i16::MAX
    }

    /// The area moved by the position of `parent`; window and size stay.
    pub open spec fn offset_by(self, parent: HacksawResult) -> HacksawResult
        recommends
            self.fits_within(parent),
    {
        HacksawResult {
            window: self.window,
            rect: Rectangle {
                x: (parent.rect.x + self.rect.x) as i16,
                y: (parent.rect.y + self.rect.y) as i16,
                width: self.rect.width,
                height: self.rect.height,
            },
        }
    }

    pub fn x(&self) -> (x: i16)
        ensures
            x == self.rect.x,
    {
        self.rect.x
    }

    pub fn y(&self) -> (y: i16)
        ensures
            y == self.rect.y,
    {
        self.rect.y
    }

    pub fn width(&self) -> (width: u16)
        ensures
            width == self.rect.width,
    {
        self.rect.width
    }

    pub fn height(&self) -> (height: u16)
        ensures
            height == self.rect.height,
    {
        self.rect.height
    }

    /// Tells whether `relative_to` may be called with this parent.
    pub fn can_be_relative_to(&self, parent: HacksawResult) -> (ok: bool)
        ensures
            ok == self.fits_within(parent),
    {
        let x: i32 = parent.rect.x as i32 + self.rect.x as i32;
        let y: i32 = parent.rect.y as i32 + self.rect.y as i32;
        -32768 <= x && x <= 32767 && -32768 <= y && y <= 32767
    }

    /// Reads this area's position as an offset from the position of
    /// `parent`, and gives the area at its place in the parent's space.
    pub fn relative_to(&self, parent: HacksawResult) -> (r: HacksawResult)
        requires
            self.fits_within(parent),
        ensures
            r == self.offset_by(parent),
    {
        HacksawResult {
            window: self.window,
            rect: Rectangle {
                x: parent.x() + self.x(),
                y: parent.y() + self.y(),
                width: self.width(),
                height: self.height(),
            },
        }
    }

    /// Whether the point lies in the area, by the lopsided test of `covers`.
    pub fn contains(&self, point: Point) -> (inside: bool)
        ensures
            inside == self.covers(point),
    {
        self.x() < point.x && self.y() < point.y
            && point.x as i32 - self.x() as i32 <= self.width() as i32
            && point.y as i32 - self.y() as i32 <= self.height() as i32
    }
}

} // verus!
