//! Quarter-turn rotation of coordinates within a parent's bounding box.
use vstd::prelude::*;

use crate::geometry::{Point, Rectangle, Size};

verus! {

/// A clockwise rotation by a multiple of a quarter turn.
#[derive(Clone, Copy, Debug, PartialEq, Eq, Structural)]
pub enum RotateAngle {
    Degrees90,
    Degrees180,
    Degrees270,
}

/// Where `(x, y)` of the rotated view lands in a parent whose bounding box
/// is `pdim`.
pub open spec fn rotate(angle: RotateAngle, x: int, y: int, pdim: Rectangle) -> (int, int) {
    let l = pdim.top_left.x as int;
    let t = pdim.top_left.y as int;
    let w = pdim.size.width as int;
    let h = pdim.size.height as int;
    match angle {
        RotateAngle::Degrees90 => (l + w - y, t + x),
        RotateAngle::Degrees180 => (l + h - x, t + w - y),
        RotateAngle::Degrees270 => (l + y, t + h - x),
    }
}

pub open spec fn fits_i32(v: int) -> bool {
    i32::MIN <= v <= i32::MAX
}

/// Whether rotating `(x, y)` in `pdim` stays within `i32`.
pub open spec fn rotate_fits(angle: RotateAngle, x: int, y: int, pdim: Rectangle) -> bool {
    &&& pdim.size.width <= i32::MAX
    &&& pdim.size.height <= i32::MAX
    &&& fits_i32(pdim.top_left.x + pdim.size.width)
    &&& fits_i32(pdim.top_left.x + pdim.size.height)
    &&& fits_i32(pdim.top_left.y + pdim.size.width)
    &&& fits_i32(pdim.top_left.y + pdim.size.height)
    &&& fits_i32(rotate(angle, x, y, pdim).0)
    &&& fits_i32(rotate(angle, x, y, pdim).1)
}

pub open spec fn abs(v: int) -> int {
    if v < 0 {
        -v
    } else {
        v
    }
}

impl RotateAngle {
    /// The point of the parent that `point` of the rotated view maps to.
    pub fn transform(&self, point: Point, pdim: &Rectangle) -> (r: Point)
        requires
            rotate_fits(*self, point.x as int, point.y as int, *pdim),
        ensures
            r.x == rotate(*self, point.x as int, point.y as int, *pdim).0,
            r.y == rotate(*self, point.x as int, point.y as int, *pdim).1,
    {
        let w = pdim.size.width as i32;
        let h = pdim.size.height as i32;
        match self {
            RotateAngle::Degrees90 => Point::new(pdim.top_left.x + w - point.y, pdim.top_left.y + point.x),
            RotateAngle::Degrees180 => Point::new(pdim.top_left.x + h - point.x, pdim.top_left.y + w - point.y),
            RotateAngle::Degrees270 => Point::new(pdim.top_left.x + point.y, pdim.top_left.y + h - point.x),
        }
    }

    /// `transform`, or `None` where a coordinate of the result or of the
    /// parent's far edges would not fit an `i32`.
    pub fn checked_transform(&self, point: Point, pdim: &Rectangle) -> (r: Option<Point>)
        ensures
            r is Some <==> rotate_fits(*self, point.x as int, point.y as int, *pdim),
            r matches Some(p) ==> p.x == rotate(*self, point.x as int, point.y as int, *pdim).0
                && p.y == rotate(*self, point.x as int, point.y as int, *pdim).1,
    {
        let l = pdim.top_left.x as i64;
        let t = pdim.top_left.y as i64;
        let w = pdim.size.width as i64;
        let h = pdim.size.height as i64;
        let x = point.x as i64;
        let y = point.y as i64;
        let lo = i32::MIN as i64;
        let hi = i32::MAX as i64;
        if w > hi || h > hi || l + w > hi || l + h > hi || t + w > hi || t + h > hi {
            return None;
        }
        let (rx, ry) = match self {
            RotateAngle::Degrees90 => (l + w - y, t + x),
            RotateAngle::Degrees180 => (l + h - x, t + w - y),
            RotateAngle::Degrees270 => (l + y, t + h - x),
        };
        if rx < lo || rx > hi || ry < lo || ry > hi {
            return None;
        }
        Some(self.transform(point, pdim))
    }

    /// The size of the rotated view of a parent of size `size`: a quarter
    /// turn swaps width and height.
    pub fn transform_size(&self, size: Size) -> (r: Size)
        ensures
            *self == RotateAngle::Degrees180 ==> r == size,
            *self != RotateAngle::Degrees180 ==> r.width == size.height && r.height == size.width,
    {
        if *self != RotateAngle::Degrees180 {
            Size::new(size.height, size.width)
        } else {
            size
        }
    }

    /// The parent rectangle that spans the images of the corners
    /// `rect.top_left` and `rect.top_left + rect.size`.
    pub fn transform_rect(&self, rect: &Rectangle, pdim: &Rectangle) -> (r: Rectangle)
        requires
            rect.size.width <= i32::MAX,
            rect.size.height <= i32::MAX,
            fits_i32(rect.top_left.x + rect.size.width),
            fits_i32(rect.top_left.y + rect.size.height),
            rotate_fits(*self, rect.top_left.x as int, rect.top_left.y as int, *pdim),
            rotate_fits(
                *self,
                rect.top_left.x + rect.size.width,
                rect.top_left.y + rect.size.height,
                *pdim,
            ),
            ({
                let c1 = rotate(*self, rect.top_left.x as int, rect.top_left.y as int, *pdim);
                let c2 = rotate(
                    *self,
                    rect.top_left.x + rect.size.width,
                    rect.top_left.y + rect.size.height,
                    *pdim,
                );
                abs(c1.0 - c2.0) + 1 <= u32::MAX && abs(c1.1 - c2.1) + 1 <= u32::MAX
            }),
        ensures
            ({
                let c1 = rotate(*self, rect.top_left.x as int, rect.top_left.y as int, *pdim);
                let c2 = rotate(
                    *self,
                    rect.top_left.x + rect.size.width,
                    rect.top_left.y + rect.size.height,
                    *pdim,
                );
                &&& r.top_left.x == if c1.0 <= c2.0 { c1.0 } else { c2.0 }
                &&& r.top_left.y == if c1.1 <= c2.1 { c1.1 } else { c2.1 }
                &&& r.size.width == abs(c1.0 - c2.0) + 1
                &&& r.size.height == abs(c1.1 - c2.1) + 1
            }),
    {
        let point1 = self.transform(rect.top_left, pdim);
        let corner = Point::new(
            rect.top_left.x + rect.size.width as i32,
            rect.top_left.y + rect.size.height as i32,
        );
        let point2 = self.transform(corner, pdim);
        let x1 = if point1.x <= point2.x { point1.x } else { point2.x };
        let y1 = if point1.y <= point2.y { point1.y } else { point2.y };
        let x2 = if point1.x <= point2.x { point2.x } else { point1.x };
        let y2 = if point1.y <= point2.y { point2.y } else { point1.y };
        let width = (x2 as i64 - x1 as i64) as u32 + 1;
        let height = (y2 as i64 - y1 as i64) as u32 + 1;
        Rectangle::new(Point::new(x1, y1), Size::new(width, height))
    }
}

impl RotateAngle {
    /// `transform_rect`, or `None` where a corner, its image or the span
    /// between the images would not fit.
    pub fn checked_transform_rect(&self, rect: &Rectangle, pdim: &Rectangle) -> (r: Option<
        Rectangle,
    >)
        ensures
            r is Some <==> ({
                let c1 = rotate(*self, rect.top_left.x as int, rect.top_left.y as int, *pdim);
                let c2 = rotate(
                    *self,
                    rect.top_left.x + rect.size.width,
                    rect.top_left.y + rect.size.height,
                    *pdim,
                );
                &&& rect.size.width <= i32::MAX
                &&& rect.size.height <= i32::MAX
                &&& fits_i32(rect.top_left.x + rect.size.width)
                &&& fits_i32(rect.top_left.y + rect.size.height)
                &&& rotate_fits(*self, rect.top_left.x as int, rect.top_left.y as int, *pdim)
                &&& rotate_fits(
                    *self,
                    rect.top_left.x + rect.size.width,
                    rect.top_left.y + rect.size.height,
                    *pdim,
                )
                &&& abs(c1.0 - c2.0) + 1 <= u32::MAX
                &&& abs(c1.1 - c2.1) + 1 <= u32::MAX
            }),
            r matches Some(q) ==> ({
                let c1 = rotate(*self, rect.top_left.x as int, rect.top_left.y as int, *pdim);
                let c2 = rotate(
                    *self,
                    rect.top_left.x + rect.size.width,
                    rect.top_left.y + rect.size.height,
                    *pdim,
                );
                &&& q.top_left.x == if c1.0 <= c2.0 { c1.0 } else { c2.0 }
                &&& q.top_left.y == if c1.1 <= c2.1 { c1.1 } else { c2.1 }
                &&& q.size.width == abs(c1.0 - c2.0) + 1
                &&& q.size.height == abs(c1.1 - c2.1) + 1
            }),
    {
        let hi = i32::MAX as i64;
        let xe = rect.top_left.x as i64 + rect.size.width as i64;
        let ye = rect.top_left.y as i64 + rect.size.height as i64;
        if rect.size.width as i64 > hi || rect.size.height as i64 > hi || xe > hi || ye > hi {
            return None;
        }
        let point1 = match self.checked_transform(rect.top_left, pdim) {
            Some(p) => p,
            None => return None,
        };
        let point2 = match self.checked_transform(Point::new(xe as i32, ye as i32), pdim) {
            Some(p) => p,
            None => return None,
        };
        let dx = point1.x as i64 - point2.x as i64;
        let dy = point1.y as i64 - point2.y as i64;
        let ax = if dx < 0 { -dx } else { dx };
        let ay = if dy < 0 { -dy } else { dy };
        if ax + 1 > u32::MAX as i64 || ay + 1 > u32::MAX as i64 {
            return None;
        }
        Some(self.transform_rect(rect, pdim))
    }
}

} // verus!
