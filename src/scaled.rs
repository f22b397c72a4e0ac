//! Scaling of coordinates from a view of one size onto a parent's bounding
//! box.
use vstd::prelude::*;

use crate::geometry::{Point, Rectangle, Size};

verus! {

/// Integer division rounding toward zero, for a positive divisor.
pub open spec fn div_toward_zero(a: int, b: int) -> int {
    if a >= 0 {
        a / b
    } else {
        -((-a) / b)
    }
}

/// Where `v` of a view `size` long lands on a parent axis that starts at
/// `origin` and is `parent` long: `origin + v * size / parent`, rounded
/// toward zero.
pub open spec fn scale_axis(origin: int, v: int, size: int, parent: int) -> int {
    origin + div_toward_zero(v * size, parent)
}

/// Whether `scale_axis` and its intermediate product stay within `i32`.
pub open spec fn scale_fits(origin: int, v: int, size: int, parent: int) -> bool {
    &&& size <= i32::MAX
    &&& parent <= i32::MAX
    &&& i32::MIN <= v * size <= i32::MAX
    &&& i32::MIN <= scale_axis(origin, v, size, parent) <= i32::MAX
}

fn scale_axis_exec(origin: i32, v: i32, size: u32, parent: u32) -> (r: Option<i32>)
    requires
        parent > 0,
    ensures
        r is Some <==> scale_fits(origin as int, v as int, size as int, parent as int),
        r matches Some(x) ==> x == scale_axis(origin as int, v as int, size as int, parent as int),
{
    let hi = i32::MAX as i64;
    let lo = i32::MIN as i64;
    if size as i64 > hi || parent as i64 > hi {
        return None;
    }
    assert(-0x8000_0000 * 0x7fff_ffff <= v * size <= 0x7fff_ffff * 0x7fff_ffff) by (nonlinear_arith)
        requires
            -0x8000_0000 <= v <= 0x7fff_ffff,
            0 <= size <= 0x7fff_ffff,
    ;
    let m = v as i64 * size as i64;
    if m < lo || m > hi {
        return None;
    }
    let q = if m >= 0 {
        m / (parent as i64)
    } else {
        -((-m) / (parent as i64))
    };
    proof {
        let a = if m >= 0 { m as int } else { -m as int };
        assert(0 <= a / (parent as int) <= a) by (nonlinear_arith)
            requires
                a >= 0,
                parent >= 1,
        ;
    }
    let r = origin as i64 + q;
    if r < lo || r > hi {
        return None;
    }
    Some(r as i32)
}

/// The parent point that `point` of a `size` view maps to, scaled onto
/// `pdim`; `None` where `pdim` is empty or a coordinate would not fit an
/// `i32`.
pub fn transform(point: Point, size: Size, pdim: &Rectangle) -> (r: Option<Point>)
    ensures
        r is Some <==> (pdim.size.width > 0 && pdim.size.height > 0 && scale_fits(
            pdim.top_left.x as int,
            point.x as int,
            size.width as int,
            pdim.size.width as int,
        ) && scale_fits(
            pdim.top_left.y as int,
            point.y as int,
            size.height as int,
            pdim.size.height as int,
        )),
        r matches Some(p) ==> p.x == scale_axis(
            pdim.top_left.x as int,
            point.x as int,
            size.width as int,
            pdim.size.width as int,
        ) && p.y == scale_axis(
            pdim.top_left.y as int,
            point.y as int,
            size.height as int,
            pdim.size.height as int,
        ),
{
    if pdim.size.width == 0 || pdim.size.height == 0 {
        return None;
    }
    let x = match scale_axis_exec(pdim.top_left.x, point.x, size.width, pdim.size.width) {
        Some(x) => x,
        None => return None,
    };
    let y = match scale_axis_exec(pdim.top_left.y, point.y, size.height, pdim.size.height) {
        Some(y) => y,
        None => return None,
    };
    Some(Point::new(x, y))
}

} // verus!
