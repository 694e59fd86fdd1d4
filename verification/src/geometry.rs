//! Points and boxes of the layout plane.
//!
//! Every coordinate is a fixed-point number: an integer count of
//! sixty-fourths of a layout unit. The x axis grows to the right. Which way
//! the y axis grows is up to the caller, except inside a buffer, where the
//! origin is the top-left corner and y grows downward.

use vstd::prelude::*;

verus! {

/// Fixed-point steps in one layout unit.
pub const UNIT: i32 = 64;

/// A point, or a width and a height.
#[derive(Clone, Copy, Debug, PartialEq, Eq, Structural)]
pub struct Vec2 {
    /// Horizontal part.
    pub x: i32,
    /// Vertical part.
    pub y: i32,
}

impl Vec2 {
    /// Square of the Euclidean distance between two points.
    pub open spec fn distance_squared(self, other: Vec2) -> int {
        (self.x - other.x) * (self.x - other.x) + (self.y - other.y) * (self.y - other.y)
    }

    /// Whether `other` is at most `reach` away, by Euclidean distance.
    pub fn within(&self, other: Vec2, reach: u16) -> (near: bool)
        ensures
            near == (self.distance_squared(other) <= reach * reach),
    {
        let dx: i64 = self.x as i64 - other.x as i64;
        let dy: i64 = self.y as i64 - other.y as i64;
        let r: i64 = reach as i64;
        if dx > r || dx < -r || dy > r || dy < -r {
            proof {
                lemma_square_grows(dx as int, r as int);
                lemma_square_grows(dy as int, r as int);
            }
            false
        } else {
            proof {
                lemma_square_bounded(dx as int, r as int);
                lemma_square_bounded(dy as int, r as int);
                lemma_square_bounded(r as int, r as int);
            }
            dx * dx + dy * dy <= r * r
        }
    }
}

proof fn lemma_square_grows(d: int, r: int)
    by (nonlinear_arith)
    requires
        0 <= r,
    ensures
        d * d >= 0,
        (d > r || d < -r) ==> d * d > r * r,
{
}

proof fn lemma_square_bounded(d: int, r: int)
    by (nonlinear_arith)
    requires
        -r <= d <= r,
        r <= 0xffff,
    ensures
        0 <= d * d <= 0xffff * 0xffff,
{
}

/// Half of a length, as boxes use it: the odd sixty-fourth is dropped.
pub open spec fn half(length: int) -> int {
    length / 2
}

/// Whether the box of the given size around `center` holds `point`.
///
/// All four edges belong to the box: a point exactly on an edge is inside,
/// the next point outward is outside. A box of negative width or height
/// holds nothing.
pub open spec fn box_holds(center: Vec2, size: Vec2, point: Vec2) -> bool {
    &&& size.x >= 0
    &&& size.y >= 0
    &&& center.x - half(size.x as int) <= point.x <= center.x + half(size.x as int)
    &&& center.y - half(size.y as int) <= point.y <= center.y + half(size.y as int)
}

/// The edges of a box belong to it, and the box ends there: of the points
/// level with the box, those on its left and right edge are inside, and
/// those one step further out are outside. The same holds from top to
/// bottom.
pub proof fn lemma_edges_belong(center: Vec2, size: Vec2, point: Vec2)
    requires
        size.x >= 0,
        size.y >= 0,
    ensures
        center.y - half(size.y as int) <= point.y <= center.y + half(size.y as int) ==> {
            &&& point.x == center.x - half(size.x as int) ==> box_holds(center, size, point)
            &&& point.x == center.x + half(size.x as int) ==> box_holds(center, size, point)
            &&& point.x == center.x - half(size.x as int) - 1 ==> !box_holds(center, size, point)
            &&& point.x == center.x + half(size.x as int) + 1 ==> !box_holds(center, size, point)
        },
        center.x - half(size.x as int) <= point.x <= center.x + half(size.x as int) ==> {
            &&& point.y == center.y - half(size.y as int) ==> box_holds(center, size, point)
            &&& point.y == center.y + half(size.y as int) ==> box_holds(center, size, point)
            &&& point.y == center.y - half(size.y as int) - 1 ==> !box_holds(center, size, point)
            &&& point.y == center.y + half(size.y as int) + 1 ==> !box_holds(center, size, point)
        },
{
}

/// `point` as seen from the corner of the box with the smallest
/// coordinates.
pub open spec fn box_local(center: Vec2, size: Vec2, point: Vec2) -> (int, int) {
    (
        point.x - (center.x - half(size.x as int)),
        point.y - (center.y - half(size.y as int)),
    )
}

/// Tests whether a box holds a point and, if so, where the point lies in
/// the box.
pub fn locate_in_box(center: Vec2, size: Vec2, point: Vec2) -> (local: Option<Vec2>)
    ensures
        local is Some <==> box_holds(center, size, point),
        local matches Some(p) ==> (p.x as int, p.y as int) == box_local(center, size, point),
{
    if size.x < 0 || size.y < 0 {
        return None;
    }
    let hx: i64 = (size.x / 2) as i64;
    let hy: i64 = (size.y / 2) as i64;
    let dx: i64 = point.x as i64 - (center.x as i64 - hx);
    let dy: i64 = point.y as i64 - (center.y as i64 - hy);
    if dx < 0 || dx > 2 * hx || dy < 0 || dy > 2 * hy {
        None
    } else {
        Some(Vec2 { x: dx as i32, y: dy as i32 })
    }
}

/// The whole layout units in a coordinate: the fraction is cut off, toward
/// zero.
pub open spec fn whole_units(v: int) -> int {
    if v >= 0 {
        v / (UNIT as int)
    } else {
        -((-v) / (UNIT as int))
    }
}

/// Cuts a coordinate down to whole layout units.
pub fn to_whole_units(v: i32) -> (w: i32)
    ensures
        w == whole_units(v as int),
{
    v / UNIT
}

} // verus!
