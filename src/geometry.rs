//! Integer geometry in app units (`Au`, one sixtieth of a CSS pixel).
use vstd::prelude::*;

verus! {

/// Smallest coordinate of a rectangle whose unions and intersections stay representable.
pub const MIN_COORD: i32 = -1073741824;

/// Largest coordinate of a rectangle whose unions and intersections stay representable.
pub const MAX_COORD: i32 = 1073741823;

/// Number of app units in one CSS pixel.
pub const AU_PER_PX: i32 = 60;

/// A point in app units.
#[derive(Clone, Copy, PartialEq, Eq, Debug, Structural)]
pub struct Point2D {
    pub x: i32,
    pub y: i32,
}

/// A size in app units.
#[derive(Clone, Copy, PartialEq, Eq, Debug, Structural)]
pub struct Size2D {
    pub width: i32,
    pub height: i32,
}

/// An axis-aligned rectangle: `origin` is its top-left corner.
#[derive(Clone, Copy, PartialEq, Eq, Debug, Structural)]
pub struct Rect {
    pub origin: Point2D,
    pub size: Size2D,
}

/// One value per side of a box.
#[derive(Clone, Copy, PartialEq, Eq, Debug, Structural)]
pub struct SideOffsets2D<T> {
    pub top: T,
    pub right: T,
    pub bottom: T,
    pub left: T,
}

pub open spec fn min_x(r: Rect) -> int {
    r.origin.x as int
}

pub open spec fn min_y(r: Rect) -> int {
    r.origin.y as int
}

pub open spec fn max_x(r: Rect) -> int {
    r.origin.x + r.size.width
}

pub open spec fn max_y(r: Rect) -> int {
    r.origin.y + r.size.height
}

pub open spec fn imin(a: int, b: int) -> int {
    if a <= b { a } else { b }
}

pub open spec fn imax(a: int, b: int) -> int {
    if a >= b { a } else { b }
}

/// The point lies in the half-open rectangle `[min_x, max_x) x [min_y, max_y)`.
pub open spec fn contains_point(r: Rect, x: int, y: int) -> bool {
    min_x(r) <= x < max_x(r) && min_y(r) <= y < max_y(r)
}

/// The two half-open rectangles share at least one point.
pub open spec fn rects_intersect(a: Rect, b: Rect) -> bool {
    min_x(a) < max_x(b) && min_x(b) < max_x(a) && min_y(a) < max_y(b) && min_y(b) < max_y(a)
}

pub open spec fn rect_of(x: int, y: int, w: int, h: int) -> Rect {
    Rect {
        origin: Point2D { x: x as i32, y: y as i32 },
        size: Size2D { width: w as i32, height: h as i32 },
    }
}

/// The common part of two intersecting rectangles.
pub open spec fn intersection_of(a: Rect, b: Rect) -> Rect {
    let x0 = imax(min_x(a), min_x(b));
    let y0 = imax(min_y(a), min_y(b));
    rect_of(x0, y0, imin(max_x(a), max_x(b)) - x0, imin(max_y(a), max_y(b)) - y0)
}

pub open spec fn zero_rect() -> Rect {
    rect_of(0, 0, 0, 0)
}

/// A rectangle whose size is zero in both directions is left out of a union.
pub open spec fn has_zero_size(r: Rect) -> bool {
    r.size.width == 0 && r.size.height == 0
}

/// The smallest rectangle covering both.
pub open spec fn union_of(a: Rect, b: Rect) -> Rect {
    if has_zero_size(a) {
        b
    } else if has_zero_size(b) {
        a
    } else {
        let x0 = imin(min_x(a), min_x(b));
        let y0 = imin(min_y(a), min_y(b));
        rect_of(x0, y0, imax(max_x(a), max_x(b)) - x0, imax(max_y(a), max_y(b)) - y0)
    }
}

pub open spec fn in_coord_range(v: int) -> bool {
    MIN_COORD <= v <= MAX_COORD
}

/// All four edges lie within `[MIN_COORD, MAX_COORD]`, so unions stay representable.
pub open spec fn bounded(r: Rect) -> bool {
    in_coord_range(min_x(r)) && in_coord_range(min_y(r)) && in_coord_range(max_x(r))
        && in_coord_range(max_y(r))
}

pub open spec fn fits_i32(v: int) -> bool {
    i32::MIN <= v <= i32::MAX
}

pub open spec fn translate_fits(r: Rect, d: Point2D) -> bool {
    fits_i32(r.origin.x + d.x) && fits_i32(r.origin.y + d.y)
}

pub open spec fn translated(r: Rect, d: Point2D) -> Rect {
    rect_of(r.origin.x + d.x, r.origin.y + d.y, r.size.width as int, r.size.height as int)
}

/// Clamps an integer into the range of `i32`, as a saturating conversion does.
pub open spec fn saturate(v: int) -> i32 {
    if v < i32::MIN {
        i32::MIN
    } else if v > i32::MAX {
        i32::MAX
    } else {
        v as i32
    }
}

/// Rounds app units to the nearest whole pixel, halves away from zero.
pub open spec fn nearest_px(au: int) -> int {
    if au >= 0 {
        (au + 30) / 60
    } else {
        -((-au + 30) / 60)
    }
}

pub fn saturating_i32(v: i64) -> (r: i32)
    ensures
        r == saturate(v as int),
{
    if v < i32::MIN as i64 {
        i32::MIN
    } else if v > i32::MAX as i64 {
        i32::MAX
    } else {
        v as i32
    }
}

impl Point2D {
    pub fn new(x: i32, y: i32) -> (r: Point2D)
        ensures
            r.x == x && r.y == y,
    {
        Point2D { x, y }
    }

    pub fn zero() -> (r: Point2D)
        ensures
            r.x == 0 && r.y == 0,
    {
        Point2D { x: 0, y: 0 }
    }
}

impl Size2D {
    pub fn new(width: i32, height: i32) -> (r: Size2D)
        ensures
            r.width == width && r.height == height,
    {
        Size2D { width, height }
    }
}

impl Rect {
    pub fn new(x: i32, y: i32, width: i32, height: i32) -> (r: Rect)
        ensures
            r == rect_of(x as int, y as int, width as int, height as int),
    {
        Rect { origin: Point2D { x, y }, size: Size2D { width, height } }
    }

    /// The rectangle at the origin with no area.
    pub fn zero() -> (r: Rect)
        ensures
            r == zero_rect(),
    {
        Rect::new(0, 0, 0, 0)
    }

    pub open spec fn max_rect_spec() -> Rect {
        rect_of(MIN_COORD as int, MIN_COORD as int, i32::MAX as int, i32::MAX as int)
    }

    /// The rectangle that stands for "everything": its edges are the coordinate limits.
    pub fn max_rect() -> (r: Rect)
        ensures
            r == Rect::max_rect_spec(),
            bounded(r),
    {
        Rect::new(MIN_COORD, MIN_COORD, i32::MAX, i32::MAX)
    }

    /// True when the rectangle has no area.
    pub fn is_empty(&self) -> (r: bool)
        ensures
            r == (self.size.width == 0 || self.size.height == 0),
    {
        self.size.width == 0 || self.size.height == 0
    }

    pub fn contains_point(&self, p: &Point2D) -> (r: bool)
        ensures
            r == contains_point(*self, p.x as int, p.y as int),
    {
        let x0 = self.origin.x as i64;
        let y0 = self.origin.y as i64;
        let px = p.x as i64;
        let py = p.y as i64;
        x0 <= px && px < x0 + self.size.width as i64 && y0 <= py && py < y0
            + self.size.height as i64
    }

    pub fn intersects(&self, other: &Rect) -> (r: bool)
        ensures
            r == rects_intersect(*self, *other),
    {
        let ax = self.origin.x as i64;
        let ay = self.origin.y as i64;
        let bx = other.origin.x as i64;
        let by = other.origin.y as i64;
        ax < bx + other.size.width as i64 && bx < ax + self.size.width as i64 && ay < by
            + other.size.height as i64 && by < ay + self.size.height as i64
    }

    /// The common part of the two rectangles, or `None` when they do not intersect.
    pub fn intersection(&self, other: &Rect) -> (r: Option<Rect>)
        ensures
            r == (if rects_intersect(*self, *other) {
                Some(intersection_of(*self, *other))
            } else {
                None::<Rect>
            }),
    {
        if !self.intersects(other) {
            return None;
        }
        let ax = self.origin.x as i64;
        let ay = self.origin.y as i64;
        let bx = other.origin.x as i64;
        let by = other.origin.y as i64;
        let amx = ax + self.size.width as i64;
        let amy = ay + self.size.height as i64;
        let bmx = bx + other.size.width as i64;
        let bmy = by + other.size.height as i64;
        let x0 = if ax >= bx { ax } else { bx };
        let y0 = if ay >= by { ay } else { by };
        let x1 = if amx <= bmx { amx } else { bmx };
        let y1 = if amy <= bmy { amy } else { bmy };
        Some(Rect::new(x0 as i32, y0 as i32, (x1 - x0) as i32, (y1 - y0) as i32))
    }

    /// The smallest rectangle covering both; a rectangle of zero size is left out.
    pub fn union(&self, other: &Rect) -> (r: Rect)
        requires
            bounded(*self),
            bounded(*other),
        ensures
            r == union_of(*self, *other),
            bounded(r),
    {
        if self.size.width == 0 && self.size.height == 0 {
            return *other;
        }
        if other.size.width == 0 && other.size.height == 0 {
            return *self;
        }
        let ax = self.origin.x as i64;
        let ay = self.origin.y as i64;
        let bx = other.origin.x as i64;
        let by = other.origin.y as i64;
        let amx = ax + self.size.width as i64;
        let amy = ay + self.size.height as i64;
        let bmx = bx + other.size.width as i64;
        let bmy = by + other.size.height as i64;
        let x0 = if ax <= bx { ax } else { bx };
        let y0 = if ay <= by { ay } else { by };
        let x1 = if amx >= bmx { amx } else { bmx };
        let y1 = if amy >= bmy { amy } else { bmy };
        Rect::new(x0 as i32, y0 as i32, (x1 - x0) as i32, (y1 - y0) as i32)
    }

    /// This rectangle moved by `delta`.
    pub fn translate(&self, delta: &Point2D) -> (r: Rect)
        requires
            translate_fits(*self, *delta),
        ensures
            r == translated(*self, *delta),
    {
        Rect::new(
            self.origin.x + delta.x,
            self.origin.y + delta.y,
            self.size.width,
            self.size.height,
        )
    }
}

/// Rounds app units to the nearest whole pixel.
pub fn to_nearest_px(au: i32) -> (r: i32)
    ensures
        r == nearest_px(au as int),
{
    let v = au as i64;
    if v >= 0 {
        ((v + 30) / 60) as i32
    } else {
        (-((-v + 30) / 60)) as i32
    }
}

} // verus!
