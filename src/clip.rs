//! Clipping regions: a main rectangle intersected with rounded rectangles.
use vstd::prelude::*;
use crate::geometry::{
    Point2D, Rect, bounded, contains_point, has_zero_size, intersection_of, rects_intersect,
    translate_fits, translated, union_of, zero_rect, max_x, max_y, min_x, min_y,
};

verus! {

/// The radius of each corner of a box.
#[derive(Clone, Copy, PartialEq, Eq, Debug, Structural, Default)]
pub struct BorderRadii<T> {
    pub top_left: T,
    pub top_right: T,
    pub bottom_right: T,
    pub bottom_left: T,
}

impl<T: Copy> BorderRadii<T> {
    /// A set of radii that all have the given value.
    pub fn all_same(value: T) -> (r: BorderRadii<T>)
        ensures
            r.top_left == value,
            r.top_right == value,
            r.bottom_right == value,
            r.bottom_left == value,
    {
        BorderRadii { top_left: value, top_right: value, bottom_right: value, bottom_left: value }
    }
}

impl BorderRadii<i32> {
    /// True when every radius is zero.
    pub fn is_square(&self) -> (r: bool)
        ensures
            r == (self.top_left == 0 && self.top_right == 0 && self.bottom_right == 0
                && self.bottom_left == 0),
    {
        self.top_left == 0 && self.top_right == 0 && self.bottom_right == 0 && self.bottom_left
            == 0
    }
}

/// A rounded rectangle that a clipping region is intersected with.
#[derive(Clone, Copy, PartialEq, Eq, Debug, Structural)]
pub struct ComplexClippingRegion {
    /// The boundaries of the rectangle.
    pub rect: Rect,
    /// The radii of its corners.
    pub radii: BorderRadii<i32>,
}

/// The area visible through a clip: `main` intersected with every region of `complex`.
#[derive(Clone, Debug)]
pub struct ClippingRegion {
    /// The main rectangular region.
    pub main: Rect,
    /// Rounded rectangles, in the order they were added.
    pub complex: Vec<ComplexClippingRegion>,
}

/// Two regions are equal when their main rectangles and their complex lists are.
pub open spec fn same_region(a: ClippingRegion, b: ClippingRegion) -> bool {
    a.main == b.main && a.complex@ == b.complex@
}

/// The point lies outside the quarter disc of radius `r` centred at `(cx, cy)` only if it lies
/// in the corner square on the side given by `sx`, `sy` (each `1` or `-1`).
pub open spec fn within_corner(x: int, y: int, cx: int, cy: int, r: int, sx: int, sy: int) -> bool {
    let dx = x - cx;
    let dy = y - cy;
    (sx * dx > 0 && sy * dy > 0) ==> dx * dx + dy * dy <= r * r
}

/// The point lies inside the rounded rectangle: inside its rectangle and not cut off by a corner.
pub open spec fn in_rounded_rect(c: ComplexClippingRegion, x: int, y: int) -> bool {
    let r = c.rect;
    &&& contains_point(r, x, y)
    &&& within_corner(x, y, min_x(r) + c.radii.top_left, min_y(r) + c.radii.top_left,
        c.radii.top_left as int, -1, -1)
    &&& within_corner(x, y, max_x(r) - c.radii.top_right, min_y(r) + c.radii.top_right,
        c.radii.top_right as int, 1, -1)
    &&& within_corner(x, y, max_x(r) - c.radii.bottom_right, max_y(r) - c.radii.bottom_right,
        c.radii.bottom_right as int, 1, 1)
    &&& within_corner(x, y, min_x(r) + c.radii.bottom_left, max_y(r) - c.radii.bottom_left,
        c.radii.bottom_left as int, -1, 1)
}

/// The point lies in the exact clipped area, rounded corners included.
pub open spec fn region_contains(reg: ClippingRegion, x: int, y: int) -> bool {
    contains_point(reg.main, x, y) && forall|i: int|
        0 <= i < reg.complex@.len() ==> #[trigger] in_rounded_rect(reg.complex@[i], x, y)
}

/// The bounding-box test: the point lies in `main` and in the rectangle of every complex region.
pub open spec fn might_contain(reg: ClippingRegion, x: int, y: int) -> bool {
    contains_point(reg.main, x, y) && forall|i: int|
        0 <= i < reg.complex@.len() ==> #[trigger] contains_point(reg.complex@[i].rect, x, y)
}

/// The bounding-box test against a rectangle.
pub open spec fn might_meet_rect(reg: ClippingRegion, r: Rect) -> bool {
    rects_intersect(reg.main, r) && forall|i: int|
        0 <= i < reg.complex@.len() ==> #[trigger] rects_intersect(reg.complex@[i].rect, r)
}

/// The union of `main` and the rectangles of the first `n` complex regions.
pub open spec fn bounding_prefix(main: Rect, cs: Seq<ComplexClippingRegion>, n: int) -> Rect
    decreases n,
{
    if n <= 0 {
        main
    } else {
        union_of(bounding_prefix(main, cs, n - 1), cs[n - 1].rect)
    }
}

pub open spec fn bounding_of(reg: ClippingRegion) -> Rect {
    bounding_prefix(reg.main, reg.complex@, reg.complex@.len() as int)
}

/// Every rectangle of the region lies within the coordinate limits.
pub open spec fn region_bounded(reg: ClippingRegion) -> bool {
    bounded(reg.main) && forall|i: int|
        0 <= i < reg.complex@.len() ==> #[trigger] bounded(reg.complex@[i].rect)
}

pub open spec fn region_translate_fits(reg: ClippingRegion, d: Point2D) -> bool {
    translate_fits(reg.main, d) && forall|i: int|
        0 <= i < reg.complex@.len() ==> #[trigger] translate_fits(reg.complex@[i].rect, d)
}

pub open spec fn translated_complex(c: ComplexClippingRegion, d: Point2D) -> ComplexClippingRegion {
    ComplexClippingRegion { rect: translated(c.rect, d), radii: c.radii }
}

impl PartialEq for ClippingRegion {
    fn eq(&self, other: &ClippingRegion) -> (r: bool) {
        if self.main != other.main || self.complex.len() != other.complex.len() {
            return false;
        }
        let mut i: usize = 0;
        while i < self.complex.len()
            invariant
                self.complex@.len() == other.complex@.len(),
                i <= self.complex@.len(),
                forall|j: int| 0 <= j < i ==> self.complex@[j] == other.complex@[j],
            decreases self.complex.len() - i,
        {
            if self.complex[i] != other.complex[i] {
                return false;
            }
            i = i + 1;
        }
        assert(self.complex@ =~= other.complex@);
        true
    }
}

impl vstd::std_specs::cmp::PartialEqSpecImpl for ClippingRegion {
    open spec fn obeys_eq_spec() -> bool {
        true
    }

    open spec fn eq_spec(&self, other: &ClippingRegion) -> bool {
        same_region(*self, *other)
    }
}

impl ClippingRegion {
    /// A region through which nothing is visible.
    pub fn empty() -> (r: ClippingRegion)
        ensures
            r.main == zero_rect(),
            r.complex@.len() == 0,
    {
        ClippingRegion { main: Rect::zero(), complex: Vec::new() }
    }

    /// A region that clips nothing out.
    pub fn max() -> (r: ClippingRegion)
        ensures
            r.main == Rect::max_rect_spec(),
            r.complex@.len() == 0,
            region_bounded(r),
    {
        ClippingRegion { main: Rect::max_rect(), complex: Vec::new() }
    }

    /// A region made of the given rectangle alone.
    pub fn from_rect(rect: &Rect) -> (r: ClippingRegion)
        ensures
            r.main == *rect,
            r.complex@.len() == 0,
    {
        ClippingRegion { main: *rect, complex: Vec::new() }
    }

    /// This region narrowed to `rect`; `main` becomes the zero rectangle when the two are
    /// disjoint.
    pub fn intersect_rect(self, rect: &Rect) -> (r: ClippingRegion)
        ensures
            r.main == (if rects_intersect(self.main, *rect) {
                intersection_of(self.main, *rect)
            } else {
                zero_rect()
            }),
            r.complex@ == self.complex@,
    {
        let main = match self.main.intersection(rect) {
            Some(m) => m,
            None => Rect::zero(),
        };
        ClippingRegion { main, complex: self.complex }
    }

    /// False only when the region is certainly empty.
    pub fn might_be_nonempty(&self) -> (r: bool)
        ensures
            r == !(self.main.size.width == 0 || self.main.size.height == 0),
    {
        !self.main.is_empty()
    }

    /// A quick test: false only when the point is certainly outside the region.
    pub fn might_intersect_point(&self, point: &Point2D) -> (r: bool)
        ensures
            r == might_contain(*self, point.x as int, point.y as int),
    {
        if !self.main.contains_point(point) {
            return false;
        }
        let mut i: usize = 0;
        while i < self.complex.len()
            invariant
                i <= self.complex@.len(),
                forall|j: int|
                    0 <= j < i ==> #[trigger] contains_point(
                        self.complex@[j].rect,
                        point.x as int,
                        point.y as int,
                    ),
            decreases self.complex.len() - i,
        {
            if !self.complex[i].rect.contains_point(point) {
                return false;
            }
            i = i + 1;
        }
        true
    }

    /// A quick test: false only when the rectangle certainly misses the region.
    pub fn might_intersect_rect(&self, rect: &Rect) -> (r: bool)
        ensures
            r == might_meet_rect(*self, *rect),
    {
        if !self.main.intersects(rect) {
            return false;
        }
        let mut i: usize = 0;
        while i < self.complex.len()
            invariant
                i <= self.complex@.len(),
                forall|j: int| 0 <= j < i ==> #[trigger] rects_intersect(self.complex@[j].rect, *rect),
            decreases self.complex.len() - i,
        {
            if !self.complex[i].rect.intersects(rect) {
                return false;
            }
            i = i + 1;
        }
        true
    }

    /// A rectangle surrounding the whole region: the union of `main` and every complex
    /// region's rectangle.
    pub fn bounding_rect(&self) -> (r: Rect)
        requires
            region_bounded(*self),
        ensures
            r == bounding_of(*self),
            bounded(r),
    {
        let mut rect = self.main;
        let mut i: usize = 0;
        while i < self.complex.len()
            invariant
                region_bounded(*self),
                i <= self.complex@.len(),
                rect == bounding_prefix(self.main, self.complex@, i as int),
                bounded(rect),
            decreases self.complex.len() - i,
        {
            assert(bounded(self.complex@[i as int].rect));
            rect = rect.union(&self.complex[i].rect);
            i = i + 1;
        }
        rect
    }

    /// This region intersected with a rounded rectangle.
    pub fn intersect_with_rounded_rect(self, rect: &Rect, radii: &BorderRadii<i32>) -> (r:
        ClippingRegion)
        ensures
            r.main == self.main,
            r.complex@ == self.complex@.push(ComplexClippingRegion { rect: *rect, radii: *radii }),
    {
        let mut region = self;
        region.complex.push(ComplexClippingRegion { rect: *rect, radii: *radii });
        region
    }

    /// This region moved by `delta`.
    pub fn translate(&self, delta: &Point2D) -> (r: ClippingRegion)
        requires
            region_translate_fits(*self, *delta),
        ensures
            r.main == translated(self.main, *delta),
            r.complex@ == self.complex@.map_values(|c| translated_complex(c, *delta)),
    {
        let mut complex: Vec<ComplexClippingRegion> = Vec::new();
        let mut i: usize = 0;
        while i < self.complex.len()
            invariant
                region_translate_fits(*self, *delta),
                i <= self.complex@.len(),
                complex@ =~= self.complex@.subrange(0, i as int).map_values(
                    |c| translated_complex(c, *delta),
                ),
            decreases self.complex.len() - i,
        {
            let c = self.complex[i];
            assert(translate_fits(self.complex@[i as int].rect, *delta));
            complex.push(ComplexClippingRegion { rect: c.rect.translate(delta), radii: c.radii });
            assert(self.complex@.subrange(0, i + 1) =~= self.complex@.subrange(0, i as int).push(c));
            i = i + 1;
        }
        assert(self.complex@.subrange(0, i as int) =~= self.complex@);
        ClippingRegion { main: self.main.translate(delta), complex }
    }
}

/// The quick point test has no false negatives: a point inside the exact region, rounded
/// corners included, is always reported as possibly inside.
pub proof fn lemma_might_intersect_point_is_conservative(reg: ClippingRegion, x: int, y: int)
    requires
        region_contains(reg, x, y),
    ensures
        might_contain(reg, x, y),
{
    assert forall|i: int| 0 <= i < reg.complex@.len() implies #[trigger] contains_point(
        reg.complex@[i].rect,
        x,
        y,
    ) by {
        assert(in_rounded_rect(reg.complex@[i], x, y));
    }
}

/// An empty region intersected with two rounded rectangles whose rectangles are disjoint has
/// the union of the two rectangles as its bounding rectangle, and no point outside both
/// rectangles might lie in it.
pub proof fn lemma_two_disjoint_complex_regions(
    reg: ClippingRegion,
    a: ComplexClippingRegion,
    b: ComplexClippingRegion,
)
    requires
        reg.main == zero_rect(),
        reg.complex@ == seq![a, b],
        !rects_intersect(a.rect, b.rect),
    ensures
        bounding_of(reg) == union_of(a.rect, b.rect),
        forall|x: int, y: int|
            !contains_point(a.rect, x, y) && !contains_point(b.rect, x, y) ==> !#[trigger] might_contain(
                reg,
                x,
                y,
            ),
{
    assert(has_zero_size(reg.main));
    assert(bounding_prefix(reg.main, reg.complex@, 0) == reg.main);
    assert(bounding_prefix(reg.main, reg.complex@, 1) == a.rect);
    assert(bounding_prefix(reg.main, reg.complex@, 2) == union_of(a.rect, b.rect));
    assert forall|x: int, y: int|
        !contains_point(a.rect, x, y) && !contains_point(b.rect, x, y) implies !#[trigger] might_contain(
        reg,
        x,
        y,
    ) by {
        assert(reg.complex@[0] == a);
    }
}

} // verus!
