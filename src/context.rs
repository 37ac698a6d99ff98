//! Stacking contexts: the nodes of the compositing tree.
use vstd::prelude::*;
use std::sync::Arc;
use crate::geometry::{Point2D, Rect, saturate};
use crate::list::DisplayList;

verus! {

/// The fixed-point scale of the linear part of a transform: `65536` stands for `1.0`.
pub const TRANSFORM_ONE: i32 = 65536;

/// A 2-D affine transform. A point `(x, y)` maps to
/// `(x * m11 + y * m21 + m31, x * m12 + y * m22 + m32)`, where the linear coefficients are
/// fixed-point numbers scaled by `TRANSFORM_ONE` and the translation is in app units.
#[derive(Clone, Copy, PartialEq, Eq, Debug, Structural)]
pub struct Transform2D {
    pub m11: i32,
    pub m12: i32,
    pub m21: i32,
    pub m22: i32,
    pub m31: i32,
    pub m32: i32,
}

/// Integer division rounding toward zero.
pub open spec fn trunc_div(v: int, d: int) -> int {
    if v >= 0 {
        v / d
    } else {
        -((-v) / d)
    }
}

/// The transformed point, each coordinate rounded toward zero and saturated to `i32`.
pub open spec fn apply_transform(t: Transform2D, x: int, y: int) -> Point2D {
    Point2D {
        x: saturate(trunc_div(t.m11 * x + t.m21 * y, TRANSFORM_ONE as int) + t.m31),
        y: saturate(trunc_div(t.m12 * x + t.m22 * y, TRANSFORM_ONE as int) + t.m32),
    }
}

impl Transform2D {
    /// The transform that leaves every point in place.
    pub fn identity() -> (r: Transform2D)
        ensures
            r == (Transform2D { m11: TRANSFORM_ONE, m12: 0, m21: 0, m22: TRANSFORM_ONE, m31: 0, m32: 0 }),
    {
        Transform2D { m11: TRANSFORM_ONE, m12: 0, m21: 0, m22: TRANSFORM_ONE, m31: 0, m32: 0 }
    }

    /// Applies the transform to `(x, y)`.
    pub fn transform_point(&self, x: i64, y: i64) -> (r: Point2D)
        ensures
            r == apply_transform(*self, x as int, y as int),
    {
        let rx = fixed_combination(self.m11, self.m21, x, y, self.m31);
        let ry = fixed_combination(self.m12, self.m22, x, y, self.m32);
        Point2D { x: rx, y: ry }
    }
}

fn fixed_combination(a: i32, b: i32, x: i64, y: i64, c: i32) -> (r: i32)
    ensures
        r == saturate(trunc_div(a * x + b * y, TRANSFORM_ONE as int) + c),
{
    let a128 = a as i128;
    let b128 = b as i128;
    let x128 = x as i128;
    let y128 = y as i128;
    assert(-0x4000_0000_0000_0000_0000_0000 <= a * x <= 0x4000_0000_0000_0000_0000_0000)
        by (nonlinear_arith)
        requires
            i32::MIN <= a <= i32::MAX,
            i64::MIN <= x <= i64::MAX,
    ;
    assert(-0x4000_0000_0000_0000_0000_0000 <= b * y <= 0x4000_0000_0000_0000_0000_0000)
        by (nonlinear_arith)
        requires
            i32::MIN <= b <= i32::MAX,
            i64::MIN <= y <= i64::MAX,
    ;
    let v: i128 = a128 * x128 + b128 * y128;
    let q: i128 = if v >= 0 {
        v / (TRANSFORM_ONE as i128)
    } else {
        -((-v) / (TRANSFORM_ONE as i128))
    };
    let s: i128 = q + c as i128;
    if s < i32::MIN as i128 {
        i32::MIN
    } else if s > i32::MAX as i128 {
        i32::MAX
    } else {
        s as i32
    }
}

/// The CSS filter functions, amounts in thousandths (angles in thousandths of a degree, blur
/// in app units).
#[derive(Clone, Copy, PartialEq, Eq, Debug, Structural)]
pub enum Filter {
    Blur(i32),
    Brightness(i32),
    Contrast(i32),
    Grayscale(i32),
    HueRotate(i32),
    Invert(i32),
    Opacity(i32),
    Saturate(i32),
    Sepia(i32),
}

/// The filter leaves every pixel as it is: no blur, and full brightness, contrast, opacity
/// and saturation with no grayscale, hue rotation, inversion or sepia.
pub open spec fn filter_is_identity(f: Filter) -> bool {
    match f {
        Filter::Blur(v) => v == 0,
        Filter::Brightness(v) => v == 1000,
        Filter::Contrast(v) => v == 1000,
        Filter::Grayscale(v) => v == 0,
        Filter::HueRotate(v) => v == 0,
        Filter::Invert(v) => v == 0,
        Filter::Opacity(v) => v == 1000,
        Filter::Saturate(v) => v == 1000,
        Filter::Sepia(v) => v == 0,
    }
}

impl Filter {
    /// True when the filter changes nothing.
    pub fn is_identity(&self) -> (r: bool)
        ensures
            r == filter_is_identity(*self),
    {
        match *self {
            Filter::Blur(v) => v == 0,
            Filter::Brightness(v) => v == 1000,
            Filter::Contrast(v) => v == 1000,
            Filter::Grayscale(v) => v == 0,
            Filter::HueRotate(v) => v == 0,
            Filter::Invert(v) => v == 0,
            Filter::Opacity(v) => v == 1000,
            Filter::Saturate(v) => v == 1000,
            Filter::Sepia(v) => v == 0,
        }
    }
}

/// Some filter of the list changes the pixels.
pub open spec fn has_effective_filter(filters: Seq<Filter>) -> bool {
    exists|i: int| 0 <= i < filters.len() && !#[trigger] filter_is_identity(filters[i])
}

/// Whether some filter of the list changes the pixels.
pub fn any_effective_filter(filters: &Vec<Filter>) -> (r: bool)
    ensures
        r == has_effective_filter(filters@),
{
    let mut i: usize = 0;
    while i < filters.len()
        invariant
            i <= filters@.len(),
            forall|j: int| 0 <= j < i ==> filter_is_identity(#[trigger] filters@[j]),
        decreases filters.len() - i,
    {
        if !filters[i].is_identity() {
            return true;
        }
        i = i + 1;
    }
    false
}

/// The `mix-blend-mode` property.
#[derive(Clone, Copy, PartialEq, Eq, Debug, Structural)]
pub enum BlendMode {
    Normal,
    Multiply,
    Screen,
    Overlay,
    Darken,
    Lighten,
    ColorDodge,
    ColorBurn,
    HardLight,
    SoftLight,
    Difference,
    Exclusion,
    Hue,
    Saturation,
    Color,
    Luminosity,
}

/// The identifier of a hardware layer.
#[derive(Clone, Copy, PartialEq, Eq, Debug, Structural)]
pub struct LayerId(pub usize, pub u32);

/// One CSS stacking context, which may own a hardware layer.
pub struct StackingContext {
    /// The display items that make up this stacking context.
    pub display_list: Box<DisplayList>,
    /// The hardware layer of this stacking context, if it has one.
    pub layer: Option<LayerId>,
    /// The position and size of this stacking context.
    pub bounds: Rect,
    /// The overflow rectangle, in this stacking context's own coordinates.
    pub overflow: Rect,
    /// The `z-index`.
    pub z_index: i32,
    /// Filters applied to the whole context, opacity included.
    pub filters: Vec<Filter>,
    /// How the context blends with its backdrop.
    pub blend_mode: BlendMode,
    /// The transform applied to the context.
    pub transform: Transform2D,
}

impl StackingContext {
    /// A stacking context made of the given parts.
    pub fn new(
        display_list: Box<DisplayList>,
        bounds: &Rect,
        overflow: &Rect,
        z_index: i32,
        transform: &Transform2D,
        filters: Vec<Filter>,
        blend_mode: BlendMode,
        layer: Option<LayerId>,
    ) -> (r: StackingContext)
        ensures
            r.display_list == display_list,
            r.bounds == *bounds,
            r.overflow == *overflow,
            r.z_index == z_index,
            r.transform == *transform,
            r.filters == filters,
            r.blend_mode == blend_mode,
            r.layer == layer,
    {
        StackingContext {
            display_list,
            layer,
            bounds: *bounds,
            overflow: *overflow,
            z_index,
            filters,
            blend_mode,
            transform: *transform,
        }
    }
}

/// The context that a shared pointer points to.
pub open spec fn inner(a: Arc<StackingContext>) -> StackingContext {
    *a
}

/// The first context, in pre-order (a context before its children, children in order), that
/// owns the layer `id`.
pub open spec fn find_layer(sc: StackingContext, id: LayerId) -> Option<StackingContext>
    decreases sc,
{
    if sc.layer == Some(id) {
        Some(sc)
    } else {
        find_layer_in(sc.display_list.children@, sc.display_list.children@.len() as int, id)
    }
}

/// The first match among the subtrees of `kids[0..n)`.
pub open spec fn find_layer_in(kids: Seq<Arc<StackingContext>>, n: int, id: LayerId) -> Option<
    StackingContext,
>
    decreases kids, n,
{
    if n <= 0 || n > kids.len() {
        None
    } else {
        match find_layer_in(kids, n - 1, id) {
            Some(found) => Some(found),
            None => find_layer(*kids[n - 1], id),
        }
    }
}

proof fn lemma_find_layer_in_extends(kids: Seq<Arc<StackingContext>>, n: int, m: int, id: LayerId)
    requires
        0 < n <= m <= kids.len(),
        find_layer_in(kids, n, id).is_some(),
    ensures
        find_layer_in(kids, m, id) == find_layer_in(kids, n, id),
    decreases m - n,
{
    if m > n {
        lemma_find_layer_in_extends(kids, n, m - 1, id);
    }
}

/// The stacking context of the tree under `this` that owns the layer `layer_id`, searching a
/// context before its children; `None` when no context owns it.
pub fn find_stacking_context_with_layer_id(this: &Arc<StackingContext>, layer_id: LayerId) -> (r:
    Option<Arc<StackingContext>>)
    ensures
        match r {
            Some(found) => find_layer(**this, layer_id) == Some(*found),
            None => find_layer(**this, layer_id).is_none(),
        },
    decreases **this,
{
    if this.layer == Some(layer_id) {
        return Some(this.clone());
    }
    let kids = &this.display_list.children;
    let mut i: usize = 0;
    while i < kids.len()
        invariant
            kids@ == this.display_list.children@,
            this.layer != Some(layer_id),
            i <= kids@.len(),
            find_layer_in(kids@, i as int, layer_id).is_none(),
        decreases kids.len() - i,
    {
        let found = find_stacking_context_with_layer_id(&kids[i], layer_id);
        if found.is_some() {
            proof {
                lemma_find_layer_in_extends(kids@, i as int + 1, kids@.len() as int, layer_id);
            }
            return found;
        }
        i = i + 1;
    }
    None
}

} // verus!
