//! Painting: turning a stacking context into drawing commands in CSS painting order.
use vstd::prelude::*;
use std::sync::Arc;
use crate::clip::{ClippingRegion, same_region};
use crate::context::{
    BlendMode, StackingContext, any_effective_filter, has_effective_filter, inner,
};
use crate::geometry::{
    Point2D, Rect, Size2D, imax, imin, max_x, max_y, min_x, min_y, nearest_px, saturate,
    saturating_i32, to_nearest_px,
};
use crate::item::{
    BorderDisplayItem, BoxShadowDisplayItem, Color, DisplayItem, GradientDisplayItem,
    ImageDisplayItem, LineDisplayItem, TextDisplayItem, base_of,
};

verus! {

/// Blurred items reach this many blur radii beyond their bounds.
pub const BLUR_INFLATION_FACTOR: i32 = 3;

/// One call to the drawing backend. Commands borrow the items they draw from the tree.
pub enum PaintCommand<'a> {
    /// Start painting `context`: move the current transform by `offset_px` whole pixels, then
    /// apply the context's transform; isolate into a temporary surface when `isolate` holds;
    /// clip to `clip_rect` when given. Items are clipped to `tile_bounds`, in the context's
    /// own coordinates.
    BeginContext {
        context: &'a StackingContext,
        tile_bounds: Rect,
        offset_px: Point2D,
        clip_rect: Option<Rect>,
        isolate: bool,
    },
    /// Finish painting `context`: drop its transient clip and clip rectangle, restore the
    /// transform, and composite the temporary surface back when `isolate` holds.
    EndContext { context: &'a StackingContext, isolate: bool },
    /// Replace the transient clip with this region.
    PushTransientClip(&'a ClippingRegion),
    /// Fill `bounds` with `color`.
    DrawSolidColor { bounds: Rect, color: Color },
    /// Draw a run of glyphs.
    DrawText(&'a TextDisplayItem),
    /// Draw one copy of an image into `bounds`.
    DrawImage { item: &'a ImageDisplayItem, bounds: Rect },
    /// Draw a border.
    DrawBorder(&'a BorderDisplayItem),
    /// Draw a linear gradient.
    DrawLinearGradient(&'a GradientDisplayItem),
    /// Draw a line.
    DrawLine(&'a LineDisplayItem),
    /// Draw a box shadow.
    DrawBoxShadow(&'a BoxShadowDisplayItem),
}

/// The blur radius of an item; zero for kinds that do not blur.
pub open spec fn blur_of(item: DisplayItem) -> int {
    match item {
        DisplayItem::TextClass(t) => t.blur_radius as int,
        DisplayItem::BoxShadowClass(b) => b.blur_radius as int,
        _ => 0,
    }
}

/// The item's bounds, grown by the blur inflation on every side, meet the tile.
pub open spec fn item_visible(item: DisplayItem, tile: Rect) -> bool {
    let b = base_of(item).bounds;
    let e = blur_of(item) * BLUR_INFLATION_FACTOR;
    &&& min_x(b) - e < max_x(tile)
    &&& min_x(tile) < max_x(b) + e
    &&& min_y(b) - e < max_y(tile)
    &&& min_y(tile) < max_y(b) + e
}

/// The child's overflow rectangle, moved into its parent's coordinates, meets the tile.
pub open spec fn child_visible(child: StackingContext, tile: Rect) -> bool {
    let ox = child.overflow.origin.x + child.bounds.origin.x;
    let oy = child.overflow.origin.y + child.bounds.origin.y;
    &&& min_x(tile) < ox + child.overflow.size.width
    &&& ox < max_x(tile)
    &&& min_y(tile) < oy + child.overflow.size.height
    &&& oy < max_y(tile)
}

/// The part of the tile that the child's overflow covers, in the child's coordinates; an empty
/// rectangle at the child's negated origin when they do not meet.
pub open spec fn child_tile(tile: Rect, child: StackingContext) -> Rect {
    let bx = child.bounds.origin.x as int;
    let by = child.bounds.origin.y as int;
    let ox = child.overflow.origin.x + bx;
    let oy = child.overflow.origin.y + by;
    let meets = child_visible(child, tile);
    let x0 = if meets { imax(min_x(tile), ox) } else { 0 };
    let y0 = if meets { imax(min_y(tile), oy) } else { 0 };
    let x1 = if meets { imin(max_x(tile), ox + child.overflow.size.width) } else { 0 };
    let y1 = if meets { imin(max_y(tile), oy + child.overflow.size.height) } else { 0 };
    Rect {
        origin: Point2D { x: saturate(x0 - bx), y: saturate(y0 - by) },
        size: Size2D { width: saturate(x1 - x0), height: saturate(y1 - y0) },
    }
}

/// The whole-pixel offset of a child, from the origin of its bounds.
pub open spec fn child_offset(child: StackingContext) -> Point2D {
    Point2D {
        x: nearest_px(child.bounds.origin.x as int) as i32,
        y: nearest_px(child.bounds.origin.y as int) as i32,
    }
}

/// Painting the context needs a temporary surface: some filter changes the pixels, or the
/// blend mode is not the normal one.
pub open spec fn needs_isolation(sc: StackingContext) -> bool {
    has_effective_filter(sc.filters@) || sc.blend_mode != BlendMode::Normal
}

/// The copies of an image along one row, from `x_off` to the right edge of the bounds.
pub open spec fn image_row<'a>(item: &'a ImageDisplayItem, y_off: int, x_off: int) -> Seq<
    PaintCommand<'a>,
>
    decreases imax(item.base.bounds.size.width - x_off, 0),
{
    let sw = item.stretch_size.width as int;
    if sw <= 0 || x_off >= item.base.bounds.size.width {
        seq![]
    } else {
        seq![
            PaintCommand::DrawImage {
                item,
                bounds: Rect {
                    origin: Point2D {
                        x: saturate(item.base.bounds.origin.x + x_off),
                        y: saturate(item.base.bounds.origin.y + y_off),
                    },
                    size: item.stretch_size,
                },
            },
        ] + image_row(item, y_off, x_off + sw)
    }
}

/// The rows of copies of an image, from `y_off` down to the bottom edge of the bounds.
pub open spec fn image_rows<'a>(item: &'a ImageDisplayItem, y_off: int) -> Seq<PaintCommand<'a>>
    decreases imax(item.base.bounds.size.height - y_off, 0),
{
    let sh = item.stretch_size.height as int;
    if sh <= 0 || y_off >= item.base.bounds.size.height {
        seq![]
    } else {
        image_row(item, y_off, 0) + image_rows(item, y_off + sh)
    }
}

/// The backend calls that draw one item, clip aside.
pub open spec fn draw_cmds<'a>(item: DisplayItem) -> Seq<PaintCommand<'a>> {
    match item {
        DisplayItem::SolidColorClass(s) => if s.color.a == 0 {
            seq![]
        } else {
            seq![PaintCommand::DrawSolidColor { bounds: s.base.bounds, color: s.color }]
        },
        DisplayItem::TextClass(t) => seq![PaintCommand::DrawText(&*t)],
        DisplayItem::ImageClass(i) => image_rows(&*i, 0),
        DisplayItem::BorderClass(b) => seq![PaintCommand::DrawBorder(&*b)],
        DisplayItem::GradientClass(g) => seq![PaintCommand::DrawLinearGradient(&*g)],
        DisplayItem::LineClass(l) => seq![PaintCommand::DrawLine(&*l)],
        DisplayItem::BoxShadowClass(b) => seq![PaintCommand::DrawBoxShadow(&*b)],
    }
}

/// The item's clip must be pushed: no transient clip is active, or a different one is.
pub open spec fn needs_push(cur: Option<&ClippingRegion>, clip: ClippingRegion) -> bool {
    match cur {
        Some(c) => !same_region(*c, clip),
        None => true,
    }
}

/// The commands for one item when `cur` is the active transient clip.
pub open spec fn item_cmds<'a>(item: DisplayItem, cur: Option<&'a ClippingRegion>) -> Seq<
    PaintCommand<'a>,
> {
    let clip = base_of(item).clip;
    (if needs_push(cur, clip) {
        seq![PaintCommand::PushTransientClip(&clip)]
    } else {
        seq![]
    }) + draw_cmds(item)
}

/// The active transient clip after the visible items among the first `n` of a bucket.
pub open spec fn bucket_clip<'a>(
    items: Seq<DisplayItem>,
    tile: Rect,
    cur: Option<&'a ClippingRegion>,
    n: int,
) -> Option<&'a ClippingRegion>
    decreases n,
{
    if n <= 0 {
        cur
    } else if item_visible(items[n - 1], tile) {
        Some(&base_of(items[n - 1]).clip)
    } else {
        bucket_clip(items, tile, cur, n - 1)
    }
}

/// The commands for the visible items among the first `n` of a bucket, in order.
pub open spec fn bucket_cmds<'a>(
    items: Seq<DisplayItem>,
    tile: Rect,
    cur: Option<&'a ClippingRegion>,
    n: int,
) -> Seq<PaintCommand<'a>>
    decreases n,
{
    if n <= 0 {
        seq![]
    } else if item_visible(items[n - 1], tile) {
        bucket_cmds(items, tile, cur, n - 1) + item_cmds(
            items[n - 1],
            bucket_clip(items, tile, cur, n - 1),
        )
    } else {
        bucket_cmds(items, tile, cur, n - 1)
    }
}

/// A child takes part in painting here: it meets the tile and has no hardware layer.
pub open spec fn positioned(child: StackingContext, tile: Rect) -> bool {
    child_visible(child, tile) && child.layer.is_none()
}

/// `order` with `k` inserted after every index whose child has a z-index no greater than
/// child `k`'s, assuming `order` is sorted by z-index.
pub open spec fn insert_by_z(kids: Seq<Arc<StackingContext>>, order: Seq<usize>, k: usize) -> Seq<
    usize,
>
    decreases order.len(),
{
    if order.len() == 0 || kids[order.last() as int].z_index <= kids[k as int].z_index {
        order.push(k)
    } else {
        insert_by_z(kids, order.drop_last(), k).push(order.last())
    }
}

/// The indices of the children among the first `n` that `keep` accepts, stably sorted by
/// z-index: ascending z-index, ties in list order.
pub open spec fn stable_z_order(
    kids: Seq<Arc<StackingContext>>,
    keep: spec_fn(StackingContext) -> bool,
    n: int,
) -> Seq<usize>
    decreases n,
{
    if n <= 0 {
        seq![]
    } else if keep(*kids[n - 1]) {
        insert_by_z(kids, stable_z_order(kids, keep, n - 1), (n - 1) as usize)
    } else {
        stable_z_order(kids, keep, n - 1)
    }
}

/// The indices of the positioned children among the first `n`, stably sorted by z-index.
pub open spec fn positioned_order(kids: Seq<Arc<StackingContext>>, tile: Rect, n: int) -> Seq<
    usize,
> {
    stable_z_order(kids, |c: StackingContext| positioned(c, tile), n)
}

/// The indices of all children, stably sorted by z-index: the order in which the painting
/// passes take them.
pub open spec fn z_order(kids: Seq<Arc<StackingContext>>) -> Seq<usize> {
    stable_z_order(kids, |c: StackingContext| true, kids.len() as int)
}

/// The z-index puts the child in the given pass: negative (`neg`) or non-negative.
pub open spec fn in_pass(z: i32, neg: bool) -> bool {
    if neg {
        z < 0
    } else {
        z >= 0
    }
}

/// The commands of a whole stacking context: CSS 2.1 Appendix E, steps 1 to 10.
pub open spec fn paint_cmds<'a>(
    sc: &'a StackingContext,
    tile: Rect,
    offset_px: Point2D,
    clip_rect: Option<Rect>,
) -> Seq<PaintCommand<'a>>
    decreases *sc,
{
    let l = sc.display_list;
    let kids = l.children@;
    let order = positioned_order(kids, tile, kids.len() as int);
    let none: Option<&'a ClippingRegion> = None;
    let c1 = bucket_clip(l.background_and_borders@, tile, none, l.background_and_borders@.len() as int);
    let c2 = bucket_clip(l.block_backgrounds_and_borders@, tile, c1, l.block_backgrounds_and_borders@.len() as int);
    let c3 = bucket_clip(l.floats@, tile, c2, l.floats@.len() as int);
    let c4 = bucket_clip(l.content@, tile, c3, l.content@.len() as int);
    let isolate = needs_isolation(*sc);
    seq![PaintCommand::BeginContext { context: sc, tile_bounds: tile, offset_px, clip_rect, isolate }]
        + bucket_cmds(l.background_and_borders@, tile, none, l.background_and_borders@.len() as int)
        + pass_cmds(kids, order, tile, true, order.len() as int)
        + bucket_cmds(l.block_backgrounds_and_borders@, tile, c1, l.block_backgrounds_and_borders@.len() as int)
        + bucket_cmds(l.floats@, tile, c2, l.floats@.len() as int)
        + bucket_cmds(l.content@, tile, c3, l.content@.len() as int)
        + pass_cmds(kids, order, tile, false, order.len() as int)
        + bucket_cmds(l.outlines@, tile, c4, l.outlines@.len() as int)
        + seq![PaintCommand::EndContext { context: sc, isolate }]
}

/// The commands of the children listed in `order[0..m)` that belong to the pass.
pub open spec fn pass_cmds<'a>(
    kids: Seq<Arc<StackingContext>>,
    order: Seq<usize>,
    tile: Rect,
    neg: bool,
    m: int,
) -> Seq<PaintCommand<'a>>
    decreases kids, m,
{
    if m <= 0 || m > order.len() {
        seq![]
    } else {
        let k = order[m - 1] as int;
        pass_cmds(kids, order, tile, neg, m - 1) + if 0 <= k < kids.len() && in_pass(
            kids[k].z_index,
            neg,
        ) {
            paint_cmds(
                &*kids[k],
                child_tile(tile, *kids[k]),
                child_offset(*kids[k]),
                Some(kids[k].overflow),
            )
        } else {
            seq![]
        }
    }
}

fn item_is_visible(item: &DisplayItem, tile: &Rect) -> (r: bool)
    ensures
        r == item_visible(*item, *tile),
{
    let blur: i32 = match item {
        DisplayItem::TextClass(t) => t.blur_radius,
        DisplayItem::BoxShadowClass(b) => b.blur_radius,
        _ => 0,
    };
    assert(blur as int == blur_of(*item));
    let e = blur as i64 * 3;
    assert(e == blur_of(*item) * BLUR_INFLATION_FACTOR);
    let b = item.bounds();
    let bx = b.origin.x as i64;
    let by = b.origin.y as i64;
    let tx = tile.origin.x as i64;
    let ty = tile.origin.y as i64;
    bx - e < tx + tile.size.width as i64 && tx < bx + b.size.width as i64 + e && by - e < ty
        + tile.size.height as i64 && ty < by + b.size.height as i64 + e
}

fn child_is_visible(child: &StackingContext, tile: &Rect) -> (r: bool)
    ensures
        r == child_visible(*child, *tile),
{
    let ox = child.overflow.origin.x as i64 + child.bounds.origin.x as i64;
    let oy = child.overflow.origin.y as i64 + child.bounds.origin.y as i64;
    let tx = tile.origin.x as i64;
    let ty = tile.origin.y as i64;
    tx < ox + child.overflow.size.width as i64 && ox < tx + tile.size.width as i64 && ty < oy
        + child.overflow.size.height as i64 && oy < ty + tile.size.height as i64
}

/// Covers the bounds of the item with copies of its image, row by row.
fn draw_image<'a>(item: &'a ImageDisplayItem, out: &mut Vec<PaintCommand<'a>>)
    ensures
        final(out)@ == old(out)@ + image_rows(item, 0),
{
    let sw = item.stretch_size.width as i64;
    let sh = item.stretch_size.height as i64;
    let w = item.base.bounds.size.width as i64;
    let h = item.base.bounds.size.height as i64;
    let ox = item.base.bounds.origin.x as i64;
    let oy = item.base.bounds.origin.y as i64;
    if sw <= 0 || sh <= 0 {
        assert(image_rows(item, 0) =~= seq![]) by {
            if sw <= 0 && sh > 0 && 0 < h {
                lemma_rows_without_width(item, 0);
            }
        }
        return ;
    }
    let ghost target = old(out)@ + image_rows(item, 0);
    let mut y_off: i64 = 0;
    while y_off < h
        invariant
            0 <= y_off <= imax(h as int, 0) + sh,
            sh == item.stretch_size.height,
            sw == item.stretch_size.width,
            sh > 0 && sw > 0,
            w == item.base.bounds.size.width,
            h == item.base.bounds.size.height,
            ox == item.base.bounds.origin.x,
            oy == item.base.bounds.origin.y,
            out@ + image_rows(item, y_off as int) == target,
        decreases imax(h - y_off, 0),
    {
        let ghost row_start = out@;
        let mut x_off: i64 = 0;
        while x_off < w
            invariant
                0 <= x_off <= imax(w as int, 0) + sw,
                0 <= y_off < h,
                sh == item.stretch_size.height,
                sw == item.stretch_size.width,
                sh > 0 && sw > 0,
                w == item.base.bounds.size.width,
                h == item.base.bounds.size.height,
                ox == item.base.bounds.origin.x,
                oy == item.base.bounds.origin.y,
                out@ + image_row(item, y_off as int, x_off as int) == row_start + image_row(
                    item,
                    y_off as int,
                    0,
                ),
            decreases imax(w - x_off, 0),
        {
            let bounds = Rect {
                origin: Point2D { x: saturating_i32(ox + x_off), y: saturating_i32(oy + y_off) },
                size: item.stretch_size,
            };
            let ghost before = out@;
            out.push(PaintCommand::DrawImage { item, bounds });
            proof {
                let t = seq![PaintCommand::DrawImage { item, bounds }];
                assert(image_row(item, y_off as int, x_off as int) == t + image_row(
                    item,
                    y_off as int,
                    x_off + sw,
                ));
                assert(out@ + image_row(item, y_off as int, x_off + sw) =~= before + image_row(
                    item,
                    y_off as int,
                    x_off as int,
                ));
            }
            x_off = x_off + sw;
        }
        proof {
            assert(image_row(item, y_off as int, x_off as int) =~= seq![]);
            assert(image_rows(item, y_off as int) == image_row(item, y_off as int, 0) + image_rows(
                item,
                y_off + sh,
            ));
            assert(out@ + image_rows(item, y_off + sh) =~= row_start + image_rows(
                item,
                y_off as int,
            ));
        }
        y_off = y_off + sh;
    }
    assert(image_rows(item, y_off as int) =~= seq![]);
    assert(out@ =~= target);
}

proof fn lemma_rows_without_width(item: &ImageDisplayItem, y_off: int)
    requires
        item.stretch_size.width <= 0,
        item.stretch_size.height > 0,
    ensures
        image_rows(item, y_off) =~= seq![],
    decreases imax(item.base.bounds.size.height - y_off, 0),
{
    if y_off < item.base.bounds.size.height {
        assert(image_row(item, y_off, 0) =~= seq![]);
        lemma_rows_without_width(item, y_off + item.stretch_size.height);
    }
}

impl DisplayItem {
    /// Draws one item, first pushing its clip when it differs from the active transient clip.
    fn draw_into_context<'a>(
        &'a self,
        cur: &mut Option<&'a ClippingRegion>,
        out: &mut Vec<PaintCommand<'a>>,
    )
        ensures
            final(out)@ == old(out)@ + item_cmds(*self, *old(cur)),
            *final(cur) == Some(&base_of(*self).clip),
    {
        let item = self;
        let clip: &'a ClippingRegion = &item.base().clip;
        let push = match *cur {
            Some(c) => !c.eq(clip),
            None => true,
        };
        let ghost start = out@;
        if push {
            out.push(PaintCommand::PushTransientClip(clip));
        }
        *cur = Some(clip);
        let ghost mid = out@;
        match item {
            DisplayItem::SolidColorClass(s) => {
                if s.color.a != 0 {
                    out.push(PaintCommand::DrawSolidColor { bounds: s.base.bounds, color: s.color });
                }
            },
            DisplayItem::TextClass(t) => {
                out.push(PaintCommand::DrawText(&**t));
            },
            DisplayItem::ImageClass(i) => {
                draw_image(&**i, out);
            },
            DisplayItem::BorderClass(b) => {
                out.push(PaintCommand::DrawBorder(&**b));
            },
            DisplayItem::GradientClass(g) => {
                out.push(PaintCommand::DrawLinearGradient(&**g));
            },
            DisplayItem::LineClass(l) => {
                out.push(PaintCommand::DrawLine(&**l));
            },
            DisplayItem::BoxShadowClass(b) => {
                out.push(PaintCommand::DrawBoxShadow(&**b));
            },
        }
        assert(out@ =~= mid + draw_cmds(*item));
        assert(out@ =~= start + item_cmds(*self, *old(cur)));
    }
}

/// Draws the items of a bucket that meet the tile, in order.
fn draw_bucket<'a>(
    items: &'a Vec<DisplayItem>,
    tile: &Rect,
    cur: &mut Option<&'a ClippingRegion>,
    out: &mut Vec<PaintCommand<'a>>,
)
    ensures
        final(out)@ == old(out)@ + bucket_cmds(items@, *tile, *old(cur), items@.len() as int),
        *final(cur) == bucket_clip(items@, *tile, *old(cur), items@.len() as int),
{
    let ghost cur0 = *cur;
    let ghost start = out@;
    let mut i: usize = 0;
    while i < items.len()
        invariant
            i <= items@.len(),
            cur0 == *old(cur),
            start == old(out)@,
            out@ == start + bucket_cmds(items@, *tile, cur0, i as int),
            *cur == bucket_clip(items@, *tile, cur0, i as int),
        decreases items.len() - i,
    {
        let item = &items[i];
        if item_is_visible(item, tile) {
            item.draw_into_context(cur, out);
            assert(out@ =~= start + bucket_cmds(items@, *tile, cur0, i + 1));
        }
        i = i + 1;
    }
}

proof fn lemma_insert_by_z(
    kids: Seq<Arc<StackingContext>>,
    order: Seq<usize>,
    k: usize,
    j: int,
)
    requires
        0 <= j <= order.len(),
        (k as int) < kids.len(),
        forall|t: int| 0 <= t < order.len() ==> (order[t] as int) < kids.len(),
        forall|t: int| j <= t < order.len() ==> kids[order[t] as int].z_index > kids[k as int].z_index,
        j == 0 || kids[order[j - 1] as int].z_index <= kids[k as int].z_index,
    ensures
        insert_by_z(kids, order, k) == order.insert(j, k),
    decreases order.len(),
{
    if order.len() == j {
        assert(order.insert(j, k) =~= order.push(k));
    } else {
        let shorter = order.drop_last();
        lemma_insert_by_z(kids, shorter, k, j);
        assert(order.insert(j, k) =~= shorter.insert(j, k).push(order.last()));
    }
}

proof fn lemma_stable_z_order_bounds(
    kids: Seq<Arc<StackingContext>>,
    keep: spec_fn(StackingContext) -> bool,
    n: int,
)
    requires
        0 <= n <= kids.len(),
    ensures
        forall|t: int|
            0 <= t < stable_z_order(kids, keep, n).len() ==> (#[trigger] stable_z_order(kids, keep, n)[t] as int) < n,
    decreases n,
{
    if n > 0 {
        lemma_stable_z_order_bounds(kids, keep, n - 1);
        let prev = stable_z_order(kids, keep, n - 1);
        if keep(inner(kids[n - 1])) {
            lemma_insert_contents(kids, prev, (n - 1) as usize);
        }
    }
}

proof fn lemma_insert_contents(kids: Seq<Arc<StackingContext>>, order: Seq<usize>, k: usize)
    ensures
        forall|t: int|
            0 <= t < insert_by_z(kids, order, k).len() ==> (#[trigger] insert_by_z(kids, order, k)[t] == k || order.contains(insert_by_z(kids, order, k)[t])),
        insert_by_z(kids, order, k).len() == order.len() + 1,
    decreases order.len(),
{
    if order.len() > 0 && kids[order.last() as int].z_index > kids[k as int].z_index {
        let shorter = order.drop_last();
        lemma_insert_contents(kids, shorter, k);
        assert forall|t: int| 0 <= t < insert_by_z(kids, order, k).len() implies (#[trigger] insert_by_z(kids, order, k)[t] == k || order.contains(insert_by_z(kids, order, k)[t])) by {
            let r = insert_by_z(kids, order, k);
            if t < r.len() - 1 {
                let v = insert_by_z(kids, shorter, k)[t];
                if v != k {
                    let u = choose|u: int| 0 <= u < shorter.len() && shorter[u] == v;
                    assert(order[u] == v);
                }
            } else {
                assert(order[order.len() - 1] == r[t]);
            }
        }
    } else {
        assert forall|t: int| 0 <= t < insert_by_z(kids, order, k).len() implies (#[trigger] insert_by_z(kids, order, k)[t] == k || order.contains(insert_by_z(kids, order, k)[t])) by {
            if t < order.len() {
                assert(order[t] == insert_by_z(kids, order, k)[t]);
            }
        }
    }
}

/// Inserts child `n` into `order`, after every child with a z-index no greater than its own.
fn insert_child_by_z(kids: &Vec<Arc<StackingContext>>, order: &mut Vec<usize>, n: usize)
    requires
        n < kids@.len(),
        forall|t: int| 0 <= t < old(order)@.len() ==> (old(order)@[t] as int) < n,
    ensures
        final(order)@ == insert_by_z(kids@, old(order)@, n),
{
    let z = kids[n].z_index;
    let mut j: usize = order.len();
    while j > 0 && kids[order[j - 1]].z_index > z
        invariant
            n < kids@.len(),
            j <= order@.len(),
            order@ == old(order)@,
            z == kids@[n as int].z_index,
            forall|t: int| 0 <= t < order@.len() ==> (order@[t] as int) < n,
            forall|t: int| j <= t < order@.len() ==> kids@[order@[t] as int].z_index > z,
        decreases j,
    {
        j = j - 1;
    }
    proof {
        lemma_insert_by_z(kids@, order@, n, j as int);
    }
    order.insert(j, n);
}

/// The indices of the children that meet the tile and have no hardware layer, stably sorted
/// by z-index.
fn positioned_children(kids: &Vec<Arc<StackingContext>>, tile: &Rect) -> (r: Vec<usize>)
    ensures
        r@ == positioned_order(kids@, *tile, kids@.len() as int),
{
    let ghost keep = |c: StackingContext| positioned(c, *tile);
    let mut order: Vec<usize> = Vec::new();
    let mut n: usize = 0;
    while n < kids.len()
        invariant
            n <= kids@.len(),
            keep == (|c: StackingContext| positioned(c, *tile)),
            order@ == stable_z_order(kids@, keep, n as int),
        decreases kids.len() - n,
    {
        proof {
            lemma_stable_z_order_bounds(kids@, keep, n as int);
        }
        if child_is_visible(&kids[n], tile) && kids[n].layer.is_none() {
            insert_child_by_z(kids, &mut order, n);
        }
        n = n + 1;
    }
    order
}

/// The indices of all children, stably sorted by z-index.
pub fn z_sorted_children(kids: &Vec<Arc<StackingContext>>) -> (r: Vec<usize>)
    ensures
        r@ == z_order(kids@),
{
    let ghost keep = |c: StackingContext| true;
    let mut order: Vec<usize> = Vec::new();
    let mut n: usize = 0;
    while n < kids.len()
        invariant
            n <= kids@.len(),
            keep == (|c: StackingContext| true),
            order@ == stable_z_order(kids@, keep, n as int),
        decreases kids.len() - n,
    {
        proof {
            lemma_stable_z_order_bounds(kids@, keep, n as int);
        }
        insert_child_by_z(kids, &mut order, n);
        n = n + 1;
    }
    order
}

impl StackingContext {
    /// The tile rectangle translated into the coordinates of a child stacking context: the part
    /// of `tile_bounds` that the child's overflow covers, moved by the child's negated origin.
    pub fn compute_tile_rect_for_child_stacking_context(
        &self,
        tile_bounds: &Rect,
        child: &StackingContext,
    ) -> (r: Rect)
        ensures
            r == child_tile(*tile_bounds, *child),
    {
        let bx = child.bounds.origin.x as i64;
        let by = child.bounds.origin.y as i64;
        let ox = child.overflow.origin.x as i64 + bx;
        let oy = child.overflow.origin.y as i64 + by;
        let tx = tile_bounds.origin.x as i64;
        let ty = tile_bounds.origin.y as i64;
        let tmx = tx + tile_bounds.size.width as i64;
        let tmy = ty + tile_bounds.size.height as i64;
        let omx = ox + child.overflow.size.width as i64;
        let omy = oy + child.overflow.size.height as i64;
        let meets = child_is_visible(child, tile_bounds);
        let x0: i64 = if meets { if tx >= ox { tx } else { ox } } else { 0 };
        let y0: i64 = if meets { if ty >= oy { ty } else { oy } } else { 0 };
        let x1: i64 = if meets { if tmx <= omx { tmx } else { omx } } else { 0 };
        let y1: i64 = if meets { if tmy <= omy { tmy } else { omy } } else { 0 };
        Rect {
            origin: Point2D { x: saturating_i32(x0 - bx), y: saturating_i32(y0 - by) },
            size: Size2D { width: saturating_i32(x1 - x0), height: saturating_i32(y1 - y0) },
        }
    }

    /// Paints the context into `out` as backend commands, restricted to `tile_bounds` and
    /// clipped to `clip_rect` when given, in the order of CSS 2.1 Appendix E: root backgrounds
    /// and borders, positioned children with negative z-index, block backgrounds and borders,
    /// floats, content, positioned children with non-negative z-index, outlines. Items and
    /// children that miss the tile are left out; children with a hardware layer are left to
    /// the layer compositor.
    pub fn optimize_and_draw_into_context<'a>(
        &'a self,
        tile_bounds: &Rect,
        clip_rect: Option<&Rect>,
        out: &mut Vec<PaintCommand<'a>>,
    )
        ensures
            final(out)@ == old(out)@ + paint_cmds(
                self,
                *tile_bounds,
                Point2D { x: 0, y: 0 },
                match clip_rect {
                    Some(c) => Some(*c),
                    None => None,
                },
            ),
    {
        let clip = match clip_rect {
            Some(c) => Some(*c),
            None => None,
        };
        self.draw_context(tile_bounds, Point2D::zero(), clip, out);
    }

    fn draw_context<'a>(
        &'a self,
        tile: &Rect,
        offset_px: Point2D,
        clip_rect: Option<Rect>,
        out: &mut Vec<PaintCommand<'a>>,
    )
        ensures
            final(out)@ == old(out)@ + paint_cmds(self, *tile, offset_px, clip_rect),
        decreases *self, 1int,
    {
        let ghost start = out@;
        let l = &self.display_list;
        let isolate = any_effective_filter(&self.filters) || self.blend_mode != BlendMode::Normal;
        let order = positioned_children(&l.children, tile);
        out.push(
            PaintCommand::BeginContext { context: self, tile_bounds: *tile, offset_px, clip_rect, isolate },
        );
        let mut cur: Option<&'a ClippingRegion> = None;
        draw_bucket(&l.background_and_borders, tile, &mut cur, out);
        self.draw_pass(&order, tile, true, out);
        draw_bucket(&l.block_backgrounds_and_borders, tile, &mut cur, out);
        draw_bucket(&l.floats, tile, &mut cur, out);
        draw_bucket(&l.content, tile, &mut cur, out);
        self.draw_pass(&order, tile, false, out);
        draw_bucket(&l.outlines, tile, &mut cur, out);
        out.push(PaintCommand::EndContext { context: self, isolate });
        assert(out@ =~= start + paint_cmds(self, *tile, offset_px, clip_rect));
    }

    /// Paints the positioned children listed in `order` whose z-index belongs to the pass.
    fn draw_pass<'a>(
        &'a self,
        order: &Vec<usize>,
        tile: &Rect,
        neg: bool,
        out: &mut Vec<PaintCommand<'a>>,
    )
        ensures
            final(out)@ == old(out)@ + pass_cmds(
                self.display_list.children@,
                order@,
                *tile,
                neg,
                order@.len() as int,
            ),
        decreases *self, 0int,
    {
        let kids = &self.display_list.children;
        let ghost start = out@;
        let mut m: usize = 0;
        while m < order.len()
            invariant
                m <= order@.len(),
                kids@ == self.display_list.children@,
                start == old(out)@,
                out@ == start + pass_cmds(kids@, order@, *tile, neg, m as int),
            decreases order.len() - m,
        {
            let k = order[m];
            if k < kids.len() {
                let kid: &'a StackingContext = &kids[k];
                let z = kid.z_index;
                if (neg && z < 0) || (!neg && z >= 0) {
                    let child_tile = self.compute_tile_rect_for_child_stacking_context(tile, kid);
                    let offset = Point2D {
                        x: to_nearest_px(kid.bounds.origin.x),
                        y: to_nearest_px(kid.bounds.origin.y),
                    };
                    kid.draw_context(&child_tile, offset, Some(kid.overflow), out);
                }
            }
            assert(out@ =~= start + pass_cmds(kids@, order@, *tile, neg, m + 1));
            m = m + 1;
        }
    }
}

/// The indices are in ascending z-index order, ties in ascending index order.
pub open spec fn stably_sorted(kids: Seq<Arc<StackingContext>>, order: Seq<usize>) -> bool {
    forall|a: int, b: int|
        0 <= a < b < order.len() ==> #[trigger] z_before(kids, order[a], order[b])
}

/// Child `i` comes before child `j`: a lower z-index, or an equal one and an earlier index.
pub open spec fn z_before(kids: Seq<Arc<StackingContext>>, i: usize, j: usize) -> bool {
    let zi = kids[i as int].z_index;
    let zj = kids[j as int].z_index;
    zi < zj || (zi == zj && i < j)
}

/// Where `insert_by_z` puts the new index.
pub open spec fn insert_pos(kids: Seq<Arc<StackingContext>>, order: Seq<usize>, k: usize) -> int
    decreases order.len(),
{
    if order.len() == 0 || kids[order.last() as int].z_index <= kids[k as int].z_index {
        order.len() as int
    } else {
        insert_pos(kids, order.drop_last(), k)
    }
}

proof fn lemma_insert_pos(kids: Seq<Arc<StackingContext>>, order: Seq<usize>, k: usize)
    ensures
        0 <= insert_pos(kids, order, k) <= order.len(),
        insert_by_z(kids, order, k) == order.insert(insert_pos(kids, order, k), k),
        forall|t: int|
            insert_pos(kids, order, k) <= t < order.len() ==> kids[order[t] as int].z_index
                > kids[k as int].z_index,
        insert_pos(kids, order, k) == 0 || kids[order[insert_pos(kids, order, k) - 1] as int].z_index
            <= kids[k as int].z_index,
    decreases order.len(),
{
    if order.len() == 0 || kids[order.last() as int].z_index <= kids[k as int].z_index {
        assert(order.insert(order.len() as int, k) =~= order.push(k));
    } else {
        let shorter = order.drop_last();
        lemma_insert_pos(kids, shorter, k);
        let j = insert_pos(kids, shorter, k);
        assert(order.insert(j, k) =~= shorter.insert(j, k).push(order.last()));
        assert forall|t: int| j <= t < order.len() implies kids[order[t] as int].z_index
            > kids[k as int].z_index by {
            if t < shorter.len() {
                assert(order[t] == shorter[t]);
            }
        }
        if j > 0 {
            assert(order[j - 1] == shorter[j - 1]);
        }
    }
}

proof fn lemma_insert_index(s: Seq<usize>, j: int, k: usize)
    requires
        0 <= j <= s.len(),
    ensures
        s.insert(j, k).len() == s.len() + 1,
        forall|t: int| 0 <= t < j ==> s.insert(j, k)[t] == s[t],
        s.insert(j, k)[j] == k,
        forall|t: int| j < t <= s.len() ==> s.insert(j, k)[t] == s[t - 1],
{
}

/// The order takes the accepted children in ascending z-index order, ties in their list
/// order, and lists exactly the accepted children.
pub proof fn lemma_stable_z_order_sorted(
    kids: Seq<Arc<StackingContext>>,
    keep: spec_fn(StackingContext) -> bool,
    n: int,
)
    requires
        0 <= n <= kids.len() <= usize::MAX,
    ensures
        stably_sorted(kids, stable_z_order(kids, keep, n)),
        forall|k: usize|
            #[trigger] stable_z_order(kids, keep, n).contains(k) <==> ((k as int) < n && keep(
                inner(kids[k as int]),
            )),
    decreases n,
{
    if n > 0 {
        lemma_stable_z_order_sorted(kids, keep, n - 1);
        lemma_stable_z_order_bounds(kids, keep, n - 1);
        let prev = stable_z_order(kids, keep, n - 1);
        let cur = stable_z_order(kids, keep, n);
        let k = (n - 1) as usize;
        assert(k as int == n - 1);
        if keep(inner(kids[n - 1])) {
            lemma_insert_pos(kids, prev, k);
            let j = insert_pos(kids, prev, k);
            assert(cur == prev.insert(j, k));
            lemma_insert_index(prev, j, k);
            assert(forall|t: int| 0 <= t < prev.len() ==> (prev[t] as int) < n - 1);
            assert forall|a: int, b: int| 0 <= a < b < cur.len() implies #[trigger] z_before(kids, cur[a], cur[b]) by {
                if b < j {
                    assert(cur[a] == prev[a] && cur[b] == prev[b]);
                    assert(z_before(kids, prev[a], prev[b]));
                } else if b == j {
                    assert(cur[a] == prev[a]);
                    assert((prev[a] as int) < n - 1);
                    if a < j - 1 {
                        assert(z_before(kids, prev[a], prev[j - 1]));
                    }
                } else if a < j {
                    assert(cur[a] == prev[a] && cur[b] == prev[b - 1]);
                    assert(z_before(kids, prev[a], prev[b - 1]));
                } else if a == j {
                    assert(cur[b] == prev[b - 1]);
                    assert(kids[prev[b - 1] as int].z_index > kids[k as int].z_index);
                } else {
                    assert(cur[a] == prev[a - 1] && cur[b] == prev[b - 1]);
                    assert(z_before(kids, prev[a - 1], prev[b - 1]));
                }
            }
            assert forall|m: usize| #[trigger] cur.contains(m) <==> ((m as int) < n && keep(
                inner(kids[m as int]),
            )) by {
                if cur.contains(m) {
                    let u = choose|u: int| 0 <= u < cur.len() && cur[u] == m;
                    if u < j {
                        assert(prev[u] == m);
                        assert(prev.contains(m));
                    } else if u > j {
                        assert(prev[u - 1] == m);
                        assert(prev.contains(m));
                    }
                }
                if (m as int) < n && keep(inner(kids[m as int])) {
                    if m == k {
                        assert(cur[j] == m);
                    } else {
                        assert(prev.contains(m));
                        let u = choose|u: int| 0 <= u < prev.len() && prev[u] == m;
                        if u < j {
                            assert(cur[u] == m);
                        } else {
                            assert(cur[u + 1] == m);
                        }
                    }
                }
            }
        } else {
            assert forall|m: usize| #[trigger] cur.contains(m) <==> ((m as int) < n && keep(
                inner(kids[m as int]),
            )) by {
                if cur.contains(m) {
                    assert(prev.contains(m));
                }
            }
        }
    }
}

/// The positioned children are painted in ascending z-index order, ties in their list
/// order, and the order lists exactly the children that meet the tile and have no hardware
/// layer.
pub proof fn lemma_positioned_order_sorted(kids: Seq<Arc<StackingContext>>, tile: Rect, n: int)
    requires
        0 <= n <= kids.len() <= usize::MAX,
    ensures
        stably_sorted(kids, positioned_order(kids, tile, n)),
        forall|k: usize|
            #[trigger] positioned_order(kids, tile, n).contains(k) <==> ((k as int) < n && positioned(
                inner(kids[k as int]),
                tile,
            )),
{
    lemma_stable_z_order_sorted(kids, |c: StackingContext| positioned(c, tile), n);
}

/// When every child meets the tile and none has a hardware layer, painting takes the children
/// in `z_order`.
pub proof fn lemma_all_positioned_paint_in_z_order(kids: Seq<Arc<StackingContext>>, tile: Rect)
    requires
        forall|i: int| 0 <= i < kids.len() ==> #[trigger] positioned(inner(kids[i]), tile),
    ensures
        positioned_order(kids, tile, kids.len() as int) == z_order(kids),
{
    lemma_same_order(kids, tile, kids.len() as int);
}

proof fn lemma_same_order(kids: Seq<Arc<StackingContext>>, tile: Rect, n: int)
    requires
        n <= kids.len(),
        forall|i: int| 0 <= i < kids.len() ==> #[trigger] positioned(inner(kids[i]), tile),
    ensures
        stable_z_order(kids, |c: StackingContext| positioned(c, tile), n) == stable_z_order(
            kids,
            |c: StackingContext| true,
            n,
        ),
    decreases n,
{
    if n > 0 {
        lemma_same_order(kids, tile, n - 1);
        assert(positioned(inner(kids[n - 1]), tile));
    }
}

/// Of two positioned children, the earlier-listed one with a z-index no greater than the
/// other's is painted first.
pub proof fn lemma_positioned_pair_order(
    kids: Seq<Arc<StackingContext>>,
    tile: Rect,
    k1: usize,
    k2: usize,
)
    requires
        kids.len() <= usize::MAX,
        k1 < k2 < kids.len(),
        positioned(inner(kids[k1 as int]), tile),
        positioned(inner(kids[k2 as int]), tile),
        kids[k1 as int].z_index <= kids[k2 as int].z_index,
    ensures
        exists|a: int, b: int|
            0 <= a < b < positioned_order(kids, tile, kids.len() as int).len()
                && #[trigger] positioned_order(kids, tile, kids.len() as int)[a] == k1
                && #[trigger] positioned_order(kids, tile, kids.len() as int)[b] == k2,
{
    let n = kids.len() as int;
    let order = positioned_order(kids, tile, n);
    lemma_positioned_order_sorted(kids, tile, n);
    assert(order.contains(k1));
    assert(order.contains(k2));
    let a = choose|a: int| 0 <= a < order.len() && order[a] == k1;
    let b = choose|b: int| 0 <= b < order.len() && order[b] == k2;
    if b < a {
        assert(z_before(kids, order[b], order[a]));
    }
    assert(a != b);
}

/// The commands of the child that `order[j]` names, painted in its own tile and offset and
/// clipped to its overflow.
pub open spec fn child_block<'a>(
    kids: Seq<Arc<StackingContext>>,
    order: Seq<usize>,
    tile: Rect,
    j: int,
) -> Seq<PaintCommand<'a>> {
    let k = order[j] as int;
    paint_cmds(&*kids[k], child_tile(tile, *kids[k]), child_offset(*kids[k]), Some(kids[k].overflow))
}

proof fn lemma_pass_cmds_prefix(
    kids: Seq<Arc<StackingContext>>,
    order: Seq<usize>,
    tile: Rect,
    neg: bool,
    m: int,
    n: int,
)
    requires
        0 <= m <= n <= order.len(),
    ensures
        pass_cmds(kids, order, tile, neg, m).len() <= pass_cmds(kids, order, tile, neg, n).len(),
        pass_cmds(kids, order, tile, neg, n).subrange(
            0,
            pass_cmds(kids, order, tile, neg, m).len() as int,
        ) == pass_cmds(kids, order, tile, neg, m),
    decreases n - m,
{
    if m < n {
        lemma_pass_cmds_prefix(kids, order, tile, neg, m, n - 1);
        let short = pass_cmds(kids, order, tile, neg, m);
        let mid = pass_cmds(kids, order, tile, neg, n - 1);
        let long = pass_cmds(kids, order, tile, neg, n);
        assert(long.subrange(0, mid.len() as int) =~= mid);
        assert(long.subrange(0, short.len() as int) =~= mid.subrange(0, short.len() as int));
    } else {
        let x = pass_cmds(kids, order, tile, neg, m);
        assert(x.subrange(0, x.len() as int) =~= x);
    }
}

/// Each child painted in a pass contributes one unbroken block of commands: exactly its own
/// painting, in its tile, at its rounded pixel offset, clipped to its overflow.
pub proof fn lemma_child_commands_form_one_block(
    kids: Seq<Arc<StackingContext>>,
    order: Seq<usize>,
    tile: Rect,
    neg: bool,
    j: int,
)
    requires
        0 <= j < order.len(),
        (order[j] as int) < kids.len(),
        in_pass(kids[order[j] as int].z_index, neg),
    ensures
        ({
            let start = pass_cmds(kids, order, tile, neg, j).len() as int;
            let block = child_block(kids, order, tile, j);
            let all = pass_cmds(kids, order, tile, neg, order.len() as int);
            start + block.len() <= all.len() && all.subrange(start, start + block.len()) == block
        }),
{
    let start = pass_cmds(kids, order, tile, neg, j).len() as int;
    let block = child_block(kids, order, tile, j);
    let next = pass_cmds(kids, order, tile, neg, j + 1);
    let all = pass_cmds(kids, order, tile, neg, order.len() as int);
    assert(next == pass_cmds(kids, order, tile, neg, j) + block);
    lemma_pass_cmds_prefix(kids, order, tile, neg, j + 1, order.len() as int);
    assert(all.subrange(start, start + block.len()) =~= next.subrange(start, start + block.len()));
    assert(next.subrange(start, start + block.len()) =~= block);
}

} // verus!
