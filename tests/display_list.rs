use std::sync::Arc;

use gfx_display_list::clip::{BorderRadii, ClippingRegion};
use gfx_display_list::context::{
    find_stacking_context_with_layer_id, BlendMode, Filter, LayerId, StackingContext,
    Transform2D,
};
use gfx_display_list::geometry::{to_nearest_px, Point2D, Rect, SideOffsets2D, Size2D};
use gfx_display_list::item::{
    BaseDisplayItem, BorderDisplayItem, BorderStyle, Color, Cursor, CursorValue, DisplayItem,
    DisplayItemMetadata, ImageDisplayItem, ImageHandle, ImageRendering, OpaqueNode,
    PointerEvents, SolidColorDisplayItem,
};
use gfx_display_list::list::DisplayList;
use gfx_display_list::paint::PaintCommand;

const RED: Color = Color { r: 255, g: 0, b: 0, a: 255 };
const CLEAR: Color = Color { r: 0, g: 0, b: 0, a: 0 };

fn meta(node: usize) -> DisplayItemMetadata {
    DisplayItemMetadata::new(
        OpaqueNode(node),
        PointerEvents::Auto,
        CursorValue::AutoCursor,
        Cursor::DefaultCursor,
    )
}

fn base(x: i32, y: i32, w: i32, h: i32, node: usize) -> BaseDisplayItem {
    BaseDisplayItem::new(Rect::new(x, y, w, h), meta(node), ClippingRegion::max())
}

fn solid(x: i32, y: i32, w: i32, h: i32, node: usize, color: Color) -> DisplayItem {
    DisplayItem::SolidColorClass(Box::new(SolidColorDisplayItem {
        base: base(x, y, w, h, node),
        color,
    }))
}

fn border(x: i32, y: i32, w: i32, h: i32, width: i32, node: usize) -> DisplayItem {
    DisplayItem::BorderClass(Box::new(BorderDisplayItem {
        base: base(x, y, w, h, node),
        border_widths: SideOffsets2D { top: width, right: width, bottom: width, left: width },
        color: SideOffsets2D { top: RED, right: RED, bottom: RED, left: RED },
        style: SideOffsets2D {
            top: BorderStyle::Solid,
            right: BorderStyle::Solid,
            bottom: BorderStyle::Solid,
            left: BorderStyle::Solid,
        },
        radius: BorderRadii::all_same(0),
    }))
}

fn context(list: DisplayList, bounds: Rect, z_index: i32) -> StackingContext {
    let overflow = Rect::new(0, 0, bounds.size.width, bounds.size.height);
    StackingContext::new(
        Box::new(list),
        &bounds,
        &overflow,
        z_index,
        &Transform2D::identity(),
        Vec::new(),
        BlendMode::Normal,
        None,
    )
}

fn nodes(result: &[DisplayItemMetadata]) -> Vec<usize> {
    result.iter().map(|m| m.node.id()).collect()
}

/// The example scene: a red background and a positioned child with one item of its own.
fn red_scene() -> StackingContext {
    let mut child_list = DisplayList::new();
    child_list.content.push(solid(0, 0, 50, 50, 2, Color { r: 0, g: 0, b: 255, a: 255 }));
    let child = context(child_list, Rect::new(10, 10, 50, 50), 5);
    let mut root_list = DisplayList::new();
    root_list.background_and_borders.push(solid(0, 0, 100, 100, 1, RED));
    root_list.children.push(Arc::new(child));
    context(root_list, Rect::new(0, 0, 100, 100), 0)
}

#[test]
fn append_from_concatenates_each_bucket_and_drains_source() {
    let mut a = DisplayList::new();
    a.content.push(solid(0, 0, 1, 1, 1, RED));
    a.outlines.push(solid(0, 0, 1, 1, 2, RED));
    let mut b = DisplayList::new();
    b.content.push(solid(0, 0, 1, 1, 3, RED));
    b.floats.push(solid(0, 0, 1, 1, 4, RED));
    a.append_from(&mut b);
    let content: Vec<usize> = a.content.iter().map(|i| i.base().metadata.node.id()).collect();
    assert_eq!(content, vec![1, 3]);
    assert_eq!(a.floats.len(), 1);
    assert_eq!(a.outlines.len(), 1);
    assert!(b.content.is_empty() && b.floats.is_empty() && b.outlines.is_empty());
    assert_eq!(b.all_display_items().len(), 0);
}

#[test]
fn float_pseudo_stacking_context_merges_in_order() {
    let mut l = DisplayList::new();
    l.background_and_borders.push(solid(0, 0, 1, 1, 1, RED));
    l.block_backgrounds_and_borders.push(solid(0, 0, 1, 1, 2, RED));
    l.floats.push(solid(0, 0, 1, 1, 3, RED));
    l.content.push(solid(0, 0, 1, 1, 4, RED));
    l.content.push(solid(0, 0, 1, 1, 5, RED));
    l.outlines.push(solid(0, 0, 1, 1, 6, RED));
    l.form_float_pseudo_stacking_context();
    let floats: Vec<usize> = l.floats.iter().map(|i| i.base().metadata.node.id()).collect();
    assert_eq!(floats, vec![2, 4, 5, 6, 3]);
    assert!(l.content.is_empty() && l.outlines.is_empty());
    assert!(l.block_backgrounds_and_borders.is_empty());
    assert_eq!(l.background_and_borders.len(), 1);
}

#[test]
fn all_display_items_follows_bucket_order() {
    let mut l = DisplayList::new();
    l.outlines.push(solid(0, 0, 1, 1, 5, RED));
    l.content.push(solid(0, 0, 1, 1, 4, RED));
    l.background_and_borders.push(solid(0, 0, 1, 1, 1, RED));
    let ids: Vec<usize> =
        l.all_display_items().iter().map(|i| i.base().metadata.node.id()).collect();
    assert_eq!(ids, vec![1, 4, 5]);
}

#[test]
fn rounded_clip_has_no_false_negatives() {
    let region = ClippingRegion::max()
        .intersect_with_rounded_rect(&Rect::new(0, 0, 100, 100), &BorderRadii::all_same(20));
    // The centre is inside the rounded rectangle.
    assert!(region.might_intersect_point(&Point2D::new(50, 50)));
    // A point cut off by the rounded corner is still reported: a false positive is allowed.
    assert!(region.might_intersect_point(&Point2D::new(1, 1)));
    assert!(!region.might_intersect_point(&Point2D::new(150, 50)));
}

#[test]
fn disjoint_complex_regions_bound_by_union() {
    let a = Rect::new(0, 0, 10, 10);
    let b = Rect::new(20, 30, 5, 5);
    let region = ClippingRegion::empty()
        .intersect_with_rounded_rect(&a, &BorderRadii::all_same(2))
        .intersect_with_rounded_rect(&b, &BorderRadii::all_same(1));
    assert_eq!(region.bounding_rect(), Rect::new(0, 0, 25, 35));
    assert_eq!(region.bounding_rect(), a.union(&b));
    assert!(!region.might_intersect_point(&Point2D::new(15, 15)));
    assert!(!region.might_intersect_point(&Point2D::new(100, 100)));
}

#[test]
fn clip_intersect_and_translate() {
    let region = ClippingRegion::from_rect(&Rect::new(0, 0, 50, 50))
        .intersect_rect(&Rect::new(25, 25, 50, 50));
    assert_eq!(region.main, Rect::new(25, 25, 25, 25));
    assert!(region.might_be_nonempty());
    let gone = region.intersect_rect(&Rect::new(100, 100, 5, 5));
    assert_eq!(gone.main, Rect::zero());
    assert!(!gone.might_be_nonempty());
    let moved = ClippingRegion::from_rect(&Rect::new(0, 0, 10, 10))
        .intersect_with_rounded_rect(&Rect::new(1, 1, 5, 5), &BorderRadii::all_same(0))
        .translate(&Point2D::new(3, -2));
    assert_eq!(moved.main, Rect::new(3, -2, 10, 10));
    assert_eq!(moved.complex[0].rect, Rect::new(4, -1, 5, 5));
    assert!(moved.might_intersect_rect(&Rect::new(5, 0, 2, 2)));
    assert!(!moved.might_intersect_rect(&Rect::new(9, 0, 2, 2)));
    assert!(moved == moved.clone());
    assert!(moved != ClippingRegion::from_rect(&Rect::new(3, -2, 10, 10)));
}

#[test]
fn rect_operations() {
    let a = Rect::new(0, 0, 10, 10);
    let b = Rect::new(5, 5, 10, 10);
    assert_eq!(a.intersection(&b), Some(Rect::new(5, 5, 5, 5)));
    assert_eq!(a.intersection(&Rect::new(10, 0, 5, 5)), None);
    assert_eq!(a.union(&b), Rect::new(0, 0, 15, 15));
    assert_eq!(Rect::zero().union(&b), b);
    assert!(a.contains_point(&Point2D::new(0, 9)));
    assert!(!a.contains_point(&Point2D::new(10, 0)));
    assert_eq!(a.translate(&Point2D::new(-3, 4)), Rect::new(-3, 4, 10, 10));
    assert!(Rect::new(1, 1, 0, 5).is_empty());
    assert_eq!(Size2D::new(3, 4).width, 3);
}

#[test]
fn nearest_pixel_rounding() {
    assert_eq!(to_nearest_px(0), 0);
    assert_eq!(to_nearest_px(29), 0);
    assert_eq!(to_nearest_px(30), 1);
    assert_eq!(to_nearest_px(600), 10);
    assert_eq!(to_nearest_px(-30), -1);
    assert_eq!(to_nearest_px(-29), 0);
}

#[test]
fn paint_example_scene_draws_background_then_child() {
    let root = red_scene();
    let mut out = Vec::new();
    root.optimize_and_draw_into_context(&Rect::new(0, 0, 100, 100), None, &mut out);
    assert_eq!(out.len(), 8);
    assert!(matches!(out[0], PaintCommand::BeginContext { isolate: false, .. }));
    assert!(matches!(out[1], PaintCommand::PushTransientClip(_)));
    match &out[2] {
        PaintCommand::DrawSolidColor { bounds, color } => {
            assert_eq!(*bounds, Rect::new(0, 0, 100, 100));
            assert_eq!(*color, RED);
        }
        _ => panic!("expected the red fill"),
    }
    match &out[3] {
        PaintCommand::BeginContext { tile_bounds, offset_px, clip_rect, .. } => {
            assert_eq!(*tile_bounds, Rect::new(0, 0, 50, 50));
            assert_eq!(*offset_px, Point2D::new(0, 0));
            assert_eq!(*clip_rect, Some(Rect::new(0, 0, 50, 50)));
        }
        _ => panic!("expected the child"),
    }
    assert!(matches!(out[4], PaintCommand::PushTransientClip(_)));
    assert!(matches!(out[5], PaintCommand::DrawSolidColor { color: Color { b: 255, .. }, .. }));
    assert!(matches!(out[6], PaintCommand::EndContext { .. }));
    assert!(matches!(out[7], PaintCommand::EndContext { .. }));
}

#[test]
fn hit_example_scene_finds_child_first() {
    let root = red_scene();
    let mut result = Vec::new();
    root.hit_test(Point2D::new(20, 20), &mut result, true);
    assert_eq!(nodes(&result), vec![2]);
    let mut all = Vec::new();
    root.hit_test(Point2D::new(20, 20), &mut all, false);
    assert_eq!(nodes(&all), vec![2, 1]);
    let mut outside_child = Vec::new();
    root.hit_test(Point2D::new(80, 80), &mut outside_child, false);
    assert_eq!(nodes(&outside_child), vec![1]);
}

#[test]
fn paint_order_follows_css_steps() {
    let mut list = DisplayList::new();
    list.outlines.push(solid(0, 0, 10, 10, 7, RED));
    list.content.push(solid(0, 0, 10, 10, 5, RED));
    list.floats.push(solid(0, 0, 10, 10, 4, RED));
    list.block_backgrounds_and_borders.push(solid(0, 0, 10, 10, 3, RED));
    list.background_and_borders.push(solid(0, 0, 10, 10, 1, RED));
    for (z, node) in [(3, 63), (-1, 21), (0, 60), (-2, 20), (0, 61)] {
        let mut kid_list = DisplayList::new();
        kid_list.content.push(solid(0, 0, 10, 10, node, RED));
        list.children.push(Arc::new(context(kid_list, Rect::new(0, 0, 10, 10), z)));
    }
    let root = context(list, Rect::new(0, 0, 10, 10), 0);
    let mut out = Vec::new();
    root.optimize_and_draw_into_context(&Rect::new(0, 0, 10, 10), None, &mut out);
    let mut painted = Vec::new();
    let mut fills = 0;
    for cmd in out.iter() {
        if let PaintCommand::DrawSolidColor { .. } = cmd {
            fills += 1;
        }
        if let PaintCommand::BeginContext { context, .. } = cmd {
            painted.push(context.z_index);
        }
    }
    assert_eq!(fills, 10);
    assert_eq!(painted, vec![0, -2, -1, 0, 0, 3]);

    let mut hits = Vec::new();
    root.hit_test(Point2D::new(5, 5), &mut hits, false);
    assert_eq!(nodes(&hits), vec![7, 63, 61, 60, 5, 4, 3, 21, 20, 1]);
    let mut top = Vec::new();
    root.hit_test(Point2D::new(5, 5), &mut top, true);
    assert_eq!(nodes(&top), vec![7]);
}

#[test]
fn hit_order_is_reverse_of_paint_order_for_sorted_children() {
    let mut list = DisplayList::new();
    list.background_and_borders.push(solid(0, 0, 10, 10, 1, RED));
    list.content.push(solid(0, 0, 10, 10, 5, RED));
    for (z, node) in [(-1, 20), (2, 60), (4, 61)] {
        let mut kid_list = DisplayList::new();
        kid_list.content.push(solid(0, 0, 10, 10, node, RED));
        list.children.push(Arc::new(context(kid_list, Rect::new(0, 0, 10, 10), z)));
    }
    let root = context(list, Rect::new(0, 0, 10, 10), 0);
    let mut hits = Vec::new();
    root.hit_test(Point2D::new(1, 1), &mut hits, false);
    let mut painted = vec![1, 20, 5, 60, 61];
    painted.reverse();
    assert_eq!(nodes(&hits), painted);
}

#[test]
fn border_hole_is_not_hit() {
    let mut list = DisplayList::new();
    list.content.push(border(0, 0, 100, 100, 10, 9));
    let root = context(list, Rect::new(0, 0, 100, 100), 0);
    let mut inside = Vec::new();
    root.hit_test(Point2D::new(50, 50), &mut inside, false);
    assert!(inside.is_empty());
    let mut frame = Vec::new();
    root.hit_test(Point2D::new(5, 50), &mut frame, true);
    assert_eq!(nodes(&frame), vec![9]);
    let mut edge = Vec::new();
    root.hit_test(Point2D::new(95, 95), &mut edge, false);
    assert_eq!(nodes(&edge), vec![9]);
}

#[test]
fn items_without_pointer_events_are_never_hit() {
    let mut list = DisplayList::new();
    list.content.push(solid(0, 0, 100, 100, 1, RED));
    let none = DisplayItemMetadata::new(
        OpaqueNode(2),
        PointerEvents::Disabled,
        CursorValue::SpecifiedCursor(Cursor::PointerCursor),
        Cursor::DefaultCursor,
    );
    assert_eq!(none.pointing, None);
    list.content.push(DisplayItem::SolidColorClass(Box::new(SolidColorDisplayItem {
        base: BaseDisplayItem::new(Rect::new(0, 0, 100, 100), none, ClippingRegion::max()),
        color: RED,
    })));
    let root = context(list, Rect::new(0, 0, 100, 100), 0);
    let mut top = Vec::new();
    root.hit_test(Point2D::new(10, 10), &mut top, true);
    assert_eq!(nodes(&top), vec![1]);
    let mut all = Vec::new();
    root.hit_test(Point2D::new(10, 10), &mut all, false);
    assert_eq!(nodes(&all), vec![1]);
}

#[test]
fn metadata_cursor_selection() {
    let auto = DisplayItemMetadata::new(
        OpaqueNode(1),
        PointerEvents::Auto,
        CursorValue::AutoCursor,
        Cursor::TextCursor,
    );
    assert_eq!(auto.pointing, Some(Cursor::TextCursor));
    let given = DisplayItemMetadata::new(
        OpaqueNode(1),
        PointerEvents::Auto,
        CursorValue::SpecifiedCursor(Cursor::WaitCursor),
        Cursor::TextCursor,
    );
    assert_eq!(given.pointing, Some(Cursor::WaitCursor));
    assert_eq!(given.node.id(), 1);
}

#[test]
fn clipped_items_are_not_hit() {
    let mut list = DisplayList::new();
    list.content.push(DisplayItem::SolidColorClass(Box::new(SolidColorDisplayItem {
        base: BaseDisplayItem::new(
            Rect::new(0, 0, 100, 100),
            meta(3),
            ClippingRegion::from_rect(&Rect::new(0, 0, 10, 10)),
        ),
        color: RED,
    })));
    let root = context(list, Rect::new(0, 0, 100, 100), 0);
    let mut out = Vec::new();
    root.hit_test(Point2D::new(50, 50), &mut out, false);
    assert!(out.is_empty());
    root.hit_test(Point2D::new(5, 5), &mut out, false);
    assert_eq!(nodes(&out), vec![3]);
}

#[test]
fn hit_test_uses_context_origin_and_transform() {
    let mut list = DisplayList::new();
    list.content.push(solid(0, 0, 10, 10, 4, RED));
    let bounds = Rect::new(100, 100, 10, 10);
    let mut ctx = context(list, bounds, 0);
    let mut out = Vec::new();
    ctx.hit_test(Point2D::new(105, 105), &mut out, false);
    assert_eq!(nodes(&out), vec![4]);
    ctx.transform = Transform2D { m11: 131072, m12: 0, m21: 0, m22: 131072, m31: 0, m32: 0 };
    let mut scaled = Vec::new();
    ctx.hit_test(Point2D::new(105, 105), &mut scaled, false);
    assert!(scaled.is_empty());
    let mut near = Vec::new();
    ctx.hit_test(Point2D::new(104, 104), &mut near, false);
    assert_eq!(nodes(&near), vec![4]);
    assert_eq!(Transform2D::identity().transform_point(-7, 9), Point2D::new(-7, 9));
    let shift = Transform2D { m11: 65536, m12: 0, m21: 0, m22: 32768, m31: 5, m32: -1 };
    assert_eq!(shift.transform_point(3, -7), Point2D::new(8, -4));
}

#[test]
fn transparent_fill_is_skipped_and_clip_pushes_are_batched() {
    let mut list = DisplayList::new();
    list.content.push(solid(0, 0, 10, 10, 1, CLEAR));
    list.content.push(solid(0, 0, 10, 10, 2, RED));
    let root = context(list, Rect::new(0, 0, 10, 10), 0);
    let mut out = Vec::new();
    root.optimize_and_draw_into_context(&Rect::new(0, 0, 10, 10), None, &mut out);
    assert_eq!(out.len(), 4);
    assert!(matches!(out[1], PaintCommand::PushTransientClip(_)));
    assert!(matches!(out[2], PaintCommand::DrawSolidColor { color: RED, .. }));
}

#[test]
fn optimizer_drops_items_and_children_outside_tile() {
    let mut list = DisplayList::new();
    list.content.push(solid(0, 0, 10, 10, 1, RED));
    list.content.push(solid(200, 200, 10, 10, 2, RED));
    let mut far = DisplayList::new();
    far.content.push(solid(0, 0, 10, 10, 3, RED));
    list.children.push(Arc::new(context(far, Rect::new(500, 500, 10, 10), 1)));
    let root = context(list, Rect::new(0, 0, 1000, 1000), 0);
    let mut out = Vec::new();
    root.optimize_and_draw_into_context(&Rect::new(0, 0, 100, 100), None, &mut out);
    assert_eq!(out.len(), 4);
}

#[test]
fn image_is_tiled_over_its_bounds() {
    let mut list = DisplayList::new();
    list.content.push(DisplayItem::ImageClass(Box::new(ImageDisplayItem {
        base: base(10, 20, 100, 50, 1),
        image: ImageHandle(7),
        stretch_size: Size2D::new(40, 40),
        image_rendering: ImageRendering::Auto,
    })));
    let root = context(list, Rect::new(0, 0, 200, 200), 0);
    let mut out = Vec::new();
    root.optimize_and_draw_into_context(&Rect::new(0, 0, 200, 200), None, &mut out);
    let tiles: Vec<Rect> = out
        .iter()
        .filter_map(|c| match c {
            PaintCommand::DrawImage { bounds, .. } => Some(*bounds),
            _ => None,
        })
        .collect();
    assert_eq!(
        tiles,
        vec![
            Rect::new(10, 20, 40, 40),
            Rect::new(50, 20, 40, 40),
            Rect::new(90, 20, 40, 40),
            Rect::new(10, 60, 40, 40),
            Rect::new(50, 60, 40, 40),
            Rect::new(90, 60, 40, 40),
        ]
    );
}

#[test]
fn child_tile_rect_in_child_coordinates() {
    let child = context(DisplayList::new(), Rect::new(30, 40, 50, 50), 0);
    let parent = context(DisplayList::new(), Rect::new(0, 0, 100, 100), 0);
    let tile = parent.compute_tile_rect_for_child_stacking_context(&Rect::new(0, 0, 64, 64), &child);
    assert_eq!(tile, Rect::new(0, 0, 34, 24));
    let miss = parent.compute_tile_rect_for_child_stacking_context(&Rect::new(0, 0, 10, 10), &child);
    assert_eq!(miss, Rect::new(-30, -40, 0, 0));
}

#[test]
fn layer_lookup_is_preorder() {
    let mut inner_list = DisplayList::new();
    let mut deep = context(DisplayList::new(), Rect::new(0, 0, 1, 1), 0);
    deep.layer = Some(LayerId(7, 0));
    deep.z_index = 11;
    inner_list.children.push(Arc::new(deep));
    let mut middle = context(inner_list, Rect::new(0, 0, 1, 1), 0);
    middle.z_index = 12;
    let mut second = context(DisplayList::new(), Rect::new(0, 0, 1, 1), 13);
    second.layer = Some(LayerId(7, 0));
    let mut root_list = DisplayList::new();
    root_list.children.push(Arc::new(middle));
    root_list.children.push(Arc::new(second));
    let root = Arc::new(context(root_list, Rect::new(0, 0, 1, 1), 0));
    let found = find_stacking_context_with_layer_id(&root, LayerId(7, 0));
    assert_eq!(found.map(|c| c.z_index), Some(11));
    assert!(find_stacking_context_with_layer_id(&root, LayerId(8, 0)).is_none());
}

#[test]
fn layered_children_and_filters() {
    let mut list = DisplayList::new();
    let mut layered = context(DisplayList::new(), Rect::new(0, 0, 10, 10), 1);
    layered.layer = Some(LayerId(1, 0));
    list.children.push(Arc::new(layered));
    let mut root = context(list, Rect::new(0, 0, 10, 10), 0);
    root.filters = vec![Filter::Opacity(500)];
    let mut out = Vec::new();
    root.optimize_and_draw_into_context(&Rect::new(0, 0, 10, 10), Some(&Rect::new(0, 0, 5, 5)), &mut out);
    assert_eq!(out.len(), 2);
    assert!(matches!(out[0], PaintCommand::BeginContext { isolate: true, clip_rect: Some(_), .. }));
}

#[test]
fn border_radii_helpers() {
    let r = BorderRadii::all_same(4);
    assert_eq!(r.top_left, 4);
    assert_eq!(r.bottom_left, 4);
    assert!(!r.is_square());
    assert!(BorderRadii::all_same(0).is_square());
}

#[test]
fn mut_base_changes_only_the_base() {
    let mut item = solid(0, 0, 10, 10, 1, RED);
    item.mut_base().bounds = Rect::new(5, 5, 1, 1);
    assert_eq!(item.bounds(), Rect::new(5, 5, 1, 1));
    match &item {
        DisplayItem::SolidColorClass(s) => assert_eq!(s.color, RED),
        _ => panic!("kind changed"),
    }
}

#[test]
fn hit_test_follows_z_order_not_list_order() {
    let mut list = DisplayList::new();
    for (z, node) in [(5, 50), (1, 10)] {
        let mut kid_list = DisplayList::new();
        kid_list.content.push(solid(0, 0, 10, 10, node, RED));
        list.children.push(Arc::new(context(kid_list, Rect::new(0, 0, 10, 10), z)));
    }
    let root = context(list, Rect::new(0, 0, 10, 10), 0);
    let mut top = Vec::new();
    root.hit_test(Point2D::new(1, 1), &mut top, true);
    assert_eq!(nodes(&top), vec![50]);
    let mut all = Vec::new();
    root.hit_test(Point2D::new(1, 1), &mut all, false);
    assert_eq!(nodes(&all), vec![50, 10]);
    let mut out = Vec::new();
    root.optimize_and_draw_into_context(&Rect::new(0, 0, 10, 10), None, &mut out);
    let painted: Vec<i32> = out
        .iter()
        .filter_map(|c| match c {
            PaintCommand::BeginContext { context, .. } => Some(context.z_index),
            _ => None,
        })
        .collect();
    assert_eq!(painted, vec![0, 1, 5]);
}

#[test]
fn identity_filters_need_no_isolation() {
    let mut root = context(DisplayList::new(), Rect::new(0, 0, 10, 10), 0);
    root.filters = vec![Filter::Opacity(1000), Filter::Blur(0)];
    let mut out = Vec::new();
    root.optimize_and_draw_into_context(&Rect::new(0, 0, 10, 10), None, &mut out);
    assert!(matches!(out[0], PaintCommand::BeginContext { isolate: false, .. }));
    root.blend_mode = BlendMode::Multiply;
    let mut blended = Vec::new();
    root.optimize_and_draw_into_context(&Rect::new(0, 0, 10, 10), None, &mut blended);
    assert!(matches!(blended[0], PaintCommand::BeginContext { isolate: true, .. }));
}

#[test]
fn far_points_transform_without_overflow() {
    let t = Transform2D { m11: 65536, m12: 0, m21: 0, m22: 65536, m31: 0, m32: 0 };
    assert_eq!(t.transform_point(i64::MAX, i64::MIN), Point2D::new(i32::MAX, i32::MIN));
    assert_eq!(t.transform_point(1 << 33, -(1 << 33)), Point2D::new(i32::MAX, i32::MIN));
}
