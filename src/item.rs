//! Display items: the primitive drawing instructions and their shared metadata.
use vstd::prelude::*;
use crate::clip::{BorderRadii, ClippingRegion};
use crate::geometry::{Point2D, Rect, SideOffsets2D, Size2D};

verus! {

/// A handle to the node that a display item came from; it is only ever compared.
#[derive(Clone, Copy, PartialEq, Eq, Debug, Structural)]
pub struct OpaqueNode(pub usize);

impl OpaqueNode {
    /// The address of the node, for debugging.
    pub fn id(&self) -> (r: usize)
        ensures
            r == self.0,
    {
        self.0
    }
}

/// The mouse cursors of CSS.
#[derive(Clone, Copy, PartialEq, Eq, Debug, Structural)]
pub enum Cursor {
    NoCursor,
    DefaultCursor,
    PointerCursor,
    ContextMenuCursor,
    HelpCursor,
    ProgressCursor,
    WaitCursor,
    CellCursor,
    CrosshairCursor,
    TextCursor,
    VerticalTextCursor,
    AliasCursor,
    CopyCursor,
    MoveCursor,
    NoDropCursor,
    NotAllowedCursor,
    GrabCursor,
    GrabbingCursor,
    EResizeCursor,
    NResizeCursor,
    NeResizeCursor,
    NwResizeCursor,
    SResizeCursor,
    SeResizeCursor,
    SwResizeCursor,
    WResizeCursor,
    EwResizeCursor,
    NsResizeCursor,
    NeswResizeCursor,
    NwseResizeCursor,
    ColResizeCursor,
    RowResizeCursor,
    AllScrollCursor,
    ZoomInCursor,
    ZoomOutCursor,
}

/// The computed value of the `pointer-events` property.
#[derive(Clone, Copy, PartialEq, Eq, Debug, Structural)]
pub enum PointerEvents {
    Auto,
    /// `pointer-events: none`.
    Disabled,
}

/// The computed value of the `cursor` property.
#[derive(Clone, Copy, PartialEq, Eq, Debug, Structural)]
pub enum CursorValue {
    AutoCursor,
    SpecifiedCursor(Cursor),
}

/// What a display item tells hit testing: the node it came from and the cursor to show.
#[derive(Clone, Copy, PartialEq, Eq, Debug, Structural)]
pub struct DisplayItemMetadata {
    /// The node from which this display item originated.
    pub node: OpaqueNode,
    /// The cursor shown over this item; `None` when the item takes no pointer events.
    pub pointing: Option<Cursor>,
}

pub open spec fn pointing_of(
    pointer_events: PointerEvents,
    cursor: CursorValue,
    default_cursor: Cursor,
) -> Option<Cursor> {
    match (pointer_events, cursor) {
        (PointerEvents::Disabled, _) => None,
        (PointerEvents::Auto, CursorValue::AutoCursor) => Some(default_cursor),
        (PointerEvents::Auto, CursorValue::SpecifiedCursor(c)) => Some(c),
    }
}

impl DisplayItemMetadata {
    /// Metadata for an item of `node`, whose style has the given `pointer-events` and `cursor`;
    /// `default_cursor` stands in for `cursor: auto`.
    pub fn new(
        node: OpaqueNode,
        pointer_events: PointerEvents,
        cursor: CursorValue,
        default_cursor: Cursor,
    ) -> (r: DisplayItemMetadata)
        ensures
            r.node == node,
            r.pointing == pointing_of(pointer_events, cursor, default_cursor),
    {
        let pointing = match (pointer_events, cursor) {
            (PointerEvents::Disabled, _) => None,
            (PointerEvents::Auto, CursorValue::AutoCursor) => Some(default_cursor),
            (PointerEvents::Auto, CursorValue::SpecifiedCursor(c)) => Some(c),
        };
        DisplayItemMetadata { node, pointing }
    }
}

/// A colour, eight bits per channel; `a == 0` is fully transparent.
#[derive(Clone, Copy, PartialEq, Eq, Debug, Structural)]
pub struct Color {
    pub r: u8,
    pub g: u8,
    pub b: u8,
    pub a: u8,
}

/// The border and line styles of CSS.
#[derive(Clone, Copy, PartialEq, Eq, Debug, Structural)]
pub enum BorderStyle {
    /// `none`.
    NoStyle,
    Solid,
    Double,
    Dotted,
    Dashed,
    Hidden,
    Groove,
    Ridge,
    Inset,
    Outset,
}

/// The `image-rendering` property.
#[derive(Clone, Copy, PartialEq, Eq, Debug, Structural)]
pub enum ImageRendering {
    Auto,
    CrispEdges,
    Pixelated,
}

/// A handle to a shaped text run, owned by the caller.
#[derive(Clone, Copy, PartialEq, Eq, Debug, Structural)]
pub struct TextRunHandle(pub usize);

/// A handle to a decoded image, owned by the caller.
#[derive(Clone, Copy, PartialEq, Eq, Debug, Structural)]
pub struct ImageHandle(pub usize);

/// A range of characters within a text run.
#[derive(Clone, Copy, PartialEq, Eq, Debug, Structural)]
pub struct CharRange {
    pub begin: isize,
    pub length: isize,
}

/// A colour stop of a gradient: `offset` runs from 0 (start) to 65536 (end).
#[derive(Clone, Copy, PartialEq, Eq, Debug, Structural)]
pub struct GradientStop {
    pub offset: u32,
    pub color: Color,
}

/// Information common to all display items.
#[derive(Clone, Debug)]
pub struct BaseDisplayItem {
    /// The boundaries of the display item, in the coordinates of its stacking context.
    pub bounds: Rect,
    /// Metadata attached to this display item.
    pub metadata: DisplayItemMetadata,
    /// The region to clip to.
    pub clip: ClippingRegion,
}

impl BaseDisplayItem {
    pub fn new(bounds: Rect, metadata: DisplayItemMetadata, clip: ClippingRegion) -> (r:
        BaseDisplayItem)
        ensures
            r.bounds == bounds,
            r.metadata == metadata,
            r.clip == clip,
    {
        BaseDisplayItem { bounds, metadata, clip }
    }
}

/// Paints a solid colour.
#[derive(Clone, Debug)]
pub struct SolidColorDisplayItem {
    pub base: BaseDisplayItem,
    pub color: Color,
}

/// Paints text.
#[derive(Clone, Debug)]
pub struct TextDisplayItem {
    pub base: BaseDisplayItem,
    /// The text run.
    pub text_run: TextRunHandle,
    /// The range of text within the text run.
    pub range: CharRange,
    /// The colour of the text.
    pub text_color: Color,
    /// The position of the start of the baseline of this text.
    pub baseline_origin: Point2D,
    /// Upright or sideways.
    pub orientation: TextOrientation,
    /// The blur radius; zero for sharp text.
    pub blur_radius: i32,
}

#[derive(Clone, Copy, PartialEq, Eq, Debug, Structural)]
pub enum TextOrientation {
    Upright,
    SidewaysLeft,
    SidewaysRight,
}

/// Paints an image, repeated to cover the bounds.
#[derive(Clone, Debug)]
pub struct ImageDisplayItem {
    pub base: BaseDisplayItem,
    pub image: ImageHandle,
    /// The size of one copy of the image; copies are laid side by side to cover the bounds.
    pub stretch_size: Size2D,
    /// How the image is scaled.
    pub image_rendering: ImageRendering,
}

/// Paints a linear gradient.
#[derive(Clone, Debug)]
pub struct GradientDisplayItem {
    pub base: BaseDisplayItem,
    pub start_point: Point2D,
    pub end_point: Point2D,
    pub stops: Vec<GradientStop>,
}

/// Paints a border.
#[derive(Clone, Debug)]
pub struct BorderDisplayItem {
    pub base: BaseDisplayItem,
    /// Border widths.
    pub border_widths: SideOffsets2D<i32>,
    /// Border colours.
    pub color: SideOffsets2D<Color>,
    /// Border styles.
    pub style: SideOffsets2D<BorderStyle>,
    /// Border radii.
    pub radius: BorderRadii<i32>,
}

/// Paints a line segment.
#[derive(Clone, Debug)]
pub struct LineDisplayItem {
    pub base: BaseDisplayItem,
    pub color: Color,
    pub style: BorderStyle,
}

/// Paints a box shadow.
#[derive(Clone, Debug)]
pub struct BoxShadowDisplayItem {
    pub base: BaseDisplayItem,
    /// The box that the shadow is placed around.
    pub box_bounds: Rect,
    /// The offset of the shadow from the box.
    pub offset: Point2D,
    pub color: Color,
    pub blur_radius: i32,
    pub spread_radius: i32,
    pub clip_mode: BoxShadowClipMode,
}

/// How a box shadow is clipped.
#[derive(Clone, Copy, PartialEq, Eq, Debug, Structural)]
pub enum BoxShadowClipMode {
    /// No clipping: used for shadows of text decorations.
    Unclipped,
    /// The area inside the box is clipped out: the usual `box-shadow`.
    Outset,
    /// The area outside the box is clipped out: `box-shadow: inset`.
    Inset,
}

/// One drawing instruction.
#[derive(Clone, Debug)]
pub enum DisplayItem {
    SolidColorClass(Box<SolidColorDisplayItem>),
    TextClass(Box<TextDisplayItem>),
    ImageClass(Box<ImageDisplayItem>),
    BorderClass(Box<BorderDisplayItem>),
    GradientClass(Box<GradientDisplayItem>),
    LineClass(Box<LineDisplayItem>),
    BoxShadowClass(Box<BoxShadowDisplayItem>),
}

/// The record that every kind of item carries.
pub open spec fn base_of(item: DisplayItem) -> BaseDisplayItem {
    match item {
        DisplayItem::SolidColorClass(i) => i.base,
        DisplayItem::TextClass(i) => i.base,
        DisplayItem::ImageClass(i) => i.base,
        DisplayItem::BorderClass(i) => i.base,
        DisplayItem::GradientClass(i) => i.base,
        DisplayItem::LineClass(i) => i.base,
        DisplayItem::BoxShadowClass(i) => i.base,
    }
}

/// The two items are of the same kind and agree on everything but their base records.
pub open spec fn same_but_base(a: DisplayItem, b: DisplayItem) -> bool {
    match (a, b) {
        (DisplayItem::SolidColorClass(x), DisplayItem::SolidColorClass(y)) => x.color == y.color,
        (DisplayItem::TextClass(x), DisplayItem::TextClass(y)) => x.text_run == y.text_run
            && x.range == y.range && x.text_color == y.text_color && x.baseline_origin
            == y.baseline_origin && x.orientation == y.orientation && x.blur_radius
            == y.blur_radius,
        (DisplayItem::ImageClass(x), DisplayItem::ImageClass(y)) => x.image == y.image
            && x.stretch_size == y.stretch_size && x.image_rendering == y.image_rendering,
        (DisplayItem::BorderClass(x), DisplayItem::BorderClass(y)) => x.border_widths
            == y.border_widths && x.color == y.color && x.style == y.style && x.radius == y.radius,
        (DisplayItem::GradientClass(x), DisplayItem::GradientClass(y)) => x.start_point
            == y.start_point && x.end_point == y.end_point && x.stops@ == y.stops@,
        (DisplayItem::LineClass(x), DisplayItem::LineClass(y)) => x.color == y.color && x.style
            == y.style,
        (DisplayItem::BoxShadowClass(x), DisplayItem::BoxShadowClass(y)) => x.box_bounds
            == y.box_bounds && x.offset == y.offset && x.color == y.color && x.blur_radius
            == y.blur_radius && x.spread_radius == y.spread_radius && x.clip_mode == y.clip_mode,
        _ => false,
    }
}

impl DisplayItem {
    /// The record common to all kinds of item, for changing it in place; the rest of the item
    /// stays as it was.
    pub fn mut_base(&mut self) -> (r: &mut BaseDisplayItem)
        ensures
            *r == base_of(*old(self)),
            base_of(*final(self)) == *final(r),
            same_but_base(*old(self), *final(self)),
    {
        match self {
            DisplayItem::SolidColorClass(i) => &mut i.base,
            DisplayItem::TextClass(i) => &mut i.base,
            DisplayItem::ImageClass(i) => &mut i.base,
            DisplayItem::BorderClass(i) => &mut i.base,
            DisplayItem::GradientClass(i) => &mut i.base,
            DisplayItem::LineClass(i) => &mut i.base,
            DisplayItem::BoxShadowClass(i) => &mut i.base,
        }
    }

    /// The record common to all kinds of item.
    pub fn base(&self) -> (r: &BaseDisplayItem)
        ensures
            *r == base_of(*self),
    {
        match self {
            DisplayItem::SolidColorClass(i) => &i.base,
            DisplayItem::TextClass(i) => &i.base,
            DisplayItem::ImageClass(i) => &i.base,
            DisplayItem::BorderClass(i) => &i.base,
            DisplayItem::GradientClass(i) => &i.base,
            DisplayItem::LineClass(i) => &i.base,
            DisplayItem::BoxShadowClass(i) => &i.base,
        }
    }

    /// The bounds of the item.
    pub fn bounds(&self) -> (r: Rect)
        ensures
            r == base_of(*self).bounds,
    {
        self.base().bounds
    }
}

} // verus!
