//! The primitives one published frame carries, and the rectangles they occupy.
//!
//! Every field that is a real number is held as its IEEE-754 single bit
//! pattern. [`Rect`] is where such numbers are added and compared: its edges are
//! exact.

use crate::pattern::{is_nan, nan};
use crate::wide::{
    beyond, group_wide, held, law_values_follow_their_patterns, lemma_value_reach, value, wide, Wide,
    UNIT_EXPONENT,
};
use vstd::arithmetic::power2::pow2;
use vstd::prelude::*;

verus! {

broadcast use group_wide;

/// The far plane, the depth a primitive without one is drawn at.
pub const DRAW_DEPTH_CLEAR: u32 = 0x3f80_0000;

/// The gradient kind of a primitive that has none.
pub const GRADIENT_NONE: u32 = 0xffff_ffff;

/// The group mode of a canvas shape that heads no group.
pub const GROUP_NONE: u32 = 0;

/// Forces the full-cost blur tier.
pub const BLUR_QUALITY_HIGH: u32 = 1;

/// Forces the cheap blur tier.
pub const BLUR_QUALITY_LOW: u32 = 2;

/// The real number one.
pub const ONE: u32 = 0x3f80_0000;

/// The smaller of two integers.
pub open spec fn min_int(a: int, b: int) -> int {
    if a <= b {
        a
    } else {
        b
    }
}

/// The larger of two integers.
pub open spec fn max_int(a: int, b: int) -> int {
    if a >= b {
        a
    } else {
        b
    }
}

/// An axis-aligned region between four edges.
#[derive(Clone, Copy, Debug, PartialEq, Eq, Structural)]
pub struct Rect {
    /// Left edge.
    pub left: Wide,
    /// Top edge.
    pub top: Wide,
    /// Right edge.
    pub right: Wide,
    /// Bottom edge.
    pub bottom: Wide,
}

/// The lesser of two edges.
pub open spec fn lesser_of(a: Wide, b: Wide) -> Wide {
    if a@ <= b@ {
        a
    } else {
        b
    }
}

/// The greater of two edges.
pub open spec fn greater_of(a: Wide, b: Wide) -> Wide {
    if a@ >= b@ {
        a
    } else {
        b
    }
}

/// The smallest rectangle that covers two.
pub open spec fn union_of(a: Rect, b: Rect) -> Rect {
    Rect {
        left: lesser_of(a.left, b.left),
        top: lesser_of(a.top, b.top),
        right: greater_of(a.right, b.right),
        bottom: greater_of(a.bottom, b.bottom),
    }
}

/// Whether `outer` reaches at least as far as `inner` on every side.
pub open spec fn covers(outer: Rect, inner: Rect) -> bool {
    &&& outer.left@ <= inner.left@
    &&& outer.top@ <= inner.top@
    &&& outer.right@ >= inner.right@
    &&& outer.bottom@ >= inner.bottom@
}

/// The edge that lies `extent` past the coordinate `at`. Where either is not a
/// number, there is no such edge: it then lies before everything, so that the
/// rectangle is empty.
pub open spec fn past(at: u32, extent: int, known: bool) -> Wide {
    if known && !is_nan(at) {
        wide(held(value(at) + extent))
    } else {
        wide(-beyond())
    }
}

/// The rectangle of a paint rect `[x, y, width, height]`.
pub open spec fn rect_spec(r: [u32; 4]) -> Rect {
    Rect {
        left: wide(value(r[0])),
        top: wide(value(r[1])),
        right: past(r[0], value(r[2]), !is_nan(r[2])),
        bottom: past(r[1], value(r[3]), !is_nan(r[3])),
    }
}

/// The edge that lies `extent` past the coordinate `at`.
pub fn edge_past(at: u32, extent: Wide, known: bool) -> (w: Wide)
    ensures
        w == past(at, extent@, known),
{
    if known && !nan(at) {
        Wide::of(at).plus(extent)
    } else {
        Wide::past_all().negated()
    }
}

impl Rect {
    /// The rectangle at `(x, y)` with the given extent.
    pub fn new(x: u32, y: u32, width: u32, height: u32) -> (r: Rect)
        ensures
            r == rect_spec([x, y, width, height]),
    {
        Rect {
            left: Wide::of(x),
            top: Wide::of(y),
            right: edge_past(x, Wide::of(width), !nan(width)),
            bottom: edge_past(y, Wide::of(height), !nan(height)),
        }
    }

    /// The smallest rectangle that covers this one and `other`.
    pub fn union(&self, other: &Rect) -> (r: Rect)
        ensures
            r == union_of(*self, *other),
    {
        Rect {
            left: self.left.lesser(other.left),
            top: self.top.lesser(other.top),
            right: self.right.greater(other.right),
            bottom: self.bottom.greater(other.bottom),
        }
    }
}

/// A primitive's paint rect `[x, y, width, height]` as a [`Rect`].
pub fn rect_of(rect: [u32; 4]) -> (r: Rect)
    ensures
        r == rect_spec(rect),
{
    Rect::new(rect[0], rect[1], rect[2], rect[3])
}

/// A paint-time transform.
#[derive(Clone, Copy, Debug, PartialEq, Eq)]
pub struct Transform {
    /// Translation.
    pub translate: [u32; 2],
    /// Per-axis scale.
    pub scale: [u32; 2],
    /// Rotation in radians.
    pub rotate: u32,
    /// Pivot.
    pub origin: [u32; 2],
    /// Opacity.
    pub opacity: u32,
}

/// The transform that moves nothing.
pub open spec fn identity_spec() -> Transform {
    Transform { translate: [0, 0], scale: [ONE, ONE], rotate: 0, origin: [0, 0], opacity: ONE }
}

impl Transform {
    /// The transform that moves nothing.
    pub fn identity() -> (t: Transform)
        ensures
            t == identity_spec(),
    {
        Transform { translate: [0, 0], scale: [ONE, ONE], rotate: 0, origin: [0, 0], opacity: ONE }
    }
}

/// A solid, optionally rounded rectangle.
#[derive(Clone, Copy, Debug, PartialEq, Eq)]
pub struct BoxInstance {
    /// `[x, y, width, height]`.
    pub rect: [u32; 4],
    /// Fill colour.
    pub color: [u32; 4],
    /// Corner radii, top-left first, clockwise.
    pub radii: [u32; 4],
    /// Paint-time transform.
    pub transform: Transform,
    /// Corner smoothing.
    pub smooth: u32,
}

/// A colour ramp. `axis` holds the four control numbers of its kind.
#[derive(Clone, Copy, Debug, PartialEq, Eq)]
pub struct Gradient {
    /// Which shape the ramp paints.
    pub kind: u32,
    /// Start colour.
    pub from: [u32; 4],
    /// Middle colour.
    pub mid: [u32; 4],
    /// End colour.
    pub to: [u32; 4],
    /// Control numbers.
    pub axis: [u32; 4],
}

/// A rectangle with a border, a drop shadow, a gradient or translucency.
#[derive(Clone, Copy, Debug, PartialEq, Eq)]
pub struct DecoratedBox {
    /// The box itself.
    pub base: BoxInstance,
    /// Border colour.
    pub border_color: [u32; 4],
    /// Border width.
    pub border_width: u32,
    /// Shadow colour.
    pub shadow_color: [u32; 4],
    /// Horizontal shadow offset.
    pub shadow_dx: u32,
    /// Vertical shadow offset.
    pub shadow_dy: u32,
    /// Shadow blur radius.
    pub shadow_blur: u32,
    /// Shadow spread.
    pub shadow_spread: u32,
    /// Overall opacity.
    pub opacity: u32,
    /// Fill gradient.
    pub gradient: Option<Gradient>,
    /// Whether it changed since the previous frame.
    pub dirty: bool,
}

/// How an image is fitted into its rectangle.
#[derive(Clone, Copy, Debug, PartialEq, Eq)]
pub enum ImageFit {
    /// Stretched to the rectangle.
    Fill,
    /// Scaled to cover it.
    Cover,
    /// Scaled to fit inside it.
    Contain,
    /// Drawn at its natural size.
    Natural,
}

/// An image drawn into a rectangle.
#[derive(Clone, Debug)]
pub struct TextureSampler {
    /// `[x, y, width, height]`.
    pub rect: [u32; 4],
    /// The image's source path.
    pub src: String,
    /// Fit policy.
    pub fit: ImageFit,
    /// Corner radii.
    pub radii: [u32; 4],
    /// Opacity.
    pub opacity: u32,
    /// Corner smoothing.
    pub smooth: u32,
    /// Whether it changed since the previous frame.
    pub dirty: bool,
}

/// A programmatic shape: an arc, a circle, a line or a rectangle.
#[derive(Clone, Copy, Debug, PartialEq, Eq)]
pub struct CanvasShape {
    /// Which shape it is.
    pub kind: u32,
    /// Shape parameters, laid out per kind.
    pub params: [u32; 8],
    /// Stroke colour.
    pub stroke_color: [u32; 4],
    /// Fill colour.
    pub fill_color: [u32; 4],
    /// Stroke width.
    pub stroke_width: u32,
    /// Stroke cap.
    pub cap: u32,
    /// Dash length and gap.
    pub dash: [u32; 2],
    /// Dash phase.
    pub dash_offset: u32,
    /// Opacity.
    pub opacity: u32,
    /// Paint-time transform.
    pub transform: Transform,
    /// Group mode, [`GROUP_NONE`] for a shape that heads no group.
    pub group_mode: u32,
    /// Group parameter.
    pub group_param: u32,
    /// First member, relative to the frame's record pool.
    pub group_first: u32,
    /// Member count.
    pub group_count: u32,
    /// Stroke gradient.
    pub stroke_gradient: Option<Gradient>,
    /// `[x, y, width, height]` of everything the shape paints.
    pub bounds: [u32; 4],
    /// Whether it changed since the previous frame.
    pub dirty: bool,
}

/// One expanding ink circle.
#[derive(Clone, Copy, Debug, PartialEq, Eq)]
pub struct RippleInstance {
    /// `[x, y, width, height]` of the element it is clipped to.
    pub rect: [u32; 4],
    /// Centre, radius and fade alpha.
    pub params: [u32; 4],
    /// Ink colour.
    pub color: [u32; 4],
    /// Corner radii.
    pub radii: [u32; 4],
    /// Transform translation.
    pub t_translate: [u32; 2],
    /// Transform scale.
    pub t_scale: [u32; 2],
    /// Transform rotation.
    pub t_rotate: u32,
    /// Transform pivot.
    pub t_origin: [u32; 2],
    /// Draw-order depth.
    pub depth: u32,
}

/// A frosted pane that samples what is drawn behind it.
#[derive(Clone, Copy, Debug, PartialEq, Eq)]
pub struct BackdropInstance {
    /// `[x, y, width, height]`.
    pub rect: [u32; 4],
    /// The rectangle's four corners where they appear on screen.
    pub corners: [[u32; 2]; 4],
    /// Corner radii.
    pub radii: [u32; 4],
    /// Tint colour.
    pub tint: [u32; 4],
    /// Saturation boost.
    pub saturation: u32,
    /// Opacity.
    pub opacity: u32,
    /// Draw-order depth.
    pub depth: u32,
    /// Corner smoothing.
    pub smooth: u32,
    /// The Gaussian's standard deviation.
    pub blur: u32,
    /// Quality tier.
    pub quality: u32,
    /// Paint-time transform.
    pub transform: Transform,
}

/// One glyph sampled from the distance-field atlas.
#[derive(Clone, Copy, Debug, PartialEq, Eq)]
pub struct VectorInstance {
    /// Atlas rectangle.
    pub atlas_uv: [u32; 4],
    /// Screen rectangle.
    pub screen_rect: [u32; 4],
    /// Colour.
    pub color: [u32; 4],
    /// Distance range in pixels.
    pub px_range: u32,
    /// Atlas layer.
    pub atlas_layer: u32,
    /// Draw-order depth.
    pub depth: u32,
}

/// Distance-field pixels on their way to the atlas.
#[derive(Clone, Debug)]
pub struct AtlasUpload {
    /// Identity the upload is acknowledged by.
    pub id: u64,
    /// Destination layer.
    pub layer: u32,
    /// Destination column.
    pub x: u32,
    /// Destination row.
    pub y: u32,
    /// Width in texels.
    pub width: u32,
    /// Height in texels.
    pub height: u32,
    /// Four bytes per texel, row by row.
    pub bytes: Vec<u8>,
}

/// One entry of a frame's content-clip table.
#[derive(Clone, Copy, Debug, PartialEq, Eq)]
pub struct ClipRect {
    /// `[x, y, width, height]`.
    pub rect: [u32; 4],
}

/// One run of text.
#[derive(Clone, Debug)]
pub struct TextLine {
    /// Left edge.
    pub x: u32,
    /// Top edge.
    pub y: u32,
    /// What it says.
    pub text: String,
    /// Font size.
    pub font_size: u32,
    /// Font weight.
    pub weight: u16,
    /// Font family, the default one when absent.
    pub family: Option<String>,
    /// Colour.
    pub color: [u32; 4],
    /// Whether it changed since the previous frame.
    pub dirty: bool,
}

/// One tessellated vertex: a position and its place in the path's bounds.
#[derive(Clone, Copy, Debug, PartialEq, Eq)]
pub struct FillVertex {
    /// Position.
    pub pos: [u32; 2],
    /// Normalised position within the path's bounds.
    pub uv: [u32; 2],
}

/// A tessellated path.
#[derive(Clone, Debug)]
pub struct FillMesh {
    /// Vertices.
    pub vertices: Vec<FillVertex>,
    /// Triangle indices.
    pub indices: Vec<u32>,
}

/// A filled path.
#[derive(Clone, Debug)]
pub struct CanvasFill {
    /// Its triangles.
    pub mesh: FillMesh,
    /// Solid colour.
    pub color: [u32; 4],
    /// Fill gradient.
    pub gradient: Option<Gradient>,
    /// Paint-time transform.
    pub transform: Transform,
    /// Opacity.
    pub opacity: u32,
    /// Whether it changed since the previous frame.
    pub dirty: bool,
}

/// The outline a subtree is clipped to.
#[derive(Clone, Debug)]
pub struct ClipMask {
    /// `[x, y, width, height]` of the outline.
    pub bounds: [u32; 4],
    /// Its triangles.
    pub mesh: FillMesh,
}

/// How many primitives of each pool were emitted up to one point of the frame.
#[derive(Clone, Copy, Debug, PartialEq, Eq)]
pub struct LayerMark {
    /// Solid boxes.
    pub solid: u32,
    /// Decorated boxes.
    pub decorated: u32,
    /// Images.
    pub texture: u32,
    /// Vector glyphs.
    pub vector: u32,
    /// Text lines.
    pub text: u32,
    /// Canvas shapes.
    pub canvas: u32,
    /// Ripples.
    pub ripple: u32,
    /// Backdrops.
    pub backdrop: u32,
}

/// The mark at the very start of a frame.
pub open spec fn origin_mark() -> LayerMark {
    LayerMark {
        solid: 0,
        decorated: 0,
        texture: 0,
        vector: 0,
        text: 0,
        canvas: 0,
        ripple: 0,
        backdrop: 0,
    }
}

impl Default for LayerMark {
    /// The mark at the very start of a frame.
    fn default() -> (m: LayerMark)
        ensures
            m == origin_mark(),
    {
        LayerMark {
            solid: 0,
            decorated: 0,
            texture: 0,
            vector: 0,
            text: 0,
            canvas: 0,
            ripple: 0,
            backdrop: 0,
        }
    }
}

/// A union covers both its parts, and whatever covers both parts covers it.
pub proof fn law_union_covers_both(a: Rect, b: Rect)
    ensures
        covers(union_of(a, b), a),
        covers(union_of(a, b), b),
        forall|c: Rect| covers(c, a) && covers(c, b) ==> #[trigger] covers(c, union_of(a, b)),
{
}

/// Whether a paint rect is made of numbers.
pub open spec fn numbers(r: [u32; 4]) -> bool {
    !is_nan(r[0]) && !is_nan(r[1]) && !is_nan(r[2]) && !is_nan(r[3])
}

/// Whether a rectangle lies where a paint rect `[x, y, width, height]` says.
pub open spec fn occupies(rect: Rect, r: [u32; 4]) -> bool {
    &&& rect.left@ == value(r[0])
    &&& rect.top@ == value(r[1])
    &&& rect.right@ - rect.left@ == value(r[2])
    &&& rect.bottom@ - rect.top@ == value(r[3])
}

/// A paint rect made of numbers starts at its first two and is as wide and as tall
/// as its last two.
pub proof fn law_rectangle_is_where_its_numbers_say(r: [u32; 4])
    requires
        numbers(r),
    ensures
        occupies(rect_spec(r), r),
{
    lemma_value_reach(r[0]);
    lemma_value_reach(r[1]);
    lemma_value_reach(r[2]);
    lemma_value_reach(r[3]);
}

/// A paint rect with something that is not a number, in its position or extent along an
/// axis, is empty along that axis.
pub proof fn law_rectangle_without_numbers_is_empty(r: [u32; 4])
    ensures
        is_nan(r[0]) || is_nan(r[2]) ==> rect_spec(r).right@ < rect_spec(r).left@,
        is_nan(r[1]) || is_nan(r[3]) ==> rect_spec(r).bottom@ < rect_spec(r).top@,
{
    lemma_value_reach(r[0]);
    lemma_value_reach(r[1]);
}

/// The transform that moves nothing neither moves, scales, turns nor fades.
pub proof fn law_identity_changes_nothing()
    ensures
        ({
            let t = identity_spec();
            &&& value(t.translate[0]) == 0 && value(t.translate[1]) == 0
            &&& value(t.scale[0]) == pow2(UNIT_EXPONENT as nat) && value(t.scale[1]) == pow2(
                UNIT_EXPONENT as nat,
            )
            &&& value(t.rotate) == 0
            &&& value(t.opacity) == pow2(UNIT_EXPONENT as nat)
        }),
{
    law_values_follow_their_patterns(0, 0);
}

} // verus!
