//! Plain descriptions of the GPU objects the encoder asks for.

use vstd::prelude::*;

verus! {

/// The texture formats the encoder names, and any other by its number.
#[derive(Debug, Clone, Copy, PartialEq, Eq, Structural)]
pub enum TextureFormat {
    /// Eight-bit red, green, blue, alpha.
    Rgba8Unorm,
    /// The same, gamma encoded.
    Rgba8UnormSrgb,
    /// Eight-bit blue, green, red, alpha.
    Bgra8Unorm,
    /// The same, gamma encoded.
    Bgra8UnormSrgb,
    /// Eight-bit coverage.
    R8Unorm,
    /// 32-bit depth.
    Depth32Float,
    /// A linear format the encoder does not name.
    Other(u32),
}

/// Whether a format is gamma encoded.
pub open spec fn srgb(f: TextureFormat) -> bool {
    f == TextureFormat::Rgba8UnormSrgb || f == TextureFormat::Bgra8UnormSrgb
}

impl TextureFormat {
    /// Whether the format is gamma encoded.
    pub fn is_srgb(&self) -> (yes: bool)
        ensures
            yes == srgb(*self),
    {
        *self == TextureFormat::Rgba8UnormSrgb || *self == TextureFormat::Bgra8UnormSrgb
    }
}

/// The format of the draw-order depth buffer.
pub const DEPTH_FORMAT: TextureFormat = TextureFormat::Depth32Float;

/// The format of one vertex attribute.
#[derive(Debug, Clone, Copy, PartialEq, Eq, Structural)]
pub enum VertexFormat {
    /// One real number.
    Float32,
    /// Two real numbers.
    Float32x2,
    /// Three real numbers.
    Float32x3,
    /// Four real numbers.
    Float32x4,
    /// One integer.
    Uint32,
}

/// The size of a format in bytes.
pub open spec fn format_size(f: VertexFormat) -> int {
    match f {
        VertexFormat::Float32 => 4,
        VertexFormat::Float32x2 => 8,
        VertexFormat::Float32x3 => 12,
        VertexFormat::Float32x4 => 16,
        VertexFormat::Uint32 => 4,
    }
}

impl VertexFormat {
    /// The size in bytes.
    pub fn size(&self) -> (n: u64)
        ensures
            n == format_size(*self),
    {
        match self {
            VertexFormat::Float32 => 4,
            VertexFormat::Float32x2 => 8,
            VertexFormat::Float32x3 => 12,
            VertexFormat::Float32x4 => 16,
            VertexFormat::Uint32 => 4,
        }
    }
}

/// Whether a buffer advances per vertex or per instance.
#[derive(Debug, Clone, Copy, PartialEq, Eq, Structural)]
pub enum VertexStepMode {
    /// Per vertex.
    Vertex,
    /// Per instance.
    Instance,
}

/// One vertex attribute.
#[derive(Debug, Clone, Copy, PartialEq, Eq, Structural)]
pub struct VertexAttribute {
    /// Its format.
    pub format: VertexFormat,
    /// Its byte offset in the record.
    pub offset: u64,
    /// The shader location it feeds.
    pub shader_location: u32,
}

/// The layout of one vertex buffer.
#[derive(Debug, PartialEq, Eq)]
pub struct VertexBufferLayout {
    /// Bytes from one record to the next.
    pub array_stride: u64,
    /// When the buffer advances.
    pub step_mode: VertexStepMode,
    /// The attributes of a record.
    pub attributes: Vec<VertexAttribute>,
}

/// A list of locations with their formats.
pub type Lanes = Seq<(u32, VertexFormat)>;

/// The bytes a list of formats takes, back to back.
pub open spec fn packed_size(lanes: Lanes) -> int
    decreases lanes.len(),
{
    if lanes.len() == 0 {
        0
    } else {
        packed_size(lanes.drop_last()) + format_size(lanes.last().1)
    }
}

/// The attributes of formats laid back to back.
pub open spec fn packed(lanes: Lanes) -> Seq<VertexAttribute> {
    Seq::new(
        lanes.len(),
        |i: int|
            VertexAttribute {
                format: lanes[i].1,
                offset: packed_size(lanes.take(i)) as u64,
                shader_location: lanes[i].0,
            },
    )
}

/// Whether a layout is a list of formats laid back to back with no gap.
pub open spec fn lays_out(l: VertexBufferLayout, lanes: Lanes, step: VertexStepMode) -> bool {
    &&& l.attributes@ == packed(lanes)
    &&& l.array_stride == packed_size(lanes)
    &&& l.step_mode == step
}

/// Sizes of prefixes stay below the whole.
proof fn lemma_packed_size(lanes: Lanes)
    ensures
        0 <= packed_size(lanes) <= 16 * lanes.len(),
    decreases lanes.len(),
{
    if lanes.len() > 0 {
        lemma_packed_size(lanes.drop_last());
    }
}

/// Lays formats out back to back.
pub fn pack(lanes: &[(u32, VertexFormat)], step_mode: VertexStepMode) -> (l: VertexBufferLayout)
    requires
        lanes@.len() <= 0x1000,
    ensures
        lays_out(l, lanes@, step_mode),
{
    let mut attributes: Vec<VertexAttribute> = Vec::new();
    let mut offset: u64 = 0;
    let mut i: usize = 0;
    while i < lanes.len()
        invariant
            i <= lanes@.len() <= 0x1000,
            offset == packed_size(lanes@.take(i as int)),
            attributes@ == packed(lanes@).take(i as int),
        decreases lanes@.len() - i,
    {
        let (shader_location, format) = lanes[i];
        proof {
            lemma_packed_size(lanes@.take(i as int));
            assert(lanes@.take(i as int + 1).drop_last() =~= lanes@.take(i as int));
        }
        attributes.push(VertexAttribute { format, offset, shader_location });
        offset = offset + format.size();
        i = i + 1;
        proof {
            assert(attributes@ =~= packed(lanes@).take(i as int));
        }
    }
    proof {
        assert(lanes@.take(i as int) =~= lanes@);
        assert(packed(lanes@).take(i as int) =~= packed(lanes@));
    }
    VertexBufferLayout { array_stride: offset, step_mode, attributes }
}

/// The unit quad every instanced pipeline expands, at location 0.
pub open spec fn quad_lanes() -> Lanes {
    seq![(0u32, VertexFormat::Float32x2)]
}

/// The layout of the shared unit quad.
pub fn quad_layout() -> (l: VertexBufferLayout)
    ensures
        lays_out(l, quad_lanes(), VertexStepMode::Vertex),
{
    let lanes: [(u32, VertexFormat); 1] = [(0, VertexFormat::Float32x2)];
    assert(lanes@ =~= quad_lanes());
    pack(lanes.as_slice(), VertexStepMode::Vertex)
}

/// How a fragment meets what is already in the target.
#[derive(Debug, Clone, Copy, PartialEq, Eq, Structural)]
pub enum Blend {
    /// It replaces it.
    Replace,
    /// It is laid over it, its colour multiplied by its alpha.
    Alpha,
    /// It is laid over it, its colour already multiplied.
    PremultipliedAlpha,
}

/// How vertices form triangles.
#[derive(Debug, Clone, Copy, PartialEq, Eq, Structural)]
pub enum Topology {
    /// A strip.
    TriangleStrip,
    /// A list.
    TriangleList,
}

/// Which fragments pass the depth test.
#[derive(Debug, Clone, Copy, PartialEq, Eq, Structural)]
pub enum DepthTest {
    /// Those at least as near.
    LessEqual,
    /// All of them.
    Always,
}

/// Depth state of a pipeline.
#[derive(Debug, Clone, Copy, PartialEq, Eq, Structural)]
pub struct DepthState {
    /// Depth buffer format.
    pub format: TextureFormat,
    /// Whether passing fragments write their depth.
    pub write: bool,
    /// Which fragments pass.
    pub test: DepthTest,
}

/// Opaque geometry writes its draw-order depth and keeps the nearest fragment.
pub open spec fn opaque_depth() -> DepthState {
    DepthState { format: DEPTH_FORMAT, write: true, test: DepthTest::LessEqual }
}

/// Transparent geometry tests draw-order depth and never writes it.
pub open spec fn transparent_depth() -> DepthState {
    DepthState { format: DEPTH_FORMAT, write: false, test: DepthTest::LessEqual }
}

/// The clear pipeline neither tests nor writes depth.
pub open spec fn clear_depth() -> DepthState {
    DepthState { format: DEPTH_FORMAT, write: false, test: DepthTest::Always }
}

/// Depth state of the pipelines that draw opaque geometry.
pub fn draw_depth_stencil() -> (d: DepthState)
    ensures
        d == opaque_depth(),
{
    DepthState { format: DEPTH_FORMAT, write: true, test: DepthTest::LessEqual }
}

/// Depth state of the pipelines that draw transparent geometry.
pub fn draw_depth_stencil_no_write() -> (d: DepthState)
    ensures
        d == transparent_depth(),
{
    DepthState { format: DEPTH_FORMAT, write: false, test: DepthTest::LessEqual }
}

/// Depth state of the clear pipeline.
pub fn clear_depth_stencil() -> (d: DepthState)
    ensures
        d == clear_depth(),
{
    DepthState { format: DEPTH_FORMAT, write: false, test: DepthTest::Always }
}

/// Which stages see a binding.
#[derive(Debug, Clone, Copy, PartialEq, Eq, Structural)]
pub enum Visibility {
    /// The vertex stage.
    Vertex,
    /// The fragment stage.
    Fragment,
    /// Both.
    Both,
}

/// What a binding holds.
#[derive(Debug, Clone, Copy, PartialEq, Eq, Structural)]
pub enum Binding {
    /// A uniform buffer, with a dynamic offset or not, of at least `min_size`
    /// bytes (zero for no such bound).
    Uniform {
        /// Whether the offset is given at draw time.
        dynamic: bool,
        /// Least size of the binding.
        min_size: u64,
    },
    /// A read-only storage buffer.
    Storage,
    /// A two-dimensional texture, filterable or not.
    Texture {
        /// Whether it may be filtered.
        filterable: bool,
    },
    /// An array of two-dimensional textures.
    TextureArray,
    /// A filtering sampler.
    Sampler,
}

/// One entry of a bind-group layout.
#[derive(Debug, Clone, Copy, PartialEq, Eq, Structural)]
pub struct BindEntry {
    /// Binding number.
    pub binding: u32,
    /// Which stages see it.
    pub visibility: Visibility,
    /// What it holds.
    pub kind: Binding,
}

/// A bind-group layout.
#[derive(Debug, PartialEq, Eq)]
pub struct BindLayout {
    /// Its label.
    pub label: &'static str,
    /// Its entries.
    pub entries: Vec<BindEntry>,
}

/// Whether a layout has that label and those entries.
pub open spec fn binds(l: BindLayout, label: Seq<char>, entries: Seq<BindEntry>) -> bool {
    &&& l.label@ == label
    &&& l.entries@ == entries
}

/// The group every UI pipeline binds at 0: the viewport uniform.
pub open spec fn viewport_entries() -> Seq<BindEntry> {
    seq![
        BindEntry {
            binding: 0,
            visibility: Visibility::Both,
            kind: Binding::Uniform { dynamic: false, min_size: 16 },
        },
    ]
}

/// Whether a layout is that of the viewport uniform.
pub open spec fn binds_viewport(l: BindLayout) -> bool {
    binds(l, "ByardCore - Viewport Bind Group Layout"@, viewport_entries())
}

/// The viewport uniform's bind-group layout.
pub fn viewport_layout() -> (l: BindLayout)
    ensures
        binds_viewport(l),
{
    let mut entries: Vec<BindEntry> = Vec::new();
    entries.push(
        BindEntry {
            binding: 0,
            visibility: Visibility::Both,
            kind: Binding::Uniform { dynamic: false, min_size: 16 },
        },
    );
    assert(entries@ =~= viewport_entries());
    BindLayout { label: "ByardCore - Viewport Bind Group Layout", entries }
}

/// A texture and the sampler it is read with.
pub open spec fn sampled_entries(texture: Binding) -> Seq<BindEntry> {
    seq![
        BindEntry { binding: 0, visibility: Visibility::Fragment, kind: texture },
        BindEntry { binding: 1, visibility: Visibility::Fragment, kind: Binding::Sampler },
    ]
}

/// A layout of a texture and its sampler.
pub fn sampled_layout(label: &'static str, texture: Binding) -> (l: BindLayout)
    ensures
        binds(l, label@, sampled_entries(texture)),
{
    let mut entries: Vec<BindEntry> = Vec::new();
    entries.push(BindEntry { binding: 0, visibility: Visibility::Fragment, kind: texture });
    entries.push(
        BindEntry { binding: 1, visibility: Visibility::Fragment, kind: Binding::Sampler },
    );
    assert(entries@ =~= sampled_entries(texture));
    BindLayout { label, entries }
}

/// Everything that fixes a render pipeline besides its shader's text.
#[derive(Debug, PartialEq, Eq)]
pub struct PipelineDesc {
    /// The name a build failure is reported under.
    pub name: &'static str,
    /// Vertex buffers, in slot order.
    pub buffers: Vec<VertexBufferLayout>,
    /// Bind groups, in slot order.
    pub groups: Vec<BindLayout>,
    /// Colour target format.
    pub target: TextureFormat,
    /// How fragments are blended.
    pub blend: Blend,
    /// How vertices form triangles.
    pub topology: Topology,
    /// Depth state, if the pass has a depth buffer.
    pub depth: Option<DepthState>,
    /// Samples per pixel.
    pub samples: u32,
}

/// The vertex attributes a pipeline's buffers declare together.
pub open spec fn attribute_count(buffers: Seq<VertexBufferLayout>) -> int
    decreases buffers.len(),
{
    if buffers.len() == 0 {
        0
    } else {
        attribute_count(buffers.drop_last()) + buffers.last().attributes@.len()
    }
}

/// Appends lanes to a record.
pub fn push_lanes(out: &mut Vec<u32>, lanes: &[u32])
    ensures
        final(out)@ == old(out)@ + lanes@,
{
    let ghost before = out@;
    let mut i: usize = 0;
    while i < lanes.len()
        invariant
            i <= lanes@.len(),
            out@ == before + lanes@.take(i as int),
        decreases lanes@.len() - i,
    {
        out.push(lanes[i]);
        i = i + 1;
        proof {
            assert(out@ =~= before + lanes@.take(i as int));
        }
    }
    proof {
        assert(lanes@.take(i as int) =~= lanes@);
    }
}

} // verus!
