//! The engine of one window: what is negotiated with the surface, what a
//! resize and a redraw do, and the label the logic thread keeps.

use crate::encoder::subsystem::{
    is_fresh, target_extent, EncoderSubsystem, EncoderView, ViewportUpdate,
};
use crate::error::ByardError;
use crate::frame::{BoxInstance, TextLine};
use vstd::prelude::*;

verus! {

/// The place of the first set flag, the first place if none is.
pub open spec fn first_set(flags: Seq<bool>) -> int
    decreases flags.len(),
{
    if flags.len() == 0 {
        0
    } else if flags[0] {
        0
    } else {
        let rest = first_set(flags.drop_first());
        if flags.drop_first().contains(true) {
            rest + 1
        } else {
            0
        }
    }
}

/// What the first set flag is: set, with none set before it; or none is set at
/// all and it is the first place.
proof fn lemma_first_set(flags: Seq<bool>, i: int)
    requires
        0 <= i < flags.len(),
        flags[i],
        forall|k: int| 0 <= k < i ==> !(#[trigger] flags[k]),
    ensures
        first_set(flags) == i,
    decreases flags.len(),
{
    if i > 0 {
        let rest = flags.drop_first();
        assert(!flags[0]);
        assert(rest[i - 1] == flags[i]);
        assert forall|k: int| 0 <= k < i - 1 implies !(#[trigger] rest[k]) by {
            assert(rest[k] == flags[k + 1]);
        }
        lemma_first_set(rest, i - 1);
        assert(rest.contains(true));
    }
}

/// With no flag set the first place is picked.
proof fn lemma_none_set(flags: Seq<bool>)
    requires
        forall|k: int| 0 <= k < flags.len() ==> !(#[trigger] flags[k]),
    ensures
        first_set(flags) == 0,
{
    if flags.len() > 0 {
        let rest = flags.drop_first();
        assert(!flags[0]);
        if rest.contains(true) {
            let k = choose|k: int| 0 <= k < rest.len() && rest[k] == true;
            assert(flags[k + 1]);
        }
    }
}

/// Picks the first place whose flag is set, or the first place of all.
fn pick(flags: &[bool]) -> (i: usize)
    requires
        flags@.len() > 0,
    ensures
        i == first_set(flags@),
        i < flags@.len(),
{
    let mut i: usize = 0;
    while i < flags.len()
        invariant
            i <= flags@.len(),
            flags@.len() > 0,
            forall|k: int| 0 <= k < i ==> !(#[trigger] flags@[k]),
        decreases flags@.len() - i,
    {
        if flags[i] {
            proof {
                lemma_first_set(flags@, i as int);
            }
            return i;
        }
        i = i + 1;
    }
    proof {
        lemma_none_set(flags@);
    }
    0
}

/// Which of a surface's formats is used: the first gamma-encoded one, so that
/// linear colours are displayed correctly, or the first. `srgb` says of each
/// format whether it is gamma-encoded.
pub fn choose_format(srgb: &[bool]) -> (i: usize)
    requires
        srgb@.len() > 0,
    ensures
        i == first_set(srgb@),
        i < srgb@.len(),
{
    pick(srgb)
}

/// Which of a surface's alpha modes is used: the opaque one wherever it is
/// offered, since the cleared background has no alpha, or the first. `opaque`
/// says of each mode whether it is the opaque one.
pub fn choose_alpha_mode(opaque: &[bool]) -> (i: usize)
    requires
        opaque@.len() > 0,
    ensures
        i == first_set(opaque@),
        i < opaque@.len(),
{
    pick(opaque)
}

/// A place whose flag is set is preferred wherever there is one, and the
/// earliest of them.
pub proof fn law_preference_is_honoured(flags: Seq<bool>, i: int)
    requires
        0 <= i < flags.len(),
        flags[i],
    ensures
        first_set(flags) <= i,
        0 <= first_set(flags) < flags.len(),
        flags[first_set(flags)],
    decreases flags.len(),
{
    if !flags[0] {
        let rest = flags.drop_first();
        assert(rest[i - 1] == flags[i]);
        law_preference_is_honoured(rest, i - 1);
        assert(rest.contains(true));
        assert(rest[first_set(rest)] == flags[first_set(rest) + 1]);
    }
}

/// What kind of device an adapter is.
#[derive(Debug, Clone, Copy, PartialEq, Eq, Structural)]
pub enum DeviceType {
    /// Unknown.
    Other,
    /// Shares memory with the CPU.
    IntegratedGpu,
    /// Has memory of its own.
    DiscreteGpu,
    /// Virtual or hosted.
    VirtualGpu,
    /// Software.
    Cpu,
}

/// Whether the automatic blur tier runs at its higher resolution: on every
/// real GPU, not on software and virtual ones.
pub open spec fn capable(device: DeviceType) -> bool {
    device != DeviceType::Cpu && device != DeviceType::VirtualGpu
}

/// Decides [`capable`].
pub fn blur_auto_capable(device: DeviceType) -> (yes: bool)
    ensures
        yes == capable(device),
{
    !(device == DeviceType::Cpu || device == DeviceType::VirtualGpu)
}

/// Frames the surface keeps in flight.
pub const FRAME_LATENCY: u32 = 2;

/// How the surface is configured.
#[derive(Debug, Clone, Copy, PartialEq, Eq, Structural)]
pub struct SurfaceConfig {
    /// Which of the offered formats.
    pub format: usize,
    /// Which of the offered alpha modes.
    pub alpha_mode: usize,
    /// Width in physical pixels.
    pub width: u32,
    /// Height in physical pixels.
    pub height: u32,
    /// Frames in flight.
    pub latency: u32,
}

/// What a surface and an adapter offer.
pub struct Offer<'a> {
    /// Whether each format is gamma-encoded.
    pub srgb: &'a [bool],
    /// Whether each alpha mode is the opaque one.
    pub opaque: &'a [bool],
    /// The adapter's kind.
    pub device: DeviceType,
    /// Whether it has timestamp queries.
    pub timestamp_query: bool,
}

/// The surface's size, on both sides of the scale factor.
#[derive(Debug, Clone, Copy, PartialEq, Eq)]
pub struct WindowSize {
    /// Width in physical pixels.
    pub width: u32,
    /// Height in physical pixels.
    pub height: u32,
    /// Width in logical pixels.
    pub logical_width: u32,
    /// Height in logical pixels.
    pub logical_height: u32,
    /// Scale factor.
    pub scale: u32,
}

/// What the engine asks for at the start.
#[derive(Debug, Clone, Copy, PartialEq, Eq)]
pub struct InitPlan {
    /// How the surface is configured.
    pub config: SurfaceConfig,
    /// The extent of the targets to create.
    pub targets: (u32, u32),
    /// The viewport.
    pub viewport: ViewportUpdate,
}

/// What a resize asks for.
#[derive(Debug, Clone, Copy, PartialEq, Eq)]
pub struct ResizePlan {
    /// How the surface is configured now.
    pub config: SurfaceConfig,
    /// The viewport.
    pub viewport: ViewportUpdate,
}

/// What asking the surface for an image gave.
#[derive(Debug, Clone, Copy, PartialEq, Eq, Structural)]
pub enum Acquired {
    /// An image.
    Success,
    /// An image that no longer fits the surface quite.
    Suboptimal,
    /// The surface is lost.
    Lost,
    /// The surface has changed.
    Outdated,
    /// None in time.
    Timeout,
    /// The window is hidden.
    Occluded,
    /// The request was invalid.
    Validation,
}

/// What a redraw does next.
#[derive(Debug, Clone, Copy, PartialEq, Eq, Structural)]
pub enum RenderStep {
    /// Nothing; the redraw is over.
    Done,
    /// Ask the surface for an image.
    Acquire,
    /// Configure the surface again, like this; the redraw is over.
    Reconfigure(SurfaceConfig),
    /// Encode the latest frame into the image, submit and present it.
    Encode,
}

/// What is said where no image came in time.
pub const TIMEOUT_ERROR: &'static str = "GPU timeout during surface texture acquire";

/// What is said of an image that could not be acquired.
pub const ACQUIRE_ERROR: &'static str = "GPU validation error during surface texture acquire";

/// What a redraw does next, given whether a frame has been published, how the
/// surface is configured and, once it was asked, what it answered. Nothing where
/// the redraw fails.
pub open spec fn next_step(
    published: bool,
    config: SurfaceConfig,
    acquired: Option<Acquired>,
) -> Option<RenderStep> {
    if !published {
        Some(RenderStep::Done)
    } else {
        match acquired {
            None => Some(RenderStep::Acquire),
            Some(Acquired::Success) | Some(Acquired::Suboptimal) => Some(RenderStep::Encode),
            Some(Acquired::Lost) | Some(Acquired::Outdated) => Some(RenderStep::Reconfigure(config)),
            Some(Acquired::Occluded) => Some(RenderStep::Done),
            Some(Acquired::Timeout) | Some(Acquired::Validation) => None,
        }
    }
}

/// A surface's configuration after a resize. A size of zero, as a minimised
/// window reports, leaves it as it was.
pub open spec fn resized(config: SurfaceConfig, size: WindowSize) -> SurfaceConfig {
    if size.width == 0 || size.height == 0 {
        config
    } else {
        SurfaceConfig { width: size.width, height: size.height, ..config }
    }
}

/// A surface lost after a resize is recovered at the size it was resized to,
/// with the format and alpha mode negotiated at the start.
pub proof fn law_recovery_keeps_the_last_size(
    config: SurfaceConfig,
    size: WindowSize,
    acquired: Acquired,
)
    requires
        size.width > 0,
        size.height > 0,
        acquired == Acquired::Lost || acquired == Acquired::Outdated,
    ensures
        next_step(true, resized(config, size), Some(acquired)) == Some(
            RenderStep::Reconfigure(
                SurfaceConfig {
                    format: config.format,
                    alpha_mode: config.alpha_mode,
                    width: size.width,
                    height: size.height,
                    latency: config.latency,
                },
            ),
        ),
{
}

/// The engine of one window.
pub struct Engine {
    encoder: EncoderSubsystem,
    config: SurfaceConfig,
    logic_taken: bool,
}

impl Engine {
    /// The encoder's state.
    pub closed spec fn encoder_view(&self) -> EncoderView {
        self.encoder@
    }

    /// How the surface is configured.
    pub closed spec fn config_spec(&self) -> SurfaceConfig {
        self.config
    }

    /// Whether the logic thread was started.
    pub closed spec fn started(&self) -> bool {
        self.logic_taken
    }

    /// What holds of every engine.
    pub closed spec fn wf(&self) -> bool {
        self.encoder.wf()
    }

    /// Negotiates with the surface and sets up the encoder. The first frame is
    /// redrawn in full.
    pub fn init(offer: &Offer<'_>, size: WindowSize) -> (r: (Engine, InitPlan))
        requires
            offer.srgb@.len() > 0,
            offer.opaque@.len() > 0,
        ensures
            r.0.wf(),
            !r.0.started(),
            r.0.config_spec() == r.1.config,
            r.1.config == (SurfaceConfig {
                format: first_set(offer.srgb@) as usize,
                alpha_mode: first_set(offer.opaque@) as usize,
                width: size.width,
                height: size.height,
                latency: FRAME_LATENCY,
            }),
            r.1.targets == target_extent(size.width, size.height),
            r.1.viewport == (ViewportUpdate {
                uniform: [size.logical_width, size.logical_height, 0, 0],
                resolution: (size.width, size.height),
                targets: None,
            }),
            r.0.encoder_view().viewport_dirty,
            r.0.encoder_view().blur_auto_capable == capable(offer.device),
            is_fresh(
                (EncoderView {
                    viewport_dirty: false,
                    blur_auto_capable: false,
                    ..r.0.encoder_view()
                }),
                size.scale,
                (size.width, size.height),
                offer.timestamp_query,
            ),
    {
        let config: SurfaceConfig = SurfaceConfig {
            format: choose_format(offer.srgb),
            alpha_mode: choose_alpha_mode(offer.opaque),
            width: size.width,
            height: size.height,
            latency: FRAME_LATENCY,
        };
        let (mut encoder, targets): (EncoderSubsystem, (u32, u32)) = EncoderSubsystem::init(
            size.scale,
            size.width,
            size.height,
            offer.timestamp_query,
        );
        encoder.set_blur_auto_capable(blur_auto_capable(offer.device));
        let viewport: ViewportUpdate = encoder.update_viewport(
            size.logical_width,
            size.logical_height,
            size.width,
            size.height,
            size.scale,
        );
        (Engine { encoder, config, logic_taken: false }, InitPlan { config, targets, viewport })
    }

    /// Takes note of a resize. A size of zero, as a minimised window reports,
    /// is ignored.
    pub fn on_resize(&mut self, size: WindowSize) -> (plan: Option<ResizePlan>)
        requires
            old(self).wf(),
        ensures
            final(self).wf(),
            final(self).started() == old(self).started(),
            final(self).config_spec() == resized(old(self).config_spec(), size),
            size.width == 0 || size.height == 0 ==> {
                &&& plan is None
                &&& final(self).encoder_view() == old(self).encoder_view()
            },
            size.width > 0 && size.height > 0 ==> {
                &&& plan == Some(
                    ResizePlan {
                        config: final(self).config_spec(),
                        viewport: ViewportUpdate {
                            uniform: [size.logical_width, size.logical_height, 0, 0],
                            resolution: (size.width, size.height),
                            targets: if old(self).encoder_view().phys == (size.width, size.height) {
                                None
                            } else {
                                Some((size.width, size.height))
                            },
                        },
                    },
                )
                &&& final(self).encoder_view() == (EncoderView {
                    scale_factor: size.scale,
                    viewport_dirty: true,
                    phys: (size.width, size.height),
                    needs_full_redraw: old(self).encoder_view().needs_full_redraw || old(
                        self,
                    ).encoder_view().phys != (size.width, size.height),
                    ..old(self).encoder_view()
                })
            },
    {
        if size.width == 0 || size.height == 0 {
            return None;
        }
        self.config.width = size.width;
        self.config.height = size.height;
        let viewport: ViewportUpdate = self.encoder.update_viewport(
            size.logical_width,
            size.logical_height,
            size.width,
            size.height,
            size.scale,
        );
        Some(ResizePlan { config: self.config, viewport })
    }

    /// Takes note that the logic thread is started, which happens once. Returns
    /// the frame published before it runs, so that the first redraw has
    /// something to show.
    pub fn start_logic(&mut self, instances: &[BoxInstance], texts: &[TextLine]) -> (first: LogicFrame)
        requires
            old(self).wf(),
            !old(self).started(),
        ensures
            final(self).wf(),
            final(self).started(),
            final(self).encoder_view() == old(self).encoder_view(),
            final(self).config_spec() == old(self).config_spec(),
            exists|label: LabelView, text: TextLine|
                {
                    &&& #[trigger] is_first_label(label)
                    &&& #[trigger] label_line(label, text)
                    &&& is_frame(first, instances@, texts@, text)
                },
    {
        self.logic_taken = true;
        let mut label: ReactiveLabel = first_label();
        let ghost before = label@;
        let line: TextLine = label.tick();
        let ghost text = line;
        assert(is_first_label(before));
        assert(label_line(before, text));
        compose(instances, texts, line)
    }

    /// Decides what a redraw does next. With no frame published the surface is
    /// not even asked. Losing the surface is mended in silence; a timeout and an
    /// invalid request are errors.
    pub fn render_latest(&self, published: bool, acquired: Option<Acquired>) -> (r: Result<
        RenderStep,
        ByardError,
    >)
        ensures
            match next_step(published, self.config_spec(), acquired) {
                Some(step) => r == Ok::<RenderStep, ByardError>(step),
                None => r matches Err(ByardError::RenderSurface(reason)) && reason@ == (
                if acquired == Some(Acquired::Timeout) {
                    TIMEOUT_ERROR@
                } else {
                    ACQUIRE_ERROR@
                }),
            },
    {
        if !published {
            return Ok(RenderStep::Done);
        }
        match acquired {
            None => Ok(RenderStep::Acquire),
            Some(Acquired::Success) => Ok(RenderStep::Encode),
            Some(Acquired::Suboptimal) => Ok(RenderStep::Encode),
            Some(Acquired::Lost) => Ok(RenderStep::Reconfigure(self.config)),
            Some(Acquired::Outdated) => Ok(RenderStep::Reconfigure(self.config)),
            Some(Acquired::Timeout) => Err(ByardError::RenderSurface(TIMEOUT_ERROR.to_owned())),
            Some(Acquired::Occluded) => Ok(RenderStep::Done),
            Some(Acquired::Validation) => Err(
                ByardError::RenderSurface(ACQUIRE_ERROR.to_owned()),
            ),
        }
    }

    /// How the surface is configured.
    pub fn config(&self) -> (c: SurfaceConfig)
        ensures
            c == self.config_spec(),
    {
        self.config
    }

    /// Whether passes are timed.
    pub fn gpu_timing_available(&self) -> (yes: bool)
        ensures
            yes == (self.encoder_view().timer is Some),
    {
        self.encoder.gpu_timing_available()
    }

    /// The encoder, to draw a frame with.
    pub fn encoder(&mut self) -> (e: &mut EncoderSubsystem)
        requires
            old(self).wf(),
        ensures
            e@ == old(self).encoder_view(),
            e.wf(),
            final(self).encoder_view() == final(e)@,
            final(e).wf() ==> final(self).wf(),
            final(self).config_spec() == old(self).config_spec(),
            final(self).started() == old(self).started(),
    {
        &mut self.encoder
    }
}

/// What a label holds.
pub struct LabelView {
    /// What it says.
    pub text: Seq<char>,
    /// Whether it was written to since the last tick.
    pub written: bool,
    /// Left edge.
    pub x: u32,
    /// Top edge.
    pub y: u32,
    /// Font size.
    pub font_size: u32,
    /// Colour.
    pub color: [u32; 4],
}

/// The engine's one label. Its line is dirty exactly in the first tick after it
/// was written to, even with what it said before.
pub struct ReactiveLabel {
    text: String,
    written: bool,
    x: u32,
    y: u32,
    font_size: u32,
    color: [u32; 4],
}

impl View for ReactiveLabel {
    type V = LabelView;

    closed spec fn view(&self) -> LabelView {
        LabelView {
            text: self.text@,
            written: self.written,
            x: self.x,
            y: self.y,
            font_size: self.font_size,
            color: self.color,
        }
    }
}

/// The weight of a label's text.
pub const LABEL_WEIGHT: u16 = 400;

/// Whether a line is what a label shows.
pub open spec fn label_line(label: LabelView, line: TextLine) -> bool {
    &&& line.text@ == label.text
    &&& line.x == label.x
    &&& line.y == label.y
    &&& line.font_size == label.font_size
    &&& line.weight == LABEL_WEIGHT
    &&& line.family is None
    &&& line.color == label.color
    &&& line.dirty == label.written
}

impl ReactiveLabel {
    /// A label that was not written to yet.
    pub fn new(text: String, x: u32, y: u32, font_size: u32, color: [u32; 4]) -> (l: ReactiveLabel)
        ensures
            l@ == (LabelView { text: text@, written: false, x, y, font_size, color }),
    {
        ReactiveLabel { text, written: false, x, y, font_size, color }
    }

    /// Replaces what the label says.
    pub fn set_text(&mut self, text: String)
        ensures
            final(self)@ == (LabelView { text: text@, written: true, ..old(self)@ }),
    {
        self.text = text;
        self.written = true;
    }

    /// This tick's line.
    fn tick(&mut self) -> (line: TextLine)
        ensures
            label_line(old(self)@, line),
            final(self)@ == (LabelView { written: false, ..old(self)@ }),
    {
        let dirty: bool = self.written;
        self.written = false;
        TextLine {
            x: self.x,
            y: self.y,
            text: self.text.clone(),
            font_size: self.font_size,
            weight: LABEL_WEIGHT,
            family: None,
            color: self.color,
            dirty,
        }
    }

    /// Runs one tick and returns its line, dirty exactly if the label was
    /// written to since the last one.
    pub fn text_line(&mut self) -> (r: Result<TextLine, ByardError>)
        ensures
            r matches Ok(line) && label_line(old(self)@, line),
            final(self)@ == (LabelView { written: false, ..old(self)@ }),
    {
        Ok(self.tick())
    }
}

/// What the label says until it is told otherwise.
pub const LABEL_TEXT: &'static str = "Byard \u{2014} Phase 1";

/// Whether a label is the one the engine starts with: at 110 by 110, 20 high,
/// white.
pub open spec fn is_first_label(label: LabelView) -> bool {
    &&& label.text == LABEL_TEXT@
    &&& !label.written
    &&& label.x == 0x42dc_0000
    &&& label.y == 0x42dc_0000
    &&& label.font_size == 0x41a0_0000
    &&& label.color@ == seq![0x3f80_0000u32, 0x3f80_0000, 0x3f80_0000, 0x3f80_0000]
}

/// The label the engine starts with.
pub fn first_label() -> (l: ReactiveLabel)
    ensures
        is_first_label(l@),
{
    let l: ReactiveLabel = ReactiveLabel::new(
        LABEL_TEXT.to_owned(),
        0x42dc_0000,
        0x42dc_0000,
        0x41a0_0000,
        [0x3f80_0000, 0x3f80_0000, 0x3f80_0000, 0x3f80_0000],
    );
    assert(l@.color@ =~= seq![0x3f80_0000u32, 0x3f80_0000, 0x3f80_0000, 0x3f80_0000]);
    l
}

/// What the logic thread publishes.
#[derive(Debug)]
pub struct LogicFrame {
    /// Solid boxes.
    pub instances: Vec<BoxInstance>,
    /// Text lines.
    pub texts: Vec<TextLine>,
}

/// The family of a line.
pub open spec fn family_chars(line: TextLine) -> Option<Seq<char>> {
    match line.family {
        Some(f) => Some(f@),
        None => None,
    }
}

/// Whether two lines say and show the same.
pub open spec fn same_line(a: TextLine, b: TextLine) -> bool {
    &&& a.text@ == b.text@
    &&& family_chars(a) == family_chars(b)
    &&& a.x == b.x
    &&& a.y == b.y
    &&& a.font_size == b.font_size
    &&& a.weight == b.weight
    &&& a.color == b.color
    &&& a.dirty == b.dirty
}

/// Whether a frame holds the scene and, as its last line, the label.
pub open spec fn is_frame(
    f: LogicFrame,
    instances: Seq<BoxInstance>,
    texts: Seq<TextLine>,
    label: TextLine,
) -> bool {
    &&& f.instances@ == instances
    &&& f.texts@.len() == texts.len() + 1
    &&& forall|i: int| 0 <= i < texts.len() ==> same_line(#[trigger] f.texts@[i], texts[i])
    &&& f.texts@.last() == label
}

/// A copy of a line.
fn copy_line(line: &TextLine) -> (c: TextLine)
    ensures
        same_line(c, *line),
{
    TextLine {
        x: line.x,
        y: line.y,
        text: line.text.clone(),
        font_size: line.font_size,
        weight: line.weight,
        family: match &line.family {
            Some(f) => Some(f.clone()),
            None => None,
        },
        color: line.color,
        dirty: line.dirty,
    }
}

/// Puts a frame together: the boxes, the lines, and the label behind them.
fn compose(instances: &[BoxInstance], texts: &[TextLine], label: TextLine) -> (f: LogicFrame)
    ensures
        is_frame(f, instances@, texts@, label),
{
    let mut boxes: Vec<BoxInstance> = Vec::new();
    let mut i: usize = 0;
    while i < instances.len()
        invariant
            i <= instances@.len(),
            boxes@ == instances@.take(i as int),
        decreases instances@.len() - i,
    {
        boxes.push(instances[i]);
        i = i + 1;
        assert(boxes@ =~= instances@.take(i as int));
    }
    assert(boxes@ =~= instances@);
    let mut lines: Vec<TextLine> = Vec::new();
    let mut k: usize = 0;
    while k < texts.len()
        invariant
            k <= texts@.len(),
            lines@.len() == k,
            forall|j: int| 0 <= j < k ==> same_line(#[trigger] lines@[j], texts@[j]),
        decreases texts@.len() - k,
    {
        lines.push(copy_line(&texts[k]));
        k = k + 1;
    }
    lines.push(label);
    LogicFrame { instances: boxes, texts: lines }
}

/// One tick of the logic thread: the label takes every text received since the
/// last one, in order, and the frame is put together.
pub fn logic_tick(
    label: &mut ReactiveLabel,
    received: Vec<String>,
    instances: &[BoxInstance],
    texts: &[TextLine],
) -> (f: LogicFrame)
    ensures
        exists|text: TextLine|
            #[trigger] label_line(after_texts(old(label)@, received@), text) && is_frame(
                f,
                instances@,
                texts@,
                text,
            ),
        final(label)@ == (LabelView { written: false, ..after_texts(old(label)@, received@) }),
{
    let ghost start = label@;
    let mut i: usize = 0;
    while i < received.len()
        invariant
            i <= received@.len(),
            label@ == after_texts(start, received@.take(i as int)),
        decreases received@.len() - i,
    {
        label.set_text(received[i].clone());
        i = i + 1;
        assert(received@.take(i as int).last() == received@[i as int - 1]);
    }
    assert(received@.take(i as int) =~= received@);
    let line: TextLine = label.tick();
    compose(instances, texts, line)
}

/// The dirty bits a frame is published with, given those it has of its own and
/// those of the frame before it.
pub open spec fn carried(own: Seq<bool>, before: Seq<bool>, rendered: bool) -> Seq<bool> {
    Seq::new(
        own.len(),
        |i: int| own[i] || (!rendered && (before.len() != own.len() || before[i])),
    )
}

/// Carries dirty bits forward to the next frame unless the one before it was
/// drawn: what was never drawn has not been acted on. Where the two frames
/// differ in length their bits cannot be told apart, so all are set.
pub fn carry_dirty(own: &[bool], before: &[bool], rendered: bool) -> (bits: Vec<bool>)
    ensures
        bits@ == carried(own@, before@, rendered),
{
    let mut bits: Vec<bool> = Vec::new();
    let mut i: usize = 0;
    while i < own.len()
        invariant
            i <= own@.len(),
            bits@ == carried(own@, before@, rendered).take(i as int),
        decreases own@.len() - i,
    {
        let bit: bool = own[i] || (!rendered && (before.len() != own.len() || before[i]));
        bits.push(bit);
        i = i + 1;
        assert(bits@ =~= carried(own@, before@, rendered).take(i as int));
    }
    assert(bits@ =~= carried(own@, before@, rendered));
    bits
}

/// The bits frame `last` is published with, where `first` is the first frame
/// after the one drawn last.
pub open spec fn published(frames: Seq<Seq<bool>>, first: int, last: int) -> Seq<bool>
    decreases last - first,
{
    if last <= first {
        frames[first]
    } else {
        carried(frames[last], published(frames, first, last - 1), false)
    }
}

/// A primitive dirty in a frame that was not drawn is dirty in the next one, and
/// so on to the first that is drawn: no change is lost between two draws.
pub proof fn law_undrawn_changes_are_carried(frames: Seq<Seq<bool>>, first: int, last: int, i: int)
    requires
        0 <= first <= last < frames.len(),
        0 <= i < frames[first].len(),
        forall|k: int| first <= k <= last ==> (#[trigger] frames[k]).len() == frames[first].len(),
        frames[first][i],
    ensures
        published(frames, first, last).len() == frames[first].len(),
        published(frames, first, last)[i],
    decreases last - first,
{
    if first < last {
        law_undrawn_changes_are_carried(frames, first, last - 1, i);
        assert(frames[last].len() == frames[first].len());
    }
}

/// A label once it took some texts: it says the last of them.
pub open spec fn after_texts(label: LabelView, received: Seq<String>) -> LabelView {
    if received.len() == 0 {
        label
    } else {
        LabelView { text: received.last()@, written: true, ..label }
    }
}

/// Several texts between two ticks give one dirty tick, which shows the last of
/// them; the tick after it is clean and shows the same.
pub proof fn law_writes_collapse_into_one_dirty_tick(
    label: LabelView,
    received: Seq<String>,
    first: TextLine,
    second: TextLine,
)
    requires
        received.len() > 0,
        label_line(after_texts(label, received), first),
        label_line((LabelView { written: false, ..after_texts(label, received) }), second),
    ensures
        first.dirty,
        first.text@ == received.last()@,
        !second.dirty,
        second.text@ == first.text@,
{
}

/// A label that was never written to is clean.
pub proof fn law_untouched_label_is_clean(label: LabelView, line: TextLine)
    requires
        !label.written,
        label_line(label, line),
    ensures
        !line.dirty,
        line.text@ == label.text,
{
}

/// A redraw asks the surface only once something was published, encodes exactly where
/// it got an image, configures it again exactly where it was lost or outdated, and
/// fails exactly where the request failed or nothing came in time.
pub proof fn law_redraws_follow_the_surface(
    published: bool,
    config: SurfaceConfig,
    acquired: Option<Acquired>,
)
    ensures
        ({
            let step = next_step(published, config, acquired);
            &&& !published ==> step == Some(RenderStep::Done)
            &&& step == Some(RenderStep::Acquire) <==> published && acquired is None
            &&& step == Some(RenderStep::Encode) <==> published && (acquired == Some(
                Acquired::Success,
            ) || acquired == Some(Acquired::Suboptimal))
            &&& step matches Some(RenderStep::Reconfigure(c)) ==> c == config
            &&& (step matches Some(RenderStep::Reconfigure(_))) <==> published && (acquired == Some(
                Acquired::Lost,
            ) || acquired == Some(Acquired::Outdated))
            &&& step is None <==> published && (acquired == Some(Acquired::Timeout) || acquired
                == Some(Acquired::Validation))
            &&& published && acquired == Some(Acquired::Occluded) ==> step == Some(RenderStep::Done)
        }),
{
}

/// A resize takes over the window's size, and nothing else; a window without an
/// extent keeps the configuration it had.
pub proof fn law_resizing_changes_the_size_alone(config: SurfaceConfig, size: WindowSize)
    ensures
        ({
            let now = resized(config, size);
            &&& now.format == config.format && now.alpha_mode == config.alpha_mode && now.latency
                == config.latency
            &&& size.width > 0 && size.height > 0 ==> now.width == size.width && now.height
                == size.height
            &&& size.width == 0 || size.height == 0 ==> now == config
        }),
{
}

/// Every real GPU runs the automatic blur tier at its higher resolution, software and
/// virtual ones never do.
pub proof fn law_real_gpus_blur_finely()
    ensures
        capable(DeviceType::DiscreteGpu),
        capable(DeviceType::IntegratedGpu),
        capable(DeviceType::Other),
        !capable(DeviceType::VirtualGpu),
        !capable(DeviceType::Cpu),
{
}

/// A frame of the logic thread draws the scene as it is, every line in its place, and the
/// label behind all of it.
pub proof fn law_label_is_drawn_behind_the_scene(
    f: LogicFrame,
    instances: Seq<BoxInstance>,
    texts: Seq<TextLine>,
    label: TextLine,
    i: int,
)
    requires
        is_frame(f, instances, texts, label),
        0 <= i < texts.len(),
    ensures
        f.instances@ == instances,
        f.texts@.len() == texts.len() + 1,
        f.texts@[texts.len() as int] == label,
        f.texts@[i].text@ == texts[i].text@,
        f.texts@[i].x == texts[i].x && f.texts@[i].y == texts[i].y,
        f.texts@[i].font_size == texts[i].font_size && f.texts@[i].weight == texts[i].weight,
        f.texts@[i].color == texts[i].color && f.texts@[i].dirty == texts[i].dirty,
        (f.texts@[i].family is Some) == (texts[i].family is Some),
        texts[i].family is Some ==> f.texts@[i].family->0@ == texts[i].family->0@,
{
    assert(same_line(f.texts@[i], texts[i]));
}

/// A label shows what it holds, where and how it holds it, and is dirty exactly where it was
/// written to.
pub proof fn law_label_shows_what_it_holds(label: LabelView, line: TextLine)
    requires
        label_line(label, line),
    ensures
        line.text@ == label.text,
        line.x == label.x && line.y == label.y,
        line.font_size == label.font_size,
        line.color == label.color,
        line.dirty == label.written,
        line.family is None,
{
}

/// Behind a frame that was drawn only a frame's own bits are published.
pub proof fn law_drawn_changes_are_not_carried(own: Seq<bool>, before: Seq<bool>)
    ensures
        carried(own, before, true) == own,
        carried(own, before, false).len() == own.len(),
        own.len() == before.len() ==> forall|i: int|
            0 <= i < own.len() ==> #[trigger] carried(own, before, false)[i] == (own[i]
                || before[i]),
{
    assert(carried(own, before, true) =~= own);
}

} // verus!
