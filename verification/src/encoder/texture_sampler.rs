//! The `TextureSampler` pipeline: decoded images drawn into rounded quads.
//!
//! Decoding is asynchronous. A source is requested once; until its pixels
//! arrive, and for good if they cannot be decoded, it draws nothing.

use super::descriptor::{
    binds, binds_viewport, draw_depth_stencil, lays_out, opaque_depth, pack, packed_size,
    push_lanes, quad_lanes, quad_layout, sampled_entries, sampled_layout, viewport_layout,
    BindLayout, Binding, Blend, Lanes, PipelineDesc, TextureFormat, Topology, VertexBufferLayout,
    VertexFormat, VertexStepMode,
};
use super::instance_arena::{
    law_padded_is_aligned, next_offset, ArenaView, InstanceArena, Region,
};
use super::scissor::{bounded, clip_at, clip_scissor, clip_scissor_of, ClipCtx, Scissor};
use super::staging::{
    batch_fits, depth_at, depth_of, lemma_staged_len, stage_lanes, staged_batch,
};
use crate::pattern::{
    at_most_zero, binary_exponent, exponent_field, is_at_most_zero, is_nan, positive, power,
    significand,
};
use crate::frame::{ImageFit, TextureSampler};
use crate::wide::{law_values_follow_their_patterns, value, UNIT_EXPONENT};
use vstd::arithmetic::power2::pow2;
use super::records::{
    extends, feeds, lemma_batch_extends, lemma_feeds, lemma_feeds_kept, lemma_offset,
};
use vstd::prelude::*;

verus! {

/// Decoded pixels.
#[derive(Debug)]
pub struct DecodedRgba {
    /// Pixel width.
    pub width: u32,
    /// Pixel height.
    pub height: u32,
    /// Tightly packed rows, four bytes per pixel.
    pub bytes: Vec<u8>,
}

/// The result of one decode.
#[derive(Debug)]
pub struct DecodedImage {
    /// The source it was started for.
    pub src: String,
    /// Decoded pixels, or the decode error.
    pub result: Result<DecodedRgba, String>,
}

/// One uploaded image.
#[derive(Debug, Clone, Copy, PartialEq, Eq)]
pub struct TextureEntry {
    /// The GPU objects it is sampled through.
    pub handle: u64,
    /// Source pixel width.
    pub width: u32,
    /// Source pixel height.
    pub height: u32,
}

/// Where one source is in its life.
#[derive(Debug, Clone, Copy, PartialEq, Eq)]
pub enum TextureState {
    /// Requested, not decoded yet.
    Pending,
    /// Decoded and uploaded.
    Ready(TextureEntry),
    /// Could not be decoded.
    Failed,
}

/// Images by source, each source at most once.
pub struct TextureCache {
    entries: Vec<(String, TextureState)>,
}

/// The state recorded for a source in a list of entries.
pub open spec fn state_in(entries: Seq<(String, TextureState)>, src: Seq<char>) -> Option<TextureState>
    decreases entries.len(),
{
    if entries.len() == 0 {
        None
    } else if entries.last().0@ == src {
        Some(entries.last().1)
    } else {
        state_in(entries.drop_last(), src)
    }
}

/// Where a source is recorded is where its state comes from.
proof fn lemma_state_at(entries: Seq<(String, TextureState)>, src: Seq<char>, i: int)
    requires
        0 <= i < entries.len(),
        entries[i].0@ == src,
        forall|a: int, b: int| #![trigger entries[a], entries[b]]
            0 <= a < b < entries.len() ==> entries[a].0@ != entries[b].0@,
    ensures
        state_in(entries, src) == Some(entries[i].1),
    decreases entries.len(),
{
    if i < entries.len() - 1 {
        let rest = entries.drop_last();
        assert(entries[i].0@ != entries.last().0@);
        assert forall|a: int, b: int| #![trigger rest[a], rest[b]] 0 <= a < b
            < rest.len() implies rest[a].0@ != rest[b].0@ by {
            assert(rest[a] == entries[a] && rest[b] == entries[b]);
        }
        assert(rest[i] == entries[i]);
        lemma_state_at(rest, src, i);
    }
}

/// A source that is recorded nowhere has no state.
proof fn lemma_state_absent(entries: Seq<(String, TextureState)>, src: Seq<char>)
    requires
        forall|a: int| 0 <= a < entries.len() ==> (#[trigger] entries[a]).0@ != src,
    ensures
        state_in(entries, src) is None,
    decreases entries.len(),
{
    if entries.len() > 0 {
        let rest = entries.drop_last();
        assert forall|a: int| 0 <= a < rest.len() implies (#[trigger] rest[a]).0@ != src by {
            assert(rest[a] == entries[a]);
        }
        lemma_state_absent(rest, src);
    }
}

/// Replacing the state at one place changes that source alone.
proof fn lemma_state_updated(
    before: Seq<(String, TextureState)>,
    after: Seq<(String, TextureState)>,
    i: int,
    src: Seq<char>,
)
    requires
        0 <= i < before.len(),
        after.len() == before.len(),
        forall|a: int| 0 <= a < before.len() ==> (#[trigger] after[a]).0@ == before[a].0@,
        forall|a: int| 0 <= a < before.len() && a != i ==> #[trigger] after[a] == before[a],
        before[i].0@ != src,
    ensures
        state_in(after, src) == state_in(before, src),
    decreases before.len(),
{
    assert(after.last().0@ == before.last().0@);
    if i < before.len() - 1 {
        assert(after.last() == before.last());
        let b = before.drop_last();
        let a = after.drop_last();
        assert forall|k: int| 0 <= k < b.len() implies (#[trigger] a[k]).0@ == b[k].0@ by {
            assert(a[k] == after[k]);
        }
        assert forall|k: int| 0 <= k < b.len() && k != i implies #[trigger] a[k] == b[k] by {
            assert(a[k] == after[k] && b[k] == before[k]);
        }
        lemma_state_updated(b, a, i, src);
    } else {
        assert(after.drop_last() =~= before.drop_last());
    }
}

impl TextureCache {
    /// The state recorded for a source.
    pub closed spec fn state(&self, src: Seq<char>) -> Option<TextureState> {
        state_in(self.entries@, src)
    }

    /// No source is recorded twice.
    pub closed spec fn wf(&self) -> bool {
        forall|a: int, b: int| #![trigger self.entries@[a], self.entries@[b]]
            0 <= a < b < self.entries@.len() ==> self.entries@[a].0@ != self.entries@[b].0@
    }

    /// A cache that knows no source.
    pub fn new() -> (c: TextureCache)
        ensures
            c.wf(),
            forall|s: Seq<char>| (#[trigger] c.state(s)) is None,
    {
        TextureCache { entries: Vec::new() }
    }

    /// Where a source is recorded.
    fn find(&self, src: &String) -> (at: Option<usize>)
        ensures
            match at {
                Some(i) => i < self.entries@.len() && self.entries@[i as int].0@ == src@,
                None => forall|a: int|
                    0 <= a < self.entries@.len() ==> (#[trigger] self.entries@[a]).0@ != src@,
            },
    {
        let mut i: usize = 0;
        while i < self.entries.len()
            invariant
                i <= self.entries@.len(),
                forall|a: int| 0 <= a < i ==> (#[trigger] self.entries@[a]).0@ != src@,
            decreases self.entries@.len() - i,
        {
            if self.entries[i].0 == *src {
                return Some(i);
            }
            i = i + 1;
        }
        None
    }

    /// Requests a source without blocking. `true` exactly when it was not known
    /// before: it is then pending and its decode is to be started. A second
    /// request changes nothing, so each source is decoded once.
    pub fn ensure(&mut self, src: &String) -> (start_decode: bool)
        requires
            old(self).wf(),
        ensures
            final(self).wf(),
            start_decode == (old(self).state(src@) is None),
            start_decode ==> final(self).state(src@) == Some(TextureState::Pending),
            !start_decode ==> final(self).state(src@) == old(self).state(src@),
            forall|s: Seq<char>|
                s != src@ ==> #[trigger] final(self).state(s) == old(self).state(s),
    {
        match self.find(src) {
            Some(i) => {
                proof {
                    lemma_state_at(self.entries@, src@, i as int);
                }
                false
            },
            None => {
                proof {
                    lemma_state_absent(self.entries@, src@);
                }
                let ghost before = self.entries@;
                self.entries.push((src.clone(), TextureState::Pending));
                proof {
                    assert(self.entries@.drop_last() =~= before);
                    assert(self.state(src@) == Some(TextureState::Pending));
                    assert forall|s: Seq<char>| s != src@ implies #[trigger] self.state(s) == old(
                        self,
                    ).state(s) by {
                        assert(state_in(self.entries@, s) == state_in(self.entries@.drop_last(), s));
                    }
                }
                true
            },
        }
    }

    /// Records a decode result: ready, sampled through `handle`, on success;
    /// failed otherwise. `true` exactly when the source failed and had not
    /// before: a failure is worth one warning.
    pub fn apply_decoded(&mut self, decoded: &DecodedImage, handle: u64) -> (warn: bool)
        requires
            old(self).wf(),
        ensures
            final(self).wf(),
            recorded(*old(self), *final(self), *decoded, handle),
            warn == newly_failed(*old(self), *decoded),
    {
        let state: TextureState = match &decoded.result {
            Ok(rgba) => TextureState::Ready(
                TextureEntry { handle, width: rgba.width, height: rgba.height },
            ),
            Err(_) => TextureState::Failed,
        };
        let ghost before = self.entries@;
        match self.find(&decoded.src) {
            Some(i) => {
                let known: bool = matches!(self.entries[i].1, TextureState::Failed);
                let key: String = self.entries[i].0.clone();
                proof {
                    lemma_state_at(before, decoded.src@, i as int);
                }
                self.entries[i] = (key, state);
                proof {
                    lemma_state_at(self.entries@, decoded.src@, i as int);
                    assert forall|s: Seq<char>| s != decoded.src@ implies #[trigger] self.state(s)
                        == old(self).state(s) by {
                        lemma_state_updated(before, self.entries@, i as int, s);
                    }
                }
                decoded.result.is_err() && !known
            },
            None => {
                proof {
                    lemma_state_absent(before, decoded.src@);
                }
                self.entries.push((decoded.src.clone(), state));
                proof {
                    assert(self.entries@.drop_last() =~= before);
                    assert(self.state(decoded.src@) == Some(state));
                    assert forall|s: Seq<char>| s != decoded.src@ implies #[trigger] self.state(s)
                        == old(self).state(s) by {
                        assert(state_in(self.entries@, s) == state_in(self.entries@.drop_last(), s));
                    }
                }
                decoded.result.is_err()
            },
        }
    }

    /// The entry of a source that is ready. A pending image draws nothing,
    /// exactly like one that could not be decoded.
    pub fn get(&self, src: &String) -> (e: Option<TextureEntry>)
        requires
            self.wf(),
        ensures
            e == (match self.state(src@) {
                Some(TextureState::Ready(entry)) => Some(entry),
                _ => None,
            }),
    {
        match self.find(src) {
            Some(i) => {
                proof {
                    lemma_state_at(self.entries@, src@, i as int);
                }
                match self.entries[i].1 {
                    TextureState::Ready(entry) => Some(entry),
                    _ => None,
                }
            },
            None => {
                proof {
                    lemma_state_absent(self.entries@, src@);
                }
                None
            },
        }
    }
}

/// What a decode result makes of its source.
pub open spec fn resolution(decoded: DecodedImage, handle: u64) -> TextureState {
    match decoded.result {
        Ok(rgba) => TextureState::Ready(
            TextureEntry { handle, width: rgba.width, height: rgba.height },
        ),
        Err(_) => TextureState::Failed,
    }
}

/// Whether `after` is `before` with a decode result recorded: its source is
/// resolved, every other one is as it was.
pub open spec fn recorded(
    before: TextureCache,
    after: TextureCache,
    decoded: DecodedImage,
    handle: u64,
) -> bool {
    &&& after.state(decoded.src@) == Some(resolution(decoded, handle))
    &&& forall|s: Seq<char>|
        s != decoded.src@ ==> #[trigger] after.state(s) == before.state(s)
}

/// Whether a decode result is the first failure of its source.
pub open spec fn newly_failed(cache: TextureCache, decoded: DecodedImage) -> bool {
    decoded.result is Err && cache.state(decoded.src@) != Some(TextureState::Failed)
}

/// Recording a result once more changes nothing and warns of nothing.
pub proof fn law_recording_again_changes_nothing(
    before: TextureCache,
    once: TextureCache,
    twice: TextureCache,
    decoded: DecodedImage,
    handle: u64,
)
    requires
        recorded(before, once, decoded, handle),
        recorded(once, twice, decoded, handle),
    ensures
        forall|s: Seq<char>| #[trigger] twice.state(s) == once.state(s),
        !newly_failed(once, decoded),
{
    assert forall|s: Seq<char>| #[trigger] twice.state(s) == once.state(s) by {
        if s == decoded.src@ {
        }
    }
}

/// The sources a batch of images names.
pub open spec fn source_set(textures: Seq<TextureSampler>) -> Set<Seq<char>> {
    Set::new(
        |n: Seq<char>| exists|i: int| 0 <= i < textures.len() && (#[trigger] textures[i]).src@ == n,
    )
}

/// Which images of a batch start a decode: those whose source is neither known
/// nor named by an earlier one.
pub open spec fn first_requests(cache: TextureCache, textures: Seq<TextureSampler>) -> Seq<usize>
    decreases textures.len(),
{
    if textures.len() == 0 {
        Seq::empty()
    } else {
        let rest = first_requests(cache, textures.drop_last());
        if cache.state(textures.last().src@) is None && !source_set(textures.drop_last()).contains(
            textures.last().src@,
        ) {
            rest.push((textures.len() - 1) as usize)
        } else {
            rest
        }
    }
}

/// One more image names its source.
proof fn lemma_source_grows(textures: Seq<TextureSampler>)
    requires
        textures.len() > 0,
    ensures
        source_set(textures) == source_set(textures.drop_last()).insert(textures.last().src@),
{
    let rest = textures.drop_last();
    assert forall|n: Seq<char>|
        source_set(textures).contains(n) == source_set(rest).insert(
            textures.last().src@,
        ).contains(n) by {
        if source_set(rest).contains(n) {
            let i = choose|i: int| 0 <= i < rest.len() && (#[trigger] rest[i]).src@ == n;
            assert(textures[i].src@ == n);
        }
        if n == textures.last().src@ {
            assert(textures[textures.len() - 1].src@ == n);
        }
        if source_set(textures).contains(n) {
            let i = choose|i: int| 0 <= i < textures.len() && (#[trigger] textures[i]).src@ == n;
            if i < rest.len() {
                assert(rest[i].src@ == n);
            }
        }
    }
    assert(source_set(textures) =~= source_set(rest).insert(textures.last().src@));
}

/// Requests every image of a batch. Returns which of them start a decode.
pub fn request_textures(cache: &mut TextureCache, textures: &[TextureSampler]) -> (decode: Vec<
    usize,
>)
    requires
        old(cache).wf(),
    ensures
        final(cache).wf(),
        decode@ == first_requests(*old(cache), textures@),
        forall|s: Seq<char>| #[trigger]
            final(cache).state(s) == (if old(cache).state(s) is None && source_set(
                textures@,
            ).contains(s) {
                Some(TextureState::Pending)
            } else {
                old(cache).state(s)
            }),
{
    let ghost start = *cache;
    let mut decode: Vec<usize> = Vec::new();
    let mut i: usize = 0;
    while i < textures.len()
        invariant
            i <= textures@.len(),
            cache.wf(),
            decode@ == first_requests(start, textures@.take(i as int)),
            forall|s: Seq<char>| #[trigger]
                cache.state(s) == (if start.state(s) is None && source_set(
                    textures@.take(i as int),
                ).contains(s) {
                    Some(TextureState::Pending)
                } else {
                    start.state(s)
                }),
        decreases textures@.len() - i,
    {
        let ghost next = textures@.take(i as int + 1);
        proof {
            assert(next.drop_last() =~= textures@.take(i as int));
            assert(next.last() == textures@[i as int]);
            lemma_source_grows(next);
        }
        if cache.ensure(&textures[i].src) {
            decode.push(i);
        }
        i = i + 1;
    }
    assert(textures@.take(i as int) =~= textures@);
    decode
}

/// A source is decoded once: a batch whose sources are all known starts no
/// decode.
pub proof fn law_known_sources_start_no_decode(cache: TextureCache, textures: Seq<TextureSampler>)
    requires
        forall|i: int|
            0 <= i < textures.len() ==> cache.state((#[trigger] textures[i]).src@) is Some,
    ensures
        first_requests(cache, textures).len() == 0,
    decreases textures.len(),
{
    if textures.len() > 0 {
        let rest = textures.drop_last();
        assert forall|i: int| 0 <= i < rest.len() implies cache.state(
            (#[trigger] rest[i]).src@,
        ) is Some by {
            assert(rest[i] == textures[i]);
        }
        law_known_sources_start_no_decode(cache, rest);
        assert(textures[textures.len() - 1] == textures.last());
    }
}

/// How decoded pixels are written to a fresh texture.
#[derive(Debug, Clone, Copy, PartialEq, Eq)]
pub struct TextureUpload {
    /// Texture width.
    pub width: u32,
    /// Texture height.
    pub height: u32,
    /// Texture format.
    pub format: TextureFormat,
    /// Bytes from one row to the next.
    pub bytes_per_row: u32,
    /// Rows of the image.
    pub rows_per_image: u32,
}

/// Plans the upload of decoded pixels: tightly packed rows of gamma-encoded
/// pixels.
pub fn upload_rgba(rgba: &DecodedRgba) -> (u: TextureUpload)
    requires
        4 * rgba.width <= u32::MAX,
    ensures
        u == (TextureUpload {
            width: rgba.width,
            height: rgba.height,
            format: TextureFormat::Rgba8UnormSrgb,
            bytes_per_row: (4 * rgba.width) as u32,
            rows_per_image: rgba.height,
        }),
{
    TextureUpload {
        width: rgba.width,
        height: rgba.height,
        format: TextureFormat::Rgba8UnormSrgb,
        bytes_per_row: 4 * rgba.width,
        rows_per_image: rgba.height,
    }
}

/// The ratio `num / den * 2^exp`, as real numbers divide: without a denominator
/// it is infinite, and without a numerator either it is not a number.
#[derive(Debug, Clone, Copy, PartialEq, Eq)]
pub struct Ratio {
    /// Numerator.
    pub num: u64,
    /// Denominator.
    pub den: u64,
    /// Power of two.
    pub exp: i32,
}

/// Whether a ratio is less than one.
pub open spec fn below_one(r: Ratio) -> bool {
    if r.exp >= 0 {
        r.num * pow2(r.exp as nat) < r.den
    } else {
        r.num < r.den * pow2((-r.exp) as nat)
    }
}

/// Whether a ratio is one at most.
pub open spec fn one_at_most(r: Ratio) -> bool {
    if r.exp >= 0 {
        r.num * pow2(r.exp as nat) <= r.den
    } else {
        r.num <= r.den * pow2((-r.exp) as nat)
    }
}

/// Whether a ratio is one at least.
pub open spec fn one_at_least(r: Ratio) -> bool {
    !below_one(r)
}

/// How texture coordinates are scaled along each axis, and whether the sampled
/// rectangle is centred: coordinate `c` becomes `c * scale`, plus half of
/// `1 - scale` if it is centred.
#[derive(Debug, Clone, Copy, PartialEq, Eq)]
pub struct UvTransform {
    /// Scale along x.
    pub x: Ratio,
    /// Scale along y.
    pub y: Ratio,
    /// Whether the sampled rectangle is centred.
    pub centred: bool,
}

/// One.
pub open spec fn one() -> Ratio {
    Ratio { num: 1, den: 1, exp: 0 }
}

/// The whole image over the whole rectangle.
pub open spec fn stretched() -> UvTransform {
    UvTransform { x: one(), y: one(), centred: true }
}

/// The numerator of a length: its significand, one if it is infinite, zero if it
/// is not a number.
pub open spec fn numerator(length: u32) -> int {
    if is_nan(length) {
        0
    } else if exponent_field(length) == 255 {
        1
    } else {
        significand(length) as int
    }
}

/// The denominator of a length: only a finite one has any.
pub open spec fn denominator(length: u32) -> int {
    if exponent_field(length) == 255 {
        0
    } else {
        1
    }
}

/// The rectangle's aspect ratio over the image's.
pub open spec fn squeeze(img_w: u32, img_h: u32, rect_w: u32, rect_h: u32) -> Ratio {
    Ratio {
        num: (numerator(rect_w) * denominator(rect_h) * img_h) as u64,
        den: (denominator(rect_w) * numerator(rect_h) * img_w) as u64,
        exp: (binary_exponent(rect_w) - binary_exponent(rect_h)) as i32,
    }
}

/// Whether an image is relatively wider than the rectangle it is shown in.
pub open spec fn wider(img_w: u32, img_h: u32, rect_w: u32, rect_h: u32) -> bool {
    below_one(squeeze(img_w, img_h, rect_w, rect_h))
}

/// A ratio upside down.
pub open spec fn inverse(r: Ratio) -> Ratio {
    Ratio { num: r.den, den: r.num, exp: (-r.exp) as i32 }
}

/// A length over a count of texels.
pub open spec fn per_texel(length: u32, texels: u32) -> Ratio {
    Ratio {
        num: numerator(length) as u64,
        den: (denominator(length) * texels) as u64,
        exp: binary_exponent(length) as i32,
    }
}

/// The transform that fits an image into a rectangle. An image or a rectangle
/// without an extent is stretched. An extent that is not a number, or infinite
/// along both axes, has no aspect ratio: a scale that depends on it is not a
/// number either, and never counts as less than one.
pub open spec fn transform_of(
    fit: ImageFit,
    img_w: u32,
    img_h: u32,
    rect_w: u32,
    rect_h: u32,
) -> UvTransform {
    let s = squeeze(img_w, img_h, rect_w, rect_h);
    let across = wider(img_w, img_h, rect_w, rect_h);
    if img_w == 0 || img_h == 0 || at_most_zero(rect_w) || at_most_zero(rect_h) {
        stretched()
    } else {
        match fit {
            ImageFit::Fill => stretched(),
            ImageFit::Cover => if across {
                UvTransform { x: s, y: one(), centred: true }
            } else {
                UvTransform { x: one(), y: inverse(s), centred: true }
            },
            ImageFit::Contain => if across {
                UvTransform { x: one(), y: inverse(s), centred: true }
            } else {
                UvTransform { x: s, y: one(), centred: true }
            },
            ImageFit::Natural => UvTransform {
                x: per_texel(rect_w, img_w),
                y: per_texel(rect_h, img_h),
                centred: false,
            },
        }
    }
}

/// Decides [`below_one`].
fn is_below_one(num: u64, den: u64, exp: i32) -> (yes: bool)
    requires
        num < 0x100_0000_0000_0000,
        den < 0x100_0000_0000_0000,
        -300 < exp < 300,
    ensures
        yes == below_one(Ratio { num, den, exp }),
{
    if num == 0 || den == 0 {
        proof {
            lemma_nothing_over(num as int, den as int, exp as int);
        }
        num == 0 && den > 0
    } else if exp >= 64 {
        proof {
            lemma_far_above(num as int, den as int, exp as nat);
        }
        false
    } else if exp >= 0 {
        let p: u64 = power(exp as u32);
        proof {
            lemma_shifted_fits(num as int, p as int);
        }
        num as u128 * (p as u128) < den as u128
    } else if exp > -64 {
        let p: u64 = power((-exp) as u32);
        proof {
            lemma_shifted_fits(den as int, p as int);
        }
        (num as u128) < den as u128 * p as u128
    } else {
        proof {
            lemma_far_above(den as int, num as int, (-exp) as nat);
        }
        true
    }
}

/// A ratio without a numerator is less than one if it has a denominator; one
/// without a denominator never is.
proof fn lemma_nothing_over(num: int, den: int, exp: int)
    requires
        0 <= num <= u64::MAX,
        0 <= den <= u64::MAX,
        num == 0 || den == 0,
        -300 < exp < 300,
    ensures
        below_one(Ratio { num: num as u64, den: den as u64, exp: exp as i32 }) == (num == 0 && den
            > 0),
{
    if exp >= 0 {
        let p = pow2(exp as nat) as int;
        vstd::arithmetic::power2::lemma_pow2_pos(exp as nat);
        assert(num * p >= 0 && (num == 0 ==> num * p == 0)) by (nonlinear_arith)
            requires
                num >= 0,
                p > 0,
        ;
    } else {
        let p = pow2((-exp) as nat) as int;
        vstd::arithmetic::power2::lemma_pow2_pos((-exp) as nat);
        assert((den == 0 ==> den * p == 0) && (den > 0 ==> den * p > 0)) by (nonlinear_arith)
            requires
                den >= 0,
                p > 0,
        ;
    }
}

/// A product with a power below 2^64 stays within 128 bits.
proof fn lemma_shifted_fits(n: int, p: int)
    requires
        0 < n < 0x100_0000_0000_0000,
        0 < p <= u64::MAX,
    ensures
        0 < n * p <= u128::MAX,
{
    assert(0 < n * p <= 0x100_0000_0000_0000 * 0xffff_ffff_ffff_ffff) by (nonlinear_arith)
        requires
            0 < n < 0x100_0000_0000_0000,
            0 < p <= 0xffff_ffff_ffff_ffff,
    ;
}

/// A positive number shifted up by 64 bits or more exceeds what has fewer.
proof fn lemma_far_above(n: int, other: int, k: nat)
    requires
        0 < n,
        other < 0x100_0000_0000_0000,
        64 <= k,
    ensures
        n * pow2(k) > other,
{
    vstd::arithmetic::power2::lemma2_to64_rest();
    if k > 64 {
        vstd::arithmetic::power2::lemma_pow2_strictly_increases(64, k);
    }
    let p = pow2(k) as int;
    assert(n * p >= p) by (nonlinear_arith)
        requires
            0 < n,
            0 < p,
    ;
}

/// The numerator, the denominator and the exponent of a length above zero, or of
/// one that is not a number.
fn taken_apart(bits: u32) -> (r: (u32, u32, i32))
    requires
        !at_most_zero(bits),
    ensures
        r.0 == numerator(bits),
        r.1 == denominator(bits),
        r.2 == binary_exponent(bits),
        r.0 < 0x100_0000,
        r.1 <= 1,
        -149 <= r.2 <= 105,
{
    let field: u32 = (bits / 0x80_0000) % 256;
    let fraction: u32 = bits % 0x80_0000;
    if field == 0 {
        (fraction, 1, -149)
    } else if field < 255 {
        (fraction + 0x80_0000, 1, field as i32 - 150)
    } else if fraction == 0 {
        (1, 0, 105)
    } else {
        (0, 0, 105)
    }
}

/// A numerator times a denominator times a count of texels.
proof fn lemma_texels_fit(m: int, d: int, texels: int)
    requires
        0 <= m < 0x100_0000,
        0 <= d <= 1,
        0 < texels <= u32::MAX,
    ensures
        0 <= m * d < 0x100_0000,
        m * d == d * m,
        0 <= m * d * texels < 0x100_0000_0000_0000,
        0 <= d * texels <= u32::MAX,
        m * d > 0 ==> m * d * texels > 0,
{
    assert(0 <= m * d < 0x100_0000 && m * d == d * m) by (nonlinear_arith)
        requires
            0 <= m < 0x100_0000,
            0 <= d <= 1,
    ;
    let n = m * d;
    assert(0 <= n * texels < 0x100_0000 * 0x1_0000_0000) by (nonlinear_arith)
        requires
            0 <= n < 0x100_0000,
            0 < texels < 0x1_0000_0000,
    ;
    assert(n > 0 ==> n * texels > 0) by (nonlinear_arith)
        requires
            0 < texels,
    ;
    assert(0 <= d * texels <= texels) by (nonlinear_arith)
        requires
            0 <= d <= 1,
            0 < texels,
    ;
}

/// The transform that shows an image of `img_w` by `img_h` texels in a
/// rectangle: stretched, covering it, contained in it, or at its natural size
/// from the top left. Coordinates outside the image are not drawn.
pub fn uv_transform(fit: ImageFit, img_w: u32, img_h: u32, rect_w: u32, rect_h: u32) -> (t: UvTransform)
    ensures
        t == transform_of(fit, img_w, img_h, rect_w, rect_h),
{
    let unit: Ratio = Ratio { num: 1, den: 1, exp: 0 };
    let whole: UvTransform = UvTransform { x: unit, y: unit, centred: true };
    if img_w == 0 || img_h == 0 || is_at_most_zero(rect_w) || is_at_most_zero(rect_h) {
        return whole;
    }
    let (w, w_den, w_exp): (u32, u32, i32) = taken_apart(rect_w);
    let (h, h_den, h_exp): (u32, u32, i32) = taken_apart(rect_h);
    proof {
        lemma_texels_fit(w as int, h_den as int, img_h as int);
        lemma_texels_fit(h as int, w_den as int, img_w as int);
        lemma_texels_fit(w as int, w_den as int, img_w as int);
        lemma_texels_fit(h as int, h_den as int, img_h as int);
    }
    let num: u64 = (w * h_den) as u64 * img_h as u64;
    let den: u64 = (w_den * h) as u64 * img_w as u64;
    let exp: i32 = w_exp - h_exp;
    let s: Ratio = Ratio { num, den, exp };
    let inverse: Ratio = Ratio { num: den, den: num, exp: -exp };
    let across: bool = is_below_one(num, den, exp);
    match fit {
        ImageFit::Fill => whole,
        ImageFit::Cover => if across {
            UvTransform { x: s, y: unit, centred: true }
        } else {
            UvTransform { x: unit, y: inverse, centred: true }
        },
        ImageFit::Contain => if across {
            UvTransform { x: unit, y: inverse, centred: true }
        } else {
            UvTransform { x: s, y: unit, centred: true }
        },
        ImageFit::Natural => UvTransform {
            x: Ratio { num: w as u64, den: w_den as u64 * img_w as u64, exp: w_exp },
            y: Ratio { num: h as u64, den: h_den as u64 * img_h as u64, exp: h_exp },
            centred: false,
        },
    }
}

/// Whether the sampled part of an image has the rectangle's aspect ratio: the
/// two sides of the cross product agree in significand and in power of two.
pub open spec fn keeps_aspect(
    t: UvTransform,
    img_w: u32,
    img_h: u32,
    rect_w: u32,
    rect_h: u32,
) -> bool {
    &&& (img_w * t.x.num * t.y.den) * significand(rect_h) == (img_h * t.y.num * t.x.den)
        * significand(rect_w)
    &&& t.x.exp + binary_exponent(rect_h) == t.y.exp + binary_exponent(rect_w)
}

/// Whether a ratio is one.
pub open spec fn is_one(r: Ratio) -> bool {
    r.num == r.den && r.exp == 0
}

/// A covering image leaves no part of the rectangle empty and loses nothing
/// along one axis; a contained one is shown whole and touches the rectangle's
/// edges along one axis. What is sampled has the rectangle's aspect ratio in
/// both cases, so the image is not distorted.
pub proof fn law_fits_keep_their_promise(img_w: u32, img_h: u32, rect_w: u32, rect_h: u32)
    requires
        img_w > 0,
        img_h > 0,
        positive(rect_w),
        positive(rect_h),
        exponent_field(rect_w) < 255,
        exponent_field(rect_h) < 255,
    ensures
        ({
            let c = transform_of(ImageFit::Cover, img_w, img_h, rect_w, rect_h);
            &&& c.centred
            &&& one_at_most(c.x) && one_at_most(c.y)
            &&& is_one(c.x) || is_one(c.y)
            &&& keeps_aspect(c, img_w, img_h, rect_w, rect_h)
        }),
        ({
            let c = transform_of(ImageFit::Contain, img_w, img_h, rect_w, rect_h);
            &&& c.centred
            &&& one_at_least(c.x) && one_at_least(c.y)
            &&& is_one(c.x) || is_one(c.y)
            &&& keeps_aspect(c, img_w, img_h, rect_w, rect_h)
        }),
{
    let w = significand(rect_w) as int;
    let h = significand(rect_h) as int;
    assert(w > 0 && h > 0);
    lemma_texels_fit(w, 1, img_h as int);
    lemma_texels_fit(h, 1, img_w as int);
    let den = h * img_w;
    let num = w * img_h;
    assert((img_w * num * 1) * h == (img_h * 1 * den) * w) by (nonlinear_arith)
        requires
            den == h * img_w,
            num == w * img_h,
    ;
    assert((img_w * 1 * num) * h == (img_h * den * 1) * w) by (nonlinear_arith)
        requires
            den == h * img_w,
            num == w * img_h,
    ;
    vstd::arithmetic::power2::lemma2_to64();
    let s = squeeze(img_w, img_h, rect_w, rect_h);
    assert(s.num == num && s.den == den);
    assert(s.exp == binary_exponent(rect_w) - binary_exponent(rect_h));
    assert(num * pow2(0) == num && den * pow2(0) == den && 1 * pow2(0) == 1) by (nonlinear_arith)
        requires
            pow2(0) == 1,
    ;
    assert(one_at_most(one()) && one_at_least(one()));
    assert(below_one(s) ==> one_at_most(s) && one_at_least(inverse(s)));
    assert(!below_one(s) ==> one_at_most(inverse(s)) && one_at_least(s));
    assert(keeps_aspect(UvTransform { x: s, y: one(), centred: true }, img_w, img_h, rect_w, rect_h));
    assert(keeps_aspect(
        UvTransform { x: one(), y: inverse(s), centred: true },
        img_w,
        img_h,
        rect_w,
        rect_h,
    ));
}

/// One image as the shader reads it.
#[derive(Clone, Copy, Debug, PartialEq, Eq)]
pub struct TextureInstance {
    /// `[x, y, width, height]`.
    pub rect: [u32; 4],
    /// Corner radii.
    pub radii: [u32; 4],
    /// The fit transform.
    pub uv_xform: [u32; 4],
    /// Opacity, depth, corner smoothing.
    pub misc: [u32; 4],
}

/// The record of an image with its fit transform at a depth.
pub open spec fn instance_of(t: TextureSampler, uv: [u32; 4], depth: u32) -> TextureInstance {
    TextureInstance {
        rect: t.rect,
        radii: t.radii,
        uv_xform: uv,
        misc: [t.opacity, depth, t.smooth, 0],
    }
}

/// The lanes of one record.
pub open spec fn instance_lanes(r: TextureInstance) -> Seq<u32> {
    r.rect@ + r.radii@ + r.uv_xform@ + r.misc@
}

/// Locations and formats of a record.
pub open spec fn formats() -> Lanes {
    seq![
        (1u32, VertexFormat::Float32x4),
        (2u32, VertexFormat::Float32x4),
        (3u32, VertexFormat::Float32x4),
        (4u32, VertexFormat::Float32x4),
    ]
}

impl TextureInstance {
    /// The instance layout, locations 1 to 4.
    pub fn layout() -> (l: VertexBufferLayout)
        ensures
            lays_out(l, formats(), VertexStepMode::Instance),
    {
        let lanes: [(u32, VertexFormat); 4] = [
            (1, VertexFormat::Float32x4),
            (2, VertexFormat::Float32x4),
            (3, VertexFormat::Float32x4),
            (4, VertexFormat::Float32x4),
        ];
        assert(lanes@ =~= formats());
        pack(lanes.as_slice(), VertexStepMode::Instance)
    }

    /// The record's lanes.
    fn lanes(&self) -> (out: Vec<u32>)
        ensures
            out@ == instance_lanes(*self),
    {
        let mut out: Vec<u32> = Vec::new();
        push_lanes(&mut out, self.rect.as_slice());
        push_lanes(&mut out, self.radii.as_slice());
        push_lanes(&mut out, self.uv_xform.as_slice());
        push_lanes(&mut out, self.misc.as_slice());
        assert(out@ =~= instance_lanes(*self));
        out
    }
}

/// A record is exactly as long as its layout's stride.
pub proof fn law_record_fills_its_stride(r: TextureInstance, l: VertexBufferLayout)
    requires
        lays_out(l, formats(), VertexStepMode::Instance),
    ensures
        4 * instance_lanes(r).len() == l.array_stride,
        l.array_stride == 64,
{
    reveal_with_fuel(packed_size, 5);
    assert(packed_size(formats()) == 64);
}

/// One staged image.
#[derive(Debug, Clone, Copy, PartialEq, Eq)]
pub struct StagedImage {
    /// Index into the segment's images.
    pub index: usize,
    /// The scissor it draws under.
    pub scissor: Scissor,
    /// Its record's region.
    pub region: Region,
}

/// The scissor image `i` draws under, if its source is ready and something of
/// it is visible.
pub open spec fn drawable(
    cache: TextureCache,
    t: TextureSampler,
    clip: Option<u16>,
    ctx: ClipCtx<'_>,
) -> Option<Scissor> {
    match cache.state(t.src@) {
        Some(TextureState::Ready(_)) => clip_scissor_of(ctx, clip),
        _ => None,
    }
}

/// Whether the drawable images were staged one behind the other, each as one
/// region of one record, and the others left out.
pub open spec fn staged_images(
    before: ArenaView,
    after: ArenaView,
    out: Seq<StagedImage>,
    cache: TextureCache,
    textures: Seq<TextureSampler>,
    uvs: Seq<[u32; 4]>,
    depths: Seq<u32>,
    clips: Seq<Option<u16>>,
    ctx: ClipCtx<'_>,
) -> bool
    decreases textures.len(),
{
    if textures.len() == 0 {
        before == after && out.len() == 0
    } else {
        let i = textures.len() - 1;
        match drawable(cache, textures[i], clip_at(clips, i), ctx) {
            None => staged_images(
                before,
                after,
                out,
                cache,
                textures.drop_last(),
                uvs,
                depths,
                clips,
                ctx,
            ),
            Some(scissor) => {
                &&& out.len() > 0
                &&& out.last().index == i
                &&& out.last().scissor == scissor
                &&& exists|mid: ArenaView|
                    {
                        &&& staged_images(
                            before,
                            mid,
                            out.drop_last(),
                            cache,
                            textures.drop_last(),
                            uvs,
                            depths,
                            clips,
                            ctx,
                        )
                        &&& #[trigger] staged_batch(
                            mid,
                            after,
                            out.last().region,
                            instance_lanes(instance_of(textures[i], uvs[i], depth_of(depths, i))),
                        )
                    }
            },
        }
    }
}

/// Images staged up to one and that one staged behind them.
proof fn lemma_staged_images_step(
    before: ArenaView,
    mid: ArenaView,
    after: ArenaView,
    out: Seq<StagedImage>,
    s: StagedImage,
    cache: TextureCache,
    textures: Seq<TextureSampler>,
    uvs: Seq<[u32; 4]>,
    depths: Seq<u32>,
    clips: Seq<Option<u16>>,
    ctx: ClipCtx<'_>,
)
    requires
        textures.len() > 0,
        staged_images(before, mid, out, cache, textures.drop_last(), uvs, depths, clips, ctx),
        s.index == textures.len() - 1,
        drawable(cache, textures.last(), clip_at(clips, textures.len() - 1), ctx) == Some(s.scissor),
        staged_batch(
            mid,
            after,
            s.region,
            instance_lanes(
                instance_of(
                    textures.last(),
                    uvs[textures.len() - 1],
                    depth_of(depths, textures.len() - 1),
                ),
            ),
        ),
    ensures
        staged_images(before, after, out.push(s), cache, textures, uvs, depths, clips, ctx),
{
    assert(out.push(s).drop_last() =~= out);
    assert(out.push(s).last() == s);
}

/// Stages every drawable image: its source ready and not clipped away. One
/// region per image, because each binds its own texture. `uvs` holds each
/// image's fit transform.
pub fn stage(
    arena: &mut InstanceArena,
    cache: &TextureCache,
    textures: &[TextureSampler],
    uvs: &[[u32; 4]],
    depths: &[u32],
    clip_slice: &[Option<u16>],
    ctx: ClipCtx<'_>,
) -> (out: Vec<StagedImage>)
    requires
        old(arena).wf(),
        cache.wf(),
        bounded(ctx.base),
        uvs@.len() == textures@.len(),
        batch_fits(old(arena)@, 16 * textures@.len() as int),
    ensures
        final(arena).wf(),
        staged_images(
            old(arena)@,
            final(arena)@,
            out@,
            *cache,
            textures@,
            uvs@,
            depths@,
            clip_slice@,
            ctx,
        ),
{
    let ghost start = arena@;
    let mut out: Vec<StagedImage> = Vec::new();
    let mut i: usize = 0;
    proof {
        assert(textures@.take(0) =~= Seq::empty());
    }
    while i < textures.len()
        invariant
            i <= textures@.len(),
            arena.wf(),
            cache.wf(),
            bounded(ctx.base),
            uvs@.len() == textures@.len(),
            batch_fits(start, 16 * textures@.len() as int),
            out@.len() <= i,
            out@.len() == 0 ==> arena@ == start,
            out@.len() > 0 ==> {
                &&& arena@.staged.len() == next_offset(start.staged.len() as int, 4) + 64
                    * out@.len()
                &&& arena@.staged.len() % 4 == 0
            },
            staged_images(
                start,
                arena@,
                out@,
                *cache,
                textures@.take(i as int),
                uvs@,
                depths@,
                clip_slice@,
                ctx,
            ),
        decreases textures@.len() - i,
    {
        let t: &TextureSampler = &textures[i];
        proof {
            assert(textures@.take(i as int + 1).drop_last() =~= textures@.take(i as int));
            assert(textures@.take(i as int + 1).last() == textures@[i as int]);
        }
        let clip: Option<u16> = if i < clip_slice.len() { clip_slice[i] } else { None };
        if let Some(_entry) = cache.get(&t.src) {
            if let Some(scissor) = clip_scissor(ctx, clip) {
                let record: TextureInstance = TextureInstance {
                    rect: t.rect,
                    radii: t.radii,
                    uv_xform: uvs[i],
                    misc: [t.opacity, depth_at(depths, i), t.smooth, 0],
                };
                let lanes: Vec<u32> = record.lanes();
                let ghost mid = arena@;
                let ghost sofar = out@;
                let region: Region = stage_lanes(arena, lanes.as_slice());
                let s: StagedImage = StagedImage { index: i, scissor, region };
                out.push(s);
                proof {
                    lemma_staged_len(mid, arena@, region, lanes@);
                    lemma_staged_images_step(
                        start,
                        mid,
                        arena@,
                        sofar,
                        s,
                        *cache,
                        textures@.take(i as int + 1),
                        uvs@,
                        depths@,
                        clip_slice@,
                        ctx,
                    );
                }
            }
        }
        i = i + 1;
    }
    proof {
        assert(textures@.take(i as int) =~= textures@);
    }
    out
}

/// Whether a layout is that of an image and its sampler.
pub open spec fn binds_image(l: BindLayout) -> bool {
    binds(
        l,
        "ByardCore - Texture Bind Group Layout"@,
        sampled_entries(Binding::Texture { filterable: true }),
    )
}

/// The image and its sampler, at group 1.
pub fn bind_group_layout() -> (l: BindLayout)
    ensures
        binds_image(l),
{
    sampled_layout(
        "ByardCore - Texture Bind Group Layout",
        Binding::Texture { filterable: true },
    )
}

/// What the pipeline is made of.
pub open spec fn describes(d: PipelineDesc, surface: TextureFormat) -> bool {
    &&& d.name@ == "TextureSampler"@
    &&& d.buffers@.len() == 2
    &&& lays_out(d.buffers@[0], quad_lanes(), VertexStepMode::Vertex)
    &&& lays_out(d.buffers@[1], formats(), VertexStepMode::Instance)
    &&& d.groups@.len() == 2
    &&& binds_viewport(d.groups@[0])
    &&& binds_image(d.groups@[1])
    &&& d.target == surface
    &&& d.blend == Blend::Alpha
    &&& d.topology == Topology::TriangleStrip
    &&& d.depth == Some(opaque_depth())
    &&& d.samples == 1
}

/// Describes the pipeline: opaque geometry.
pub fn pipeline(surface: TextureFormat) -> (d: PipelineDesc)
    ensures
        describes(d, surface),
{
    let mut buffers: Vec<VertexBufferLayout> = Vec::new();
    buffers.push(quad_layout());
    buffers.push(TextureInstance::layout());
    let mut groups: Vec<BindLayout> = Vec::new();
    groups.push(viewport_layout());
    groups.push(bind_group_layout());
    PipelineDesc {
        name: "TextureSampler",
        buffers,
        groups,
        target: surface,
        blend: Blend::Alpha,
        topology: Topology::TriangleStrip,
        depth: Some(draw_depth_stencil()),
        samples: 1,
    }
}

/// Where each location of a record starts.
proof fn lemma_offsets()
    ensures
        packed_size(formats().take(0)) == 0,
        packed_size(formats().take(1)) == 16,
        packed_size(formats().take(2)) == 32,
        packed_size(formats().take(3)) == 48,
{
    lemma_offset(formats(), 0);
    lemma_offset(formats(), 1);
    lemma_offset(formats(), 2);
    lemma_offset(formats(), 3);
}

/// Each location reads its own lanes of a record.
proof fn lemma_locations(
    before: ArenaView,
    after: ArenaView,
    region: Region,
    lanes: Seq<u32>,
    l: VertexBufferLayout,
    i: int,
    record: Seq<u32>,
)
    requires
        staged_batch(before, after, region, lanes),
        batch_fits(before, lanes.len() as int),
        lays_out(l, formats(), VertexStepMode::Instance),
        l.array_stride == 64,
        record.len() == 16,
        0 <= i,
        16 * (i + 1) <= lanes.len(),
        lanes.subrange(16 * i, 16 * (i + 1)) == record,
    ensures
        feeds(after.staged, region, l, i, 1u32, VertexFormat::Float32x4, record.subrange(0, 4)),
        feeds(after.staged, region, l, i, 2u32, VertexFormat::Float32x4, record.subrange(4, 8)),
        feeds(after.staged, region, l, i, 3u32, VertexFormat::Float32x4, record.subrange(8, 12)),
        feeds(after.staged, region, l, i, 4u32, VertexFormat::Float32x4, record.subrange(12, 16)),
{
    lemma_offsets();
    assert(i * record.len() == 16 * i && (i + 1) * record.len() == 16 * (i + 1));
    lemma_feeds(
        before,
        after,
        region,
        lanes,
        l,
        formats(),
        VertexStepMode::Instance,
        i,
        record,
        0,
        0,
        record.subrange(0, 4),
    );
    lemma_feeds(
        before,
        after,
        region,
        lanes,
        l,
        formats(),
        VertexStepMode::Instance,
        i,
        record,
        1,
        4,
        record.subrange(4, 8),
    );
    lemma_feeds(
        before,
        after,
        region,
        lanes,
        l,
        formats(),
        VertexStepMode::Instance,
        i,
        record,
        2,
        8,
        record.subrange(8, 12),
    );
    lemma_feeds(
        before,
        after,
        region,
        lanes,
        l,
        formats(),
        VertexStepMode::Instance,
        i,
        record,
        3,
        12,
        record.subrange(12, 16),
    );
}

/// Whether the shader reads an image's own properties of the record at `region`,
/// location by location: its rectangle, its radii, its fit transform, and its
/// opacity, depth and smoothing.
#[verifier::opaque]
pub open spec fn shows(
    staged: Seq<u8>,
    region: Region,
    l: VertexBufferLayout,
    t: TextureSampler,
    uv: [u32; 4],
    depth: u32,
) -> bool {
    &&& feeds(staged, region, l, 0, 1u32, VertexFormat::Float32x4, t.rect@)
    &&& feeds(staged, region, l, 0, 2u32, VertexFormat::Float32x4, t.radii@)
    &&& feeds(staged, region, l, 0, 3u32, VertexFormat::Float32x4, uv@)
    &&& feeds(
        staged,
        region,
        l,
        0,
        4u32,
        VertexFormat::Float32x4,
        seq![t.opacity, depth, t.smooth, 0u32],
    )
}

/// One image staged on its own is shown.
proof fn lemma_staged_image_shows(
    before: ArenaView,
    after: ArenaView,
    region: Region,
    l: VertexBufferLayout,
    t: TextureSampler,
    uv: [u32; 4],
    depth: u32,
)
    requires
        batch_fits(before, 16),
        staged_batch(before, after, region, instance_lanes(instance_of(t, uv, depth))),
        lays_out(l, formats(), VertexStepMode::Instance),
    ensures
        shows(after.staged, region, l, t, uv, depth),
{
    reveal(shows);
    let lanes = instance_lanes(instance_of(t, uv, depth));
    let record = lanes;
    law_record_fills_its_stride(instance_of(t, uv, depth), l);
    assert(lanes.subrange(0, 16) =~= record);
    lemma_locations(before, after, region, lanes, l, 0, record);
    assert(record.subrange(0, 4) =~= t.rect@);
    assert(record.subrange(4, 8) =~= t.radii@);
    assert(record.subrange(8, 12) =~= uv@);
    assert(record.subrange(12, 16) =~= seq![t.opacity, depth, t.smooth, 0u32]);
}

/// An image stays shown while more is staged.
proof fn lemma_shown_stays(
    staged: Seq<u8>,
    later: Seq<u8>,
    region: Region,
    l: VertexBufferLayout,
    t: TextureSampler,
    uv: [u32; 4],
    depth: u32,
)
    requires
        shows(staged, region, l, t, uv, depth),
        extends(later, staged),
    ensures
        shows(later, region, l, t, uv, depth),
{
    reveal(shows);
    lemma_feeds_kept(staged, later, region, l, 0, 1u32, VertexFormat::Float32x4, t.rect@);
    lemma_feeds_kept(staged, later, region, l, 0, 2u32, VertexFormat::Float32x4, t.radii@);
    lemma_feeds_kept(staged, later, region, l, 0, 3u32, VertexFormat::Float32x4, uv@);
    lemma_feeds_kept(
        staged,
        later,
        region,
        l,
        0,
        4u32,
        VertexFormat::Float32x4,
        seq![t.opacity, depth, t.smooth, 0u32],
    );
}

/// Whether image `i` of a batch has something to draw: its source is ready, and
/// its own clip leaves something of it.
pub open spec fn visible(
    cache: TextureCache,
    textures: Seq<TextureSampler>,
    clips: Seq<Option<u16>>,
    ctx: ClipCtx<'_>,
    i: int,
) -> bool {
    &&& cache.state(textures[i].src@) matches Some(TextureState::Ready(_))
    &&& clip_scissor_of(ctx, clip_at(clips, i)) is Some
}

/// Staged images take sixteen lanes each.
proof fn lemma_images_len(
    before: ArenaView,
    after: ArenaView,
    out: Seq<StagedImage>,
    cache: TextureCache,
    textures: Seq<TextureSampler>,
    uvs: Seq<[u32; 4]>,
    depths: Seq<u32>,
    clips: Seq<Option<u16>>,
    ctx: ClipCtx<'_>,
)
    requires
        staged_images(before, after, out, cache, textures, uvs, depths, clips, ctx),
    ensures
        out.len() <= textures.len(),
        out.len() == 0 ==> after == before,
        out.len() > 0 ==> {
            &&& after.staged.len() == next_offset(before.staged.len() as int, 4) + 64 * out.len()
            &&& after.staged.len() % 4 == 0
        },
    decreases textures.len(),
{
    if textures.len() > 0 {
        let last = textures.len() - 1;
        let rest = textures.drop_last();
        match drawable(cache, textures[last], clip_at(clips, last), ctx) {
            None => {
                lemma_images_len(before, after, out, cache, rest, uvs, depths, clips, ctx);
            },
            Some(scissor) => {
                let lanes = instance_lanes(
                    instance_of(textures[last], uvs[last], depth_of(depths, last)),
                );
                let mid = choose|mid: ArenaView|
                    {
                        &&& staged_images(
                            before,
                            mid,
                            out.drop_last(),
                            cache,
                            rest,
                            uvs,
                            depths,
                            clips,
                            ctx,
                        )
                        &&& #[trigger] staged_batch(mid, after, out.last().region, lanes)
                    };
                lemma_images_len(
                    before,
                    mid,
                    out.drop_last(),
                    cache,
                    rest,
                    uvs,
                    depths,
                    clips,
                    ctx,
                );
                assert(lanes.len() == 16);
                law_padded_is_aligned(mid.staged.len() as int, 4);
                lemma_staged_len(mid, after, out.last().region, lanes);
            },
        }
    }
}

/// The last image of a batch, if it is drawable, is staged behind the others.
proof fn lemma_last_image(
    before: ArenaView,
    after: ArenaView,
    out: Seq<StagedImage>,
    cache: TextureCache,
    textures: Seq<TextureSampler>,
    uvs: Seq<[u32; 4]>,
    depths: Seq<u32>,
    clips: Seq<Option<u16>>,
    ctx: ClipCtx<'_>,
) -> (mid: ArenaView)
    requires
        textures.len() > 0,
        staged_images(before, after, out, cache, textures, uvs, depths, clips, ctx),
        drawable(cache, textures.last(), clip_at(clips, textures.len() - 1), ctx) is Some,
    ensures
        out.len() > 0,
        out.last().index == textures.len() - 1,
        drawable(cache, textures.last(), clip_at(clips, textures.len() - 1), ctx) == Some(
            out.last().scissor,
        ),
        staged_images(
            before,
            mid,
            out.drop_last(),
            cache,
            textures.drop_last(),
            uvs,
            depths,
            clips,
            ctx,
        ),
        staged_batch(
            mid,
            after,
            out.last().region,
            instance_lanes(
                instance_of(
                    textures.last(),
                    uvs[textures.len() - 1],
                    depth_of(depths, textures.len() - 1),
                ),
            ),
        ),
{
    let i = textures.len() - 1;
    choose|mid: ArenaView|
        {
            &&& staged_images(
                before,
                mid,
                out.drop_last(),
                cache,
                textures.drop_last(),
                uvs,
                depths,
                clips,
                ctx,
            )
            &&& #[trigger] staged_batch(
                mid,
                after,
                out.last().region,
                instance_lanes(instance_of(textures[i], uvs[i], depth_of(depths, i))),
            )
        }
}

/// An image staged is visible, and drawn under its own scissor.
#[verifier::rlimit(50)]
proof fn lemma_staged_is_visible(
    before: ArenaView,
    after: ArenaView,
    out: Seq<StagedImage>,
    cache: TextureCache,
    textures: Seq<TextureSampler>,
    uvs: Seq<[u32; 4]>,
    depths: Seq<u32>,
    clips: Seq<Option<u16>>,
    ctx: ClipCtx<'_>,
    k: int,
)
    requires
        textures.len() <= usize::MAX,
        staged_images(before, after, out, cache, textures, uvs, depths, clips, ctx),
        0 <= k < out.len(),
    ensures
        out[k].index < textures.len(),
        drawable(cache, textures[out[k].index as int], clip_at(clips, out[k].index as int), ctx)
            == Some(out[k].scissor),
    decreases textures.len(),
{
    let last = textures.len() - 1;
    let rest = textures.drop_last();
    assert(textures.len() > 0);
    if drawable(cache, textures.last(), clip_at(clips, last), ctx) is None {
        lemma_staged_is_visible(
            before,
            after,
            out,
            cache,
            rest,
            uvs,
            depths,
            clips,
            ctx,
            k,
        );
        assert(rest[out[k].index as int] == textures[out[k].index as int]);
    } else {
        let head = out.drop_last();
        let mid = lemma_last_image(before, after, out, cache, textures, uvs, depths, clips, ctx);
        if k < head.len() {
            assert(out[k] == head[k]);
            lemma_staged_is_visible(
                before,
                mid,
                head,
                cache,
                rest,
                uvs,
                depths,
                clips,
                ctx,
                k,
            );
            assert(rest[out[k].index as int] == textures[out[k].index as int]);
        }
    }
}

/// Images are staged in their order.
#[verifier::rlimit(50)]
proof fn lemma_staged_in_order(
    before: ArenaView,
    after: ArenaView,
    out: Seq<StagedImage>,
    cache: TextureCache,
    textures: Seq<TextureSampler>,
    uvs: Seq<[u32; 4]>,
    depths: Seq<u32>,
    clips: Seq<Option<u16>>,
    ctx: ClipCtx<'_>,
    k: int,
    m: int,
)
    requires
        textures.len() <= usize::MAX,
        staged_images(before, after, out, cache, textures, uvs, depths, clips, ctx),
        0 <= k < m < out.len(),
    ensures
        out[k].index < out[m].index,
    decreases textures.len(),
{
    let last = textures.len() - 1;
    let rest = textures.drop_last();
    assert(textures.len() > 0);
    if drawable(cache, textures.last(), clip_at(clips, last), ctx) is None {
        lemma_staged_in_order(
            before,
            after,
            out,
            cache,
            rest,
            uvs,
            depths,
            clips,
            ctx,
            k,
            m,
        );
    } else {
        let head = out.drop_last();
        let mid = lemma_last_image(before, after, out, cache, textures, uvs, depths, clips, ctx);
        assert(out[k] == head[k]);
        if m < head.len() {
            assert(out[m] == head[m]);
            lemma_staged_in_order(
                before,
                mid,
                head,
                cache,
                rest,
                uvs,
                depths,
                clips,
                ctx,
                k,
                m,
            );
        } else {
            lemma_staged_is_visible(
                before,
                mid,
                head,
                cache,
                rest,
                uvs,
                depths,
                clips,
                ctx,
                k,
            );
        }
    }
}

/// A drawable image is staged.
#[verifier::rlimit(50)]
proof fn lemma_drawable_is_staged(
    before: ArenaView,
    after: ArenaView,
    out: Seq<StagedImage>,
    cache: TextureCache,
    textures: Seq<TextureSampler>,
    uvs: Seq<[u32; 4]>,
    depths: Seq<u32>,
    clips: Seq<Option<u16>>,
    ctx: ClipCtx<'_>,
    i: int,
) -> (k: int)
    requires
        textures.len() <= usize::MAX,
        staged_images(before, after, out, cache, textures, uvs, depths, clips, ctx),
        0 <= i < textures.len(),
        drawable(cache, textures[i], clip_at(clips, i), ctx) is Some,
    ensures
        0 <= k < out.len(),
        out[k].index == i,
    decreases textures.len(),
{
    let last = textures.len() - 1;
    let rest = textures.drop_last();
    if drawable(cache, textures.last(), clip_at(clips, last), ctx) is None {
        assert(rest[i] == textures[i]);
        lemma_drawable_is_staged(
            before,
            after,
            out,
            cache,
            rest,
            uvs,
            depths,
            clips,
            ctx,
            i,
        )
    } else {
        let head = out.drop_last();
        let mid = lemma_last_image(before, after, out, cache, textures, uvs, depths, clips, ctx);
        if i < last {
            assert(rest[i] == textures[i]);
            let k = lemma_drawable_is_staged(
                before,
                mid,
                head,
                cache,
                rest,
                uvs,
                depths,
                clips,
                ctx,
                i,
            );
            assert(out[k] == head[k]);
            k
        } else {
            out.len() - 1
        }
    }
}

/// Every image staged is shown.
#[verifier::rlimit(50)]
proof fn lemma_images_are_shown(
    before: ArenaView,
    after: ArenaView,
    out: Seq<StagedImage>,
    cache: TextureCache,
    textures: Seq<TextureSampler>,
    uvs: Seq<[u32; 4]>,
    depths: Seq<u32>,
    clips: Seq<Option<u16>>,
    ctx: ClipCtx<'_>,
    l: VertexBufferLayout,
    k: int,
)
    requires
        textures.len() <= usize::MAX,
        batch_fits(before, 16 * textures.len() as int),
        staged_images(before, after, out, cache, textures, uvs, depths, clips, ctx),
        lays_out(l, formats(), VertexStepMode::Instance),
        0 <= k < out.len(),
    ensures
        out[k].index < textures.len(),
        shows(
            after.staged,
            out[k].region,
            l,
            textures[out[k].index as int],
            uvs[out[k].index as int],
            depth_of(depths, out[k].index as int),
        ),
    decreases textures.len(),
{
    let last = textures.len() - 1;
    let rest = textures.drop_last();
    assert(textures.len() > 0);
    if drawable(cache, textures.last(), clip_at(clips, last), ctx) is None {
        lemma_images_are_shown(
            before,
            after,
            out,
            cache,
            rest,
            uvs,
            depths,
            clips,
            ctx,
            l,
            k,
        );
    } else {
        let head = out.drop_last();
        let mid = lemma_last_image(before, after, out, cache, textures, uvs, depths, clips, ctx);
        let lanes = instance_lanes(
            instance_of(textures[last], uvs[last], depth_of(depths, last)),
        );
        lemma_images_len(before, mid, head, cache, rest, uvs, depths, clips, ctx);
        law_padded_is_aligned(before.staged.len() as int, 4);
        lemma_staged_image_shows(
            mid,
            after,
            out.last().region,
            l,
            textures[last],
            uvs[last],
            depth_of(depths, last),
        );
        if k < head.len() {
            assert(out[k] == head[k]);
            lemma_images_are_shown(
                before,
                mid,
                head,
                cache,
                rest,
                uvs,
                depths,
                clips,
                ctx,
                l,
                k,
            );
            lemma_batch_extends(mid, after, out.last().region, lanes);
            let i = out[k].index as int;
            lemma_shown_stays(
                mid.staged,
                after.staged,
                out[k].region,
                l,
                textures[i],
                uvs[i],
                depth_of(depths, i),
            );
        }
    }
}

/// Of a batch of images exactly the visible ones are staged, in order, each under
/// the scissor of its own clip, and of each the shader reads its own properties,
/// transform and depth.
pub proof fn law_visible_images_are_staged_as_they_are(
    before: ArenaView,
    after: ArenaView,
    out: Seq<StagedImage>,
    cache: TextureCache,
    textures: Seq<TextureSampler>,
    uvs: Seq<[u32; 4]>,
    depths: Seq<u32>,
    clips: Seq<Option<u16>>,
    ctx: ClipCtx<'_>,
    l: VertexBufferLayout,
)
    requires
        textures.len() <= usize::MAX,
        batch_fits(before, 16 * textures.len() as int),
        staged_images(before, after, out, cache, textures, uvs, depths, clips, ctx),
        lays_out(l, formats(), VertexStepMode::Instance),
    ensures
        forall|k: int| #![trigger out[k]]
            0 <= k < out.len() ==> {
                let i = out[k].index as int;
                &&& i < textures.len()
                &&& visible(cache, textures, clips, ctx, i)
                &&& Some(out[k].scissor) == clip_scissor_of(ctx, clip_at(clips, i))
                &&& shows(
                    after.staged,
                    out[k].region,
                    l,
                    textures[i],
                    uvs[i],
                    if i < depths.len() {
                        depths[i]
                    } else {
                        0x3f80_0000u32
                    },
                )
            },
        forall|k: int, m: int| #![trigger out[k], out[m]]
            0 <= k < m < out.len() ==> out[k].index < out[m].index,
        forall|i: int| #![trigger visible(cache, textures, clips, ctx, i)]
            0 <= i < textures.len() && visible(cache, textures, clips, ctx, i) ==> exists|k: int|
                0 <= k < out.len() && (#[trigger] out[k]).index == i,
{
    assert forall|k: int| #![trigger out[k]] 0 <= k < out.len() implies {
        let i = out[k].index as int;
        &&& i < textures.len()
        &&& visible(cache, textures, clips, ctx, i)
        &&& Some(out[k].scissor) == clip_scissor_of(ctx, clip_at(clips, i))
        &&& shows(after.staged, out[k].region, l, textures[i], uvs[i], depth_of(depths, i))
    } by {
        lemma_staged_is_visible(
            before,
            after,
            out,
            cache,
            textures,
            uvs,
            depths,
            clips,
            ctx,
            k,
        );
        lemma_images_are_shown(
            before,
            after,
            out,
            cache,
            textures,
            uvs,
            depths,
            clips,
            ctx,
            l,
            k,
        );
    }
    assert forall|k: int, m: int| #![trigger out[k], out[m]] 0 <= k < m < out.len() implies out[k].index
        < out[m].index by {
        lemma_staged_in_order(
            before,
            after,
            out,
            cache,
            textures,
            uvs,
            depths,
            clips,
            ctx,
            k,
            m,
        );
    }
    assert forall|i: int| #![trigger visible(cache, textures, clips, ctx, i)]
        0 <= i < textures.len() && visible(cache, textures, clips, ctx, i) implies exists|k: int|
        0 <= k < out.len() && (#[trigger] out[k]).index == i by {
        let k = lemma_drawable_is_staged(
            before,
            after,
            out,
            cache,
            textures,
            uvs,
            depths,
            clips,
            ctx,
            i,
        );
        assert(out[k].index == i);
    }
}

/// A batch starts exactly the decodes of sources not known before, each for the
/// first image that names it, in order.
pub proof fn law_each_new_source_is_decoded_for_its_first_image(
    cache: TextureCache,
    textures: Seq<TextureSampler>,
    i: int,
)
    requires
        0 <= i < textures.len() <= usize::MAX,
    ensures
        first_requests(cache, textures).contains(i as usize) <==> {
            &&& cache.state(textures[i].src@) is None
            &&& forall|k: int| 0 <= k < i ==> (#[trigger] textures[k]).src@ != textures[i].src@
        },
        forall|k: int, m: int|
            #![trigger first_requests(cache, textures)[k], first_requests(cache, textures)[m]]
            0 <= k < m < first_requests(cache, textures).len() ==> first_requests(cache, textures)[k]
                < first_requests(cache, textures)[m],
        forall|k: int| #![trigger first_requests(cache, textures)[k]]
            0 <= k < first_requests(cache, textures).len() ==> first_requests(cache, textures)[k]
                < textures.len(),
    decreases textures.len(),
{
    let rest = textures.drop_last();
    let last = textures.len() - 1;
    let all = first_requests(cache, textures);
    let before = first_requests(cache, rest);
    if rest.len() > 0 {
        law_each_new_source_is_decoded_for_its_first_image(
            cache,
            rest,
            if i < last {
                i
            } else {
                0
            },
        );
    }
    assert(forall|k: int| 0 <= k < rest.len() ==> #[trigger] rest[k] == textures[k]);
    assert forall|k: int| #![trigger all[k]] 0 <= k < all.len() implies all[k] < textures.len() by {
        if k < before.len() {
            assert(all[k] == before[k]);
        }
    }
    assert forall|k: int, m: int| #![trigger all[k], all[m]] 0 <= k < m < all.len() implies all[k]
        < all[m] by {
        assert(all[k] == before[k]);
        if m < before.len() {
            assert(all[m] == before[m]);
        }
    }
    if i < last {
        if before.contains(i as usize) {
            let k = choose|k: int| 0 <= k < before.len() && before[k] == i as usize;
            assert(all[k] == i as usize);
        }
        if all.contains(i as usize) {
            let k = choose|k: int| 0 <= k < all.len() && all[k] == i as usize;
            assert(k < before.len());
            assert(before[k] == i as usize);
        }
        assert(textures[i] == rest[i]);
        if forall|k: int| 0 <= k < i ==> (#[trigger] rest[k]).src@ != rest[i].src@ {
            assert forall|k: int| 0 <= k < i implies (#[trigger] textures[k]).src@
                != textures[i].src@ by {
                assert(rest[k].src@ != rest[i].src@);
            }
        }
        if forall|k: int| 0 <= k < i ==> (#[trigger] textures[k]).src@ != textures[i].src@ {
            assert forall|k: int| 0 <= k < i implies (#[trigger] rest[k]).src@ != rest[i].src@ by {
                assert(textures[k].src@ != textures[i].src@);
            }
        }
    } else {
        let named = source_set(rest).contains(textures[last].src@);
        if named {
            let k = choose|k: int|
                0 <= k < rest.len() && (#[trigger] rest[k]).src@ == textures[last].src@;
            assert(textures[k].src@ == textures[last].src@);
        } else {
            assert forall|k: int| 0 <= k < last implies (#[trigger] textures[k]).src@
                != textures[last].src@ by {
                assert(rest[k].src@ == textures[k].src@);
            }
        }
        if all.len() > before.len() {
            assert(all[before.len() as int] == i as usize);
        } else if all.contains(i as usize) {
            let k = choose|k: int| 0 <= k < all.len() && all[k] == i as usize;
            assert(before[k] < rest.len());
        }
    }
}

/// An image at its natural size samples as many texels as the rectangle has logical
/// pixels, from the top left; a filled one, and one of which either side has no
/// extent, samples exactly the image.
pub proof fn law_natural_images_are_drawn_texel_for_pixel(
    img_w: u32,
    img_h: u32,
    rect_w: u32,
    rect_h: u32,
)
    requires
        !is_nan(rect_w) && !is_nan(rect_h),
        exponent_field(rect_w) < 255 && exponent_field(rect_h) < 255,
    ensures
        img_w > 0 && img_h > 0 && value(rect_w) > 0 && value(rect_h) > 0 ==> {
            let t = transform_of(ImageFit::Natural, img_w, img_h, rect_w, rect_h);
            &&& !t.centred
            &&& t.x.den == img_w && t.y.den == img_h
            &&& t.x.num * pow2((t.x.exp + UNIT_EXPONENT) as nat) == value(rect_w)
            &&& t.y.num * pow2((t.y.exp + UNIT_EXPONENT) as nat) == value(rect_h)
        },
        ({
            let t = transform_of(ImageFit::Fill, img_w, img_h, rect_w, rect_h);
            is_one(t.x) && is_one(t.y)
        }),
        img_w == 0 || img_h == 0 || value(rect_w) <= 0 || value(rect_h) <= 0 ==> forall|fit: ImageFit|
            is_one((#[trigger] transform_of(fit, img_w, img_h, rect_w, rect_h)).x) && is_one(
                transform_of(fit, img_w, img_h, rect_w, rect_h).y,
            ),
{
    lemma_sign_of_value(rect_w);
    lemma_sign_of_value(rect_h);
}

/// A number is above zero exactly if its value is.
proof fn lemma_sign_of_value(bits: u32)
    requires
        !is_nan(bits),
    ensures
        at_most_zero(bits) == (value(bits) <= 0),
{
    law_values_follow_their_patterns(0, bits);
    law_values_follow_their_patterns(0x8000_0000, bits);
    law_values_follow_their_patterns(0, 0x8000_0000);
}

/// A decoded image is ready at its own size, sampled through its own handle; one that could
/// not be decoded has failed.
pub proof fn law_decoded_images_are_ready_at_their_size(decoded: DecodedImage, handle: u64)
    ensures
        decoded.result matches Ok(rgba) ==> (resolution(decoded, handle) matches TextureState::Ready(
            e,
        ) && e.width == rgba.width && e.height == rgba.height && e.handle == handle),
        decoded.result is Err ==> resolution(decoded, handle) == TextureState::Failed,
{
}

} // verus!
