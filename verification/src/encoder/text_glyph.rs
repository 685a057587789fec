//! The `TextGlyph` pipeline: which lines are shaped again, which layer each is
//! drawn in, and which fonts are loaded.
//!
//! A line's glyphs are shaped again exactly when the key they were shaped from
//! differs from this frame's, when the viewport changed, or when its index does
//! not stand for the same element as in the previous frame. The line's `dirty`
//! flag is not consulted for that; it governs the redrawn region, so a change
//! the flag does not report is reported here.

use super::scissor::{clip_to_text_bounds, text_bounds_of, TextBounds};
use crate::pattern::{channel_byte, is_nan, lemma_channel_fits, unit_byte};
use crate::frame::{min_int, rect_of, rect_spec, ClipRect, TextLine};
use rustc_hash::FxHasher;
use std::hash::Hasher;
use std::ops::Range;
use vstd::prelude::*;

verus! {

/// What an `FxHasher` makes of a shaped run's inputs. Its arithmetic depends on
/// the pointer width, which is an argument.
pub uninterp spec fn fx_shape_digest(
    bits: int,
    text: Seq<char>,
    font_size: u32,
    wrap: u32,
    weight: u16,
    family: Seq<char>,
) -> u64;

/// What an `FxHasher` makes of a shape key and a colour, given the pointer
/// width.
pub uninterp spec fn fx_paint_digest(bits: int, key: u64, color: Seq<u32>) -> u64;

/// `rustc_hash::FxHasher`, fed the text's bytes, the font size, the wrap width,
/// the weight and the family's bytes, in this order. The digest is fixed by
/// those values and the pointer width: byte strings are read in little-endian
/// order everywhere, and the multiplication that mixes them is chosen by the
/// pointer width alone.
#[verifier::external_body]
fn shape_digest(text: &str, font_size: u32, wrap: u32, weight: u16, family: &str) -> (key: u64)
    ensures
        key == fx_shape_digest(usize::BITS as int, text@, font_size, wrap, weight, family@),
{
    let mut h = FxHasher::default();
    h.write(text.as_bytes());
    h.write_u32(font_size);
    h.write_u32(wrap);
    h.write_u16(weight);
    h.write(family.as_bytes());
    h.finish()
}

/// `rustc_hash::FxHasher`, fed a shape key and the four channels of a colour,
/// in this order. The digest is fixed by those values and the pointer width.
#[verifier::external_body]
fn paint_digest(key: u64, color: [u32; 4]) -> (hash: u64)
    ensures
        hash == fx_paint_digest(usize::BITS as int, key, color@),
{
    let mut h = FxHasher::default();
    h.write_u64(key);
    h.write_u32(color[0]);
    h.write_u32(color[1]);
    h.write_u32(color[2]);
    h.write_u32(color[3]);
    h.finish()
}

/// The wrap width as it enters the key; its absence has a value of its own.
pub open spec fn wrap_bits(wrap: Option<u32>) -> u32 {
    match wrap {
        Some(w) => w,
        None => u32::MAX,
    }
}

/// The family as it enters the key, empty for the default one.
pub open spec fn family_name(family: Option<String>) -> Seq<char> {
    match family {
        Some(f) => f@,
        None => Seq::empty(),
    }
}

/// The identity of a line's shaped glyphs: the digest of what reaches the
/// shaper, its text, size, wrap width, weight and family, and nothing else.
pub open spec fn shape_key_of(line: TextLine, wrap: Option<u32>) -> u64 {
    fx_shape_digest(
        usize::BITS as int,
        line.text@,
        line.font_size,
        wrap_bits(wrap),
        line.weight,
        family_name(line.family),
    )
}

/// A line's repaint hash: the digest of its shape key and its colour.
pub open spec fn content_hash_of(line: TextLine, wrap: Option<u32>) -> u64 {
    fx_paint_digest(usize::BITS as int, shape_key_of(line, wrap), line.color@)
}

/// The identity of a line's shaped glyphs. Colour and position never reach the
/// shaper and are not in it.
pub fn shape_key(line: &TextLine, wrap: Option<u32>) -> (key: u64)
    ensures
        key == shape_key_of(*line, wrap),
{
    let w: u32 = match wrap {
        Some(w) => w,
        None => u32::MAX,
    };
    proof {
        reveal_strlit("");
        assert(""@ =~= Seq::empty());
    }
    match &line.family {
        Some(f) => shape_digest(line.text.as_str(), line.font_size, w, line.weight, f.as_str()),
        None => shape_digest(line.text.as_str(), line.font_size, w, line.weight, ""),
    }
}

/// The shape key widened with the colour: everything a repaint depends on but
/// the position.
pub fn content_hash(line: &TextLine, wrap: Option<u32>) -> (hash: u64)
    ensures
        hash == content_hash_of(*line, wrap),
{
    let key: u64 = shape_key(line, wrap);
    paint_digest(key, line.color)
}

/// Whether two lines are shaped alike: they differ in colour, position and flag
/// at most.
pub open spec fn shaped_alike(a: TextLine, b: TextLine) -> bool {
    &&& a.text@ == b.text@
    &&& a.font_size == b.font_size
    &&& a.weight == b.weight
    &&& family_name(a.family) == family_name(b.family)
}

/// Lines that differ in colour, position and flag alone have one shape key.
pub proof fn law_paint_changes_keep_the_shape_key(a: TextLine, b: TextLine, wrap: Option<u32>)
    requires
        shaped_alike(a, b),
    ensures
        shape_key_of(a, wrap) == shape_key_of(b, wrap),
{
}

/// Whether a comparable line is shaped again.
pub fn needs_reshape(viewport_dirty: bool, shape_changed: bool) -> (yes: bool)
    ensures
        yes == (viewport_dirty || shape_changed),
{
    viewport_dirty || shape_changed
}

/// Whether an index stands for the same element as in the previous frame: it
/// had one, and the pool's length did not change. After a change of length any
/// index may stand for another element.
pub fn index_is_identity_stable(is_new: bool, length_changed: bool) -> (yes: bool)
    ensures
        yes == (!is_new && !length_changed),
{
    !is_new && !length_changed
}

/// Whether a line's flag agrees with its content. A line that changed while its
/// flag stayed unset is left out of the redrawn region. Flagging an unchanged
/// line is wasteful but sound.
pub open spec fn flag_agrees(hash_changed: bool, line_dirty: bool) -> bool {
    !hash_changed || line_dirty
}

/// Stops where a line changed while its flag stayed unset.
pub fn assert_dirty_flag_consistency(hash_changed: bool, line_dirty: bool)
    requires
        flag_agrees(hash_changed, line_dirty),
{
    let reported: Option<()> = if !hash_changed || line_dirty {
        Some(())
    } else {
        None
    };
    reported.expect(
        "a text primitive changed while its upstream dirty flag stayed unset. \
         The glyphs themselves are still correct, shaping is content-addressed \
         - but `dirty` is also what builds the incremental redraw region, so \
         this line may not be repainted where it changed.",
    )
}

/// What is kept of a shaped line.
#[derive(Debug, Clone, Copy, PartialEq, Eq)]
pub struct CachedLine {
    /// The key its glyphs were shaped from.
    pub shape_key: u64,
    /// Its repaint hash.
    pub content_hash: u64,
}

/// One layer's share of a frame's text.
#[derive(Debug, Clone, Copy, PartialEq, Eq)]
pub struct TextLayer {
    /// First line.
    pub start: usize,
    /// Past the last line.
    pub end: usize,
    /// Whether all its lines belong to the developer tools.
    pub dev: bool,
}

/// What is done for a frame's text.
#[derive(Debug)]
pub struct TextPlan {
    /// The lines to shape, in order. Those of the application come first.
    pub reshape: Vec<usize>,
    /// How many of them belong to the application.
    pub app_reshape: usize,
    /// The lines that changed while their flag stayed unset.
    pub unreported: Vec<usize>,
    /// How many renderers are kept.
    pub renderers: usize,
    /// The layers, one per renderer. Each is prepared, an empty one too: that
    /// is what clears its previous glyphs.
    pub layers: Vec<TextLayer>,
}

/// What a text pipeline holds.
pub struct TextView {
    /// Shaped lines by index; never shortened.
    pub cache: Seq<CachedLine>,
    /// Length of the previous frame's pool.
    pub last_len: int,
    /// Renderers held.
    pub renderers: int,
    /// Lines the last frame shaped.
    pub reshaped: int,
    /// Families loaded.
    pub loaded: Set<Seq<char>>,
}

/// The bookkeeping of the text pipeline.
pub struct TextGlyphPipeline {
    cache: Vec<CachedLine>,
    last_len: usize,
    renderers: usize,
    reshaped: usize,
    loaded_families: Vec<String>,
}

/// The families a list of names holds.
pub open spec fn family_set(names: Seq<String>) -> Set<Seq<char>> {
    Set::new(|n: Seq<char>| exists|i: int| 0 <= i < names.len() && #[trigger] names[i]@ == n)
}

impl View for TextGlyphPipeline {
    type V = TextView;

    closed spec fn view(&self) -> TextView {
        TextView {
            cache: self.cache@,
            last_len: self.last_len as int,
            renderers: self.renderers as int,
            reshaped: self.reshaped as int,
            loaded: family_set(self.loaded_families@),
        }
    }
}

/// Whether index `i` can be compared with the previous frame.
pub open spec fn comparable(v: TextView, count: int, i: int) -> bool {
    i < v.cache.len() && v.last_len == count
}

/// Whether line `i` is shaped again, given the frame's keys.
pub open spec fn reshapes(
    v: TextView,
    keys: Seq<CachedLine>,
    viewport_dirty: bool,
    i: int,
) -> bool {
    !comparable(v, keys.len() as int, i) || viewport_dirty || keys[i].shape_key
        != v.cache[i].shape_key
}

/// The lines among the first `n` that are shaped again, in order.
pub open spec fn reshaped_among(
    v: TextView,
    keys: Seq<CachedLine>,
    viewport_dirty: bool,
    n: int,
) -> Seq<usize>
    decreases n,
{
    if n <= 0 {
        Seq::empty()
    } else {
        let rest = reshaped_among(v, keys, viewport_dirty, n - 1);
        if reshapes(v, keys, viewport_dirty, n - 1) {
            rest.push((n - 1) as usize)
        } else {
            rest
        }
    }
}

/// The lines among the first `n` that changed while their flag stayed unset.
pub open spec fn unreported_among(
    v: TextView,
    keys: Seq<CachedLine>,
    flags: Seq<bool>,
    n: int,
) -> Seq<usize>
    decreases n,
{
    if n <= 0 {
        Seq::empty()
    } else {
        let rest = unreported_among(v, keys, flags, n - 1);
        if comparable(v, keys.len() as int, n - 1) && keys[n - 1].content_hash != v.cache[n
            - 1].content_hash && !flags[n - 1] {
            rest.push((n - 1) as usize)
        } else {
            rest
        }
    }
}

/// The cache after a frame: every line of the frame has this frame's keys, and
/// what lies beyond it is kept.
pub open spec fn cache_after(cache: Seq<CachedLine>, keys: Seq<CachedLine>) -> Seq<CachedLine> {
    if cache.len() <= keys.len() {
        keys
    } else {
        keys + cache.subrange(keys.len() as int, cache.len() as int)
    }
}

/// A range of lines as a layer of a pool of `count` lines, the developer
/// tools' lines starting at `split`. A malformed range is held to the pool.
pub open spec fn layer_of(range: Range<usize>, count: int, split: int) -> TextLayer {
    let start = if range.start <= count {
        range.start as int
    } else {
        count
    };
    let end = if range.end < start {
        start
    } else if range.end > count {
        count
    } else {
        range.end as int
    };
    TextLayer { start: start as usize, end: end as usize, dev: start >= split && end > start }
}

/// The layers of a pool: one per range, or a single one for all lines where no
/// partition is given.
pub open spec fn layers_of(ranges: Seq<Range<usize>>, count: int, split: int) -> Seq<TextLayer> {
    if ranges.len() == 0 {
        seq![TextLayer { start: 0, end: count as usize, dev: 0 >= split && count > 0 }]
    } else {
        Seq::new(ranges.len(), |i: int| layer_of(ranges[i], count, split))
    }
}

/// Where the developer tools' lines start in a pool of `count` lines.
pub open spec fn split_of(dev_text_start: int, count: int) -> int {
    if dev_text_start <= count {
        dev_text_start
    } else {
        count
    }
}

/// Whether a frame with these keys took the pipeline from `before` to `after`
/// under `plan`.
pub open spec fn prepared(
    before: TextView,
    after: TextView,
    keys: Seq<CachedLine>,
    flags: Seq<bool>,
    viewport_dirty: bool,
    ranges: Seq<Range<usize>>,
    dev_text_start: usize,
    plan: TextPlan,
) -> bool {
    let count = keys.len() as int;
    let split = split_of(dev_text_start as int, count);
    &&& plan.reshape@ == reshaped_among(before, keys, viewport_dirty, count)
    &&& plan.app_reshape == reshaped_among(before, keys, viewport_dirty, split).len()
    &&& plan.unreported@ == unreported_among(before, keys, flags, count)
    &&& plan.layers@ == layers_of(ranges, count, split)
    &&& plan.renderers == plan.layers@.len()
    &&& after == (TextView {
        cache: cache_after(before.cache, keys),
        last_len: count,
        renderers: plan.layers@.len() as int,
        reshaped: plan.reshape@.len() as int,
        loaded: before.loaded,
    })
}

/// One layer of a pool.
fn clamp_layer(start: usize, end: usize, count: usize, split: usize) -> (l: TextLayer)
    ensures
        l == layer_of((Range { start, end }), count as int, split as int),
{
    let first: usize = if start <= count {
        start
    } else {
        count
    };
    let past: usize = if end < first {
        first
    } else if end > count {
        count
    } else {
        end
    };
    TextLayer { start: first, end: past, dev: first >= split && past > first }
}

/// The layers of a pool.
fn plan_layers(ranges: &[Range<usize>], count: usize, split: usize) -> (layers: Vec<TextLayer>)
    ensures
        layers@ == layers_of(ranges@, count as int, split as int),
{
    let mut layers: Vec<TextLayer> = Vec::new();
    if ranges.len() == 0 {
        layers.push(clamp_layer(0, count, count, split));
        assert(layers@ =~= layers_of(ranges@, count as int, split as int));
        return layers;
    }
    let mut i: usize = 0;
    while i < ranges.len()
        invariant
            i <= ranges@.len(),
            ranges@.len() > 0,
            layers@ == layers_of(ranges@, count as int, split as int).take(i as int),
        decreases ranges@.len() - i,
    {
        layers.push(clamp_layer(ranges[i].start, ranges[i].end, count, split));
        assert((Range { start: ranges@[i as int].start, end: ranges@[i as int].end })
            == ranges@[i as int]);
        i = i + 1;
        assert(layers@ =~= layers_of(ranges@, count as int, split as int).take(i as int));
    }
    assert(layers@ =~= layers_of(ranges@, count as int, split as int));
    layers
}

/// Which faces of a table are to be loaded: those whose family is neither
/// loaded nor named by an earlier face.
pub open spec fn missing(loaded: Set<Seq<char>>, faces: Seq<String>) -> Seq<usize>
    decreases faces.len(),
{
    if faces.len() == 0 {
        Seq::empty()
    } else {
        let rest = missing(loaded, faces.drop_last());
        if loaded.contains(faces.last()@) || family_set(faces.drop_last()).contains(
            faces.last()@,
        ) {
            rest
        } else {
            rest.push((faces.len() - 1) as usize)
        }
    }
}

impl TextGlyphPipeline {
    /// A pipeline with a single layer's renderer and nothing shaped or loaded.
    pub fn new() -> (p: TextGlyphPipeline)
        ensures
            p@ == (TextView {
                cache: Seq::empty(),
                last_len: 0,
                renderers: 1,
                reshaped: 0,
                loaded: Set::empty(),
            }),
    {
        let p: TextGlyphPipeline = TextGlyphPipeline {
            cache: Vec::new(),
            last_len: 0,
            renderers: 1,
            reshaped: 0,
            loaded_families: Vec::new(),
        };
        assert(p@.loaded =~= Set::empty());
        p
    }

    /// How many lines the last frame shaped. Zero on a steady scene.
    pub fn reshaped_lines(&self) -> (n: usize)
        ensures
            n == self@.reshaped,
    {
        self.reshaped
    }

    /// Whether a layer has a renderer. One without draws nothing, so that a
    /// layer too many is never an error.
    pub fn has_layer(&self, layer: usize) -> (yes: bool)
        ensures
            yes == (layer < self@.renderers),
    {
        layer < self.renderers
    }

    /// Whether a family is loaded.
    fn is_loaded(&self, family: &String) -> (yes: bool)
        ensures
            yes == self@.loaded.contains(family@),
    {
        let mut i: usize = 0;
        while i < self.loaded_families.len()
            invariant
                i <= self.loaded_families@.len(),
                forall|k: int| 0 <= k < i ==> (#[trigger] self.loaded_families@[k])@ != family@,
            decreases self.loaded_families@.len() - i,
        {
            if self.loaded_families[i] == *family {
                assert(self.loaded_families@[i as int]@ == family@);
                return true;
            }
            i = i + 1;
        }
        false
    }

    /// Which faces of a frame's font table are to be loaded before anything is
    /// shaped, given each face's family. A family that is loaded is never
    /// loaded again. The length of the result is how many were.
    pub fn register_fonts(&mut self, faces: &[String]) -> (load: Vec<usize>)
        ensures
            load@ == missing(old(self)@.loaded, faces@),
            final(self)@ == (TextView {
                loaded: old(self)@.loaded.union(family_set(faces@)),
                ..old(self)@
            }),
    {
        let ghost start = self@;
        let mut load: Vec<usize> = Vec::new();
        let mut i: usize = 0;
        proof {
            assert(family_set(faces@.take(0)) =~= Set::empty());
            assert(start.loaded.union(Set::empty()) =~= start.loaded);
        }
        while i < faces.len()
            invariant
                i <= faces@.len(),
                load@ == missing(start.loaded, faces@.take(i as int)),
                self@ == (TextView {
                    loaded: start.loaded.union(family_set(faces@.take(i as int))),
                    ..start
                }),
            decreases faces@.len() - i,
        {
            let ghost before = faces@.take(i as int);
            let ghost next = faces@.take(i as int + 1);
            proof {
                assert(next.drop_last() =~= before);
                assert(next.last() == faces@[i as int]);
                lemma_family_grows(before, faces@[i as int]);
                assert(next =~= before.push(faces@[i as int]));
            }
            if !self.is_loaded(&faces[i]) {
                let ghost held = self.loaded_families@;
                let name: String = faces[i].clone();
                self.loaded_families.push(name);
                load.push(i);
                proof {
                    lemma_family_grows(held, name);
                }
            }
            i = i + 1;
            assert(self@.loaded =~= start.loaded.union(family_set(next)));
        }
        assert(faces@.take(i as int) =~= faces@);
        load
    }

    /// Plans a frame's text, given the keys of its lines: which are shaped,
    /// how many renderers there are, and each layer's lines.
    pub fn prepare_keys(
        &mut self,
        keys: Vec<CachedLine>,
        flags: &[bool],
        viewport_dirty: bool,
        layer_ranges: &[Range<usize>],
        dev_text_start: usize,
    ) -> (plan: TextPlan)
        requires
            flags@.len() == keys@.len(),
        ensures
            prepared(
                old(self)@,
                final(self)@,
                keys@,
                flags@,
                viewport_dirty,
                layer_ranges@,
                dev_text_start,
                plan,
            ),
    {
        let ghost start = self@;
        let count: usize = keys.len();
        let split: usize = if dev_text_start <= count {
            dev_text_start
        } else {
            count
        };
        let length_changed: bool = self.last_len != count;
        let mut reshape: Vec<usize> = Vec::new();
        let mut unreported: Vec<usize> = Vec::new();
        let mut app_reshape: usize = 0;
        let mut i: usize = 0;
        while i < count
            invariant
                i <= count,
                count == keys@.len(),
                flags@.len() == count,
                split == split_of(dev_text_start as int, count as int),
                self@ == start,
                self.cache@ == start.cache,
                length_changed == (start.last_len != count),
                reshape@ == reshaped_among(start, keys@, viewport_dirty, i as int),
                unreported@ == unreported_among(start, keys@, flags@, i as int),
                i <= split ==> app_reshape == reshape@.len(),
                i > split ==> app_reshape == reshaped_among(
                    start,
                    keys@,
                    viewport_dirty,
                    split as int,
                ).len(),
            decreases count - i,
        {
            let is_new: bool = i >= self.cache.len();
            let stable: bool = index_is_identity_stable(is_new, length_changed);
            if stable {
                let hash_changed: bool = keys[i].content_hash != self.cache[i].content_hash;
                if hash_changed && !flags[i] {
                    unreported.push(i);
                }
            }
            if !stable || needs_reshape(
                viewport_dirty,
                keys[i].shape_key != self.cache[i].shape_key,
            ) {
                reshape.push(i);
            }
            i = i + 1;
            if i <= split {
                app_reshape = reshape.len();
            }
        }
        let ghost held = self.cache@;
        let mut cache: Vec<CachedLine> = keys;
        let mut k: usize = cache.len();
        while k < self.cache.len()
            invariant
                self.cache@ == held,
                count <= k,
                count < held.len() ==> k <= held.len(),
                held.len() <= count ==> k == count,
                k == cache@.len(),
                cache@ == keys@ + (if k > count {
                    held.subrange(count as int, k as int)
                } else {
                    Seq::empty()
                }),
                count == keys@.len(),
            decreases self.cache@.len() - k,
        {
            cache.push(self.cache[k]);
            k = k + 1;
            assert(cache@ =~= keys@ + held.subrange(count as int, k as int));
        }
        assert(cache@ =~= cache_after(held, keys@));
        self.cache = cache;
        self.last_len = count;
        self.reshaped = reshape.len();
        let layers: Vec<TextLayer> = plan_layers(layer_ranges, count, split);
        self.renderers = layers.len();
        proof {
            if split == count {
                assert(app_reshape == reshape@.len());
            }
        }
        TextPlan { reshape, app_reshape, unreported, renderers: layers.len(), layers }
    }

    /// Plans a frame's text: computes the keys of its lines and plans with
    /// them.
    pub fn prepare(
        &mut self,
        text_lines: &[TextLine],
        wraps: &[Option<u32>],
        viewport_dirty: bool,
        layer_ranges: &[Range<usize>],
        dev_text_start: usize,
    ) -> (plan: TextPlan)
        ensures
            text_prepared(
                old(self)@,
                final(self)@,
                text_lines@,
                wraps@,
                viewport_dirty,
                layer_ranges@,
                dev_text_start,
                plan,
            ),
    {
        let mut keys: Vec<CachedLine> = Vec::new();
        let mut flags: Vec<bool> = Vec::new();
        let mut i: usize = 0;
        while i < text_lines.len()
            invariant
                i <= text_lines@.len(),
                keys@ == keys_of(text_lines@, wraps@).take(i as int),
                flags@ == dirty_flags(text_lines@).take(i as int),
            decreases text_lines@.len() - i,
        {
            let wrap: Option<u32> = if i < wraps.len() {
                wraps[i]
            } else {
                None
            };
            let entry: CachedLine = CachedLine {
                shape_key: shape_key(&text_lines[i], wrap),
                content_hash: content_hash(&text_lines[i], wrap),
            };
            keys.push(entry);
            flags.push(text_lines[i].dirty);
            i = i + 1;
            assert(keys@ =~= keys_of(text_lines@, wraps@).take(i as int));
            assert(flags@ =~= dirty_flags(text_lines@).take(i as int));
        }
        assert(flags@ =~= dirty_flags(text_lines@));
        assert(keys@ =~= keys_of(text_lines@, wraps@));
        self.prepare_keys(keys, flags.as_slice(), viewport_dirty, layer_ranges, dev_text_start)
    }
}

/// The wrap width of line `i`, none where the list is too short.
pub open spec fn wrap_of(wraps: Seq<Option<u32>>, i: int) -> Option<u32> {
    if i < wraps.len() {
        wraps[i]
    } else {
        None
    }
}

/// The flags of a frame's lines.
pub open spec fn dirty_flags(lines: Seq<TextLine>) -> Seq<bool> {
    Seq::new(lines.len(), |i: int| lines[i].dirty)
}

/// The keys of a frame's lines.
pub open spec fn keys_of(lines: Seq<TextLine>, wraps: Seq<Option<u32>>) -> Seq<CachedLine> {
    Seq::new(
        lines.len(),
        |i: int|
            CachedLine {
                shape_key: shape_key_of(lines[i], wrap_of(wraps, i)),
                content_hash: content_hash_of(lines[i], wrap_of(wraps, i)),
            },
    )
}

/// Whether a frame of these lines took the pipeline from `before` to `after`
/// under `plan`.
pub open spec fn text_prepared(
    before: TextView,
    after: TextView,
    lines: Seq<TextLine>,
    wraps: Seq<Option<u32>>,
    viewport_dirty: bool,
    ranges: Seq<Range<usize>>,
    dev_text_start: usize,
    plan: TextPlan,
) -> bool {
    prepared(
        before,
        after,
        keys_of(lines, wraps),
        dirty_flags(lines),
        viewport_dirty,
        ranges,
        dev_text_start,
        plan,
    )
}

/// One more name adds its family.
proof fn lemma_family_grows(names: Seq<String>, name: String)
    ensures
        family_set(names.push(name)) == family_set(names).insert(name@),
{
    let grown = names.push(name);
    assert forall|n: Seq<char>|
        family_set(grown).contains(n) == family_set(names).insert(name@).contains(n) by {
        if family_set(names).contains(n) {
            let i = choose|i: int| 0 <= i < names.len() && #[trigger] names[i]@ == n;
            assert(grown[i]@ == n);
        }
        if n == name@ {
            assert(grown[names.len() as int]@ == n);
        }
        if family_set(grown).contains(n) {
            let i = choose|i: int| 0 <= i < grown.len() && #[trigger] grown[i]@ == n;
            if i < names.len() {
                assert(names[i]@ == n);
            }
        }
    }
    assert(family_set(grown) =~= family_set(names).insert(name@));
}

/// A font table is loaded once, however often it is delivered: with its
/// families loaded, none of its faces is missing.
pub proof fn law_families_are_loaded_once(loaded: Set<Seq<char>>, faces: Seq<String>)
    requires
        forall|n: Seq<char>| #[trigger] family_set(faces).contains(n) ==> loaded.contains(n),
    ensures
        missing(loaded, faces).len() == 0,
    decreases faces.len(),
{
    if faces.len() > 0 {
        let rest = faces.drop_last();
        assert(faces =~= rest.push(faces.last()));
        lemma_family_grows(rest, faces.last());
        assert forall|n: Seq<char>| #[trigger] family_set(rest).contains(n) implies loaded.contains(
            n,
        ) by {
            assert(family_set(faces).contains(n));
        }
        law_families_are_loaded_once(loaded, rest);
        assert(family_set(faces).contains(faces.last()@));
    }
}

/// A steady scene shapes nothing: the same number of lines as in the previous
/// frame, every key as cached, and the viewport unchanged.
pub proof fn law_steady_scene_reshapes_nothing(v: TextView, keys: Seq<CachedLine>, n: int)
    requires
        v.last_len == keys.len(),
        keys.len() <= v.cache.len(),
        0 <= n <= keys.len(),
        forall|i: int|
            0 <= i < keys.len() ==> (#[trigger] keys[i]).shape_key == v.cache[i].shape_key,
    ensures
        reshaped_among(v, keys, false, n).len() == 0,
    decreases n,
{
    if n > 0 {
        law_steady_scene_reshapes_nothing(v, keys, n - 1);
        assert(keys[n - 1].shape_key == v.cache[n - 1].shape_key);
    }
}

/// Right after a frame, a frame with the same keys shapes nothing, whatever the
/// cache held before.
pub proof fn law_second_identical_frame_reshapes_nothing(
    before: TextView,
    keys: Seq<CachedLine>,
)
    ensures
        reshaped_among(
            (TextView {
                cache: cache_after(before.cache, keys),
                last_len: keys.len() as int,
                ..before
            }),
            keys,
            false,
            keys.len() as int,
        ).len() == 0,
{
    law_steady_scene_reshapes_nothing(
        (TextView {
            cache: cache_after(before.cache, keys),
            last_len: keys.len() as int,
            ..before
        }),
        keys,
        keys.len() as int,
    );
}

/// Right after a frame, a frame whose lines differ from its lines in colour,
/// position and flag at most shapes nothing.
pub proof fn law_repainted_scene_reshapes_nothing(
    before: TextView,
    between: TextView,
    after: TextView,
    first: Seq<TextLine>,
    second: Seq<TextLine>,
    wraps: Seq<Option<u32>>,
    viewport_dirty: bool,
    ranges: Seq<Range<usize>>,
    dev_text_start: usize,
    plan: TextPlan,
    again: TextPlan,
)
    requires
        text_prepared(before, between, first, wraps, viewport_dirty, ranges, dev_text_start, plan),
        text_prepared(between, after, second, wraps, false, ranges, dev_text_start, again),
        second.len() == first.len(),
        forall|i: int| 0 <= i < first.len() ==> shaped_alike(#[trigger] first[i], second[i]),
    ensures
        again.reshape@.len() == 0,
        after.reshaped == 0,
{
    let keys = keys_of(second, wraps);
    assert forall|i: int| 0 <= i < keys.len() implies (#[trigger] keys[i]).shape_key
        == between.cache[i].shape_key by {
        assert(shaped_alike(first[i], second[i]));
        assert(between.cache[i] == keys_of(first, wraps)[i]);
    }
    law_steady_scene_reshapes_nothing(between, keys, keys.len() as int);
}

/// A change of the pool's length, and a change of the viewport, shape every
/// line again.
pub proof fn law_incomparable_frames_reshape_everything(
    v: TextView,
    keys: Seq<CachedLine>,
    viewport_dirty: bool,
    n: int,
)
    requires
        v.last_len != keys.len() || viewport_dirty,
        0 <= n <= keys.len(),
        keys.len() <= usize::MAX,
    ensures
        reshaped_among(v, keys, viewport_dirty, n) == Seq::new(n as nat, |i: int| i as usize),
    decreases n,
{
    if n > 0 {
        law_incomparable_frames_reshape_everything(v, keys, viewport_dirty, n - 1);
    }
    assert(reshaped_among(v, keys, viewport_dirty, n) =~= Seq::new(n as nat, |i: int| i as usize));
}

/// A change of content the flag does not report still reaches the glyphs: what
/// is shaped does not depend on the flags at all.
pub proof fn law_forgotten_flags_leave_nothing_stale(
    before: TextView,
    after: TextView,
    keys: Seq<CachedLine>,
    flags: Seq<bool>,
    viewport_dirty: bool,
    ranges: Seq<Range<usize>>,
    dev_text_start: usize,
    plan: TextPlan,
    i: int,
)
    requires
        prepared(before, after, keys, flags, viewport_dirty, ranges, dev_text_start, plan),
        0 <= i < keys.len() <= usize::MAX,
        i < before.cache.len(),
        keys[i].shape_key != before.cache[i].shape_key,
    ensures
        plan.reshape@.contains(i as usize),
        after.cache[i] == keys[i],
{
    lemma_reshaped_holds(before, keys, viewport_dirty, keys.len() as int, i);
}

/// A line that is shaped again is in the list.
proof fn lemma_reshaped_holds(
    v: TextView,
    keys: Seq<CachedLine>,
    viewport_dirty: bool,
    n: int,
    i: int,
)
    requires
        0 <= i < n,
        reshapes(v, keys, viewport_dirty, i),
    ensures
        reshaped_among(v, keys, viewport_dirty, n).contains(i as usize),
    decreases n,
{
    let rest = reshaped_among(v, keys, viewport_dirty, n - 1);
    let all = reshaped_among(v, keys, viewport_dirty, n);
    if i == n - 1 {
        assert(all[rest.len() as int] == i as usize);
    } else {
        lemma_reshaped_holds(v, keys, viewport_dirty, n - 1, i);
        let at = choose|at: int| 0 <= at < rest.len() && rest[at] == i as usize;
        assert(all[at] == i as usize);
    }
}

/// One line as it is drawn.
#[derive(Debug, Clone, Copy, PartialEq, Eq)]
pub struct LineArea {
    /// Its index in the whole pool.
    pub line: usize,
    /// What it is clipped to.
    pub bounds: TextBounds,
    /// Its colour, one byte per channel.
    pub color: [u8; 4],
}

/// Bounds that clip nothing on screen.
pub open spec fn unclipped() -> TextBounds {
    TextBounds { left: 0, top: 0, right: i32::MAX, bottom: i32::MAX }
}

/// What line `i` is clipped to: its content clip, if it names one there is.
pub open spec fn bounds_of(
    clips: Seq<ClipRect>,
    text_clips: Seq<Option<u16>>,
    scale: u32,
    i: int,
) -> TextBounds {
    if i < text_clips.len() {
        match text_clips[i] {
            Some(c) => if c < clips.len() {
                text_bounds_of(rect_spec(clips[c as int].rect), scale)
            } else {
                unclipped()
            },
            None => unclipped(),
        }
    } else {
        unclipped()
    }
}

/// Line `i` as it is drawn.
pub open spec fn area_of(
    lines: Seq<TextLine>,
    clips: Seq<ClipRect>,
    text_clips: Seq<Option<u16>>,
    scale: u32,
    i: int,
) -> LineArea {
    LineArea {
        line: i as usize,
        bounds: bounds_of(clips, text_clips, scale, i),
        color: [
            channel_byte(lines[i].color[0]) as u8,
            channel_byte(lines[i].color[1]) as u8,
            channel_byte(lines[i].color[2]) as u8,
            channel_byte(lines[i].color[3]) as u8,
        ],
    }
}

/// A layer's lines as they are drawn, in order.
pub fn collect_layer_text_areas(
    text_lines: &[TextLine],
    layer: TextLayer,
    scale_factor: u32,
    clips: &[ClipRect],
    text_clips: &[Option<u16>],
) -> (areas: Vec<LineArea>)
    requires
        layer.start <= layer.end <= text_lines@.len(),
    ensures
        areas@ == Seq::new(
            (layer.end - layer.start) as nat,
            |k: int| area_of(text_lines@, clips@, text_clips@, scale_factor, layer.start + k),
        ),
        forall|k: int, c: int| #![trigger areas@[k].color[c]]
            0 <= k < areas@.len() && 0 <= c < 4 ==> areas@[k].color[c] == channel_byte(
                text_lines@[layer.start + k].color[c],
            ),
        forall|k: int| #![trigger areas@[k]]
            0 <= k < areas@.len() ==> areas@[k].line == layer.start + k,
{
    let mut areas: Vec<LineArea> = Vec::new();
    let mut i: usize = layer.start;
    while i < layer.end
        invariant
            layer.start <= i <= layer.end,
            layer.end <= text_lines@.len(),
            areas@ == Seq::new(
                (i - layer.start) as nat,
                |k: int| area_of(text_lines@, clips@, text_clips@, scale_factor, layer.start + k),
            ),
        decreases layer.end - i,
    {
        let clip: Option<u16> = if i < text_clips.len() {
            text_clips[i]
        } else {
            None
        };
        let whole: TextBounds = TextBounds { left: 0, top: 0, right: i32::MAX, bottom: i32::MAX };
        let bounds: TextBounds = match clip {
            Some(c) => if (c as usize) < clips.len() {
                clip_to_text_bounds(rect_of(clips[c as usize].rect), scale_factor)
            } else {
                whole
            },
            None => whole,
        };
        let c: [u32; 4] = text_lines[i].color;
        let color: [u8; 4] = [unit_byte(c[0]), unit_byte(c[1]), unit_byte(c[2]), unit_byte(c[3])];
        let area: LineArea = LineArea { line: i, bounds, color };
        proof {
            let want = area_of(text_lines@, clips@, text_clips@, scale_factor, i as int);
            assert(area.color@ =~= want.color@);
            assert(area == want);
        }
        areas.push(area);
        i = i + 1;
        assert(areas@ =~= Seq::new(
            (i - layer.start) as nat,
            |k: int| area_of(text_lines@, clips@, text_clips@, scale_factor, layer.start + k),
        ));
    }
    proof {
        assert forall|k: int, c: int| #![trigger areas@[k].color[c]]
            0 <= k < areas@.len() && 0 <= c < 4 implies areas@[k].color[c] == channel_byte(
            text_lines@[layer.start + k].color[c],
        ) by {
            law_lines_are_drawn_in_their_own_colour(
                text_lines@,
                clips@,
                text_clips@,
                scale_factor,
                layer.start + k,
                c,
            );
        }
    }
    areas
}

/// What a drawn line looks like, channel by channel: each byte of its colour is that
/// channel of the line's own colour. It is clipped to its own clip alone.
pub proof fn law_lines_are_drawn_in_their_own_colour(
    lines: Seq<TextLine>,
    clips: Seq<ClipRect>,
    text_clips: Seq<Option<u16>>,
    scale: u32,
    i: int,
    c: int,
)
    requires
        0 <= i < lines.len(),
        i <= usize::MAX,
        0 <= c < 4,
    ensures
        ({
            let area = area_of(lines, clips, text_clips, scale, i);
            &&& area.line == i
            &&& area.color[c] == channel_byte(lines[i].color[c])
            &&& area.bounds == (match own_clip(text_clips, i) {
                Some(k) => if k < clips.len() {
                    text_bounds_of(rect_spec(clips[k as int].rect), scale)
                } else {
                    TextBounds { left: 0, top: 0, right: i32::MAX, bottom: i32::MAX }
                },
                None => TextBounds { left: 0, top: 0, right: i32::MAX, bottom: i32::MAX },
            })
        }),
{
    lemma_channel_fits(lines[i].color[c]);
}

/// The clip of line `i`; a line past the list has none.
pub open spec fn own_clip(clips: Seq<Option<u16>>, i: int) -> Option<u16> {
    if i < clips.len() {
        clips[i]
    } else {
        None
    }
}

/// Which lines a frame shapes, and which it reports: a line is shaped exactly if it
/// has no cached one, or the number of lines or the viewport changed, or its key
/// differs from the cached one. It is reported exactly if it can be compared, its
/// content changed and its flag is unset. Both lists are in order.
pub proof fn law_exactly_the_changed_lines_are_shaped(
    before: TextView,
    after: TextView,
    keys: Seq<CachedLine>,
    flags: Seq<bool>,
    viewport_dirty: bool,
    ranges: Seq<Range<usize>>,
    dev_text_start: usize,
    plan: TextPlan,
    i: int,
)
    requires
        prepared(before, after, keys, flags, viewport_dirty, ranges, dev_text_start, plan),
        0 <= i < keys.len() <= usize::MAX,
    ensures
        plan.reshape@.contains(i as usize) <==> {
            ||| i >= before.cache.len()
            ||| before.last_len != keys.len()
            ||| viewport_dirty
            ||| keys[i].shape_key != before.cache[i].shape_key
        },
        plan.unreported@.contains(i as usize) <==> {
            &&& i < before.cache.len()
            &&& before.last_len == keys.len()
            &&& keys[i].content_hash != before.cache[i].content_hash
            &&& !flags[i]
        },
        forall|k: int, m: int| #![trigger plan.reshape@[k], plan.reshape@[m]]
            0 <= k < m < plan.reshape@.len() ==> plan.reshape@[k] < plan.reshape@[m],
        forall|k: int| #![trigger plan.reshape@[k]]
            0 <= k < plan.reshape@.len() ==> plan.reshape@[k] < keys.len() && ((k
                < plan.app_reshape) == (plan.reshape@[k] < dev_text_start)),
        plan.app_reshape <= plan.reshape@.len(),
        after.cache[i] == keys[i],
        forall|k: int|
            keys.len() <= k < before.cache.len() ==> after.cache.len() == before.cache.len()
                && #[trigger] after.cache[k] == before.cache[k],
        after.last_len == keys.len(),
        after.reshaped == plan.reshape@.len(),
{
    let n = keys.len() as int;
    let split = split_of(dev_text_start as int, n);
    lemma_reshaped_list(before, keys, viewport_dirty, n, split);
    lemma_unreported_list(before, keys, flags, n);
}

/// What the list of shaped lines holds.
proof fn lemma_reshaped_list(
    v: TextView,
    keys: Seq<CachedLine>,
    viewport_dirty: bool,
    n: int,
    split: int,
)
    requires
        0 <= n <= keys.len() <= usize::MAX,
        0 <= split,
    ensures
        ({
            let all = reshaped_among(v, keys, viewport_dirty, n);
            let app = reshaped_among(v, keys, viewport_dirty, min_int(split, n));
            &&& forall|i: int|
                0 <= i < n ==> #[trigger] all.contains(i as usize) == reshapes(
                    v,
                    keys,
                    viewport_dirty,
                    i,
                )
            &&& forall|k: int, m: int| #![trigger all[k], all[m]]
                0 <= k < m < all.len() ==> all[k] < all[m]
            &&& forall|k: int| #![trigger all[k]]
                0 <= k < all.len() ==> all[k] < n && ((k < app.len()) == (all[k] < split))
            &&& app.len() <= all.len()
        }),
    decreases n,
{
    let all = reshaped_among(v, keys, viewport_dirty, n);
    if n > 0 {
        let rest = reshaped_among(v, keys, viewport_dirty, n - 1);
        lemma_reshaped_list(v, keys, viewport_dirty, n - 1, split);
        let app = reshaped_among(v, keys, viewport_dirty, min_int(split, n));
        assert forall|i: int| 0 <= i < n implies #[trigger] all.contains(i as usize) == reshapes(
            v,
            keys,
            viewport_dirty,
            i,
        ) by {
            if reshapes(v, keys, viewport_dirty, i) {
                lemma_reshaped_holds(v, keys, viewport_dirty, n, i);
            } else if all.contains(i as usize) {
                let k = choose|k: int| 0 <= k < all.len() && all[k] == i as usize;
                if k < rest.len() {
                    assert(rest[k] == i as usize);
                    assert(rest[k] < n - 1);
                    assert(rest.contains(i as usize));
                }
            }
        }
        assert forall|k: int| #![trigger all[k]] 0 <= k < all.len() implies all[k] < n && ((k
            < app.len()) == (all[k] < split)) by {
            if k < rest.len() {
                assert(all[k] == rest[k]);
            }
        }
        assert forall|k: int, m: int| #![trigger all[k], all[m]]
            0 <= k < m < all.len() implies all[k] < all[m] by {
            assert(all[k] == rest[k]);
            if m < rest.len() {
                assert(all[m] == rest[m]);
            }
        }
    }
}

/// What the list of reported lines holds.
proof fn lemma_unreported_list(v: TextView, keys: Seq<CachedLine>, flags: Seq<bool>, n: int)
    requires
        0 <= n <= keys.len() <= usize::MAX,
    ensures
        ({
            let all = unreported_among(v, keys, flags, n);
            &&& forall|i: int|
                0 <= i < n ==> #[trigger] all.contains(i as usize) == (comparable(
                    v,
                    keys.len() as int,
                    i,
                ) && keys[i].content_hash != v.cache[i].content_hash && !flags[i])
            &&& forall|k: int| #![trigger all[k]] 0 <= k < all.len() ==> all[k] < n
        }),
    decreases n,
{
    let all = unreported_among(v, keys, flags, n);
    if n > 0 {
        let rest = unreported_among(v, keys, flags, n - 1);
        lemma_unreported_list(v, keys, flags, n - 1);
        assert forall|i: int| 0 <= i < n implies #[trigger] all.contains(i as usize) == (comparable(
            v,
            keys.len() as int,
            i,
        ) && keys[i].content_hash != v.cache[i].content_hash && !flags[i]) by {
            if i < n - 1 {
                if rest.contains(i as usize) {
                    let k = choose|k: int| 0 <= k < rest.len() && rest[k] == i as usize;
                    assert(all[k] == i as usize);
                }
                if all.contains(i as usize) {
                    let k = choose|k: int| 0 <= k < all.len() && all[k] == i as usize;
                    assert(k < rest.len());
                    assert(rest[k] == i as usize);
                }
            } else {
                if all.len() > rest.len() {
                    assert(all[rest.len() as int] == i as usize);
                } else if all.contains(i as usize) {
                    let k = choose|k: int| 0 <= k < all.len() && all[k] == i as usize;
                    assert(rest[k] < n - 1);
                }
            }
        }
        assert forall|k: int| #![trigger all[k]] 0 <= k < all.len() implies all[k] < n by {
            if k < rest.len() {
                assert(all[k] == rest[k]);
            }
        }
    }
}

/// Each range of lines is a layer of its own, drawn by its own renderer; without
/// ranges all lines are one layer. A layer belongs to the developer tools exactly
/// if it has lines and all of them do.
pub proof fn law_each_range_is_its_own_layer(
    before: TextView,
    after: TextView,
    keys: Seq<CachedLine>,
    flags: Seq<bool>,
    viewport_dirty: bool,
    ranges: Seq<Range<usize>>,
    dev_text_start: usize,
    plan: TextPlan,
    k: int,
)
    requires
        prepared(before, after, keys, flags, viewport_dirty, ranges, dev_text_start, plan),
        keys.len() <= usize::MAX,
        0 <= k < plan.layers@.len(),
    ensures
        plan.layers@.len() == (if ranges.len() == 0 {
            1
        } else {
            ranges.len()
        }),
        plan.renderers == plan.layers@.len() && after.renderers == plan.layers@.len(),
        ranges.len() == 0 ==> plan.layers@[0].start == 0 && plan.layers@[0].end == keys.len(),
        ranges.len() > 0 && ranges[k].start <= ranges[k].end <= keys.len() ==> plan.layers@[k].start
            == ranges[k].start && plan.layers@[k].end == ranges[k].end,
        plan.layers@[k].start <= plan.layers@[k].end <= keys.len(),
        plan.layers@[k].dev == (plan.layers@[k].start < plan.layers@[k].end
            && plan.layers@[k].start >= dev_text_start),
{
}

/// A line that does not wrap is told apart from one that wraps at any width, and two
/// widths from each other, but for the one pattern, not a number, that stands for no
/// width; a family is told apart by its name.
pub proof fn law_wrap_widths_are_told_apart(
    a: Option<u32>,
    b: Option<u32>,
    family: String,
)
    requires
        a != b,
        a matches Some(w) ==> !is_nan(w),
        b matches Some(w) ==> !is_nan(w),
    ensures
        wrap_bits(a) != wrap_bits(b),
        a matches Some(w) ==> wrap_bits(a) == w,
        family_name(Some(family)) == family@,
        family_name(None).len() == 0,
{
    assert(is_nan(0xffff_ffffu32));
}

/// The keys of a line are the digests of everything that reaches the shaper and, for the
/// repaint hash, of that and every channel of the colour.
pub proof fn law_keys_take_in_everything_that_is_drawn(line: TextLine, wrap: Option<u32>)
    ensures
        shape_key_of(line, wrap) == fx_shape_digest(
            usize::BITS as int,
            line.text@,
            line.font_size,
            (if wrap is Some {
                wrap->0
            } else {
                0xffff_ffffu32
            }),
            line.weight,
            (if line.family is Some {
                line.family->0@
            } else {
                Seq::empty()
            }),
        ),
        content_hash_of(line, wrap) == fx_paint_digest(
            usize::BITS as int,
            shape_key_of(line, wrap),
            seq![line.color[0], line.color[1], line.color[2], line.color[3]],
        ),
{
    assert(line.color@ =~= seq![line.color[0], line.color[1], line.color[2], line.color[3]]);
}

/// Exactly the faces whose family is neither loaded nor named by an earlier face are to be
/// loaded, in order.
pub proof fn law_each_new_family_is_loaded_for_its_first_face(
    loaded: Set<Seq<char>>,
    faces: Seq<String>,
    i: int,
)
    requires
        0 <= i < faces.len() <= usize::MAX,
    ensures
        missing(loaded, faces).contains(i as usize) <==> {
            &&& !loaded.contains(faces[i]@)
            &&& forall|k: int| 0 <= k < i ==> (#[trigger] faces[k])@ != faces[i]@
        },
        forall|k: int| #![trigger missing(loaded, faces)[k]]
            0 <= k < missing(loaded, faces).len() ==> missing(loaded, faces)[k] < faces.len(),
    decreases faces.len(),
{
    let rest = faces.drop_last();
    let last = faces.len() - 1;
    let all = missing(loaded, faces);
    let before = missing(loaded, rest);
    if rest.len() > 0 {
        law_each_new_family_is_loaded_for_its_first_face(
            loaded,
            rest,
            if i < last {
                i
            } else {
                0
            },
        );
    }
    assert(forall|k: int| 0 <= k < rest.len() ==> #[trigger] rest[k] == faces[k]);
    assert forall|k: int| #![trigger all[k]] 0 <= k < all.len() implies all[k] < faces.len() by {
        if k < before.len() {
            assert(all[k] == before[k]);
        }
    }
    if i < last {
        if before.contains(i as usize) {
            let k = choose|k: int| 0 <= k < before.len() && before[k] == i as usize;
            assert(all[k] == i as usize);
        }
        if all.contains(i as usize) {
            let k = choose|k: int| 0 <= k < all.len() && all[k] == i as usize;
            assert(k < before.len());
            assert(before[k] == i as usize);
        }
        assert(faces[i] == rest[i]);
        if forall|k: int| 0 <= k < i ==> (#[trigger] rest[k])@ != rest[i]@ {
            assert forall|k: int| 0 <= k < i implies (#[trigger] faces[k])@ != faces[i]@ by {
                assert(rest[k]@ != rest[i]@);
            }
        }
        if forall|k: int| 0 <= k < i ==> (#[trigger] faces[k])@ != faces[i]@ {
            assert forall|k: int| 0 <= k < i implies (#[trigger] rest[k])@ != rest[i]@ by {
                assert(faces[k]@ != faces[i]@);
            }
        }
    } else {
        if family_set(rest).contains(faces[last]@) {
            let k = choose|k: int| 0 <= k < rest.len() && #[trigger] rest[k]@ == faces[last]@;
            assert(faces[k]@ == faces[last]@);
        } else {
            assert forall|k: int| 0 <= k < last implies (#[trigger] faces[k])@ != faces[last]@ by {
                assert(rest[k]@ == faces[k]@);
            }
        }
        if all.len() > before.len() {
            assert(all[before.len() as int] == i as usize);
        } else if all.contains(i as usize) {
            let k = choose|k: int| 0 <= k < all.len() && all[k] == i as usize;
            assert(before[k] < rest.len());
        }
    }
}

} // verus!
