//! What a shader reads of staged records: the words at each of its locations,
//! told by their place in the buffer.

use super::descriptor::{
    format_size, lays_out, packed, packed_size, Lanes, VertexBufferLayout, VertexFormat,
    VertexStepMode,
};
use super::instance_arena::{
    appended, fits, law_padded_is_aligned, next_offset, staged_after, ArenaView, Region,
};
use super::staging::{batch_fits, staged_batch};
use crate::lanes::{lane_byte, lane_bytes, native_lanes};
use vstd::prelude::*;

verus! {

/// The number that four bytes hold, the least significant one first or last.
pub open spec fn word_at(bytes: Seq<u8>, at: int, little: bool) -> int {
    if little {
        bytes[at] + 256 * bytes[at + 1] + 65536 * bytes[at + 2] + 16777216 * bytes[at + 3]
    } else {
        bytes[at + 3] + 256 * bytes[at + 2] + 65536 * bytes[at + 1] + 16777216 * bytes[at]
    }
}

/// Whether a buffer holds `words` from byte `at` on, in one byte order.
pub open spec fn reads(bytes: Seq<u8>, at: int, words: Seq<u32>, little: bool) -> bool {
    &&& 0 <= at
    &&& at + 4 * words.len() <= bytes.len()
    &&& forall|j: int|
        0 <= j < words.len() ==> #[trigger] words[j] == word_at(bytes, at + 4 * j, little)
}

/// Whether a buffer holds `words` from byte `at` on, in the machine's byte order.
pub open spec fn holds(bytes: Seq<u8>, at: int, words: Seq<u32>) -> bool {
    reads(bytes, at, words, true) || reads(bytes, at, words, false)
}

/// Whether shader location `location`, of that format, reads `words` of record
/// `i` of what lies at `region`, given the layout the records are bound with.
#[verifier::opaque]
pub open spec fn feeds(
    staged: Seq<u8>,
    region: Region,
    l: VertexBufferLayout,
    i: int,
    location: u32,
    format: VertexFormat,
    words: Seq<u32>,
) -> bool {
    exists|k: int|
        {
            &&& 0 <= k < l.attributes@.len()
            &&& (#[trigger] l.attributes@[k]).shader_location == location
            &&& l.attributes@[k].format == format
            &&& format_size(format) == 4 * words.len()
            &&& l.attributes@[k].offset + format_size(format) <= l.array_stride
            &&& holds(
                staged,
                region.offset + i * l.array_stride + l.attributes@[k].offset,
                words,
            )
        }
}

/// The bytes of a lane make up its word.
proof fn lemma_lane_word(w: u32)
    ensures
        w == lane_byte(w, 0) + 256 * lane_byte(w, 1) + 65536 * lane_byte(w, 2) + 16777216
            * lane_byte(w, 3),
{
}

/// The bytes of lanes hold the lanes, from any of them on.
proof fn lemma_lanes_hold(bytes: Seq<u8>, lanes: Seq<u32>, at: int, n: int)
    requires
        native_lanes(bytes, lanes),
        0 <= at,
        0 <= n,
        at + n <= lanes.len(),
    ensures
        holds(bytes, 4 * at, lanes.subrange(at, at + n)),
{
    let words = lanes.subrange(at, at + n);
    let little = bytes == lane_bytes(lanes, true);
    assert(bytes == lane_bytes(lanes, little));
    assert forall|j: int| 0 <= j < n implies #[trigger] words[j] == word_at(
        bytes,
        4 * at + 4 * j,
        little,
    ) by {
        let w = lanes[at + j];
        let p = 4 * at + 4 * j;
        lemma_lane_word(w);
        assert(p / 4 == at + j && (p + 1) / 4 == at + j && (p + 2) / 4 == at + j && (p + 3) / 4
            == at + j);
        assert(p % 4 == 0 && (p + 1) % 4 == 1 && (p + 2) % 4 == 2 && (p + 3) % 4 == 3);
    }
    assert(reads(bytes, 4 * at, words, little));
}

/// What a part of a buffer holds, the buffer holds.
proof fn lemma_holds_inside(bytes: Seq<u8>, from: int, to: int, at: int, words: Seq<u32>)
    requires
        0 <= from <= to <= bytes.len(),
        holds(bytes.subrange(from, to), at, words),
    ensures
        holds(bytes, from + at, words),
{
    let part = bytes.subrange(from, to);
    let little = reads(part, at, words, true);
    assert(reads(part, at, words, little));
    assert forall|j: int| 0 <= j < words.len() implies #[trigger] words[j] == word_at(
        bytes,
        from + at + 4 * j,
        little,
    ) by {
        let p = at + 4 * j;
        assert(part[p] == bytes[from + p] && part[p + 1] == bytes[from + p + 1]);
        assert(part[p + 2] == bytes[from + p + 2] && part[p + 3] == bytes[from + p + 3]);
        assert(words[j] == word_at(part, at + 4 * j, little));
    }
    assert(reads(bytes, from + at, words, little));
}

/// A staged batch lies at its region, lane by lane.
pub proof fn lemma_batch_holds(
    before: ArenaView,
    after: ArenaView,
    region: Region,
    lanes: Seq<u32>,
    at: int,
    n: int,
)
    requires
        staged_batch(before, after, region, lanes),
        batch_fits(before, lanes.len() as int),
        0 <= at,
        0 < n,
        at + n <= lanes.len(),
    ensures
        holds(after.staged, region.offset + 4 * at, lanes.subrange(at, at + n)),
{
    let bytes = choose|bytes: Seq<u8>| #[trigger]
        native_lanes(bytes, lanes) && after == (ArenaView {
            staged: staged_after(before.staged, bytes, 4, false),
            ..before
        });
    let off = next_offset(before.staged.len() as int, 4);
    law_padded_is_aligned(before.staged.len() as int, 4);
    assert(bytes.len() == 4 * lanes.len());
    assert(after.staged.subrange(off, off + bytes.len()) =~= bytes);
    lemma_lanes_hold(bytes, lanes, at, n);
    lemma_holds_inside(after.staged, off, off + bytes.len(), 4 * at, lanes.subrange(at, at + n));
}

/// Where attribute `k` of formats laid back to back starts.
pub proof fn lemma_offset(lanes: Lanes, k: int)
    requires
        0 <= k < lanes.len(),
    ensures
        packed_size(lanes.take(0)) == 0,
        packed_size(lanes.take(k + 1)) == packed_size(lanes.take(k)) + format_size(lanes[k].1),
{
    assert(lanes.take(k + 1).drop_last() =~= lanes.take(k));
    assert(lanes.take(k + 1).last() == lanes[k]);
}

/// Attribute `k` of a layout reads the words a record has there.
pub proof fn lemma_feeds(
    before: ArenaView,
    after: ArenaView,
    region: Region,
    lanes: Seq<u32>,
    l: VertexBufferLayout,
    formats: Lanes,
    step: VertexStepMode,
    i: int,
    record: Seq<u32>,
    k: int,
    at: int,
    words: Seq<u32>,
)
    requires
        staged_batch(before, after, region, lanes),
        batch_fits(before, lanes.len() as int),
        lays_out(l, formats, step),
        l.array_stride == 4 * record.len(),
        0 <= i,
        record.len() > 0,
        (i + 1) * record.len() <= lanes.len(),
        lanes.subrange(i * record.len(), (i + 1) * record.len()) == record,
        0 <= k < formats.len(),
        0 <= at,
        packed_size(formats.take(k)) == 4 * at,
        format_size(formats[k].1) == 4 * words.len(),
        words.len() > 0,
        at + words.len() <= record.len(),
        record.subrange(at, at + words.len()) == words,
    ensures
        feeds(after.staged, region, l, i, formats[k].0, formats[k].1, words),
{
    reveal(feeds);
    let n = record.len() as int;
    let w = words.len() as int;
    let start = i * n;
    assert((i + 1) * n == start + n) by (nonlinear_arith)
        requires
            start == i * n,
    ;
    assert(start >= 0) by (nonlinear_arith)
        requires
            start == i * n,
            0 <= i,
            0 < n,
    ;
    assert(i * (4 * n) == 4 * start) by (nonlinear_arith)
        requires
            start == i * n,
    ;
    lemma_batch_holds(before, after, region, lanes, start + at, w);
    assert(lanes.subrange(start + at, start + at + w) =~= words) by {
        assert forall|j: int| 0 <= j < w implies lanes[start + at + j] == words[j] by {
            assert(lanes.subrange(start, start + n)[at + j] == record[at + j]);
            assert(record.subrange(at, at + w)[j] == words[j]);
        }
    }
    assert(l.attributes@ == packed(formats));
    assert(l.attributes@[k].offset == 4 * at);
    assert(l.attributes@[k].shader_location == formats[k].0);
}

/// What a shader reads of a record stays so while more is staged behind it.
pub proof fn lemma_feeds_kept(
    staged: Seq<u8>,
    later: Seq<u8>,
    region: Region,
    l: VertexBufferLayout,
    i: int,
    location: u32,
    format: VertexFormat,
    words: Seq<u32>,
)
    requires
        feeds(staged, region, l, i, location, format, words),
        extends(later, staged),
    ensures
        feeds(later, region, l, i, location, format, words),
{
    reveal(feeds);
    let k = choose|k: int|
        {
            &&& 0 <= k < l.attributes@.len()
            &&& (#[trigger] l.attributes@[k]).shader_location == location
            &&& l.attributes@[k].format == format
            &&& format_size(format) == 4 * words.len()
            &&& l.attributes@[k].offset + format_size(format) <= l.array_stride
            &&& holds(
                staged,
                region.offset + i * l.array_stride + l.attributes@[k].offset,
                words,
            )
        };
    lemma_holds_kept(
        staged,
        later,
        region.offset + i * l.array_stride + l.attributes@[k].offset,
        words,
    );
}

/// Whether a buffer is another one with more behind it.
pub open spec fn extends(later: Seq<u8>, staged: Seq<u8>) -> bool {
    later.len() >= staged.len() && later.subrange(0, staged.len() as int) == staged
}

/// What a buffer holds it still holds with more behind it.
pub proof fn lemma_holds_kept(staged: Seq<u8>, later: Seq<u8>, at: int, words: Seq<u32>)
    requires
        holds(staged, at, words),
        extends(later, staged),
    ensures
        holds(later, at, words),
{
    lemma_holds_inside(later, 0, staged.len() as int, at, words);
}

/// Staging a batch keeps what is staged before it.
pub proof fn lemma_batch_extends(
    before: ArenaView,
    after: ArenaView,
    region: Region,
    lanes: Seq<u32>,
)
    requires
        staged_batch(before, after, region, lanes),
    ensures
        extends(after.staged, before.staged),
{
    let bytes = choose|bytes: Seq<u8>| #[trigger]
        native_lanes(bytes, lanes) && after == (ArenaView {
            staged: staged_after(before.staged, bytes, 4, false),
            ..before
        });
    law_padded_is_aligned(before.staged.len() as int, 4);
    assert(after.staged.subrange(0, before.staged.len() as int) =~= before.staged);
}

/// Whether shader location `location`, of that format, reads `words` of a record
/// made of these lanes, given the layout the record is bound with.
#[verifier::opaque]
pub open spec fn reads_lanes(
    record: Seq<u32>,
    l: VertexBufferLayout,
    location: u32,
    format: VertexFormat,
    words: Seq<u32>,
) -> bool {
    exists|k: int|
        {
            &&& 0 <= k < l.attributes@.len()
            &&& (#[trigger] l.attributes@[k]).shader_location == location
            &&& l.attributes@[k].format == format
            &&& format_size(format) == 4 * words.len()
            &&& l.attributes@[k].offset % 4 == 0
            &&& l.attributes@[k].offset / 4 + words.len() <= record.len()
            &&& record.subrange(
                l.attributes@[k].offset as int / 4,
                l.attributes@[k].offset as int / 4 + words.len(),
            ) == words
        }
}

/// Attribute `k` of a layout reads the lanes a record has there.
pub proof fn lemma_reads_lanes(
    record: Seq<u32>,
    l: VertexBufferLayout,
    formats: Lanes,
    step: VertexStepMode,
    k: int,
    at: int,
    words: Seq<u32>,
)
    requires
        lays_out(l, formats, step),
        0 <= k < formats.len(),
        0 <= at < 0x1000,
        packed_size(formats.take(k)) == 4 * at,
        format_size(formats[k].1) == 4 * words.len(),
        at + words.len() <= record.len(),
        record.subrange(at, at + words.len()) == words,
    ensures
        reads_lanes(record, l, formats[k].0, formats[k].1, words),
{
    reveal(reads_lanes);
    assert(l.attributes@ == packed(formats));
    assert(l.attributes@[k].offset == 4 * at);
}

/// A storage region's index is exact: counted in records of `lanes` lanes from the
/// start of the buffer, the data lies right there.
pub proof fn law_storage_index_is_exact(
    before: ArenaView,
    after: ArenaView,
    data: Seq<u32>,
    lanes: u32,
    index: u32,
)
    requires
        lanes > 0,
        data.len() > 0,
        fits(before.staged.len() as int, 4 * data.len() as int, 4 * lanes, false),
        appended(before, after, data, 4 * lanes, false),
        index == next_offset(before.staged.len() as int, 4 * lanes) / (4 * lanes),
    ensures
        holds(after.staged, index * (4 * lanes), data),
        extends(after.staged, before.staged),
{
    let stride = 4 * lanes;
    let off = next_offset(before.staged.len() as int, stride);
    law_padded_is_aligned(before.staged.len() as int, stride);
    vstd::arithmetic::div_mod::lemma_fundamental_div_mod(off, stride);
    assert(index * stride == stride * (off / stride)) by (nonlinear_arith)
        requires
            index == off / stride,
    ;
    let bytes = choose|bytes: Seq<u8>| #[trigger]
        native_lanes(bytes, data) && after == (ArenaView {
            staged: staged_after(before.staged, bytes, stride, false),
            ..before
        });
    assert(after.staged.subrange(off, off + bytes.len()) =~= bytes);
    assert(after.staged.subrange(0, before.staged.len() as int) =~= before.staged);
    lemma_lanes_hold(bytes, data, 0, data.len() as int);
    assert(data.subrange(0, data.len() as int) =~= data);
    lemma_holds_inside(after.staged, off, off + bytes.len(), 0, data);
}

} // verus!
