//! Between four-byte lanes and the bytes a GPU buffer holds.
//!
//! Instance records are sequences of four-byte lanes. A buffer takes them in
//! the machine's own byte order, which is little-endian or big-endian, the
//! same for every lane.

use vstd::prelude::*;

verus! {

/// The byte at position `k` of a lane, least significant first.
pub open spec fn lane_byte(w: u32, k: int) -> u8 {
    if k == 0 {
        (w as int % 256) as u8
    } else if k == 1 {
        ((w as int / 256) % 256) as u8
    } else if k == 2 {
        ((w as int / 65536) % 256) as u8
    } else {
        (w as int / 16777216) as u8
    }
}

/// The bytes of a sequence of lanes in one byte order.
pub open spec fn lane_bytes(words: Seq<u32>, little: bool) -> Seq<u8> {
    Seq::new(
        4 * words.len(),
        |i: int|
            lane_byte(
                words[i / 4],
                if little {
                    i % 4
                } else {
                    3 - i % 4
                },
            ),
    )
}

/// Whether `bytes` are the lanes `words` in some byte order.
pub open spec fn native_lanes(bytes: Seq<u8>, words: Seq<u32>) -> bool {
    bytes == lane_bytes(words, true) || bytes == lane_bytes(words, false)
}

/// `bytemuck::cast_slice`, from lanes to bytes. The result holds four bytes
/// for each lane, in order, each lane in the machine's byte order: all
/// little-endian or all big-endian. Casting to bytes needs no alignment and
/// leaves no remainder, so it does not fail.
#[verifier::external_body]
pub(crate) fn words_as_bytes(words: &[u32]) -> (bytes: &[u8])
    ensures
        native_lanes(bytes@, words@),
{
    bytemuck::cast_slice(words)
}

/// The value of eight bytes, least significant first.
pub open spec fn tick_le(b: Seq<u8>) -> int {
    b[0] + 256 * (b[1] + 256 * (b[2] + 256 * (b[3] + 256 * (b[4] + 256 * (b[5] + 256 * (b[6] + 256
        * b[7]))))))
}

/// Eight bytes in the opposite order.
pub open spec fn flipped(b: Seq<u8>) -> Seq<u8> {
    Seq::new(8, |i: int| b[7 - i])
}

/// The value of the eight bytes from position `8 * i`, in one byte order.
pub open spec fn tick_at(bytes: Seq<u8>, i: int, little: bool) -> int {
    let b = bytes.subrange(8 * i, 8 * i + 8);
    if little {
        tick_le(b)
    } else {
        tick_le(flipped(b))
    }
}

/// Whether `ticks` are the values of `bytes`, eight by eight, in one byte order.
pub open spec fn reads_as(ticks: Seq<u64>, bytes: Seq<u8>, little: bool) -> bool {
    &&& 8 * ticks.len() == bytes.len()
    &&& forall|i: int| 0 <= i < ticks.len() ==> #[trigger] ticks[i] == tick_at(bytes, i, little)
}

/// Whether `ticks` are the values of `bytes`, eight by eight, in some byte
/// order.
pub open spec fn native_ticks(ticks: Seq<u64>, bytes: Seq<u8>) -> bool {
    reads_as(ticks, bytes, true) || reads_as(ticks, bytes, false)
}

/// `bytemuck::pod_collect_to_vec`, from bytes to 64-bit integers. The result
/// holds one integer for each eight bytes, in order, each read in the machine's
/// byte order: all little-endian or all big-endian. It needs no alignment. A
/// last group of fewer than eight bytes would be filled up with zeros, so the
/// length is asked to be a multiple of eight.
#[verifier::external_body]
pub(crate) fn bytes_as_ticks(bytes: &[u8]) -> (ticks: Vec<u64>)
    requires
        bytes@.len() % 8 == 0,
    ensures
        native_ticks(ticks@, bytes@),
{
    bytemuck::pod_collect_to_vec(bytes)
}

} // verus!
