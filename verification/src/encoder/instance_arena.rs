//! One persistent buffer for every pipeline's per-frame instance data.
//!
//! A frame appends its instances to a staging buffer, each append recorded as
//! a [`Region`]; the staged bytes are then uploaded in a single write, growing
//! the GPU buffer first if they no longer fit. The GPU buffer is final before
//! any draw is recorded, because a buffer range is bound eagerly and growing
//! replaces the buffer.

use crate::lanes::{native_lanes, words_as_bytes};
use vstd::arithmetic::power2::pow2;
use vstd::prelude::*;

verus! {

/// A byte range of the staging buffer handed to one draw.
#[derive(Debug, Clone, Copy, PartialEq, Eq, Structural)]
pub struct Region {
    /// Byte offset into the GPU buffer.
    pub offset: u64,
    /// Length in bytes.
    pub len: u64,
}

impl Region {
    /// Whether this region carries no data.
    pub fn is_empty(&self) -> (yes: bool)
        ensures
            yes == (self.len == 0),
    {
        self.len == 0
    }
}

/// The region of an empty batch.
pub open spec fn no_region() -> Region {
    Region { offset: 0, len: 0 }
}

impl Default for Region {
    /// The region of an empty batch.
    fn default() -> (r: Region)
        ensures
            r == no_region(),
    {
        Region { offset: 0, len: 0 }
    }
}

/// Vertex buffer offsets are a multiple of this.
pub const VERTEX_ALIGNMENT: u64 = 4;

/// Initial GPU buffer size, in bytes.
pub const INITIAL_CAPACITY: u64 = 65536;

/// The largest staging length the GPU buffer can be grown to by doubling.
pub const MAX_STAGED: u64 = 0x8000_0000_0000_0000;

/// What an arena holds.
pub struct ArenaView {
    /// Bytes staged so far this frame.
    pub staged: Seq<u8>,
    /// GPU buffer size in bytes.
    pub capacity: int,
    /// Reallocations of the GPU buffer.
    pub grows: int,
    /// GPU buffers created.
    pub creations: int,
    /// Uniform offset alignment of the device.
    pub uniform_alignment: int,
}

/// A persistent, grow-only staging buffer shared by every instanced pipeline.
pub struct InstanceArena {
    staging: Vec<u8>,
    capacity: u64,
    grows_this_session: u32,
    buffer_creations: u32,
    uniform_alignment: u64,
}

impl View for InstanceArena {
    type V = ArenaView;

    closed spec fn view(&self) -> ArenaView {
        ArenaView {
            staged: self.staging@,
            capacity: self.capacity as int,
            grows: self.grows_this_session as int,
            creations: self.buffer_creations as int,
            uniform_alignment: self.uniform_alignment as int,
        }
    }
}

/// What holds of every arena: one buffer was created at the start and one per
/// growth, every growth at least doubled it, and the device's alignment is
/// positive.
pub open spec fn arena_ok(v: ArenaView) -> bool {
    &&& v.uniform_alignment > 0
    &&& v.uniform_alignment <= u32::MAX
    &&& v.staged.len() <= usize::MAX
    &&& 0 <= v.grows
    &&& INITIAL_CAPACITY * pow2(v.grows as nat) <= v.capacity
    &&& INITIAL_CAPACITY <= v.capacity <= u64::MAX
    &&& v.creations == v.grows + 1
}

/// The padding that takes `offset` up to a multiple of `alignment`.
pub open spec fn padding_of(offset: int, alignment: int) -> int {
    if offset % alignment == 0 {
        0
    } else {
        alignment - offset % alignment
    }
}

/// The length a region of `bytes` takes.
pub open spec fn region_len(bytes: int, alignment: int, pad_len: bool) -> int {
    if pad_len {
        bytes + padding_of(bytes, alignment)
    } else {
        bytes
    }
}

/// Where the next region aligned to `alignment` starts.
pub open spec fn next_offset(staged: int, alignment: int) -> int {
    staged + padding_of(staged, alignment)
}

/// `n` zero bytes.
pub open spec fn zeros(n: int) -> Seq<u8> {
    Seq::new(
        if n > 0 {
            n as nat
        } else {
            0
        },
        |i: int| 0u8,
    )
}

/// Whether a region of `bytes` can be appended to `staged` bytes.
pub open spec fn fits(staged: int, bytes: int, alignment: int, pad_len: bool) -> bool {
    bytes == 0 || next_offset(staged, alignment) + region_len(bytes, alignment, pad_len)
        <= usize::MAX
}

/// The region `bytes` would take after `staged` bytes.
pub open spec fn region_after(staged: int, bytes: int, alignment: int, pad_len: bool) -> Region {
    if bytes == 0 {
        no_region()
    } else {
        Region {
            offset: next_offset(staged, alignment) as u64,
            len: region_len(bytes, alignment, pad_len) as u64,
        }
    }
}

/// The staging buffer after `bytes` were appended as one region.
pub open spec fn staged_after(
    staged: Seq<u8>,
    bytes: Seq<u8>,
    alignment: int,
    pad_len: bool,
) -> Seq<u8> {
    if bytes.len() == 0 {
        staged
    } else {
        staged + zeros(padding_of(staged.len() as int, alignment)) + bytes + zeros(
            region_len(bytes.len() as int, alignment, pad_len) - bytes.len(),
        )
    }
}

/// Whether an arena went from `before` to `after` by appending the lanes
/// `words` as one region, and by nothing else.
pub open spec fn appended(
    before: ArenaView,
    after: ArenaView,
    words: Seq<u32>,
    alignment: int,
    pad_len: bool,
) -> bool {
    exists|bytes: Seq<u8>| #[trigger]
        native_lanes(bytes, words) && after == (ArenaView {
            staged: staged_after(before.staged, bytes, alignment, pad_len),
            ..before
        })
}

/// The capacity after doubling until `needed` bytes fit.
pub open spec fn grown_capacity(capacity: int, needed: int) -> int
    decreases
        if needed > capacity {
            needed - capacity
        } else {
            0
        },
{
    if capacity >= needed || capacity <= 0 {
        capacity
    } else {
        grown_capacity(2 * capacity, needed)
    }
}

/// What an upload asks of the GPU.
#[derive(Debug, Clone, Copy, PartialEq, Eq)]
pub struct ArenaUpload {
    /// The size of the buffer to replace the present one with.
    pub grow_to: Option<u64>,
    /// How many staged bytes to write at the start of the buffer.
    pub write_len: u64,
}

/// How many padding bytes take `offset` up to a multiple of `alignment`.
pub fn align_padding(offset: u64, alignment: u64) -> (p: u64)
    requires
        alignment > 0,
    ensures
        p == padding_of(offset as int, alignment as int),
        p < alignment,
{
    let rem: u64 = offset % alignment;
    if rem == 0 {
        0
    } else {
        alignment - rem
    }
}

/// A 64-bit count as a memory size.
fn usize_of(v: u64) -> (r: usize)
    requires
        v <= usize::MAX,
    ensures
        r == v,
{
    v as usize
}

/// A size padded up to an alignment is a multiple of it, and the least that is
/// not below the size.
pub proof fn law_padded_is_aligned(offset: int, alignment: int)
    requires
        offset >= 0,
        alignment > 0,
    ensures
        (offset + padding_of(offset, alignment)) % alignment == 0,
        0 <= padding_of(offset, alignment) < alignment,
        forall|m: int|
            m >= offset && #[trigger] (m % alignment) == 0 ==> m >= offset + padding_of(
                offset,
                alignment,
            ),
{
    vstd::arithmetic::div_mod::lemma_fundamental_div_mod(offset, alignment);
    let q = offset / alignment;
    let r = offset % alignment;
    if r == 0 {
    } else {
        assert(offset + (alignment - r) == alignment * (q + 1)) by (nonlinear_arith)
            requires
                offset == alignment * q + r,
        ;
        vstd::arithmetic::div_mod::lemma_mod_multiples_basic(q + 1, alignment);
        assert((q + 1) * alignment == alignment * (q + 1)) by (nonlinear_arith);
        assert forall|m: int| m >= offset && #[trigger] (m % alignment) == 0 implies m >= offset
            + padding_of(offset, alignment) by {
            vstd::arithmetic::div_mod::lemma_fundamental_div_mod(m, alignment);
            let k = m / alignment;
            assert(m >= alignment * (q + 1)) by (nonlinear_arith)
                requires
                    m == alignment * k,
                    m >= alignment * q + r,
                    r > 0,
                    alignment > 0,
            ;
        }
    }
}

/// A freshly reserved region starts aligned, past everything staged before,
/// and ends exactly where the staging buffer then ends. What was staged stays,
/// and all padding is zero.
pub proof fn law_region_is_fresh_and_aligned(
    staged: Seq<u8>,
    bytes: Seq<u8>,
    alignment: int,
    pad_len: bool,
)
    requires
        alignment > 0,
        bytes.len() > 0,
        fits(staged.len() as int, bytes.len() as int, alignment, pad_len),
    ensures
        ({
            let r = region_after(staged.len() as int, bytes.len() as int, alignment, pad_len);
            let after = staged_after(staged, bytes, alignment, pad_len);
            &&& r.offset as int % alignment == 0
            &&& pad_len ==> r.len as int % alignment == 0
            &&& staged.len() <= r.offset
            &&& r.offset + r.len == after.len()
            &&& bytes.len() <= r.len
            &&& after.subrange(0, staged.len() as int) == staged
            &&& after.subrange(r.offset as int, r.offset + bytes.len()) == bytes
            &&& forall|k: int|
                staged.len() <= k < after.len() && !(r.offset <= k < r.offset + bytes.len())
                    ==> #[trigger] after[k] == 0
        }),
{
    let n = staged.len() as int;
    law_padded_is_aligned(n, alignment);
    law_padded_is_aligned(bytes.len() as int, alignment);
    let after = staged_after(staged, bytes, alignment, pad_len);
    let off = next_offset(n, alignment);
    assert(after.subrange(0, n) =~= staged);
    assert(after.subrange(off, off + bytes.len()) =~= bytes);
}

/// Whether reserving `bytes` took the staging buffer from `before` to `after`
/// and handed out `r`: nothing for nothing, and otherwise a region that starts
/// aligned, past everything staged before, and ends where the buffer then ends.
/// What was staged is kept and everything new is zero. The region is as long as
/// asked, or the least multiple of the alignment that is.
pub open spec fn reserved(
    before: Seq<u8>,
    after: Seq<u8>,
    r: Region,
    bytes: int,
    alignment: int,
    pad_len: bool,
) -> bool {
    if bytes == 0 {
        r == no_region() && after == before
    } else {
        &&& before.len() <= r.offset
        &&& r.offset as int % alignment == 0
        &&& after.len() == r.offset + r.len
        &&& after.subrange(0, before.len() as int) == before
        &&& forall|k: int| before.len() <= k < after.len() ==> #[trigger] after[k] == 0
        &&& !pad_len ==> r.len == bytes
        &&& pad_len ==> {
            &&& bytes <= r.len
            &&& r.len as int % alignment == 0
            &&& forall|m: int| bytes <= m && #[trigger] (m % alignment) == 0 ==> r.len <= m
        }
    }
}

/// What a reservation hands out is fresh, aligned, zeroed and no longer than it
/// has to be.
pub proof fn law_reserved_region_is_fresh_aligned_and_zeroed(
    staged: Seq<u8>,
    bytes: int,
    alignment: int,
    pad_len: bool,
)
    requires
        0 <= bytes,
        alignment > 0,
        fits(staged.len() as int, bytes, alignment, pad_len),
    ensures
        reserved(
            staged,
            staged_after(staged, zeros(bytes), alignment, pad_len),
            region_after(staged.len() as int, bytes, alignment, pad_len),
            bytes,
            alignment,
            pad_len,
        ),
{
    if bytes > 0 {
        law_region_is_fresh_and_aligned(staged, zeros(bytes), alignment, pad_len);
        law_padded_is_aligned(bytes, alignment);
        let r = region_after(staged.len() as int, bytes, alignment, pad_len);
        let after = staged_after(staged, zeros(bytes), alignment, pad_len);
        assert forall|k: int| staged.len() <= k < after.len() implies #[trigger] after[k] == 0 by {
            if r.offset <= k < r.offset + bytes {
                assert(after.subrange(r.offset as int, r.offset + bytes)[k - r.offset] == 0);
            }
        }
    }
}

/// What one region is asked for with.
pub struct Request {
    /// What it holds.
    pub bytes: Seq<u8>,
    /// What its offset is a multiple of.
    pub alignment: int,
    /// Whether its length is padded too.
    pub pad_len: bool,
}

/// What is staged once the first `n` regions of a frame were handed out.
pub open spec fn staged_by(requests: Seq<Request>, n: int) -> Seq<u8>
    decreases n,
{
    if n <= 0 {
        Seq::empty()
    } else {
        let r = requests[n - 1];
        staged_after(staged_by(requests, n - 1), r.bytes, r.alignment, r.pad_len)
    }
}

/// The region handed out for request `i` of a frame.
pub open spec fn region_given(requests: Seq<Request>, i: int) -> Region {
    let r = requests[i];
    region_after(
        staged_by(requests, i).len() as int,
        r.bytes.len() as int,
        r.alignment,
        r.pad_len,
    )
}

/// Whether request `i` of a frame can be met.
pub open spec fn can_be_given(requests: Seq<Request>, i: int) -> bool {
    let r = requests[i];
    r.alignment > 0 && fits(
        staged_by(requests, i).len() as int,
        r.bytes.len() as int,
        r.alignment,
        r.pad_len,
    )
}

/// A region lies past every region handed out before it in the same frame.
pub proof fn law_regions_of_a_frame_are_apart(requests: Seq<Request>, i: int, j: int)
    requires
        0 <= i < j < requests.len(),
        forall|k: int| 0 <= k <= j ==> #[trigger] can_be_given(requests, k),
        requests[j].bytes.len() > 0,
    ensures
        region_given(requests, j).offset >= region_given(requests, i).offset + region_given(
            requests,
            i,
        ).len,
        region_given(requests, j).offset as int % requests[j].alignment == 0,
{
    let a = requests[i];
    let b = requests[j];
    assert(can_be_given(requests, i));
    assert(can_be_given(requests, j));
    if a.bytes.len() > 0 {
        law_region_is_fresh_and_aligned(staged_by(requests, i), a.bytes, a.alignment, a.pad_len);
    }
    law_region_is_fresh_and_aligned(staged_by(requests, j), b.bytes, b.alignment, b.pad_len);
    lemma_staging_grows(requests, i + 1, j);
}

/// Staging only grows within a frame.
proof fn lemma_staging_grows(requests: Seq<Request>, i: int, j: int)
    requires
        0 <= i <= j < requests.len(),
        forall|k: int| 0 <= k <= j ==> #[trigger] can_be_given(requests, k),
    ensures
        staged_by(requests, i).len() <= staged_by(requests, j).len(),
    decreases j - i,
{
    if i < j {
        lemma_staging_grows(requests, i, j - 1);
        let r = requests[j - 1];
        assert(can_be_given(requests, j - 1));
        if r.bytes.len() > 0 {
            law_region_is_fresh_and_aligned(
                staged_by(requests, j - 1),
                r.bytes,
                r.alignment,
                r.pad_len,
            );
        }
    }
}

/// Doubling reaches what is needed and stops at the first size that does.
proof fn lemma_grown_capacity(capacity: int, needed: int)
    requires
        capacity >= 1,
        needed <= MAX_STAGED,
        capacity <= u64::MAX,
    ensures
        grown_capacity(capacity, needed) >= needed,
        grown_capacity(capacity, needed) >= capacity,
        grown_capacity(capacity, needed) <= u64::MAX,
        capacity < needed ==> grown_capacity(capacity, needed) < 2 * needed,
        capacity < needed ==> grown_capacity(capacity, needed) >= 2 * capacity,
    decreases
        if needed > capacity {
            needed - capacity
        } else {
            0
        },
{
    if capacity < needed {
        lemma_grown_capacity(2 * capacity, needed);
    }
}

impl InstanceArena {
    /// What holds of every arena.
    pub open spec fn wf(&self) -> bool {
        arena_ok(self@)
    }

    /// Creates the arena with its single GPU buffer still to be made.
    /// `uniform_alignment` is the device's own, never a constant.
    pub fn new(uniform_alignment: u32) -> (arena: InstanceArena)
        requires
            uniform_alignment > 0,
        ensures
            arena.wf(),
            arena@ == (ArenaView {
                staged: Seq::empty(),
                capacity: INITIAL_CAPACITY as int,
                grows: 0,
                creations: 1,
                uniform_alignment: uniform_alignment as int,
            }),
    {
        proof {
            vstd::arithmetic::power2::lemma2_to64();
        }
        let arena = InstanceArena {
            staging: Vec::with_capacity(usize_of(INITIAL_CAPACITY)),
            capacity: INITIAL_CAPACITY,
            grows_this_session: 0,
            buffer_creations: 1,
            uniform_alignment: uniform_alignment as u64,
        };
        assert(arena@.staged =~= Seq::empty());
        arena
    }

    /// Starts a frame: discards the previous frame's staged bytes.
    pub fn begin_frame(&mut self)
        requires
            old(self).wf(),
        ensures
            final(self).wf(),
            final(self)@ == (ArenaView { staged: Seq::empty(), ..old(self)@ }),
    {
        self.staging.clear();
        assert(self@.staged =~= Seq::empty());
    }

    /// Appends `bytes` as one region.
    fn push_bytes(&mut self, bytes: &[u8], alignment: u64, pad_len: bool) -> (r: Region)
        requires
            old(self).wf(),
            alignment > 0,
            fits(
                old(self)@.staged.len() as int,
                bytes@.len() as int,
                alignment as int,
                pad_len,
            ),
        ensures
            final(self).wf(),
            r == region_after(
                old(self)@.staged.len() as int,
                bytes@.len() as int,
                alignment as int,
                pad_len,
            ),
            final(self)@ == (ArenaView {
                staged: staged_after(old(self)@.staged, bytes@, alignment as int, pad_len),
                ..old(self)@
            }),
    {
        if bytes.len() == 0 {
            return Region::default();
        }
        proof {
            law_padded_is_aligned(self.staging@.len() as int, alignment as int);
            law_padded_is_aligned(bytes@.len() as int, alignment as int);
        }
        let region: Region = self.reserve_at(bytes.len() as u64, alignment, pad_len);
        let start: usize = usize_of(region.offset);
        let ghost reserved = self.staging@;
        let mut i: usize = 0;
        while i < bytes.len()
            invariant
                i <= bytes@.len(),
                start + bytes@.len() <= self.staging@.len(),
                start + bytes@.len() <= usize::MAX,
                self.staging@.len() == reserved.len(),
                self.capacity == old(self).capacity,
                self.grows_this_session == old(self).grows_this_session,
                self.buffer_creations == old(self).buffer_creations,
                self.uniform_alignment == old(self).uniform_alignment,
                forall|j: int|
                    0 <= j < reserved.len() ==> #[trigger] self.staging@[j] == (if start <= j
                        < start + i {
                        bytes@[j - start]
                    } else {
                        reserved[j]
                    }),
            decreases bytes@.len() - i,
        {
            self.staging[start + i] = bytes[i];
            i = i + 1;
        }
        assert(self.staging@ =~= staged_after(
            old(self)@.staged,
            bytes@,
            alignment as int,
            pad_len,
        ));
        region
    }

    /// Appends `bytes` of zeroed space at the next aligned offset. A uniform
    /// region's length is padded too: a backend may widen a binding to the
    /// alignment, and the widened binding must still lie inside the buffer.
    pub fn reserve_at(&mut self, bytes: u64, alignment: u64, pad_len: bool) -> (r: Region)
        requires
            old(self).wf(),
            alignment > 0,
            fits(old(self)@.staged.len() as int, bytes as int, alignment as int, pad_len),
        ensures
            final(self).wf(),
            r == region_after(
                old(self)@.staged.len() as int,
                bytes as int,
                alignment as int,
                pad_len,
            ),
            final(self)@ == (ArenaView {
                staged: staged_after(
                    old(self)@.staged,
                    zeros(bytes as int),
                    alignment as int,
                    pad_len,
                ),
                ..old(self)@
            }),
            reserved(
                old(self)@.staged,
                final(self)@.staged,
                r,
                bytes as int,
                alignment as int,
                pad_len,
            ),
    {
        proof {
            law_reserved_region_is_fresh_aligned_and_zeroed(
                self.staging@,
                bytes as int,
                alignment as int,
                pad_len,
            );
        }
        if bytes == 0 {
            return Region::default();
        }
        proof {
            law_padded_is_aligned(self.staging@.len() as int, alignment as int);
            law_padded_is_aligned(bytes as int, alignment as int);
        }
        let ghost before = self.staging@;
        let padding: u64 = align_padding(self.staging.len() as u64, alignment);
        let offset: u64 = self.staging.len() as u64 + padding;
        let len: u64 = if pad_len {
            bytes + align_padding(bytes, alignment)
        } else {
            bytes
        };
        self.staging.resize(usize_of(offset + len), 0);
        proof {
            let want = staged_after(before, zeros(bytes as int), alignment as int, pad_len);
            assert forall|j: int| 0 <= j < want.len() implies self.staging@[j] == want[j] by {
                if j < before.len() {
                    assert(self.staging@.subrange(0, before.len() as int)[j] == before[j]);
                }
            }
            assert(self.staging@ =~= want);
        }
        Region { offset, len }
    }

    /// Appends `data` as a vertex region. An empty slice returns an empty
    /// region and stages nothing.
    pub fn push_vertex(&mut self, data: &[u32]) -> (r: Region)
        requires
            old(self).wf(),
            fits(
                old(self)@.staged.len() as int,
                4 * data@.len() as int,
                VERTEX_ALIGNMENT as int,
                false,
            ),
        ensures
            final(self).wf(),
            r == region_after(
                old(self)@.staged.len() as int,
                4 * data@.len() as int,
                VERTEX_ALIGNMENT as int,
                false,
            ),
            appended(old(self)@, final(self)@, data@, VERTEX_ALIGNMENT as int, false),
    {
        let bytes: &[u8] = words_as_bytes(data);
        self.push_bytes(bytes, VERTEX_ALIGNMENT, false)
    }

    /// Appends triangle indices; an index region is aligned as a vertex region
    /// is.
    pub fn push_index(&mut self, data: &[u32]) -> (r: Region)
        requires
            old(self).wf(),
            fits(
                old(self)@.staged.len() as int,
                4 * data@.len() as int,
                VERTEX_ALIGNMENT as int,
                false,
            ),
        ensures
            final(self).wf(),
            r == region_after(
                old(self)@.staged.len() as int,
                4 * data@.len() as int,
                VERTEX_ALIGNMENT as int,
                false,
            ),
            appended(old(self)@, final(self)@, data@, VERTEX_ALIGNMENT as int, false),
    {
        self.push_vertex(data)
    }

    /// Appends one uniform record, its offset and its length padded to the
    /// device's alignment.
    pub fn push_uniform(&mut self, value: &[u32]) -> (r: Region)
        requires
            old(self).wf(),
            fits(
                old(self)@.staged.len() as int,
                4 * value@.len() as int,
                old(self)@.uniform_alignment,
                true,
            ),
        ensures
            final(self).wf(),
            r == region_after(
                old(self)@.staged.len() as int,
                4 * value@.len() as int,
                old(self)@.uniform_alignment,
                true,
            ),
            appended(old(self)@, final(self)@, value@, old(self)@.uniform_alignment, true),
    {
        let alignment: u64 = self.uniform_alignment;
        let bytes: &[u8] = words_as_bytes(value);
        self.push_bytes(bytes, alignment, true)
    }

    /// Appends records of `lanes` lanes each as a storage region aligned to
    /// the record size, and returns the index of the first one in a view of
    /// the whole buffer as an array of such records. `None` for an empty
    /// slice, and for an index past 32 bits.
    pub fn push_storage(&mut self, data: &[u32], lanes: u32) -> (r: Option<u32>)
        requires
            old(self).wf(),
            lanes > 0,
            data@.len() % lanes as nat == 0,
            fits(old(self)@.staged.len() as int, 4 * data@.len() as int, 4 * lanes, false),
        ensures
            final(self).wf(),
            ({
                let offset = next_offset(old(self)@.staged.len() as int, 4 * lanes);
                let index = offset / (4 * lanes);
                r == (if data@.len() == 0 || index > u32::MAX {
                    None
                } else {
                    Some(index as u32)
                })
            }),
            appended(old(self)@, final(self)@, data@, 4 * lanes, false),
    {
        let bytes: &[u8] = words_as_bytes(data);
        let stride: u64 = 4 * lanes as u64;
        if data.len() == 0 {
            assert(staged_after(self@.staged, bytes@, 4 * lanes, false) =~= self@.staged);
            return None;
        }
        let region: Region = self.push_bytes(bytes, stride, false);
        let index: u64 = region.offset / stride;
        if index > 0xffff_ffff {
            None
        } else {
            Some(index as u32)
        }
    }

    /// Reserves vertex space whose data is supplied later.
    pub fn reserve_vertex(&mut self, bytes: u64) -> (r: Region)
        requires
            old(self).wf(),
            fits(
                old(self)@.staged.len() as int,
                bytes as int,
                VERTEX_ALIGNMENT as int,
                false,
            ),
        ensures
            final(self).wf(),
            r == region_after(
                old(self)@.staged.len() as int,
                bytes as int,
                VERTEX_ALIGNMENT as int,
                false,
            ),
            final(self)@ == (ArenaView {
                staged: staged_after(
                    old(self)@.staged,
                    zeros(bytes as int),
                    VERTEX_ALIGNMENT as int,
                    false,
                ),
                ..old(self)@
            }),
    {
        self.reserve_at(bytes, VERTEX_ALIGNMENT, false)
    }

    /// Reserves uniform space whose data is supplied later.
    pub fn reserve_uniform(&mut self, bytes: u64) -> (r: Region)
        requires
            old(self).wf(),
            fits(
                old(self)@.staged.len() as int,
                bytes as int,
                old(self)@.uniform_alignment,
                true,
            ),
        ensures
            final(self).wf(),
            r == region_after(
                old(self)@.staged.len() as int,
                bytes as int,
                old(self)@.uniform_alignment,
                true,
            ),
            final(self)@ == (ArenaView {
                staged: staged_after(
                    old(self)@.staged,
                    zeros(bytes as int),
                    old(self)@.uniform_alignment,
                    true,
                ),
                ..old(self)@
            }),
    {
        let alignment: u64 = self.uniform_alignment;
        self.reserve_at(bytes, alignment, true)
    }

    /// Where in the GPU buffer late data for a reserved region is written;
    /// nothing is written for no data.
    pub fn write_region(&self, region: Region, bytes: &[u8]) -> (at: Option<u64>)
        requires
            bytes@.len() <= region.len,
        ensures
            at == (if bytes@.len() == 0 {
                None
            } else {
                Some(region.offset)
            }),
    {
        if bytes.len() == 0 {
            None
        } else {
            Some(region.offset)
        }
    }

    /// Concludes staging: grows the GPU buffer by doubling if the staged bytes
    /// no longer fit, never shrinks it, and says what is written.
    pub fn upload(&mut self) -> (plan: ArenaUpload)
        requires
            old(self).wf(),
            old(self)@.staged.len() <= MAX_STAGED,
        ensures
            final(self).wf(),
            plan.write_len == old(self)@.staged.len(),
            old(self)@.staged.len() <= old(self)@.capacity ==> {
                &&& plan.grow_to is None
                &&& final(self)@ == old(self)@
            },
            old(self)@.staged.len() > old(self)@.capacity ==> {
                &&& plan.grow_to is Some
                &&& plan.grow_to->0 == grown_capacity(
                    old(self)@.capacity,
                    old(self)@.staged.len() as int,
                )
                &&& final(self)@ == (ArenaView {
                    capacity: plan.grow_to->0 as int,
                    grows: old(self)@.grows + 1,
                    creations: old(self)@.creations + 1,
                    ..old(self)@
                })
            },
            final(self)@.staged.len() <= final(self)@.capacity,
            old(self)@.capacity <= final(self)@.capacity,
    {
        let needed: u64 = self.staging.len() as u64;
        if needed > self.capacity {
            let mut capacity: u64 = self.capacity;
            proof {
                lemma_grown_capacity(capacity as int, needed as int);
            }
            while capacity < needed
                invariant
                    1 <= capacity,
                    needed <= MAX_STAGED,
                    self.capacity <= capacity,
                    grown_capacity(capacity as int, needed as int) == grown_capacity(
                        self.capacity as int,
                        needed as int,
                    ),
                    grown_capacity(self.capacity as int, needed as int) <= u64::MAX,
                decreases
                    (if needed > capacity {
                        needed - capacity
                    } else {
                        0
                    }),
            {
                capacity = capacity * 2;
            }
            proof {
                let g = self.grows_this_session as nat;
                vstd::arithmetic::power2::lemma_pow2_unfold(g + 1);
                assert(INITIAL_CAPACITY * pow2(g + 1) == 2 * (INITIAL_CAPACITY * pow2(g)))
                    by (nonlinear_arith)
                    requires
                        pow2(g + 1) == 2 * pow2(g),
                ;
                if g >= 48 {
                    vstd::arithmetic::power2::lemma2_to64_rest();
                    if g > 48 {
                        vstd::arithmetic::power2::lemma_pow2_strictly_increases(48, g);
                    }
                    assert(INITIAL_CAPACITY * pow2(g) >= 65536 * 0x1_0000_0000_0000)
                        by (nonlinear_arith)
                        requires
                            pow2(g) >= 0x1_0000_0000_0000,
                            INITIAL_CAPACITY == 65536,
                    ;
                    assert(false);
                }
            }
            self.capacity = capacity;
            self.grows_this_session = self.grows_this_session + 1;
            self.buffer_creations = self.buffer_creations + 1;
            ArenaUpload { grow_to: Some(capacity), write_len: needed }
        } else {
            ArenaUpload { grow_to: None, write_len: needed }
        }
    }

    /// The byte range a draw binds for `region`.
    pub fn slice(&self, region: Region) -> (range: (u64, u64))
        requires
            self.wf(),
            region.offset + region.len <= self@.capacity,
        ensures
            range == (region.offset, (region.offset + region.len) as u64),
    {
        (region.offset, region.offset + region.len)
    }

    /// The bytes staged so far this frame.
    pub fn staged(&self) -> (bytes: &[u8])
        ensures
            bytes@ == self@.staged,
    {
        self.staging.as_slice()
    }

    /// How many bytes are staged so far this frame.
    pub fn staged_len(&self) -> (n: u64)
        ensures
            n == self@.staged.len(),
    {
        self.staging.len() as u64
    }

    /// Current GPU buffer size in bytes.
    pub fn capacity(&self) -> (n: u64)
        ensures
            n == self@.capacity,
    {
        self.capacity
    }

    /// How many times the GPU buffer has been reallocated.
    pub fn grows_this_session(&self) -> (n: u32)
        ensures
            n == self@.grows,
    {
        self.grows_this_session
    }

    /// How many GPU buffers this arena has created: one at construction and
    /// one per growth.
    pub fn buffer_creations(&self) -> (n: u32)
        ensures
            n == self@.creations,
    {
        self.buffer_creations
    }

    /// The device's reported uniform offset alignment.
    pub fn uniform_alignment(&self) -> (n: u64)
        ensures
            n == self@.uniform_alignment,
    {
        self.uniform_alignment
    }
}

/// Growing doubles: the new size is the present one times a power of two, the
/// smallest such size that holds what is needed.
pub proof fn law_growth_doubles(capacity: int, needed: int)
    requires
        1 <= capacity < needed,
    ensures
        exists|k: nat| k >= 1 && grown_capacity(capacity, needed) == capacity * #[trigger] pow2(k),
        grown_capacity(capacity, needed) >= needed,
        grown_capacity(capacity, needed) < 2 * needed,
    decreases needed - capacity,
{
    vstd::arithmetic::power2::lemma2_to64();
    if 2 * capacity >= needed {
        assert(grown_capacity(2 * capacity, needed) == 2 * capacity);
        assert(grown_capacity(capacity, needed) == capacity * pow2(1));
    } else {
        law_growth_doubles(2 * capacity, needed);
        let k = choose|k: nat|
            k >= 1 && grown_capacity(2 * capacity, needed) == (2 * capacity) * #[trigger] pow2(k);
        vstd::arithmetic::power2::lemma_pow2_unfold(k + 1);
        assert((2 * capacity) * pow2(k) == capacity * pow2(k + 1)) by (nonlinear_arith)
            requires
                pow2(k + 1) == 2 * pow2(k),
        ;
    }
}

} // verus!
