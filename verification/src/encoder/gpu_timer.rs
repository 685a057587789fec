//! GPU pass timing through timestamp queries.
//!
//! The CPU never waits for the GPU: a frame's timestamps are copied into one of
//! a small ring of readback buffers, mapped asynchronously, and read whenever
//! the mapping has completed, at least [`READBACK_LAG`] frames later in steady
//! state. A mapping that completes after its buffer was reclaimed is ignored.

use crate::lanes::{bytes_as_ticks, reads_as};
use vstd::prelude::*;

verus! {

/// How many frames a readback lags behind the frame it measures.
pub const READBACK_LAG: usize = 2;

/// Readback buffers: one being written, and one per frame of lag.
pub const SLOTS: usize = 3;

/// Where one readback buffer is in its life.
#[derive(Debug, Clone, Copy, PartialEq, Eq, Structural)]
pub enum SlotState {
    /// Free.
    Idle,
    /// A mapping was requested.
    Pending,
    /// It is mapped.
    Ready,
    /// The mapping failed.
    Failed,
}

/// One readback buffer of the ring.
#[derive(Debug, Clone, Copy, PartialEq, Eq, Structural)]
pub struct Slot {
    /// Where it is in its life.
    pub state: SlotState,
    /// Which use of the buffer this is; a reclaimed buffer starts a new one.
    pub generation: u64,
}

/// A requested mapping: which buffer, and which use of it.
#[derive(Debug, Clone, Copy, PartialEq, Eq)]
pub struct MapTicket {
    /// The buffer.
    pub slot: usize,
    /// The use of it the request belongs to.
    pub generation: u64,
}

/// What is recorded on the command encoder for one frame.
#[derive(Debug, Clone, Copy, PartialEq, Eq)]
pub struct ResolvePlan {
    /// The buffer the timestamps are copied into.
    pub slot: usize,
    /// Whether it is unmapped first, because an unread mapping is dropped.
    pub unmap: bool,
    /// How many queries are resolved.
    pub queries: u32,
    /// How many bytes are copied.
    pub bytes: u64,
}

/// One pass's duration in timestamp ticks.
#[derive(Debug, Clone, Copy, PartialEq, Eq)]
pub struct GpuSample {
    /// Which of the named passes.
    pub scope: usize,
    /// Its duration; zero if it ends before it begins.
    pub ticks: u64,
}

/// What a timer holds.
pub struct TimerView {
    /// The names of the timed passes.
    pub scopes: Seq<Seq<char>>,
    /// The ring.
    pub slots: Seq<Slot>,
    /// Frames resolved so far.
    pub frame_index: int,
}

/// Times a fixed list of named passes.
pub struct GpuTimer {
    scopes: Vec<String>,
    slots: Vec<Slot>,
    frame_index: u64,
}

/// The names a list of strings holds.
pub open spec fn names(list: Seq<String>) -> Seq<Seq<char>> {
    Seq::new(list.len(), |i: int| list[i]@)
}

impl View for GpuTimer {
    type V = TimerView;

    closed spec fn view(&self) -> TimerView {
        TimerView {
            scopes: names(self.scopes@),
            slots: self.slots@,
            frame_index: self.frame_index as int,
        }
    }
}

/// What holds of every timer: the ring has its fixed size, every pass has a
/// pair of query indices, and no buffer was reclaimed more often than frames
/// were resolved.
pub open spec fn timer_ok(v: TimerView) -> bool {
    &&& v.slots.len() == SLOTS
    &&& 2 * v.scopes.len() <= u32::MAX
    &&& 0 <= v.frame_index <= u64::MAX
    &&& forall|i: int| 0 <= i < SLOTS ==> (#[trigger] v.slots[i]).generation <= v.frame_index
}

/// The first pass of that name.
pub open spec fn scope_index(scopes: Seq<Seq<char>>, name: Seq<char>, i: int) -> bool {
    &&& 0 <= i < scopes.len()
    &&& scopes[i] == name
    &&& forall|k: int| 0 <= k < i ==> #[trigger] scopes[k] != name
}

/// The duration between two ticks.
pub open spec fn duration(begin: u64, end: u64) -> int {
    if end >= begin {
        end - begin
    } else {
        0
    }
}

/// The samples of a mapped buffer that holds `ticks`, one per pass in order.
pub open spec fn samples_of(ticks: Seq<u64>) -> Seq<GpuSample> {
    Seq::new(
        ticks.len() / 2,
        |j: int|
            GpuSample { scope: j as usize, ticks: duration(ticks[2 * j], ticks[2 * j + 1]) as u64 },
    )
}

/// Whether `samples` is what one buffer of `bytes` gives when its samples are
/// collected: those of its ticks if it is mapped, none otherwise.
pub open spec fn slot_gives(slot: Slot, bytes: Seq<u8>, samples: Seq<GpuSample>) -> bool {
    if slot.state == SlotState::Ready {
        exists|ticks: Seq<u64>|
            (#[trigger] reads_as(ticks, bytes, true) || reads_as(ticks, bytes, false)) && samples
                == samples_of(ticks)
    } else {
        samples.len() == 0
    }
}

/// A buffer once its samples have been collected: mapped and failed ones are
/// free again, the others are as they were.
pub open spec fn collected(slot: Slot) -> Slot {
    if slot.state == SlotState::Ready || slot.state == SlotState::Failed {
        Slot { state: SlotState::Idle, generation: slot.generation }
    } else {
        slot
    }
}

/// A buffer when a new frame is copied into it: an unread one is dropped, and
/// its use ends.
pub open spec fn reclaimed(slot: Slot) -> Slot {
    if slot.state == SlotState::Idle {
        slot
    } else {
        Slot { state: SlotState::Idle, generation: (slot.generation + 1) as u64 }
    }
}

/// A buffer when a mapping completes.
pub open spec fn completed(slot: Slot, generation: u64, ok: bool) -> Slot {
    if slot.generation != generation {
        slot
    } else if ok {
        Slot { state: SlotState::Ready, generation }
    } else {
        Slot { state: SlotState::Failed, generation }
    }
}

impl GpuTimer {
    /// What holds of every timer.
    pub open spec fn wf(&self) -> bool {
        timer_ok(self@)
    }

    /// A timer for the named passes, or none where the device has no timestamp
    /// queries: timing is then absent rather than made up.
    pub fn new(has_timestamp_query: bool, scope_names: Vec<String>) -> (t: Option<GpuTimer>)
        requires
            has_timestamp_query ==> 2 * scope_names@.len() <= u32::MAX,
        ensures
            t is Some == has_timestamp_query,
            t matches Some(timer) ==> {
                &&& timer.wf()
                &&& timer@.scopes == names(scope_names@)
                &&& timer@.frame_index == 0
                &&& timer@.slots == Seq::new(
                    SLOTS as nat,
                    |i: int| Slot { state: SlotState::Idle, generation: 0 },
                )
            },
    {
        if !has_timestamp_query {
            return None;
        }
        let idle: Slot = Slot { state: SlotState::Idle, generation: 0 };
        let mut slots: Vec<Slot> = Vec::new();
        slots.push(idle);
        slots.push(idle);
        slots.push(idle);
        assert(slots@ =~= Seq::new(
            SLOTS as nat,
            |i: int| Slot { state: SlotState::Idle, generation: 0 },
        ));
        Some(GpuTimer { scopes: scope_names, slots, frame_index: 0 })
    }

    /// Frames resolved so far.
    pub fn frames(&self) -> (n: u64)
        requires
            self.wf(),
        ensures
            n == self@.frame_index,
    {
        self.frame_index
    }

    /// How many queries the timer's set holds: two per pass.
    pub fn query_count(&self) -> (n: u32)
        requires
            self.wf(),
        ensures
            n == 2 * self@.scopes.len(),
    {
        2 * self.scopes.len() as u32
    }

    /// The query indices a named pass writes at its beginning and at its end,
    /// or none for a pass that is not timed.
    pub fn timestamp_writes(&self, name: &String) -> (w: Option<(u32, u32)>)
        requires
            self.wf(),
        ensures
            match w {
                Some(pair) => {
                    &&& pair.1 == pair.0 + 1
                    &&& pair.0 % 2 == 0
                    &&& scope_index(self@.scopes, name@, pair.0 as int / 2)
                },
                None => !self@.scopes.contains(name@),
            },
    {
        let mut i: usize = 0;
        while i < self.scopes.len()
            invariant
                i <= self.scopes@.len(),
                self@.scopes == names(self.scopes@),
                2 * self.scopes@.len() <= u32::MAX,
                forall|k: int| 0 <= k < i ==> #[trigger] self@.scopes[k] != name@,
            decreases self.scopes@.len() - i,
        {
            if self.scopes[i] == *name {
                return Some((2 * i as u32, 2 * i as u32 + 1));
            }
            i = i + 1;
        }
        None
    }

    /// Plans the copy of this frame's timestamps into the next buffer of the
    /// ring. An unread mapping of that buffer is dropped, and its use ended, so
    /// that a completion still on its way cannot touch the new one.
    pub fn resolve_and_copy(&mut self) -> (plan: ResolvePlan)
        requires
            old(self).wf(),
            old(self)@.frame_index < u64::MAX,
        ensures
            final(self).wf(),
            plan.slot == old(self)@.frame_index % SLOTS as int,
            plan.unmap == (old(self)@.slots[plan.slot as int].state != SlotState::Idle),
            plan.queries == 2 * old(self)@.scopes.len(),
            plan.bytes == 16 * old(self)@.scopes.len(),
            final(self)@ == (TimerView {
                slots: old(self)@.slots.update(
                    plan.slot as int,
                    reclaimed(old(self)@.slots[plan.slot as int]),
                ),
                frame_index: old(self)@.frame_index + 1,
                ..old(self)@
            }),
    {
        let slot: usize = (self.frame_index % SLOTS as u64) as usize;
        let held: Slot = self.slots[slot];
        let unmap: bool = held.state != SlotState::Idle;
        assert(held.generation <= self.frame_index);
        let ghost before = self.slots@;
        if unmap {
            self.slots[slot] = Slot { state: SlotState::Idle, generation: held.generation + 1 };
        }
        assert(self.slots@ =~= before.update(slot as int, reclaimed(held)));
        self.frame_index = self.frame_index + 1;
        let queries: u32 = self.query_count();
        ResolvePlan { slot, unmap, queries, bytes: 8 * queries as u64 }
    }

    /// Requests the mapping of the buffer the last frame was copied into, once
    /// its commands have been submitted. The ticket goes with the completion.
    pub fn request_map(&mut self) -> (ticket: MapTicket)
        requires
            old(self).wf(),
            old(self)@.frame_index > 0,
        ensures
            final(self).wf(),
            ticket.slot == (old(self)@.frame_index - 1) % SLOTS as int,
            ticket.generation == old(self)@.slots[ticket.slot as int].generation,
            final(self)@ == (TimerView {
                slots: old(self)@.slots.update(
                    ticket.slot as int,
                    Slot { state: SlotState::Pending, generation: ticket.generation },
                ),
                ..old(self)@
            }),
    {
        let slot: usize = ((self.frame_index - 1) % SLOTS as u64) as usize;
        let generation: u64 = self.slots[slot].generation;
        self.slots[slot] = Slot { state: SlotState::Pending, generation };
        MapTicket { slot, generation }
    }

    /// Takes note of a completed mapping. One whose buffer has been reclaimed
    /// since is ignored.
    pub fn complete_map(&mut self, ticket: MapTicket, ok: bool)
        requires
            old(self).wf(),
            ticket.slot < SLOTS,
        ensures
            final(self).wf(),
            final(self)@ == (TimerView {
                slots: old(self)@.slots.update(
                    ticket.slot as int,
                    completed(old(self)@.slots[ticket.slot as int], ticket.generation, ok),
                ),
                ..old(self)@
            }),
    {
        let ghost before = self.slots@;
        let held: Slot = self.slots[ticket.slot];
        if held.generation == ticket.generation {
            let state: SlotState = if ok {
                SlotState::Ready
            } else {
                SlotState::Failed
            };
            self.slots[ticket.slot] = Slot { state, generation: ticket.generation };
        }
        assert(self.slots@ =~= before.update(
            ticket.slot as int,
            completed(held, ticket.generation, ok),
        ));
    }

    /// Whether a buffer is mapped and waiting to be read.
    pub fn is_ready(&self, slot: usize) -> (yes: bool)
        requires
            self.wf(),
            slot < SLOTS,
        ensures
            yes == (self@.slots[slot as int].state == SlotState::Ready),
    {
        self.slots[slot].state == SlotState::Ready
    }

    /// Collects one buffer, given its mapped bytes if it is mapped.
    fn drain_slot(&mut self, slot: usize, mapped: &[u8]) -> (samples: Vec<GpuSample>)
        requires
            old(self).wf(),
            slot < SLOTS,
            old(self)@.slots[slot as int].state == SlotState::Ready ==> mapped@.len() == 16 * old(
                self,
            )@.scopes.len(),
        ensures
            final(self).wf(),
            slot_gives(old(self)@.slots[slot as int], mapped@, samples@),
            final(self)@ == (TimerView {
                slots: old(self)@.slots.update(
                    slot as int,
                    collected(old(self)@.slots[slot as int]),
                ),
                ..old(self)@
            }),
    {
        let ghost before = self.slots@;
        let held: Slot = self.slots[slot];
        let mut samples: Vec<GpuSample> = Vec::new();
        if held.state == SlotState::Ready {
            let ticks: Vec<u64> = bytes_as_ticks(mapped);
            let n: usize = self.scopes.len();
            let total: usize = ticks.len();
            assert(total == 2 * n);
            let mut j: usize = 0;
            while j < n
                invariant
                    j <= n,
                    ticks@.len() == total,
                    total == 2 * n,
                    samples@ == samples_of(ticks@).take(j as int),
                decreases n - j,
            {
                let begin: u64 = ticks[2 * j];
                let end: u64 = ticks[2 * j + 1];
                samples.push(GpuSample { scope: j, ticks: end.saturating_sub(begin) });
                j = j + 1;
                assert(samples@ =~= samples_of(ticks@).take(j as int));
            }
            assert(samples@ =~= samples_of(ticks@));
            assert(reads_as(ticks@, mapped@, true) || reads_as(ticks@, mapped@, false));
        }
        if held.state == SlotState::Ready || held.state == SlotState::Failed {
            self.slots[slot] = Slot { state: SlotState::Idle, generation: held.generation };
        }
        assert(self.slots@ =~= before.update(slot as int, collected(held)));
        samples
    }

    /// Collects every mapped buffer: one sample per pass and mapped buffer, in
    /// the ring's order. `mapped` holds the bytes of each buffer; those of one
    /// that is not mapped are not looked at. A buffer that is still pending
    /// stays so.
    pub fn drain_ready(&mut self, mapped: &[Vec<u8>]) -> (samples: Vec<GpuSample>)
        requires
            old(self).wf(),
            mapped@.len() == SLOTS,
            forall|i: int|
                0 <= i < SLOTS && (#[trigger] old(self)@.slots[i]).state == SlotState::Ready
                    ==> mapped@[i]@.len() == 16 * old(self)@.scopes.len(),
        ensures
            final(self).wf(),
            final(self)@ == (TimerView {
                slots: Seq::new(SLOTS as nat, |i: int| collected(old(self)@.slots[i])),
                ..old(self)@
            }),
            exists|a: Seq<GpuSample>, b: Seq<GpuSample>, c: Seq<GpuSample>|
                {
                    &&& samples@ == a + b + c
                    &&& #[trigger] slot_gives(old(self)@.slots[0], mapped@[0]@, a)
                    &&& #[trigger] slot_gives(old(self)@.slots[1], mapped@[1]@, b)
                    &&& #[trigger] slot_gives(old(self)@.slots[2], mapped@[2]@, c)
                },
    {
        let ghost ring = self@.slots;
        assert(ring[0].state == SlotState::Ready ==> mapped@[0]@.len() == 16 * self@.scopes.len());
        assert(ring[1].state == SlotState::Ready ==> mapped@[1]@.len() == 16 * self@.scopes.len());
        assert(ring[2].state == SlotState::Ready ==> mapped@[2]@.len() == 16 * self@.scopes.len());
        let mut samples: Vec<GpuSample> = self.drain_slot(0, mapped[0].as_slice());
        let ghost a = samples@;
        let mut second: Vec<GpuSample> = self.drain_slot(1, mapped[1].as_slice());
        let ghost b = second@;
        let mut third: Vec<GpuSample> = self.drain_slot(2, mapped[2].as_slice());
        let ghost c = third@;
        samples.append(&mut second);
        samples.append(&mut third);
        assert(samples@ =~= a + b + c);
        assert(self@.slots =~= Seq::new(SLOTS as nat, |i: int| collected(ring[i])));
        samples
    }
}

/// A completion that belongs to an earlier use of a buffer changes nothing,
/// however late it comes: reclaiming an unread buffer makes every ticket handed
/// out before stale.
pub proof fn law_late_completions_are_ignored(slot: Slot, ticket: MapTicket, ok: bool)
    requires
        slot.state != SlotState::Idle,
        slot.generation < u64::MAX,
        ticket.generation <= slot.generation,
    ensures
        completed(reclaimed(slot), ticket.generation, ok) == reclaimed(slot),
{
}

/// A buffer gives its samples once: collecting a second time gives none, until
/// another mapping completes.
pub proof fn law_samples_are_given_once(slot: Slot, bytes: Seq<u8>, samples: Seq<GpuSample>)
    requires
        slot_gives(collected(slot), bytes, samples),
    ensures
        samples.len() == 0,
        collected(collected(slot)) == collected(slot),
{
}

/// The buffer a frame is copied into is not used again before [`READBACK_LAG`]
/// more frames have been copied elsewhere.
pub proof fn law_readback_lags(frame: int, later: int)
    requires
        0 <= frame < later <= frame + READBACK_LAG,
    ensures
        frame % SLOTS as int != later % SLOTS as int,
{
}

/// A mapped buffer gives one sample per pass, in order: the ticks from the pass's
/// beginning, the even query, to its end, the odd one, or none where it ends before
/// it begins.
pub proof fn law_samples_are_end_less_beginning(ticks: Seq<u64>, j: int)
    requires
        0 <= j < ticks.len() / 2,
        ticks.len() <= usize::MAX,
    ensures
        samples_of(ticks).len() == ticks.len() / 2,
        samples_of(ticks)[j].scope == j,
        ticks[2 * j] <= ticks[2 * j + 1] ==> samples_of(ticks)[j].ticks + ticks[2 * j] == ticks[2 * j
            + 1],
        ticks[2 * j] > ticks[2 * j + 1] ==> samples_of(ticks)[j].ticks == 0,
{
}

/// A mapping that completes in time makes its buffer readable, and one that fails
/// makes it free once it is collected; neither gives anything before.
pub proof fn law_completed_mappings_are_collected_once(
    slot: Slot,
    bytes: Seq<u8>,
    samples: Seq<GpuSample>,
    ok: bool,
)
    requires
        slot.state == SlotState::Pending,
    ensures
        slot_gives(slot, bytes, samples) <==> samples.len() == 0,
        collected(slot) == slot,
        completed(slot, slot.generation, ok).state == (if ok {
            SlotState::Ready
        } else {
            SlotState::Failed
        }),
        collected(completed(slot, slot.generation, ok)) == (Slot {
            state: SlotState::Idle,
            generation: slot.generation,
        }),
        !ok ==> (slot_gives(completed(slot, slot.generation, ok), bytes, samples) <==> samples.len()
            == 0),
{
}

} // verus!
