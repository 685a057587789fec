//! The pipeline registry: the ordered set of pipelines a frame draws through.
//!
//! The order is a property of the registration: core pipelines in the order
//! they were registered, then every package's, in the order they were
//! registered. Registering is also the last moment at which a layout that
//! asks for more vertex attributes than every GPU has can be refused with the
//! pipeline's name attached.

use super::descriptor::{VertexAttribute, VertexBufferLayout};
use crate::error::{append_decimal, decimal, ByardError};
use vstd::prelude::*;

verus! {

/// Vertex attributes every conformant GPU offers.
pub const GUARANTEED_ATTRIBUTES: u32 = 16;

/// The attribute of the shared unit quad, which every instanced pipeline binds.
pub const QUAD_ATTRIBUTES: u32 = 1;

/// Which half of the draw order a pipeline belongs to.
#[derive(Clone, Copy, PartialEq, Eq, PartialOrd, Ord, Debug, Structural)]
pub enum PipelineOrder {
    /// One the engine itself registers.
    Core,
    /// One a package registers: always after every core pipeline.
    Package,
}

/// What the registry knows of a pipeline.
#[derive(Debug)]
pub struct PipelineRecord {
    /// Its name, for diagnostics.
    pub name: &'static str,
    /// The size of one instance record, in bytes.
    pub instance_size: usize,
    /// Its instance layout.
    pub layout: VertexBufferLayout,
    /// The key a native view's batch names it by.
    pub key: u64,
}

/// One registered pipeline and the two numbers that place it in the order.
#[derive(Debug)]
pub struct Registration {
    /// Which half of the order.
    pub order: PipelineOrder,
    /// Registration sequence, the tie-breaker within a half.
    pub seq: usize,
    /// The pipeline.
    pub pipeline: PipelineRecord,
}

/// The ordered set of pipelines a frame draws through.
pub struct PipelineRegistry {
    entries: Vec<Registration>,
    dispatches: u32,
}

/// Whether one place in the order comes before another.
pub open spec fn before(a: (PipelineOrder, int), b: (PipelineOrder, int)) -> bool {
    if a.0 == b.0 {
        a.1 < b.1
    } else {
        a.0 == PipelineOrder::Core
    }
}

/// The place of a registration in the order.
pub open spec fn place(r: Registration) -> (PipelineOrder, int) {
    (r.order, r.seq as int)
}

/// Whether registrations are in draw order, each with its own sequence number.
pub open spec fn ordered(entries: Seq<Registration>) -> bool {
    &&& forall|i: int, j: int| #![trigger entries[i], entries[j]]
        0 <= i < j < entries.len() ==> before(place(entries[i]), place(entries[j]))
    &&& forall|i: int| #![trigger entries[i]]
        0 <= i < entries.len() ==> entries[i].seq < entries.len()
}

/// How many of the registrations are core ones.
pub open spec fn core_count(entries: Seq<Registration>) -> int
    decreases entries.len(),
{
    if entries.len() == 0 {
        0
    } else {
        core_count(entries.drop_last()) + (if entries.last().order == PipelineOrder::Core {
            1int
        } else {
            0int
        })
    }
}

/// The keys of the registrations, in draw order.
pub open spec fn keys(entries: Seq<Registration>) -> Seq<u64> {
    Seq::new(entries.len(), |i: int| entries[i].pipeline.key)
}

/// The names of the registrations, in draw order.
pub open spec fn names(entries: Seq<Registration>) -> Seq<&'static str> {
    Seq::new(entries.len(), |i: int| entries[i].pipeline.name)
}

/// Where in draw order a key is first registered.
pub open spec fn position(keys: Seq<u64>, key: u64) -> Option<int>
    decreases keys.len(),
{
    if keys.len() == 0 {
        None
    } else {
        match position(keys.drop_last(), key) {
            Some(i) => Some(i),
            None => if keys.last() == key {
                Some(keys.len() - 1)
            } else {
                None
            },
        }
    }
}

/// The first location past the guaranteed range, if there is one.
pub open spec fn first_outside(attributes: Seq<VertexAttribute>) -> Option<u32>
    decreases attributes.len(),
{
    if attributes.len() == 0 {
        None
    } else {
        match first_outside(attributes.drop_last()) {
            Some(l) => Some(l),
            None => if attributes.last().shader_location >= GUARANTEED_ATTRIBUTES {
                Some(attributes.last().shader_location)
            } else {
                None
            },
        }
    }
}

/// Why a layout with an attribute at `location` is refused.
pub open spec fn location_reason(location: u32) -> Seq<char> {
    "vertex attribute at shader location "@ + decimal(location as nat) + " is outside the 0.."@
        + decimal(GUARANTEED_ATTRIBUTES as nat)
        + " every GPU guarantees; pack lanes into wider attributes rather than raising the location"@
}

/// Why a layout that declares `declared` attributes is refused.
pub open spec fn count_reason(declared: int) -> Seq<char> {
    "declares "@ + decimal(declared as nat)
        + " vertex attributes, and with the shared quad that is past the "@ + decimal(
        GUARANTEED_ATTRIBUTES as nat,
    ) + " every GPU guarantees"@
}

/// How many attributes a refusal reports: as many as 32 bits hold.
pub open spec fn reported(n: int) -> int {
    if n > u32::MAX {
        u32::MAX as int
    } else {
        n
    }
}

/// Whether an outcome is the refusal of pipeline `name` for `reason`.
pub open spec fn refused<T>(r: Result<T, ByardError>, name: Seq<char>, reason: Seq<char>) -> bool {
    r matches Err(ByardError::PipelineCompilation { pipeline, reason: why }) && pipeline@ == name
        && why@ == reason
}

/// Whether a layout runs on every conformant GPU.
pub open spec fn portable(layout: VertexBufferLayout) -> bool {
    &&& first_outside(layout.attributes@) is None
    &&& layout.attributes@.len() + QUAD_ATTRIBUTES <= GUARANTEED_ATTRIBUTES
}

/// What checking a layout yields: a location past the guaranteed range is
/// refused first, then too many attributes.
pub open spec fn portability<T>(
    r: Result<T, ByardError>,
    name: Seq<char>,
    layout: VertexBufferLayout,
) -> bool {
    match first_outside(layout.attributes@) {
        Some(l) => refused(r, name, location_reason(l)),
        None => if layout.attributes@.len() + QUAD_ATTRIBUTES > GUARANTEED_ATTRIBUTES {
            refused(r, name, count_reason(reported(layout.attributes@.len() as int)))
        } else {
            r is Ok
        },
    }
}

/// `wgpu::Limits::default`, of which only `max_vertex_attributes` is read. The
/// default limits are the ones every conformant GPU offers, and they hold
/// sixteen vertex attributes.
#[verifier::external_body]
fn guaranteed_attributes() -> (n: u32)
    ensures
        n == GUARANTEED_ATTRIBUTES,
{
    wgpu::Limits::default().max_vertex_attributes
}

/// A pipeline's build failure, under its own name.
pub fn build_error(name: &str, detail: &str) -> (e: ByardError)
    ensures
        e matches ByardError::PipelineCompilation { pipeline, reason } && pipeline@ == name@
            && reason@ == detail@,
{
    ByardError::PipelineCompilation { pipeline: name.to_owned(), reason: detail.to_owned() }
}

/// What building a pipeline comes to: the validation error raised while it was
/// built, reported under the pipeline's name, or nothing.
pub fn build_outcome(name: &str, error: Option<String>) -> (r: Result<(), ByardError>)
    ensures
        match error {
            Some(detail) => refused(r, name@, detail@),
            None => r is Ok,
        },
{
    match error {
        Some(detail) => Err(build_error(name, detail.as_str())),
        None => Ok(()),
    }
}

/// Rejects an instance layout that could not run on some conformant GPU: one
/// with a location outside the guaranteed range, or with more attributes than
/// remain after the shared quad's.
pub fn check_portable_layout(name: &str, layout: &VertexBufferLayout) -> (r: Result<(), ByardError>)
    ensures
        portability(r, name@, *layout),
        r is Ok <==> portable(*layout),
{
    let guaranteed: u32 = guaranteed_attributes();
    let mut i: usize = 0;
    while i < layout.attributes.len()
        invariant
            i <= layout.attributes@.len(),
            guaranteed == GUARANTEED_ATTRIBUTES,
            first_outside(layout.attributes@.take(i as int)) is None,
        decreases layout.attributes@.len() - i,
    {
        let location: u32 = layout.attributes[i].shader_location;
        proof {
            assert(layout.attributes@.take(i as int + 1).drop_last() =~= layout.attributes@.take(
                i as int,
            ));
        }
        if location >= guaranteed {
            let mut why: String = String::new();
            why.append("vertex attribute at shader location ");
            append_decimal(&mut why, location);
            why.append(" is outside the 0..");
            append_decimal(&mut why, guaranteed);
            why.append(
                " every GPU guarantees; pack lanes into wider attributes rather than raising the location",
            );
            proof {
                lemma_first_outside_stays(layout.attributes@, i as int + 1);
                assert(why@ =~= location_reason(location));
            }
            return Err(build_error(name, why.as_str()));
        }
        i = i + 1;
    }
    proof {
        assert(layout.attributes@.take(i as int) =~= layout.attributes@);
    }
    let declared: u32 = if layout.attributes.len() > 0xffff_ffff {
        0xffff_ffff
    } else {
        layout.attributes.len() as u32
    };
    if declared.saturating_add(QUAD_ATTRIBUTES) > guaranteed {
        let mut why: String = String::new();
        why.append("declares ");
        append_decimal(&mut why, declared);
        why.append(" vertex attributes, and with the shared quad that is past the ");
        append_decimal(&mut why, guaranteed);
        why.append(" every GPU guarantees");
        assert(why@ =~= count_reason(declared as int));
        return Err(build_error(name, why.as_str()));
    }
    Ok(())
}

/// The first location past the range in a prefix is the first in the whole.
proof fn lemma_first_outside_stays(attributes: Seq<VertexAttribute>, n: int)
    requires
        0 <= n <= attributes.len(),
        first_outside(attributes.take(n)) is Some,
    ensures
        first_outside(attributes) == first_outside(attributes.take(n)),
    decreases attributes.len() - n,
{
    if n < attributes.len() {
        assert(attributes.take(n + 1).drop_last() =~= attributes.take(n));
        lemma_first_outside_stays(attributes, n + 1);
    } else {
        assert(attributes.take(n) =~= attributes);
    }
}

/// Whether a registration comes at or before a place in the order.
fn at_or_before(r: &Registration, order: PipelineOrder, seq: usize) -> (yes: bool)
    ensures
        yes == (before(place(*r), (order, seq as int)) || place(*r) == (order, seq as int)),
{
    match (r.order, order) {
        (PipelineOrder::Core, PipelineOrder::Package) => true,
        (PipelineOrder::Package, PipelineOrder::Core) => false,
        (PipelineOrder::Core, PipelineOrder::Core) => r.seq <= seq,
        (PipelineOrder::Package, PipelineOrder::Package) => r.seq <= seq,
    }
}

/// Counting core registrations where the first `at` are core and no other is.
proof fn lemma_core_count(entries: Seq<Registration>, at: int)
    requires
        0 <= at <= entries.len(),
        forall|i: int| 0 <= i < at ==> (#[trigger] entries[i]).order == PipelineOrder::Core,
        forall|i: int| at <= i < entries.len() ==> (#[trigger] entries[i]).order
            == PipelineOrder::Package,
    ensures
        core_count(entries) == at,
    decreases entries.len(),
{
    if entries.len() > 0 {
        let rest = entries.drop_last();
        let n = if at < entries.len() {
            at
        } else {
            at - 1
        };
        assert forall|i: int| 0 <= i < n implies (#[trigger] rest[i]).order
            == PipelineOrder::Core by {
            assert(rest[i] == entries[i]);
        }
        assert forall|i: int| n <= i < rest.len() implies (#[trigger] rest[i]).order
            == PipelineOrder::Package by {
            assert(rest[i] == entries[i]);
        }
        lemma_core_count(rest, n);
    }
}

/// A key found in a prefix is found at the same place in the whole.
proof fn lemma_position_stays(all: Seq<u64>, key: u64, n: int)
    requires
        0 <= n <= all.len(),
        position(all.take(n), key) is Some,
    ensures
        position(all, key) == position(all.take(n), key),
    decreases all.len() - n,
{
    if n < all.len() {
        assert(all.take(n + 1).drop_last() =~= all.take(n));
        lemma_position_stays(all, key, n + 1);
    } else {
        assert(all.take(n) =~= all);
    }
}

impl PipelineRegistry {
    /// The registrations, in draw order.
    pub closed spec fn registered(&self) -> Seq<Registration> {
        self.entries@
    }

    /// Dispatches since the frame began.
    pub closed spec fn dispatched(&self) -> int {
        self.dispatches as int
    }

    /// What holds of every registry.
    pub open spec fn wf(&self) -> bool {
        ordered(self.registered())
    }

    /// An empty registry.
    pub fn new() -> (r: PipelineRegistry)
        ensures
            r.wf(),
            r.registered() == Seq::<Registration>::empty(),
            r.dispatched() == 0,
    {
        PipelineRegistry { entries: Vec::new(), dispatches: 0 }
    }

    /// Registers a pipeline and returns its index in the draw order: behind
    /// every core pipeline if it is core, behind everything if it is a
    /// package's. A pipeline whose layout is not portable is refused, and the
    /// registry stays as it was.
    pub fn register(&mut self, order: PipelineOrder, pipeline: PipelineRecord) -> (r: Result<
        usize,
        ByardError,
    >)
        requires
            old(self).wf(),
            old(self).registered().len() < usize::MAX,
        ensures
            final(self).wf(),
            final(self).dispatched() == old(self).dispatched(),
            portability(r, pipeline.name@, pipeline.layout),
            r matches Err(_) ==> final(self).registered() == old(self).registered(),
            r matches Ok(at) ==> {
                &&& at == (match order {
                    PipelineOrder::Core => core_count(old(self).registered()),
                    PipelineOrder::Package => old(self).registered().len() as int,
                })
                &&& at <= old(self).registered().len()
                &&& final(self).registered() == old(self).registered().insert(
                    at as int,
                    (Registration {
                        order,
                        seq: old(self).registered().len() as usize,
                        pipeline,
                    }),
                )
            },
    {
        match check_portable_layout(pipeline.name, &pipeline.layout) {
            Err(e) => {
                return Err(e);
            },
            Ok(()) => {},
        }
        let seq: usize = self.entries.len();
        let mut at: usize = 0;
        while at < self.entries.len() && at_or_before(&self.entries[at], order, seq)
            invariant
                at <= self.entries@.len(),
                ordered(self.entries@),
                seq == self.entries@.len(),
                forall|i: int| 0 <= i < at ==> {
                    let p = place(#[trigger] self.entries@[i]);
                    before(p, (order, seq as int)) || p == (order, seq as int)
                },
            decreases self.entries@.len() - at,
        {
            at = at + 1;
        }
        let ghost old_entries = self.entries@;
        proof {
            assert forall|i: int| at <= i < old_entries.len() implies !before(
                place(#[trigger] old_entries[i]),
                (order, seq as int),
            ) by {
                if i > at {
                    assert(before(place(old_entries[at as int]), place(old_entries[i])));
                }
            }
            match order {
                PipelineOrder::Core => {
                    lemma_core_count(old_entries, at as int);
                },
                PipelineOrder::Package => {
                    if at < old_entries.len() {
                        assert(old_entries[at as int].seq < seq);
                    }
                },
            }
        }
        let entry: Registration = Registration { order, seq, pipeline };
        self.entries.insert(at, entry);
        proof {
            let now = self.entries@;
            assert forall|i: int, j: int| #![trigger now[i], now[j]] 0 <= i < j
                < now.len() implies before(place(now[i]), place(now[j])) by {
                let oi = if i < at {
                    i
                } else {
                    i - 1
                };
                let oj = if j < at {
                    j
                } else {
                    j - 1
                };
                if i != at {
                    assert(now[i] == old_entries[oi]);
                }
                if j != at {
                    assert(now[j] == old_entries[oj]);
                }
                if i == at {
                    assert(!before(place(old_entries[oj]), (order, seq as int)));
                    assert(old_entries[oj].seq < seq);
                } else if j == at {
                    assert(old_entries[oi].seq < seq);
                }
            }
            assert forall|i: int| #![trigger now[i]] 0 <= i < now.len() implies now[i].seq
                < now.len() by {
                if i < at {
                    assert(now[i] == old_entries[i]);
                } else if i > at {
                    assert(now[i] == old_entries[i - 1]);
                }
            }
        }
        Ok(at)
    }

    /// Registers a core pipeline.
    pub fn register_core(&mut self, pipeline: PipelineRecord) -> (r: Result<usize, ByardError>)
        requires
            old(self).wf(),
            old(self).registered().len() < usize::MAX,
        ensures
            final(self).wf(),
            final(self).dispatched() == old(self).dispatched(),
            portability(r, pipeline.name@, pipeline.layout),
            r matches Err(_) ==> final(self).registered() == old(self).registered(),
            r matches Ok(at) ==> {
                &&& at == core_count(old(self).registered())
                &&& at <= old(self).registered().len()
                &&& final(self).registered() == old(self).registered().insert(
                    at as int,
                    (Registration {
                        order: PipelineOrder::Core,
                        seq: old(self).registered().len() as usize,
                        pipeline,
                    }),
                )
            },
    {
        self.register(PipelineOrder::Core, pipeline)
    }

    /// The registrations, in draw order.
    pub fn iter(&self) -> (entries: &[Registration])
        ensures
            entries@ == self.registered(),
    {
        self.entries.as_slice()
    }

    /// The names in draw order.
    pub fn order(&self) -> (r: Vec<&'static str>)
        ensures
            r@ == names(self.registered()),
    {
        let mut r: Vec<&'static str> = Vec::new();
        let mut i: usize = 0;
        while i < self.entries.len()
            invariant
                i <= self.entries@.len(),
                r@ == names(self.entries@).take(i as int),
            decreases self.entries@.len() - i,
        {
            r.push(self.entries[i].pipeline.name);
            i = i + 1;
            proof {
                assert(r@ =~= names(self.entries@).take(i as int));
            }
        }
        proof {
            assert(names(self.entries@).take(i as int) =~= names(self.entries@));
        }
        r
    }

    /// How many pipelines are registered.
    pub fn len(&self) -> (n: usize)
        ensures
            n == self.registered().len(),
    {
        self.entries.len()
    }

    /// Whether no pipeline is registered.
    pub fn is_empty(&self) -> (yes: bool)
        ensures
            yes == (self.registered().len() == 0),
    {
        self.entries.len() == 0
    }

    /// Resets the dispatch counter at the start of a frame.
    pub fn begin_frame(&mut self)
        ensures
            final(self).registered() == old(self).registered(),
            final(self).dispatched() == 0,
    {
        self.dispatches = 0;
    }

    /// How many dispatches this frame has made: proportional to the number of
    /// pipelines, never to the number of instances.
    pub fn dispatches(&self) -> (n: u32)
        ensures
            n == self.dispatched(),
    {
        self.dispatches
    }

    /// Finds the pipeline a native view's batch names and counts its dispatch.
    /// `None` when nobody registered it; the batch is then skipped.
    pub fn draw_batch(&mut self, key: u64) -> (r: Option<usize>)
        requires
            old(self).dispatched() < u32::MAX,
        ensures
            final(self).registered() == old(self).registered(),
            match position(keys(old(self).registered()), key) {
                Some(i) => r == Some(i as usize) && final(self).dispatched() == old(
                    self,
                ).dispatched() + 1,
                None => r is None && final(self).dispatched() == old(self).dispatched(),
            },
    {
        let mut i: usize = 0;
        while i < self.entries.len()
            invariant
                i <= self.entries@.len(),
                self.entries@ == old(self).entries@,
                self.dispatches == old(self).dispatches,
                self.dispatches < u32::MAX,
                position(keys(self.entries@).take(i as int), key) is None,
            decreases self.entries@.len() - i,
        {
            let ghost all = keys(self.entries@);
            proof {
                assert(all.take(i as int + 1).drop_last() =~= all.take(i as int));
            }
            if self.entries[i].pipeline.key == key {
                proof {
                    lemma_position_stays(all, key, i as int + 1);
                }
                self.dispatches = self.dispatches + 1;
                return Some(i);
            }
            i = i + 1;
        }
        proof {
            assert(keys(self.entries@).take(i as int) =~= keys(self.entries@));
        }
        None
    }

    /// Draws one segment through every registered pipeline, in order: the keys
    /// to dispatch to, each counted once.
    pub fn draw_segment(&mut self) -> (r: Vec<u64>)
        requires
            old(self).dispatched() + old(self).registered().len() <= u32::MAX,
        ensures
            final(self).registered() == old(self).registered(),
            r@ == keys(old(self).registered()),
            final(self).dispatched() == old(self).dispatched() + old(self).registered().len(),
    {
        let mut r: Vec<u64> = Vec::new();
        let mut i: usize = 0;
        while i < self.entries.len()
            invariant
                i <= self.entries@.len(),
                self.entries@ == old(self).entries@,
                self.dispatches == old(self).dispatches + i,
                old(self).dispatches + self.entries@.len() <= u32::MAX,
                r@ == keys(self.entries@).take(i as int),
            decreases self.entries@.len() - i,
        {
            self.dispatches = self.dispatches + 1;
            r.push(self.entries[i].pipeline.key);
            i = i + 1;
            proof {
                assert(r@ =~= keys(self.entries@).take(i as int));
            }
        }
        proof {
            assert(keys(self.entries@).take(i as int) =~= keys(self.entries@));
        }
        r
    }
}

/// Every core pipeline is drawn before every package's, and within each half
/// the earlier registration is drawn first.
pub proof fn law_core_before_packages(entries: Seq<Registration>, i: int, j: int)
    requires
        ordered(entries),
        0 <= i < entries.len(),
        0 <= j < entries.len(),
        entries[i].order == PipelineOrder::Core && entries[j].order == PipelineOrder::Package || (
        entries[i].order == entries[j].order && entries[i].seq < entries[j].seq),
    ensures
        i < j,
{
    if j < i {
        assert(before(place(entries[j]), place(entries[i])));
    }
}

/// A layout within every location and one attribute short of the guarantee is
/// portable, and one more attribute is too many: the shared quad counts.
pub proof fn law_the_quad_counts(layout: VertexBufferLayout)
    requires
        first_outside(layout.attributes@) is None,
    ensures
        layout.attributes@.len() <= 15 ==> portable(layout),
        layout.attributes@.len() >= 16 ==> !portable(layout),
{
}

/// A layout is accepted exactly if every location lies below sixteen and there are
/// at most fifteen attributes. A refusal for a location names the first one outside.
pub proof fn law_layouts_are_judged_by_location_and_count(layout: VertexBufferLayout)
    ensures
        portable(layout) <==> {
            &&& layout.attributes@.len() <= 15
            &&& forall|i: int|
                0 <= i < layout.attributes@.len() ==> (
                #[trigger] layout.attributes@[i]).shader_location < 16
        },
        first_outside(layout.attributes@) matches Some(l) ==> exists|i: int|
            {
                &&& 0 <= i < layout.attributes@.len()
                &&& (#[trigger] layout.attributes@[i]).shader_location == l
                &&& l >= 16
                &&& forall|k: int|
                    0 <= k < i ==> (#[trigger] layout.attributes@[k]).shader_location < 16
            },
{
    lemma_first_outside(layout.attributes@);
}

/// What the first location past the range is.
proof fn lemma_first_outside(attributes: Seq<VertexAttribute>)
    ensures
        first_outside(attributes) is None <==> forall|i: int|
            0 <= i < attributes.len() ==> (#[trigger] attributes[i]).shader_location < 16,
        first_outside(attributes) matches Some(l) ==> exists|i: int|
            {
                &&& 0 <= i < attributes.len()
                &&& (#[trigger] attributes[i]).shader_location == l
                &&& l >= 16
                &&& forall|k: int| 0 <= k < i ==> (#[trigger] attributes[k]).shader_location < 16
            },
    decreases attributes.len(),
{
    if attributes.len() > 0 {
        let rest = attributes.drop_last();
        let n = rest.len() as int;
        lemma_first_outside(rest);
        assert(forall|i: int| 0 <= i < n ==> #[trigger] rest[i] == attributes[i]);
        if first_outside(rest) is Some {
            let l = first_outside(rest)->0;
            let i = choose|i: int|
                {
                    &&& 0 <= i < rest.len()
                    &&& (#[trigger] rest[i]).shader_location == l
                    &&& l >= 16
                    &&& forall|k: int| 0 <= k < i ==> (#[trigger] rest[k]).shader_location < 16
                };
            assert(attributes[i].shader_location == l);
            assert forall|k: int| 0 <= k < i implies (
            #[trigger] attributes[k]).shader_location < 16 by {
                assert(rest[k] == attributes[k]);
            }
        } else {
            assert forall|k: int| 0 <= k < n implies (
            #[trigger] attributes[k]).shader_location < 16 by {
                assert(rest[k].shader_location < 16);
            }
            if attributes[n].shader_location >= 16 {
                assert(first_outside(attributes) == Some(attributes[n].shader_location));
            }
        }
    }
}

/// A batch goes to the first registration that has its key, and nowhere if none has.
pub proof fn law_batches_go_to_the_first_of_their_key(keys: Seq<u64>, key: u64)
    ensures
        match position(keys, key) {
            Some(i) => {
                &&& 0 <= i < keys.len()
                &&& keys[i] == key
                &&& forall|k: int| 0 <= k < i ==> #[trigger] keys[k] != key
            },
            None => forall|k: int| 0 <= k < keys.len() ==> #[trigger] keys[k] != key,
        },
    decreases keys.len(),
{
    if keys.len() > 0 {
        let rest = keys.drop_last();
        law_batches_go_to_the_first_of_their_key(rest, key);
        assert(forall|k: int| 0 <= k < rest.len() ==> #[trigger] rest[k] == keys[k]);
        match position(rest, key) {
            Some(i) => {
                assert(keys[i] == rest[i]);
                assert forall|k: int| 0 <= k < i implies #[trigger] keys[k] != key by {
                    assert(rest[k] != key);
                }
            },
            None => {
                assert forall|k: int| 0 <= k < rest.len() implies #[trigger] keys[k] != key by {
                    assert(rest[k] != key);
                }
            },
        }
    }
}

/// A registration changes nothing but its own place: every pipeline registered before
/// keeps its order, its number and its neighbours' order, and the new one stands
/// behind every core pipeline, and before every package exactly if it is core.
pub proof fn law_registering_moves_nobody(
    entries: Seq<Registration>,
    entry: Registration,
    i: int,
    j: int,
)
    requires
        ordered(entries),
        entry.seq == entries.len(),
        0 <= i < j < entries.len(),
    ensures
        ({
            let at = match entry.order {
                PipelineOrder::Core => core_count(entries),
                PipelineOrder::Package => entries.len() as int,
            };
            let now = entries.insert(at, entry);
            &&& 0 <= at <= entries.len()
            &&& now[at] == entry
            &&& now.contains(entries[i]) && now.contains(entries[j])
            &&& forall|k: int|
                0 <= k < at ==> entry.order == PipelineOrder::Package || (
                #[trigger] entries[k]).order == PipelineOrder::Core
            &&& forall|k: int|
                at <= k < entries.len() ==> (#[trigger] entries[k]).order
                    == PipelineOrder::Package
        }),
{
    let c = lemma_core_before(entries);
    lemma_core_count(entries, c);
    let at = match entry.order {
        PipelineOrder::Core => core_count(entries),
        PipelineOrder::Package => entries.len() as int,
    };
    let now = entries.insert(at, entry);
    assert(now[if i < at {
        i
    } else {
        i + 1
    }] == entries[i]);
    assert(now[if j < at {
        j
    } else {
        j + 1
    }] == entries[j]);
}

/// Registrations in order have the core ones first.
proof fn lemma_core_before(entries: Seq<Registration>) -> (c: int)
    requires
        forall|i: int, j: int| #![trigger entries[i], entries[j]]
            0 <= i < j < entries.len() ==> before(place(entries[i]), place(entries[j])),
    ensures
        0 <= c <= entries.len(),
        forall|i: int| 0 <= i < c ==> (#[trigger] entries[i]).order == PipelineOrder::Core,
        forall|i: int| c <= i < entries.len() ==> (#[trigger] entries[i]).order
            == PipelineOrder::Package,
    decreases entries.len(),
{
    if entries.len() == 0 {
        0
    } else {
        let rest = entries.drop_last();
        let n = rest.len() as int;
        assert forall|i: int, j: int| #![trigger rest[i], rest[j]]
            0 <= i < j < rest.len() implies before(place(rest[i]), place(rest[j])) by {
            assert(rest[i] == entries[i] && rest[j] == entries[j]);
        }
        let c = lemma_core_before(rest);
        assert forall|i: int| 0 <= i < c implies (#[trigger] entries[i]).order
            == PipelineOrder::Core by {
            assert(rest[i] == entries[i]);
        }
        assert forall|i: int| c <= i < n implies (#[trigger] entries[i]).order
            == PipelineOrder::Package by {
            assert(rest[i] == entries[i]);
        }
        if c < n {
            assert(entries[c].order == PipelineOrder::Package);
            assert(before(place(entries[c]), place(entries[n])));
            c
        } else if entries[n].order == PipelineOrder::Core {
            n + 1
        } else {
            c
        }
    }
}

/// A refusal names what it refuses: the location outside, or how many attributes there are.
pub proof fn law_refusals_name_what_they_refuse(location: u32, declared: int)
    requires
        declared >= 0,
    ensures
        location_reason(location).subrange(36, 36 + decimal(location as nat).len() as int) == decimal(
            location as nat,
        ),
        count_reason(declared).subrange(9, 9 + decimal(declared as nat).len() as int) == decimal(
            declared as nat,
        ),
{
    reveal_strlit("vertex attribute at shader location ");
    reveal_strlit("declares ");
    assert(location_reason(location).subrange(36, 36 + decimal(location as nat).len() as int)
        =~= decimal(location as nat));
    assert(count_reason(declared).subrange(9, 9 + decimal(declared as nat).len() as int)
        =~= decimal(declared as nat));
}

} // verus!
