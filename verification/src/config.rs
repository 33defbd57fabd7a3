//! Schema for the per-board device table: boot checkpoints, image regions
//! and slots, the golden image, a device's image layout, and the managed
//! device itself.
//!
//! Every constructor states the schema's rules in its `requires`, so a table
//! that breaks one cannot be built by verified code. Each constructor has a
//! checked twin, `try_new`, that tests the same rules at run time and says
//! which one an entry broke, in the order the rules are checked.

use core::time::Duration;
use vstd::prelude::*;
use vstd::set_lib::{lemma_int_range, lemma_len_subset, set_int_range};
use vstd::string::StringSliceAdditionalSpecFns;

verus! {

/// What `Duration::is_zero` answers for a duration: whether it spans no time.
pub uninterp spec fn spans_no_time(d: Duration) -> bool;

/// `Duration::is_zero`. The contract claims no more than that the answer is
/// fixed by the duration's value; what that value is stays opaque here.
#[verifier::external_body]
pub(crate) fn duration_is_zero(d: &Duration) -> (z: bool)
    ensures
        z == spans_no_time(*d),
{
    d.is_zero()
}

/// A rule of the schema that a table entry broke.
#[derive(Clone, Copy, PartialEq, Eq, Debug, Structural)]
pub enum TableError {
    EmptyCheckpointName,
    ZeroTimeout,
    ZeroLengthRegion,
    RegionPastEnd,
    SlotOverlapsGolden,
    DuplicateSlotId,
    OverlappingSlots,
    EmptyDeviceName,
    NoCheckpoints,
    DuplicateCheckpointName,
    RetryTooSmall,
}

/// The sentence that reports each broken rule.
pub open spec fn table_error_text(e: TableError) -> Seq<char> {
    match e {
        TableError::EmptyCheckpointName => "checkpoint name must not be empty"@,
        TableError::ZeroTimeout => "checkpoint timeout must not be zero"@,
        TableError::ZeroLengthRegion => "region length must not be zero"@,
        TableError::RegionPastEnd => "region must not run past the end of the offset space"@,
        TableError::SlotOverlapsGolden => "a slot must not overlap the golden image"@,
        TableError::DuplicateSlotId => "slot ids must be unique within a layout"@,
        TableError::OverlappingSlots => "slots must not overlap"@,
        TableError::EmptyDeviceName => "device name must not be empty"@,
        TableError::NoCheckpoints => "device must declare at least one boot checkpoint"@,
        TableError::DuplicateCheckpointName => "checkpoint names must be unique per device"@,
        TableError::RetryTooSmall => "max_retry is too small to boot every image of a device"@,
    }
}

impl TableError {
    /// The sentence that reports this broken rule.
    pub fn message(&self) -> (m: &'static str)
        ensures
            m@ == table_error_text(*self),
    {
        match self {
            TableError::EmptyCheckpointName => "checkpoint name must not be empty",
            TableError::ZeroTimeout => "checkpoint timeout must not be zero",
            TableError::ZeroLengthRegion => "region length must not be zero",
            TableError::RegionPastEnd => "region must not run past the end of the offset space",
            TableError::SlotOverlapsGolden => "a slot must not overlap the golden image",
            TableError::DuplicateSlotId => "slot ids must be unique within a layout",
            TableError::OverlappingSlots => "slots must not overlap",
            TableError::EmptyDeviceName => "device name must not be empty",
            TableError::NoCheckpoints => "device must declare at least one boot checkpoint",
            TableError::DuplicateCheckpointName => "checkpoint names must be unique per device",
            TableError::RetryTooSmall => "max_retry is too small to boot every image of a device",
        }
    }
}

// ---------------------------------------------------------------------------
// Boot checkpoints
// ---------------------------------------------------------------------------

/// One boot checkpoint: a board-defined signal the orchestrator waits for,
/// and how long one attempt at it may take.
#[derive(Debug, Copy)]
pub struct BootCheckpoint<G> {
    name: &'static str,
    signal: G,
    timeout: Duration,
}

impl<G: Copy> Clone for BootCheckpoint<G> {
    fn clone(&self) -> (r: Self)
        ensures
            r == *self,
    {
        *self
    }
}

/// The first rule a checkpoint with this name and timeout breaks, if any.
pub open spec fn checkpoint_error(name: Seq<char>, timeout: Duration) -> Option<TableError> {
    if name.len() == 0 {
        Some(TableError::EmptyCheckpointName)
    } else if spans_no_time(timeout) {
        Some(TableError::ZeroTimeout)
    } else {
        None
    }
}

impl<G> BootCheckpoint<G> {
    pub closed spec fn name_spec(self) -> &'static str {
        self.name
    }

    pub closed spec fn signal_spec(self) -> G {
        self.signal
    }

    pub closed spec fn timeout_spec(self) -> Duration {
        self.timeout
    }

    #[verifier::type_invariant]
    spec fn well_formed(self) -> bool {
        checkpoint_error(self.name@, self.timeout) is None
    }

    /// Declares a checkpoint; the name must not be empty and the timeout
    /// must not be zero.
    pub fn new(name: &'static str, signal: G, timeout: Duration) -> (r: Self)
        requires
            checkpoint_error(name@, timeout) is None,
        ensures
            r.name_spec() == name,
            r.signal_spec() == signal,
            r.timeout_spec() == timeout,
    {
        BootCheckpoint { name, signal, timeout }
    }

    /// Declares a checkpoint, or names the first rule it breaks.
    pub fn try_new(name: &'static str, signal: G, timeout: Duration) -> (r: Result<Self, TableError>)
        ensures
            match r {
                Ok(c) => checkpoint_error(name@, timeout) is None && c.name_spec() == name
                    && c.signal_spec() == signal && c.timeout_spec() == timeout,
                Err(e) => checkpoint_error(name@, timeout) == Some(e),
            },
    {
        if name.is_empty() {
            return Err(TableError::EmptyCheckpointName);
        }
        if duration_is_zero(&timeout) {
            return Err(TableError::ZeroTimeout);
        }
        Ok(Self::new(name, signal, timeout))
    }

    /// Names the checkpoint in failure reports; never empty.
    pub fn name(&self) -> (r: &'static str)
        ensures
            r == self.name_spec(),
            r@.len() > 0,
    {
        proof {
            use_type_invariant(self);
        }
        self.name
    }

    /// The board-defined signal id.
    pub fn signal(&self) -> (r: &G)
        ensures
            *r == self.signal_spec(),
    {
        &self.signal
    }

    /// The window for one attempt at this checkpoint; never zero.
    pub fn timeout(&self) -> (r: Duration)
        ensures
            r == self.timeout_spec(),
            !spans_no_time(r),
    {
        proof {
            use_type_invariant(self);
        }
        self.timeout
    }
}

// ---------------------------------------------------------------------------
// Regions, slots and the golden image
// ---------------------------------------------------------------------------

/// Names one slot in one device's layout.
#[derive(Clone, Copy, PartialEq, Eq, Debug, Structural)]
pub struct SlotId(pub u8);

/// A byte range in the store that holds one device's images, counted from
/// the start of that device's area.
#[derive(Clone, Copy, PartialEq, Eq, Debug, Structural)]
pub struct Region {
    base: u32,
    len: u32,
}

/// The first rule a region with this base and length breaks, if any.
pub open spec fn region_error(base: u32, len: u32) -> Option<TableError> {
    if len == 0 {
        Some(TableError::ZeroLengthRegion)
    } else if base + len > u32::MAX {
        Some(TableError::RegionPastEnd)
    } else {
        None
    }
}

/// Whether two regions share a byte.
pub open spec fn regions_overlap(a: Region, b: Region) -> bool {
    a.base_spec() < b.end_spec() && b.base_spec() < a.end_spec()
}

impl Region {
    pub closed spec fn base_spec(self) -> u32 {
        self.base
    }

    pub closed spec fn len_spec(self) -> u32 {
        self.len
    }

    /// Offset one past the last byte.
    pub open spec fn end_spec(self) -> int {
        self.base_spec() + self.len_spec()
    }

    #[verifier::type_invariant]
    spec fn well_formed(self) -> bool {
        region_error(self.base, self.len) is None
    }

    /// Declares a region; it must not be empty and must end inside the
    /// 32-bit offset range.
    pub fn new(base: u32, len: u32) -> (r: Self)
        requires
            region_error(base, len) is None,
        ensures
            r.base_spec() == base,
            r.len_spec() == len,
    {
        Region { base, len }
    }

    /// Declares a region, or names the first rule it breaks.
    pub fn try_new(base: u32, len: u32) -> (r: Result<Self, TableError>)
        ensures
            match r {
                Ok(g) => region_error(base, len) is None && g.base_spec() == base && g.len_spec() == len,
                Err(e) => region_error(base, len) == Some(e),
            },
    {
        if len == 0 {
            return Err(TableError::ZeroLengthRegion);
        }
        if base.checked_add(len).is_none() {
            return Err(TableError::RegionPastEnd);
        }
        Ok(Self::new(base, len))
    }

    /// Offset of the first byte.
    pub fn base(&self) -> (r: u32)
        ensures
            r == self.base_spec(),
    {
        self.base
    }

    /// How many bytes the region holds; never zero.
    pub fn len(&self) -> (r: u32)
        ensures
            r == self.len_spec(),
            r > 0,
    {
        proof {
            use_type_invariant(self);
        }
        self.len
    }

    /// Offset one past the last byte.
    pub fn end(&self) -> (r: u32)
        ensures
            r == self.end_spec(),
    {
        proof {
            use_type_invariant(self);
        }
        self.base + self.len
    }

    fn overlaps(&self, other: &Region) -> (r: bool)
        ensures
            r == regions_overlap(*self, *other),
    {
        self.base < other.end() && other.base < self.end()
    }
}

/// One slot in a device's layout: an image the eRoT writes and boots.
#[derive(Clone, Copy, Debug)]
pub struct Slot {
    id: SlotId,
    region: Region,
}

impl Slot {
    pub closed spec fn id_spec(self) -> SlotId {
        self.id
    }

    pub closed spec fn region_spec(self) -> Region {
        self.region
    }

    /// Declares one slot.
    pub fn new(id: SlotId, region: Region) -> (r: Self)
        ensures
            r.id_spec() == id,
            r.region_spec() == region,
    {
        Slot { id, region }
    }

    pub fn id(&self) -> (r: SlotId)
        ensures
            r == self.id_spec(),
    {
        self.id
    }

    pub fn region(&self) -> (r: Region)
        ensures
            r == self.region_spec(),
    {
        self.region
    }
}

/// The golden image: the last image recovery falls back to, which the eRoT
/// never writes.
#[derive(Clone, Copy, Debug)]
pub struct Golden {
    region: Region,
}

impl Golden {
    pub closed spec fn region_spec(self) -> Region {
        self.region
    }

    pub fn new(region: Region) -> (r: Self)
        ensures
            r.region_spec() == region,
    {
        Golden { region }
    }

    pub fn region(&self) -> (r: Region)
        ensures
            r == self.region_spec(),
    {
        self.region
    }
}

// ---------------------------------------------------------------------------
// Image layouts
// ---------------------------------------------------------------------------

/// The rules of a layout: no slot overlaps the golden image, no two slots
/// share an id, and no two slots overlap.
pub open spec fn layout_valid(slots: Seq<Slot>, golden: Golden) -> bool {
    &&& forall|s: int|
        0 <= s < slots.len() ==> !regions_overlap(#[trigger] slots[s].region_spec(), golden.region_spec())
    &&& forall|s: int, t: int|
        0 <= s < t < slots.len() ==> #[trigger] slots[s].id_spec() != #[trigger] slots[t].id_spec()
    &&& forall|s: int, t: int|
        0 <= s < t < slots.len() ==> !regions_overlap(
            #[trigger] slots[s].region_spec(),
            #[trigger] slots[t].region_spec(),
        )
}

/// The first rule broken by slot `s` against the slots from `t` on.
pub open spec fn pair_error(slots: Seq<Slot>, s: int, t: int) -> Option<TableError>
    decreases slots.len() - t,
{
    if t >= slots.len() {
        None
    } else if slots[s].id_spec() == slots[t].id_spec() {
        Some(TableError::DuplicateSlotId)
    } else if regions_overlap(slots[s].region_spec(), slots[t].region_spec()) {
        Some(TableError::OverlappingSlots)
    } else {
        pair_error(slots, s, t + 1)
    }
}

/// The first rule broken by the slots from `s` on, each checked against the
/// golden image and then against every slot after it.
pub open spec fn slots_error(slots: Seq<Slot>, golden: Golden, s: int) -> Option<TableError>
    decreases slots.len() - s,
{
    if s >= slots.len() {
        None
    } else if regions_overlap(slots[s].region_spec(), golden.region_spec()) {
        Some(TableError::SlotOverlapsGolden)
    } else {
        match pair_error(slots, s, s + 1) {
            Some(e) => Some(e),
            None => slots_error(slots, golden, s + 1),
        }
    }
}

/// The first rule a layout breaks, in the order the rules are checked.
pub open spec fn layout_error(slots: Seq<Slot>, golden: Golden) -> Option<TableError> {
    slots_error(slots, golden, 0)
}

/// Two slots that may share a layout: different ids, disjoint regions.
pub open spec fn slots_compatible(a: Slot, b: Slot) -> bool {
    a.id_spec() != b.id_spec() && !regions_overlap(a.region_spec(), b.region_spec())
}

proof fn lemma_pair_error(slots: Seq<Slot>, s: int, t: int)
    requires
        0 <= s < slots.len(),
        s < t,
    ensures
        pair_error(slots, s, t) is None <==> forall|u: int|
            t <= u < slots.len() ==> slots_compatible(slots[s], #[trigger] slots[u]),
    decreases slots.len() - t,
{
    if t < slots.len() {
        lemma_pair_error(slots, s, t + 1);
        if pair_error(slots, s, t) is None {
            assert forall|u: int| t <= u < slots.len() implies slots_compatible(slots[s], #[trigger] slots[u]) by {
                if u > t {
                    assert(slots_compatible(slots[s], slots[u]));
                }
            }
        } else {
            if slots_compatible(slots[s], slots[t]) {
                let u = choose|u: int| t + 1 <= u < slots.len() && !slots_compatible(slots[s], #[trigger] slots[u]);
                assert(!slots_compatible(slots[s], slots[u]));
            } else {
                assert(!slots_compatible(slots[s], slots[t]));
            }
        }
    }
}

proof fn lemma_slots_error(slots: Seq<Slot>, golden: Golden, s: int)
    requires
        0 <= s <= slots.len(),
    ensures
        slots_error(slots, golden, s) is None <==> {
            &&& forall|a: int|
                s <= a < slots.len() ==> !regions_overlap(#[trigger] slots[a].region_spec(), golden.region_spec())
            &&& forall|a: int, b: int|
                s <= a < b < slots.len() ==> slots_compatible(#[trigger] slots[a], #[trigger] slots[b])
        },
    decreases slots.len() - s,
{
    if s < slots.len() {
        lemma_slots_error(slots, golden, s + 1);
        lemma_pair_error(slots, s, s + 1);
        if slots_error(slots, golden, s) is None {
            assert forall|a: int, b: int| s <= a < b < slots.len() implies slots_compatible(
                #[trigger] slots[a],
                #[trigger] slots[b],
            ) by {
                if a == s {
                    assert(slots_compatible(slots[s], slots[b]));
                }
            }
        } else if !regions_overlap(slots[s].region_spec(), golden.region_spec()) {
            if pair_error(slots, s, s + 1) is Some {
                let b = choose|b: int| s + 1 <= b < slots.len() && !slots_compatible(slots[s], #[trigger] slots[b]);
                assert(!slots_compatible(slots[s], slots[b]));
            }
        }
    }
}

/// A layout passes every check exactly when it keeps every rule of the
/// schema: the order of the checks decides only which broken rule is named.
pub proof fn lemma_layout_error_none_iff_valid(slots: Seq<Slot>, golden: Golden)
    ensures
        layout_error(slots, golden) is None <==> layout_valid(slots, golden),
{
    lemma_slots_error(slots, golden, 0);
    if layout_valid(slots, golden) {
        assert forall|a: int, b: int| 0 <= a < b < slots.len() implies slots_compatible(
            #[trigger] slots[a],
            #[trigger] slots[b],
        ) by {
            assert(slots[a].id_spec() != slots[b].id_spec());
            assert(!regions_overlap(slots[a].region_spec(), slots[b].region_spec()));
        }
    }
    if layout_error(slots, golden) is None {
        assert forall|a: int, b: int| 0 <= a < b < slots.len() implies #[trigger] slots[a].id_spec()
            != #[trigger] slots[b].id_spec() by {
            assert(slots_compatible(slots[a], slots[b]));
        }
        assert forall|a: int, b: int| 0 <= a < b < slots.len() implies !regions_overlap(
            #[trigger] slots[a].region_spec(),
            #[trigger] slots[b].region_spec(),
        ) by {
            assert(slots_compatible(slots[a], slots[b]));
        }
    }
}

/// Slot ids are bytes, so a layout whose ids are all distinct has at most
/// 256 slots.
/// Whether the byte at offset `x` lies in `r`.
pub open spec fn region_holds(r: Region, x: int) -> bool {
    r.base_spec() <= x < r.end_spec()
}

/// Two regions (each at least one byte long, as every declared region is)
/// overlap exactly when some byte lies in both; so overlap is symmetric, and
/// disjoint regions share no byte.
pub proof fn lemma_overlap_is_a_shared_byte(a: Region, b: Region)
    requires
        a.len_spec() > 0,
        b.len_spec() > 0,
    ensures
        regions_overlap(a, b) <==> exists|x: int| region_holds(a, x) && region_holds(b, x),
        regions_overlap(a, b) == regions_overlap(b, a),
{
    if regions_overlap(a, b) {
        let x = if a.base_spec() < b.base_spec() {
            b.base_spec() as int
        } else {
            a.base_spec() as int
        };
        assert(region_holds(a, x) && region_holds(b, x));
    }
    if exists|x: int| region_holds(a, x) && region_holds(b, x) {
        let x = choose|x: int| region_holds(a, x) && region_holds(b, x);
        assert(regions_overlap(a, b));
    }
    if regions_overlap(b, a) {
        let x = if b.base_spec() < a.base_spec() {
            a.base_spec() as int
        } else {
            b.base_spec() as int
        };
        assert(region_holds(a, x) && region_holds(b, x));
    }
}

/// An accepted layout gives every byte to at most one image: no offset lies
/// in two slots, nor in a slot and the golden image.
pub proof fn lemma_accepted_layout_is_disjoint(slots: Seq<Slot>, golden: Golden)
    requires
        layout_error(slots, golden) is None,
    ensures
        forall|s: int, t: int, x: int|
            #![trigger region_holds(slots[s].region_spec(), x), region_holds(slots[t].region_spec(), x)]
            0 <= s < slots.len() && 0 <= t < slots.len() && s != t && region_holds(slots[s].region_spec(), x)
                ==> !region_holds(slots[t].region_spec(), x),
        forall|s: int, x: int|
            #![trigger region_holds(slots[s].region_spec(), x)]
            0 <= s < slots.len() && region_holds(slots[s].region_spec(), x) ==> !region_holds(
                golden.region_spec(),
                x,
            ),
{
    lemma_layout_error_none_iff_valid(slots, golden);
    assert forall|s: int, t: int, x: int|
        #![trigger region_holds(slots[s].region_spec(), x), region_holds(slots[t].region_spec(), x)]
        0 <= s < slots.len() && 0 <= t < slots.len() && s != t && region_holds(slots[s].region_spec(), x)
            implies !region_holds(slots[t].region_spec(), x) by {
        if s < t {
            assert(!regions_overlap(slots[s].region_spec(), slots[t].region_spec()));
        } else {
            assert(!regions_overlap(slots[t].region_spec(), slots[s].region_spec()));
        }
    }
    assert forall|s: int, x: int|
        #![trigger region_holds(slots[s].region_spec(), x)]
        0 <= s < slots.len() && region_holds(slots[s].region_spec(), x) implies !region_holds(
            golden.region_spec(),
            x,
        ) by {
        assert(!regions_overlap(slots[s].region_spec(), golden.region_spec()));
    }
}

proof fn lemma_distinct_ids_fit(slots: Seq<Slot>)
    requires
        forall|s: int, t: int|
            0 <= s < t < slots.len() ==> #[trigger] slots[s].id_spec() != #[trigger] slots[t].id_spec(),
    ensures
        slots.len() <= 256,
{
    let ids = slots.map_values(|x: Slot| x.id_spec().0 as int);
    assert forall|i: int, j: int| 0 <= i < ids.len() && 0 <= j < ids.len() && i != j implies ids[i]
        != ids[j] by {
        if i < j {
            assert(slots[i].id_spec() != slots[j].id_spec());
        } else {
            assert(slots[j].id_spec() != slots[i].id_spec());
        }
    }
    assert(ids.no_duplicates());
    ids.unique_seq_to_set();
    lemma_int_range(0, 256);
    assert forall|x: int| ids.to_set().contains(x) implies set_int_range(0, 256).contains(x) by {
        let k = choose|k: int| 0 <= k < ids.len() && ids[k] == x;
        assert(0 <= slots[k].id_spec().0 < 256);
    }
    lemma_len_subset(ids.to_set(), set_int_range(0, 256));
}

/// Every image of one device that the eRoT can address: the slots it
/// writes, in recovery order, and the golden image.
#[derive(Clone, Copy, Debug)]
pub struct ImageLayout {
    slots: &'static [Slot],
    golden: Golden,
}

impl ImageLayout {
    pub closed spec fn slots_spec(self) -> Seq<Slot> {
        self.slots@
    }

    pub closed spec fn golden_spec(self) -> Golden {
        self.golden
    }

    /// Every slot, then the golden image.
    pub open spec fn image_count_spec(self) -> int {
        self.slots_spec().len() + 1int
    }

    #[verifier::type_invariant]
    spec fn well_formed(self) -> bool {
        layout_valid(self.slots@, self.golden) && self.slots@.len() <= 256
    }

    /// Declares a device's images; the layout must keep every rule.
    pub fn new(slots: &'static [Slot], golden: Golden) -> (r: Self)
        requires
            layout_valid(slots@, golden),
        ensures
            r.slots_spec() == slots@,
            r.golden_spec() == golden,
    {
        proof {
            lemma_distinct_ids_fit(slots@);
        }
        ImageLayout { slots, golden }
    }

    /// Declares a device's images, or names the first rule the layout
    /// breaks.
    pub fn try_new(slots: &'static [Slot], golden: Golden) -> (r: Result<Self, TableError>)
        ensures
            match r {
                Ok(l) => layout_error(slots@, golden) is None && l.slots_spec() == slots@
                    && l.golden_spec() == golden,
                Err(e) => layout_error(slots@, golden) == Some(e),
            },
    {
        let mut s: usize = 0;
        while s < slots.len()
            invariant
                s <= slots@.len(),
                layout_error(slots@, golden) == slots_error(slots@, golden, s as int),
            decreases slots@.len() - s,
        {
            if slots[s].region.overlaps(&golden.region) {
                return Err(TableError::SlotOverlapsGolden);
            }
            let mut t: usize = s + 1;
            while t < slots.len()
                invariant
                    s < slots@.len(),
                    s < t <= slots@.len(),
                    pair_error(slots@, s as int, s + 1) == pair_error(slots@, s as int, t as int),
                    layout_error(slots@, golden) == slots_error(slots@, golden, s as int),
                    !regions_overlap(slots@[s as int].region_spec(), golden.region_spec()),
                decreases slots@.len() - t,
            {
                if slots[s].id.0 == slots[t].id.0 {
                    return Err(TableError::DuplicateSlotId);
                }
                if slots[s].region.overlaps(&slots[t].region) {
                    return Err(TableError::OverlappingSlots);
                }
                t += 1;
            }
            s += 1;
        }
        proof {
            lemma_layout_error_none_iff_valid(slots@, golden);
        }
        Ok(Self::new(slots, golden))
    }

    /// The slots the eRoT writes, in declaration order.
    pub fn slots(&self) -> (r: &'static [Slot])
        ensures
            r@ == self.slots_spec(),
            layout_valid(r@, self.golden_spec()),
    {
        proof {
            use_type_invariant(self);
        }
        self.slots
    }

    pub fn golden(&self) -> (r: Golden)
        ensures
            r == self.golden_spec(),
    {
        self.golden
    }

    /// How many images recovery can try: every slot, then the golden image.
    pub fn image_count(&self) -> (r: usize)
        ensures
            r == self.image_count_spec(),
    {
        proof {
            use_type_invariant(self);
        }
        self.slots.len() + 1
    }
}

// ---------------------------------------------------------------------------
// Managed devices
// ---------------------------------------------------------------------------

/// No two checkpoints of the list share a name, compared byte for byte.
pub open spec fn checkpoint_names_unique<G>(cps: Seq<BootCheckpoint<G>>) -> bool {
    forall|c: int, d: int|
        0 <= c < d < cps.len() ==> (#[trigger] cps[c]).name_spec().spec_bytes() != (
        #[trigger] cps[d]).name_spec().spec_bytes()
}

/// The first rule a device with this name and checkpoint list breaks.
pub open spec fn device_error<G>(name: Seq<char>, cps: Seq<BootCheckpoint<G>>) -> Option<TableError> {
    if name.len() == 0 {
        Some(TableError::EmptyDeviceName)
    } else if cps.len() == 0 {
        Some(TableError::NoCheckpoints)
    } else if !checkpoint_names_unique(cps) {
        Some(TableError::DuplicateCheckpointName)
    } else {
        None
    }
}

/// Whether two strings hold the same bytes.
fn str_eq(a: &str, b: &str) -> (r: bool)
    ensures
        r == (a.spec_bytes() == b.spec_bytes()),
{
    let x = a.as_bytes();
    let y = b.as_bytes();
    if x.len() != y.len() {
        return false;
    }
    let mut i: usize = 0;
    while i < x.len()
        invariant
            x@ == a.spec_bytes(),
            y@ == b.spec_bytes(),
            x@.len() == y@.len(),
            i <= x@.len(),
            forall|k: int| 0 <= k < i ==> x@[k] == y@[k],
        decreases x@.len() - i,
    {
        if x[i] != y[i] {
            assert(x@[i as int] != y@[i as int]);
            return false;
        }
        i += 1;
    }
    assert(x@ =~= y@);
    true
}

/// One managed downstream device, as declared by the board table.
#[derive(Copy, Debug)]
pub struct DeviceConfig<R, G: 'static> {
    name: &'static str,
    reset_signal: R,
    checkpoints: &'static [BootCheckpoint<G>],
    layout: Option<ImageLayout>,
}

impl<R: Copy, G: Copy> Clone for DeviceConfig<R, G> {
    fn clone(&self) -> (r: Self)
        ensures
            r == *self,
    {
        *self
    }
}

impl<R, G> DeviceConfig<R, G> {
    pub closed spec fn name_spec(self) -> &'static str {
        self.name
    }

    pub closed spec fn reset_signal_spec(self) -> R {
        self.reset_signal
    }

    pub closed spec fn checkpoints_spec(self) -> Seq<BootCheckpoint<G>> {
        self.checkpoints@
    }

    pub closed spec fn layout_spec(self) -> Option<ImageLayout> {
        self.layout
    }

    #[verifier::type_invariant]
    spec fn well_formed(self) -> bool {
        device_error(self.name@, self.checkpoints@) is None
    }

    /// Declares a managed device: a name, at least one checkpoint, and no
    /// two checkpoints with the same name.
    pub fn new(
        name: &'static str,
        reset_signal: R,
        checkpoints: &'static [BootCheckpoint<G>],
        layout: Option<ImageLayout>,
    ) -> (r: Self)
        requires
            device_error(name@, checkpoints@) is None,
        ensures
            r.name_spec() == name,
            r.reset_signal_spec() == reset_signal,
            r.checkpoints_spec() == checkpoints@,
            r.layout_spec() == layout,
    {
        DeviceConfig { name, reset_signal, checkpoints, layout }
    }

    /// Declares a managed device, or names the first rule it breaks.
    pub fn try_new(
        name: &'static str,
        reset_signal: R,
        checkpoints: &'static [BootCheckpoint<G>],
        layout: Option<ImageLayout>,
    ) -> (r: Result<Self, TableError>)
        ensures
            match r {
                Ok(d) => device_error(name@, checkpoints@) is None && d.name_spec() == name
                    && d.reset_signal_spec() == reset_signal && d.checkpoints_spec() == checkpoints@
                    && d.layout_spec() == layout,
                Err(e) => device_error(name@, checkpoints@) == Some(e),
            },
    {
        if name.is_empty() {
            return Err(TableError::EmptyDeviceName);
        }
        if checkpoints.len() == 0 {
            return Err(TableError::NoCheckpoints);
        }
        let mut c: usize = 0;
        while c < checkpoints.len()
            invariant
                name@.len() > 0,
                checkpoints@.len() > 0,
                c <= checkpoints@.len(),
                forall|x: int, y: int|
                    0 <= x < c && x < y < checkpoints@.len() ==> (#[trigger] checkpoints@[x]).name_spec().spec_bytes()
                        != (#[trigger] checkpoints@[y]).name_spec().spec_bytes(),
            decreases checkpoints@.len() - c,
        {
            let mut d: usize = c + 1;
            while d < checkpoints.len()
                invariant
                    name@.len() > 0,
                    c < checkpoints@.len(),
                    c < d <= checkpoints@.len(),
                    forall|x: int, y: int|
                        0 <= x < c && x < y < checkpoints@.len() ==> (#[trigger] checkpoints@[x]).name_spec().spec_bytes()
                            != (#[trigger] checkpoints@[y]).name_spec().spec_bytes(),
                    forall|y: int|
                        c < y < d ==> checkpoints@[c as int].name_spec().spec_bytes() != (
                        #[trigger] checkpoints@[y]).name_spec().spec_bytes(),
                decreases checkpoints@.len() - d,
            {
                if str_eq(checkpoints[c].name, checkpoints[d].name) {
                    assert(!checkpoint_names_unique(checkpoints@)) by {
                        assert(checkpoints@[c as int].name_spec().spec_bytes()
                            == checkpoints@[d as int].name_spec().spec_bytes());
                    }
                    return Err(TableError::DuplicateCheckpointName);
                }
                d += 1;
            }
            c += 1;
        }
        Ok(Self::new(name, reset_signal, checkpoints, layout))
    }

    /// The device's name in reports and logs; never empty.
    pub fn name(&self) -> (r: &'static str)
        ensures
            r == self.name_spec(),
            r@.len() > 0,
    {
        proof {
            use_type_invariant(self);
        }
        self.name
    }

    /// Reset signal id, handed to the board's boot control.
    pub fn reset_signal(&self) -> (r: &R)
        ensures
            *r == self.reset_signal_spec(),
    {
        &self.reset_signal
    }

    /// Boot checkpoints in the order the device passes them: at least one,
    /// with no two names alike.
    pub fn checkpoints(&self) -> (r: &'static [BootCheckpoint<G>])
        ensures
            r@ == self.checkpoints_spec(),
            r@.len() > 0,
            checkpoint_names_unique(r@),
    {
        proof {
            use_type_invariant(self);
        }
        self.checkpoints
    }

    /// This device's images, when the eRoT owns its flash.
    pub fn layout(&self) -> (r: Option<ImageLayout>)
        ensures
            r == self.layout_spec(),
    {
        self.layout
    }
}

/// Every device with a layout gets more attempts than it has images: the
/// last restore is counted before the orchestrator decides whether to boot,
/// so a budget equal to the image count never boots the last image.
pub open spec fn retry_reaches_every_image<R, G>(max_retry: u8, devices: Seq<DeviceConfig<R, G>>) -> bool {
    forall|i: int|
        0 <= i < devices.len() ==> match (#[trigger] devices[i]).layout_spec() {
            Some(l) => max_retry > l.image_count_spec(),
            None => true,
        }
}

/// Accepts a retry budget that lets every device boot each of its images.
/// A budget that does not is refused by [`check_retry_reaches_every_image`].
pub fn assert_retry_reaches_every_image<R, G>(max_retry: u8, devices: &[DeviceConfig<R, G>])
    requires
        retry_reaches_every_image(max_retry, devices@),
{
}

/// Checks that `max_retry` lets every device boot each of its images;
/// devices without a layout are skipped.
pub fn check_retry_reaches_every_image<R, G>(max_retry: u8, devices: &[DeviceConfig<R, G>]) -> (r: Result<(), TableError>)
    ensures
        r is Ok <==> retry_reaches_every_image(max_retry, devices@),
        r is Err ==> r == Err::<(), TableError>(TableError::RetryTooSmall),
{
    let mut i: usize = 0;
    while i < devices.len()
        invariant
            i <= devices@.len(),
            retry_reaches_every_image(max_retry, devices@.take(i as int)),
        decreases devices@.len() - i,
    {
        match devices[i].layout() {
            Some(layout) => {
                if max_retry as usize <= layout.image_count() {
                    assert(!retry_reaches_every_image(max_retry, devices@)) by {
                        assert(devices@[i as int].layout_spec() == Some(layout));
                    }
                    return Err(TableError::RetryTooSmall);
                }
            },
            None => {},
        }
        assert(retry_reaches_every_image(max_retry, devices@.take(i + 1))) by {
            assert forall|k: int| 0 <= k < i + 1 implies match (#[trigger] devices@.take(i + 1)[k]).layout_spec() {
                Some(l) => max_retry > l.image_count_spec(),
                None => true,
            } by {
                if k < i {
                    assert(devices@.take(i + 1)[k] == devices@.take(i as int)[k]);
                }
            }
        }
        i += 1;
    }
    assert(devices@.take(devices@.len() as int) =~= devices@);
    Ok(())
}

} // verus!
