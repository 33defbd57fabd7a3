//! Domain vocabulary for the orchestrator state machine: the component
//! model, events, effects, states, and the validated chain of trust. These
//! types carry no behavior; the state machine itself lives in `machine`.

use vstd::prelude::*;

verus! {

/// An opaque identifier for one platform component. The core never inspects
/// it; the board layer decides which real hardware each id refers to.
#[derive(Clone, Copy, PartialEq, Eq, Debug, Structural)]
pub struct ComponentId(pub u8);

impl ComponentId {
    pub fn new(id: u8) -> (r: Self)
        ensures
            r.0 == id,
    {
        ComponentId(id)
    }

    pub fn get(self) -> (r: u8)
        ensures
            r == self.0,
    {
        self.0
    }
}

impl From<u8> for ComponentId {
    fn from(value: u8) -> (r: Self) {
        ComponentId(value)
    }
}

impl vstd::std_specs::convert::FromSpecImpl<u8> for ComponentId {
    open spec fn obeys_from_spec() -> bool {
        true
    }

    open spec fn from_spec(v: u8) -> ComponentId {
        ComponentId(v)
    }
}

/// How a component in the trust chain is classified: `Active` has an
/// integrated iRoT (the walk waits for `ComponentReady`), `Passive` has none
/// (the walk advances speculatively after release).
#[derive(Clone, Copy, PartialEq, Eq, Debug, Structural)]
pub enum ComponentKind {
    Active,
    Passive,
}

/// What the machine does once a component's restore attempts are exhausted.
#[derive(Clone, Copy, PartialEq, Eq, Debug, Structural)]
pub enum FailurePolicy {
    /// Stop the boot sequence entirely (latch `Locked`).
    Required,
    /// Hold this component in reset and continue booting the rest.
    Isolable,
    /// Hold this component and every transitive dependent, then continue.
    Cascading,
}

/// Opaque recovery-region key supplied by the board at chain-build time.
#[derive(Clone, Copy, PartialEq, Eq, Debug, Structural)]
pub struct RegionId(pub u8);

impl RegionId {
    pub fn new(id: u8) -> (r: Self)
        ensures
            r.0 == id,
    {
        RegionId(id)
    }

    pub fn get(self) -> (r: u8)
        ensures
            r == self.0,
    {
        self.0
    }
}

/// Per-component attributes supplied by the board at chain-build time.
#[derive(Clone, Copy, PartialEq, Eq, Debug, Structural)]
pub struct ComponentAttrs {
    pub kind: ComponentKind,
    pub failure_policy: FailurePolicy,
    pub recovery_region: RegionId,
    pub depends_on: Option<ComponentId>,
}

/// The attributes every preset constructor produces: region `0`, no
/// dependency, and the given kind and policy.
pub open spec fn preset_attrs(kind: ComponentKind, policy: FailurePolicy) -> ComponentAttrs {
    ComponentAttrs {
        kind,
        failure_policy: policy,
        recovery_region: RegionId(0),
        depends_on: None,
    }
}

impl ComponentAttrs {
    pub fn active_required() -> (r: Self)
        ensures
            r == preset_attrs(ComponentKind::Active, FailurePolicy::Required),
    {
        ComponentAttrs {
            kind: ComponentKind::Active,
            failure_policy: FailurePolicy::Required,
            recovery_region: RegionId(0),
            depends_on: None,
        }
    }

    pub fn passive_required() -> (r: Self)
        ensures
            r == preset_attrs(ComponentKind::Passive, FailurePolicy::Required),
    {
        ComponentAttrs {
            kind: ComponentKind::Passive,
            failure_policy: FailurePolicy::Required,
            recovery_region: RegionId(0),
            depends_on: None,
        }
    }

    pub fn active_isolable() -> (r: Self)
        ensures
            r == preset_attrs(ComponentKind::Active, FailurePolicy::Isolable),
    {
        ComponentAttrs {
            kind: ComponentKind::Active,
            failure_policy: FailurePolicy::Isolable,
            recovery_region: RegionId(0),
            depends_on: None,
        }
    }

    pub fn passive_isolable() -> (r: Self)
        ensures
            r == preset_attrs(ComponentKind::Passive, FailurePolicy::Isolable),
    {
        ComponentAttrs {
            kind: ComponentKind::Passive,
            failure_policy: FailurePolicy::Isolable,
            recovery_region: RegionId(0),
            depends_on: None,
        }
    }

    pub fn active_cascading() -> (r: Self)
        ensures
            r == preset_attrs(ComponentKind::Active, FailurePolicy::Cascading),
    {
        ComponentAttrs {
            kind: ComponentKind::Active,
            failure_policy: FailurePolicy::Cascading,
            recovery_region: RegionId(0),
            depends_on: None,
        }
    }

    pub fn passive_cascading() -> (r: Self)
        ensures
            r == preset_attrs(ComponentKind::Passive, FailurePolicy::Cascading),
    {
        ComponentAttrs {
            kind: ComponentKind::Passive,
            failure_policy: FailurePolicy::Cascading,
            recovery_region: RegionId(0),
            depends_on: None,
        }
    }

    /// Builder: assign a non-default recovery region.
    pub fn with_region(self, region: RegionId) -> (r: Self)
        ensures
            r == (ComponentAttrs { recovery_region: region, ..self }),
    {
        ComponentAttrs { recovery_region: region, ..self }
    }

    /// Builder: mark this component as cascade-held whenever `dependency` is
    /// held.
    pub fn with_depends_on(self, dependency: ComponentId) -> (r: Self)
        ensures
            r == (ComponentAttrs { depends_on: Some(dependency), ..self }),
    {
        ComponentAttrs { depends_on: Some(dependency), ..self }
    }
}

/// The result of the board's power-on checks, delivered inside
/// `Event::PowerGood`.
#[derive(Clone, Copy, PartialEq, Eq, Debug, Structural)]
pub enum PowerOnResult {
    Provisioned,
    Unprovisioned,
    SelfVerificationFailed,
}

/// Everything the outside world can tell the state machine.
#[derive(Clone, Copy, PartialEq, Eq, Debug, Structural)]
pub enum Event {
    PowerGood(PowerOnResult),
    VerificationPassed(ComponentId),
    VerificationFailed(ComponentId),
    ComponentReady(ComponentId),
    Booted(ComponentId),
    AttestationChallenge,
    UpdateRequest,
    UpdateVerified,
    UpdateRejected,
    BootConfirmed(ComponentId),
    CorruptionDetected(ComponentId),
    Restored(ComponentId),
    RecoveryFailed,
    Timeout(ComponentId),
    CommitTimeout,
    EffectFailed,
}

/// The component an event is about, or `None` for events that name none.
pub open spec fn event_component(e: Event) -> Option<ComponentId> {
    match e {
        Event::VerificationPassed(id) => Some(id),
        Event::VerificationFailed(id) => Some(id),
        Event::ComponentReady(id) => Some(id),
        Event::Booted(id) => Some(id),
        Event::BootConfirmed(id) => Some(id),
        Event::CorruptionDetected(id) => Some(id),
        Event::Restored(id) => Some(id),
        Event::Timeout(id) => Some(id),
        _ => None,
    }
}

impl Event {
    /// The component this event is about, or `None` for events that name no
    /// component (`PowerGood`, `UpdateRequest`, `CommitTimeout`, ...).
    pub fn component_id(&self) -> (r: Option<ComponentId>)
        ensures
            r == event_component(*self),
    {
        match self {
            Event::VerificationPassed(id) => Some(*id),
            Event::VerificationFailed(id) => Some(*id),
            Event::ComponentReady(id) => Some(*id),
            Event::Booted(id) => Some(*id),
            Event::BootConfirmed(id) => Some(*id),
            Event::CorruptionDetected(id) => Some(*id),
            Event::Restored(id) => Some(*id),
            Event::Timeout(id) => Some(*id),
            Event::PowerGood(_) => None,
            Event::AttestationChallenge => None,
            Event::UpdateRequest => None,
            Event::UpdateVerified => None,
            Event::UpdateRejected => None,
            Event::RecoveryFailed => None,
            Event::CommitTimeout => None,
            Event::EffectFailed => None,
        }
    }
}

/// Everything the state machine can ask the outside world to do.
/// `Emit` is the sole internal effect: the orchestrator queues the carried
/// event for immediate handling.
#[derive(Clone, Copy, PartialEq, Eq, Debug, Structural)]
pub enum Effect {
    ReadFirmware(ComponentId),
    VerifyFirmware(ComponentId),
    ReleaseReset(ComponentId),
    AssertReset(ComponentId),
    SignAttestation,
    AuthenticateUpdate,
    StageUpdate,
    ActivateUpdate,
    DiscardStaged,
    CommitSvnFloor(ComponentId),
    RecoverComponent { id: ComponentId, attempt: u8 },
    ReportIsolated(ComponentId),
    ReportRecoveryFailed(ComponentId),
    ReportUpdateDeferred,
    ReportUpdateAborted,
    LatchLockdown,
    Emit(Event),
}

/// The states the machine can be in.
#[derive(Clone, Copy, PartialEq, Eq, Debug, Structural)]
pub enum State {
    PowerOnReset,
    PreSupervision,
    /// An `Active` component's readiness is outstanding (`Some`), or has been
    /// satisfied while the walk is still draining (`None`).
    AwaitingReady(Option<ComponentId>),
    Ready,
    Updating,
    Recovering(ComponentId),
    Locked,
}

/// Why a list of components is not a valid [`Chain`].
#[derive(Clone, Copy, PartialEq, Eq, Debug, Structural)]
pub enum ChainError {
    /// The chain has no components.
    Empty,
    /// The chain is longer than `u8::MAX` (so the cursor could not index
    /// it), or longer than the chain capacity `N`.
    TooLong,
    /// The same id appears more than once.
    DuplicateId(ComponentId),
    /// A `depends_on` names an id that is not in the chain.
    UnknownDependency { component: ComponentId, depends_on: ComponentId },
    /// A `depends_on` names a component that does not appear strictly
    /// earlier in the chain (a forward or a self reference).
    ForwardDependency { component: ComponentId, depends_on: ComponentId },
}

/// `s[i]` repeats the id of an earlier entry.
pub open spec fn dup_at(s: Seq<(ComponentId, ComponentAttrs)>, i: int) -> bool {
    0 <= i < s.len() && exists|j: int| 0 <= j < i && #[trigger] s[j].0 == s[i].0
}

/// Some entry of `s` carries the id `id`.
pub open spec fn id_in(s: Seq<(ComponentId, ComponentAttrs)>, id: ComponentId) -> bool {
    exists|j: int| 0 <= j < s.len() && #[trigger] s[j].0 == id
}

/// Some entry strictly before `i` carries the id `id`.
pub open spec fn id_before(s: Seq<(ComponentId, ComponentAttrs)>, id: ComponentId, i: int) -> bool {
    exists|j: int| 0 <= j < i && #[trigger] s[j].0 == id
}

/// `s[i]` depends on a component that is not walked strictly before it.
pub open spec fn bad_dep_at(s: Seq<(ComponentId, ComponentAttrs)>, i: int) -> bool {
    0 <= i < s.len() && match s[i].1.depends_on {
        Some(d) => !id_before(s, d, i),
        None => false,
    }
}

/// The ids of `s` are pairwise distinct.
pub open spec fn ids_unique(s: Seq<(ComponentId, ComponentAttrs)>) -> bool {
    forall|i: int, j: int| 0 <= i < s.len() && 0 <= j < s.len() && i != j ==> s[i].0 != s[j].0
}

/// Every dependency names a component walked strictly earlier.
pub open spec fn deps_backward(s: Seq<(ComponentId, ComponentAttrs)>) -> bool {
    forall|i: int| 0 <= i < s.len() ==> !#[trigger] bad_dep_at(s, i)
}

/// The structural invariants of a chain of trust with capacity `cap`.
pub open spec fn valid_chain(s: Seq<(ComponentId, ComponentAttrs)>, cap: nat) -> bool {
    &&& 0 < s.len()
    &&& s.len() <= 255
    &&& s.len() <= cap
    &&& ids_unique(s)
    &&& deps_backward(s)
}

/// What validating `s` gives, with the checks in their order: emptiness,
/// length, the first duplicate id, then the first bad dependency.
pub open spec fn chain_check(s: Seq<(ComponentId, ComponentAttrs)>, cap: nat) -> Result<(), ChainError> {
    if s.len() == 0 {
        Err(ChainError::Empty)
    } else if s.len() > 255 || s.len() > cap {
        Err(ChainError::TooLong)
    } else if exists|i: int| dup_at(s, i) {
        let i = choose|i: int| dup_at(s, i) && forall|k: int| 0 <= k < i ==> !dup_at(s, k);
        Err(ChainError::DuplicateId(s[i].0))
    } else if exists|i: int| bad_dep_at(s, i) {
        let i = choose|i: int| bad_dep_at(s, i) && forall|k: int| 0 <= k < i ==> !bad_dep_at(s, k);
        let d = s[i].1.depends_on.unwrap();
        if id_in(s, d) {
            Err(ChainError::ForwardDependency { component: s[i].0, depends_on: d })
        } else {
            Err(ChainError::UnknownDependency { component: s[i].0, depends_on: d })
        }
    } else {
        Ok(())
    }
}

/// A validated chain of trust: the ordered list of components the eRoT
/// walks, verifies, and supervises, in walk order. `N` is its capacity.
#[derive(Debug)]
pub struct Chain<const N: usize> {
    entries: Vec<(ComponentId, ComponentAttrs)>,
}

impl<const N: usize> Chain<N> {
    /// The components, in walk order.
    pub closed spec fn entries(&self) -> Seq<(ComponentId, ComponentAttrs)> {
        self.entries@
    }

    #[verifier::type_invariant]
    closed spec fn inv(self) -> bool {
        valid_chain(self.entries@, N as nat)
    }

    /// Consume the validated chain, yielding its components in walk order.
    pub fn into_entries(self) -> (r: Vec<(ComponentId, ComponentAttrs)>)
        ensures
            r@ == self.entries(),
            valid_chain(r@, N as nat),
    {
        proof {
            use_type_invariant(&self);
        }
        self.entries
    }
}

impl<const N: usize> Clone for Chain<N> {
    fn clone(&self) -> (r: Self)
        ensures
            r.entries() == self.entries(),
    {
        proof {
            use_type_invariant(self);
        }
        let mut entries: Vec<(ComponentId, ComponentAttrs)> = Vec::new();
        let mut i: usize = 0;
        while i < self.entries.len()
            invariant
                i <= self.entries.len(),
                entries@ == self.entries@.take(i as int),
            decreases self.entries.len() - i,
        {
            entries.push(self.entries[i]);
            i += 1;
            assert(entries@ == self.entries@.take(i as int));
        }
        assert(entries@ == self.entries@);
        Chain { entries }
    }
}

/// Whether `s[..i]` carries `id`, by scanning.
fn contains_before(s: &Vec<(ComponentId, ComponentAttrs)>, id: ComponentId, i: usize) -> (r: bool)
    requires
        i <= s.len(),
    ensures
        r == id_before(s@, id, i as int),
{
    let mut j: usize = 0;
    while j < i
        invariant
            j <= i <= s.len(),
            forall|k: int| 0 <= k < j ==> s@[k].0 != id,
        decreases i - j,
    {
        if s[j].0 == id {
            return true;
        }
        j += 1;
    }
    false
}

/// Validate `entries` as a chain of capacity `cap`.
fn check_chain(entries: &Vec<(ComponentId, ComponentAttrs)>, cap: usize) -> (r: Result<(), ChainError>)
    ensures
        r == chain_check(entries@, cap as nat),
        r is Ok ==> valid_chain(entries@, cap as nat),
{
    let s = Ghost(entries@);
    let len = entries.len();
    if len == 0 {
        return Err(ChainError::Empty);
    }
    if len > 255 || len > cap {
        return Err(ChainError::TooLong);
    }
    let mut i: usize = 0;
    while i < len
        invariant
            len == entries.len(),
            0 < len <= 255,
            len <= cap,
            s@ == entries@,
            i <= len,
            forall|k: int| 0 <= k < i ==> !dup_at(s@, k),
        decreases len - i,
    {
        let id = entries[i].0;
        if contains_before(entries, id, i) {
            proof {
                assert(dup_at(s@, i as int) && forall|k: int| 0 <= k < i ==> !dup_at(s@, k));
                let c = choose|c: int| dup_at(s@, c) && forall|k: int| 0 <= k < c ==> !dup_at(s@, k);
                assert(c == i) by {
                    if c < i {
                        assert(!dup_at(s@, c));
                    } else if c > i {
                        assert(!dup_at(s@, i as int));
                    }
                }
            }
            return Err(ChainError::DuplicateId(id));
        }
        i += 1;
    }
    assert(!exists|i: int| dup_at(s@, i));
    let mut i: usize = 0;
    while i < len
        invariant
            len == entries.len(),
            0 < len <= 255,
            len <= cap,
            s@ == entries@,
            i <= len,
            !exists|i: int| dup_at(s@, i),
            forall|k: int| 0 <= k < i ==> !bad_dep_at(s@, k),
        decreases len - i,
    {
        let (id, attrs) = entries[i];
        match attrs.depends_on {
            Some(dep) => {
                if !contains_before(entries, dep, i) {
                    proof {
                        assert(bad_dep_at(s@, i as int) && forall|k: int|
                            0 <= k < i ==> !bad_dep_at(s@, k));
                        let c = choose|c: int|
                            bad_dep_at(s@, c) && forall|k: int| 0 <= k < c ==> !bad_dep_at(s@, k);
                        assert(c == i) by {
                            if c < i {
                                assert(!bad_dep_at(s@, c));
                            } else if c > i {
                                assert(!bad_dep_at(s@, i as int));
                            }
                        }
                    }
                    if contains_before(entries, dep, len) {
                        return Err(ChainError::ForwardDependency { component: id, depends_on: dep });
                    } else {
                        return Err(ChainError::UnknownDependency { component: id, depends_on: dep });
                    }
                }
            },
            None => {},
        }
        i += 1;
    }
    proof {
        assert forall|a: int, b: int|
            0 <= a < s@.len() && 0 <= b < s@.len() && a != b implies s@[a].0 != s@[b].0 by {
            if a < b {
                if s@[a].0 == s@[b].0 {
                    assert(dup_at(s@, b));
                }
            } else {
                if s@[a].0 == s@[b].0 {
                    assert(dup_at(s@, a));
                }
            }
        }
    }
    Ok(())
}

impl<const N: usize> TryFrom<Vec<(ComponentId, ComponentAttrs)>> for Chain<N> {
    type Error = ChainError;

    fn try_from(entries: Vec<(ComponentId, ComponentAttrs)>) -> (r: Result<Self, ChainError>)
        ensures
            match chain_check(entries@, N as nat) {
                Ok(()) => r is Ok && r->Ok_0.entries() == entries@,
                Err(e) => r == Err::<Self, ChainError>(e),
            },
    {
        match check_chain(&entries, N) {
            Ok(()) => Ok(Chain { entries }),
            Err(e) => Err(e),
        }
    }
}

impl<const N: usize> vstd::std_specs::convert::TryFromSpecImpl<Vec<(ComponentId, ComponentAttrs)>> for Chain<N> {
    open spec fn obeys_try_from_spec() -> bool {
        true
    }

    closed spec fn try_from_spec(v: Vec<(ComponentId, ComponentAttrs)>) -> Result<Self, ChainError> {
        match chain_check(v@, N as nat) {
            Ok(()) => Ok(Chain { entries: v }),
            Err(e) => Err(e),
        }
    }
}

} // verus!
