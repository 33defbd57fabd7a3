//! The mathematical model of the orchestrator state machine: the abstract
//! storage ([`RotView`]), and the transition relation as spec functions —
//! the per-state handlers, the supervising handler, the entry actions, and
//! one complete reduction step.

use vstd::prelude::*;
use crate::model::{
    event_component, ids_unique, valid_chain, ComponentAttrs, ComponentId, ComponentKind, Effect, Event,
    FailurePolicy, PowerOnResult, State,
};

verus! {

/// Per-component service lifecycle.
#[derive(Clone, Copy, PartialEq, Eq, Debug, Structural)]
pub enum ComponentLifecycle {
    /// In the normal flow: held, under verification, or released.
    Nominal,
    /// Durably gated out of service: held in reset and skipped by every walk.
    Isolated,
}

/// One per-component record, parallel by index to the chain.
#[derive(Clone, Copy, PartialEq, Eq, Debug, Structural)]
pub struct ComponentStatus {
    pub lifecycle: ComponentLifecycle,
    /// Consecutive failed-restore count.
    pub retry: u8,
    /// Released from reset and still owes its boot-progress signal.
    pub awaiting_boot: bool,
    /// Released from reset and not held since: the component is live.
    pub released: bool,
}

/// Result of dispatching one event to a state (or its superstate).
#[derive(Clone, Copy, PartialEq, Eq, Debug, Structural)]
pub enum Outcome {
    /// Event consumed; state unchanged; no entry action runs.
    Handled,
    /// Change to this state and run its entry action.
    Transition(State),
    /// Not handled here; defer to the superstate (or discard if none).
    Super,
}

/// The abstract storage of the machine.
#[verifier::ext_equal]
pub struct RotView {
    pub chain: Seq<(ComponentId, ComponentAttrs)>,
    pub cursor: nat,
    pub statuses: Seq<ComponentStatus>,
    pub max_retry: u8,
    pub pending_commit: bool,
}

pub open spec fn default_status() -> ComponentStatus {
    ComponentStatus {
        lifecycle: ComponentLifecycle::Nominal,
        retry: 0,
        awaiting_boot: false,
        released: false,
    }
}

/// The storage of a freshly built machine over `chain`.
pub open spec fn initial_rot(chain: Seq<(ComponentId, ComponentAttrs)>, max_retry: u8) -> RotView {
    RotView {
        chain,
        cursor: 0,
        statuses: Seq::new(chain.len(), |i: int| default_status()),
        max_retry,
        pending_commit: false,
    }
}

/// Well-formed storage for a machine of chain capacity `cap`.
pub open spec fn rot_wf(v: RotView, cap: nat) -> bool {
    &&& valid_chain(v.chain, cap)
    &&& v.statuses.len() == v.chain.len()
    &&& v.cursor <= v.chain.len()
}

/// The walk position of `id`: the first index whose entry carries it.
pub open spec fn index_of(chain: Seq<(ComponentId, ComponentAttrs)>, id: ComponentId) -> Option<int> {
    if exists|i: int| 0 <= i < chain.len() && #[trigger] chain[i].0 == id {
        Some(
            choose|i: int|
                0 <= i < chain.len() && chain[i].0 == id && forall|k: int|
                    0 <= k < i ==> #[trigger] chain[k].0 != id,
        )
    } else {
        None
    }
}

/// An entry carrying `id` at or before `j` implies a first such entry.
pub proof fn lemma_first_index_exists(chain: Seq<(ComponentId, ComponentAttrs)>, id: ComponentId, j: int)
    requires
        0 <= j < chain.len(),
        chain[j].0 == id,
    ensures
        exists|i: int|
            0 <= i < chain.len() && chain[i].0 == id && forall|k: int| 0 <= k < i ==> #[trigger] chain[k].0 != id,
    decreases j,
{
    if exists|k: int| 0 <= k < j && #[trigger] chain[k].0 == id {
        let k = choose|k: int| 0 <= k < j && #[trigger] chain[k].0 == id;
        lemma_first_index_exists(chain, id, k);
    } else {
        assert(forall|k: int| 0 <= k < j ==> #[trigger] chain[k].0 != id);
    }
}

/// What `index_of` gives: the first entry carrying `id`, or none at all.
pub proof fn lemma_index_of(chain: Seq<(ComponentId, ComponentAttrs)>, id: ComponentId)
    ensures
        match index_of(chain, id) {
            Some(i) => 0 <= i < chain.len() && chain[i].0 == id && forall|k: int|
                0 <= k < i ==> #[trigger] chain[k].0 != id,
            None => forall|k: int| 0 <= k < chain.len() ==> #[trigger] chain[k].0 != id,
        },
{
    if exists|i: int| 0 <= i < chain.len() && #[trigger] chain[i].0 == id {
        let j = choose|i: int| 0 <= i < chain.len() && #[trigger] chain[i].0 == id;
        lemma_first_index_exists(chain, id, j);
    }
}

/// With distinct ids, the walk position of the id at `k` is `k`.
pub proof fn lemma_index_of_unique(chain: Seq<(ComponentId, ComponentAttrs)>, k: int)
    requires
        ids_unique(chain),
        0 <= k < chain.len(),
    ensures
        index_of(chain, chain[k].0) == Some(k),
{
    lemma_index_of(chain, chain[k].0);
}

pub open spec fn in_chain(v: RotView, id: ComponentId) -> bool {
    index_of(v.chain, id) is Some
}

pub open spec fn is_isolated(s: ComponentStatus) -> bool {
    s.lifecycle == ComponentLifecycle::Isolated
}

pub open spec fn gated(v: RotView, id: ComponentId) -> bool {
    match index_of(v.chain, id) {
        Some(i) => is_isolated(v.statuses[i]),
        None => false,
    }
}

pub open spec fn awaiting(v: RotView, id: ComponentId) -> bool {
    match index_of(v.chain, id) {
        Some(i) => v.statuses[i].awaiting_boot,
        None => false,
    }
}

pub open spec fn attrs_of(v: RotView, id: ComponentId) -> Option<ComponentAttrs> {
    match index_of(v.chain, id) {
        Some(i) => Some(v.chain[i].1),
        None => None,
    }
}

pub open spec fn with_status(v: RotView, i: int, s: ComponentStatus) -> RotView {
    RotView { statuses: v.statuses.update(i, s), ..v }
}

/// Apply `f` to the record of `id`, if `id` is in the chain.
pub open spec fn update_status(v: RotView, id: ComponentId, f: spec_fn(ComponentStatus) -> ComponentStatus) -> RotView {
    match index_of(v.chain, id) {
        Some(i) => with_status(v, i, f(v.statuses[i])),
        None => v,
    }
}

pub open spec fn isolate(s: ComponentStatus) -> ComponentStatus {
    ComponentStatus { lifecycle: ComponentLifecycle::Isolated, awaiting_boot: false, released: false, ..s }
}

pub open spec fn release(s: ComponentStatus) -> ComponentStatus {
    ComponentStatus { awaiting_boot: true, released: true, ..s }
}

pub open spec fn reported_in(s: ComponentStatus) -> ComponentStatus {
    ComponentStatus { awaiting_boot: false, ..s }
}

pub open spec fn retry_cleared(s: ComponentStatus) -> ComponentStatus {
    ComponentStatus { retry: 0, ..s }
}

pub open spec fn retry_bumped(s: ComponentStatus) -> ComponentStatus {
    ComponentStatus { retry: if s.retry == 255 { 255 } else { (s.retry + 1) as u8 }, ..s }
}

pub open spec fn held(s: ComponentStatus) -> ComponentStatus {
    ComponentStatus { released: false, ..s }
}

pub open spec fn quiesced(s: ComponentStatus) -> ComponentStatus {
    if s.released {
        ComponentStatus { released: false, awaiting_boot: false, ..s }
    } else {
        s
    }
}

/// Gate one component: if it is not yet isolated, hold it and report it.
pub open spec fn gate_one(v: RotView, id: ComponentId) -> (RotView, Seq<Effect>) {
    if gated(v, id) {
        (v, seq![])
    } else {
        (update_status(v, id, |s: ComponentStatus| isolate(s)), seq![Effect::AssertReset(id), Effect::ReportIsolated(id)])
    }
}

/// The components among the first `n` entries of `chain` whose
/// `depends_on` names `holder`, in chain order.
pub open spec fn dependents_upto(chain: Seq<(ComponentId, ComponentAttrs)>, holder: ComponentId, n: nat) -> Seq<ComponentId>
    decreases n,
{
    if n == 0 {
        seq![]
    } else {
        dependents_upto(chain, holder, (n - 1) as nat) + if chain[n - 1].1.depends_on == Some(holder) {
            seq![chain[n - 1].0]
        } else {
            seq![]
        }
    }
}

/// The components whose `depends_on` names `holder`, in chain order.
pub open spec fn dependents(chain: Seq<(ComponentId, ComponentAttrs)>, holder: ComponentId) -> Seq<ComponentId> {
    dependents_upto(chain, holder, chain.len())
}

/// The next level of a cascade: the dependents of each member of `level`,
/// member by member.
pub open spec fn next_level(chain: Seq<(ComponentId, ComponentAttrs)>, level: Seq<ComponentId>) -> Seq<ComponentId>
    decreases level.len(),
{
    if level.len() == 0 {
        seq![]
    } else {
        next_level(chain, level.drop_last()) + dependents(chain, level.last())
    }
}

/// Gate each of `ids`, in order.
pub open spec fn gate_each(v: RotView, ids: Seq<ComponentId>) -> (RotView, Seq<Effect>)
    decreases ids.len(),
{
    if ids.len() == 0 {
        (v, seq![])
    } else {
        let (v1, e1) = gate_each(v, ids.drop_last());
        let (v2, e2) = gate_one(v1, ids.last());
        (v2, e1 + e2)
    }
}

/// The cascade level by level, breadth first: gate the dependents of the
/// current level, then go on from them, for at most `rounds` levels. A
/// dependency always names an earlier entry, so a chain of `n` entries has
/// no level past the `n`-th.
pub open spec fn cascade_levels(
    v: RotView,
    chain: Seq<(ComponentId, ComponentAttrs)>,
    level: Seq<ComponentId>,
    rounds: nat,
) -> (RotView, Seq<Effect>)
    decreases rounds,
{
    if rounds == 0 {
        (v, seq![])
    } else {
        let next = next_level(chain, level);
        let (v1, e1) = gate_each(v, next);
        let (v2, e2) = cascade_levels(v1, chain, next, (rounds - 1) as nat);
        (v2, e1 + e2)
    }
}

/// Hold `root` and cascade-hold every component whose `depends_on`
/// (transitively) names it, breadth first: `root`, then its dependents,
/// then theirs. Components already isolated are held already but still
/// passed through, so their own dependents are reached.
#[verifier::opaque]
pub open spec fn cascade(v: RotView, root: ComponentId) -> (RotView, Seq<Effect>) {
    let (v1, e1) = gate_one(v, root);
    let (v2, e2) = cascade_levels(v1, v.chain, seq![root], v.chain.len());
    (v2, e1 + e2)
}

/// Gate by the component's failure policy; the flag says whether the policy
/// gates at all (`Isolable`/`Cascading`) or not (`Required`, unknown id).
pub open spec fn gate_by_policy(v: RotView, id: ComponentId) -> (RotView, Seq<Effect>, bool) {
    match attrs_of(v, id) {
        Some(a) => match a.failure_policy {
            FailurePolicy::Cascading => {
                let (v1, e1) = cascade(v, id);
                (v1, e1, true)
            },
            FailurePolicy::Isolable => {
                let (v1, e1) = gate_one(v, id);
                (v1, e1, true)
            },
            FailurePolicy::Required => (v, seq![], false),
        },
        None => (v, seq![], false),
    }
}

pub open spec fn handle_corruption(v: RotView, id: ComponentId) -> (RotView, Seq<Effect>, Outcome) {
    let (v1, e1, g) = gate_by_policy(v, id);
    if g {
        (v1, e1, Outcome::Handled)
    } else {
        (v1, e1, Outcome::Transition(State::Recovering(id)))
    }
}

/// Whether some index in `[start, len)` is not isolated.
pub open spec fn has_ungated_from(v: RotView, start: int) -> bool {
    exists|k: int| start <= k < v.chain.len() && !is_isolated(#[trigger] v.statuses[k])
}

/// The first index in `[start, len)` that is not isolated.
pub open spec fn first_ungated_from(v: RotView, start: int) -> int {
    choose|k: int|
        start <= k < v.chain.len() && !is_isolated(v.statuses[k]) && forall|j: int|
            start <= j < k ==> is_isolated(#[trigger] v.statuses[j])
}

/// Move the cursor to the first component at or after `start` that is not
/// isolated and request its read and verification; past the end if none.
pub open spec fn advance(v: RotView, start: int) -> (RotView, Seq<Effect>, bool) {
    if has_ungated_from(v, start) {
        let k = first_ungated_from(v, start);
        let id = v.chain[k].0;
        (RotView { cursor: k as nat, ..v }, seq![Effect::ReadFirmware(id), Effect::VerifyFirmware(id)], true)
    } else {
        (RotView { cursor: v.chain.len(), ..v }, seq![], false)
    }
}

/// The resets asserted on the live components among the first `n`.
pub open spec fn quiesce_effects(chain: Seq<(ComponentId, ComponentAttrs)>, statuses: Seq<ComponentStatus>, n: nat) -> Seq<Effect>
    decreases n,
{
    if n == 0 {
        seq![]
    } else {
        quiesce_effects(chain, statuses, (n - 1) as nat) + if statuses[n - 1].released {
            seq![Effect::AssertReset(chain[n - 1].0)]
        } else {
            seq![]
        }
    }
}

/// Hold every live component before a re-walk.
pub open spec fn quiesce(v: RotView) -> (RotView, Seq<Effect>) {
    (
        RotView { statuses: v.statuses.map_values(|s: ComponentStatus| quiesced(s)), ..v },
        quiesce_effects(v.chain, v.statuses, v.chain.len()),
    )
}

/// The component under verification, if the cursor is on one.
pub open spec fn at_cursor(v: RotView) -> Option<ComponentId> {
    if v.cursor < v.chain.len() {
        Some(v.chain[v.cursor as int].0)
    } else {
        None
    }
}

/// Release the component under verification and advance the walk.
/// Returns the updated storage, the effects, the kind of the released
/// component, and whether a further component is now under verification.
pub open spec fn release_and_advance(v: RotView, id: ComponentId) -> (RotView, Seq<Effect>, ComponentKind, bool) {
    let kind = v.chain[v.cursor as int].1.kind;
    let v1 = update_status(v, id, |s: ComponentStatus| retry_cleared(s));
    let v2 = update_status(v1, id, |s: ComponentStatus| release(s));
    let (v3, e3, found) = advance(v2, v.cursor + 1int);
    (v3, seq![Effect::ReleaseReset(id)] + e3, kind, found)
}

/// A passed verification of the component under verification that was
/// isolated since its verification was requested: it stays held, and the
/// walk moves past it, to `Ready` if nothing is left.
pub open spec fn skip_gated(v: RotView) -> (RotView, Seq<Effect>, Outcome) {
    let (v1, e1, found) = advance(v, v.cursor + 1int);
    if found {
        (v1, e1, Outcome::Handled)
    } else {
        (v1, e1, Outcome::Transition(State::Ready))
    }
}

/// The handler of the leaf state `state`.
pub open spec fn handle(v: RotView, state: State, ev: Event) -> (RotView, Seq<Effect>, Outcome) {
    let none = seq![];
    match state {
        State::PowerOnReset => match ev {
            Event::PowerGood(PowerOnResult::Provisioned) => (v, none, Outcome::Transition(State::PreSupervision)),
            Event::PowerGood(_) => (v, none, Outcome::Transition(State::Locked)),
            Event::EffectFailed => (v, none, Outcome::Transition(State::Locked)),
            _ => (v, none, Outcome::Super),
        },
        State::PreSupervision => match ev {
            Event::VerificationPassed(id) => {
                if at_cursor(v) != Some(id) {
                    (v, none, Outcome::Handled)
                } else if gated(v, id) {
                    skip_gated(v)
                } else {
                    let (v1, e1, kind, found) = release_and_advance(v, id);
                    if found {
                        if kind == ComponentKind::Active {
                            (v1, e1, Outcome::Transition(State::AwaitingReady(Some(id))))
                        } else {
                            (v1, e1, Outcome::Handled)
                        }
                    } else {
                        (v1, e1, Outcome::Transition(State::Ready))
                    }
                }
            },
            Event::VerificationFailed(id) => (v, none, Outcome::Transition(State::Recovering(id))),
            Event::CorruptionDetected(id) => handle_corruption(v, id),
            Event::Booted(id) => (update_status(v, id, |s: ComponentStatus| reported_in(s)), none, Outcome::Handled),
            Event::Timeout(id) => if awaiting(v, id) {
                (v, none, Outcome::Transition(State::Recovering(id)))
            } else {
                (v, none, Outcome::Handled)
            },
            Event::EffectFailed => (v, none, Outcome::Transition(State::Locked)),
            _ => (v, none, Outcome::Super),
        },
        State::AwaitingReady(aw) => match ev {
            Event::ComponentReady(id) => {
                let v1 = update_status(v, id, |s: ComponentStatus| reported_in(s));
                if aw != Some(id) {
                    (v1, none, Outcome::Handled)
                } else if v.cursor >= v.chain.len() {
                    (v1, none, Outcome::Transition(State::Ready))
                } else {
                    (v1, none, Outcome::Transition(State::AwaitingReady(None)))
                }
            },
            Event::VerificationPassed(id) => {
                if at_cursor(v) != Some(id) {
                    (v, none, Outcome::Handled)
                } else if gated(v, id) {
                    skip_gated(v)
                } else {
                    let (v1, e1, kind, found) = release_and_advance(v, id);
                    if found {
                        (v1, e1, Outcome::Handled)
                    } else {
                        (v1, e1, Outcome::Transition(State::Ready))
                    }
                }
            },
            Event::VerificationFailed(id) => (v, none, Outcome::Transition(State::Recovering(id))),
            _ => (v, none, Outcome::Super),
        },
        State::Ready => match ev {
            Event::UpdateRequest => (v, none, Outcome::Transition(State::Updating)),
            Event::BootConfirmed(id) => (
                RotView { pending_commit: false, ..v },
                seq![Effect::CommitSvnFloor(id)],
                Outcome::Handled,
            ),
            Event::CommitTimeout => if v.pending_commit {
                (v, none, Outcome::Transition(State::Locked))
            } else {
                (v, none, Outcome::Handled)
            },
            _ => (v, none, Outcome::Super),
        },
        State::Updating => match ev {
            Event::UpdateVerified => (
                RotView { pending_commit: true, ..v },
                seq![Effect::ActivateUpdate],
                Outcome::Transition(State::Ready),
            ),
            Event::UpdateRejected => (v, seq![Effect::DiscardStaged], Outcome::Transition(State::Ready)),
            Event::CorruptionDetected(id) => {
                let (v1, e1, o) = handle_corruption(v, id);
                if o is Transition {
                    (v1, e1 + seq![Effect::DiscardStaged, Effect::ReportUpdateAborted], o)
                } else {
                    (v1, e1, o)
                }
            },
            _ => (v, none, Outcome::Super),
        },
        State::Recovering(failed) => match ev {
            Event::Restored(id) => {
                if id != failed {
                    (v, none, Outcome::Handled)
                } else {
                    let v1 = update_status(v, failed, |s: ComponentStatus| retry_bumped(s));
                    let attempts = match index_of(v.chain, failed) {
                        Some(i) => v1.statuses[i].retry,
                        None => 0,
                    };
                    if attempts < v.max_retry {
                        (v1, none, Outcome::Transition(State::PreSupervision))
                    } else {
                        let (v2, e2, g) = gate_by_policy(v1, failed);
                        if g {
                            (update_status(v2, failed, |s: ComponentStatus| retry_cleared(s)), e2, Outcome::Transition(State::PreSupervision))
                        } else {
                            (v2, e2 + seq![Effect::ReportRecoveryFailed(failed), Effect::Emit(Event::RecoveryFailed)], Outcome::Handled)
                        }
                    }
                }
            },
            Event::RecoveryFailed => (v, none, Outcome::Transition(State::Locked)),
            _ => (v, none, Outcome::Super),
        },
        State::Locked => (v, none, Outcome::Super),
    }
}

/// The supervising handler shared by the four supervised states.
pub open spec fn handle_supervising(v: RotView, ev: Event) -> (RotView, Seq<Effect>, Outcome) {
    let none = seq![];
    match ev {
        Event::AttestationChallenge => (v, seq![Effect::SignAttestation], Outcome::Handled),
        Event::CorruptionDetected(id) => handle_corruption(v, id),
        Event::ComponentReady(id) => (update_status(v, id, |s: ComponentStatus| reported_in(s)), none, Outcome::Handled),
        Event::Booted(id) => (update_status(v, id, |s: ComponentStatus| reported_in(s)), none, Outcome::Handled),
        Event::Timeout(id) => if awaiting(v, id) {
            (v, none, Outcome::Transition(State::Recovering(id)))
        } else {
            (v, none, Outcome::Handled)
        },
        Event::UpdateRequest => (v, seq![Effect::ReportUpdateDeferred], Outcome::Handled),
        Event::EffectFailed => (v, none, Outcome::Transition(State::Locked)),
        _ => (v, none, Outcome::Super),
    }
}

/// The entry action of `state`.
pub open spec fn entry(v: RotView, state: State) -> (RotView, Seq<Effect>) {
    match state {
        State::PreSupervision => {
            let (v1, e1) = quiesce(v);
            let (v2, e2, _) = advance(v1, 0);
            (v2, e1 + e2)
        },
        State::Updating => (
            RotView { pending_commit: false, ..v },
            seq![Effect::AuthenticateUpdate, Effect::StageUpdate],
        ),
        State::Recovering(failed) => {
            let v1 = update_status(RotView { pending_commit: false, ..v }, failed, |s: ComponentStatus| reported_in(s));
            let attempt = match index_of(v.chain, failed) {
                Some(i) => v1.statuses[i].retry,
                None => 0,
            };
            let v2 = update_status(v1, failed, |s: ComponentStatus| held(s));
            (v2, seq![Effect::RecoverComponent { id: failed, attempt }])
        },
        State::Locked => (v, seq![Effect::LatchLockdown]),
        State::Ready => (
            RotView { statuses: v.statuses.map_values(|s: ComponentStatus| retry_cleared(s)), ..v },
            seq![],
        ),
        _ => (v, seq![]),
    }
}

/// The four states nested under the supervising handler.
pub open spec fn is_supervised(s: State) -> bool {
    s is AwaitingReady || s is Ready || s is Updating || s is Recovering
}

/// Reduce one event: drop events naming an id outside the chain, dispatch to
/// the leaf state, fall through to the supervisor, and apply a transition
/// (running the target's entry action). Yields the new storage, the new
/// state, and the effects in emission order.
#[verifier::opaque]
pub open spec fn step(v: RotView, s: State, ev: Event) -> (RotView, State, Seq<Effect>) {
    if event_component(ev) is Some && !in_chain(v, event_component(ev).unwrap()) {
        (v, s, seq![])
    } else {
        let (v1, e1, o1) = handle(v, s, ev);
        let (v2, e2, o2) = if o1 is Super && is_supervised(s) {
            handle_supervising(v1, ev)
        } else {
            (v1, seq![], o1)
        };
        match o2 {
            Outcome::Transition(t) => {
                let (v3, e3) = entry(v2, t);
                (v3, t, e1 + e2 + e3)
            },
            _ => (v2, s, e1 + e2),
        }
    }
}

/// The storage and state after reducing `evs` in order.
pub open spec fn run_steps(v: RotView, s: State, evs: Seq<Event>) -> (RotView, State)
    decreases evs.len(),
{
    if evs.len() == 0 {
        (v, s)
    } else {
        let (v1, s1) = run_steps(v, s, evs.drop_last());
        let (v2, s2, _) = step(v1, s1, evs.last());
        (v2, s2)
    }
}

} // verus!
