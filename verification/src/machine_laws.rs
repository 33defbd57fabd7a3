//! Laws of the orchestrator state machine: what every reduction step keeps,
//! and what every dispatch run ends in, stated over the models of
//! `machine_spec` and `run_spec` that `Orchestrator::dispatch` is proved to
//! follow.

use vstd::prelude::*;
use crate::machine_spec::{
    advance, at_cursor, attrs_of, cascade, cascade_levels, dependents, dependents_upto, entry, gate_by_policy, gate_one,
    gate_each, handle, handle_corruption, handle_supervising, has_ungated_from, held, in_chain, index_of, next_level, is_isolated, is_supervised, isolate,
    initial_rot, lemma_index_of, quiesce, quiesce_effects, quiesced, release, release_and_advance,
    reported_in, retry_bumped, retry_cleared, rot_wf, run_steps, step, update_status,
    ComponentStatus, Outcome, RotView,
};
use crate::model::{
    bad_dep_at, deps_backward, event_component, ids_unique, ComponentAttrs, ComponentId, ComponentKind, Effect, Event,
    FailurePolicy, State,
};
use crate::machine::EffectError;
use crate::run_spec::{
    complete_run, dispatch_calls, dispatch_may_end, enqueue, handed_in_round, latched, round_follows, run_from, run_over, run_round,
    run_start, settle_effects, RunView,
};

verus! {

/// `Locked` is terminal: every event leaves the storage and the state as
/// they are and asks for no effect.
pub proof fn lemma_locked_is_terminal(v: RotView, ev: Event)
    ensures
        step(v, State::Locked, ev) == (v, State::Locked, Seq::<Effect>::empty()),
{
    reveal(step);
    assert(seq![] + seq![] =~= Seq::<Effect>::empty());
}

/// Once `Locked`, any sequence of events leaves the machine as it is.
pub proof fn lemma_locked_absorbs(v: RotView, evs: Seq<Event>)
    ensures
        run_steps(v, State::Locked, evs) == (v, State::Locked),
    decreases evs.len(),
{
    if evs.len() > 0 {
        lemma_locked_absorbs(v, evs.drop_last());
        lemma_locked_is_terminal(v, evs.last());
    }
}

/// A failed effect fails closed: from any state `EffectFailed` leads to
/// `Locked`, and from any state but `Locked` it latches lockdown.
pub proof fn lemma_effect_failure_locks(v: RotView, s: State)
    ensures
        step(v, s, Event::EffectFailed).1 == State::Locked,
        s != State::Locked ==> step(v, s, Event::EffectFailed).2 == seq![Effect::LatchLockdown],
{
    reveal(step);
    if s != State::Locked {
        assert(seq![] + seq![] + seq![Effect::LatchLockdown] =~= seq![Effect::LatchLockdown]);
    }
}

/// An event naming a component outside the chain is dropped before any
/// handler sees it.
pub proof fn lemma_foreign_events_dropped(v: RotView, s: State, ev: Event)
    requires
        event_component(ev) is Some,
        !in_chain(v, event_component(ev).unwrap()),
    ensures
        step(v, s, ev) == (v, s, Seq::<Effect>::empty()),
{
    reveal(step);
}

/// In the four supervised states an attestation challenge is always
/// answered, and nothing else happens.
pub proof fn lemma_attestation_answered(v: RotView, s: State)
    requires
        is_supervised(s),
    ensures
        step(v, s, Event::AttestationChallenge) == (v, s, seq![Effect::SignAttestation]),
{
    reveal(step);
    assert(seq![] + seq![Effect::SignAttestation] =~= seq![Effect::SignAttestation]);
}

/// Corruption of a required component always starts its recovery, from
/// every state in which the walk has begun and the platform is not locked.
#[verifier::spinoff_prover]
#[verifier::rlimit(40)]
pub proof fn lemma_required_corruption_recovers(v: RotView, s: State, id: ComponentId)
    requires
        s != State::PowerOnReset,
        s != State::Locked,
        in_chain(v, id),
        attrs_of(v, id) matches Some(a) && a.failure_policy == FailurePolicy::Required,
    ensures
        step(v, s, Event::CorruptionDetected(id)).1 == State::Recovering(id),
{
    let ev = Event::CorruptionDetected(id);
    assert(gate_by_policy(v, id).2 == false);
    assert(handle_corruption(v, id).2 == Outcome::Transition(State::Recovering(id)));
    let o1 = handle(v, s, ev).2;
    assert(o1 is Super || o1 == Outcome::Transition(State::Recovering(id)));
    if o1 is Super {
        assert(is_supervised(s));
        assert(handle_supervising(handle(v, s, ev).0, ev).2 == Outcome::Transition(State::Recovering(id)));
    }
    reveal(step);
}

/// A restored component whose bumped attempt count is still below the cap
/// is walked again from the top; at the cap a required component reports
/// the failure and, on the recovery failure it emits, the platform locks.
pub proof fn lemma_recovery_budget(v: RotView, id: ComponentId, cap: nat)
    requires
        rot_wf(v, cap),
        in_chain(v, id),
    ensures
        ({
            let i = index_of(v.chain, id).unwrap();
            let bumped = retry_bumped(v.statuses[i]).retry;
            let (v1, s1, e1) = step(v, State::Recovering(id), Event::Restored(id));
            &&& bumped < v.max_retry ==> s1 == State::PreSupervision
            &&& (bumped >= v.max_retry && v.chain[i].1.failure_policy == FailurePolicy::Required) ==> {
                &&& s1 == State::Recovering(id)
                &&& e1 == seq![Effect::ReportRecoveryFailed(id), Effect::Emit(Event::RecoveryFailed)]
                &&& step(v1, s1, Event::RecoveryFailed).1 == State::Locked
                &&& step(v1, s1, Event::RecoveryFailed).2 == seq![Effect::LatchLockdown]
            }
        }),
{
    reveal(step);
    lemma_index_of(v.chain, id);
    let i = index_of(v.chain, id).unwrap();
    let (v1, s1, e1) = step(v, State::Recovering(id), Event::Restored(id));
    assert(seq![] + seq![Effect::ReportRecoveryFailed(id), Effect::Emit(Event::RecoveryFailed)] + seq![] =~= seq![
        Effect::ReportRecoveryFailed(id),
        Effect::Emit(Event::RecoveryFailed),
    ]);
    assert(seq![] + seq![] + seq![Effect::LatchLockdown] =~= seq![Effect::LatchLockdown]);
}

/// Commit or lock: a verified update is activated and leaves a commit
/// pending; in `Ready` a commit timeout with the commit still pending locks
/// the platform, and a boot confirmation commits the floor and clears it.
#[verifier::spinoff_prover]
#[verifier::rlimit(60)]
pub proof fn lemma_commit_or_lock(v: RotView, id: ComponentId)
    requires
        in_chain(v, id),
    ensures
        step(v, State::Updating, Event::UpdateVerified).1 == State::Ready,
        step(v, State::Updating, Event::UpdateVerified).0.pending_commit,
        step(v, State::Updating, Event::UpdateVerified).2 == seq![Effect::ActivateUpdate],
        v.pending_commit ==> step(v, State::Ready, Event::CommitTimeout).1 == State::Locked,
        step(v, State::Ready, Event::BootConfirmed(id)) == (
            RotView { pending_commit: false, ..v },
            State::Ready,
            seq![Effect::CommitSvnFloor(id)],
        ),
{
    reveal(step);
    assert(seq![Effect::ActivateUpdate] + seq![] + seq![] =~= seq![Effect::ActivateUpdate]);
    assert(seq![Effect::CommitSvnFloor(id)] + seq![] =~= seq![Effect::CommitSvnFloor(id)]);
}

/// A re-walk verifies only code at rest: on entry to `PreSupervision`
/// every component is held, whatever was live before.
pub proof fn lemma_rewalk_holds_everything(v: RotView)
    ensures
        forall|i: int| 0 <= i < entry(v, State::PreSupervision).0.statuses.len() ==> !(
        #[trigger] entry(v, State::PreSupervision).0.statuses[i]).released,
        entry(v, State::PreSupervision).0.statuses.len() == v.statuses.len(),
{
}

proof fn lemma_quiesce_effects_exact(chain: Seq<(ComponentId, crate::model::ComponentAttrs)>, statuses: Seq<ComponentStatus>, n: nat)
    requires
        crate::model::ids_unique(chain),
        n <= chain.len(),
        n <= statuses.len(),
    ensures
        forall|i: int| 0 <= i < n ==> (quiesce_effects(chain, statuses, n).contains(Effect::AssertReset(#[trigger] chain[i].0))
            <==> statuses[i].released),
        forall|k: int| 0 <= k < quiesce_effects(chain, statuses, n).len() ==> exists|j: int|
            0 <= j < n && statuses[j].released && #[trigger] quiesce_effects(chain, statuses, n)[k] == Effect::AssertReset(chain[j].0),
    decreases n,
{
    if n > 0 {
        let m = (n - 1) as nat;
        lemma_quiesce_effects_exact(chain, statuses, m);
        let prev = quiesce_effects(chain, statuses, m);
        let cur = quiesce_effects(chain, statuses, n);
        let extra = if statuses[m as int].released {
            seq![Effect::AssertReset(chain[m as int].0)]
        } else {
            Seq::<Effect>::empty()
        };
        assert(cur == prev + extra);
        assert forall|k: int| 0 <= k < cur.len() implies exists|j: int|
            0 <= j < n && statuses[j].released && #[trigger] cur[k] == Effect::AssertReset(chain[j].0) by {
            if k < prev.len() {
                assert(cur[k] == prev[k]);
                let j = choose|j: int| 0 <= j < m && statuses[j].released && #[trigger] prev[k] == Effect::AssertReset(chain[j].0);
                assert(0 <= j < n && statuses[j].released && cur[k] == Effect::AssertReset(chain[j].0));
            } else {
                assert(cur[k] == extra[k - prev.len()]);
                assert(0 <= m < n && statuses[m as int].released && cur[k] == Effect::AssertReset(chain[m as int].0));
            }
        }
        assert forall|i: int| 0 <= i < n implies (cur.contains(Effect::AssertReset(#[trigger] chain[i].0))
            <==> statuses[i].released) by {
            if statuses[i].released {
                if i < m {
                    let k = choose|k: int| 0 <= k < prev.len() && prev[k] == Effect::AssertReset(chain[i].0);
                    assert(cur[k] == prev[k]);
                } else {
                    assert(cur[prev.len() as int] == Effect::AssertReset(chain[i].0));
                }
            }
            if cur.contains(Effect::AssertReset(chain[i].0)) {
                let k = choose|k: int| 0 <= k < cur.len() && cur[k] == Effect::AssertReset(chain[i].0);
                let j = choose|j: int| 0 <= j < n && statuses[j].released && #[trigger] cur[k] == Effect::AssertReset(chain[j].0);
                assert(chain[j].0 == chain[i].0);
                assert(i == j);
            }
        }
    }
}

/// The re-walk holds exactly what was live: on entry to `PreSupervision`
/// the machine asserts reset on every component released since its last
/// hold, and on no other.
pub proof fn lemma_rewalk_holds_exactly_the_live(v: RotView, cap: nat)
    requires
        rot_wf(v, cap),
    ensures
        forall|i: int| 0 <= i < v.chain.len() ==> (quiesce(v).1.contains(Effect::AssertReset(#[trigger] v.chain[i].0))
            <==> v.statuses[i].released),
        forall|k: int| 0 <= k < quiesce(v).1.len() ==> #[trigger] quiesce(v).1[k] is AssertReset,
{
    lemma_quiesce_effects_exact(v.chain, v.statuses, v.chain.len());
    assert forall|k: int| 0 <= k < quiesce(v).1.len() implies #[trigger] quiesce(v).1[k] is AssertReset by {
        let j = choose|j: int| 0 <= j < v.chain.len() && v.statuses[j].released && #[trigger] quiesce(v).1[k] == Effect::AssertReset(v.chain[j].0);
    }
}

// ---------------------------------------------------------------------------
// Release only after verification; isolation is durable
// ---------------------------------------------------------------------------

/// No effect of the list releases a component from reset.
pub open spec fn releases_none(effs: Seq<Effect>) -> bool {
    forall|k: int| 0 <= k < effs.len() ==> !(#[trigger] effs[k] is ReleaseReset)
}

/// Every release in the list answers `ev`, a passed verification of the
/// component the walk of `v` is on.
pub open spec fn releases_only_verified(effs: Seq<Effect>, ev: Event, v: RotView, s: State) -> bool {
    forall|k: int|
        0 <= k < effs.len() ==> (#[trigger] effs[k] matches Effect::ReleaseReset(x) ==> ev
            == Event::VerificationPassed(x) && at_cursor(v) == Some(x) && !crate::machine_spec::gated(v, x) && (s == State::PreSupervision || s is AwaitingReady))
}

/// `w` keeps the chain of `v`, its number of records, a cursor inside the
/// chain, and every isolation of `v`.
pub open spec fn keeps_isolation(v: RotView, w: RotView) -> bool {
    &&& w.chain == v.chain
    &&& w.statuses.len() == v.statuses.len()
    &&& w.cursor <= w.chain.len()
    &&& forall|i: int|
        0 <= i < v.statuses.len() && is_isolated(v.statuses[i]) ==> is_isolated(#[trigger] w.statuses[i])
}

proof fn lemma_keeps_refl(v: RotView)
    requires
        v.cursor <= v.chain.len(),
    ensures
        keeps_isolation(v, v),
{
}

proof fn lemma_keeps_trans(u: RotView, v: RotView, w: RotView)
    requires
        keeps_isolation(u, v),
        keeps_isolation(v, w),
    ensures
        keeps_isolation(u, w),
{
    assert forall|i: int| 0 <= i < u.statuses.len() && is_isolated(u.statuses[i]) implies is_isolated(
        #[trigger] w.statuses[i],
    ) by {
        assert(is_isolated(v.statuses[i]));
    }
}

proof fn lemma_releases_none_concat(a: Seq<Effect>, b: Seq<Effect>)
    requires
        releases_none(a),
        releases_none(b),
    ensures
        releases_none(a + b),
{
    assert forall|k: int| 0 <= k < (a + b).len() implies !(#[trigger] (a + b)[k] is ReleaseReset) by {
        if k < a.len() {
            assert((a + b)[k] == a[k]);
        } else {
            assert((a + b)[k] == b[k - a.len()]);
        }
    }
}

proof fn lemma_releases_none_only(effs: Seq<Effect>, ev: Event, v: RotView, s: State)
    requires
        releases_none(effs),
    ensures
        releases_only_verified(effs, ev, v, s),
{
    assert forall|k: int| 0 <= k < effs.len() implies (#[trigger] effs[k] matches Effect::ReleaseReset(x)
        ==> ev == Event::VerificationPassed(x) && at_cursor(v) == Some(x) && !crate::machine_spec::gated(v, x) && (s == State::PreSupervision || s is AwaitingReady)) by {
        assert(!(effs[k] is ReleaseReset));
    }
}

proof fn lemma_releases_only_concat(a: Seq<Effect>, b: Seq<Effect>, ev: Event, v: RotView, s: State)
    requires
        releases_only_verified(a, ev, v, s),
        releases_only_verified(b, ev, v, s),
    ensures
        releases_only_verified(a + b, ev, v, s),
{
    assert forall|k: int| 0 <= k < (a + b).len() implies (#[trigger] (a + b)[k] matches Effect::ReleaseReset(x)
        ==> ev == Event::VerificationPassed(x) && at_cursor(v) == Some(x) && !crate::machine_spec::gated(v, x) && (s == State::PreSupervision || s is AwaitingReady)) by {
        if k < a.len() {
            assert((a + b)[k] == a[k]);
        } else {
            assert((a + b)[k] == b[k - a.len()]);
        }
    }
}

/// Updating one record with a transformer that never clears an isolation
/// keeps every isolation.
proof fn lemma_update_keeps(v: RotView, id: ComponentId, f: spec_fn(ComponentStatus) -> ComponentStatus)
    requires
        v.statuses.len() == v.chain.len(),
        v.cursor <= v.chain.len(),
        forall|s: ComponentStatus| is_isolated(s) ==> is_isolated(#[trigger] f(s)),
    ensures
        keeps_isolation(v, update_status(v, id, f)),
{
    lemma_index_of(v.chain, id);
    let w = update_status(v, id, f);
    match index_of(v.chain, id) {
        Some(j) => {
            assert forall|i: int| 0 <= i < v.statuses.len() && is_isolated(v.statuses[i]) implies is_isolated(
                #[trigger] w.statuses[i],
            ) by {
                if i == j {
                    assert(is_isolated(f(v.statuses[j])));
                }
            }
        },
        None => {},
    }
}

proof fn lemma_gate_one_safe(v: RotView, id: ComponentId)
    requires
        v.statuses.len() == v.chain.len(),
        v.cursor <= v.chain.len(),
    ensures
        keeps_isolation(v, gate_one(v, id).0),
        releases_none(gate_one(v, id).1),
{
    if !crate::machine_spec::gated(v, id) {
        lemma_update_keeps(v, id, |s: ComponentStatus| isolate(s));
    }
}

proof fn lemma_gate_each_safe(v: RotView, ids: Seq<ComponentId>)
    requires
        v.statuses.len() == v.chain.len(),
        v.cursor <= v.chain.len(),
    ensures
        keeps_isolation(v, gate_each(v, ids).0),
        releases_none(gate_each(v, ids).1),
    decreases ids.len(),
{
    if ids.len() == 0 {
        lemma_keeps_refl(v);
    } else {
        lemma_gate_each_safe(v, ids.drop_last());
        let (v1, e1) = gate_each(v, ids.drop_last());
        lemma_gate_one_safe(v1, ids.last());
        let (v2, e2) = gate_one(v1, ids.last());
        lemma_keeps_trans(v, v1, v2);
        lemma_releases_none_concat(e1, e2);
    }
}

proof fn lemma_cascade_levels_safe(
    v: RotView,
    chain: Seq<(ComponentId, crate::model::ComponentAttrs)>,
    level: Seq<ComponentId>,
    rounds: nat,
)
    requires
        v.statuses.len() == v.chain.len(),
        v.cursor <= v.chain.len(),
    ensures
        keeps_isolation(v, cascade_levels(v, chain, level, rounds).0),
        releases_none(cascade_levels(v, chain, level, rounds).1),
    decreases rounds,
{
    if rounds == 0 {
        lemma_keeps_refl(v);
    } else {
        let next = next_level(chain, level);
        lemma_gate_each_safe(v, next);
        let (v1, e1) = gate_each(v, next);
        lemma_cascade_levels_safe(v1, chain, next, (rounds - 1) as nat);
        let (v2, e2) = cascade_levels(v1, chain, next, (rounds - 1) as nat);
        lemma_keeps_trans(v, v1, v2);
        lemma_releases_none_concat(e1, e2);
    }
}

proof fn lemma_cascade_safe(v: RotView, root: ComponentId)
    requires
        v.statuses.len() == v.chain.len(),
        v.cursor <= v.chain.len(),
    ensures
        keeps_isolation(v, cascade(v, root).0),
        releases_none(cascade(v, root).1),
{
    reveal(cascade);
    lemma_gate_one_safe(v, root);
    let (v1, e1) = gate_one(v, root);
    lemma_cascade_levels_safe(v1, v.chain, seq![root], v.chain.len());
    let (v2, e2) = cascade_levels(v1, v.chain, seq![root], v.chain.len());
    lemma_keeps_trans(v, v1, v2);
    lemma_releases_none_concat(e1, e2);
}

proof fn lemma_corruption_safe(v: RotView, id: ComponentId)
    requires
        v.statuses.len() == v.chain.len(),
        v.cursor <= v.chain.len(),
    ensures
        keeps_isolation(v, handle_corruption(v, id).0),
        releases_none(handle_corruption(v, id).1),
{
    match attrs_of(v, id) {
        Some(a) => match a.failure_policy {
            FailurePolicy::Cascading => {
                lemma_cascade_safe(v, id);
            },
            FailurePolicy::Isolable => {
                lemma_gate_one_safe(v, id);
            },
            FailurePolicy::Required => {},
        },
        None => {},
    }
}

proof fn lemma_quiesce_effects_safe(chain: Seq<(ComponentId, crate::model::ComponentAttrs)>, statuses: Seq<ComponentStatus>, n: nat)
    ensures
        releases_none(quiesce_effects(chain, statuses, n)),
    decreases n,
{
    if n > 0 {
        lemma_quiesce_effects_safe(chain, statuses, (n - 1) as nat);
        let tail = if statuses[n - 1].released {
            seq![Effect::AssertReset(chain[n - 1].0)]
        } else {
            seq![]
        };
        lemma_releases_none_concat(quiesce_effects(chain, statuses, (n - 1) as nat), tail);
    }
}

/// Where some component at or after `start` is not isolated, a first one is.
proof fn lemma_first_ungated(v: RotView, start: int, j: int)
    requires
        start <= j < v.chain.len(),
        !is_isolated(v.statuses[j]),
    ensures
        exists|k: int|
            start <= k < v.chain.len() && !is_isolated(v.statuses[k]) && forall|m: int|
                start <= m < k ==> is_isolated(#[trigger] v.statuses[m]),
    decreases j - start,
{
    if exists|m: int| start <= m < j && !is_isolated(#[trigger] v.statuses[m]) {
        let m = choose|m: int| start <= m < j && !is_isolated(#[trigger] v.statuses[m]);
        lemma_first_ungated(v, start, m);
    } else {
        assert(forall|m: int| start <= m < j ==> is_isolated(#[trigger] v.statuses[m]));
    }
}

proof fn lemma_advance_safe(v: RotView, start: int)
    requires
        v.cursor <= v.chain.len(),
        0 <= start,
    ensures
        keeps_isolation(v, advance(v, start).0),
        releases_none(advance(v, start).1),
{
    if has_ungated_from(v, start) {
        let j = choose|j: int| start <= j < v.chain.len() && !is_isolated(#[trigger] v.statuses[j]);
        lemma_first_ungated(v, start, j);
    }
}

proof fn lemma_entry_safe(v: RotView, t: State)
    requires
        v.statuses.len() == v.chain.len(),
        v.cursor <= v.chain.len(),
    ensures
        keeps_isolation(v, entry(v, t).0),
        releases_none(entry(v, t).1),
{
    match t {
        State::PreSupervision => {
            let (v1, e1) = quiesce(v);
            lemma_quiesce_effects_safe(v.chain, v.statuses, v.chain.len());
            assert(keeps_isolation(v, v1));
            let (v2, e2, _) = advance(v1, 0);
            lemma_advance_safe(v1, 0);
            lemma_keeps_trans(v, v1, v2);
            lemma_releases_none_concat(e1, e2);
        },
        State::Recovering(failed) => {
            let v0 = RotView { pending_commit: false, ..v };
            lemma_update_keeps(v0, failed, |s: ComponentStatus| reported_in(s));
            let v1 = update_status(v0, failed, |s: ComponentStatus| reported_in(s));
            lemma_update_keeps(v1, failed, |s: ComponentStatus| held(s));
            let v2 = update_status(v1, failed, |s: ComponentStatus| held(s));
            lemma_keeps_trans(v, v1, v2);
        },
        _ => {},
    }
}

proof fn lemma_release_and_advance_safe(v: RotView, id: ComponentId)
    requires
        v.statuses.len() == v.chain.len(),
        v.cursor < v.chain.len(),
    ensures
        keeps_isolation(v, release_and_advance(v, id).0),
        release_and_advance(v, id).1[0] == Effect::ReleaseReset(id),
        releases_none(release_and_advance(v, id).1.drop_first()),
{
    lemma_update_keeps(v, id, |s: ComponentStatus| retry_cleared(s));
    let v1 = update_status(v, id, |s: ComponentStatus| retry_cleared(s));
    lemma_update_keeps(v1, id, |s: ComponentStatus| release(s));
    let v2 = update_status(v1, id, |s: ComponentStatus| release(s));
    lemma_keeps_trans(v, v1, v2);
    let (v3, e3, found) = advance(v2, v.cursor + 1int);
    lemma_advance_safe(v2, v.cursor + 1int);
    lemma_keeps_trans(v, v2, v3);
    assert((seq![Effect::ReleaseReset(id)] + e3).drop_first() =~= e3);
}

proof fn lemma_verification_passed_safe(v: RotView, s: State, id: ComponentId)
    requires
        v.statuses.len() == v.chain.len(),
        v.cursor <= v.chain.len(),
    ensures
        keeps_isolation(v, handle(v, s, Event::VerificationPassed(id)).0),
        releases_only_verified(handle(v, s, Event::VerificationPassed(id)).1, Event::VerificationPassed(id), v, s),
{
    let ev = Event::VerificationPassed(id);
    let (v1, e1, o1) = handle(v, s, ev);
    if (s == State::PreSupervision || s is AwaitingReady) && at_cursor(v) == Some(id) && crate::machine_spec::gated(v, id) {
        lemma_advance_safe(v, v.cursor + 1int);
        lemma_releases_none_only(e1, ev, v, s);
    } else if (s == State::PreSupervision || s is AwaitingReady) && at_cursor(v) == Some(id) {
        lemma_release_and_advance_safe(v, id);
        let e = release_and_advance(v, id).1;
        assert forall|k: int| 0 <= k < e.len() implies (#[trigger] e[k] matches Effect::ReleaseReset(x)
            ==> ev == Event::VerificationPassed(x) && at_cursor(v) == Some(x) && !crate::machine_spec::gated(v, x) && (s == State::PreSupervision || s is AwaitingReady)) by {
            if k > 0 {
                assert(e[k] == e.drop_first()[k - 1]);
            }
        }
    } else {
        lemma_keeps_refl(v);
        lemma_releases_none_only(e1, ev, v, s);
    }
}

#[verifier::spinoff_prover]
#[verifier::rlimit(60)]
proof fn lemma_handle_safe(v: RotView, s: State, ev: Event)
    requires
        v.statuses.len() == v.chain.len(),
        v.cursor <= v.chain.len(),
    ensures
        keeps_isolation(v, handle(v, s, ev).0),
        releases_only_verified(handle(v, s, ev).1, ev, v, s),
{
    let (v1, e1, o1) = handle(v, s, ev);
    match ev {
        Event::VerificationPassed(id) => {
            lemma_verification_passed_safe(v, s, id);
        },
        Event::CorruptionDetected(id) => {
            lemma_corruption_safe(v, id);
            if s == State::PreSupervision || s == State::Updating {
                let (vc, ec, oc) = handle_corruption(v, id);
                lemma_releases_none_concat(ec, seq![Effect::DiscardStaged, Effect::ReportUpdateAborted]);
                lemma_releases_none_only(e1, ev, v, s);
            } else {
                lemma_keeps_refl(v);
                lemma_releases_none_only(e1, ev, v, s);
            }
        },
        Event::Booted(id) => {
            lemma_update_keeps(v, id, |s: ComponentStatus| reported_in(s));
            lemma_keeps_refl(v);
            lemma_releases_none_only(e1, ev, v, s);
        },
        Event::ComponentReady(id) => {
            lemma_update_keeps(v, id, |s: ComponentStatus| reported_in(s));
            lemma_keeps_refl(v);
            lemma_releases_none_only(e1, ev, v, s);
        },
        Event::Restored(id) => {
            if s == State::Recovering(id) {
                lemma_update_keeps(v, id, |s: ComponentStatus| retry_bumped(s));
                let w1 = update_status(v, id, |s: ComponentStatus| retry_bumped(s));
                lemma_corruption_safe(w1, id);
                let (w2, e2, g) = gate_by_policy(w1, id);
                lemma_keeps_trans(v, w1, w2);
                lemma_update_keeps(w2, id, |s: ComponentStatus| retry_cleared(s));
                let w3 = update_status(w2, id, |s: ComponentStatus| retry_cleared(s));
                lemma_keeps_trans(v, w2, w3);
                lemma_releases_none_concat(e2, seq![Effect::ReportRecoveryFailed(id), Effect::Emit(Event::RecoveryFailed)]);
            } else {
                lemma_keeps_refl(v);
            }
            lemma_releases_none_only(e1, ev, v, s);
        },
        _ => {
            lemma_keeps_refl(v);
            lemma_releases_none_only(e1, ev, v, s);
        },
    }
}

#[verifier::spinoff_prover]
#[verifier::rlimit(40)]
proof fn lemma_handle_supervising_safe(v: RotView, ev: Event)
    requires
        v.statuses.len() == v.chain.len(),
        v.cursor <= v.chain.len(),
    ensures
        keeps_isolation(v, handle_supervising(v, ev).0),
        releases_none(handle_supervising(v, ev).1),
{
    match ev {
        Event::CorruptionDetected(id) => lemma_corruption_safe(v, id),
        Event::ComponentReady(id) => lemma_update_keeps(v, id, |s: ComponentStatus| reported_in(s)),
        Event::Booted(id) => lemma_update_keeps(v, id, |s: ComponentStatus| reported_in(s)),
        _ => {},
    }
}

/// Release only after verification: a step asks to release a component
/// from reset only in answer to a passed verification of that very
/// component, the one the walk is on, while the walk runs, and that
/// component was not isolated since its verification was requested.
pub proof fn lemma_release_follows_verification(v: RotView, s: State, ev: Event, cap: nat)
    requires
        rot_wf(v, cap),
    ensures
        forall|k: int|
            0 <= k < step(v, s, ev).2.len() ==> (#[trigger] step(v, s, ev).2[k] matches Effect::ReleaseReset(x)
                ==> ev == Event::VerificationPassed(x) && at_cursor(v) == Some(x) && !crate::machine_spec::gated(v, x)
                && (s == State::PreSupervision || s is AwaitingReady)),
{
    reveal(step);
    lemma_step_safe(v, s, ev);
}

/// Isolation is durable: a step keeps the chain, and every isolated
/// component stays isolated.
pub proof fn lemma_isolation_is_durable(v: RotView, s: State, ev: Event, cap: nat)
    requires
        rot_wf(v, cap),
    ensures
        keeps_isolation(v, step(v, s, ev).0),
{
    lemma_step_safe(v, s, ev);
}

proof fn lemma_step_safe(v: RotView, s: State, ev: Event)
    requires
        v.statuses.len() == v.chain.len(),
        v.cursor <= v.chain.len(),
    ensures
        keeps_isolation(v, step(v, s, ev).0),
        releases_only_verified(step(v, s, ev).2, ev, v, s),
{
    reveal(step);
    if event_component(ev) is Some && !in_chain(v, event_component(ev).unwrap()) {
        lemma_keeps_refl(v);
    } else {
        let (v1, e1, o1) = handle(v, s, ev);
        lemma_handle_safe(v, s, ev);
        let (v2, e2, o2) = if o1 is Super && is_supervised(s) {
            handle_supervising(v1, ev)
        } else {
            (v1, seq![], o1)
        };
        if o1 is Super && is_supervised(s) {
            lemma_handle_supervising_safe(v1, ev);
        } else {
            lemma_keeps_refl(v1);
        }
        lemma_keeps_trans(v, v1, v2);
        lemma_releases_none_only(e2, ev, v, s);
        lemma_releases_only_concat(e1, e2, ev, v, s);
        match o2 {
            Outcome::Transition(t) => {
                lemma_entry_safe(v2, t);
                let (v3, e3) = entry(v2, t);
                lemma_keeps_trans(v, v2, v3);
                lemma_releases_none_only(e3, ev, v, s);
                lemma_releases_only_concat(e1 + e2, e3, ev, v, s);
            },
            _ => {},
        }
    }
}

/// Isolation is durable over any run of events.
pub proof fn lemma_isolation_durable_over_runs(v: RotView, s: State, evs: Seq<Event>, cap: nat)
    requires
        rot_wf(v, cap),
    ensures
        keeps_isolation(v, run_steps(v, s, evs).0),
    decreases evs.len(),
{
    if evs.len() == 0 {
        lemma_keeps_refl(v);
    } else {
        lemma_isolation_durable_over_runs(v, s, evs.drop_last(), cap);
        let (v1, s1) = run_steps(v, s, evs.drop_last());
        assert(rot_wf(v1, cap));
        lemma_isolation_is_durable(v1, s1, evs.last(), cap);
        lemma_keeps_trans(v, v1, run_steps(v, s, evs).0);
    }
}

// ---------------------------------------------------------------------------
// A dispatch run fails closed
// ---------------------------------------------------------------------------

/// Once a run has latched, the latch is either settled (`Locked`) or next
/// in line.
spec fn latch_pending_or_locked(r: RunView) -> bool {
    r.failed ==> (r.state == State::Locked || (r.pending.len() > 0 && r.pending[0] == Event::EffectFailed))
}

/// Settling a batch that latches leaves `EffectFailed` at the front of the
/// queue.
proof fn lemma_settle_latch_in_front(
    pending: Seq<Event>,
    effects: Seq<Effect>,
    answers: Seq<Result<Option<Event>, EffectError>>,
)
    ensures
        settle_effects(pending, false, effects, answers).1 ==> settle_effects(pending, false, effects, answers).0.len() > 0
            && settle_effects(pending, false, effects, answers).0[0] == Event::EffectFailed,
    decreases effects.len(),
{
    if effects.len() > 0 {
        let rest = effects.drop_first();
        let later = answers.drop_first();
        match effects[0] {
            Effect::Emit(ev) => {
                let (p, f, stop) = enqueue(pending, false, ev);
                if !stop {
                    lemma_settle_latch_in_front(p, rest, answers);
                }
            },
            _ => {
                let answer = if answers.len() == 0 {
                    Ok(None)
                } else {
                    answers[0]
                };
                match answer {
                    Ok(Some(ev)) => {
                        let (p, f, stop) = enqueue(pending, false, ev);
                        if !stop {
                            lemma_settle_latch_in_front(p, rest, later);
                        }
                    },
                    Ok(None) => lemma_settle_latch_in_front(pending, rest, later),
                    Err(_) => {},
                }
            },
        }
    }
}

proof fn lemma_round_keeps_latch(r1: RunView, r2: RunView)
    requires
        latch_pending_or_locked(r1),
        round_follows(r1, r2),
    ensures
        latch_pending_or_locked(r2),
{
    let answers = choose|answers: Seq<Result<Option<Event>, EffectError>>| #[trigger] run_round(r1, answers) == r2;
    assert(run_round(r1, answers) == r2);
    if r1.failed {
        if r1.state == State::Locked {
            lemma_locked_is_terminal(r1.rot, r1.pending[0]);
        } else {
            lemma_effect_failure_locks(r1.rot, r1.state);
        }
    } else {
        let (v1, s1, effects) = step(r1.rot, r1.state, r1.pending[0]);
        lemma_settle_latch_in_front(r1.pending.drop_first(), effects, answers);
    }
}

/// A dispatch run fails closed: when an effect failed (or a follow-up found
/// the queue full) and the run then drained its queue, the machine ends
/// `Locked`, whatever the executor answered along the way.
pub proof fn lemma_latched_run_locks(v: RotView, s: State, event: Event, rounds: Seq<RunView>)
    requires
        complete_run(run_start(v, s, event), rounds),
        rounds.last().failed,
        rounds.last().pending.len() == 0,
    ensures
        rounds.last().state == State::Locked,
{
    assert forall|i: int| 0 <= i < rounds.len() implies #[trigger] latch_pending_or_locked(rounds[i]) by {
        lemma_latch_prefix(rounds, i);
    }
    assert(latch_pending_or_locked(rounds[rounds.len() - 1]));
}

proof fn lemma_latch_prefix(rounds: Seq<RunView>, i: int)
    requires
        rounds.len() >= 1,
        !rounds[0].failed,
        forall|j: int| 0 <= j < rounds.len() - 1 ==> #[trigger] round_follows(rounds[j], rounds[j + 1]),
        0 <= i < rounds.len(),
    ensures
        latch_pending_or_locked(rounds[i]),
    decreases i,
{
    if i > 0 {
        lemma_latch_prefix(rounds, i - 1);
        let j = i - 1;
        assert(round_follows(rounds[j], rounds[j + 1]));
        lemma_round_keeps_latch(rounds[j], rounds[j + 1]);
    }
}

/// Dispatching anything to a `Locked` machine leaves it exactly as it is,
/// whatever the executor answers.
pub proof fn lemma_locked_dispatch_stays(v: RotView, event: Event, v2: RotView, s2: State)
    requires
        dispatch_may_end(v, State::Locked, event, v2, s2),
    ensures
        v2 == v,
        s2 == State::Locked,
{
    let rounds = choose|rounds: Seq<RunView>|
        #[trigger] complete_run(run_start(v, State::Locked, event), rounds) && rounds.last().rot == v2
            && rounds.last().state == s2;
    assert forall|i: int| 0 <= i < rounds.len() implies #[trigger] rounds[i].rot == v && rounds[i].state == State::Locked by {
        lemma_locked_prefix(v, rounds, i);
    }
    assert(rounds[rounds.len() - 1].rot == v);
}

proof fn lemma_locked_prefix(v: RotView, rounds: Seq<RunView>, i: int)
    requires
        rounds.len() >= 1,
        rounds[0].rot == v && rounds[0].state == State::Locked,
        forall|j: int| 0 <= j < rounds.len() - 1 ==> #[trigger] round_follows(rounds[j], rounds[j + 1]),
        0 <= i < rounds.len(),
    ensures
        rounds[i].rot == v && rounds[i].state == State::Locked,
    decreases i,
{
    if i > 0 {
        lemma_locked_prefix(v, rounds, i - 1);
        let j = i - 1;
        assert(round_follows(rounds[j], rounds[j + 1]));
        let answers = choose|answers: Seq<Result<Option<Event>, EffectError>>| #[trigger] run_round(rounds[j], answers) == rounds[j + 1];
        lemma_locked_is_terminal(v, rounds[j].pending[0]);
        assert(run_round(rounds[j], answers) == rounds[j + 1]);
    }
}

// ---------------------------------------------------------------------------
// A cascade holds, breadth first, every transitive dependent
// ---------------------------------------------------------------------------

/// The `k`-th level of the cascade from `root`: `root` itself, then, level
/// by level, the components whose `depends_on` names a member of the level
/// before, in the order the cascade gates them.
pub open spec fn cascade_level(chain: Seq<(ComponentId, ComponentAttrs)>, root: ComponentId, k: nat) -> Seq<ComponentId>
    decreases k,
{
    if k == 0 {
        seq![root]
    } else {
        next_level(chain, cascade_level(chain, root, (k - 1) as nat))
    }
}

proof fn lemma_dependents_upto_at(chain: Seq<(ComponentId, ComponentAttrs)>, h: ComponentId, n: nat, k: int)
    requires
        n <= chain.len(),
        0 <= k < dependents_upto(chain, h, n).len(),
    ensures
        exists|i: int|
            0 <= i < n && #[trigger] chain[i].0 == dependents_upto(chain, h, n)[k] && chain[i].1.depends_on == Some(h),
    decreases n,
{
    if n > 0 {
        let prev = dependents_upto(chain, h, (n - 1) as nat);
        let tail = if chain[n - 1].1.depends_on == Some(h) {
            seq![chain[n - 1].0]
        } else {
            seq![]
        };
        assert(dependents_upto(chain, h, n) == prev + tail);
        if k < prev.len() {
            lemma_dependents_upto_at(chain, h, (n - 1) as nat, k);
            assert((prev + tail)[k] == prev[k]);
        } else {
            assert((prev + tail)[k] == tail[k - prev.len()]);
            let i = n - 1;
            assert(chain[i].0 == dependents_upto(chain, h, n)[k]);
        }
    }
}

proof fn lemma_dependents_upto_has(chain: Seq<(ComponentId, ComponentAttrs)>, h: ComponentId, n: nat, i: int)
    requires
        0 <= i < n <= chain.len(),
        chain[i].1.depends_on == Some(h),
    ensures
        dependents_upto(chain, h, n).contains(chain[i].0),
    decreases n,
{
    let prev = dependents_upto(chain, h, (n - 1) as nat);
    let tail = if chain[n - 1].1.depends_on == Some(h) {
        seq![chain[n - 1].0]
    } else {
        seq![]
    };
    assert(dependents_upto(chain, h, n) == prev + tail);
    if i == n - 1 {
        assert((prev + tail)[prev.len() as int] == chain[i].0);
    } else {
        lemma_dependents_upto_has(chain, h, (n - 1) as nat, i);
        let j = choose|j: int| 0 <= j < prev.len() && prev[j] == chain[i].0;
        assert((prev + tail)[j] == chain[i].0);
    }
}

/// Each member of `next_level(chain, level)` is carried by an entry that
/// depends on a member of `level`.
proof fn lemma_next_level_at(chain: Seq<(ComponentId, ComponentAttrs)>, level: Seq<ComponentId>, k: int)
    requires
        0 <= k < next_level(chain, level).len(),
    ensures
        exists|j: int, i: int|
            #![trigger level[j], chain[i]]
            0 <= j < level.len() && 0 <= i < chain.len() && chain[i].0 == next_level(chain, level)[k]
                && chain[i].1.depends_on == Some(level[j]),
    decreases level.len(),
{
    if level.len() > 0 {
        let prev = next_level(chain, level.drop_last());
        let d = dependents(chain, level.last());
        assert(next_level(chain, level) == prev + d);
        if k < prev.len() {
            lemma_next_level_at(chain, level.drop_last(), k);
            assert((prev + d)[k] == prev[k]);
            let (j, i) = choose|j: int, i: int|
                #![trigger level.drop_last()[j], chain[i]]
                0 <= j < level.drop_last().len() && 0 <= i < chain.len() && chain[i].0 == prev[k]
                    && chain[i].1.depends_on == Some(level.drop_last()[j]);
            assert(level.drop_last()[j] == level[j]);
        } else {
            assert((prev + d)[k] == d[k - prev.len()]);
            lemma_dependents_upto_at(chain, level.last(), chain.len(), k - prev.len());
            let i = choose|i: int|
                0 <= i < chain.len() && #[trigger] chain[i].0 == d[k - prev.len()] && chain[i].1.depends_on
                    == Some(level.last());
            let j = level.len() - 1;
            assert(level[j] == level.last());
        }
    }
}

/// Every entry that depends on a member of `level` is in the next level.
proof fn lemma_next_level_has(chain: Seq<(ComponentId, ComponentAttrs)>, level: Seq<ComponentId>, j: int, i: int)
    requires
        0 <= j < level.len(),
        0 <= i < chain.len(),
        chain[i].1.depends_on == Some(level[j]),
    ensures
        next_level(chain, level).contains(chain[i].0),
    decreases level.len(),
{
    let prev = next_level(chain, level.drop_last());
    let d = dependents(chain, level.last());
    assert(next_level(chain, level) == prev + d);
    if j == level.len() - 1 {
        lemma_dependents_upto_has(chain, level.last(), chain.len(), i);
        let m = choose|m: int| 0 <= m < d.len() && d[m] == chain[i].0;
        assert((prev + d)[prev.len() + m] == chain[i].0);
    } else {
        assert(level.drop_last()[j] == level[j]);
        lemma_next_level_has(chain, level.drop_last(), j, i);
        let m = choose|m: int| 0 <= m < prev.len() && prev[m] == chain[i].0;
        assert((prev + d)[m] == chain[i].0);
    }
}

proof fn lemma_next_level_in_chain(v: RotView, level: Seq<ComponentId>, k: int)
    requires
        0 <= k < next_level(v.chain, level).len(),
    ensures
        in_chain(v, next_level(v.chain, level)[k]),
{
    lemma_next_level_at(v.chain, level, k);
    lemma_index_of(v.chain, next_level(v.chain, level)[k]);
    let (j, i) = choose|j: int, i: int|
        #![trigger level[j], v.chain[i]]
        0 <= j < level.len() && 0 <= i < v.chain.len() && v.chain[i].0 == next_level(v.chain, level)[k]
            && v.chain[i].1.depends_on == Some(level[j]);
    assert(v.chain[i].0 == next_level(v.chain, level)[k]);
}

/// The members of level `k` sit at walk positions `k` and later.
proof fn lemma_level_depth(chain: Seq<(ComponentId, ComponentAttrs)>, root: ComponentId, r: int, k: nat, m: int)
    requires
        ids_unique(chain),
        deps_backward(chain),
        0 <= r < chain.len(),
        chain[r].0 == root,
        0 <= m < cascade_level(chain, root, k).len(),
    ensures
        exists|i: int| k <= i < chain.len() && #[trigger] chain[i].0 == cascade_level(chain, root, k)[m],
    decreases k,
{
    if k == 0 {
        assert(chain[r].0 == cascade_level(chain, root, k)[m]);
    } else {
        let prev = cascade_level(chain, root, (k - 1) as nat);
        let x = cascade_level(chain, root, k)[m];
        lemma_next_level_at(chain, prev, m);
        let (j, i) = choose|j: int, i: int|
            #![trigger prev[j], chain[i]]
            0 <= j < prev.len() && 0 <= i < chain.len() && chain[i].0 == x && chain[i].1.depends_on == Some(prev[j]);
        lemma_level_depth(chain, root, r, (k - 1) as nat, j);
        let i2 = choose|i2: int| k - 1 <= i2 < chain.len() && #[trigger] chain[i2].0 == prev[j];
        assert(!bad_dep_at(chain, i));
        let j2 = choose|j2: int| 0 <= j2 < i && #[trigger] chain[j2].0 == prev[j];
        assert(j2 == i2);
        assert(chain[i].0 == x);
    }
}

proof fn lemma_gate_one_gates(v: RotView, id: ComponentId)
    requires
        v.statuses.len() == v.chain.len(),
        in_chain(v, id),
    ensures
        crate::machine_spec::gated(gate_one(v, id).0, id),
{
    lemma_index_of(v.chain, id);
}

proof fn lemma_gate_each_gates(v: RotView, ids: Seq<ComponentId>, m: int)
    requires
        v.statuses.len() == v.chain.len(),
        v.cursor <= v.chain.len(),
        0 <= m < ids.len(),
        in_chain(v, ids[m]),
    ensures
        crate::machine_spec::gated(gate_each(v, ids).0, ids[m]),
    decreases ids.len(),
{
    lemma_gate_each_safe(v, ids.drop_last());
    let (v1, e1) = gate_each(v, ids.drop_last());
    lemma_gate_one_safe(v1, ids.last());
    let (v2, e2) = gate_one(v1, ids.last());
    if m == ids.len() - 1 {
        lemma_gate_one_gates(v1, ids.last());
    } else {
        assert(ids.drop_last()[m] == ids[m]);
        lemma_gate_each_gates(v, ids.drop_last(), m);
        lemma_gated_kept(v1, v2, ids[m]);
    }
}

proof fn lemma_cascade_levels_gates(v: RotView, root: ComponentId, k: nat, rounds: nat, kk: nat, m: int)
    requires
        v.statuses.len() == v.chain.len(),
        v.cursor <= v.chain.len(),
        k < kk <= k + rounds,
        0 <= m < cascade_level(v.chain, root, kk).len(),
    ensures
        crate::machine_spec::gated(
            cascade_levels(v, v.chain, cascade_level(v.chain, root, k), rounds).0,
            cascade_level(v.chain, root, kk)[m],
        ),
    decreases rounds,
{
    let chain = v.chain;
    let next = cascade_level(chain, root, k + 1);
    assert(next == next_level(chain, cascade_level(chain, root, k)));
    lemma_gate_each_safe(v, next);
    let (v1, e1) = gate_each(v, next);
    let x = cascade_level(chain, root, kk)[m];
    if kk == k + 1 {
        lemma_next_level_in_chain(v, cascade_level(chain, root, k), m);
        lemma_gate_each_gates(v, next, m);
        lemma_cascade_levels_safe(v1, chain, next, (rounds - 1) as nat);
        let v2 = cascade_levels(v1, chain, next, (rounds - 1) as nat).0;
        lemma_gated_kept(v1, v2, x);
    } else {
        lemma_cascade_levels_gates(v1, root, k + 1, (rounds - 1) as nat, kk, m);
    }
}

/// A cascade holds every transitive dependent of its root, breadth first:
/// it gates `root`, then level `1` (the components whose `depends_on` names
/// `root`), then level `2`, and so on. Every dependent of a member of a
/// level is in the next level, and that level lies inside the walk; every
/// member of every level is isolated afterwards, whether or not it, or the
/// component it hangs off, was isolated before.
pub proof fn lemma_cascade_holds_every_dependent(v: RotView, root: ComponentId, cap: nat)
    requires
        rot_wf(v, cap),
        in_chain(v, root),
    ensures
        cascade(v, root) == ({
            let (v1, e1) = gate_one(v, root);
            let (v2, e2) = cascade_levels(v1, v.chain, cascade_level(v.chain, root, 0), v.chain.len());
            (v2, e1 + e2)
        }),
        forall|k: nat, d: ComponentId, i: int|
            #![trigger cascade_level(v.chain, root, k).contains(d), v.chain[i]]
            cascade_level(v.chain, root, k).contains(d) && 0 <= i < v.chain.len() && v.chain[i].1.depends_on == Some(d)
                ==> k < v.chain.len() && cascade_level(v.chain, root, k + 1).contains(v.chain[i].0),
        forall|k: nat, x: ComponentId|
            #![trigger cascade_level(v.chain, root, k).contains(x)]
            k <= v.chain.len() && cascade_level(v.chain, root, k).contains(x) ==> crate::machine_spec::gated(
                cascade(v, root).0,
                x,
            ),
{
    reveal(cascade);
    let chain = v.chain;
    let len = chain.len();
    lemma_index_of(chain, root);
    let r = index_of(chain, root).unwrap();
    assert forall|k: nat, d: ComponentId, i: int|
        #![trigger cascade_level(v.chain, root, k).contains(d), v.chain[i]]
        cascade_level(v.chain, root, k).contains(d) && 0 <= i < v.chain.len() && v.chain[i].1.depends_on == Some(d)
            implies k < v.chain.len() && cascade_level(v.chain, root, k + 1).contains(v.chain[i].0) by {
        let lk = cascade_level(chain, root, k);
        let m = choose|m: int| 0 <= m < lk.len() && lk[m] == d;
        lemma_level_depth(chain, root, r, k, m);
        let i2 = choose|i2: int| k <= i2 < chain.len() && #[trigger] chain[i2].0 == lk[m];
        assert(!bad_dep_at(chain, i));
        let j2 = choose|j2: int| 0 <= j2 < i && #[trigger] chain[j2].0 == d;
        assert(j2 == i2);
        lemma_next_level_has(chain, lk, m, i);
        assert(cascade_level(chain, root, k + 1) == next_level(chain, lk));
    }
    lemma_gate_one_safe(v, root);
    let (v1, e1) = gate_one(v, root);
    assert(cascade_level(chain, root, 0) == seq![root]);
    lemma_cascade_levels_safe(v1, chain, seq![root], len);
    let w = cascade_levels(v1, chain, seq![root], len).0;
    assert forall|k: nat, x: ComponentId|
        #![trigger cascade_level(v.chain, root, k).contains(x)]
        k <= v.chain.len() && cascade_level(v.chain, root, k).contains(x) implies crate::machine_spec::gated(
            cascade(v, root).0,
            x,
        ) by {
        let lk = cascade_level(chain, root, k);
        let m = choose|m: int| 0 <= m < lk.len() && lk[m] == x;
        if k == 0 {
            assert(x == root);
            lemma_gate_one_gates(v, root);
            lemma_gated_kept(v1, w, root);
        } else {
            lemma_cascade_levels_gates(v1, root, 0, len, k, m);
        }
    }
}

// ---------------------------------------------------------------------------
// Internal events never reach the executor
// ---------------------------------------------------------------------------

/// No effect of the list is an internal `Emit`.
pub open spec fn hands_no_emit(effs: Seq<Effect>) -> bool {
    forall|i: int| 0 <= i < effs.len() ==> !(#[trigger] effs[i] is Emit)
}

proof fn lemma_hands_no_emit_concat(a: Seq<Effect>, b: Seq<Effect>)
    requires
        hands_no_emit(a),
        hands_no_emit(b),
    ensures
        hands_no_emit(a + b),
{
    assert forall|i: int| 0 <= i < (a + b).len() implies !(#[trigger] (a + b)[i] is Emit) by {
        if i < a.len() {
            assert((a + b)[i] == a[i]);
        } else {
            assert((a + b)[i] == b[i - a.len()]);
        }
    }
}

proof fn lemma_settle_hands_no_emit(pending: Seq<Event>, failed: bool, effects: Seq<Effect>, answers: Seq<Result<Option<Event>, EffectError>>)
    ensures
        hands_no_emit(settle_effects(pending, failed, effects, answers).2),
    decreases effects.len(),
{
    if effects.len() > 0 {
        let rest = effects.drop_first();
        let later = answers.drop_first();
        match effects[0] {
            Effect::Emit(ev) => {
                let (p, f, stop) = enqueue(pending, failed, ev);
                if !stop {
                    lemma_settle_hands_no_emit(p, f, rest, answers);
                }
            },
            e => {
                let answer = if answers.len() == 0 {
                    Ok(None)
                } else {
                    answers[0]
                };
                let t = match answer {
                    Err(_) => (if failed {
                        pending
                    } else {
                        latched(pending)
                    }, true, Seq::<Effect>::empty()),
                    Ok(None) => settle_effects(pending, failed, rest, later),
                    Ok(Some(ev)) => {
                        let (p, f, stop) = enqueue(pending, failed, ev);
                        if stop {
                            (p, f, Seq::<Effect>::empty())
                        } else {
                            settle_effects(p, f, rest, later)
                        }
                    },
                };
                match answer {
                    Ok(None) => lemma_settle_hands_no_emit(pending, failed, rest, later),
                    Ok(Some(ev)) => {
                        let (p, f, stop) = enqueue(pending, failed, ev);
                        if !stop {
                            lemma_settle_hands_no_emit(p, f, rest, later);
                        }
                    },
                    Err(_) => {},
                }
                lemma_hands_no_emit_concat(seq![e], t.2);
            },
        }
    }
}

/// Fail fast: within one batch, once the executor answers an effect with an
/// error it is handed nothing more of that batch. The failed effect is the
/// last one the batch hands on, and the run has latched.
pub proof fn lemma_batch_fails_fast(
    pending: Seq<Event>,
    failed: bool,
    effects: Seq<Effect>,
    answers: Seq<Result<Option<Event>, EffectError>>,
    k: int,
)
    requires
        0 <= k < settle_effects(pending, failed, effects, answers).2.len(),
        k < answers.len(),
        answers[k] is Err,
    ensures
        settle_effects(pending, failed, effects, answers).2.len() == k + 1,
        settle_effects(pending, failed, effects, answers).1,
    decreases effects.len(),
{
    if effects.len() > 0 {
        let rest = effects.drop_first();
        let later = answers.drop_first();
        match effects[0] {
            Effect::Emit(ev) => {
                let (p, f, stop) = enqueue(pending, failed, ev);
                if !stop {
                    lemma_batch_fails_fast(p, f, rest, answers, k);
                }
            },
            e => {
                if k > 0 {
                    match answers[0] {
                        Ok(None) => {
                            assert(later[k - 1] == answers[k]);
                            lemma_batch_fails_fast(pending, failed, rest, later, k - 1);
                        },
                        Ok(Some(ev)) => {
                            let (p, f, stop) = enqueue(pending, failed, ev);
                            if !stop {
                                assert(later[k - 1] == answers[k]);
                                lemma_batch_fails_fast(p, f, rest, later, k - 1);
                            }
                        },
                        Err(_) => {},
                    }
                }
            },
        }
    }
}


/// A dispatch run never hands the executor an internal `Emit`: internal
/// events are settled by the machine itself, whatever the executor answers.
pub proof fn lemma_run_never_hands_emit(r: RunView, answers: Seq<Result<Option<Event>, EffectError>>)
    ensures
        hands_no_emit(run_from(r, answers).1),
    decreases r.budget,
{
    if !run_over(r) {
        let (v1, s1, effects) = step(r.rot, r.state, r.pending[0]);
        lemma_settle_hands_no_emit(r.pending.drop_first(), r.failed, effects, answers);
        let handed = handed_in_round(r, answers);
        lemma_run_never_hands_emit(run_round(r, answers), answers.skip(handed.len() as int));
        lemma_hands_no_emit_concat(handed, run_from(run_round(r, answers), answers.skip(handed.len() as int)).1);
    }
}

/// A run of a `Locked` machine hands the executor nothing and leaves the
/// machine as it is, whatever the executor would answer.
pub proof fn lemma_locked_run_hands_nothing(r: RunView, answers: Seq<Result<Option<Event>, EffectError>>)
    requires
        r.state == State::Locked,
    ensures
        run_from(r, answers).1 == Seq::<Effect>::empty(),
        run_from(r, answers).0.rot == r.rot,
        run_from(r, answers).0.state == State::Locked,
    decreases r.budget,
{
    if !run_over(r) {
        lemma_locked_is_terminal(r.rot, r.pending[0]);
        let r2 = run_round(r, answers);
        assert(handed_in_round(r, answers) == Seq::<Effect>::empty());
        lemma_locked_run_hands_nothing(r2, answers.skip(0));
        assert(Seq::<Effect>::empty() + run_from(r2, answers.skip(0)).1 =~= Seq::<Effect>::empty());
    }
}

// ---------------------------------------------------------------------------
// Verify before release, over the history of effects
// ---------------------------------------------------------------------------

/// `e` holds `x`: it asserts `x`'s reset or starts `x`'s recovery.
pub open spec fn holds(e: Effect, x: ComponentId) -> bool {
    match e {
        Effect::AssertReset(y) => y == x,
        Effect::RecoverComponent { id, .. } => id == x,
        _ => false,
    }
}

/// `x` was verified since its last hold in `hist`.
pub open spec fn verified_since_hold(hist: Seq<Effect>, x: ComponentId) -> bool {
    exists|k: int|
        0 <= k < hist.len() && #[trigger] hist[k] == Effect::VerifyFirmware(x) && forall|j: int|
            k < j < hist.len() ==> !holds(#[trigger] hist[j], x)
}

/// While the walk runs, the component under verification, unless
/// isolated, was verified since its last hold.
pub open spec fn walk_verified(v: RotView, s: State, hist: Seq<Effect>) -> bool {
    (s == State::PreSupervision || s is AwaitingReady) ==> match at_cursor(v) {
        Some(x) => crate::machine_spec::gated(v, x) || verified_since_hold(hist, x),
        None => true,
    }
}

/// Every hold in `e` is an assert-reset of a component isolated in `w`.
spec fn holds_only_gated(e: Seq<Effect>, w: RotView) -> bool {
    forall|k: int|
        0 <= k < e.len() ==> (#[trigger] e[k] matches Effect::AssertReset(y) ==> crate::machine_spec::gated(w, y))
            && !(e[k] is RecoverComponent)
}

/// `e` ends by asking to verify the component under verification in `w`,
/// if there is one.
spec fn ends_verifying_cursor(e: Seq<Effect>, w: RotView) -> bool {
    match at_cursor(w) {
        Some(y) => e.len() > 0 && e.last() == Effect::VerifyFirmware(y),
        None => true,
    }
}

proof fn lemma_verified_kept(h: Seq<Effect>, e: Seq<Effect>, x: ComponentId)
    requires
        verified_since_hold(h, x),
        forall|k: int| 0 <= k < e.len() ==> !holds(#[trigger] e[k], x),
    ensures
        verified_since_hold(h + e, x),
{
    let k = choose|k: int|
        0 <= k < h.len() && #[trigger] h[k] == Effect::VerifyFirmware(x) && forall|j: int|
            k < j < h.len() ==> !holds(#[trigger] h[j], x);
    let he = h + e;
    assert(he[k] == Effect::VerifyFirmware(x));
    assert forall|j: int| k < j < he.len() implies !holds(#[trigger] he[j], x) by {
        if j < h.len() {
            assert(he[j] == h[j]);
        } else {
            assert(he[j] == e[j - h.len()]);
        }
    }
}

proof fn lemma_verified_fresh(h: Seq<Effect>, e: Seq<Effect>, y: ComponentId)
    requires
        e.len() > 0,
        e.last() == Effect::VerifyFirmware(y),
    ensures
        verified_since_hold(h + e, y),
{
    let he = h + e;
    let k = he.len() - 1;
    assert(he[k] == e.last());
}

proof fn lemma_gated_kept(w: RotView, w2: RotView, y: ComponentId)
    requires
        w.statuses.len() == w.chain.len(),
        keeps_isolation(w, w2),
        crate::machine_spec::gated(w, y),
    ensures
        crate::machine_spec::gated(w2, y),
{
    lemma_index_of(w.chain, y);
    let i = index_of(w.chain, y).unwrap();
    assert(is_isolated(w2.statuses[i]));
}

proof fn lemma_holds_only_gated_kept(e: Seq<Effect>, w: RotView, w2: RotView)
    requires
        w.statuses.len() == w.chain.len(),
        holds_only_gated(e, w),
        keeps_isolation(w, w2),
    ensures
        holds_only_gated(e, w2),
{
    assert forall|k: int| 0 <= k < e.len() implies (#[trigger] e[k] matches Effect::AssertReset(y)
        ==> crate::machine_spec::gated(w2, y)) && !(e[k] is RecoverComponent) by {
        if let Effect::AssertReset(y) = e[k] {
            lemma_gated_kept(w, w2, y);
        }
    }
}

proof fn lemma_holds_only_gated_concat(a: Seq<Effect>, b: Seq<Effect>, w: RotView)
    requires
        holds_only_gated(a, w),
        holds_only_gated(b, w),
    ensures
        holds_only_gated(a + b, w),
{
    assert forall|k: int| 0 <= k < (a + b).len() implies (#[trigger] (a + b)[k] matches Effect::AssertReset(y)
        ==> crate::machine_spec::gated(w, y)) && !((a + b)[k] is RecoverComponent) by {
        if k < a.len() {
            assert((a + b)[k] == a[k]);
        } else {
            assert((a + b)[k] == b[k - a.len()]);
        }
    }
}

proof fn lemma_no_hold_of_ungated(e: Seq<Effect>, w: RotView, x: ComponentId)
    requires
        holds_only_gated(e, w),
        !crate::machine_spec::gated(w, x),
    ensures
        forall|k: int| 0 <= k < e.len() ==> !holds(#[trigger] e[k], x),
{
    assert forall|k: int| 0 <= k < e.len() implies !holds(#[trigger] e[k], x) by {
        if let Effect::AssertReset(y) = e[k] {
            assert(crate::machine_spec::gated(w, y));
        }
    }
}

proof fn lemma_gate_one_holds(v: RotView, id: ComponentId)
    requires
        v.statuses.len() == v.chain.len(),
        v.cursor <= v.chain.len(),
        in_chain(v, id),
    ensures
        holds_only_gated(gate_one(v, id).1, gate_one(v, id).0),
        gate_one(v, id).0.cursor == v.cursor,
{
    lemma_index_of(v.chain, id);
    let (v1, e1) = gate_one(v, id);
    if !crate::machine_spec::gated(v, id) {
        assert(e1[0] == Effect::AssertReset(id));
        assert(crate::machine_spec::gated(v1, id));
        assert forall|k: int| 0 <= k < e1.len() implies (#[trigger] e1[k] matches Effect::AssertReset(y)
            ==> crate::machine_spec::gated(v1, y)) && !(e1[k] is RecoverComponent) by {
            if k == 1 {
                assert(e1[1] == Effect::ReportIsolated(id));
            }
        }
    }
}

proof fn lemma_gate_each_holds(v: RotView, ids: Seq<ComponentId>)
    requires
        v.statuses.len() == v.chain.len(),
        v.cursor <= v.chain.len(),
        forall|m: int| 0 <= m < ids.len() ==> in_chain(v, #[trigger] ids[m]),
    ensures
        holds_only_gated(gate_each(v, ids).1, gate_each(v, ids).0),
        gate_each(v, ids).0.cursor == v.cursor,
    decreases ids.len(),
{
    if ids.len() > 0 {
        let pre = ids.drop_last();
        assert forall|m: int| 0 <= m < pre.len() implies in_chain(v, #[trigger] pre[m]) by {
            assert(pre[m] == ids[m]);
        }
        lemma_gate_each_holds(v, pre);
        lemma_gate_each_safe(v, pre);
        let (v1, e1) = gate_each(v, pre);
        assert(in_chain(v, ids[ids.len() - 1]));
        lemma_gate_one_holds(v1, ids.last());
        lemma_gate_one_safe(v1, ids.last());
        let (v2, e2) = gate_one(v1, ids.last());
        lemma_holds_only_gated_kept(e1, v1, v2);
        lemma_holds_only_gated_concat(e1, e2, v2);
    }
}

proof fn lemma_cascade_levels_holds(
    v: RotView,
    level: Seq<ComponentId>,
    rounds: nat,
)
    requires
        v.statuses.len() == v.chain.len(),
        v.cursor <= v.chain.len(),
    ensures
        holds_only_gated(cascade_levels(v, v.chain, level, rounds).1, cascade_levels(v, v.chain, level, rounds).0),
        cascade_levels(v, v.chain, level, rounds).0.cursor == v.cursor,
    decreases rounds,
{
    if rounds > 0 {
        let next = next_level(v.chain, level);
        assert forall|m: int| 0 <= m < next.len() implies in_chain(v, #[trigger] next[m]) by {
            lemma_next_level_in_chain(v, level, m);
        }
        lemma_gate_each_holds(v, next);
        lemma_gate_each_safe(v, next);
        let (v1, e1) = gate_each(v, next);
        lemma_cascade_levels_holds(v1, next, (rounds - 1) as nat);
        lemma_cascade_levels_safe(v1, v.chain, next, (rounds - 1) as nat);
        let (v2, e2) = cascade_levels(v1, v.chain, next, (rounds - 1) as nat);
        lemma_holds_only_gated_kept(e1, v1, v2);
        lemma_holds_only_gated_concat(e1, e2, v2);
    }
}

proof fn lemma_cascade_holds(v: RotView, root: ComponentId)
    requires
        v.statuses.len() == v.chain.len(),
        v.cursor <= v.chain.len(),
        in_chain(v, root),
    ensures
        holds_only_gated(cascade(v, root).1, cascade(v, root).0),
        cascade(v, root).0.cursor == v.cursor,
{
    reveal(cascade);
    lemma_gate_one_holds(v, root);
    lemma_gate_one_safe(v, root);
    let (v1, e1) = gate_one(v, root);
    lemma_cascade_levels_holds(v1, seq![root], v.chain.len());
    lemma_cascade_levels_safe(v1, v.chain, seq![root], v.chain.len());
    let (v2, e2) = cascade_levels(v1, v.chain, seq![root], v.chain.len());
    lemma_holds_only_gated_kept(e1, v1, v2);
    lemma_holds_only_gated_concat(e1, e2, v2);
}

proof fn lemma_corruption_holds(v: RotView, id: ComponentId)
    requires
        v.statuses.len() == v.chain.len(),
        v.cursor <= v.chain.len(),
    ensures
        holds_only_gated(handle_corruption(v, id).1, handle_corruption(v, id).0),
        handle_corruption(v, id).0.cursor == v.cursor,
{
    lemma_index_of(v.chain, id);
    match attrs_of(v, id) {
        Some(a) => match a.failure_policy {
            FailurePolicy::Cascading => {
                lemma_cascade_holds(v, id);
            },
            FailurePolicy::Isolable => {
                lemma_gate_one_holds(v, id);
            },
            FailurePolicy::Required => {},
        },
        None => {},
    }
}

proof fn lemma_advance_verifies_cursor(v: RotView, start: int)
    requires
        v.cursor <= v.chain.len(),
        0 <= start,
    ensures
        ends_verifying_cursor(advance(v, start).1, advance(v, start).0),
        advance(v, start).0.chain == v.chain,
        advance(v, start).0.statuses == v.statuses,
{
    if has_ungated_from(v, start) {
        let j = choose|j: int| start <= j < v.chain.len() && !is_isolated(#[trigger] v.statuses[j]);
        lemma_first_ungated(v, start, j);
    }
}

proof fn lemma_ends_after(a: Seq<Effect>, b: Seq<Effect>, w: RotView)
    requires
        ends_verifying_cursor(b, w),
    ensures
        ends_verifying_cursor(a + b, w),
{
    if let Some(y) = at_cursor(w) {
        assert((a + b).last() == b.last());
    }
}

/// The component under verification after a step, in a walking state, was
/// either just asked to be verified, or is the one before the step with
/// only isolated components held on the way.
#[verifier::spinoff_prover]
#[verifier::rlimit(100)]
proof fn lemma_walk_step_shape(v: RotView, s: State, ev: Event, cap: nat)
    requires
        rot_wf(v, cap),
    ensures
        ({
            let (v2, s2, e) = step(v, s, ev);
            ||| !(s2 == State::PreSupervision || s2 is AwaitingReady)
            ||| ends_verifying_cursor(e, v2)
            ||| (s == State::PreSupervision || s is AwaitingReady) && at_cursor(v2) == at_cursor(v) && holds_only_gated(e, v2)
        }),
{
    reveal(step);
    reveal(handler_shape_ok);
    let (v2, s2, e) = step(v, s, ev);
    if event_component(ev) is Some && !in_chain(v, event_component(ev).unwrap()) {
        if s == State::PreSupervision || s is AwaitingReady {
            assert(holds_only_gated(e, v2));
        }
    } else {
        let (v1, e1, o1) = handle(v, s, ev);
        let sup = o1 is Super && is_supervised(s);
        let (vs, es, o2) = if sup {
            handle_supervising(v1, ev)
        } else {
            (v1, seq![], o1)
        };
        match o2 {
            Outcome::Transition(State::PreSupervision) => {
                lemma_handle_safe(v, s, ev);
                if sup {
                    lemma_handle_supervising_safe(v1, ev);
                }
                let (vq, eq) = quiesce(vs);
                lemma_advance_verifies_cursor(vq, 0);
                let (va, ea, found) = advance(vq, 0);
                assert(entry(vs, State::PreSupervision) == (va, eq + ea));
                assert(step(v, s, ev) == (va, State::PreSupervision, e1 + es + (eq + ea)));
                assert(e1 + es + (eq + ea) =~= e1 + es + eq + ea);
                lemma_ends_after(e1 + es + eq, ea, va);
            },
            Outcome::Transition(t) => {
                if s == State::PreSupervision || s is AwaitingReady {
                    lemma_walk_handler_shape(v, s, ev, cap);
                    let (v3, e3) = entry(vs, t);
                    assert(step(v, s, ev) == (v3, t, e1 + es + e3));
                }
            },
            _ => {
                if s == State::PreSupervision || s is AwaitingReady {
                    lemma_walk_handler_shape(v, s, ev, cap);
                    assert(step(v, s, ev) == (vs, s, e1 + es));
                    assert(e1 + es + seq![] =~= e1 + es);
                }
            },
        }
    }
}

/// The same, for a step of a walking state that does not re-enter
/// `PreSupervision`.
/// After a step of a walking state that does not re-enter
/// `PreSupervision`, the walk is over, or the component under verification
/// was just asked to be verified, or it is the one before with only
/// isolated components held on the way.
#[verifier::opaque]
spec fn handler_shape_ok(v: RotView, s: State, ev: Event) -> bool {
    let (v1, e1, o1) = handle(v, s, ev);
    let sup = o1 is Super && is_supervised(s);
    let (vs, es, o2) = if sup {
        handle_supervising(v1, ev)
    } else {
        (v1, seq![], o1)
    };
    o2 != Outcome::Transition(State::PreSupervision) ==> {
        let (v3, e3) = match o2 {
            Outcome::Transition(t) => entry(vs, t),
            _ => (vs, seq![]),
        };
        let s3 = match o2 {
            Outcome::Transition(t) => t,
            _ => s,
        };
        ||| !(s3 == State::PreSupervision || s3 is AwaitingReady)
        ||| ends_verifying_cursor(e1 + es + e3, v3)
        ||| at_cursor(v3) == at_cursor(v) && holds_only_gated(e1 + es + e3, v3)
    }
}

proof fn lemma_walk_handler_shape(v: RotView, s: State, ev: Event, cap: nat)
    requires
        rot_wf(v, cap),
        s == State::PreSupervision || s is AwaitingReady,
        !(event_component(ev) is Some && !in_chain(v, event_component(ev).unwrap())),
    ensures
        handler_shape_ok(v, s, ev),
{
    match ev {
        Event::VerificationPassed(id) => lemma_walk_shape_verified(v, s, ev, id, cap),
        Event::CorruptionDetected(id) => lemma_walk_shape_corruption(v, s, ev, id, cap),
        _ => lemma_walk_shape_other(v, s, ev, cap),
    }
}

proof fn lemma_walk_shape_verified(v: RotView, s: State, ev: Event, id: ComponentId, cap: nat)
    requires
        rot_wf(v, cap),
        s == State::PreSupervision || s is AwaitingReady,
        !(event_component(ev) is Some && !in_chain(v, event_component(ev).unwrap())),
        ev == Event::VerificationPassed(id),
    ensures
        handler_shape_ok(v, s, ev),
{
    if s == State::PreSupervision {
        lemma_walk_shape_verified_pre(v, s, ev, id, cap);
    } else {
        lemma_walk_shape_verified_ar(v, s, ev, id, cap);
    }
}

#[verifier::spinoff_prover]
#[verifier::rlimit(100)]
proof fn lemma_walk_shape_verified_pre(v: RotView, s: State, ev: Event, id: ComponentId, cap: nat)
    requires
        rot_wf(v, cap),
        s == State::PreSupervision,
        !(event_component(ev) is Some && !in_chain(v, event_component(ev).unwrap())),
        ev == Event::VerificationPassed(id),
    ensures
        handler_shape_ok(v, s, ev),
{
    reveal(handler_shape_ok);
    lemma_verification_passed_shape(v, s, id);
    let z = Seq::<Effect>::empty();
    let (v1, e1, o1) = handle(v, s, ev);
    assert(e1 + z + z =~= e1);
    if at_cursor(v) != Some(id) {
        assert((v1, e1, o1) == (v, z, Outcome::Handled));
        assert(holds_only_gated(e1 + z + z, v1));
    } else if crate::machine_spec::gated(v, id) {
        assert((v1, e1, o1) == crate::machine_spec::skip_gated(v));
    } else {
        let (va, ea, kind, found) = release_and_advance(v, id);
        assert(v1 == va && e1 == ea);
        if found && kind == ComponentKind::Active {
            assert(o1 == Outcome::Transition(State::AwaitingReady(Some(id))));
            assert(entry(v1, State::AwaitingReady(Some(id))) == (v1, z));
        } else if found {
            assert(o1 == Outcome::Handled);
        } else {
            assert(o1 == Outcome::Transition(State::Ready));
        }
    }
}

#[verifier::spinoff_prover]
#[verifier::rlimit(100)]
proof fn lemma_walk_shape_verified_ar(v: RotView, s: State, ev: Event, id: ComponentId, cap: nat)
    requires
        rot_wf(v, cap),
        s is AwaitingReady,
        !(event_component(ev) is Some && !in_chain(v, event_component(ev).unwrap())),
        ev == Event::VerificationPassed(id),
    ensures
        handler_shape_ok(v, s, ev),
{
    reveal(handler_shape_ok);
    let (v1, e1, o1) = handle(v, s, ev);
    lemma_verification_passed_shape(v, s, id);
    let z = Seq::<Effect>::empty();
    assert(e1 + z + z =~= e1);
    assert(!(o1 is Super));
    if !ends_verifying_cursor(e1, v1) {
        assert(v1 == v && e1.len() == 0);
        assert(holds_only_gated(e1 + z + z, v1));
    }
    let sup = o1 is Super && is_supervised(s);
    assert(!sup);
    let (vs, es, o2) = (v1, z, o1);
    let (v3, e3) = match o2 {
        Outcome::Transition(t) => entry(vs, t),
        _ => (vs, z),
    };
    let s3 = match o2 {
        Outcome::Transition(t) => t,
        _ => s,
    };
    match o1 {
        Outcome::Transition(t) => {
            if t is AwaitingReady {
                assert(entry(v1, t) == (v1, z));
                assert(v3 == v1 && e3 == z);
            }
        },
        _ => {
            assert(v3 == v1 && e3 == z);
        },
    }
    assert(!(s3 == State::PreSupervision || s3 is AwaitingReady) || ends_verifying_cursor(e1 + es + e3, v3) || (
    at_cursor(v3) == at_cursor(v) && holds_only_gated(e1 + es + e3, v3)));
}

#[verifier::spinoff_prover]
#[verifier::rlimit(60)]
proof fn lemma_walk_shape_corruption(v: RotView, s: State, ev: Event, id: ComponentId, cap: nat)
    requires
        rot_wf(v, cap),
        s == State::PreSupervision || s is AwaitingReady,
        !(event_component(ev) is Some && !in_chain(v, event_component(ev).unwrap())),
        ev == Event::CorruptionDetected(id),
    ensures
        handler_shape_ok(v, s, ev),
{
    reveal(handler_shape_ok);
    let (v1, e1, o1) = handle(v, s, ev);
    if s == State::PreSupervision {
        lemma_corruption_holds(v, id);
        lemma_corruption_safe(v, id);
        assert(e1 + seq![] + seq![] =~= e1);
    } else {
        lemma_corruption_holds(v1, id);
        lemma_corruption_safe(v1, id);
        let (vs, es, o2) = handle_supervising(v1, ev);
        assert(e1 + es + seq![] =~= es);
    }
}

#[verifier::spinoff_prover]
#[verifier::rlimit(100)]
proof fn lemma_walk_shape_other(v: RotView, s: State, ev: Event, cap: nat)
    requires
        rot_wf(v, cap),
        s == State::PreSupervision || s is AwaitingReady,
        !(event_component(ev) is Some && !in_chain(v, event_component(ev).unwrap())),
        !(ev is VerificationPassed),
        !(ev is CorruptionDetected),
    ensures
        handler_shape_ok(v, s, ev),
{
    reveal(handler_shape_ok);
    let (v1, e1, o1) = handle(v, s, ev);
    let sup = o1 is Super && is_supervised(s);
    let (vs, es, o2) = if sup {
        handle_supervising(v1, ev)
    } else {
        (v1, seq![], o1)
    };
    assert(holds_only_gated(e1 + es + seq![], vs));
}

proof fn lemma_verification_passed_shape(v: RotView, s: State, id: ComponentId)
    requires
        v.statuses.len() == v.chain.len(),
        v.cursor <= v.chain.len(),
        s == State::PreSupervision || s is AwaitingReady,
    ensures
        ({
            let (v1, e1, o1) = handle(v, s, Event::VerificationPassed(id));
            &&& !(o1 is Super)
            &&& o1 is Transition ==> (o1 == Outcome::Transition(State::Ready) || o1->0 is AwaitingReady)
            &&& (ends_verifying_cursor(e1, v1) || (v1 == v && e1.len() == 0))
        }),
{
    if at_cursor(v) == Some(id) && crate::machine_spec::gated(v, id) {
        lemma_advance_verifies_cursor(v, v.cursor + 1int);
    } else if at_cursor(v) == Some(id) {
        lemma_update_keeps(v, id, |s: ComponentStatus| retry_cleared(s));
        let w1 = update_status(v, id, |s: ComponentStatus| retry_cleared(s));
        lemma_update_keeps(w1, id, |s: ComponentStatus| release(s));
        let w2 = update_status(w1, id, |s: ComponentStatus| release(s));
        lemma_advance_verifies_cursor(w2, v.cursor + 1int);
        let (va, ea, found) = advance(w2, v.cursor + 1int);
        lemma_ends_after(seq![Effect::ReleaseReset(id)], ea, va);
        assert(release_and_advance(v, id).0 == va);
        assert(release_and_advance(v, id).1 == seq![Effect::ReleaseReset(id)] + ea);
    }
}

/// Verify before release, one step at a time: while the walk runs, the
/// component under verification, unless isolated, was verified since its
/// last hold, and every step keeps it so, whatever the event.
pub proof fn lemma_walk_stays_verified(v: RotView, s: State, ev: Event, hist: Seq<Effect>, cap: nat)
    requires
        rot_wf(v, cap),
        walk_verified(v, s, hist),
    ensures
        walk_verified(step(v, s, ev).0, step(v, s, ev).1, hist + step(v, s, ev).2),
{
    let (v2, s2, e) = step(v, s, ev);
    lemma_walk_step_shape(v, s, ev, cap);
    lemma_step_safe(v, s, ev);
    if s2 == State::PreSupervision || s2 is AwaitingReady {
        if let Some(x) = at_cursor(v2) {
            if !crate::machine_spec::gated(v2, x) {
                if ends_verifying_cursor(e, v2) {
                    lemma_verified_fresh(hist, e, x);
                } else {
                    if crate::machine_spec::gated(v, x) {
                        lemma_gated_kept(v, v2, x);
                    }
                    lemma_no_hold_of_ungated(e, v2, x);
                    lemma_verified_kept(hist, e, x);
                }
            }
        }
    }
}

/// A step asks for at most one release, and asks for it first.
proof fn lemma_release_leads(v: RotView, s: State, ev: Event, cap: nat)
    requires
        rot_wf(v, cap),
    ensures
        forall|k: int| 0 < k < step(v, s, ev).2.len() ==> !(#[trigger] step(v, s, ev).2[k] is ReleaseReset),
{
    reveal(step);
    lemma_step_safe(v, s, ev);
    let e = step(v, s, ev).2;
    if ev is VerificationPassed && (s == State::PreSupervision || s is AwaitingReady) && at_cursor(v) == Some(
        ev->VerificationPassed_0,
    ) && !crate::machine_spec::gated(v, ev->VerificationPassed_0) {
        let id = ev->VerificationPassed_0;
        lemma_release_and_advance_safe(v, id);
        let (v1, e1, kind, found) = release_and_advance(v, id);
        let (h1, he, ho) = handle(v, s, ev);
        assert(he == e1);
        match ho {
            Outcome::Transition(t) => {
                assert(entry(h1, t).1 == Seq::<Effect>::empty());
                assert(e == e1 + Seq::<Effect>::empty() + Seq::<Effect>::empty());
            },
            _ => {
                assert(e == e1 + Seq::<Effect>::empty());
            },
        }
        assert forall|k: int| 0 < k < e.len() implies !(#[trigger] e[k] is ReleaseReset) by {
            assert(e[k] == e1.drop_first()[k - 1]);
        }
    } else {
        assert forall|k: int| 0 < k < e.len() implies !(#[trigger] e[k] is ReleaseReset) by {
            if e[k] is ReleaseReset {
                let x = e[k]->ReleaseReset_0;
                assert(e[k] matches Effect::ReleaseReset(x));
            }
        }
    }
}

/// The storage, the state, and every effect asked for, in order, when the
/// events `evs` are reduced one after another.
pub open spec fn run_trace(v: RotView, s: State, evs: Seq<Event>) -> (RotView, State, Seq<Effect>)
    decreases evs.len(),
{
    if evs.len() == 0 {
        (v, s, seq![])
    } else {
        let (v1, s1, h) = run_trace(v, s, evs.drop_last());
        let (v2, s2, e) = step(v1, s1, evs.last());
        (v2, s2, h + e)
    }
}

/// Every release in `h` comes after a verification of the released
/// component with no hold of it in between.
pub open spec fn releases_verified(h: Seq<Effect>) -> bool {
    forall|k: int|
        0 <= k < h.len() ==> (#[trigger] h[k] matches Effect::ReleaseReset(x) ==> verified_since_hold(h.take(k), x))
}

proof fn lemma_trace_keeps(v: RotView, s: State, evs: Seq<Event>, cap: nat)
    requires
        rot_wf(v, cap),
        walk_verified(v, s, Seq::<Effect>::empty()),
    ensures
        rot_wf(run_trace(v, s, evs).0, cap),
        walk_verified(run_trace(v, s, evs).0, run_trace(v, s, evs).1, run_trace(v, s, evs).2),
        releases_verified(run_trace(v, s, evs).2),
    decreases evs.len(),
{
    if evs.len() > 0 {
        lemma_trace_keeps(v, s, evs.drop_last(), cap);
        let (v1, s1, h) = run_trace(v, s, evs.drop_last());
        let ev = evs.last();
        let (v2, s2, e) = step(v1, s1, ev);
        lemma_step_safe(v1, s1, ev);
        lemma_walk_stays_verified(v1, s1, ev, h, cap);
        lemma_release_leads(v1, s1, ev, cap);
        let h2 = h + e;
        assert forall|k: int| 0 <= k < h2.len() implies (#[trigger] h2[k] matches Effect::ReleaseReset(x)
            ==> verified_since_hold(h2.take(k), x)) by {
            if k < h.len() {
                assert(h2[k] == h[k]);
                assert(h2.take(k) =~= h.take(k));
            } else if let Effect::ReleaseReset(x) = h2[k] {
                let j = k - h.len();
                assert(h2[k] == e[j]);
                assert(j == 0);
                assert(e[0] matches Effect::ReleaseReset(x));
                assert(h2.take(k) =~= h);
            }
        }
    }
}

/// Verify before release, over a whole history: from power-on, whatever
/// events arrive and in whatever order, a component is released only after
/// a verification of it that no hold of it (a reset asserted or a recovery
/// started) has followed.
pub proof fn lemma_verify_before_release(v: RotView, evs: Seq<Event>, cap: nat)
    requires
        rot_wf(v, cap),
    ensures
        releases_verified(run_trace(v, State::PowerOnReset, evs).2),
{
    lemma_trace_keeps(v, State::PowerOnReset, evs, cap);
}

/// Verify before release, for one call of the leaf handler: from power-on,
/// after any events, every release the handler asks for names a component
/// that is not isolated and that was verified since its last hold (a reset
/// asserted or a recovery started) in the effects asked for so far.
pub proof fn lemma_handler_releases_only_verified(v: RotView, evs: Seq<Event>, ev: Event, cap: nat)
    requires
        rot_wf(v, cap),
    ensures
        ({
            let (w, s, hist) = run_trace(v, State::PowerOnReset, evs);
            forall|k: int|
                0 <= k < handle(w, s, ev).1.len() ==> (#[trigger] handle(w, s, ev).1[k] matches Effect::ReleaseReset(x)
                    ==> !crate::machine_spec::gated(w, x) && verified_since_hold(hist, x))
        }),
{
    lemma_trace_keeps(v, State::PowerOnReset, evs, cap);
    let (w, s, hist) = run_trace(v, State::PowerOnReset, evs);
    lemma_handle_safe(w, s, ev);
    let e = handle(w, s, ev).1;
    assert forall|k: int| 0 <= k < e.len() implies (#[trigger] e[k] matches Effect::ReleaseReset(x)
        ==> !crate::machine_spec::gated(w, x) && verified_since_hold(hist, x)) by {
        if let Effect::ReleaseReset(x) = e[k] {
            assert(at_cursor(w) == Some(x));
        }
    }
}

// ---------------------------------------------------------------------------
// Commit or lock, over the history of events
// ---------------------------------------------------------------------------

/// The state a step enters, if its handlers ask for a transition; `None`
/// for an event that names an id outside the chain, or one handled in place.
pub open spec fn step_target(v: RotView, s: State, ev: Event) -> Option<State> {
    if event_component(ev) is Some && !in_chain(v, event_component(ev).unwrap()) {
        None
    } else {
        let (v1, e1, o1) = handle(v, s, ev);
        let o2 = if o1 is Super && is_supervised(s) {
            handle_supervising(v1, ev).2
        } else {
            o1
        };
        match o2 {
            Outcome::Transition(t) => Some(t),
            _ => None,
        }
    }
}

/// Whether a commit is owed after one step from `(v, s)` on `ev`, given
/// whether it was owed before: a verified update makes it owed; a boot
/// confirmation in `Ready`, or entering `Updating` or `Recovering`, settles
/// it; an event naming an id outside the chain, or any other step, leaves it.
pub open spec fn owed_after(v: RotView, s: State, ev: Event, before: bool) -> bool {
    if event_component(ev) is Some && !in_chain(v, event_component(ev).unwrap()) {
        before
    } else if s == State::Updating && ev == Event::UpdateVerified {
        true
    } else if s == State::Ready && ev is BootConfirmed {
        false
    } else {
        match step_target(v, s, ev) {
            Some(t) => if t == State::Updating || t is Recovering {
                false
            } else {
                before
            },
            None => before,
        }
    }
}

/// Whether, after the events `evs` from power-on with the chain `chain`, a
/// verified update is activated and its commit still owed: some step in
/// `Updating` took `UpdateVerified`, and since then no step in `Ready` took a
/// boot confirmation and no step entered `Updating` or `Recovering`.
pub open spec fn commit_owed(chain: Seq<(ComponentId, ComponentAttrs)>, max_retry: u8, evs: Seq<Event>) -> bool
    decreases evs.len(),
{
    if evs.len() == 0 {
        false
    } else {
        let (v, s) = run_steps(initial_rot(chain, max_retry), State::PowerOnReset, evs.drop_last());
        owed_after(v, s, evs.last(), commit_owed(chain, max_retry, evs.drop_last()))
    }
}

proof fn lemma_gate_each_commit(v: RotView, ids: Seq<ComponentId>)
    ensures
        gate_each(v, ids).0.pending_commit == v.pending_commit,
    decreases ids.len(),
{
    if ids.len() > 0 {
        lemma_gate_each_commit(v, ids.drop_last());
    }
}

proof fn lemma_cascade_levels_commit(
    v: RotView,
    chain: Seq<(ComponentId, ComponentAttrs)>,
    level: Seq<ComponentId>,
    rounds: nat,
)
    ensures
        cascade_levels(v, chain, level, rounds).0.pending_commit == v.pending_commit,
    decreases rounds,
{
    if rounds > 0 {
        let next = next_level(chain, level);
        lemma_gate_each_commit(v, next);
        lemma_cascade_levels_commit(gate_each(v, next).0, chain, next, (rounds - 1) as nat);
    }
}

proof fn lemma_gate_by_policy_commit(v: RotView, id: ComponentId)
    ensures
        gate_by_policy(v, id).0.pending_commit == v.pending_commit,
{
    reveal(cascade);
    lemma_cascade_levels_commit(gate_one(v, id).0, v.chain, seq![id], v.chain.len());
}

proof fn lemma_update_commit(v: RotView, id: ComponentId, f: spec_fn(ComponentStatus) -> ComponentStatus)
    ensures
        update_status(v, id, f).pending_commit == v.pending_commit,
        update_status(v, id, f).max_retry == v.max_retry,
{
}

proof fn lemma_advance_commit(v: RotView, start: int)
    ensures
        advance(v, start).0.pending_commit == v.pending_commit,
{
}

#[verifier::spinoff_prover]
#[verifier::rlimit(40)]
proof fn lemma_handle_commit(v: RotView, s: State, ev: Event)
    ensures
        handle(v, s, ev).0.pending_commit == if s == State::Updating && ev == Event::UpdateVerified {
            true
        } else if s == State::Ready && ev is BootConfirmed {
            false
        } else {
            v.pending_commit
        },
{
    match s {
        State::PreSupervision | State::AwaitingReady(_) => match ev {
            Event::VerificationPassed(id) => {
                lemma_advance_commit(v, v.cursor + 1int);
                let v1 = update_status(v, id, |s: ComponentStatus| retry_cleared(s));
                let v2 = update_status(v1, id, |s: ComponentStatus| release(s));
                lemma_update_commit(v, id, |s: ComponentStatus| retry_cleared(s));
                lemma_update_commit(v1, id, |s: ComponentStatus| release(s));
                lemma_advance_commit(v2, v.cursor + 1int);
            },
            Event::CorruptionDetected(id) => lemma_gate_by_policy_commit(v, id),
            Event::Booted(id) => lemma_update_commit(v, id, |s: ComponentStatus| reported_in(s)),
            Event::ComponentReady(id) => lemma_update_commit(v, id, |s: ComponentStatus| reported_in(s)),
            _ => {},
        },
        State::Updating => match ev {
            Event::CorruptionDetected(id) => lemma_gate_by_policy_commit(v, id),
            _ => {},
        },
        State::Recovering(failed) => match ev {
            Event::Restored(id) => {
                let w1 = update_status(v, failed, |s: ComponentStatus| retry_bumped(s));
                lemma_update_commit(v, failed, |s: ComponentStatus| retry_bumped(s));
                lemma_gate_by_policy_commit(w1, failed);
                let w2 = gate_by_policy(w1, failed).0;
                lemma_update_commit(w2, failed, |s: ComponentStatus| retry_cleared(s));
            },
            _ => {},
        },
        _ => {},
    }
}

proof fn lemma_handle_supervising_commit(v: RotView, ev: Event)
    ensures
        handle_supervising(v, ev).0.pending_commit == v.pending_commit,
{
    match ev {
        Event::CorruptionDetected(id) => lemma_gate_by_policy_commit(v, id),
        Event::Booted(id) => lemma_update_commit(v, id, |s: ComponentStatus| reported_in(s)),
        Event::ComponentReady(id) => lemma_update_commit(v, id, |s: ComponentStatus| reported_in(s)),
        _ => {},
    }
}

proof fn lemma_entry_commit(v: RotView, t: State)
    ensures
        entry(v, t).0.pending_commit == if t == State::Updating || t is Recovering {
            false
        } else {
            v.pending_commit
        },
{
    match t {
        State::PreSupervision => {
            lemma_advance_commit(quiesce(v).0, 0);
        },
        State::Recovering(failed) => {
            let v0 = RotView { pending_commit: false, ..v };
            lemma_update_commit(v0, failed, |s: ComponentStatus| reported_in(s));
            let v1 = update_status(v0, failed, |s: ComponentStatus| reported_in(s));
            lemma_update_commit(v1, failed, |s: ComponentStatus| held(s));
        },
        _ => {},
    }
}

#[verifier::spinoff_prover]
proof fn lemma_step_commit(v: RotView, s: State, ev: Event)
    ensures
        step(v, s, ev).0.pending_commit == owed_after(v, s, ev, v.pending_commit),
{
    reveal(step);
    if !(event_component(ev) is Some && !in_chain(v, event_component(ev).unwrap())) {
        let (v1, e1, o1) = handle(v, s, ev);
        lemma_handle_commit(v, s, ev);
        let sup = o1 is Super && is_supervised(s);
        let (v2, e2, o2) = if sup {
            handle_supervising(v1, ev)
        } else {
            (v1, seq![], o1)
        };
        if sup {
            lemma_handle_supervising_commit(v1, ev);
        }
        assert(step_target(v, s, ev) == match o2 {
            Outcome::Transition(t) => Some(t),
            _ => None,
        });
        match o2 {
            Outcome::Transition(t) => {
                lemma_entry_commit(v2, t);
                assert(step(v, s, ev).0 == entry(v2, t).0);
            },
            _ => {
                assert(step(v, s, ev).0 == v2);
            },
        }
        if s == State::Updating && ev == Event::UpdateVerified {
            assert(o2 == Outcome::Transition(State::Ready));
        }
        if s == State::Ready && ev is BootConfirmed {
            assert(o2 == Outcome::Handled);
        }
    }
}

proof fn lemma_commit_tracks(chain: Seq<(ComponentId, ComponentAttrs)>, max_retry: u8, evs: Seq<Event>)
    ensures
        run_steps(initial_rot(chain, max_retry), State::PowerOnReset, evs).0.pending_commit == commit_owed(
            chain,
            max_retry,
            evs,
        ),
    decreases evs.len(),
{
    if evs.len() > 0 {
        lemma_commit_tracks(chain, max_retry, evs.drop_last());
        let (v, s) = run_steps(initial_rot(chain, max_retry), State::PowerOnReset, evs.drop_last());
        lemma_step_commit(v, s, evs.last());
    }
}

/// Commit or lock, over a whole history: from power-on, after any events, a
/// commit timeout in `Ready` locks the platform exactly when a verified
/// update was activated and its commit is still owed; otherwise the stale
/// timeout is dropped. Either way the handler asks for no effect, so no
/// floor is committed for an unconfirmed image; the only effect of the step
/// is the latch of the lockdown it enters.
pub proof fn lemma_commit_or_lock_over_history(chain: Seq<(ComponentId, ComponentAttrs)>, max_retry: u8, evs: Seq<Event>)
    ensures
        ({
            let (v, s) = run_steps(initial_rot(chain, max_retry), State::PowerOnReset, evs);
            let owed = commit_owed(chain, max_retry, evs);
            &&& handle(v, State::Ready, Event::CommitTimeout) == (v, Seq::<Effect>::empty(), if owed {
                Outcome::Transition(State::Locked)
            } else {
                Outcome::Handled
            })
            &&& step(v, State::Ready, Event::CommitTimeout) == if owed {
                (v, State::Locked, seq![Effect::LatchLockdown])
            } else {
                (v, State::Ready, Seq::<Effect>::empty())
            }
        }),
{
    lemma_commit_tracks(chain, max_retry, evs);
    let (v, s) = run_steps(initial_rot(chain, max_retry), State::PowerOnReset, evs);
    lemma_ready_timeout(v);
}

proof fn lemma_ready_timeout(v: RotView)
    ensures
        handle(v, State::Ready, Event::CommitTimeout) == (v, Seq::<Effect>::empty(), if v.pending_commit {
            Outcome::Transition(State::Locked)
        } else {
            Outcome::Handled
        }),
        step(v, State::Ready, Event::CommitTimeout) == if v.pending_commit {
            (v, State::Locked, seq![Effect::LatchLockdown])
        } else {
            (v, State::Ready, Seq::<Effect>::empty())
        },
{
    reveal(step);
    assert(Seq::<Effect>::empty() + Seq::<Effect>::empty() + seq![Effect::LatchLockdown] =~= seq![Effect::LatchLockdown]);
    assert(Seq::<Effect>::empty() + Seq::<Effect>::empty() =~= Seq::<Effect>::empty());
}

// ---------------------------------------------------------------------------
// The lockdown latch is handed on at most once per run
// ---------------------------------------------------------------------------

/// No effect of the list latches the lockdown.
pub open spec fn latches_none(e: Seq<Effect>) -> bool {
    forall|k: int| 0 <= k < e.len() ==> !(#[trigger] e[k] is LatchLockdown)
}

/// The list latches the lockdown at most once.
pub open spec fn latches_at_most_once(e: Seq<Effect>) -> bool {
    forall|i: int, j: int|
        0 <= i < j < e.len() ==> !(#[trigger] e[i] is LatchLockdown && #[trigger] e[j] is LatchLockdown)
}

/// A latch of the lockdown, if any, is the last effect of the list.
spec fn latch_only_last(e: Seq<Effect>) -> bool {
    forall|k: int| 0 <= k < e.len() && #[trigger] e[k] is LatchLockdown ==> k == e.len() - 1
}

proof fn lemma_latches_none_concat(a: Seq<Effect>, b: Seq<Effect>)
    requires
        latches_none(a),
        latches_none(b),
    ensures
        latches_none(a + b),
{
    assert forall|k: int| 0 <= k < (a + b).len() implies !(#[trigger] (a + b)[k] is LatchLockdown) by {
        if k < a.len() {
            assert((a + b)[k] == a[k]);
        } else {
            assert((a + b)[k] == b[k - a.len()]);
        }
    }
}

proof fn lemma_gate_each_no_latch(v: RotView, ids: Seq<ComponentId>)
    ensures
        latches_none(gate_each(v, ids).1),
    decreases ids.len(),
{
    if ids.len() > 0 {
        lemma_gate_each_no_latch(v, ids.drop_last());
        let (v1, e1) = gate_each(v, ids.drop_last());
        lemma_latches_none_concat(e1, gate_one(v1, ids.last()).1);
    }
}

proof fn lemma_cascade_levels_no_latch(
    v: RotView,
    chain: Seq<(ComponentId, ComponentAttrs)>,
    level: Seq<ComponentId>,
    rounds: nat,
)
    ensures
        latches_none(cascade_levels(v, chain, level, rounds).1),
    decreases rounds,
{
    if rounds > 0 {
        let next = next_level(chain, level);
        lemma_gate_each_no_latch(v, next);
        let (v1, e1) = gate_each(v, next);
        lemma_cascade_levels_no_latch(v1, chain, next, (rounds - 1) as nat);
        lemma_latches_none_concat(e1, cascade_levels(v1, chain, next, (rounds - 1) as nat).1);
    }
}

proof fn lemma_gate_by_policy_no_latch(v: RotView, id: ComponentId)
    ensures
        latches_none(gate_by_policy(v, id).1),
{
    reveal(cascade);
    let (v1, e1) = gate_one(v, id);
    lemma_cascade_levels_no_latch(v1, v.chain, seq![id], v.chain.len());
    lemma_latches_none_concat(e1, cascade_levels(v1, v.chain, seq![id], v.chain.len()).1);
}

proof fn lemma_quiesce_no_latch(chain: Seq<(ComponentId, ComponentAttrs)>, statuses: Seq<ComponentStatus>, n: nat)
    ensures
        latches_none(quiesce_effects(chain, statuses, n)),
    decreases n,
{
    if n > 0 {
        lemma_quiesce_no_latch(chain, statuses, (n - 1) as nat);
        let tail = if statuses[n - 1].released {
            seq![Effect::AssertReset(chain[n - 1].0)]
        } else {
            seq![]
        };
        lemma_latches_none_concat(quiesce_effects(chain, statuses, (n - 1) as nat), tail);
    }
}

#[verifier::spinoff_prover]
#[verifier::rlimit(40)]
proof fn lemma_handle_no_latch(v: RotView, s: State, ev: Event)
    ensures
        latches_none(handle(v, s, ev).1),
{
    match s {
        State::PreSupervision | State::AwaitingReady(_) => match ev {
            Event::VerificationPassed(id) => {
                let v1 = update_status(v, id, |s: ComponentStatus| retry_cleared(s));
                let v2 = update_status(v1, id, |s: ComponentStatus| release(s));
                lemma_latches_none_concat(seq![Effect::ReleaseReset(id)], advance(v2, v.cursor + 1int).1);
            },
            Event::CorruptionDetected(id) => lemma_gate_by_policy_no_latch(v, id),
            _ => {},
        },
        State::Updating => match ev {
            Event::CorruptionDetected(id) => {
                lemma_gate_by_policy_no_latch(v, id);
                lemma_latches_none_concat(
                    handle_corruption(v, id).1,
                    seq![Effect::DiscardStaged, Effect::ReportUpdateAborted],
                );
            },
            _ => {},
        },
        State::Recovering(failed) => match ev {
            Event::Restored(id) => {
                let w1 = update_status(v, failed, |s: ComponentStatus| retry_bumped(s));
                lemma_gate_by_policy_no_latch(w1, failed);
                lemma_latches_none_concat(
                    gate_by_policy(w1, failed).1,
                    seq![Effect::ReportRecoveryFailed(failed), Effect::Emit(Event::RecoveryFailed)],
                );
            },
            _ => {},
        },
        _ => {},
    }
}

proof fn lemma_handle_supervising_no_latch(v: RotView, ev: Event)
    ensures
        latches_none(handle_supervising(v, ev).1),
{
    if let Event::CorruptionDetected(id) = ev {
        lemma_gate_by_policy_no_latch(v, id);
    }
}

proof fn lemma_entry_latch(v: RotView, t: State)
    ensures
        t == State::Locked ==> entry(v, t).1 == seq![Effect::LatchLockdown],
        t != State::Locked ==> latches_none(entry(v, t).1),
{
    if t == State::PreSupervision {
        let (vq, eq) = quiesce(v);
        lemma_quiesce_no_latch(v.chain, v.statuses, v.chain.len());
        lemma_latches_none_concat(eq, advance(vq, 0).1);
    }
}

/// A step latches the lockdown at most once, as its last effect, and only
/// when it ends in `Locked`.
proof fn lemma_step_latch(v: RotView, s: State, ev: Event)
    ensures
        latch_only_last(step(v, s, ev).2),
        !latches_none(step(v, s, ev).2) ==> step(v, s, ev).1 == State::Locked,
{
    reveal(step);
    if !(event_component(ev) is Some && !in_chain(v, event_component(ev).unwrap())) {
        let (v1, e1, o1) = handle(v, s, ev);
        lemma_handle_no_latch(v, s, ev);
        let sup = o1 is Super && is_supervised(s);
        let (v2, e2, o2) = if sup {
            handle_supervising(v1, ev)
        } else {
            (v1, seq![], o1)
        };
        if sup {
            lemma_handle_supervising_no_latch(v1, ev);
        }
        lemma_latches_none_concat(e1, e2);
        let e = step(v, s, ev).2;
        match o2 {
            Outcome::Transition(t) => {
                lemma_entry_latch(v2, t);
                let e3 = entry(v2, t).1;
                assert(e == e1 + e2 + e3);
                if t == State::Locked {
                    assert forall|k: int| 0 <= k < e.len() && #[trigger] e[k] is LatchLockdown implies k == e.len() - 1 by {
                        if k < (e1 + e2).len() {
                            assert(e[k] == (e1 + e2)[k]);
                        }
                    }
                } else {
                    lemma_latches_none_concat(e1 + e2, e3);
                }
            },
            _ => {
                assert(e == e1 + e2);
            },
        }
    }
}

/// What a batch hands to the executor latches the lockdown at most once, as
/// its last effect, and not at all when the batch does not.
proof fn lemma_settle_latch(
    pending: Seq<Event>,
    failed: bool,
    effects: Seq<Effect>,
    answers: Seq<Result<Option<Event>, EffectError>>,
)
    requires
        latch_only_last(effects),
    ensures
        latch_only_last(settle_effects(pending, failed, effects, answers).2),
        latches_none(effects) ==> latches_none(settle_effects(pending, failed, effects, answers).2),
    decreases effects.len(),
{
    if effects.len() > 0 {
        let rest = effects.drop_first();
        let later = answers.drop_first();
        assert forall|k: int| 0 <= k < rest.len() && #[trigger] rest[k] is LatchLockdown implies k == rest.len() - 1 by {
            assert(rest[k] == effects[k + 1]);
        }
        assert(latches_none(effects) ==> latches_none(rest)) by {
            if latches_none(effects) {
                assert forall|k: int| 0 <= k < rest.len() implies !(#[trigger] rest[k] is LatchLockdown) by {
                    assert(rest[k] == effects[k + 1]);
                }
            }
        }
        match effects[0] {
            Effect::Emit(ev) => {
                let (p, f, stop) = enqueue(pending, failed, ev);
                if !stop {
                    lemma_settle_latch(p, f, rest, answers);
                }
            },
            e => {
                let answer = if answers.len() == 0 {
                    Ok(None)
                } else {
                    answers[0]
                };
                let t = match answer {
                    Err(_) => (if failed {
                        pending
                    } else {
                        latched(pending)
                    }, true, Seq::<Effect>::empty()),
                    Ok(None) => settle_effects(pending, failed, rest, later),
                    Ok(Some(ev)) => {
                        let (p, f, stop) = enqueue(pending, failed, ev);
                        if stop {
                            (p, f, Seq::<Effect>::empty())
                        } else {
                            settle_effects(p, f, rest, later)
                        }
                    },
                };
                match answer {
                    Ok(None) => lemma_settle_latch(pending, failed, rest, later),
                    Ok(Some(ev)) => {
                        let (p, f, stop) = enqueue(pending, failed, ev);
                        if !stop {
                            lemma_settle_latch(p, f, rest, later);
                        }
                    },
                    Err(_) => {},
                }
                let h = seq![e] + t.2;
                assert(settle_effects(pending, failed, effects, answers).2 == h);
                if e is LatchLockdown {
                    assert(effects.len() == 1);
                    assert(t.2.len() == 0);
                }
                assert forall|k: int| 0 <= k < h.len() && #[trigger] h[k] is LatchLockdown implies k == h.len() - 1 by {
                    if k > 0 {
                        assert(h[k] == t.2[k - 1]);
                    }
                }
                if latches_none(effects) {
                    assert(!(effects[0] is LatchLockdown));
                    lemma_latches_none_concat(seq![e], t.2);
                }
            },
        }
    }
}

/// The lockdown is latched at most once per run: whatever the executor
/// answers, and even where the latch itself fails, a run hands
/// `LatchLockdown` to the executor at most once. A round that hands it on
/// ends in `Locked`, and from `Locked` a run hands on nothing.
pub proof fn lemma_run_latches_at_most_once(r: RunView, answers: Seq<Result<Option<Event>, EffectError>>)
    ensures
        latches_at_most_once(run_from(r, answers).1),
    decreases r.budget,
{
    if !run_over(r) {
        let (v1, s1, effects) = step(r.rot, r.state, r.pending[0]);
        lemma_step_latch(r.rot, r.state, r.pending[0]);
        lemma_settle_latch(r.pending.drop_first(), r.failed, effects, answers);
        let handed = handed_in_round(r, answers);
        let r2 = run_round(r, answers);
        let rest = answers.skip(handed.len() as int);
        lemma_run_latches_at_most_once(r2, rest);
        let later = run_from(r2, rest).1;
        assert(run_from(r, answers).1 == handed + later);
        if !latches_none(handed) {
            assert(!latches_none(effects));
            assert(r2.state == State::Locked);
            lemma_locked_run_hands_nothing(r2, rest);
            assert forall|i: int, j: int|
                0 <= i < j < (handed + later).len() implies !(#[trigger] (handed + later)[i] is LatchLockdown
                && #[trigger] (handed + later)[j] is LatchLockdown) by {
                assert(handed + later == handed);
            }
        } else {
            assert forall|i: int, j: int|
                0 <= i < j < (handed + later).len() implies !(#[trigger] (handed + later)[i] is LatchLockdown
                && #[trigger] (handed + later)[j] is LatchLockdown) by {
                if i < handed.len() {
                    assert((handed + later)[i] == handed[i]);
                } else {
                    assert((handed + later)[i] == later[i - handed.len()]);
                    assert((handed + later)[j] == later[j - handed.len()]);
                }
            }
        }
    }
}

// ---------------------------------------------------------------------------
// A re-walk holds, by the effects asked for, exactly what is live
// ---------------------------------------------------------------------------

/// Some effect of `e` holds `x`.
pub open spec fn held_in(e: Seq<Effect>, x: ComponentId) -> bool {
    exists|k: int| 0 <= k < e.len() && holds(#[trigger] e[k], x)
}

/// `x` is live after the effects `e`: its last release or hold in `e` is a
/// release.
pub open spec fn live_after(e: Seq<Effect>, x: ComponentId) -> bool {
    exists|k: int|
        0 <= k < e.len() && #[trigger] e[k] == Effect::ReleaseReset(x) && forall|j: int|
            k < j < e.len() ==> !holds(#[trigger] e[j], x)
}

/// No effect of `e` releases or holds any component.
spec fn touches_none(e: Seq<Effect>) -> bool {
    forall|k: int|
        0 <= k < e.len() ==> !(#[trigger] e[k] is ReleaseReset) && !(e[k] is AssertReset) && !(e[k] is RecoverComponent)
}

/// The release flags of `w` are those of `v` after the effects `e`: a
/// component is released in `w` exactly when `e` releases it with no hold
/// after, or it was released in `v` and `e` does not hold it.
spec fn flags_follow(v: RotView, w: RotView, e: Seq<Effect>) -> bool {
    &&& w.chain == v.chain
    &&& w.statuses.len() == v.statuses.len()
    &&& forall|i: int|
        0 <= i < v.statuses.len() ==> #[trigger] w.statuses[i].released == (live_after(e, v.chain[i].0) || (
        v.statuses[i].released && !held_in(e, v.chain[i].0)))
}

proof fn lemma_live_concat(a: Seq<Effect>, b: Seq<Effect>, x: ComponentId)
    ensures
        held_in(a + b, x) == (held_in(a, x) || held_in(b, x)),
        live_after(a + b, x) == (live_after(b, x) || (live_after(a, x) && !held_in(b, x))),
{
    let c = a + b;
    if held_in(c, x) {
        let k = choose|k: int| 0 <= k < c.len() && holds(#[trigger] c[k], x);
        if k < a.len() {
            assert(c[k] == a[k]);
        } else {
            assert(c[k] == b[k - a.len()]);
        }
    }
    if held_in(a, x) {
        let k = choose|k: int| 0 <= k < a.len() && holds(#[trigger] a[k], x);
        assert(c[k] == a[k]);
    }
    if held_in(b, x) {
        let k = choose|k: int| 0 <= k < b.len() && holds(#[trigger] b[k], x);
        assert(c[k + a.len()] == b[k]);
    }
    if live_after(c, x) {
        let k = choose|k: int|
            0 <= k < c.len() && #[trigger] c[k] == Effect::ReleaseReset(x) && forall|j: int|
                k < j < c.len() ==> !holds(#[trigger] c[j], x);
        if k < a.len() {
            assert(c[k] == a[k]);
            assert forall|j: int| k < j < a.len() implies !holds(#[trigger] a[j], x) by {
                assert(c[j] == a[j]);
            }
            assert(live_after(a, x));
            if held_in(b, x) {
                let m = choose|m: int| 0 <= m < b.len() && holds(#[trigger] b[m], x);
                assert(c[m + a.len()] == b[m]);
            }
        } else {
            let kb = k - a.len();
            assert(c[k] == b[kb]);
            assert forall|j: int| kb < j < b.len() implies !holds(#[trigger] b[j], x) by {
                assert(c[j + a.len()] == b[j]);
            }
            assert(live_after(b, x));
        }
    }
    if live_after(b, x) {
        let k = choose|k: int|
            0 <= k < b.len() && #[trigger] b[k] == Effect::ReleaseReset(x) && forall|j: int|
                k < j < b.len() ==> !holds(#[trigger] b[j], x);
        assert(c[k + a.len()] == b[k]);
        assert forall|j: int| k + a.len() < j < c.len() implies !holds(#[trigger] c[j], x) by {
            assert(c[j] == b[j - a.len()]);
        }
    }
    if live_after(a, x) && !held_in(b, x) {
        let k = choose|k: int|
            0 <= k < a.len() && #[trigger] a[k] == Effect::ReleaseReset(x) && forall|j: int|
                k < j < a.len() ==> !holds(#[trigger] a[j], x);
        assert(c[k] == a[k]);
        assert forall|j: int| k < j < c.len() implies !holds(#[trigger] c[j], x) by {
            if j < a.len() {
                assert(c[j] == a[j]);
            } else {
                assert(c[j] == b[j - a.len()]);
            }
        }
    }
}

proof fn lemma_flags_trans(u: RotView, v: RotView, w: RotView, e1: Seq<Effect>, e2: Seq<Effect>)
    requires
        flags_follow(u, v, e1),
        flags_follow(v, w, e2),
    ensures
        flags_follow(u, w, e1 + e2),
{
    assert forall|i: int| 0 <= i < u.statuses.len() implies #[trigger] w.statuses[i].released == (live_after(
        e1 + e2,
        u.chain[i].0,
    ) || (u.statuses[i].released && !held_in(e1 + e2, u.chain[i].0))) by {
        lemma_live_concat(e1, e2, u.chain[i].0);
        assert(v.statuses[i].released == (live_after(e1, u.chain[i].0) || (u.statuses[i].released && !held_in(
            e1,
            u.chain[i].0,
        ))));
    }
}

proof fn lemma_touches_none(e: Seq<Effect>, x: ComponentId)
    requires
        touches_none(e),
    ensures
        !held_in(e, x),
        !live_after(e, x),
{
    if held_in(e, x) {
        let k = choose|k: int| 0 <= k < e.len() && holds(#[trigger] e[k], x);
        assert(!(e[k] is AssertReset) && !(e[k] is RecoverComponent));
    }
    if live_after(e, x) {
        let k = choose|k: int|
            0 <= k < e.len() && #[trigger] e[k] == Effect::ReleaseReset(x) && forall|j: int|
                k < j < e.len() ==> !holds(#[trigger] e[j], x);
        assert(!(e[k] is ReleaseReset));
    }
}

/// A change that keeps every release flag, with effects that touch none.
proof fn lemma_flags_quiet(v: RotView, w: RotView, e: Seq<Effect>)
    requires
        w.chain == v.chain,
        w.statuses.len() == v.statuses.len(),
        forall|i: int| 0 <= i < v.statuses.len() ==> #[trigger] w.statuses[i].released == v.statuses[i].released,
        touches_none(e),
    ensures
        flags_follow(v, w, e),
{
    assert forall|i: int| 0 <= i < v.statuses.len() implies #[trigger] w.statuses[i].released == (live_after(
        e,
        v.chain[i].0,
    ) || (v.statuses[i].released && !held_in(e, v.chain[i].0))) by {
        lemma_touches_none(e, v.chain[i].0);
    }
}

proof fn lemma_update_flags(v: RotView, id: ComponentId, f: spec_fn(ComponentStatus) -> ComponentStatus, e: Seq<Effect>)
    requires
        v.statuses.len() == v.chain.len(),
        forall|s: ComponentStatus| #[trigger] f(s).released == s.released,
        touches_none(e),
    ensures
        flags_follow(v, update_status(v, id, f), e),
{
    lemma_index_of(v.chain, id);
    let w = update_status(v, id, f);
    assert forall|i: int| 0 <= i < v.statuses.len() implies #[trigger] w.statuses[i].released == v.statuses[i].released by {
        match index_of(v.chain, id) {
            Some(j) => {
                if i == j {
                    assert(f(v.statuses[j]).released == v.statuses[j].released);
                }
            },
            None => {},
        }
    }
    lemma_flags_quiet(v, w, e);
}

/// Setting the flag of `id` to `flag` with effects `e` that leave `id` live
/// when `flag` is set, hold it when not, and touch no other component.
proof fn lemma_set_flag(v: RotView, id: ComponentId, f: spec_fn(ComponentStatus) -> ComponentStatus, flag: bool, e: Seq<Effect>)
    requires
        ids_unique(v.chain),
        v.statuses.len() == v.chain.len(),
        forall|s: ComponentStatus| #[trigger] f(s).released == flag,
        forall|x: ComponentId| x != id ==> !held_in(e, x) && !live_after(e, x),
        flag ==> live_after(e, id),
        !flag ==> held_in(e, id) && !live_after(e, id),
    ensures
        flags_follow(v, update_status(v, id, f), e),
{
    lemma_index_of(v.chain, id);
    let w = update_status(v, id, f);
    assert forall|i: int| 0 <= i < v.statuses.len() implies #[trigger] w.statuses[i].released == (live_after(
        e,
        v.chain[i].0,
    ) || (v.statuses[i].released && !held_in(e, v.chain[i].0))) by {
        match index_of(v.chain, id) {
            Some(j) => {
                if i == j {
                    assert(f(v.statuses[j]).released == flag);
                } else {
                    assert(v.chain[i].0 != id);
                }
            },
            None => {
                assert(v.chain[i].0 != id);
            },
        }
    }
}

proof fn lemma_gate_one_flags(v: RotView, id: ComponentId)
    requires
        ids_unique(v.chain),
        v.statuses.len() == v.chain.len(),
    ensures
        flags_follow(v, gate_one(v, id).0, gate_one(v, id).1),
{
    if crate::machine_spec::gated(v, id) {
        lemma_flags_quiet(v, v, seq![]);
    } else {
        let e = seq![Effect::AssertReset(id), Effect::ReportIsolated(id)];
        assert(holds(e[0], id));
        assert forall|x: ComponentId| x != id implies !held_in(e, x) && !live_after(e, x) by {
            if held_in(e, x) {
                let k = choose|k: int| 0 <= k < e.len() && holds(#[trigger] e[k], x);
            }
            if live_after(e, x) {
                let k = choose|k: int|
                    0 <= k < e.len() && #[trigger] e[k] == Effect::ReleaseReset(x) && forall|j: int|
                        k < j < e.len() ==> !holds(#[trigger] e[j], x);
            }
        }
        if live_after(e, id) {
            let k = choose|k: int|
                0 <= k < e.len() && #[trigger] e[k] == Effect::ReleaseReset(id) && forall|j: int|
                    k < j < e.len() ==> !holds(#[trigger] e[j], id);
        }
        lemma_set_flag(v, id, |s: ComponentStatus| isolate(s), false, e);
    }
}

proof fn lemma_gate_each_flags(v: RotView, ids: Seq<ComponentId>)
    requires
        ids_unique(v.chain),
        v.statuses.len() == v.chain.len(),
    ensures
        flags_follow(v, gate_each(v, ids).0, gate_each(v, ids).1),
    decreases ids.len(),
{
    if ids.len() == 0 {
        lemma_flags_quiet(v, v, seq![]);
    } else {
        lemma_gate_each_flags(v, ids.drop_last());
        let (v1, e1) = gate_each(v, ids.drop_last());
        lemma_gate_one_flags(v1, ids.last());
        lemma_flags_trans(v, v1, gate_one(v1, ids.last()).0, e1, gate_one(v1, ids.last()).1);
    }
}

proof fn lemma_cascade_levels_flags(
    v: RotView,
    chain: Seq<(ComponentId, ComponentAttrs)>,
    level: Seq<ComponentId>,
    rounds: nat,
)
    requires
        ids_unique(v.chain),
        v.statuses.len() == v.chain.len(),
    ensures
        flags_follow(v, cascade_levels(v, chain, level, rounds).0, cascade_levels(v, chain, level, rounds).1),
    decreases rounds,
{
    if rounds == 0 {
        lemma_flags_quiet(v, v, seq![]);
    } else {
        let next = next_level(chain, level);
        lemma_gate_each_flags(v, next);
        let (v1, e1) = gate_each(v, next);
        lemma_cascade_levels_flags(v1, chain, next, (rounds - 1) as nat);
        let (v2, e2) = cascade_levels(v1, chain, next, (rounds - 1) as nat);
        lemma_flags_trans(v, v1, v2, e1, e2);
    }
}

proof fn lemma_gate_by_policy_flags(v: RotView, id: ComponentId)
    requires
        ids_unique(v.chain),
        v.statuses.len() == v.chain.len(),
    ensures
        flags_follow(v, gate_by_policy(v, id).0, gate_by_policy(v, id).1),
{
    reveal(cascade);
    lemma_gate_one_flags(v, id);
    let (v1, e1) = gate_one(v, id);
    lemma_cascade_levels_flags(v1, v.chain, seq![id], v.chain.len());
    let (v2, e2) = cascade_levels(v1, v.chain, seq![id], v.chain.len());
    lemma_flags_trans(v, v1, v2, e1, e2);
    lemma_flags_quiet(v, v, seq![]);
}

proof fn lemma_advance_flags(v: RotView, start: int)
    ensures
        flags_follow(v, advance(v, start).0, advance(v, start).1),
{
    let e = advance(v, start).1;
    assert forall|k: int| 0 <= k < e.len() implies !(#[trigger] e[k] is ReleaseReset) && !(e[k] is AssertReset) && !(
    e[k] is RecoverComponent) by {}
    lemma_flags_quiet(v, advance(v, start).0, e);
}

proof fn lemma_quiesce_flags(v: RotView)
    requires
        ids_unique(v.chain),
        v.statuses.len() == v.chain.len(),
    ensures
        flags_follow(v, quiesce(v).0, quiesce(v).1),
{
    let e = quiesce(v).1;
    let w = quiesce(v).0;
    lemma_quiesce_effects_exact(v.chain, v.statuses, v.chain.len());
    assert forall|i: int| 0 <= i < v.statuses.len() implies #[trigger] w.statuses[i].released == (live_after(
        e,
        v.chain[i].0,
    ) || (v.statuses[i].released && !held_in(e, v.chain[i].0))) by {
        let x = v.chain[i].0;
        if live_after(e, x) {
            let k = choose|k: int|
                0 <= k < e.len() && #[trigger] e[k] == Effect::ReleaseReset(x) && forall|j: int|
                    k < j < e.len() ==> !holds(#[trigger] e[j], x);
            let j = choose|j: int| 0 <= j < v.chain.len() && v.statuses[j].released && #[trigger] e[k] == Effect::AssertReset(v.chain[j].0);
        }
        if v.statuses[i].released {
            assert(e.contains(Effect::AssertReset(v.chain[i].0)));
            let k = choose|k: int| 0 <= k < e.len() && e[k] == Effect::AssertReset(x);
            assert(holds(e[k], x));
        }
    }
}

proof fn lemma_release_and_advance_flags(v: RotView, id: ComponentId)
    requires
        ids_unique(v.chain),
        v.statuses.len() == v.chain.len(),
    ensures
        flags_follow(v, release_and_advance(v, id).0, release_and_advance(v, id).1),
{
    let v1 = update_status(v, id, |s: ComponentStatus| retry_cleared(s));
    let v2 = update_status(v1, id, |s: ComponentStatus| release(s));
    lemma_update_flags(v, id, |s: ComponentStatus| retry_cleared(s), seq![]);
    let r = seq![Effect::ReleaseReset(id)];
    assert(r[0] == Effect::ReleaseReset(id));
    assert forall|x: ComponentId| x != id implies !held_in(r, x) && !live_after(r, x) by {
        if held_in(r, x) {
            let k = choose|k: int| 0 <= k < r.len() && holds(#[trigger] r[k], x);
        }
        if live_after(r, x) {
            let k = choose|k: int|
                0 <= k < r.len() && #[trigger] r[k] == Effect::ReleaseReset(x) && forall|j: int|
                    k < j < r.len() ==> !holds(#[trigger] r[j], x);
        }
    }
    lemma_set_flag(v1, id, |s: ComponentStatus| release(s), true, r);
    lemma_flags_trans(v, v1, v2, seq![], r);
    lemma_advance_flags(v2, v.cursor + 1int);
    let (v3, e3, found) = advance(v2, v.cursor + 1int);
    lemma_flags_trans(v, v2, v3, seq![] + r, e3);
    assert(seq![] + r + e3 =~= r + e3);
}

/// Effects that touch no component, after `e`.
proof fn lemma_flags_then_quiet(u: RotView, v: RotView, e: Seq<Effect>, q: Seq<Effect>)
    requires
        flags_follow(u, v, e),
        touches_none(q),
    ensures
        flags_follow(u, v, e + q),
{
    lemma_flags_quiet(v, v, q);
    lemma_flags_trans(u, v, v, e, q);
}

#[verifier::spinoff_prover]
#[verifier::rlimit(60)]
proof fn lemma_handle_flags(v: RotView, s: State, ev: Event)
    requires
        ids_unique(v.chain),
        v.statuses.len() == v.chain.len(),
    ensures
        flags_follow(v, handle(v, s, ev).0, handle(v, s, ev).1),
{
    lemma_flags_quiet(v, v, seq![]);
    match s {
        State::PreSupervision | State::AwaitingReady(_) => match ev {
            Event::VerificationPassed(id) => {
                lemma_advance_flags(v, v.cursor + 1int);
                lemma_release_and_advance_flags(v, id);
            },
            Event::CorruptionDetected(id) => lemma_gate_by_policy_flags(v, id),
            Event::Booted(id) => lemma_update_flags(v, id, |s: ComponentStatus| reported_in(s), seq![]),
            Event::ComponentReady(id) => lemma_update_flags(v, id, |s: ComponentStatus| reported_in(s), seq![]),
            _ => {},
        },
        State::Ready => {
            if let Event::BootConfirmed(id) = ev {
                lemma_flags_quiet(v, RotView { pending_commit: false, ..v }, seq![Effect::CommitSvnFloor(id)]);
            }
        },
        State::Updating => match ev {
            Event::UpdateVerified => {
                lemma_flags_quiet(v, RotView { pending_commit: true, ..v }, seq![Effect::ActivateUpdate]);
            },
            Event::UpdateRejected => {
                lemma_flags_quiet(v, v, seq![Effect::DiscardStaged]);
            },
            Event::CorruptionDetected(id) => {
                lemma_gate_by_policy_flags(v, id);
                let (v1, e1, g) = gate_by_policy(v, id);
                lemma_flags_then_quiet(v, v1, e1, seq![Effect::DiscardStaged, Effect::ReportUpdateAborted]);
            },
            _ => {},
        },
        State::Recovering(failed) => {
            if let Event::Restored(id) = ev {
                if id == failed {
                    let w1 = update_status(v, failed, |s: ComponentStatus| retry_bumped(s));
                    lemma_update_flags(v, failed, |s: ComponentStatus| retry_bumped(s), seq![]);
                    lemma_gate_by_policy_flags(w1, failed);
                    let (w2, e2, g) = gate_by_policy(w1, failed);
                    lemma_flags_trans(v, w1, w2, seq![], e2);
                    assert(seq![] + e2 =~= e2);
                    lemma_update_flags(w2, failed, |s: ComponentStatus| retry_cleared(s), seq![]);
                    let w3 = update_status(w2, failed, |s: ComponentStatus| retry_cleared(s));
                    lemma_flags_trans(v, w2, w3, e2, seq![]);
                    assert(e2 + seq![] =~= e2);
                    lemma_flags_then_quiet(
                        v,
                        w2,
                        e2,
                        seq![Effect::ReportRecoveryFailed(failed), Effect::Emit(Event::RecoveryFailed)],
                    );
                }
            }
        },
        _ => {},
    }
}

proof fn lemma_handle_supervising_flags(v: RotView, ev: Event)
    requires
        ids_unique(v.chain),
        v.statuses.len() == v.chain.len(),
    ensures
        flags_follow(v, handle_supervising(v, ev).0, handle_supervising(v, ev).1),
{
    lemma_flags_quiet(v, v, seq![]);
    match ev {
        Event::AttestationChallenge => lemma_flags_quiet(v, v, seq![Effect::SignAttestation]),
        Event::CorruptionDetected(id) => lemma_gate_by_policy_flags(v, id),
        Event::ComponentReady(id) => lemma_update_flags(v, id, |s: ComponentStatus| reported_in(s), seq![]),
        Event::Booted(id) => lemma_update_flags(v, id, |s: ComponentStatus| reported_in(s), seq![]),
        Event::UpdateRequest => lemma_flags_quiet(v, v, seq![Effect::ReportUpdateDeferred]),
        _ => {},
    }
}

proof fn lemma_entry_flags(v: RotView, t: State)
    requires
        ids_unique(v.chain),
        v.statuses.len() == v.chain.len(),
    ensures
        flags_follow(v, entry(v, t).0, entry(v, t).1),
{
    lemma_flags_quiet(v, v, seq![]);
    match t {
        State::PreSupervision => {
            lemma_quiesce_flags(v);
            let (v1, e1) = quiesce(v);
            lemma_advance_flags(v1, 0);
            lemma_flags_trans(v, v1, advance(v1, 0).0, e1, advance(v1, 0).1);
        },
        State::Updating => {
            lemma_flags_quiet(
                v,
                RotView { pending_commit: false, ..v },
                seq![Effect::AuthenticateUpdate, Effect::StageUpdate],
            );
        },
        State::Recovering(failed) => {
            let v0 = RotView { pending_commit: false, ..v };
            lemma_flags_quiet(v, v0, seq![]);
            let v1 = update_status(v0, failed, |s: ComponentStatus| reported_in(s));
            lemma_update_flags(v0, failed, |s: ComponentStatus| reported_in(s), seq![]);
            lemma_flags_trans(v, v0, v1, seq![], seq![]);
            let e = entry(v, t).1;
            let attempt = e[0]->attempt;
            assert(e == seq![Effect::RecoverComponent { id: failed, attempt }]);
            assert(holds(e[0], failed));
            assert forall|x: ComponentId| x != failed implies !held_in(e, x) && !live_after(e, x) by {
                if held_in(e, x) {
                    let k = choose|k: int| 0 <= k < e.len() && holds(#[trigger] e[k], x);
                }
                if live_after(e, x) {
                    let k = choose|k: int|
                        0 <= k < e.len() && #[trigger] e[k] == Effect::ReleaseReset(x) && forall|j: int|
                            k < j < e.len() ==> !holds(#[trigger] e[j], x);
                }
            }
            if live_after(e, failed) {
                let k = choose|k: int|
                    0 <= k < e.len() && #[trigger] e[k] == Effect::ReleaseReset(failed) && forall|j: int|
                        k < j < e.len() ==> !holds(#[trigger] e[j], failed);
            }
            lemma_set_flag(v1, failed, |s: ComponentStatus| held(s), false, e);
            let v2 = update_status(v1, failed, |s: ComponentStatus| held(s));
            lemma_flags_trans(v, v1, v2, seq![] + seq![], e);
            assert(seq![] + seq![] + e =~= e);
        },
        State::Locked => lemma_flags_quiet(v, v, seq![Effect::LatchLockdown]),
        State::Ready => {
            let w = RotView { statuses: v.statuses.map_values(|s: ComponentStatus| retry_cleared(s)), ..v };
            lemma_flags_quiet(v, w, seq![]);
        },
        _ => {},
    }
}

proof fn lemma_step_flags(v: RotView, s: State, ev: Event)
    requires
        ids_unique(v.chain),
        v.statuses.len() == v.chain.len(),
    ensures
        flags_follow(v, step(v, s, ev).0, step(v, s, ev).2),
{
    reveal(step);
    if event_component(ev) is Some && !in_chain(v, event_component(ev).unwrap()) {
        lemma_flags_quiet(v, v, seq![]);
    } else {
        let (v1, e1, o1) = handle(v, s, ev);
        lemma_handle_flags(v, s, ev);
        let sup = o1 is Super && is_supervised(s);
        let (v2, e2, o2) = if sup {
            handle_supervising(v1, ev)
        } else {
            (v1, seq![], o1)
        };
        if sup {
            lemma_handle_supervising_flags(v1, ev);
        } else {
            lemma_flags_quiet(v1, v1, seq![]);
        }
        lemma_flags_trans(v, v1, v2, e1, e2);
        match o2 {
            Outcome::Transition(t) => {
                lemma_entry_flags(v2, t);
                let (v3, e3) = entry(v2, t);
                lemma_flags_trans(v, v2, v3, e1 + e2, e3);
                assert(step(v, s, ev) == (v3, t, e1 + e2 + e3));
            },
            _ => {
                assert(step(v, s, ev) == (v2, s, e1 + e2));
            },
        }
    }
}

/// Every release flag of `v` says whether its component is live after the
/// effects `hist`.
spec fn flags_match(v: RotView, hist: Seq<Effect>) -> bool {
    &&& v.statuses.len() == v.chain.len()
    &&& forall|i: int| 0 <= i < v.chain.len() ==> #[trigger] v.statuses[i].released == live_after(hist, v.chain[i].0)
}

proof fn lemma_trace_flags(chain: Seq<(ComponentId, ComponentAttrs)>, max_retry: u8, evs: Seq<Event>)
    requires
        ids_unique(chain),
    ensures
        run_trace(initial_rot(chain, max_retry), State::PowerOnReset, evs).0.chain == chain,
        flags_match(
            run_trace(initial_rot(chain, max_retry), State::PowerOnReset, evs).0,
            run_trace(initial_rot(chain, max_retry), State::PowerOnReset, evs).2,
        ),
    decreases evs.len(),
{
    let v0 = initial_rot(chain, max_retry);
    if evs.len() == 0 {
        assert forall|i: int| 0 <= i < chain.len() implies #[trigger] v0.statuses[i].released == live_after(
            Seq::<Effect>::empty(),
            chain[i].0,
        ) by {
            if live_after(Seq::<Effect>::empty(), chain[i].0) {
                let k = choose|k: int|
                    0 <= k < Seq::<Effect>::empty().len() && #[trigger] Seq::<Effect>::empty()[k] == Effect::ReleaseReset(
                        chain[i].0,
                    ) && forall|j: int| k < j < Seq::<Effect>::empty().len() ==> !holds(#[trigger] Seq::<Effect>::empty()[j], chain[i].0);
            }
        }
    } else {
        lemma_trace_flags(chain, max_retry, evs.drop_last());
        let (v1, s1, h) = run_trace(v0, State::PowerOnReset, evs.drop_last());
        let ev = evs.last();
        lemma_step_flags(v1, s1, ev);
        let (v2, s2, e) = step(v1, s1, ev);
        assert forall|i: int| 0 <= i < v2.chain.len() implies #[trigger] v2.statuses[i].released == live_after(
            h + e,
            v2.chain[i].0,
        ) by {
            lemma_live_concat(h, e, v1.chain[i].0);
            assert(v1.statuses[i].released == live_after(h, v1.chain[i].0));
        }
    }
}

/// The resets asserted, in chain order, on the components among the first
/// `n` that are live after `hist`.
pub open spec fn live_resets(chain: Seq<(ComponentId, ComponentAttrs)>, hist: Seq<Effect>, n: nat) -> Seq<Effect>
    decreases n,
{
    if n == 0 {
        seq![]
    } else {
        live_resets(chain, hist, (n - 1) as nat) + if live_after(hist, chain[n - 1].0) {
            seq![Effect::AssertReset(chain[n - 1].0)]
        } else {
            seq![]
        }
    }
}

proof fn lemma_live_resets_are_quiesce(v: RotView, hist: Seq<Effect>, n: nat)
    requires
        flags_match(v, hist),
        n <= v.chain.len(),
    ensures
        live_resets(v.chain, hist, n) == quiesce_effects(v.chain, v.statuses, n),
    decreases n,
{
    if n > 0 {
        lemma_live_resets_are_quiesce(v, hist, (n - 1) as nat);
        assert(v.statuses[n - 1].released == live_after(hist, v.chain[n - 1].0));
    }
}

/// A re-walk holds what is live first, by the effects asked for: from
/// power-on, after any events, entering `PreSupervision` asserts reset, in
/// chain order, on exactly the components whose last release or hold so far
/// was a release, then asks to read and verify the first component not
/// isolated, if there is one, and nothing else. No component is live
/// afterwards, so the re-verification runs on quiesced code.
pub proof fn lemma_rewalk_quiesces_the_live(chain: Seq<(ComponentId, ComponentAttrs)>, max_retry: u8, evs: Seq<Event>)
    requires
        ids_unique(chain),
    ensures
        ({
            let (v, s, hist) = run_trace(initial_rot(chain, max_retry), State::PowerOnReset, evs);
            let e = entry(v, State::PreSupervision).1;
            let resets = live_resets(chain, hist, chain.len());
            let tail = e.skip(resets.len() as int);
            &&& e.take(resets.len() as int) == resets
            &&& forall|k: int|
                0 <= k < chain.len() && !is_isolated(#[trigger] v.statuses[k]) && (forall|j: int|
                    0 <= j < k ==> is_isolated(v.statuses[j])) ==> tail == seq![
                    Effect::ReadFirmware(chain[k].0),
                    Effect::VerifyFirmware(chain[k].0),
                ]
            &&& (forall|k: int| 0 <= k < chain.len() ==> is_isolated(#[trigger] v.statuses[k])) ==> tail.len() == 0
            &&& forall|i: int| 0 <= i < chain.len() ==> !live_after(hist + e, #[trigger] chain[i].0)
        }),
{
    lemma_trace_flags(chain, max_retry, evs);
    let (v, s, hist) = run_trace(initial_rot(chain, max_retry), State::PowerOnReset, evs);
    let e = entry(v, State::PreSupervision).1;
    let (vq, eq) = quiesce(v);
    lemma_live_resets_are_quiesce(v, hist, chain.len());
    let resets = live_resets(chain, hist, chain.len());
    let (va, ea, found) = advance(vq, 0);
    assert(e == eq + ea);
    assert(e.take(resets.len() as int) =~= resets);
    assert(e.skip(resets.len() as int) =~= ea);
    assert forall|k: int|
        0 <= k < chain.len() && !is_isolated(#[trigger] v.statuses[k]) && (forall|j: int|
            0 <= j < k ==> is_isolated(v.statuses[j])) implies ea == seq![
            Effect::ReadFirmware(chain[k].0),
            Effect::VerifyFirmware(chain[k].0),
        ] by {
        assert(!is_isolated(vq.statuses[k]));
        assert(has_ungated_from(vq, 0));
        let k2 = crate::machine_spec::first_ungated_from(vq, 0);
        if k2 < k {
            assert(is_isolated(v.statuses[k2]));
            assert(is_isolated(vq.statuses[k2]));
        }
        if k < k2 {
            assert(is_isolated(vq.statuses[k]));
        }
    }
    if forall|k: int| 0 <= k < chain.len() ==> is_isolated(#[trigger] v.statuses[k]) {
        assert(!has_ungated_from(vq, 0)) by {
            if has_ungated_from(vq, 0) {
                let k = choose|k: int| 0 <= k < vq.chain.len() && !is_isolated(#[trigger] vq.statuses[k]);
                assert(is_isolated(v.statuses[k]));
            }
        }
    }
    lemma_entry_flags(v, State::PreSupervision);
    lemma_rewalk_holds_everything(v);
    assert forall|i: int| 0 <= i < chain.len() implies !live_after(hist + e, #[trigger] chain[i].0) by {
        lemma_live_concat(hist, e, chain[i].0);
        assert(!entry(v, State::PreSupervision).0.statuses[i].released);
    }
}

// ---------------------------------------------------------------------------
// A failed effect locks a drained run
// ---------------------------------------------------------------------------

proof fn lemma_settle_keeps_failed(
    pending: Seq<Event>,
    effects: Seq<Effect>,
    answers: Seq<Result<Option<Event>, EffectError>>,
)
    ensures
        settle_effects(pending, true, effects, answers).1,
    decreases effects.len(),
{
    if effects.len() > 0 {
        let rest = effects.drop_first();
        let later = answers.drop_first();
        match effects[0] {
            Effect::Emit(ev) => {
                let (p, f, stop) = enqueue(pending, true, ev);
                if !stop {
                    lemma_settle_keeps_failed(p, rest, answers);
                }
            },
            e => {
                let answer = if answers.len() == 0 {
                    Ok(None)
                } else {
                    answers[0]
                };
                match answer {
                    Ok(None) => lemma_settle_keeps_failed(pending, rest, later),
                    Ok(Some(ev)) => {
                        let (p, f, stop) = enqueue(pending, true, ev);
                        if !stop {
                            lemma_settle_keeps_failed(p, rest, later);
                        }
                    },
                    Err(_) => {},
                }
            },
        }
    }
}

proof fn lemma_run_keeps_latch(r: RunView, answers: Seq<Result<Option<Event>, EffectError>>)
    requires
        latch_pending_or_locked(r),
    ensures
        latch_pending_or_locked(run_from(r, answers).0),
        r.failed ==> run_from(r, answers).0.failed,
    decreases r.budget,
{
    if !run_over(r) {
        let r2 = run_round(r, answers);
        assert(round_follows(r, r2));
        lemma_round_keeps_latch(r, r2);
        if r.failed {
            let (v1, s1, effects) = step(r.rot, r.state, r.pending[0]);
            lemma_settle_keeps_failed(r.pending.drop_first(), effects, answers);
        }
        let handed = handed_in_round(r, answers);
        lemma_run_keeps_latch(r2, answers.skip(handed.len() as int));
    }
}

proof fn lemma_failed_answer_latches(r: RunView, answers: Seq<Result<Option<Event>, EffectError>>, k: int)
    requires
        latch_pending_or_locked(r),
        0 <= k < run_from(r, answers).1.len(),
        k < answers.len(),
        answers[k] is Err,
    ensures
        run_from(r, answers).0.failed,
    decreases r.budget,
{
    if !run_over(r) {
        let (v1, s1, effects) = step(r.rot, r.state, r.pending[0]);
        let handed = handed_in_round(r, answers);
        let r2 = run_round(r, answers);
        let rest = answers.skip(handed.len() as int);
        assert(round_follows(r, r2));
        lemma_round_keeps_latch(r, r2);
        if k < handed.len() {
            lemma_batch_fails_fast(r.pending.drop_first(), r.failed, effects, answers, k);
            lemma_run_keeps_latch(r2, rest);
        } else {
            assert(run_from(r, answers).1 == handed + run_from(r2, rest).1);
            assert(rest[k - handed.len()] == answers[k]);
            lemma_failed_answer_latches(r2, rest, k - handed.len());
        }
    }
}

/// Fail closed, for any answers of the executor: when the executor fails an
/// effect it was handed, the run has latched by its end, and a run that then
/// drains its queue ends `Locked`.
pub proof fn lemma_failed_run_locks(r: RunView, answers: Seq<Result<Option<Event>, EffectError>>, k: int)
    requires
        !r.failed,
        0 <= k < run_from(r, answers).1.len(),
        k < answers.len(),
        answers[k] is Err,
    ensures
        run_from(r, answers).0.failed,
        run_from(r, answers).0.pending.len() == 0 ==> run_from(r, answers).0.state == State::Locked,
{
    lemma_failed_answer_latches(r, answers, k);
    lemma_run_keeps_latch(r, answers);
}

// ---------------------------------------------------------------------------
// A dispatch fails fast and closed
// ---------------------------------------------------------------------------

/// A run that has latched hands on nothing but the lockdown latch.
proof fn lemma_latched_run_hands_only_latch(r: RunView, answers: Seq<Result<Option<Event>, EffectError>>)
    requires
        r.failed,
        latch_pending_or_locked(r),
    ensures
        forall|j: int| 0 <= j < run_from(r, answers).1.len() ==> #[trigger] run_from(r, answers).1[j] == Effect::LatchLockdown,
{
    if !run_over(r) {
        if r.state == State::Locked {
            lemma_locked_run_hands_nothing(r, answers);
        } else {
            lemma_effect_failure_locks(r.rot, r.state);
            let effects = seq![Effect::LatchLockdown];
            let p = r.pending.drop_first();
            let handed = handed_in_round(r, answers);
            assert(r.pending[0] == Event::EffectFailed);
            assert(step(r.rot, r.state, r.pending[0]).2 == effects);
            assert(effects.drop_first() =~= Seq::<Effect>::empty());
            let later = answers.drop_first();
            let rest0 = effects.drop_first();
            assert(settle_effects(p, true, rest0, later).2 =~= Seq::<Effect>::empty());
            assert(settle_effects(p, true, rest0, answers).2 =~= Seq::<Effect>::empty());
            if answers.len() > 0 {
                if let Ok(Some(ev)) = answers[0] {
                    let (p2, f2, stop) = enqueue(p, true, ev);
                    assert(settle_effects(p2, f2, rest0, later).2 =~= Seq::<Effect>::empty());
                }
            }
            assert(handed =~= seq![Effect::LatchLockdown]);
            let r2 = run_round(r, answers);
            let rest = answers.skip(handed.len() as int);
            lemma_locked_run_hands_nothing(r2, rest);
            assert(run_from(r, answers).1 =~= seq![Effect::LatchLockdown]);
        }
    }
}

proof fn lemma_after_failure_only_latch(r: RunView, answers: Seq<Result<Option<Event>, EffectError>>, k: int)
    requires
        latch_pending_or_locked(r),
        0 <= k < run_from(r, answers).1.len(),
        k < answers.len(),
        answers[k] is Err,
    ensures
        forall|j: int| k < j < run_from(r, answers).1.len() ==> #[trigger] run_from(r, answers).1[j] == Effect::LatchLockdown,
    decreases r.budget,
{
    if !run_over(r) {
        let (v1, s1, effects) = step(r.rot, r.state, r.pending[0]);
        let handed = handed_in_round(r, answers);
        let r2 = run_round(r, answers);
        let rest = answers.skip(handed.len() as int);
        assert(round_follows(r, r2));
        lemma_round_keeps_latch(r, r2);
        let later = run_from(r2, rest).1;
        assert(run_from(r, answers).1 == handed + later);
        if k < handed.len() {
            lemma_batch_fails_fast(r.pending.drop_first(), r.failed, effects, answers, k);
            lemma_latched_run_hands_only_latch(r2, rest);
            assert forall|j: int| k < j < (handed + later).len() implies #[trigger] (handed + later)[j]
                == Effect::LatchLockdown by {
                assert((handed + later)[j] == later[j - handed.len()]);
            }
        } else {
            assert(rest[k - handed.len()] == answers[k]);
            lemma_after_failure_only_latch(r2, rest, k - handed.len());
            assert forall|j: int| k < j < (handed + later).len() implies #[trigger] (handed + later)[j]
                == Effect::LatchLockdown by {
                assert((handed + later)[j] == later[j - handed.len()]);
            }
        }
    }
}

/// A dispatch fails fast and closed: when the executor fails the `k`-th
/// effect it is handed, nothing more of that batch, nor of any later one,
/// is handed on but the lockdown latch; the latch is handed on at most once
/// in the whole dispatch, an internal `Emit` never, and the run ends
/// latched, in `Locked` once its queue is drained.
pub proof fn lemma_dispatch_fails_closed(
    v: RotView,
    s: State,
    event: Event,
    effects: Seq<Effect>,
    answers: Seq<Result<Option<Event>, EffectError>>,
    v2: RotView,
    s2: State,
    k: int,
)
    requires
        dispatch_calls(v, s, event, effects, answers, v2, s2),
        0 <= k < effects.len(),
        answers[k] is Err,
    ensures
        forall|j: int| k < j < effects.len() ==> #[trigger] effects[j] == Effect::LatchLockdown,
        latches_at_most_once(effects),
        hands_no_emit(effects),
        run_from(run_start(v, s, event), answers).0.failed,
        run_from(run_start(v, s, event), answers).0.pending.len() == 0 ==> s2 == State::Locked,
{
    let r = run_start(v, s, event);
    lemma_after_failure_only_latch(r, answers, k);
    lemma_run_latches_at_most_once(r, answers);
    lemma_run_never_hands_emit(r, answers);
    lemma_failed_run_locks(r, answers, k);
}

} // verus!
