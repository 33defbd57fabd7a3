//! The eRoT boot-sequence state machine: the pure decision core. It
//! describes side effects as [`Effect`] values rather than performing them;
//! the surrounding platform driver carries them out via a [`Platform`].
//!
//! Every operation here is proved to compute exactly the transition of the
//! model in `machine_spec`.

use vstd::prelude::*;
use crate::pending_queue::{EventQueue, QUEUE_CAPACITY};
use crate::model::{
    event_component, valid_chain, Chain, ComponentAttrs, ComponentId, ComponentKind, Effect, Event,
    FailurePolicy, PowerOnResult, State,
};
use crate::machine_spec::{
    advance, at_cursor, attrs_of, awaiting, cascade, cascade_levels, dependents, dependents_upto, gate_each, next_level, entry,
    first_ungated_from, gate_by_policy, gate_one, gated, handle, handle_corruption,
    handle_supervising, has_ungated_from, held, in_chain, index_of, initial_rot, is_isolated,
    is_supervised, isolate, lemma_index_of,
    lemma_index_of_unique, quiesce, quiesce_effects, quiesced, release, release_and_advance, skip_gated,
    reported_in, retry_bumped, retry_cleared, rot_wf, run_steps, step, update_status, ComponentLifecycle,
    ComponentStatus, Outcome, RotView,
};
use crate::run_spec::{
    complete_run, dispatch_calls, dispatch_may_end, enqueue, handed_first, handed_in_round, latched, paired, round_follows, run_from,
    run_round, run_start, settle_effects, RunView,
};

verus! {

/// The effect buffer handed to every handler. The only thing a handler can
/// do to the outside world is `emit`. `E` is the capacity the board chose;
/// construction of the machine requires `E >= 2 * N + 2`, room for a full
/// cascade (a hold and a report per component) plus a re-walk's first
/// verification.
pub struct Sink<const E: usize> {
    effects: Vec<Effect>,
}

impl<const E: usize> View for Sink<E> {
    type V = Seq<Effect>;

    closed spec fn view(&self) -> Seq<Effect> {
        self.effects@
    }
}

impl<const E: usize> Sink<E> {
    fn new() -> (r: Self)
        ensures
            r@ == Seq::<Effect>::empty(),
    {
        Sink { effects: Vec::new() }
    }

    /// Append one effect.
    pub fn emit(&mut self, effect: Effect)
        ensures
            final(self)@ == old(self)@.push(effect),
    {
        self.effects.push(effect);
    }

    /// The effects emitted so far, in order.
    pub fn effects(&self) -> (r: &[Effect])
        ensures
            r@ == self@,
    {
        self.effects.as_slice()
    }
}

/// Whether a component was gated out of service.
#[derive(Clone, Copy, PartialEq, Eq, Debug, Structural)]
enum Gating {
    Gated,
    NotGated,
}

/// Shared storage: data that persists across events. `N` is the chain
/// capacity and `E` the effect-buffer size.
pub struct Rot<const N: usize, const E: usize> {
    chain: Vec<(ComponentId, ComponentAttrs)>,
    cursor: u8,
    statuses: Vec<ComponentStatus>,
    max_retry: u8,
    pending_commit: bool,
}

impl<const N: usize, const E: usize> View for Rot<N, E> {
    type V = RotView;

    closed spec fn view(&self) -> RotView {
        RotView {
            chain: self.chain@,
            cursor: self.cursor as nat,
            statuses: self.statuses@,
            max_retry: self.max_retry,
            pending_commit: self.pending_commit,
        }
    }
}

impl<const N: usize, const E: usize> Rot<N, E> {
    /// Storage for a fresh machine over `chain`: every component nominal,
    /// held, with no retries; the cursor at the head of the chain.
    pub fn new(chain: Chain<N>, max_retry: u8) -> (r: Self)
        ensures
            r@ == initial_rot(chain.entries(), max_retry),
            rot_wf(r@, N as nat),
    {
        let chain = chain.into_entries();
        let mut statuses: Vec<ComponentStatus> = Vec::new();
        let mut i: usize = 0;
        while i < chain.len()
            invariant
                i <= chain.len(),
                statuses@ == Seq::new(i as nat, |k: int| crate::machine_spec::default_status()),
            decreases chain.len() - i,
        {
            statuses.push(
                ComponentStatus {
                    lifecycle: ComponentLifecycle::Nominal,
                    retry: 0,
                    awaiting_boot: false,
                    released: false,
                },
            );
            i += 1;
            assert(statuses@ =~= Seq::new(i as nat, |k: int| crate::machine_spec::default_status()));
        }
        let r = Rot { chain, cursor: 0, statuses, max_retry, pending_commit: false };
        assert(r@ =~= initial_rot(r.chain@, max_retry));
        r
    }

    /// Index of `id` in the parallel chain/status arrays.
    fn status_index(&self, id: ComponentId) -> (r: Option<usize>)
        ensures
            match r {
                Some(i) => index_of(self.chain@, id) == Some(i as int) && i < self.chain@.len(),
                None => index_of(self.chain@, id) is None,
            },
    {
        proof {
            lemma_index_of(self.chain@, id);
        }
        let mut i: usize = 0;
        while i < self.chain.len()
            invariant
                i <= self.chain.len(),
                forall|k: int| 0 <= k < i ==> #[trigger] self.chain@[k].0 != id,
            decreases self.chain.len() - i,
        {
            if self.chain[i].0 == id {
                return Some(i);
            }
            i += 1;
        }
        None
    }

    /// Look up a component's attributes by id.
    fn attrs_of(&self, id: ComponentId) -> (r: Option<ComponentAttrs>)
        ensures
            r == attrs_of(self@, id),
    {
        match self.status_index(id) {
            Some(i) => Some(self.chain[i].1),
            None => None,
        }
    }

    /// Whether `id` names a component in the configured chain.
    fn in_chain(&self, id: ComponentId) -> (r: bool)
        ensures
            r == in_chain(self@, id),
    {
        self.status_index(id).is_some()
    }

    fn is_gated(&self, id: ComponentId) -> (r: bool)
        requires
            rot_wf(self@, N as nat),
        ensures
            r == gated(self@, id),
    {
        match self.status_index(id) {
            Some(i) => self.statuses[i].lifecycle == ComponentLifecycle::Isolated,
            None => false,
        }
    }

    /// Whether `id` has been released and still owes a boot-progress signal.
    fn is_awaiting_boot(&self, id: ComponentId) -> (r: bool)
        requires
            rot_wf(self@, N as nat),
        ensures
            r == awaiting(self@, id),
    {
        match self.status_index(id) {
            Some(i) => self.statuses[i].awaiting_boot,
            None => false,
        }
    }

    /// Gate one component out of service, returning whether this newly gated
    /// it; the paired `AssertReset` + `ReportIsolated` are emitted only then.
    fn gate_one(&mut self, ctx: &mut Sink<E>, id: ComponentId) -> (r: bool)
        requires
            rot_wf(old(self)@, N as nat),
        ensures
            r == !gated(old(self)@, id),
            final(self)@ == gate_one(old(self)@, id).0,
            final(ctx)@ == old(ctx)@ + gate_one(old(self)@, id).1,
            rot_wf(final(self)@, N as nat),
    {
        if self.is_gated(id) {
            assert(old(ctx)@ + seq![] =~= old(ctx)@);
            return false;
        }
        ctx.emit(Effect::AssertReset(id));
        ctx.emit(Effect::ReportIsolated(id));
        match self.status_index(id) {
            Some(i) => {
                let mut s = self.statuses[i];
                s.lifecycle = ComponentLifecycle::Isolated;
                s.awaiting_boot = false;
                s.released = false;
                self.statuses.set(i, s);
            },
            None => {},
        }
        assert(self@ =~= gate_one(old(self)@, id).0);
        assert(ctx@ =~= old(ctx)@ + gate_one(old(self)@, id).1);
        true
    }

    /// Increment `id`'s consecutive failed-restore count, saturating, and
    /// return the new value (`0` for an id outside the chain).
    fn bump_retry(&mut self, id: ComponentId) -> (r: u8)
        requires
            rot_wf(old(self)@, N as nat),
        ensures
            final(self)@ == update_status(old(self)@, id, |s: ComponentStatus| retry_bumped(s)),
            r == match index_of(old(self)@.chain, id) {
                Some(i) => final(self)@.statuses[i].retry,
                None => 0,
            },
            rot_wf(final(self)@, N as nat),
    {
        match self.status_index(id) {
            Some(i) => {
                let mut s = self.statuses[i];
                s.retry = s.retry.saturating_add(1);
                self.statuses.set(i, s);
                assert(self@ =~= update_status(old(self)@, id, |s: ComponentStatus| retry_bumped(s)));
                s.retry
            },
            None => 0,
        }
    }

    /// Drop `id`'s retry count.
    fn clear_retry(&mut self, id: ComponentId)
        requires
            rot_wf(old(self)@, N as nat),
        ensures
            final(self)@ == update_status(old(self)@, id, |s: ComponentStatus| retry_cleared(s)),
            rot_wf(final(self)@, N as nat),
    {
        match self.status_index(id) {
            Some(i) => {
                let mut s = self.statuses[i];
                s.retry = 0;
                self.statuses.set(i, s);
                assert(self@ =~= update_status(old(self)@, id, |s: ComponentStatus| retry_cleared(s)));
            },
            None => {},
        }
    }

    /// Record that `id` has been released: it is live and owes a
    /// boot-progress signal.
    fn mark_released(&mut self, id: ComponentId)
        requires
            rot_wf(old(self)@, N as nat),
        ensures
            final(self)@ == update_status(old(self)@, id, |s: ComponentStatus| release(s)),
            rot_wf(final(self)@, N as nat),
    {
        match self.status_index(id) {
            Some(i) => {
                let mut s = self.statuses[i];
                s.awaiting_boot = true;
                s.released = true;
                self.statuses.set(i, s);
                assert(self@ =~= update_status(old(self)@, id, |s: ComponentStatus| release(s)));
            },
            None => {},
        }
    }

    /// Clear `id`'s boot-progress watchdog because it reported in.
    fn clear_awaiting_boot(&mut self, id: ComponentId)
        requires
            rot_wf(old(self)@, N as nat),
        ensures
            final(self)@ == update_status(old(self)@, id, |s: ComponentStatus| reported_in(s)),
            rot_wf(final(self)@, N as nat),
    {
        match self.status_index(id) {
            Some(i) => {
                let mut s = self.statuses[i];
                s.awaiting_boot = false;
                self.statuses.set(i, s);
                assert(self@ =~= update_status(old(self)@, id, |s: ComponentStatus| reported_in(s)));
            },
            None => {},
        }
    }

    /// Hold `id` (it is no longer live), as recovery does.
    fn mark_held(&mut self, id: ComponentId) -> (r: u8)
        requires
            rot_wf(old(self)@, N as nat),
        ensures
            final(self)@ == update_status(old(self)@, id, |s: ComponentStatus| held(s)),
            r == match index_of(old(self)@.chain, id) {
                Some(i) => old(self)@.statuses[i].retry,
                None => 0,
            },
            rot_wf(final(self)@, N as nat),
    {
        match self.status_index(id) {
            Some(i) => {
                let mut s = self.statuses[i];
                s.released = false;
                self.statuses.set(i, s);
                assert(self@ =~= update_status(old(self)@, id, |s: ComponentStatus| held(s)));
                s.retry
            },
            None => 0,
        }
    }

    /// Advance `cursor` from `start_idx` to the first component not gated,
    /// emitting its `ReadFirmware`/`VerifyFirmware`; past the end if none.
    fn advance_to_next_ungated(&mut self, ctx: &mut Sink<E>, start_idx: usize) -> (r: bool)
        requires
            rot_wf(old(self)@, N as nat),
        ensures
            final(self)@ == advance(old(self)@, start_idx as int).0,
            final(ctx)@ == old(ctx)@ + advance(old(self)@, start_idx as int).1,
            r == advance(old(self)@, start_idx as int).2,
            rot_wf(final(self)@, N as nat),
    {
        let ghost v = self@;
        let mut idx = start_idx;
        while idx < self.chain.len()
            invariant
                self@ == v,
                v == old(self)@,
                ctx@ == old(ctx)@,
                rot_wf(v, N as nat),
                start_idx <= idx,
                forall|j: int| start_idx <= j < idx ==> is_isolated(#[trigger] v.statuses[j]),
            decreases self.chain.len() - idx,
        {
            let id = self.chain[idx].0;
            proof {
                lemma_index_of_unique(v.chain, idx as int);
            }
            if !self.is_gated(id) {
                self.cursor = idx as u8;
                ctx.emit(Effect::ReadFirmware(id));
                ctx.emit(Effect::VerifyFirmware(id));
                proof {
                    assert(!is_isolated(v.statuses[idx as int]));
                    assert(has_ungated_from(v, start_idx as int));
                    let k = first_ungated_from(v, start_idx as int);
                    assert(start_idx <= k < v.chain.len() && !is_isolated(v.statuses[k]));
                    assert(k == idx) by {
                        if k < idx {
                            assert(is_isolated(v.statuses[k]));
                        } else if k > idx {
                            assert(!is_isolated(v.statuses[idx as int]));
                        }
                    }
                }
                assert(self@ =~= advance(v, start_idx as int).0);
                assert(ctx@ =~= old(ctx)@ + advance(v, start_idx as int).1);
                return true;
            }
            idx += 1;
        }
        self.cursor = self.chain.len() as u8;
        assert(!has_ungated_from(v, start_idx as int));
        assert(self@ =~= advance(v, start_idx as int).0);
        assert(ctx@ =~= old(ctx)@ + advance(v, start_idx as int).1);
        false
    }

    /// Hold the whole platform for an at-rest re-verification: assert reset
    /// on every live component and drop its boot-progress watchdog.
    fn quiesce_all(&mut self, ctx: &mut Sink<E>)
        requires
            rot_wf(old(self)@, N as nat),
        ensures
            final(self)@ == quiesce(old(self)@).0,
            final(ctx)@ == old(ctx)@ + quiesce(old(self)@).1,
            rot_wf(final(self)@, N as nat),
    {
        let ghost v = self@;
        let n = self.chain.len();
        let mut i: usize = 0;
        while i < n
            invariant
                n == v.chain.len(),
                rot_wf(v, N as nat),
                i <= n,
                self.chain@ == v.chain,
                self.cursor == v.cursor,
                self.max_retry == v.max_retry,
                self.pending_commit == v.pending_commit,
                self.statuses@.len() == n,
                forall|k: int| 0 <= k < i ==> #[trigger] self.statuses@[k] == quiesced(v.statuses[k]),
                forall|k: int| i <= k < n ==> #[trigger] self.statuses@[k] == v.statuses[k],
                ctx@ == old(ctx)@ + quiesce_effects(v.chain, v.statuses, i as nat),
            decreases n - i,
        {
            if !self.statuses[i].released {
                assert(quiesce_effects(v.chain, v.statuses, (i + 1) as nat) =~= quiesce_effects(v.chain, v.statuses, i as nat));
                i += 1;
                continue;
            }
            let (id, _) = self.chain[i];
            ctx.emit(Effect::AssertReset(id));
            let mut s = self.statuses[i];
            s.released = false;
            s.awaiting_boot = false;
            self.statuses.set(i, s);
            assert(ctx@ =~= old(ctx)@ + quiesce_effects(v.chain, v.statuses, (i + 1) as nat));
            i += 1;
        }
        assert(self.statuses@ =~= v.statuses.map_values(|s: ComponentStatus| quiesced(s)));
        assert(self@ =~= quiesce(v).0);
    }

    /// The components whose `depends_on` names `holder`, in chain order.
    fn dependents_of(&self, holder: ComponentId) -> (r: Vec<ComponentId>)
        ensures
            r@ == dependents(self@.chain, holder),
    {
        let mut out: Vec<ComponentId> = Vec::new();
        let mut j: usize = 0;
        while j < self.chain.len()
            invariant
                j <= self.chain@.len(),
                out@ == dependents_upto(self@.chain, holder, j as nat),
            decreases self.chain@.len() - j,
        {
            let (id, attrs) = self.chain[j];
            if attrs.depends_on == Some(holder) {
                out.push(id);
            }
            j += 1;
        }
        out
    }

    /// Gate each of `ids`, in order.
    fn gate_list(&mut self, ctx: &mut Sink<E>, ids: &Vec<ComponentId>)
        requires
            rot_wf(old(self)@, N as nat),
        ensures
            final(self)@ == gate_each(old(self)@, ids@).0,
            final(ctx)@ == old(ctx)@ + gate_each(old(self)@, ids@).1,
            rot_wf(final(self)@, N as nat),
            final(self)@.chain == old(self)@.chain,
    {
        let ghost v = self@;
        let ghost c0 = ctx@;
        let mut k: usize = 0;
        while k < ids.len()
            invariant
                rot_wf(self@, N as nat),
                k <= ids@.len(),
                self@.chain == v.chain,
                self@ == gate_each(v, ids@.take(k as int)).0,
                ctx@ == c0 + gate_each(v, ids@.take(k as int)).1,
            decreases ids@.len() - k,
        {
            proof {
                assert(ids@.take(k + 1).drop_last() =~= ids@.take(k as int));
            }
            self.gate_one(ctx, ids[k]);
            k += 1;
            assert(ctx@ =~= c0 + gate_each(v, ids@.take(k as int)).1);
        }
        assert(ids@.take(ids@.len() as int) =~= ids@);
    }

    /// Hold `root` and cascade-hold every component whose `depends_on`
    /// (transitively) names it, breadth first, one level at a time.
    fn cascade_hold(&mut self, ctx: &mut Sink<E>, root: ComponentId)
        requires
            rot_wf(old(self)@, N as nat),
            in_chain(old(self)@, root),
        ensures
            final(self)@ == cascade(old(self)@, root).0,
            final(ctx)@ == old(ctx)@ + cascade(old(self)@, root).1,
            rot_wf(final(self)@, N as nat),
    {
        let ghost v = self@;
        let ghost c0 = ctx@;
        proof {
            reveal(cascade);
        }
        self.gate_one(ctx, root);
        let ghost v1 = self@;
        let ghost c1 = ctx@;
        let mut level: Vec<ComponentId> = Vec::new();
        level.push(root);
        assert(level@ =~= seq![root]);
        let rounds = self.chain.len();
        let mut r: usize = 0;
        while r < rounds
            invariant
                rot_wf(self@, N as nat),
                self@.chain == v.chain,
                rounds == v.chain.len(),
                r <= rounds,
                cascade_levels(self@, v.chain, level@, (rounds - r) as nat).0 == cascade(v, root).0,
                ctx@ + cascade_levels(self@, v.chain, level@, (rounds - r) as nat).1 == c0 + cascade(v, root).1,
            decreases rounds - r,
        {
            let ghost w = self@;
            let ghost cw = ctx@;
            let ghost lv = level@;
            let mut next: Vec<ComponentId> = Vec::new();
            let mut k: usize = 0;
            while k < level.len()
                invariant
                    self@ == w,
                    k <= level@.len(),
                    level@ == lv,
                    next@ == next_level(v.chain, level@.take(k as int)),
                    w.chain == v.chain,
                decreases level@.len() - k,
            {
                let d = self.dependents_of(level[k]);
                let mut m: usize = 0;
                let ghost n0 = next@;
                while m < d.len()
                    invariant
                        m <= d@.len(),
                        next@ == n0 + d@.take(m as int),
                    decreases d@.len() - m,
                {
                    next.push(d[m]);
                    m += 1;
                    assert(next@ =~= n0 + d@.take(m as int));
                }
                proof {
                    assert(d@.take(d@.len() as int) =~= d@);
                    assert(level@.take(k + 1).drop_last() =~= level@.take(k as int));
                    assert(level@.take(k + 1).last() == level@[k as int]);
                }
                k += 1;
            }
            assert(level@.take(level@.len() as int) =~= level@);
            self.gate_list(ctx, &next);
            proof {
                let g = gate_each(w, next@);
                let rest = cascade_levels(g.0, v.chain, next@, (rounds - r - 1) as nat);
                assert(cw + (g.1 + rest.1) =~= (cw + g.1) + rest.1);
            }
            level = next;
            r += 1;
        }
        assert(ctx@ + Seq::<Effect>::empty() =~= ctx@);
        reveal(cascade);
        assert(c0 + cascade(v, root).1 =~= c1 + cascade_levels(v1, v.chain, seq![root], v.chain.len()).1);
    }

    /// Gate a component by its failure policy: `Isolable` gates it alone,
    /// `Cascading` gates it and its transitive dependents; `Required` and an
    /// unknown id gate nothing.
    fn gate_by_policy(&mut self, ctx: &mut Sink<E>, id: ComponentId) -> (r: Gating)
        requires
            rot_wf(old(self)@, N as nat),
        ensures
            final(self)@ == gate_by_policy(old(self)@, id).0,
            final(ctx)@ == old(ctx)@ + gate_by_policy(old(self)@, id).1,
            (r == Gating::Gated) == gate_by_policy(old(self)@, id).2,
            rot_wf(final(self)@, N as nat),
    {
        proof {
            lemma_index_of(self.chain@, id);
        }
        match self.attrs_of(id) {
            Some(attrs) => match attrs.failure_policy {
                FailurePolicy::Cascading => {
                    self.cascade_hold(ctx, id);
                    Gating::Gated
                },
                FailurePolicy::Isolable => {
                    self.gate_one(ctx, id);
                    Gating::Gated
                },
                FailurePolicy::Required => {
                    assert(ctx@ =~= old(ctx)@ + seq![]);
                    Gating::NotGated
                },
            },
            None => {
                assert(ctx@ =~= old(ctx)@ + seq![]);
                Gating::NotGated
            },
        }
    }

    /// Release the component under verification (`id`, at the cursor) and
    /// advance the walk; returns its kind and whether another component is
    /// now under verification.
    fn release_current(&mut self, ctx: &mut Sink<E>, id: ComponentId) -> (r: (ComponentKind, bool))
        requires
            rot_wf(old(self)@, N as nat),
            at_cursor(old(self)@) == Some(id),
        ensures
            final(self)@ == release_and_advance(old(self)@, id).0,
            final(ctx)@ == old(ctx)@ + release_and_advance(old(self)@, id).1,
            r.0 == release_and_advance(old(self)@, id).2,
            r.1 == release_and_advance(old(self)@, id).3,
            rot_wf(final(self)@, N as nat),
    {
        let ghost c0 = ctx@;
        let cur = self.cursor as usize;
        let kind = self.chain[cur].1.kind;
        self.clear_retry(id);
        ctx.emit(Effect::ReleaseReset(id));
        self.mark_released(id);
        let ghost c1 = ctx@;
        let next_idx = cur + 1;
        let found = self.advance_to_next_ungated(ctx, next_idx);
        proof {
            let e3 = advance(
                update_status(
                    update_status(old(self)@, id, |s: ComponentStatus| retry_cleared(s)),
                    id,
                    |s: ComponentStatus| release(s),
                ),
                old(self)@.cursor + 1int,
            ).1;
            assert(ctx@ =~= c0 + (seq![Effect::ReleaseReset(id)] + e3));
        }
        (kind, found)
    }

    /// The component under verification was isolated since its verification
    /// was requested: keep it held and move the walk past it.
    fn skip_gated(&mut self, ctx: &mut Sink<E>) -> (r: Outcome)
        requires
            rot_wf(old(self)@, N as nat),
            old(self)@.cursor < old(self)@.chain.len(),
        ensures
            final(self)@ == skip_gated(old(self)@).0,
            final(ctx)@ == old(ctx)@ + skip_gated(old(self)@).1,
            r == skip_gated(old(self)@).2,
            rot_wf(final(self)@, N as nat),
    {
        let next_idx = self.cursor as usize + 1;
        if self.advance_to_next_ungated(ctx, next_idx) {
            Outcome::Handled
        } else {
            Outcome::Transition(State::Ready)
        }
    }

    /// Shared `CorruptionDetected` handling: a gating policy gates and stays
    /// put; a `Required` component is recovered.
    fn handle_corruption(&mut self, id: ComponentId, ctx: &mut Sink<E>) -> (r: Outcome)
        requires
            rot_wf(old(self)@, N as nat),
        ensures
            final(self)@ == handle_corruption(old(self)@, id).0,
            final(ctx)@ == old(ctx)@ + handle_corruption(old(self)@, id).1,
            r == handle_corruption(old(self)@, id).2,
            rot_wf(final(self)@, N as nat),
    {
        match self.gate_by_policy(ctx, id) {
            Gating::Gated => Outcome::Handled,
            Gating::NotGated => Outcome::Transition(State::Recovering(id)),
        }
    }

    /// Dispatch `event` to the handler for the leaf state `state`.
    fn handle(&mut self, state: State, event: &Event, ctx: &mut Sink<E>) -> (r: Outcome)
        requires
            rot_wf(old(self)@, N as nat),
        ensures
            final(self)@ == handle(old(self)@, state, *event).0,
            final(ctx)@ == old(ctx)@ + handle(old(self)@, state, *event).1,
            r == handle(old(self)@, state, *event).2,
            rot_wf(final(self)@, N as nat),
    {
        let ghost v = self@;
        let ghost c0 = ctx@;
        proof {
            assert(c0 + seq![] =~= c0);
        }
        match state {
            State::PowerOnReset => match event {
                Event::PowerGood(PowerOnResult::Provisioned) => Outcome::Transition(State::PreSupervision),
                Event::PowerGood(PowerOnResult::Unprovisioned) => Outcome::Transition(State::Locked),
                Event::PowerGood(PowerOnResult::SelfVerificationFailed) => Outcome::Transition(State::Locked),
                Event::EffectFailed => Outcome::Transition(State::Locked),
                _ => Outcome::Super,
            },
            State::PreSupervision => match event {
                Event::VerificationPassed(id) => {
                    let id = *id;
                    let cur = self.cursor as usize;
                    if cur >= self.chain.len() || self.chain[cur].0 != id {
                        return Outcome::Handled;
                    }
                    if self.is_gated(id) {
                        return self.skip_gated(ctx);
                    }
                    let (current_kind, found) = self.release_current(ctx, id);
                    if found {
                        match current_kind {
                            ComponentKind::Active => Outcome::Transition(State::AwaitingReady(Some(id))),
                            _ => Outcome::Handled,
                        }
                    } else {
                        Outcome::Transition(State::Ready)
                    }
                },
                Event::VerificationFailed(id) => Outcome::Transition(State::Recovering(*id)),
                Event::CorruptionDetected(id) => self.handle_corruption(*id, ctx),
                Event::Booted(id) => {
                    self.clear_awaiting_boot(*id);
                    Outcome::Handled
                },
                Event::Timeout(id) => {
                    if self.is_awaiting_boot(*id) {
                        Outcome::Transition(State::Recovering(*id))
                    } else {
                        Outcome::Handled
                    }
                },
                Event::EffectFailed => Outcome::Transition(State::Locked),
                _ => Outcome::Super,
            },
            State::AwaitingReady(awaiting) => match event {
                Event::ComponentReady(id) => {
                    self.clear_awaiting_boot(*id);
                    if awaiting != Some(*id) {
                        return Outcome::Handled;
                    }
                    if (self.cursor as usize) >= self.chain.len() {
                        Outcome::Transition(State::Ready)
                    } else {
                        Outcome::Transition(State::AwaitingReady(None))
                    }
                },
                Event::VerificationPassed(id) => {
                    let id = *id;
                    let cur = self.cursor as usize;
                    if cur >= self.chain.len() || self.chain[cur].0 != id {
                        return Outcome::Handled;
                    }
                    if self.is_gated(id) {
                        return self.skip_gated(ctx);
                    }
                    let (_, found) = self.release_current(ctx, id);
                    if found {
                        Outcome::Handled
                    } else {
                        Outcome::Transition(State::Ready)
                    }
                },
                Event::VerificationFailed(id) => Outcome::Transition(State::Recovering(*id)),
                _ => Outcome::Super,
            },
            State::Ready => match event {
                Event::UpdateRequest => Outcome::Transition(State::Updating),
                Event::BootConfirmed(id) => {
                    ctx.emit(Effect::CommitSvnFloor(*id));
                    self.pending_commit = false;
                    assert(self@ =~= handle(v, state, *event).0);
                    Outcome::Handled
                },
                Event::CommitTimeout => {
                    if self.pending_commit {
                        Outcome::Transition(State::Locked)
                    } else {
                        Outcome::Handled
                    }
                },
                _ => Outcome::Super,
            },
            State::Updating => match event {
                Event::UpdateVerified => {
                    ctx.emit(Effect::ActivateUpdate);
                    self.pending_commit = true;
                    assert(self@ =~= handle(v, state, *event).0);
                    Outcome::Transition(State::Ready)
                },
                Event::UpdateRejected => {
                    ctx.emit(Effect::DiscardStaged);
                    Outcome::Transition(State::Ready)
                },
                Event::CorruptionDetected(id) => {
                    let outcome = self.handle_corruption(*id, ctx);
                    let ghost c1 = ctx@;
                    if matches!(outcome, Outcome::Transition(State::Recovering(_))) {
                        ctx.emit(Effect::DiscardStaged);
                        ctx.emit(Effect::ReportUpdateAborted);
                        assert(ctx@ =~= c0 + (handle_corruption(v, *id).1 + seq![Effect::DiscardStaged, Effect::ReportUpdateAborted]));
                    }
                    outcome
                },
                _ => Outcome::Super,
            },
            State::Recovering(failed) => match event {
                Event::Restored(id) => {
                    if *id != failed {
                        return Outcome::Handled;
                    }
                    proof {
                        lemma_index_of(v.chain, failed);
                    }
                    let attempts = self.bump_retry(failed);
                    if attempts < self.max_retry {
                        Outcome::Transition(State::PreSupervision)
                    } else {
                        match self.gate_by_policy(ctx, failed) {
                            Gating::Gated => {
                                self.clear_retry(failed);
                                Outcome::Transition(State::PreSupervision)
                            },
                            Gating::NotGated => {
                                let ghost c1 = ctx@;
                                ctx.emit(Effect::ReportRecoveryFailed(failed));
                                ctx.emit(Effect::Emit(Event::RecoveryFailed));
                                assert(ctx@ =~= c0 + (handle(v, state, *event).1));
                                Outcome::Handled
                            },
                        }
                    }
                },
                Event::RecoveryFailed => Outcome::Transition(State::Locked),
                _ => Outcome::Super,
            },
            State::Locked => Outcome::Super,
        }
    }

    /// The supervising handler, reached only when the leaf handler of a
    /// supervised state defers.
    fn handle_supervising(&mut self, event: &Event, ctx: &mut Sink<E>) -> (r: Outcome)
        requires
            rot_wf(old(self)@, N as nat),
        ensures
            final(self)@ == handle_supervising(old(self)@, *event).0,
            final(ctx)@ == old(ctx)@ + handle_supervising(old(self)@, *event).1,
            r == handle_supervising(old(self)@, *event).2,
            rot_wf(final(self)@, N as nat),
    {
        let ghost c0 = ctx@;
        proof {
            assert(c0 + seq![] =~= c0);
        }
        match event {
            Event::AttestationChallenge => {
                ctx.emit(Effect::SignAttestation);
                Outcome::Handled
            },
            Event::CorruptionDetected(id) => self.handle_corruption(*id, ctx),
            Event::ComponentReady(id) => {
                self.clear_awaiting_boot(*id);
                Outcome::Handled
            },
            Event::Booted(id) => {
                self.clear_awaiting_boot(*id);
                Outcome::Handled
            },
            Event::Timeout(id) => {
                if self.is_awaiting_boot(*id) {
                    Outcome::Transition(State::Recovering(*id))
                } else {
                    Outcome::Handled
                }
            },
            Event::UpdateRequest => {
                ctx.emit(Effect::ReportUpdateDeferred);
                Outcome::Handled
            },
            Event::EffectFailed => Outcome::Transition(State::Locked),
            _ => Outcome::Super,
        }
    }

    /// Run `state`'s entry action.
    fn entry_action(&mut self, state: State, ctx: &mut Sink<E>)
        requires
            rot_wf(old(self)@, N as nat),
        ensures
            final(self)@ == entry(old(self)@, state).0,
            final(ctx)@ == old(ctx)@ + entry(old(self)@, state).1,
            rot_wf(final(self)@, N as nat),
    {
        let ghost v = self@;
        let ghost c0 = ctx@;
        proof {
            assert(c0 + seq![] =~= c0);
        }
        match state {
            State::PreSupervision => {
                self.quiesce_all(ctx);
                let ghost c1 = ctx@;
                let _ = self.advance_to_next_ungated(ctx, 0);
                proof {
                    let (v1, e1) = quiesce(v);
                    assert(ctx@ =~= c0 + (e1 + advance(v1, 0).1));
                }
            },
            State::Updating => {
                self.pending_commit = false;
                ctx.emit(Effect::AuthenticateUpdate);
                ctx.emit(Effect::StageUpdate);
                assert(self@ =~= entry(v, state).0);
                assert(ctx@ =~= c0 + entry(v, state).1);
            },
            State::Recovering(failed) => {
                self.pending_commit = false;
                self.clear_awaiting_boot(failed);
                let attempt = self.mark_held(failed);
                ctx.emit(Effect::RecoverComponent { id: failed, attempt });
                assert(ctx@ =~= c0 + entry(v, state).1);
            },
            State::Locked => {
                ctx.emit(Effect::LatchLockdown);
                assert(ctx@ =~= c0 + entry(v, state).1);
            },
            State::Ready => {
                let n = self.statuses.len();
                let mut i: usize = 0;
                while i < n
                    invariant
                        rot_wf(v, N as nat),
                        n == v.statuses.len(),
                        i <= n,
                        self.chain@ == v.chain,
                        self.cursor == v.cursor,
                        self.max_retry == v.max_retry,
                        self.pending_commit == v.pending_commit,
                        self.statuses@.len() == n,
                        forall|k: int| 0 <= k < i ==> #[trigger] self.statuses@[k] == retry_cleared(v.statuses[k]),
                        forall|k: int| i <= k < n ==> #[trigger] self.statuses@[k] == v.statuses[k],
                    decreases n - i,
                {
                    let mut s = self.statuses[i];
                    s.retry = 0;
                    self.statuses.set(i, s);
                    i += 1;
                }
                assert(self.statuses@ =~= v.statuses.map_values(|s: ComponentStatus| retry_cleared(s)));
                assert(self@ =~= entry(v, state).0);
            },
            _ => {},
        }
    }
}

/// Signals that the platform driver could not carry out an [`Effect`]. Every
/// actuation failure is treated the same, fail-closed: the orchestrator
/// injects [`Event::EffectFailed`] and the machine latches to `Locked`.
#[derive(Clone, Copy, PartialEq, Eq, Debug, Structural)]
pub struct EffectError;

/// Outward connection to the platform: carry out one effect, reporting
/// [`EffectError`] if it could not be performed, and optionally feeding back
/// one event the effect produced synchronously. Never called with
/// [`Effect::Emit`]. Implemented by the board's driver; nothing is assumed
/// of what it returns. An implementation keeps, as its specification, the
/// record of the effects it was asked to carry out and what it answered.
pub trait Platform {
    /// The effects carried out so far, in order, each with its answer. A
    /// verified implementation defines it, as `execute` cannot meet its
    /// contract otherwise; the default records nothing.
    open spec fn calls(&self) -> Seq<(Effect, Result<Option<Event>, EffectError>)> {
        Seq::empty()
    }

    /// Carry out `effect`; the call and its answer are recorded.
    fn execute(&mut self, effect: Effect) -> (r: Result<Option<Event>, EffectError>)
        ensures
            final(self).calls() == old(self).calls().push((effect, r)),
    ;
}

/// What carries out the external effects of a dispatch run, and what it
/// may answer for each: anything, for a [`Platform`]; what the closure may
/// return, for a caller's closure. What it may answer does not change.
trait Executor {
    /// It can be run on any effect.
    spec fn ready(&self) -> bool;

    spec fn may_answer(&self, effect: Effect, answer: Result<Option<Event>, EffectError>) -> bool;

    /// The effects run so far, in order, each with its answer.
    spec fn log(&self) -> Seq<(Effect, Result<Option<Event>, EffectError>)>;

    fn run_effect(&mut self, effect: Effect) -> (r: Result<Option<Event>, EffectError>)
        requires
            old(self).ready(),
        ensures
            final(self).ready(),
            old(self).may_answer(effect, r),
            final(self).log() == old(self).log().push((effect, r)),
            forall|e: Effect, a: Result<Option<Event>, EffectError>|
                #[trigger] final(self).may_answer(e, a) == old(self).may_answer(e, a),
    ;
}

impl<P: Platform> Executor for P {
    closed spec fn ready(&self) -> bool {
        true
    }

    closed spec fn may_answer(&self, effect: Effect, answer: Result<Option<Event>, EffectError>) -> bool {
        true
    }

    closed spec fn log(&self) -> Seq<(Effect, Result<Option<Event>, EffectError>)> {
        self.calls()
    }

    fn run_effect(&mut self, effect: Effect) -> (r: Result<Option<Event>, EffectError>) {
        self.execute(effect)
    }
}

/// A caller's closure, callable on every effect.
struct ClosureExecutor<F> {
    f: F,
    log: Ghost<Seq<(Effect, Result<Option<Event>, EffectError>)>>,
}

impl<F: FnMut(Effect) -> Result<Option<Event>, EffectError>> Executor for ClosureExecutor<F> {
    closed spec fn ready(&self) -> bool {
        forall|e: Effect| call_requires(self.f, (e,))
    }

    closed spec fn may_answer(&self, effect: Effect, answer: Result<Option<Event>, EffectError>) -> bool {
        call_ensures(self.f, (effect,), answer)
    }

    closed spec fn log(&self) -> Seq<(Effect, Result<Option<Event>, EffectError>)> {
        self.log@
    }

    fn run_effect(&mut self, effect: Effect) -> (r: Result<Option<Event>, EffectError>) {
        let r = (self.f)(effect);
        self.log = Ghost(self.log@.push((effect, r)));
        r
    }
}

/// Upper bound on events queued at once inside one dispatch run.
pub const PENDING_CAP: usize = QUEUE_CAPACITY;

/// The rest of a batch once one effect has fed back `follow_up` (or
/// nothing): queue it, then settle `rest` unless the batch was abandoned.
spec fn settle_then(
    pending: Seq<Event>,
    failed: bool,
    follow_up: Option<Event>,
    rest: Seq<Effect>,
    answers: Seq<Result<Option<Event>, EffectError>>,
) -> (Seq<Event>, bool, Seq<Effect>) {
    match follow_up {
        None => settle_effects(pending, failed, rest, answers),
        Some(ev) => {
            let (p, f, stop) = enqueue(pending, failed, ev);
            if stop {
                (p, f, seq![])
            } else {
                settle_effects(p, f, rest, answers)
            }
        },
    }
}

/// A batch outcome with `h` handed to the executor before the rest.
spec fn after_handed(h: Seq<Effect>, t: (Seq<Event>, bool, Seq<Effect>)) -> (Seq<Event>, bool, Seq<Effect>) {
    (t.0, t.1, h + t.2)
}

/// The rest of a batch after an external effect answered `answer`.
spec fn x_t(
    x: Seq<Result<Option<Event>, EffectError>>,
    pending: Seq<Event>,
    failed: bool,
    answer: Result<Option<Event>, EffectError>,
    rest: Seq<Effect>,
) -> (Seq<Event>, bool, Seq<Effect>) {
    match answer {
        Err(_) => (if failed {
            pending
        } else {
            latched(pending)
        }, true, seq![]),
        Ok(f) => settle_then(pending, failed, f, rest, x),
    }
}

/// Once every effect is handed on, the batch has settled.
proof fn reached_end(
    p0: Seq<Event>,
    f0: bool,
    effs: Seq<Effect>,
    used: Seq<Result<Option<Event>, EffectError>>,
    h: Seq<Effect>,
    p: Seq<Event>,
    f: bool,
    k: int,
)
    requires
        0 <= k <= effs.len(),
        forall|x: Seq<Result<Option<Event>, EffectError>>|
            settle_effects(p0, f0, effs, used + x) == after_handed(h, #[trigger] settle_effects(p, f, effs.skip(k), x)),
    ensures
        k == effs.len() ==> forall|x: Seq<Result<Option<Event>, EffectError>>|
            #[trigger] settle_effects(p0, f0, effs, used + x) == (p, f, h),
{
    if k == effs.len() {
        assert(effs.skip(k) =~= Seq::<Effect>::empty());
        assert forall|x: Seq<Result<Option<Event>, EffectError>>|
            #[trigger] settle_effects(p0, f0, effs, used + x) == (p, f, h) by {
            assert(settle_effects(p0, f0, effs, used + x) == after_handed(h, settle_effects(p, f, effs.skip(k), x)));
            assert(h + Seq::<Effect>::empty() =~= h);
        }
    }
}

/// Put `EffectFailed` at the front of the queue, evicting the newest queued
/// event if the queue is full.
fn latch(pending: &mut EventQueue)
    requires
        old(pending)@.len() <= PENDING_CAP,
    ensures
        final(pending)@ == latched(old(pending)@),
        final(pending)@.len() <= PENDING_CAP,
{
    if pending.is_full() {
        let _ = pending.pop_back();
    }
    let _ = pending.push_front(Event::EffectFailed);
}

/// A handle for a caller's own event loop. Owns the machine's storage and
/// its current [`State`], and drives them event by event.
pub struct Orchestrator<const N: usize, const E: usize> {
    rot: Rot<N, E>,
    state: State,
}

impl<const N: usize, const E: usize> View for Orchestrator<N, E> {
    type V = (RotView, State);

    closed spec fn view(&self) -> (RotView, State) {
        (self.rot@, self.state)
    }
}

impl<const N: usize, const E: usize> Orchestrator<N, E> {
    /// The storage is well formed and the effect buffer is large enough.
    pub closed spec fn wf(&self) -> bool {
        &&& rot_wf(self.rot@, N as nat)
        &&& 2 * N + 2 <= E
    }

    /// A machine over `chain` in `PowerOnReset`. The effect buffer must hold
    /// a full cascade plus a re-walk's first verification: `E >= 2 * N + 2`.
    pub fn new(chain: Chain<N>, max_retry: u8) -> (r: Self)
        requires
            2 * N + 2 <= E,
        ensures
            r@ == (initial_rot(chain.entries(), max_retry), State::PowerOnReset),
            r.wf(),
            rot_wf(r@.0, N as nat),
    {
        Orchestrator { rot: Rot::new(chain, max_retry), state: State::PowerOnReset }
    }

    pub fn state(&self) -> (r: State)
        ensures
            r == self@.1,
    {
        self.state
    }

    /// Whether `state` is nested under the supervising handler.
    fn is_supervised(state: State) -> (r: bool)
        ensures
            r == is_supervised(state),
    {
        match state {
            State::AwaitingReady(_) => true,
            State::Ready => true,
            State::Updating => true,
            State::Recovering(_) => true,
            _ => false,
        }
    }

    /// Reduce one event: drop events naming an id outside the chain,
    /// dispatch, fall through to the supervisor if needed, and apply the
    /// resulting transition.
    #[verifier::spinoff_prover]
    #[verifier::rlimit(40)]
    fn step(&mut self, event: &Event, ctx: &mut Sink<E>)
        requires
            old(self).wf(),
        ensures
            final(self).wf(),
            (final(self)@.0, final(self)@.1) == (step(old(self)@.0, old(self)@.1, *event).0, step(old(self)@.0, old(self)@.1, *event).1),
            final(ctx)@ == old(ctx)@ + step(old(self)@.0, old(self)@.1, *event).2,
    {
        reveal(step);
        let ghost v = self.rot@;
        let ghost s0 = self.state;
        let ghost c0 = ctx@;
        match event.component_id() {
            Some(id) => {
                if !self.rot.in_chain(id) {
                    assert(c0 + seq![] =~= c0);
                    return;
                }
            },
            None => {},
        }
        let mut outcome = self.rot.handle(self.state, event, ctx);
        let ghost c1 = ctx@;
        let ghost h = handle(v, s0, *event);
        if outcome == Outcome::Super && Self::is_supervised(self.state) {
            outcome = self.rot.handle_supervising(event, ctx);
        } else {
            assert(c1 + seq![] =~= c1);
        }
        let ghost c2 = ctx@;
        let ghost v2 = self.rot@;
        proof {
            let (v1, e1, o1) = h;
            let (w2, e2, o2) = if o1 is Super && is_supervised(s0) {
                handle_supervising(v1, *event)
            } else {
                (v1, seq![], o1)
            };
            assert(w2 == v2 && o2 == outcome);
            assert(c2 =~= c0 + (e1 + e2));
        }
        match outcome {
            Outcome::Transition(target) => {
                self.state = target;
                self.rot.entry_action(target, ctx);
                proof {
                    let (v1, e1, o1) = h;
                    let (w2, e2, o2) = if o1 is Super && is_supervised(s0) {
                        handle_supervising(v1, *event)
                    } else {
                        (v1, seq![], o1)
                    };
                    let (v3, e3) = entry(v2, target);
                    assert(step(v, s0, *event) == (v3, target, e1 + e2 + e3));
                    assert(ctx@ =~= c0 + (e1 + e2 + e3));
                }
            },
            _ => {
                assert(ctx@ =~= c0 + step(v, s0, *event).2);
            },
        }
    }

    /// Handle one event all the way through: every `Emit` follow-up and every
    /// event the executor returns, running the executor on each external
    /// effect in order. A failed effect injects `EffectFailed` at the front
    /// of the queue and abandons the rest of its batch; so does a full queue.
    /// The run is the model's run of `run_spec` for the answers the executor
    /// gave, handing it exactly the effects the model hands out; it is a
    /// complete run, round for round, and its storage and state are also
    /// those of reducing, in order, the given event followed by the events
    /// the run settled.
    fn dispatch_via<X: Executor>(&mut self, exec: &mut X, event: Event)
        requires
            old(self).wf(),
            old(exec).ready(),
        ensures
            final(self).wf(),
            rot_wf(final(self)@.0, N as nat),
            dispatch_may_end(old(self)@.0, old(self)@.1, event, final(self)@.0, final(self)@.1),
            exists|evs: Seq<Event>|
                evs.len() >= 1 && evs[0] == event && #[trigger] run_steps(old(self)@.0, old(self)@.1, evs) == final(self)@,
            exists|effects: Seq<Effect>, answers: Seq<Result<Option<Event>, EffectError>>|
                #[trigger] dispatch_calls(old(self)@.0, old(self)@.1, event, effects, answers, final(self)@.0, final(self)@.1)
                    && (forall|i: int| 0 <= i < effects.len() ==> old(exec).may_answer(effects[i], answers[i]))
                    && final(exec).log() == old(exec).log() + paired(effects, answers),
    {
        let ghost v0 = self@;
        let ghost start = run_start(v0.0, v0.1, event);
        let ghost exec0 = *exec;
        let mut pending = EventQueue::new();
        let _ = pending.push_back(event);
        let mut failed = false;
        let mut budget: u64 = u64::MAX;
        let ghost mut settled: Seq<Event> = Seq::empty();
        let ghost mut rounds: Seq<RunView> = seq![start];
        let ghost mut all_effects: Seq<Effect> = Seq::empty();
        let ghost mut all_answers: Seq<Result<Option<Event>, EffectError>> = Seq::empty();
        assert(pending@ =~= seq![event]);
        proof {
            assert forall|x: Seq<Result<Option<Event>, EffectError>>|
                #[trigger] run_from(start, all_answers + x) == (run_from(start, x).0, all_effects + run_from(start, x).1) by {
                assert(all_answers + x =~= x);
                assert(all_effects + run_from(start, x).1 =~= run_from(start, x).1);
            }
        }
        loop
            invariant
                self.wf(),
                pending@.len() <= PENDING_CAP,
                settled.len() == 0 ==> pending@.len() >= 1 && pending@[0] == event && budget == u64::MAX,
                settled.len() >= 1 ==> settled[0] == event,
                run_steps(v0.0, v0.1, settled) == self@,
                rounds.len() >= 1,
                rounds[0] == start,
                forall|i: int| 0 <= i < rounds.len() - 1 ==> #[trigger] round_follows(rounds[i], rounds[i + 1]),
                rounds.last() == (RunView { rot: self@.0, state: self@.1, pending: pending@, failed, budget: budget as nat }),
                exec.ready(),
                forall|e: Effect, a: Result<Option<Event>, EffectError>| #[trigger] exec.may_answer(e, a) == exec0.may_answer(e, a),
                all_effects.len() == all_answers.len(),
                forall|i: int| 0 <= i < all_effects.len() ==> exec0.may_answer(all_effects[i], all_answers[i]),
                exec.log() == exec0.log() + paired(all_effects, all_answers),
                forall|x: Seq<Result<Option<Event>, EffectError>>|
                    #[trigger] run_from(start, all_answers + x) == (run_from(rounds.last(), x).0, all_effects + run_from(
                        rounds.last(),
                        x,
                    ).1),
            ensures
                self.wf(),
                settled.len() >= 1 && settled[0] == event && run_steps(v0.0, v0.1, settled) == self@,
                complete_run(start, rounds),
                rounds.last().rot == self@.0 && rounds.last().state == self@.1,
                all_effects.len() == all_answers.len(),
                forall|i: int| 0 <= i < all_effects.len() ==> exec0.may_answer(all_effects[i], all_answers[i]),
                exec.log() == exec0.log() + paired(all_effects, all_answers),
                forall|x: Seq<Result<Option<Event>, EffectError>>|
                    #[trigger] run_from(start, all_answers + x) == (run_from(rounds.last(), x).0, all_effects + run_from(
                        rounds.last(),
                        x,
                    ).1),
            decreases budget,
        {
            if budget == 0 {
                break;
            }
            let ghost r1 = rounds.last();
            let ev = match pending.pop_front() {
                Some(ev) => ev,
                None => break,
            };
            budget -= 1;
            let ghost p_start = pending@;
            let ghost f_start = failed;
            let mut buf = Sink::<E>::new();
            self.step(&ev, &mut buf);
            proof {
                let old_settled = settled;
                settled = settled.push(ev);
                assert(settled.drop_last() =~= old_settled);
                assert(p_start =~= r1.pending.drop_first());
            }
            let effects = buf.effects();
            let ghost effs = effects@;
            let ghost mut used: Seq<Result<Option<Event>, EffectError>> = Seq::empty();
            let ghost mut h: Seq<Effect> = Seq::empty();
            proof {
                assert forall|x: Seq<Result<Option<Event>, EffectError>>|
                    settle_effects(p_start, f_start, effs, used + x) == after_handed(
                        h,
                        #[trigger] settle_effects(p_start, f_start, effs.skip(0), x),
                    ) by {
                    assert(used + x =~= x);
                    assert(effs.skip(0) =~= effs);
                    let t = settle_effects(p_start, f_start, effs, x);
                    assert(h + t.2 =~= t.2);
                }
                reached_end(p_start, f_start, effs, used, h, pending@, failed, 0);
            }
            let ghost log_start = exec.log();
            proof {
                assert(paired(h, used) =~= Seq::empty());
                assert(log_start + paired(h, used) =~= log_start);
            }
            let mut k: usize = 0;
            while k < effects.len()
                invariant_except_break
                    forall|x: Seq<Result<Option<Event>, EffectError>>|
                        settle_effects(p_start, f_start, effs, used + x) == after_handed(
                            h,
                            #[trigger] settle_effects(pending@, failed, effs.skip(k as int), x),
                        ),
                    k == effs.len() ==> forall|x: Seq<Result<Option<Event>, EffectError>>|
                        #[trigger] settle_effects(p_start, f_start, effs, used + x) == (pending@, failed, h),
                invariant
                    self.wf(),
                    pending@.len() <= PENDING_CAP,
                    settled.len() >= 1 && settled[0] == event,
                    run_steps(v0.0, v0.1, settled) == self@,
                    effs == effects@,
                    k <= effs.len(),
                    h.len() == used.len(),
                    forall|i: int| 0 <= i < h.len() ==> exec0.may_answer(h[i], used[i]),
                    exec.ready(),
                    forall|e: Effect, a: Result<Option<Event>, EffectError>| #[trigger] exec.may_answer(e, a) == exec0.may_answer(e, a),
                    exec.log() == log_start + paired(h, used),
                ensures
                    self.wf(),
                    pending@.len() <= PENDING_CAP,
                    settled.len() >= 1 && settled[0] == event,
                    run_steps(v0.0, v0.1, settled) == self@,
                    h.len() == used.len(),
                    forall|i: int| 0 <= i < h.len() ==> exec0.may_answer(h[i], used[i]),
                    exec.ready(),
                    forall|e: Effect, a: Result<Option<Event>, EffectError>| #[trigger] exec.may_answer(e, a) == exec0.may_answer(e, a),
                    exec.log() == log_start + paired(h, used),
                    forall|x: Seq<Result<Option<Event>, EffectError>>| #[trigger] settle_effects(p_start, f_start, effs, used + x) == (pending@, failed, h),
                decreases effects.len() - k,
            {
                let effect = effects[k];
                let ghost pk = pending@;
                let ghost fk = failed;
                let ghost hk = h;
                let ghost rest = effs.skip(k + 1);
                proof {
                    assert(effs.skip(k as int)[0] == effect);
                    assert(effs.skip(k as int).drop_first() =~= rest);
                }
                k += 1;
                let follow_up = match effect {
                    Effect::Emit(internal) => {
                        proof {
                            assert forall|x: Seq<Result<Option<Event>, EffectError>>|
                                settle_effects(p_start, f_start, effs, used + x) == after_handed(
                                    hk,
                                    #[trigger] settle_then(pk, fk, Some(internal), rest, x),
                                ) by {
                                assert(settle_effects(p_start, f_start, effs, used + x) == after_handed(
                                    hk,
                                    settle_effects(pk, fk, effs.skip(k - 1), x),
                                ));
                            }
                        }
                        Some(internal)
                    },
                    external => {
                        let answer = exec.run_effect(external);
                        proof {
                            assert forall|x: Seq<Result<Option<Event>, EffectError>>|
                                settle_effects(p_start, f_start, effs, used.push(answer) + x) == after_handed(
                                    hk,
                                    settle_effects(pk, fk, effs.skip(k - 1), seq![answer] + x),
                                ) by {
                                assert(used.push(answer) + x =~= used + (seq![answer] + x));
                            }
                            assert forall|x: Seq<Result<Option<Event>, EffectError>>|
                                #[trigger] settle_effects(pk, fk, effs.skip(k - 1), seq![answer] + x) == handed_first(
                                    external,
                                    match answer {
                                        Err(_) => (if fk {
                                            pk
                                        } else {
                                            latched(pk)
                                        }, true, seq![]),
                                        Ok(f) => settle_then(pk, fk, f, rest, x),
                                    },
                                ) by {
                                assert((seq![answer] + x)[0] == answer);
                                assert((seq![answer] + x).drop_first() =~= x);
                            }
                            assert forall|x: Seq<Result<Option<Event>, EffectError>>|
                                #[trigger] after_handed(hk, handed_first(external, x_t(x, pk, fk, answer, rest)))
                                    == after_handed(hk.push(external), x_t(x, pk, fk, answer, rest)) by {
                                assert(hk + (seq![external] + x_t(x, pk, fk, answer, rest).2) =~= hk.push(external)
                                    + x_t(x, pk, fk, answer, rest).2);
                            }
                            let ghost used_k = used;
                            used = used.push(answer);
                            h = h.push(external);
                            assert(paired(h, used) =~= paired(hk, used_k).push((external, answer)));
                            assert(log_start + paired(h, used) =~= (log_start + paired(hk, used_k)).push((external, answer)));
                            assert(exec0.may_answer(external, answer));
                            assert forall|i: int| 0 <= i < h.len() implies exec0.may_answer(h[i], used[i]) by {
                                if i < hk.len() {
                                    assert(h[i] == hk[i]);
                                }
                            }
                        }
                        match answer {
                            Ok(follow_up) => {
                                proof {
                                    assert forall|x: Seq<Result<Option<Event>, EffectError>>|
                                        settle_effects(p_start, f_start, effs, used + x) == after_handed(
                                            h,
                                            #[trigger] settle_then(pk, fk, follow_up, rest, x),
                                        ) by {
                                        assert(x_t(x, pk, fk, answer, rest) == settle_then(pk, fk, follow_up, rest, x));
                                    }
                                }
                                follow_up
                            },
                            Err(_) => {
                                proof {
                                    assert forall|x: Seq<Result<Option<Event>, EffectError>>|
                                        #[trigger] settle_effects(p_start, f_start, effs, used + x) == (if fk {
                                            pk
                                        } else {
                                            latched(pk)
                                        }, true, h) by {
                                        let t = x_t(x, pk, fk, answer, rest);
                                        assert(t == (if fk {
                                            pk
                                        } else {
                                            latched(pk)
                                        }, true, Seq::<Effect>::empty()));
                                        assert(h + t.2 =~= h);
                                    }
                                }
                                if !failed {
                                    failed = true;
                                    latch(&mut pending);
                                }
                                break;
                            },
                        }
                    },
                };
                match follow_up {
                    Some(next) => {
                        if pending.push_back(next).is_err() && !failed {
                            failed = true;
                            latch(&mut pending);
                            proof {
                                assert forall|x: Seq<Result<Option<Event>, EffectError>>|
                                    #[trigger] settle_effects(p_start, f_start, effs, used + x) == (pending@, failed, h) by {
                                    assert(settle_effects(p_start, f_start, effs, used + x) == after_handed(
                                        h,
                                        settle_then(pk, fk, follow_up, rest, x),
                                    ));
                                    assert(h + Seq::<Effect>::empty() =~= h);
                                }
                            }
                            break;
                        }
                    },
                    None => {},
                }
                proof {
                    assert forall|x: Seq<Result<Option<Event>, EffectError>>|
                        settle_effects(p_start, f_start, effs, used + x) == after_handed(
                            h,
                            #[trigger] settle_effects(pending@, failed, effs.skip(k as int), x),
                        ) by {
                        assert(settle_effects(p_start, f_start, effs, used + x) == after_handed(
                            h,
                            settle_then(pk, fk, follow_up, rest, x),
                        ));
                    }
                    reached_end(p_start, f_start, effs, used, h, pending@, failed, k as int);
                }
            }
            proof {
                let r2 = RunView { rot: self@.0, state: self@.1, pending: pending@, failed, budget: budget as nat };
                assert(settle_effects(p_start, f_start, effs, used + Seq::<Result<Option<Event>, EffectError>>::empty()) == (pending@, failed, h));
                assert(used + Seq::<Result<Option<Event>, EffectError>>::empty() =~= used);
                assert(run_round(r1, used) == r2);
                assert(round_follows(r1, r2));
                assert forall|x: Seq<Result<Option<Event>, EffectError>>|
                    #[trigger] run_from(r1, used + x) == (run_from(r2, x).0, h + run_from(r2, x).1) by {
                    assert(settle_effects(p_start, f_start, effs, used + x) == (pending@, failed, h));
                    assert(handed_in_round(r1, used + x) == h);
                    assert(run_round(r1, used + x) == r2);
                    assert((used + x).skip(h.len() as int) =~= x);
                }
                let old_rounds = rounds;
                let a0 = all_answers;
                let e0 = all_effects;
                rounds = rounds.push(r2);
                assert forall|i: int| 0 <= i < rounds.len() - 1 implies #[trigger] round_follows(rounds[i], rounds[i + 1]) by {
                    if i < old_rounds.len() - 1 {
                        assert(rounds[i] == old_rounds[i] && rounds[i + 1] == old_rounds[i + 1]);
                    }
                }
                all_answers = all_answers + used;
                all_effects = all_effects + h;
                assert(paired(all_effects, all_answers) =~= paired(e0, a0) + paired(h, used));
                assert(exec0.log() + paired(all_effects, all_answers) =~= exec0.log() + paired(e0, a0) + paired(h, used));
                assert forall|x: Seq<Result<Option<Event>, EffectError>>|
                    #[trigger] run_from(start, all_answers + x) == (run_from(rounds.last(), x).0, all_effects + run_from(
                        rounds.last(),
                        x,
                    ).1) by {
                    assert(a0 + used + x =~= a0 + (used + x));
                    assert(run_from(start, a0 + (used + x)) == (run_from(r1, used + x).0, e0 + run_from(r1, used + x).1));
                    assert(e0 + (h + run_from(r2, x).1) =~= e0 + h + run_from(r2, x).1);
                }
                assert forall|i: int| 0 <= i < all_effects.len() implies exec0.may_answer(all_effects[i], all_answers[i]) by {
                    if i < e0.len() {
                        assert(all_effects[i] == e0[i] && all_answers[i] == a0[i]);
                    } else {
                        assert(all_effects[i] == h[i - e0.len()] && all_answers[i] == used[i - e0.len()]);
                    }
                }
            }
        }
        proof {
            let last = rounds.last();
            let x = Seq::<Result<Option<Event>, EffectError>>::empty();
            assert(run_from(start, all_answers + x) == (run_from(last, x).0, all_effects + run_from(last, x).1));
            assert(all_answers + x =~= all_answers);
            assert(all_effects + Seq::<Effect>::empty() =~= all_effects);
            assert(dispatch_calls(v0.0, v0.1, event, all_effects, all_answers, self@.0, self@.1));
            assert(exec.log() == exec0.log() + paired(all_effects, all_answers));
        }
        assert(settled.len() >= 1 && settled[0] == event && run_steps(v0.0, v0.1, settled) == self@);
    }

    /// Handle one event all the way through, calling `on_effect` for each
    /// external effect in order. One call runs to quiescence. `on_effect` is
    /// handed exactly the external effects of the model's run (never an
    /// `Emit`), and the run goes on with what it answers.
    pub fn dispatch_with<F: FnMut(Effect) -> Result<Option<Event>, EffectError>>(&mut self, event: Event, on_effect: F)
        requires
            old(self).wf(),
            forall|e: Effect| call_requires(on_effect, (e,)),
        ensures
            final(self).wf(),
            rot_wf(final(self)@.0, N as nat),
            dispatch_may_end(old(self)@.0, old(self)@.1, event, final(self)@.0, final(self)@.1),
            exists|evs: Seq<Event>|
                evs.len() >= 1 && evs[0] == event && #[trigger] run_steps(old(self)@.0, old(self)@.1, evs) == final(self)@,
            exists|effects: Seq<Effect>, answers: Seq<Result<Option<Event>, EffectError>>|
                #[trigger] dispatch_calls(old(self)@.0, old(self)@.1, event, effects, answers, final(self)@.0, final(self)@.1)
                    && forall|i: int| 0 <= i < effects.len() ==> call_ensures(on_effect, (effects[i],), answers[i]),
    {
        let mut exec = ClosureExecutor { f: on_effect, log: Ghost(Seq::empty()) };
        self.dispatch_via(&mut exec, event);
    }

    /// Same as [`dispatch_with`](Self::dispatch_with) but routes effects to a
    /// [`Platform`], which is handed exactly the external effects of the
    /// model's run for the answers it gives.
    pub fn dispatch<P: Platform>(&mut self, platform: &mut P, event: Event)
        requires
            old(self).wf(),
        ensures
            final(self).wf(),
            rot_wf(final(self)@.0, N as nat),
            dispatch_may_end(old(self)@.0, old(self)@.1, event, final(self)@.0, final(self)@.1),
            exists|evs: Seq<Event>|
                evs.len() >= 1 && evs[0] == event && #[trigger] run_steps(old(self)@.0, old(self)@.1, evs) == final(self)@,
            exists|effects: Seq<Effect>, answers: Seq<Result<Option<Event>, EffectError>>|
                #[trigger] dispatch_calls(old(self)@.0, old(self)@.1, event, effects, answers, final(self)@.0, final(self)@.1)
                    && final(platform).calls() == old(platform).calls() + paired(effects, answers),
    {
        self.dispatch_via(platform, event);
    }
}

} // verus!
