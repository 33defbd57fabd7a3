//! The model of one dispatch run: the queue of events still to settle, the
//! fail-closed latch, and how the effects of each step feed that queue. The
//! executor's answers are the run's only unknowns, so a run is described
//! round by round, each round being exactly what the machine does for some
//! answers of the executor.

use vstd::prelude::*;
use crate::model::{Effect, Event, State};
use crate::machine::{EffectError, PENDING_CAP};
use crate::machine_spec::{step, RotView};

verus! {

/// The queue after the fail-closed latch: `EffectFailed` in front, and the
/// newest queued event evicted when the queue is full.
pub open spec fn latched(pending: Seq<Event>) -> Seq<Event> {
    seq![Event::EffectFailed] + (if pending.len() == PENDING_CAP {
        pending.drop_last()
    } else {
        pending
    })
}

/// Queue a follow-up event: the new queue, the new latch flag, and whether
/// the rest of the batch is abandoned. A full queue latches (once) and
/// abandons the batch; once the run has latched, a follow-up that finds the
/// queue full is dropped.
pub open spec fn enqueue(pending: Seq<Event>, failed: bool, ev: Event) -> (Seq<Event>, bool, bool) {
    if pending.len() < PENDING_CAP {
        (pending.push(ev), failed, false)
    } else if !failed {
        (latched(pending), true, true)
    } else {
        (pending, failed, false)
    }
}

/// A batch outcome with the effect `e` handed to the executor in front of
/// those the rest of the batch hands on.
pub open spec fn handed_first(e: Effect, t: (Seq<Event>, bool, Seq<Effect>)) -> (Seq<Event>, bool, Seq<Effect>) {
    (t.0, t.1, seq![e] + t.2)
}

/// The queue, the latch flag, and the external effects handed to the
/// executor, after the effects of one step, in order: an internal `Emit` is
/// queued directly and never handed on; each external effect goes to the
/// executor, whose answers are `answers` in turn, and the event it feeds
/// back is queued. A failed effect latches (once) and abandons the rest of
/// the batch.
pub open spec fn settle_effects(
    pending: Seq<Event>,
    failed: bool,
    effects: Seq<Effect>,
    answers: Seq<Result<Option<Event>, EffectError>>,
) -> (Seq<Event>, bool, Seq<Effect>)
    decreases effects.len(),
{
    if effects.len() == 0 {
        (pending, failed, seq![])
    } else {
        let rest = effects.drop_first();
        match effects[0] {
            Effect::Emit(ev) => {
                let (p, f, stop) = enqueue(pending, failed, ev);
                if stop {
                    (p, f, seq![])
                } else {
                    settle_effects(p, f, rest, answers)
                }
            },
            e => {
                let answer = if answers.len() == 0 {
                    Ok(None)
                } else {
                    answers[0]
                };
                let later = answers.drop_first();
                handed_first(
                    e,
                    match answer {
                        Err(_) => (if failed {
                            pending
                        } else {
                            latched(pending)
                        }, true, seq![]),
                        Ok(None) => settle_effects(pending, failed, rest, later),
                        Ok(Some(ev)) => {
                            let (p, f, stop) = enqueue(pending, failed, ev);
                            if stop {
                                (p, f, seq![])
                            } else {
                                settle_effects(p, f, rest, later)
                            }
                        },
                    },
                )
            },
        }
    }
}

/// Where a dispatch run stands between two rounds.
pub struct RunView {
    pub rot: RotView,
    pub state: State,
    /// Events still to settle, oldest first.
    pub pending: Seq<Event>,
    /// Whether the run has latched `EffectFailed`.
    pub failed: bool,
    /// Rounds the run may still take.
    pub budget: nat,
}

/// The start of a run for `event`.
pub open spec fn run_start(v: RotView, s: State, event: Event) -> RunView {
    RunView { rot: v, state: s, pending: seq![event], failed: false, budget: u64::MAX as nat }
}

/// The run is over: its queue is empty, or its rounds are spent.
pub open spec fn run_over(r: RunView) -> bool {
    r.budget == 0 || r.pending.len() == 0
}

/// One round: settle the oldest queued event, then hand its effects on,
/// with `answers` as the executor's answers.
pub open spec fn run_round(r: RunView, answers: Seq<Result<Option<Event>, EffectError>>) -> RunView {
    let (v1, s1, effects) = step(r.rot, r.state, r.pending[0]);
    let (p, f, _) = settle_effects(r.pending.drop_first(), r.failed, effects, answers);
    RunView { rot: v1, state: s1, pending: p, failed: f, budget: (r.budget - 1) as nat }
}

/// The external effects one round hands to the executor, in order.
pub open spec fn handed_in_round(r: RunView, answers: Seq<Result<Option<Event>, EffectError>>) -> Seq<Effect> {
    let (v1, s1, effects) = step(r.rot, r.state, r.pending[0]);
    settle_effects(r.pending.drop_first(), r.failed, effects, answers).2
}

/// The run from `r` to its end when the executor answers with `answers` in
/// turn: where it ends, and the external effects it hands to the executor,
/// in order, one answer each.
pub open spec fn run_from(r: RunView, answers: Seq<Result<Option<Event>, EffectError>>) -> (RunView, Seq<Effect>)
    decreases r.budget,
{
    if run_over(r) {
        (r, seq![])
    } else {
        let handed = handed_in_round(r, answers);
        let (last, later) = run_from(run_round(r, answers), answers.skip(handed.len() as int));
        (last, handed + later)
    }
}

/// Dispatching `event` to the machine `(v, s)` hands the executor exactly
/// `effects`, in order, answered by `answers`, and ends in `(v2, s2)`.
pub open spec fn dispatch_calls(
    v: RotView,
    s: State,
    event: Event,
    effects: Seq<Effect>,
    answers: Seq<Result<Option<Event>, EffectError>>,
    v2: RotView,
    s2: State,
) -> bool {
    &&& effects.len() == answers.len()
    &&& run_from(run_start(v, s, event), answers).1 == effects
    &&& run_from(run_start(v, s, event), answers).0.rot == v2
    &&& run_from(run_start(v, s, event), answers).0.state == s2
}

/// The effects handed to an executor, each with the answer it gave.
pub open spec fn paired(
    effects: Seq<Effect>,
    answers: Seq<Result<Option<Event>, EffectError>>,
) -> Seq<(Effect, Result<Option<Event>, EffectError>)> {
    Seq::new(effects.len(), |i: int| (effects[i], answers[i]))
}

/// `r2` is what one round makes of `r1` for some answers of the executor.
pub open spec fn round_follows(r1: RunView, r2: RunView) -> bool {
    &&& !run_over(r1)
    &&& exists|answers: Seq<Result<Option<Event>, EffectError>>| #[trigger] run_round(r1, answers) == r2
}

/// `rounds` is a complete run from `start`: each entry follows from the one
/// before, and the last is over.
pub open spec fn complete_run(start: RunView, rounds: Seq<RunView>) -> bool {
    &&& rounds.len() >= 1
    &&& rounds[0] == start
    &&& forall|i: int| 0 <= i < rounds.len() - 1 ==> #[trigger] round_follows(rounds[i], rounds[i + 1])
    &&& run_over(rounds.last())
}

/// Dispatching `event` to the machine `(v, s)` may end in `(v2, s2)`: some
/// complete run from its start ends there.
pub open spec fn dispatch_may_end(v: RotView, s: State, event: Event, v2: RotView, s2: State) -> bool {
    exists|rounds: Seq<RunView>|
        #[trigger] complete_run(run_start(v, s, event), rounds) && rounds.last().rot == v2 && rounds.last().state == s2
}

} // verus!
