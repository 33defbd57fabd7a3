// Concrete runs of the laws proved in `machine_laws`: each test drives the
// machine into the situation a law speaks of and checks what it promises.

use openprot::machine::{EffectError, Orchestrator, Platform};
use openprot::model::{
    ComponentAttrs, ComponentId, Effect, Event, PowerOnResult, State,
};

const C0: ComponentId = ComponentId(0);
const C1: ComponentId = ComponentId(1);
const C7: ComponentId = ComponentId(7);
const BOOT: Event = Event::PowerGood(PowerOnResult::Provisioned);
const CAPACITY: usize = 4;
const ECAP: usize = 2 * CAPACITY + 2;

struct Recorder {
    recorded: Vec<Effect>,
    fail_on: Option<Effect>,
}

impl Platform for Recorder {
    fn execute(&mut self, effect: Effect) -> Result<Option<Event>, EffectError> {
        self.recorded.push(effect);
        if self.fail_on == Some(effect) {
            Err(EffectError)
        } else {
            Ok(None)
        }
    }
}

fn machine(attrs: &[ComponentAttrs], max_retry: u8) -> Orchestrator<CAPACITY, ECAP> {
    let entries: Vec<(ComponentId, ComponentAttrs)> = attrs
        .iter()
        .enumerate()
        .map(|(i, a)| (ComponentId(i as u8), *a))
        .collect();
    Orchestrator::new(entries.try_into().expect("valid chain"), max_retry)
}

fn run(orch: &mut Orchestrator<CAPACITY, ECAP>, events: &[Event]) -> Vec<Effect> {
    let mut platform = Recorder { recorded: Vec::new(), fail_on: None };
    for &e in events {
        orch.dispatch(&mut platform, e);
    }
    platform.recorded
}

#[test]
fn locked_ignores_every_event() {
    let mut orch = machine(&[ComponentAttrs::passive_required()], 3);
    run(&mut orch, &[Event::PowerGood(PowerOnResult::Unprovisioned)]);
    assert_eq!(orch.state(), State::Locked);
    let effects = run(
        &mut orch,
        &[BOOT, Event::VerificationPassed(C0), Event::AttestationChallenge, Event::EffectFailed],
    );
    assert!(effects.is_empty());
    assert_eq!(orch.state(), State::Locked);
}

#[test]
fn a_failed_effect_latches_lockdown() {
    let mut orch = machine(&[ComponentAttrs::passive_required()], 3);
    let mut platform = Recorder { recorded: Vec::new(), fail_on: Some(Effect::ReadFirmware(C0)) };
    orch.dispatch(&mut platform, BOOT);
    assert_eq!(orch.state(), State::Locked);
    assert_eq!(platform.recorded.last(), Some(&Effect::LatchLockdown));
}

#[test]
fn an_event_for_a_foreign_component_is_dropped() {
    let mut orch = machine(&[ComponentAttrs::passive_required()], 3);
    run(&mut orch, &[BOOT]);
    let effects = run(&mut orch, &[Event::VerificationPassed(C7), Event::CorruptionDetected(C7)]);
    assert!(effects.is_empty());
    assert_eq!(orch.state(), State::PreSupervision);
}

#[test]
fn required_corruption_in_ready_starts_recovery() {
    let mut orch = machine(&[ComponentAttrs::passive_required()], 3);
    run(&mut orch, &[BOOT, Event::VerificationPassed(C0)]);
    assert_eq!(orch.state(), State::Ready);
    let effects = run(&mut orch, &[Event::CorruptionDetected(C0)]);
    assert_eq!(orch.state(), State::Recovering(C0));
    assert_eq!(effects, vec![Effect::RecoverComponent { id: C0, attempt: 0 }]);
}

#[test]
fn an_exhausted_required_component_locks_the_platform() {
    let mut orch = machine(&[ComponentAttrs::passive_required()], 1);
    run(&mut orch, &[BOOT, Event::VerificationFailed(C0)]);
    assert_eq!(orch.state(), State::Recovering(C0));
    let effects = run(&mut orch, &[Event::Restored(C0)]);
    assert_eq!(
        effects,
        vec![Effect::ReportRecoveryFailed(C0), Effect::LatchLockdown]
    );
    assert_eq!(orch.state(), State::Locked);
}

#[test]
fn a_restore_under_the_cap_walks_again_from_rest() {
    let mut orch = machine(
        &[ComponentAttrs::passive_required(), ComponentAttrs::passive_required()],
        3,
    );
    run(&mut orch, &[BOOT, Event::VerificationPassed(C0), Event::VerificationFailed(C1)]);
    let effects = run(&mut orch, &[Event::Restored(C1)]);
    // The live component is held before anything is read again.
    assert_eq!(
        effects,
        vec![Effect::AssertReset(C0), Effect::ReadFirmware(C0), Effect::VerifyFirmware(C0)]
    );
    assert_eq!(orch.state(), State::PreSupervision);
}

#[test]
fn an_isolated_component_stays_out_of_later_walks() {
    let mut orch = machine(
        &[ComponentAttrs::passive_isolable(), ComponentAttrs::passive_required()],
        2,
    );
    run(
        &mut orch,
        &[BOOT, Event::VerificationFailed(C0), Event::Restored(C0), Event::VerificationFailed(C0)],
    );
    let effects = run(&mut orch, &[Event::Restored(C0)]);
    assert_eq!(
        effects,
        vec![
            Effect::AssertReset(C0),
            Effect::ReportIsolated(C0),
            Effect::ReadFirmware(C1),
            Effect::VerifyFirmware(C1),
        ]
    );
    // A later re-walk starts past the isolated component again.
    run(&mut orch, &[Event::VerificationFailed(C1)]);
    let effects = run(&mut orch, &[Event::Restored(C1)]);
    assert_eq!(effects, vec![Effect::ReadFirmware(C1), Effect::VerifyFirmware(C1)]);
}

#[test]
fn release_answers_only_a_verification_at_the_cursor() {
    let mut orch = machine(
        &[ComponentAttrs::passive_required(), ComponentAttrs::passive_required()],
        3,
    );
    run(&mut orch, &[BOOT]);
    // C1 is not under verification yet: its pass releases nothing.
    let effects = run(&mut orch, &[Event::VerificationPassed(C1)]);
    assert!(effects.is_empty());
    let effects = run(&mut orch, &[Event::VerificationPassed(C0)]);
    assert_eq!(effects[0], Effect::ReleaseReset(C0));
}

#[test]
fn an_unconfirmed_update_locks_on_commit_timeout() {
    let mut orch = machine(&[ComponentAttrs::passive_required()], 3);
    run(&mut orch, &[BOOT, Event::VerificationPassed(C0), Event::UpdateRequest]);
    let effects = run(&mut orch, &[Event::UpdateVerified]);
    assert_eq!(effects, vec![Effect::ActivateUpdate]);
    assert_eq!(orch.state(), State::Ready);
    let effects = run(&mut orch, &[Event::CommitTimeout]);
    assert_eq!(effects, vec![Effect::LatchLockdown]);
    assert_eq!(orch.state(), State::Locked);
}

#[test]
fn a_confirmed_update_commits_the_floor() {
    let mut orch = machine(&[ComponentAttrs::passive_required()], 3);
    run(&mut orch, &[BOOT, Event::VerificationPassed(C0), Event::UpdateRequest, Event::UpdateVerified]);
    let effects = run(&mut orch, &[Event::BootConfirmed(C0), Event::CommitTimeout]);
    assert_eq!(effects, vec![Effect::CommitSvnFloor(C0)]);
    assert_eq!(orch.state(), State::Ready);
}

#[test]
fn a_component_isolated_under_verification_is_not_released() {
    let mut orch = machine(&[ComponentAttrs::passive_required(), ComponentAttrs::active_isolable()], 3);
    let effects = run(
        &mut orch,
        &[BOOT, Event::VerificationPassed(C0), Event::CorruptionDetected(C1), Event::VerificationPassed(C1)],
    );
    assert!(effects.contains(&Effect::VerifyFirmware(C1)));
    assert!(effects.contains(&Effect::AssertReset(C1)));
    assert!(!effects.contains(&Effect::ReleaseReset(C1)));
    assert_eq!(orch.state(), State::Ready);
}

#[test]
fn a_cascade_reaches_through_an_isolated_dependent() {
    let c2 = ComponentId(2);
    let c3 = ComponentId(3);
    let mut orch = machine(
        &[
            ComponentAttrs::passive_required(),
            ComponentAttrs::passive_cascading(),
            ComponentAttrs::passive_isolable().with_depends_on(C1),
            ComponentAttrs::passive_required().with_depends_on(c2),
        ],
        3,
    );
    run(
        &mut orch,
        &[
            BOOT,
            Event::VerificationPassed(C0),
            Event::VerificationPassed(C1),
            Event::VerificationPassed(c2),
            Event::VerificationPassed(c3),
        ],
    );
    assert_eq!(orch.state(), State::Ready);
    let first = run(&mut orch, &[Event::CorruptionDetected(c2)]);
    assert_eq!(first, vec![Effect::AssertReset(c2), Effect::ReportIsolated(c2)]);
    let second = run(&mut orch, &[Event::CorruptionDetected(C1)]);
    assert_eq!(
        second,
        vec![
            Effect::AssertReset(C1),
            Effect::ReportIsolated(C1),
            Effect::AssertReset(c3),
            Effect::ReportIsolated(c3),
        ]
    );
    assert_eq!(orch.state(), State::Ready);
}

#[test]
fn a_cascade_holds_breadth_first() {
    let c2 = ComponentId(2);
    let c3 = ComponentId(3);
    let mut orch = machine(
        &[
            ComponentAttrs::passive_cascading(),
            ComponentAttrs::passive_isolable().with_depends_on(C0),
            ComponentAttrs::passive_isolable().with_depends_on(C1),
            ComponentAttrs::passive_isolable().with_depends_on(C0),
        ],
        3,
    );
    run(
        &mut orch,
        &[
            BOOT,
            Event::VerificationPassed(C0),
            Event::VerificationPassed(C1),
            Event::VerificationPassed(c2),
            Event::VerificationPassed(c3),
        ],
    );
    assert_eq!(orch.state(), State::Ready);
    let effects = run(&mut orch, &[Event::CorruptionDetected(C0)]);
    // The root, then its direct dependents in chain order, then theirs.
    assert_eq!(
        effects,
        vec![
            Effect::AssertReset(C0),
            Effect::ReportIsolated(C0),
            Effect::AssertReset(C1),
            Effect::ReportIsolated(C1),
            Effect::AssertReset(c3),
            Effect::ReportIsolated(c3),
            Effect::AssertReset(c2),
            Effect::ReportIsolated(c2),
        ]
    );
}

#[test]
fn a_commit_timeout_without_an_update_is_dropped() {
    let mut orch = machine(&[ComponentAttrs::passive_required()], 3);
    run(&mut orch, &[BOOT, Event::VerificationPassed(C0)]);
    let effects = run(&mut orch, &[Event::CommitTimeout]);
    assert!(effects.is_empty());
    assert_eq!(orch.state(), State::Ready);
}

#[test]
fn entering_updating_again_settles_the_owed_commit() {
    let mut orch = machine(&[ComponentAttrs::passive_required()], 3);
    run(&mut orch, &[BOOT, Event::VerificationPassed(C0), Event::UpdateRequest, Event::UpdateVerified]);
    run(&mut orch, &[Event::UpdateRequest, Event::UpdateRejected]);
    assert_eq!(orch.state(), State::Ready);
    let effects = run(&mut orch, &[Event::CommitTimeout]);
    assert!(effects.is_empty());
    assert_eq!(orch.state(), State::Ready);
}

#[test]
fn the_lockdown_is_latched_once_even_when_the_latch_fails() {
    let mut orch = machine(&[ComponentAttrs::passive_required()], 3);
    let mut platform = Recorder { recorded: Vec::new(), fail_on: Some(Effect::LatchLockdown) };
    orch.dispatch(&mut platform, Event::PowerGood(PowerOnResult::Unprovisioned));
    assert_eq!(orch.state(), State::Locked);
    assert_eq!(platform.recorded, vec![Effect::LatchLockdown]);
}

#[test]
fn a_failed_effect_abandons_the_rest_of_its_batch() {
    let mut orch = machine(&[ComponentAttrs::passive_required()], 3);
    let mut platform = Recorder { recorded: Vec::new(), fail_on: Some(Effect::ReadFirmware(C0)) };
    orch.dispatch(&mut platform, BOOT);
    // The verification requested after the failed read is never handed on.
    assert_eq!(platform.recorded, vec![Effect::ReadFirmware(C0), Effect::LatchLockdown]);
    assert_eq!(orch.state(), State::Locked);
}

#[test]
fn a_rewalk_holds_every_live_component_in_chain_order() {
    let c2 = ComponentId(2);
    let mut orch = machine(
        &[
            ComponentAttrs::passive_required(),
            ComponentAttrs::passive_required(),
            ComponentAttrs::passive_required(),
        ],
        3,
    );
    run(
        &mut orch,
        &[BOOT, Event::VerificationPassed(C0), Event::VerificationPassed(C1), Event::VerificationPassed(c2)],
    );
    assert_eq!(orch.state(), State::Ready);
    let effects = run(&mut orch, &[Event::CorruptionDetected(C1)]);
    assert_eq!(effects, vec![Effect::RecoverComponent { id: C1, attempt: 0 }]);
    // C1 is held by its recovery; C0 and C2 are still live.
    let effects = run(&mut orch, &[Event::Restored(C1)]);
    assert_eq!(
        effects,
        vec![
            Effect::AssertReset(C0),
            Effect::AssertReset(c2),
            Effect::ReadFirmware(C0),
            Effect::VerifyFirmware(C0),
        ]
    );
    assert_eq!(orch.state(), State::PreSupervision);
}
