use openprot::api::BootControl;
use openprot::capabilities::{BootWatch, Svn, SvnFloor, WalkVerdict};
use openprot::driver::{
    event_for_verdict, Board, BoardCapabilities, DriverError, ImageSource, PlatformDriver,
    SvnFloorBinding, Verdict, Verifier,
};
use openprot::machine::{EffectError, Orchestrator, Platform};
use openprot::model::{ComponentAttrs, ComponentId, ComponentKind, Effect, Event, PowerOnResult, State};
use openprot::shell::ShellError;

#[derive(Debug)]
struct Fault;

impl core::fmt::Display for Fault {
    fn fmt(&self, f: &mut core::fmt::Formatter<'_>) -> core::fmt::Result {
        f.write_str("fault")
    }
}

/// RAM-backed image: first byte nonzero means a good image.
struct MemImage {
    data: Vec<u8>,
    fail_open: bool,
}

impl ImageSource for MemImage {
    type Error = Fault;

    fn open(&mut self) -> Result<(), Fault> {
        if self.fail_open {
            Err(Fault)
        } else {
            Ok(())
        }
    }

    fn size(&self) -> Result<usize, Fault> {
        Ok(self.data.len())
    }

    fn read_at(&mut self, offset: usize, buf: &mut [u8]) -> Result<(), Fault> {
        buf.copy_from_slice(&self.data[offset..offset + buf.len()]);
        Ok(())
    }
}

struct FirstByteVerifier {
    fault: bool,
}

impl Verifier for FirstByteVerifier {
    type Error = Fault;

    fn verify(&mut self, _id: ComponentId, image: &mut impl ImageSource) -> Result<Verdict, Fault> {
        if self.fault {
            return Err(Fault);
        }
        let mut first = [0u8; 1];
        image.read_at(0, &mut first).map_err(|_| Fault)?;
        Ok(if first[0] != 0 { Verdict::Authenticated { svn: Svn(first[0] as u32) } } else { Verdict::Rejected })
    }
}

struct Line {
    held: bool,
    fail: bool,
}

impl BootControl for Line {
    type Error = Fault;

    fn hold_in_reset(&mut self) -> Result<(), Fault> {
        if self.fail {
            return Err(Fault);
        }
        self.held = true;
        Ok(())
    }

    fn release(&mut self) -> Result<(), Fault> {
        if self.fail {
            return Err(Fault);
        }
        self.held = false;
        Ok(())
    }
}

struct Idle;

impl BootWatch for Idle {
    fn arm(&mut self) {}

    fn poll(&mut self, _now_millis: u64) -> WalkVerdict {
        WalkVerdict::Complete
    }
}

struct Floor(Svn);

impl SvnFloor for Floor {
    type Error = Fault;

    fn floor(&self) -> Result<Svn, Fault> {
        Ok(self.0)
    }

    fn advance(&mut self, to: Svn) -> Result<(), Fault> {
        self.0 = self.0.max(to);
        Ok(())
    }
}

struct TestBoard;

impl BoardCapabilities for TestBoard {
    type Image = MemImage;
    type Verifier = FirstByteVerifier;
    type BootControl = Line;
    type BootWatch = Idle;
    type SvnFloor = Floor;
}

fn driver(good: bool, fail_open: bool, verifier_fault: bool, line_fault: bool) -> PlatformDriver<TestBoard, 2> {
    let first = if good { 0x5a } else { 0 };
    PlatformDriver::new(Board {
        images: [
            MemImage { data: vec![first, 1, 2], fail_open },
            MemImage { data: vec![1], fail_open: false },
        ],
        verifier: FirstByteVerifier { fault: verifier_fault },
        boot_controls: [Line { held: false, fail: line_fault }, Line { held: false, fail: false }],
        boot_watches: [Idle, Idle],
        component_kinds: [ComponentKind::Active, ComponentKind::Passive],
        svn_floors: [SvnFloorBinding::Erot(Floor(Svn(0))), SvnFloorBinding::SelfManaged],
    })
}

const C0: ComponentId = ComponentId(0);
const C1: ComponentId = ComponentId(1);
const C9: ComponentId = ComponentId(9);

#[test]
fn a_staged_good_image_verifies() {
    let mut d = driver(true, false, false, false);
    assert_eq!(d.execute(Effect::ReadFirmware(C0)), Ok(None));
    assert_eq!(d.execute(Effect::VerifyFirmware(C0)), Ok(Some(Event::VerificationPassed(C0))));
}

#[test]
fn a_staged_bad_image_is_rejected_not_an_error() {
    let mut d = driver(false, false, false, false);
    assert_eq!(d.stage_firmware(C0), Ok(()));
    assert_eq!(d.verify_firmware(C0), Ok(Event::VerificationFailed(C0)));
}

#[test]
fn verifying_needs_the_same_component_staged() {
    let mut d = driver(true, false, false, false);
    assert_eq!(d.verify_firmware(C0), Err(DriverError::NotStaged));
    d.stage_firmware(C1).unwrap();
    assert_eq!(d.verify_firmware(C0), Err(DriverError::NotStaged));
    assert_eq!(d.verify_firmware(C9), Err(DriverError::UnknownComponent));
}

#[test]
fn a_failed_open_unstages() {
    let mut d = driver(true, true, false, false);
    d.stage_firmware(C1).unwrap();
    assert_eq!(d.stage_firmware(C0), Err(DriverError::ImageUnavailable));
    assert_eq!(d.verify_firmware(C1), Err(DriverError::NotStaged));
    assert_eq!(d.stage_firmware(C9), Err(DriverError::UnknownComponent));
}

#[test]
fn a_verifier_fault_is_an_error() {
    let mut d = driver(true, false, true, false);
    d.stage_firmware(C0).unwrap();
    assert_eq!(d.verify_firmware(C0), Err(DriverError::VerifierFault));
    assert_eq!(d.execute(Effect::VerifyFirmware(C0)), Err(EffectError));
}

#[test]
fn reset_lines_are_driven_per_component() {
    let mut d = driver(true, false, false, false);
    assert_eq!(d.execute(Effect::AssertReset(C0)), Ok(None));
    assert_eq!(d.execute(Effect::ReleaseReset(C1)), Ok(None));
    assert_eq!(d.assert_reset(C9), Err(DriverError::UnknownComponent));
    let mut faulty = driver(true, false, false, true);
    assert_eq!(faulty.release_reset(C0), Err(DriverError::BootControlFault));
    assert_eq!(faulty.execute(Effect::AssertReset(C0)), Err(EffectError));
}

#[test]
fn effects_without_an_executor_fail_closed() {
    let mut d = driver(true, false, false, false);
    assert_eq!(d.execute(Effect::LatchLockdown), Err(EffectError));
    assert_eq!(d.execute(Effect::SignAttestation), Err(EffectError));
    assert_eq!(d.execute(Effect::RecoverComponent { id: C0, attempt: 0 }), Err(EffectError));
    assert_eq!(d.execute(Effect::Emit(Event::RecoveryFailed)), Err(EffectError));
}

#[test]
fn verdicts_map_to_events() {
    assert_eq!(event_for_verdict(C1, Verdict::Authenticated { svn: Svn(3) }), Event::VerificationPassed(C1));
    assert_eq!(event_for_verdict(C1, Verdict::Rejected), Event::VerificationFailed(C1));
    assert_eq!(DriverError::NotStaged.message(), "no image staged for this component");
}

#[test]
fn shell_errors_have_their_sentences() {
    assert_eq!(ShellError::QueueFull.message(), "event queue full");
    assert_eq!(ShellError::NotImplemented.message(), "executor not implemented");
}

fn orchestrator() -> Orchestrator<1, 4> {
    let chain: Vec<(ComponentId, ComponentAttrs)> = vec![(C0, ComponentAttrs::passive_required())];
    Orchestrator::new(chain.try_into().unwrap(), 3)
}

/// Forwards every effect to the driver and records it.
struct Recording {
    driver: PlatformDriver<TestBoard, 2>,
    seen: Vec<Effect>,
}

impl Platform for Recording {
    fn execute(&mut self, effect: Effect) -> Result<Option<Event>, EffectError> {
        self.seen.push(effect);
        self.driver.execute(effect)
    }
}

#[test]
fn verify_without_read_is_refused() {
    let mut d = driver(true, false, false, false);
    assert_eq!(d.verify_firmware(C0), Err(DriverError::NotStaged));
}

#[test]
fn verify_for_a_different_component_is_refused() {
    let mut d = driver(true, false, false, false);
    d.stage_firmware(C0).unwrap();
    assert_eq!(d.verify_firmware(C1), Err(DriverError::NotStaged));
}

#[test]
fn unknown_component_is_refused() {
    let mut d = driver(true, false, false, false);
    assert_eq!(d.stage_firmware(C9), Err(DriverError::UnknownComponent));
}

#[test]
fn verify_of_unknown_component_is_refused() {
    let mut d = driver(true, false, false, false);
    assert_eq!(d.verify_firmware(C9), Err(DriverError::UnknownComponent));
}

#[test]
fn reset_release_and_assert_reach_the_boot_control() {
    let mut d = driver(true, false, false, false);
    assert_eq!(d.release_reset(C0), Ok(()));
    assert_eq!(d.assert_reset(C0), Ok(()));
}

#[test]
fn reset_of_unknown_component_is_refused() {
    let mut d = driver(true, false, false, false);
    assert_eq!(d.release_reset(C9), Err(DriverError::UnknownComponent));
    assert_eq!(d.assert_reset(C9), Err(DriverError::UnknownComponent));
}

#[test]
fn reset_line_fault_is_reported() {
    let mut d = driver(true, false, false, true);
    assert_eq!(d.release_reset(C0), Err(DriverError::BootControlFault));
    assert_eq!(d.assert_reset(C0), Err(DriverError::BootControlFault));
}

#[test]
fn emit_is_refused() {
    let mut d = driver(true, false, false, false);
    assert_eq!(d.execute(Effect::Emit(Event::UpdateRequest)), Err(EffectError));
}

#[test]
fn execute_returns_the_verdict_event() {
    let mut d = driver(true, false, false, false);
    assert_eq!(d.execute(Effect::ReadFirmware(C0)), Ok(None));
    assert_eq!(d.execute(Effect::VerifyFirmware(C0)), Ok(Some(Event::VerificationPassed(C0))));
}

#[test]
fn corrupt_image_fails_verification() {
    let mut d = driver(false, false, false, false);
    d.stage_firmware(C0).unwrap();
    assert_eq!(d.verify_firmware(C0), Ok(Event::VerificationFailed(C0)));
}

#[test]
fn boot_verifies_the_first_component() {
    let mut orch = orchestrator();
    let mut d = driver(true, false, false, false);
    orch.dispatch(&mut d, Event::PowerGood(PowerOnResult::Provisioned));
    assert_eq!(orch.state(), State::Ready);
}

#[test]
fn release_follows_verification() {
    let mut orch = orchestrator();
    let mut platform = Recording { driver: driver(true, false, false, false), seen: Vec::new() };
    orch.dispatch(&mut platform, Event::PowerGood(PowerOnResult::Provisioned));
    assert_eq!(orch.state(), State::Ready);
    assert_eq!(
        platform.seen,
        vec![Effect::ReadFirmware(C0), Effect::VerifyFirmware(C0), Effect::ReleaseReset(C0)]
    );
}

#[test]
fn failed_release_fails_closed() {
    let mut orch = orchestrator();
    let mut platform = Recording { driver: driver(true, false, false, true), seen: Vec::new() };
    orch.dispatch(&mut platform, Event::PowerGood(PowerOnResult::Provisioned));
    assert_eq!(orch.state(), State::Locked);
    assert!(platform.seen.contains(&Effect::ReleaseReset(C0)));
}

#[test]
fn unopenable_source_fails_closed() {
    let mut orch = orchestrator();
    let mut d = driver(true, true, false, false);
    orch.dispatch(&mut d, Event::PowerGood(PowerOnResult::Provisioned));
    assert_eq!(orch.state(), State::Locked);
}

#[test]
fn verifier_fault_fails_closed() {
    let mut orch = orchestrator();
    let mut d = driver(true, false, true, false);
    orch.dispatch(&mut d, Event::PowerGood(PowerOnResult::Provisioned));
    assert_eq!(orch.state(), State::Locked);
}
