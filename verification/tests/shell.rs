// The shell executes verification effects for the state machine and owes
// each verdict back as a queued event.

use openprot::api::BootControl;
use openprot::capabilities::{BootWatch, Svn, SvnFloor, WalkVerdict};
use openprot::driver::{Board, BoardCapabilities, ImageSource, SvnFloorBinding, Verdict, Verifier};
use openprot::machine::Orchestrator;
use openprot::model::{ComponentAttrs, ComponentId, ComponentKind, Event, PowerOnResult, State};
use openprot::shell::{Shell, ShellError};

const C0: ComponentId = ComponentId(0);

#[derive(Debug)]
struct Fault;

impl core::fmt::Display for Fault {
    fn fmt(&self, f: &mut core::fmt::Formatter<'_>) -> core::fmt::Result {
        f.write_str("fault")
    }
}

/// RAM-backed image: first byte nonzero means a good image.
struct MemImage {
    data: Vec<u8>,
    fail_open: bool,
    fail_read: bool,
}

impl MemImage {
    fn holding(data: Vec<u8>) -> Self {
        MemImage { data, fail_open: false, fail_read: false }
    }
}

fn valid_image() -> Vec<u8> {
    vec![0x5a, 1, 2, 3]
}

impl ImageSource for MemImage {
    type Error = Fault;

    fn open(&mut self) -> Result<(), Fault> {
        if self.fail_open {
            Err(Fault)
        } else {
            Ok(())
        }
    }

    fn size(&self) -> Result<usize, Fault> {
        Ok(self.data.len())
    }

    fn read_at(&mut self, offset: usize, buf: &mut [u8]) -> Result<(), Fault> {
        if self.fail_read {
            return Err(Fault);
        }
        buf.copy_from_slice(&self.data[offset..offset + buf.len()]);
        Ok(())
    }
}

struct FirstByteVerifier {
    fault: bool,
}

impl Verifier for FirstByteVerifier {
    type Error = Fault;

    fn verify(&mut self, _id: ComponentId, image: &mut impl ImageSource) -> Result<Verdict, Fault> {
        if self.fault {
            return Err(Fault);
        }
        let mut first = [0u8; 1];
        image.read_at(0, &mut first).map_err(|_| Fault)?;
        Ok(if first[0] != 0 { Verdict::Authenticated { svn: Svn(first[0] as u32) } } else { Verdict::Rejected })
    }
}

struct Line;

impl BootControl for Line {
    type Error = Fault;

    fn hold_in_reset(&mut self) -> Result<(), Fault> {
        Ok(())
    }

    fn release(&mut self) -> Result<(), Fault> {
        Ok(())
    }
}

struct Idle;

impl BootWatch for Idle {
    fn arm(&mut self) {}

    fn poll(&mut self, _now_millis: u64) -> WalkVerdict {
        WalkVerdict::Complete
    }
}

struct Floor;

impl SvnFloor for Floor {
    type Error = Fault;

    fn floor(&self) -> Result<Svn, Fault> {
        Ok(Svn(0))
    }

    fn advance(&mut self, _to: Svn) -> Result<(), Fault> {
        Ok(())
    }
}

struct MockBoard;

impl BoardCapabilities for MockBoard {
    type Image = MemImage;
    type Verifier = FirstByteVerifier;
    type BootControl = Line;
    type BootWatch = Idle;
    type SvnFloor = Floor;
}

fn board(image: MemImage, verifier_fault: bool) -> Board<MockBoard, 1> {
    Board {
        images: [image],
        verifier: FirstByteVerifier { fault: verifier_fault },
        boot_controls: [Line],
        boot_watches: [Idle],
        component_kinds: [ComponentKind::Passive],
        svn_floors: [SvnFloorBinding::SelfManaged],
    }
}

fn shell(image: MemImage) -> Shell<MockBoard, 1> {
    Shell::new(board(image, false))
}

fn orchestrator() -> Orchestrator<1, 4> {
    let chain: Vec<(ComponentId, ComponentAttrs)> = vec![(C0, ComponentAttrs::passive_required())];
    Orchestrator::new(chain.try_into().unwrap(), 3)
}

#[test]
fn tests_boot_verifies_the_first_component() {
    let mut orch = orchestrator();
    let mut shell = shell(MemImage::holding(valid_image()));
    orch.dispatch(&mut shell, Event::PowerGood(PowerOnResult::Provisioned));
    assert_eq!(shell.take_event(), Some(Event::VerificationPassed(C0)));
    assert_eq!(shell.take_event(), None);
    assert_eq!(orch.state(), State::PreSupervision);
}

#[test]
fn tests_corrupt_image_fails_verification() {
    let mut corrupt = valid_image();
    corrupt[0] = 0;
    let mut shell = shell(MemImage::holding(corrupt));
    shell.read_firmware(C0).unwrap();
    shell.verify_firmware(C0).unwrap();
    assert_eq!(shell.take_event(), Some(Event::VerificationFailed(C0)));
}

#[test]
fn tests_verify_without_read_is_refused() {
    let mut shell = shell(MemImage::holding(valid_image()));
    assert_eq!(shell.verify_firmware(C0), Err(ShellError::NoImage));
    assert_eq!(shell.take_event(), None);
}

#[test]
fn tests_unopenable_source_fails_closed() {
    let mut orch = orchestrator();
    let mut image = MemImage::holding(valid_image());
    image.fail_open = true;
    let mut shell = shell(image);
    orch.dispatch(&mut shell, Event::PowerGood(PowerOnResult::Provisioned));
    assert_eq!(orch.state(), State::Locked);
    assert_eq!(shell.take_event(), None);
}

#[test]
fn tests_unreadable_source_fails_closed() {
    let mut orch = orchestrator();
    let mut image = MemImage::holding(valid_image());
    image.fail_read = true;
    let mut shell = shell(image);
    orch.dispatch(&mut shell, Event::PowerGood(PowerOnResult::Provisioned));
    assert_eq!(orch.state(), State::Locked);
    assert_eq!(shell.take_event(), None);
}

#[test]
fn tests_verifier_fault_fails_closed() {
    let mut orch = orchestrator();
    let mut shell = Shell::new(board(MemImage::holding(valid_image()), true));
    orch.dispatch(&mut shell, Event::PowerGood(PowerOnResult::Provisioned));
    assert_eq!(orch.state(), State::Locked);
    assert_eq!(shell.take_event(), None);
}

#[test]
fn the_shell_queue_reports_overflow() {
    let mut shell = shell(MemImage::holding(valid_image()));
    shell.read_firmware(C0).unwrap();
    for _ in 0..4 {
        assert_eq!(shell.verify_firmware(C0), Ok(()));
    }
    assert_eq!(shell.verify_firmware(C0), Err(ShellError::QueueFull));
    for _ in 0..4 {
        assert_eq!(shell.take_event(), Some(Event::VerificationPassed(C0)));
    }
    assert_eq!(shell.take_event(), None);
    assert_eq!(shell.release_reset(C0), Err(ShellError::NotImplemented));
}
