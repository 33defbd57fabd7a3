use core::time::Duration;
use openprot::api::{
    try_validate, validate, BootCheckpoint, BootControl, BootSignal, CommitPolicy, DeviceConfig, ValidateError,
};

// Board tables run validate() once; these tests call it on bad tables to
// show each reject path fires with its own message.

const CHECKPOINT: BootCheckpoint<u8> = BootCheckpoint {
    name: "boot-complete",
    signal: BootSignal::GpioBootComplete(0),
    window: Duration::from_secs(1),
};

const DEVICE: DeviceConfig<u8, u8> = DeviceConfig {
    name: "dev",
    reset_signal: 0,
    checkpoints: &[CHECKPOINT],
    commit_policy: CommitPolicy::Liveness,
};

fn check<R, G>(devices: &[DeviceConfig<R, G>]) {
    match try_validate(devices) {
        Ok(()) => validate(devices),
        Err(e) => panic!("{}", e.message()),
    }
}

#[test]
fn config_accepts_a_valid_table() {
    check(&[DEVICE]);
}

#[test]
#[should_panic(expected = "device name must not be empty")]
fn config_rejects_an_empty_device_name() {
    check(&[DEVICE, DeviceConfig { name: "", ..DEVICE }]);
}

#[test]
#[should_panic(expected = "at least one boot checkpoint")]
fn config_rejects_an_empty_checkpoint_list() {
    check(&[DeviceConfig { checkpoints: &[], ..DEVICE }]);
}

#[test]
#[should_panic(expected = "checkpoint name must not be empty")]
fn config_rejects_an_empty_checkpoint_name() {
    check(&[DeviceConfig {
        checkpoints: &[BootCheckpoint { name: "", ..CHECKPOINT }],
        ..DEVICE
    }]);
}

#[test]
#[should_panic(expected = "checkpoint window must not be zero")]
fn rejects_a_zero_checkpoint_window() {
    check(&[DeviceConfig {
        checkpoints: &[CHECKPOINT, BootCheckpoint { window: Duration::ZERO, ..CHECKPOINT }],
        ..DEVICE
    }]);
}

#[test]
fn validate_names_the_first_broken_rule() {
    let empty_name = DeviceConfig { name: "", checkpoints: &[], ..DEVICE };
    assert_eq!(try_validate(&[empty_name]), Err(ValidateError::EmptyDeviceName));
    let zero_first = DeviceConfig {
        checkpoints: &[
            BootCheckpoint { window: Duration::ZERO, ..CHECKPOINT },
            BootCheckpoint { name: "", ..CHECKPOINT },
        ],
        ..DEVICE
    };
    assert_eq!(try_validate(&[DEVICE, zero_first]), Err(ValidateError::ZeroWindow));
    assert_eq!(try_validate::<u8, u8>(&[]), Ok(()));
    let other_signals = DeviceConfig {
        checkpoints: &[
            BootCheckpoint { signal: BootSignal::Heartbeat, ..CHECKPOINT },
            BootCheckpoint { signal: BootSignal::MctpReady, ..CHECKPOINT },
            BootCheckpoint { signal: BootSignal::VersionQuery, ..CHECKPOINT },
        ],
        commit_policy: CommitPolicy::LivenessAndAttestation,
        ..DEVICE
    };
    assert_eq!(try_validate(&[other_signals]), Ok(()));
}

// A BootControl implemented against no HAL at all: the contract must be
// satisfiable from any stack (mock, IPC proxy, simulator).
struct MockDevice {
    fail: bool,
}

#[derive(Debug, PartialEq, Eq)]
struct MockFault;

impl core::fmt::Display for MockFault {
    fn fmt(&self, f: &mut core::fmt::Formatter<'_>) -> core::fmt::Result {
        f.write_str("mock device fault")
    }
}

impl std::error::Error for MockFault {}

impl BootControl for MockDevice {
    type Error = MockFault;

    fn hold_in_reset(&mut self) -> Result<(), MockFault> {
        if self.fail {
            Err(MockFault)
        } else {
            Ok(())
        }
    }

    fn release(&mut self) -> Result<(), MockFault> {
        if self.fail {
            Err(MockFault)
        } else {
            Ok(())
        }
    }
}

/// The orchestrator's hold-then-release shape, generic over any BootControl.
fn hold_then_release<D: BootControl>(dev: &mut D) -> Result<(), D::Error> {
    dev.hold_in_reset()?;
    dev.release()
}

#[test]
fn boot_control_contract_is_implementable_without_the_hal() {
    let mut dev = MockDevice { fail: false };

    hold_then_release(&mut dev).expect("hold/release failed");
}

#[test]
fn boot_control_errors_surface_through_the_generic_seam() {
    let mut dev = MockDevice { fail: true };

    let err = hold_then_release(&mut dev).expect_err("expected the device fault");

    // Display comes from the error type's bound, not a Debug dump.
    assert_eq!(err.to_string(), "mock device fault");
}
