use openprot::capabilities::{Recovery, RestoreOutcome};

// Implements Recovery with no HAL dependency, because the contract must
// be satisfiable from any stack (mock, IPC proxy, simulator). A HAL-bound
// `Error` type would stop this compiling.
struct MockRecovery {
    attempts: [u8; 4],
    restores: usize,
    /// Number of distinct sources this device holds.
    sources: u8,
    /// Attempt number the source faults on, so a test can make one
    /// restore fail and the next one succeed.
    fail_on: Option<u8>,
}

impl MockRecovery {
    fn healthy() -> Self {
        MockRecovery {
            attempts: [0; 4],
            restores: 0,
            sources: u8::MAX,
            fail_on: None,
        }
    }

    fn with_sources(sources: u8) -> Self {
        MockRecovery {
            attempts: [0; 4],
            restores: 0,
            sources,
            fail_on: None,
        }
    }

    fn faulting_on(attempt: u8) -> Self {
        MockRecovery {
            attempts: [0; 4],
            restores: 0,
            sources: u8::MAX,
            fail_on: Some(attempt),
        }
    }
}

#[derive(Debug, PartialEq, Eq)]
struct MockFault;

impl core::fmt::Display for MockFault {
    fn fmt(&self, f: &mut core::fmt::Formatter<'_>) -> core::fmt::Result {
        f.write_str("mock restore fault")
    }
}

impl core::error::Error for MockFault {}

impl Recovery for MockRecovery {
    type Error = MockFault;

    fn restore(&mut self, attempt: u8) -> Result<RestoreOutcome, MockFault> {
        if self.fail_on == Some(attempt) {
            return Err(MockFault);
        }
        if attempt >= self.sources {
            return Ok(RestoreOutcome::SourceExhausted);
        }
        self.attempts[self.restores] = attempt;
        self.restores += 1;
        Ok(RestoreOutcome::Restored)
    }
}

/// Calls the mechanism the way the orchestrator does: run it, judge
/// nothing here. `attempt` comes from `Effect::RecoverComponent`, never
/// from a count the device keeps.
fn recover<R: Recovery>(dev: &mut R, attempt: u8) -> Result<RestoreOutcome, R::Error> {
    dev.restore(attempt)
}

#[test]
fn recovery_contract_is_implementable_without_the_hal() {
    let mut dev = MockRecovery::healthy();

    assert_eq!(recover(&mut dev, 0).unwrap(), RestoreOutcome::Restored);
    assert_eq!(recover(&mut dev, 1).unwrap(), RestoreOutcome::Restored);

    assert_eq!(dev.restores, 2);
}

#[test]
fn each_attempt_reaches_the_implementor() {
    let mut dev = MockRecovery::healthy();

    // Out of order and with a gap, so a device that recorded its own
    // call count instead of the argument fails here.
    for attempt in [2, 0, 7] {
        assert_eq!(
            recover(&mut dev, attempt).unwrap(),
            RestoreOutcome::Restored
        );
    }

    assert_eq!(&dev.attempts[..3], &[2, 0, 7]);
}

#[test]
fn a_failed_restore_does_not_block_the_next_attempt() {
    let mut dev = MockRecovery::faulting_on(0);

    recover(&mut dev, 0).expect_err("expected the first attempt to fault");
    assert_eq!(recover(&mut dev, 1).unwrap(), RestoreOutcome::Restored);

    assert_eq!(dev.restores, 1);
}

#[test]
fn recovery_errors_surface_through_the_generic_seam() {
    let mut dev = MockRecovery::faulting_on(0);

    let err = recover(&mut dev, 0).expect_err("expected the restore fault");

    // Display comes from the error type's bound, not a Debug dump.
    assert_eq!(err.to_string(), "mock restore fault");
}

#[test]
fn source_exhaustion_is_a_verdict_not_an_error() {
    let mut dev = MockRecovery::with_sources(2);

    assert_eq!(recover(&mut dev, 0).unwrap(), RestoreOutcome::Restored);
    assert_eq!(recover(&mut dev, 1).unwrap(), RestoreOutcome::Restored);
    assert_eq!(
        recover(&mut dev, 2).unwrap(),
        RestoreOutcome::SourceExhausted
    );

    assert_eq!(dev.restores, 2, "exhaustion does not count as a restore");
}
