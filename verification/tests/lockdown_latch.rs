use openprot::capabilities::LockdownLatch;

// Implements LockdownLatch with no HAL dependency: the contract must be
// satisfiable from any stack (mock, IPC proxy, simulator). A HAL-bound
// `Error` type would stop this compiling.
struct MockLatch {
    latched: bool,
    fail: bool,
}

#[derive(Debug, PartialEq, Eq)]
struct MockFault;

impl core::fmt::Display for MockFault {
    fn fmt(&self, f: &mut core::fmt::Formatter<'_>) -> core::fmt::Result {
        f.write_str("mock latch fault")
    }
}

impl core::error::Error for MockFault {}

impl LockdownLatch for MockLatch {
    type Error = MockFault;

    fn latch(&mut self) -> Result<(), MockFault> {
        if self.fail {
            return Err(MockFault);
        }
        self.latched = true;
        Ok(())
    }
}

#[test]
fn lockdown_latch_contract_is_implementable_without_the_hal() {
    let mut dev = MockLatch {
        latched: false,
        fail: false,
    };

    dev.latch().expect("latch failed");
    dev.latch().expect("repeated latch failed"); // idempotent

    assert!(dev.latched);
}

#[test]
fn lockdown_latch_errors_surface_through_the_generic_seam() {
    let mut dev = MockLatch {
        latched: false,
        fail: true,
    };

    let err = dev.latch().expect_err("expected the latch fault");

    // Display comes from the error type's bound, not a Debug dump.
    assert_eq!(err.to_string(), "mock latch fault");
}
