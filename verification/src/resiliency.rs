//! Side-effect vocabulary of the platform-resiliency state machine: the boot
//! domains it holds and releases, the observable platform states it
//! reports, and the seam a platform implements to carry the effects out.

use vstd::prelude::*;

verus! {

/// A firmware domain whose boot line the orchestrator controls. More
/// domains may be added; platforms handle unknown ones with a wildcard arm.
#[derive(Debug, Clone, Copy, PartialEq, Eq, Structural)]
#[non_exhaustive]
pub enum BootTarget {
    /// The RoT firmware domain.
    RoT,
    /// The host-side boot-managed firmware domain.
    HostTarget,
}

/// Observable platform state reported to the mailbox or status LEDs.
#[derive(Debug, Clone, Copy, PartialEq, Eq, Structural)]
pub enum PlatformState {
    /// Pre-boot verification phase is active.
    PreBootVerify,
    /// Active firmware recovery is in progress.
    FirmwareRecovery,
    /// Firmware update is being applied.
    FirmwareUpdate,
    /// Platform is in runtime; boot holds released.
    Runtime,
    /// Platform is locked down due to authentication failure.
    Lockdown,
    /// Platform reboot has been initiated.
    Reboot,
}

/// A side-effect request for the platform to execute.
#[derive(Debug, Clone, Copy, PartialEq, Eq, Structural)]
pub enum Effect {
    HoldBoot(BootTarget),
    ReleaseBoot(BootTarget),
    ArmWatchdog,
    DisarmWatchdog,
    ArmMonitors,
    DisarmMonitors,
    LogPanic,
    Reboot,
    HaltBoot,
    /// Notify the platform of the current observable state.
    SetPlatformState(PlatformState),
}

/// Executes the platform-level side effects the resiliency state machine
/// requests, one effect per call.
pub trait ResiliencyPlatform {
    fn execute(&mut self, effect: Effect);
}

} // verus!
