//! The orchestrator's capability contract for reset control, and the
//! literal device-table schema that boards fill in by struct literal and
//! check with [`validate`].

use core::time::Duration;
use crate::config::{duration_is_zero, spans_no_time};
use vstd::prelude::*;

verus! {

/// Actuation capability: hold a managed device in reset and release it.
///
/// A stateless pass-through: sequencing (hold before release, release only
/// after verification) belongs to the orchestrator's flows. Boards implement
/// it; what it promises is that a successful hold leaves the device held,
/// and a successful release leaves it out of reset.
pub trait BootControl {
    /// The error type reported by this device's boot control: printable,
    /// both for logs (`Debug`) and for reports (`Display`).
    type Error: core::fmt::Debug + core::fmt::Display;

    /// Whether the device is held in reset, as the implementation records
    /// it. A verified implementation defines it, as `release` cannot meet
    /// its contract otherwise.
    open spec fn held(&self) -> bool {
        true
    }

    /// Holds the device in reset.
    fn hold_in_reset(&mut self) -> (r: Result<(), Self::Error>)
        ensures
            r is Ok ==> final(self).held(),
    ;

    /// Releases the device from reset.
    fn release(&mut self) -> (r: Result<(), Self::Error>)
        ensures
            r is Ok ==> !final(self).held(),
    ;
}

/// What the orchestrator requires before it commits a staged image.
#[derive(Debug, Clone, Copy, PartialEq, Eq, Structural)]
pub enum CommitPolicy {
    /// The device reports it came up.
    Liveness,
    /// Liveness plus SPDM re-attestation of the running image.
    LivenessAndAttestation,
}

/// How the orchestrator observes a device's boot-progress signal.
#[derive(Debug, Clone, Copy, PartialEq, Eq)]
pub enum BootSignal<G> {
    /// The device raises a boot-complete GPIO line.
    GpioBootComplete(G),
    /// The device sends a heartbeat message.
    Heartbeat,
    /// The device's MCTP endpoint answers as ready.
    MctpReady,
    /// The device answers a firmware version query.
    VersionQuery,
}

/// One boot-progress checkpoint: a signal the orchestrator waits for, and
/// how long it waits.
#[derive(Debug, Copy)]
pub struct BootCheckpoint<G> {
    /// Names the checkpoint in timeout reports.
    pub name: &'static str,
    pub signal: BootSignal<G>,
    /// How long the orchestrator waits for `signal` before it declares the
    /// checkpoint, and the device's boot, failed.
    pub window: Duration,
}

impl<G: Copy> Clone for BootCheckpoint<G> {
    fn clone(&self) -> (r: Self)
        ensures
            r == *self,
    {
        *self
    }
}

/// One managed downstream device, as declared by the board table.
#[derive(Debug, Copy)]
pub struct DeviceConfig<R, G: 'static> {
    pub name: &'static str,
    /// Reset signal id, handed to the board's boot control.
    pub reset_signal: R,
    /// Boot-progress checkpoints, in the order the device passes them.
    pub checkpoints: &'static [BootCheckpoint<G>],
    pub commit_policy: CommitPolicy,
}

impl<R: Copy, G: Copy> Clone for DeviceConfig<R, G> {
    fn clone(&self) -> (r: Self)
        ensures
            r == *self,
    {
        *self
    }
}

/// A rule of the device table that an entry broke.
#[derive(Debug, Clone, Copy, PartialEq, Eq, Structural)]
pub enum ValidateError {
    EmptyDeviceName,
    NoCheckpoints,
    EmptyCheckpointName,
    ZeroWindow,
}

/// The sentence that reports each broken rule.
pub open spec fn validate_error_text(e: ValidateError) -> Seq<char> {
    match e {
        ValidateError::EmptyDeviceName => "device name must not be empty"@,
        ValidateError::NoCheckpoints => "device must declare at least one boot checkpoint"@,
        ValidateError::EmptyCheckpointName => "checkpoint name must not be empty"@,
        ValidateError::ZeroWindow => "checkpoint window must not be zero"@,
    }
}

impl ValidateError {
    /// The sentence that reports this broken rule.
    pub fn message(&self) -> (m: &'static str)
        ensures
            m@ == validate_error_text(*self),
    {
        match self {
            ValidateError::EmptyDeviceName => "device name must not be empty",
            ValidateError::NoCheckpoints => "device must declare at least one boot checkpoint",
            ValidateError::EmptyCheckpointName => "checkpoint name must not be empty",
            ValidateError::ZeroWindow => "checkpoint window must not be zero",
        }
    }
}

/// The rules for one checkpoint: a name, and a window that is not zero.
pub open spec fn checkpoint_valid<G>(c: BootCheckpoint<G>) -> bool {
    c.name@.len() > 0 && !spans_no_time(c.window)
}

/// The rules for one device: a name, at least one checkpoint, and every
/// checkpoint valid.
pub open spec fn device_valid<R, G>(d: DeviceConfig<R, G>) -> bool {
    &&& d.name@.len() > 0
    &&& d.checkpoints@.len() > 0
    &&& forall|c: int| 0 <= c < d.checkpoints@.len() ==> checkpoint_valid(#[trigger] d.checkpoints@[c])
}

/// The first rule broken by the checkpoints from `c` on.
pub open spec fn checkpoints_error<G>(cps: Seq<BootCheckpoint<G>>, c: int) -> Option<ValidateError>
    decreases cps.len() - c,
{
    if c >= cps.len() {
        None
    } else if cps[c].name@.len() == 0 {
        Some(ValidateError::EmptyCheckpointName)
    } else if spans_no_time(cps[c].window) {
        Some(ValidateError::ZeroWindow)
    } else {
        checkpoints_error(cps, c + 1)
    }
}

/// The first rule a device breaks, in the order `validate` checks them.
pub open spec fn device_error<R, G>(d: DeviceConfig<R, G>) -> Option<ValidateError> {
    if d.name@.len() == 0 {
        Some(ValidateError::EmptyDeviceName)
    } else if d.checkpoints@.len() == 0 {
        Some(ValidateError::NoCheckpoints)
    } else {
        checkpoints_error(d.checkpoints@, 0)
    }
}

/// The first rule broken by the devices from `i` on.
pub open spec fn table_error<R, G>(devices: Seq<DeviceConfig<R, G>>, i: int) -> Option<ValidateError>
    decreases devices.len() - i,
{
    if i >= devices.len() {
        None
    } else {
        match device_error(devices[i]) {
            Some(e) => Some(e),
            None => table_error(devices, i + 1),
        }
    }
}

proof fn lemma_checkpoints_error<G>(cps: Seq<BootCheckpoint<G>>, c: int)
    requires
        0 <= c,
    ensures
        checkpoints_error(cps, c) is None <==> forall|k: int| c <= k < cps.len() ==> checkpoint_valid(#[trigger] cps[k]),
    decreases cps.len() - c,
{
    if c < cps.len() {
        lemma_checkpoints_error(cps, c + 1);
        if checkpoints_error(cps, c) is None {
            assert forall|k: int| c <= k < cps.len() implies checkpoint_valid(#[trigger] cps[k]) by {
                if k > c {
                    assert(checkpoint_valid(cps[k]));
                }
            }
        } else if checkpoint_valid(cps[c]) {
            let k = choose|k: int| c + 1 <= k < cps.len() && !checkpoint_valid(#[trigger] cps[k]);
            assert(!checkpoint_valid(cps[k]));
        }
    }
}

proof fn lemma_table_error<R, G>(devices: Seq<DeviceConfig<R, G>>, i: int)
    requires
        0 <= i,
    ensures
        table_error(devices, i) is None <==> forall|k: int| i <= k < devices.len() ==> device_valid(#[trigger] devices[k]),
    decreases devices.len() - i,
{
    if i < devices.len() {
        lemma_table_error(devices, i + 1);
        lemma_checkpoints_error(devices[i].checkpoints@, 0);
        if table_error(devices, i) is None {
            assert forall|k: int| i <= k < devices.len() implies device_valid(#[trigger] devices[k]) by {
                if k > i {
                    assert(device_valid(devices[k]));
                }
            }
        } else if device_valid(devices[i]) {
            let k = choose|k: int| i + 1 <= k < devices.len() && !device_valid(#[trigger] devices[k]);
            assert(!device_valid(devices[k]));
        }
    }
}

/// A table passes `try_validate` (and may go to `validate`) exactly when
/// every device keeps every rule;
/// the order of the checks decides only which broken rule is named.
pub proof fn lemma_validate_accepts_exactly_valid_tables<R, G>(devices: Seq<DeviceConfig<R, G>>)
    ensures
        table_error(devices, 0) is None <==> forall|k: int| 0 <= k < devices.len() ==> device_valid(#[trigger] devices[k]),
{
    lemma_table_error(devices, 0);
}

/// Accepts a device table that keeps every rule; a board's table goes
/// through here once. A table that breaks a rule is refused by
/// [`try_validate`], which names the rule.
pub fn validate<R, G>(devices: &[DeviceConfig<R, G>])
    requires
        table_error(devices@, 0) is None,
{
}

/// Checks a device table, naming the first rule it breaks: devices in
/// order, and within a device its name, its checkpoint list, then each
/// checkpoint's name and window.
pub fn try_validate<R, G>(devices: &[DeviceConfig<R, G>]) -> (r: Result<(), ValidateError>)
    ensures
        match r {
            Ok(()) => table_error(devices@, 0) is None,
            Err(e) => table_error(devices@, 0) == Some(e),
        },
{
    let mut i: usize = 0;
    while i < devices.len()
        invariant
            i <= devices@.len(),
            table_error(devices@, 0) == table_error(devices@, i as int),
        decreases devices@.len() - i,
    {
        if devices[i].name.is_empty() {
            return Err(ValidateError::EmptyDeviceName);
        }
        if devices[i].checkpoints.len() == 0 {
            return Err(ValidateError::NoCheckpoints);
        }
        let mut c: usize = 0;
        while c < devices[i].checkpoints.len()
            invariant
                i < devices@.len(),
                c <= devices@[i as int].checkpoints@.len(),
                devices@[i as int].name@.len() > 0,
                devices@[i as int].checkpoints@.len() > 0,
                table_error(devices@, 0) == table_error(devices@, i as int),
                checkpoints_error(devices@[i as int].checkpoints@, 0) == checkpoints_error(
                    devices@[i as int].checkpoints@,
                    c as int,
                ),
            decreases devices@[i as int].checkpoints@.len() - c,
        {
            if devices[i].checkpoints[c].name.is_empty() {
                return Err(ValidateError::EmptyCheckpointName);
            }
            if duration_is_zero(&devices[i].checkpoints[c].window) {
                return Err(ValidateError::ZeroWindow);
            }
            c += 1;
        }
        i += 1;
    }
    Ok(())
}

} // verus!
