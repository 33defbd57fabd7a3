//! The mock board: the boot-signal vocabulary and the board-local checks of
//! the device table that host tests and QEMU runs consume.

use crate::config::DeviceConfig;
use vstd::prelude::*;

verus! {

/// The mock board's boot-signal vocabulary. The schema carries these
/// opaquely; only this board's evidence reader gives them meaning.
#[derive(Debug, Clone, Copy, PartialEq, Eq, Structural)]
pub enum MockSignal {
    /// A boot-complete GPIO line, by index.
    Gpio(u8),
    /// The device's MCTP endpoint answers as ready.
    MctpReady,
    /// The device sends a heartbeat message (latched; the reset path
    /// clears it).
    Heartbeat,
}

/// How many GPIO lines the mock ready-line bank packs.
pub const GPIO_BANK_LINES: u8 = 32;

/// How many times the orchestrator restores a component before it gives
/// up: the BMC has three images and the attempt that restores the last one
/// is never booted, so three would stop one boot short of the golden image.
pub const MAX_RETRY: u8 = 4;

/// A signal the mock board can wire: a GPIO line inside the bank, or a
/// message-path signal.
pub open spec fn signal_wired(s: MockSignal) -> bool {
    match s {
        MockSignal::Gpio(line) => line < GPIO_BANK_LINES,
        _ => true,
    }
}

/// Every checkpoint of every device names a signal the board can wire.
pub open spec fn signals_wired(devices: Seq<DeviceConfig<u8, MockSignal>>) -> bool {
    forall|i: int, c: int|
        0 <= i < devices.len() && 0 <= c < devices[i].checkpoints_spec().len() ==> signal_wired(
            #[trigger] devices[i].checkpoints_spec()[c].signal_spec(),
        )
}

/// A checkpoint of the table names a GPIO line outside the bank.
#[derive(Debug, Clone, Copy, PartialEq, Eq, Structural)]
pub struct GpioOutsideBank;

impl GpioOutsideBank {
    /// The sentence that reports the broken rule.
    pub fn message(&self) -> (m: &'static str)
        ensures
            m@ == "gpio signal names a line outside the bank"@,
    {
        "gpio signal names a line outside the bank"
    }
}

/// The board-local check the schema constructors cannot do: every GPIO
/// signal of the table names a line inside the bank.
pub fn validate_signals(devices: &[DeviceConfig<u8, MockSignal>]) -> (r: Result<(), GpioOutsideBank>)
    ensures
        r is Ok <==> signals_wired(devices@),
{
    let mut i: usize = 0;
    while i < devices.len()
        invariant
            i <= devices@.len(),
            forall|x: int, c: int|
                0 <= x < i && 0 <= c < devices@[x].checkpoints_spec().len() ==> signal_wired(
                    #[trigger] devices@[x].checkpoints_spec()[c].signal_spec(),
                ),
        decreases devices@.len() - i,
    {
        let checkpoints = devices[i].checkpoints();
        let mut c: usize = 0;
        while c < checkpoints.len()
            invariant
                i < devices@.len(),
                checkpoints@ == devices@[i as int].checkpoints_spec(),
                c <= checkpoints@.len(),
                forall|x: int, d: int|
                    0 <= x < i && 0 <= d < devices@[x].checkpoints_spec().len() ==> signal_wired(
                        #[trigger] devices@[x].checkpoints_spec()[d].signal_spec(),
                    ),
                forall|d: int| 0 <= d < c ==> signal_wired(#[trigger] checkpoints@[d].signal_spec()),
            decreases checkpoints@.len() - c,
        {
            if let MockSignal::Gpio(line) = *checkpoints[c].signal() {
                if line >= GPIO_BANK_LINES {
                    assert(!signal_wired(devices@[i as int].checkpoints_spec()[c as int].signal_spec()));
                    return Err(GpioOutsideBank);
                }
            }
            c += 1;
        }
        i += 1;
    }
    Ok(())
}

} // verus!
