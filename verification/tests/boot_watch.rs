use openprot::capabilities::{BootWatch, FailureCause, WalkVerdict};

// A BootWatch implemented against no walker at all — the seam must be
// satisfiable by anything that can produce verdicts, and must stay
// object-safe (the fleet array below fails to compile otherwise).

struct ScriptedWalk {
    verdicts: &'static [WalkVerdict],
    next: usize,
}

impl BootWatch for ScriptedWalk {
    fn arm(&mut self) {
        self.next = 0;
    }

    fn poll(&mut self, _now_millis: u64) -> WalkVerdict {
        let v = self.verdicts[self.next];
        self.next += 1;
        v
    }
}

#[test]
fn a_heterogeneous_fleet_pumps_through_the_erased_seam() {
    let mut bmc = ScriptedWalk {
        verdicts: &[
            WalkVerdict::Waiting {
                deadline_millis: 90_000,
            },
            WalkVerdict::Complete,
        ],
        next: 0,
    };
    let mut nic = ScriptedWalk {
        verdicts: &[
            WalkVerdict::Failed {
                checkpoint: "heartbeat",
                cause: FailureCause::TimedOut,
            },
            WalkVerdict::Failed {
                checkpoint: "heartbeat",
                cause: FailureCause::DeviceFatal,
            },
        ],
        next: 0,
    };

    let fleet: &mut [&mut dyn BootWatch] = &mut [&mut bmc, &mut nic];

    let first: [WalkVerdict; 2] = [fleet[0].poll(0), fleet[1].poll(0)];
    let second: [WalkVerdict; 2] = [fleet[0].poll(1), fleet[1].poll(1)];

    assert_eq!(
        first,
        [
            WalkVerdict::Waiting {
                deadline_millis: 90_000
            },
            WalkVerdict::Failed {
                checkpoint: "heartbeat",
                cause: FailureCause::TimedOut
            },
        ]
    );
    assert_eq!(
        second,
        [
            WalkVerdict::Complete,
            WalkVerdict::Failed {
                checkpoint: "heartbeat",
                cause: FailureCause::DeviceFatal
            },
        ]
    );
}
