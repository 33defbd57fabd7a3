//! Decisions of the MCTP server's polling loop: the in-process SPDM
//! requester's version/capabilities/algorithms flow, stepped once per loop
//! iteration, and the destination byte the I2C path puts back in front of
//! each received frame.

use vstd::prelude::*;

verus! {

/// How many consecutive unsuccessful steps the requester spends in one
/// waiting state before it gives up.
pub const AWAIT_STEP_BUDGET: u32 = 10_000;

/// The requester's place in the version/capabilities/algorithms flow.
#[derive(Copy, Clone, Debug, PartialEq, Eq, Structural)]
pub enum ReqState {
    SendVersion,
    AwaitVersion,
    SendCapabilities,
    AwaitCapabilities,
    SendAlgorithms,
    AwaitAlgorithms,
    Done,
    Failed,
}

/// What the loop does in a state before it steps the requester.
#[derive(Copy, Clone, Debug, PartialEq, Eq, Structural)]
pub enum ReqAction {
    /// Build and send `GET_VERSION`.
    SendGetVersion,
    /// Build and send `GET_CAPABILITIES`.
    SendGetCapabilities,
    /// Build and send `NEGOTIATE_ALGORITHMS`.
    SendNegotiateAlgorithms,
    /// Try to process one response.
    ProcessResponse,
    /// Nothing: the flow is over.
    Idle,
}

/// The action of each state.
pub open spec fn action_of(s: ReqState) -> ReqAction {
    match s {
        ReqState::SendVersion => ReqAction::SendGetVersion,
        ReqState::SendCapabilities => ReqAction::SendGetCapabilities,
        ReqState::SendAlgorithms => ReqAction::SendNegotiateAlgorithms,
        ReqState::AwaitVersion | ReqState::AwaitCapabilities | ReqState::AwaitAlgorithms => ReqAction::ProcessResponse,
        ReqState::Done | ReqState::Failed => ReqAction::Idle,
    }
}

/// Where a state leads when its action succeeds.
pub open spec fn success_of(s: ReqState) -> ReqState {
    match s {
        ReqState::SendVersion => ReqState::AwaitVersion,
        ReqState::AwaitVersion => ReqState::SendCapabilities,
        ReqState::SendCapabilities => ReqState::AwaitCapabilities,
        ReqState::AwaitCapabilities => ReqState::SendAlgorithms,
        ReqState::SendAlgorithms => ReqState::AwaitAlgorithms,
        ReqState::AwaitAlgorithms => ReqState::Done,
        ReqState::Done => ReqState::Done,
        ReqState::Failed => ReqState::Failed,
    }
}

/// Whether a state retries a failed action against the step budget (the
/// first send and every wait) rather than failing at once.
pub open spec fn retries(s: ReqState) -> bool {
    s == ReqState::SendVersion || action_of(s) == ReqAction::ProcessResponse
}

/// One step of the requester: the state and step count after the action of
/// `s` succeeded (`ok`) or not. Success moves on and resets the count; a
/// retrying state counts the failure (wrapping) and gives up at the budget;
/// a failed capabilities or algorithms send fails at once; the terminal
/// states stay.
pub open spec fn req_next(s: ReqState, steps: u32, ok: bool) -> (ReqState, u32) {
    if s == ReqState::Done || s == ReqState::Failed {
        (s, steps)
    } else if ok {
        (success_of(s), 0)
    } else if retries(s) {
        let n = (if steps == u32::MAX { 0 } else { steps + 1 }) as u32;
        (if n >= AWAIT_STEP_BUDGET { ReqState::Failed } else { s }, n)
    } else {
        (ReqState::Failed, steps)
    }
}

/// The action the loop performs in state `s`.
pub fn req_action(s: ReqState) -> (r: ReqAction)
    ensures
        r == action_of(s),
{
    match s {
        ReqState::SendVersion => ReqAction::SendGetVersion,
        ReqState::SendCapabilities => ReqAction::SendGetCapabilities,
        ReqState::SendAlgorithms => ReqAction::SendNegotiateAlgorithms,
        ReqState::AwaitVersion | ReqState::AwaitCapabilities | ReqState::AwaitAlgorithms => ReqAction::ProcessResponse,
        ReqState::Done | ReqState::Failed => ReqAction::Idle,
    }
}

/// Step the requester after its action succeeded (`ok`) or not.
pub fn req_step(s: ReqState, steps: u32, ok: bool) -> (r: (ReqState, u32))
    ensures
        r == req_next(s, steps, ok),
{
    match s {
        ReqState::Done | ReqState::Failed => (s, steps),
        _ => {
            if ok {
                let next = match s {
                    ReqState::SendVersion => ReqState::AwaitVersion,
                    ReqState::AwaitVersion => ReqState::SendCapabilities,
                    ReqState::SendCapabilities => ReqState::AwaitCapabilities,
                    ReqState::AwaitCapabilities => ReqState::SendAlgorithms,
                    ReqState::SendAlgorithms => ReqState::AwaitAlgorithms,
                    _ => ReqState::Done,
                };
                (next, 0)
            } else {
                match s {
                    ReqState::SendCapabilities | ReqState::SendAlgorithms => (ReqState::Failed, steps),
                    _ => {
                        let n = steps.wrapping_add(1);
                        if n >= AWAIT_STEP_BUDGET {
                            (ReqState::Failed, n)
                        } else {
                            (s, n)
                        }
                    },
                }
            }
        },
    }
}

/// The terminal states stay as they are, whatever happens.
pub proof fn lemma_requester_terminal(s: ReqState, steps: u32, ok: bool)
    requires
        s == ReqState::Done || s == ReqState::Failed,
    ensures
        req_next(s, steps, ok) == (s, steps),
{
}

/// The state after `k` unsuccessful steps from `s` with count `steps`.
pub open spec fn failing_run(s: ReqState, steps: u32, k: nat) -> (ReqState, u32)
    decreases k,
{
    if k == 0 {
        (s, steps)
    } else {
        let (s1, n1) = req_next(s, steps, false);
        failing_run(s1, n1, (k - 1) as nat)
    }
}

proof fn lemma_failing_run_counts(s: ReqState, steps: u32, k: nat)
    requires
        retries(s),
        steps + k < AWAIT_STEP_BUDGET,
    ensures
        failing_run(s, steps, k) == (s, (steps + k) as u32),
    decreases k,
{
    if k > 0 {
        lemma_failing_run_counts(s, (steps + 1) as u32, (k - 1) as nat);
    }
}

/// The requester never waits forever: from a fresh count, a retrying state
/// that keeps failing gives up after exactly the step budget.
pub proof fn lemma_requester_gives_up(s: ReqState)
    requires
        retries(s),
    ensures
        failing_run(s, 0, (AWAIT_STEP_BUDGET - 1) as nat) == (s, (AWAIT_STEP_BUDGET - 1) as u32),
        failing_run(s, 0, AWAIT_STEP_BUDGET as nat).0 == ReqState::Failed,
{
    lemma_failing_run_counts(s, 0, (AWAIT_STEP_BUDGET - 1) as nat);
    lemma_failing_run_last(s, 0, AWAIT_STEP_BUDGET as nat);
}

proof fn lemma_failing_run_last(s: ReqState, steps: u32, k: nat)
    requires
        retries(s),
        k >= 1,
        steps + k == AWAIT_STEP_BUDGET,
    ensures
        failing_run(s, steps, k).0 == ReqState::Failed,
    decreases k,
{
    reveal_with_fuel(failing_run, 2);
    if k > 1 {
        assert(req_next(s, steps, false) == (s, (steps + 1) as u32));
        lemma_failing_run_last(s, (steps + 1) as u32, (k - 1) as nat);
    } else {
        let (s1, n1) = req_next(s, steps, false);
        assert(s1 == ReqState::Failed);
        assert(failing_run(s, steps, k) == failing_run(s1, n1, 0));
    }
}

/// The frame with this target's write address put back in front: the I2C
/// hardware drops it, but the SMBus framing (and its PEC) covers it.
pub open spec fn frame_with_destination(own_addr: u8, raw: Seq<u8>) -> Seq<u8> {
    seq![(own_addr * 2) as u8] + raw
}

/// Put this target's write address (`own_addr << 1`) in front of `raw` in
/// `out`; `None`, leaving `out` as it was, when the frame would not fit.
pub fn prepend_destination(own_addr: u8, raw: &[u8], out: &mut [u8]) -> (r: Option<usize>)
    ensures
        match r {
            Some(n) => raw@.len() + 1 <= old(out)@.len() && n == raw@.len() + 1 && final(out)@
                == frame_with_destination(own_addr, raw@) + old(out)@.skip(n as int),
            None => raw@.len() + 1 > old(out)@.len() && final(out)@ == old(out)@,
        },
{
    if raw.len() >= out.len() {
        return None;
    }
    let ghost before = out@;
    let addr: u8 = own_addr << 1;
    assert(addr == (own_addr * 2) as u8) by (bit_vector)
        requires
            addr == own_addr << 1,
    ;
    out[0] = addr;
    let mut i: usize = 0;
    while i < raw.len()
        invariant
            raw@.len() < out@.len(),
            out@.len() == before.len(),
            i <= raw@.len(),
            out@ == seq![addr] + raw@.take(i as int) + before.skip(1 + i),
        decreases raw@.len() - i,
    {
        out[i + 1] = raw[i];
        i += 1;
        assert(out@ =~= seq![addr] + raw@.take(i as int) + before.skip(1 + i));
    }
    assert(raw@.take(raw@.len() as int) =~= raw@);
    Some(raw.len() + 1)
}

} // verus!
