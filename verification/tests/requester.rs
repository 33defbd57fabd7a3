use openprot::requester::{
    prepend_destination, req_action, req_step, ReqAction, ReqState, AWAIT_STEP_BUDGET,
};

#[test]
fn a_clean_flow_walks_to_done() {
    let mut s = ReqState::SendVersion;
    let mut steps = 0;
    let mut actions = Vec::new();
    while s != ReqState::Done {
        actions.push(req_action(s));
        (s, steps) = req_step(s, steps, true);
    }
    assert_eq!(
        actions,
        vec![
            ReqAction::SendGetVersion,
            ReqAction::ProcessResponse,
            ReqAction::SendGetCapabilities,
            ReqAction::ProcessResponse,
            ReqAction::SendNegotiateAlgorithms,
            ReqAction::ProcessResponse,
        ]
    );
    assert_eq!(steps, 0);
    assert_eq!(req_action(ReqState::Done), ReqAction::Idle);
}

#[test]
fn a_wait_counts_misses_and_gives_up_at_the_budget() {
    assert_eq!(req_step(ReqState::AwaitVersion, 0, false), (ReqState::AwaitVersion, 1));
    assert_eq!(
        req_step(ReqState::AwaitCapabilities, AWAIT_STEP_BUDGET - 2, false),
        (ReqState::AwaitCapabilities, AWAIT_STEP_BUDGET - 1)
    );
    assert_eq!(
        req_step(ReqState::AwaitAlgorithms, AWAIT_STEP_BUDGET - 1, false),
        (ReqState::Failed, AWAIT_STEP_BUDGET)
    );
    assert_eq!(req_step(ReqState::AwaitAlgorithms, 17, true), (ReqState::Done, 0));
}

#[test]
fn the_first_send_retries_and_later_sends_fail_at_once() {
    assert_eq!(req_step(ReqState::SendVersion, 3, false), (ReqState::SendVersion, 4));
    assert_eq!(req_step(ReqState::SendCapabilities, 3, false), (ReqState::Failed, 3));
    assert_eq!(req_step(ReqState::SendAlgorithms, 0, false), (ReqState::Failed, 0));
}

#[test]
fn terminal_states_stay() {
    assert_eq!(req_step(ReqState::Done, 5, false), (ReqState::Done, 5));
    assert_eq!(req_step(ReqState::Failed, 5, true), (ReqState::Failed, 5));
}

#[test]
fn a_missing_destination_byte_is_put_back() {
    let mut out = [0xEEu8; 8];
    assert_eq!(prepend_destination(0x10, &[0x0f, 3, 0x85], &mut out), Some(4));
    assert_eq!(out, [0x20, 0x0f, 3, 0x85, 0xEE, 0xEE, 0xEE, 0xEE]);
    let mut small = [0u8; 3];
    assert_eq!(prepend_destination(0x10, &[1, 2, 3], &mut small), None);
    assert_eq!(small, [0u8; 3]);
}
