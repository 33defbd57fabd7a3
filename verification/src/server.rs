//! The decisions of the MCTP server: which server operation a wire request
//! asks for, how each outcome is answered on the wire, the table of pending
//! receive calls with their deadlines, and the checks made before a send.
//!
//! The MCTP stack itself (routing, fragmentation, handle allocation) is
//! reached by the platform layer, which performs the operation a request
//! names and hands the outcome back here to be encoded.

use vstd::prelude::*;
use crate::mctp_error::{code_byte, MctpError, ResponseCode};
use crate::wire::flags;
use crate::wire::{
    bare_response, decode_request, encode_error_response, encode_get_eid_response, encode_handle_response,
    encode_recv_response, encode_send_response, encode_success_response, from_le32, le32, lemma_le32_roundtrip,
    lemma_request_roundtrip, op_of_byte, read_le32, recv_response, request_bytes, response_bytes, send_flags,
    send_request, simple_request, written, MctpOp, MctpRequestHeader, MctpResponseHeader, MAX_PAYLOAD_SIZE,
};

verus! {

/// Configuration constants of the MCTP server.
pub struct ServerConfig;

impl ServerConfig {
    /// Maximum number of concurrent requests the server can handle.
    pub const MAX_REQUESTS: usize = 8;
    /// Maximum number of listeners that can be registered concurrently.
    pub const MAX_LISTENERS: usize = 8;
    /// Maximum number of concurrent outstanding receive calls.
    pub const MAX_OUTSTANDING: usize = 16;
    /// Maximum payload size in bytes.
    pub const MAX_PAYLOAD: usize = 1023;
}

/// A handle the server gave out for a listener or a request.
#[derive(Debug, Clone, Copy, PartialEq, Eq, Structural)]
pub struct Handle(pub u32);

/// What the server learned of a received message.
#[derive(Debug, Clone, Copy, PartialEq, Eq, Structural)]
pub struct RecvMetadata {
    pub msg_type: u8,
    pub msg_ic: bool,
    pub msg_tag: u8,
    pub remote_eid: u8,
    pub payload_size: usize,
}

/// Result of a pending receive call.
#[derive(Debug, Clone, Copy, PartialEq, Eq, Structural)]
pub enum RecvResult {
    /// A message was received.
    Message(RecvMetadata),
    /// The receive call timed out.
    TimedOut,
}

/// Outcome of dispatching one request.
#[derive(Debug, Clone, Copy, PartialEq, Eq, Structural)]
pub enum DispatchOutcome {
    /// The response is ready in its first `n` bytes.
    Reply(usize),
    /// No message was available for `Recv`; the call waits, keyed on `handle`.
    Pending { handle: Handle },
}

/// The server operation a request asks for.
#[derive(Debug, Clone, Copy, PartialEq, Eq, Structural)]
pub enum ServerCall {
    SetEid(u8),
    GetEid,
    Listener(u8),
    Req(u8),
    Recv { handle: Handle, timeout_millis: u32 },
    Send { handle: Option<Handle>, msg_type: u8, eid: Option<u8>, tag: Option<u8>, ic: bool },
    Unbind(Handle),
}

/// The `timeout_millis` a `Recv` request carries after its header; `0`
/// (no timeout) when the request is too short to hold one.
pub open spec fn recv_timeout_of(request: Seq<u8>) -> u32 {
    if request.len() >= 16 {
        from_le32(request[12], request[13], request[14], request[15])
    } else {
        0
    }
}

/// The operation that the request `request` asks for, if its header is
/// complete and names a known operation.
pub open spec fn call_of(request: Seq<u8>) -> Option<ServerCall> {
    match decode_request(request) {
        None => None,
        Some(h) => match op_of_byte(h.op) {
            None => None,
            Some(op) => Some(
                match op {
                    MctpOp::SetEid => ServerCall::SetEid(h.eid),
                    MctpOp::GetEid => ServerCall::GetEid,
                    MctpOp::Listener => ServerCall::Listener(h.msg_type),
                    MctpOp::Req => ServerCall::Req(h.eid),
                    MctpOp::Recv => ServerCall::Recv { handle: Handle(h.handle), timeout_millis: recv_timeout_of(request) },
                    MctpOp::Send => ServerCall::Send {
                        handle: if h.flags & flags::HAS_HANDLE != 0 { Some(Handle(h.handle)) } else { None },
                        msg_type: h.msg_type,
                        eid: if h.flags & flags::HAS_EID != 0 { Some(h.eid) } else { None },
                        tag: if h.flags & flags::HAS_TAG != 0 { Some(h.tag) } else { None },
                        ic: h.flags & flags::IC != 0,
                    },
                    MctpOp::Unbind => ServerCall::Unbind(Handle(h.handle)),
                },
            ),
        },
    }
}

/// The `timeout_millis` of a `Recv` request.
pub fn recv_timeout(request: &[u8]) -> (r: u32)
    ensures
        r == recv_timeout_of(request@),
{
    if request.len() >= 16 {
        read_le32(request[12], request[13], request[14], request[15])
    } else {
        0
    }
}

/// Decode the operation a request asks for; `None` when the header is
/// short or names no operation, which the server answers `BadArgument`.
pub fn decode_mctp_op(request: &[u8]) -> (r: Option<ServerCall>)
    ensures
        r == call_of(request@),
{
    let header = match MctpRequestHeader::from_bytes(request) {
        Some(h) => h,
        None => return None,
    };
    let op = match header.operation() {
        Some(op) => op,
        None => return None,
    };
    let call = match op {
        MctpOp::SetEid => ServerCall::SetEid(header.eid),
        MctpOp::GetEid => ServerCall::GetEid,
        MctpOp::Listener => ServerCall::Listener(header.msg_type),
        MctpOp::Req => ServerCall::Req(header.eid),
        MctpOp::Recv => ServerCall::Recv { handle: Handle(header.handle), timeout_millis: recv_timeout(request) },
        MctpOp::Send => ServerCall::Send {
            handle: if header.flags & flags::HAS_HANDLE != 0 { Some(Handle(header.handle)) } else { None },
            msg_type: header.msg_type,
            eid: if header.flags & flags::HAS_EID != 0 { Some(header.eid) } else { None },
            tag: if header.flags & flags::HAS_TAG != 0 { Some(header.tag) } else { None },
            ic: header.flags & flags::IC != 0,
        },
        MctpOp::Unbind => ServerCall::Unbind(Handle(header.handle)),
    };
    Some(call)
}

proof fn lemma_send_flags_bits(h: bool, e: bool, t: bool, i: bool)
    ensures
        (send_flags(h, e, t, i) & flags::HAS_HANDLE != 0) == h,
        (send_flags(h, e, t, i) & flags::HAS_EID != 0) == e,
        (send_flags(h, e, t, i) & flags::HAS_TAG != 0) == t,
        (send_flags(h, e, t, i) & flags::IC != 0) == i,
{
    let f0: u8 = 0;
    let f1: u8 = if i { f0 | 1u8 } else { f0 };
    let f2: u8 = if h { f1 | 2u8 } else { f1 };
    let f3: u8 = if e { f2 | 4u8 } else { f2 };
    let f4: u8 = if t { f3 | 8u8 } else { f3 };
    assert((f4 & 2u8 != 0) == h && (f4 & 4u8 != 0) == e && (f4 & 8u8 != 0) == t && (f4 & 1u8 != 0) == i) by (bit_vector)
        requires
            f0 == 0u8,
            f1 == if i { f0 | 1u8 } else { f0 },
            f2 == if h { f1 | 2u8 } else { f1 },
            f3 == if e { f2 | 4u8 } else { f2 },
            f4 == if t { f3 | 8u8 } else { f3 },
    ;
}

/// A `Send` request as the client encodes it, whatever follows it, asks
/// the server for that very send.
pub proof fn lemma_send_request_decodes(
    handle: Option<u32>,
    msg_type: u8,
    eid: Option<u8>,
    tag: Option<u8>,
    ic: bool,
    rest: Seq<u8>,
)
    ensures
        call_of(request_bytes(send_request(handle, msg_type, eid, tag, ic)) + rest) == Some(
            ServerCall::Send {
                handle: match handle {
                    Some(h) => Some(Handle(h)),
                    None => None,
                },
                msg_type,
                eid,
                tag,
                ic,
            },
        ),
{
    lemma_request_roundtrip(send_request(handle, msg_type, eid, tag, ic), rest);
    lemma_send_flags_bits(handle is Some, eid is Some, tag is Some, ic);
}

/// A `Recv` request as the client encodes it, whatever follows it, asks the
/// server to receive on that handle with that timeout.
pub proof fn lemma_recv_request_decodes(handle: u32, timeout_millis: u32, rest: Seq<u8>)
    ensures
        call_of(
            request_bytes(simple_request(MctpOp::Recv, flags::HAS_HANDLE, 0, 0, handle)) + le32(timeout_millis)
                + rest,
        ) == Some(ServerCall::Recv { handle: Handle(handle), timeout_millis }),
{
    let h = simple_request(MctpOp::Recv, flags::HAS_HANDLE, 0, 0, handle);
    let b = request_bytes(h) + le32(timeout_millis) + rest;
    assert(b =~= request_bytes(h) + (le32(timeout_millis) + rest));
    lemma_request_roundtrip(h, le32(timeout_millis) + rest);
    lemma_le32_roundtrip(timeout_millis);
    assert(b[12] == le32(timeout_millis)[0] && b[13] == le32(timeout_millis)[1] && b[14] == le32(timeout_millis)[2]
        && b[15] == le32(timeout_millis)[3]);
}

// ---------------------------------------------------------------------------
// Replies
// ---------------------------------------------------------------------------

/// A 12-byte response `bytes` written over `before`, with its length; a
/// buffer too small for a header is left as it was and the length is `0`.
pub open spec fn fixed_reply(before: Seq<u8>, bytes: Seq<u8>) -> (Seq<u8>, usize) {
    if before.len() >= 12 {
        (written(before, bytes), 12)
    } else {
        (before, 0)
    }
}

/// The error response carrying `code`.
pub open spec fn error_bytes(code: ResponseCode) -> Seq<u8> {
    response_bytes(bare_response(code_byte(code)))
}

/// The reply to a server result with no data: success, or its error code.
pub open spec fn status_bytes(r: Result<(), MctpError>) -> Seq<u8> {
    match r {
        Ok(()) => response_bytes(bare_response(0)),
        Err(e) => error_bytes(e.code),
    }
}

/// The reply that carries a handle, or the error code.
pub open spec fn handle_bytes(r: Result<Handle, MctpError>) -> Seq<u8> {
    match r {
        Ok(h) => response_bytes(MctpResponseHeader { handle: h.0, ..bare_response(0) }),
        Err(e) => error_bytes(e.code),
    }
}

/// The reply that carries the tag a send used, or the error code.
pub open spec fn sent_bytes(r: Result<u8, MctpError>) -> Seq<u8> {
    match r {
        Ok(tag) => response_bytes(MctpResponseHeader { tag, ..bare_response(0) }),
        Err(e) => error_bytes(e.code),
    }
}

/// The reply to a received message: its metadata and payload, or an
/// internal error when the payload does not fit the response.
pub open spec fn message_reply(before: Seq<u8>, meta: RecvMetadata, payload: Seq<u8>) -> (Seq<u8>, usize) {
    if payload.len() <= MAX_PAYLOAD_SIZE && before.len() >= 12 + payload.len() {
        (
            written(
                before,
                response_bytes(recv_response(meta.msg_type, meta.msg_ic, meta.remote_eid, meta.msg_tag, payload.len()))
                    + payload,
            ),
            (12 + payload.len()) as usize,
        )
    } else {
        fixed_reply(before, error_bytes(ResponseCode::InternalError))
    }
}

/// Answer with the error `code`; nothing is written if even a header does
/// not fit.
pub fn reply_error(response: &mut [u8], code: ResponseCode) -> (n: usize)
    ensures
        (final(response)@, n) == fixed_reply(old(response)@, error_bytes(code)),
{
    match encode_error_response(response, code) {
        Ok(n) => n,
        Err(_) => 0,
    }
}

/// Answer a server result that carries no data.
pub fn reply_status(response: &mut [u8], result: Result<(), MctpError>) -> (n: usize)
    ensures
        (final(response)@, n) == fixed_reply(old(response)@, status_bytes(result)),
{
    match result {
        Ok(()) => match encode_success_response(response) {
            Ok(n) => n,
            Err(_) => 0,
        },
        Err(e) => reply_error(response, e.code),
    }
}

/// Answer `GetEid` with the endpoint's id.
pub fn reply_eid(response: &mut [u8], eid: u8) -> (n: usize)
    ensures
        (final(response)@, n) == fixed_reply(
            old(response)@,
            response_bytes(MctpResponseHeader { eid, ..bare_response(0) }),
        ),
{
    match encode_get_eid_response(response, eid) {
        Ok(n) => n,
        Err(_) => reply_error(response, ResponseCode::InternalError),
    }
}

/// Answer `Listener` or `Req` with the handle the server allocated.
pub fn reply_handle(response: &mut [u8], result: Result<Handle, MctpError>) -> (n: usize)
    ensures
        (final(response)@, n) == fixed_reply(old(response)@, handle_bytes(result)),
{
    match result {
        Ok(handle) => match encode_handle_response(response, handle.0) {
            Ok(n) => n,
            Err(_) => reply_error(response, ResponseCode::InternalError),
        },
        Err(e) => reply_error(response, e.code),
    }
}

/// Answer `Send` with the tag the message went out with.
pub fn reply_sent(response: &mut [u8], result: Result<u8, MctpError>) -> (n: usize)
    ensures
        (final(response)@, n) == fixed_reply(old(response)@, sent_bytes(result)),
{
    match result {
        Ok(tag) => match encode_send_response(response, tag) {
            Ok(n) => n,
            Err(_) => reply_error(response, ResponseCode::InternalError),
        },
        Err(e) => reply_error(response, e.code),
    }
}

/// Answer a receive call that got a message, with its metadata and the
/// payload.
pub fn reply_message(response: &mut [u8], meta: RecvMetadata, payload: &[u8]) -> (n: usize)
    ensures
        (final(response)@, n) == message_reply(old(response)@, meta, payload@),
{
    match encode_recv_response(response, meta.msg_type, meta.msg_ic, meta.remote_eid, meta.msg_tag, payload) {
        Ok(n) => n,
        Err(_) => reply_error(response, ResponseCode::InternalError),
    }
}

/// Answer a finished receive call: its message, or `TimedOut`.
pub fn reply_recv_result(response: &mut [u8], result: RecvResult, payload: &[u8]) -> (n: usize)
    ensures
        (final(response)@, n) == match result {
            RecvResult::Message(meta) => message_reply(old(response)@, meta, payload@),
            RecvResult::TimedOut => fixed_reply(old(response)@, error_bytes(ResponseCode::TimedOut)),
        },
{
    match result {
        RecvResult::Message(meta) => reply_message(response, meta, payload),
        RecvResult::TimedOut => reply_error(response, ResponseCode::TimedOut),
    }
}

// ---------------------------------------------------------------------------
// Pending receive calls
// ---------------------------------------------------------------------------

/// The deadline of a receive call made at `now` with `timeout` (0: none).
pub open spec fn deadline_of(timeout_millis: u32, now_millis: u64) -> u64 {
    if timeout_millis != 0 {
        (now_millis + timeout_millis) as u64
    } else {
        0
    }
}

/// Whether a pending call with this deadline has expired at `now`.
pub open spec fn expired(deadline: u64, now_millis: u64) -> bool {
    deadline != 0 && now_millis >= deadline
}

/// The position of `handle` in the table, if it is there.
pub open spec fn entry_index(entries: Seq<(u32, u64)>, handle: u32) -> Option<int> {
    if exists|i: int| 0 <= i < entries.len() && #[trigger] entries[i].0 == handle {
        Some(choose|i: int| 0 <= i < entries.len() && #[trigger] entries[i].0 == handle)
    } else {
        None
    }
}

/// No handle is in the table twice.
pub open spec fn handles_unique(entries: Seq<(u32, u64)>) -> bool {
    forall|i: int, j: int| 0 <= i < j < entries.len() ==> #[trigger] entries[i].0 != #[trigger] entries[j].0
}

/// The calls of the table that end in this sweep, in table order: a call
/// whose message arrived gets it, else a call past its deadline times out.
pub open spec fn swept(entries: Seq<(u32, u64)>, arrivals: Seq<Option<RecvMetadata>>, now_millis: u64) -> Seq<(Handle, RecvResult)>
    decreases entries.len(),
{
    if entries.len() == 0 {
        seq![]
    } else {
        let i = entries.len() - 1;
        let rest = swept(entries.drop_last(), arrivals.take(i), now_millis);
        match arrivals[i] {
            Some(meta) => rest.push((Handle(entries[i].0), RecvResult::Message(meta))),
            None => if expired(entries[i].1, now_millis) {
                rest.push((Handle(entries[i].0), RecvResult::TimedOut))
            } else {
                rest
            },
        }
    }
}

/// The calls that stay pending after a sweep, in table order.
pub open spec fn kept(entries: Seq<(u32, u64)>, arrivals: Seq<Option<RecvMetadata>>, now_millis: u64) -> Seq<(u32, u64)>
    decreases entries.len(),
{
    if entries.len() == 0 {
        seq![]
    } else {
        let i = entries.len() - 1;
        let rest = kept(entries.drop_last(), arrivals.take(i), now_millis);
        if arrivals[i] is None && !expired(entries[i].1, now_millis) {
            rest.push(entries[i])
        } else {
            rest
        }
    }
}

/// A sweep settles each pending call exactly once: a call whose message
/// arrived gets it, a call past its deadline with no message times out,
/// and every other call stays pending; the calls that end and those that
/// stay together number exactly the calls there were.
pub proof fn lemma_sweep_settles_each_call_once(
    entries: Seq<(u32, u64)>,
    arrivals: Seq<Option<RecvMetadata>>,
    now_millis: u64,
)
    requires
        arrivals.len() == entries.len(),
    ensures
        swept(entries, arrivals, now_millis).len() + kept(entries, arrivals, now_millis).len() == entries.len(),
        forall|i: int|
            0 <= i < entries.len() ==> match #[trigger] arrivals[i] {
                Some(meta) => swept(entries, arrivals, now_millis).contains((Handle(entries[i].0), RecvResult::Message(meta))),
                None => if expired(entries[i].1, now_millis) {
                    swept(entries, arrivals, now_millis).contains((Handle(entries[i].0), RecvResult::TimedOut))
                } else {
                    kept(entries, arrivals, now_millis).contains(entries[i])
                },
            },
    decreases entries.len(),
{
    if entries.len() > 0 {
        let n = entries.len() - 1;
        let e0 = entries.drop_last();
        let a0 = arrivals.take(n);
        lemma_sweep_settles_each_call_once(e0, a0, now_millis);
        let sw0 = swept(e0, a0, now_millis);
        let kp0 = kept(e0, a0, now_millis);
        let sw = swept(entries, arrivals, now_millis);
        let kp = kept(entries, arrivals, now_millis);
        assert forall|i: int| 0 <= i < entries.len() implies match #[trigger] arrivals[i] {
            Some(meta) => sw.contains((Handle(entries[i].0), RecvResult::Message(meta))),
            None => if expired(entries[i].1, now_millis) {
                sw.contains((Handle(entries[i].0), RecvResult::TimedOut))
            } else {
                kp.contains(entries[i])
            },
        } by {
            if i < n {
                assert(a0[i] == arrivals[i]);
                assert(e0[i] == entries[i]);
                match arrivals[i] {
                    Some(meta) => {
                        let j = choose|j: int| 0 <= j < sw0.len() && sw0[j] == (Handle(entries[i].0), RecvResult::Message(meta));
                        assert(sw[j] == sw0[j]);
                    },
                    None => if expired(entries[i].1, now_millis) {
                        let j = choose|j: int| 0 <= j < sw0.len() && sw0[j] == (Handle(entries[i].0), RecvResult::TimedOut);
                        assert(sw[j] == sw0[j]);
                    } else {
                        let j = choose|j: int| 0 <= j < kp0.len() && kp0[j] == entries[i];
                        assert(kp[j] == kp0[j]);
                    },
                }
            } else {
                match arrivals[i] {
                    Some(meta) => assert(sw[sw0.len() as int] == (Handle(entries[i].0), RecvResult::Message(meta))),
                    None => if expired(entries[i].1, now_millis) {
                        assert(sw[sw0.len() as int] == (Handle(entries[i].0), RecvResult::TimedOut));
                    } else {
                        assert(kp[kp0.len() as int] == entries[i]);
                    },
                }
            }
        }
    }
}

/// The calls that end in a sweep come from distinct table entries, and
/// those that stay from the others.
proof fn lemma_sweep_origins(entries: Seq<(u32, u64)>, arrivals: Seq<Option<RecvMetadata>>, now_millis: u64)
    requires
        arrivals.len() == entries.len(),
        handles_unique(entries),
    ensures
        forall|j: int|
            0 <= j < swept(entries, arrivals, now_millis).len() ==> exists|m: int|
                0 <= m < entries.len() && #[trigger] swept(entries, arrivals, now_millis)[j].0 == Handle(entries[m].0),
        forall|k: int|
            0 <= k < kept(entries, arrivals, now_millis).len() ==> exists|m: int|
                0 <= m < entries.len() && #[trigger] kept(entries, arrivals, now_millis)[k] == entries[m],
        forall|a: int, b: int|
            0 <= a < b < swept(entries, arrivals, now_millis).len() ==> #[trigger] swept(entries, arrivals, now_millis)[a].0
                != #[trigger] swept(entries, arrivals, now_millis)[b].0,
        forall|j: int, k: int|
            0 <= j < swept(entries, arrivals, now_millis).len() && 0 <= k < kept(entries, arrivals, now_millis).len()
                ==> #[trigger] swept(entries, arrivals, now_millis)[j].0 != Handle(
                #[trigger] kept(entries, arrivals, now_millis)[k].0,
            ),
    decreases entries.len(),
{
    if entries.len() > 0 {
        let n = entries.len() - 1;
        let e0 = entries.drop_last();
        let a0 = arrivals.take(n);
        assert forall|a: int, b: int| 0 <= a < b < e0.len() implies #[trigger] e0[a].0 != #[trigger] e0[b].0 by {
            assert(e0[a] == entries[a] && e0[b] == entries[b]);
        }
        lemma_sweep_origins(e0, a0, now_millis);
        let sw0 = swept(e0, a0, now_millis);
        let kp0 = kept(e0, a0, now_millis);
        let sw = swept(entries, arrivals, now_millis);
        let kp = kept(entries, arrivals, now_millis);
        let h = entries[n].0;
        // Whatever the earlier entries settled carries a handle other than `h`.
        assert forall|j: int| 0 <= j < sw0.len() implies #[trigger] sw0[j].0 != Handle(h) by {
            let m = choose|m: int| 0 <= m < e0.len() && #[trigger] sw0[j].0 == Handle(e0[m].0);
            assert(e0[m] == entries[m]);
            assert(entries[m].0 != entries[n].0);
        }
        assert forall|k: int| 0 <= k < kp0.len() implies #[trigger] kp0[k].0 != h by {
            let m = choose|m: int| 0 <= m < e0.len() && #[trigger] kp0[k] == e0[m];
            assert(e0[m] == entries[m]);
            assert(entries[m].0 != entries[n].0);
        }
        assert forall|j: int| 0 <= j < sw.len() implies exists|m: int|
            0 <= m < entries.len() && #[trigger] sw[j].0 == Handle(entries[m].0) by {
            if j < sw0.len() {
                assert(sw[j] == sw0[j]);
                let m = choose|m: int| 0 <= m < e0.len() && #[trigger] sw0[j].0 == Handle(e0[m].0);
                assert(e0[m] == entries[m]);
            } else {
                assert(sw[j].0 == Handle(entries[n].0));
            }
        }
        assert forall|k: int| 0 <= k < kp.len() implies exists|m: int| 0 <= m < entries.len() && #[trigger] kp[k] == entries[m] by {
            if k < kp0.len() {
                assert(kp[k] == kp0[k]);
                let m = choose|m: int| 0 <= m < e0.len() && #[trigger] kp0[k] == e0[m];
                assert(e0[m] == entries[m]);
            } else {
                assert(kp[k] == entries[n]);
            }
        }
        assert forall|a: int, b: int| 0 <= a < b < sw.len() implies #[trigger] sw[a].0 != #[trigger] sw[b].0 by {
            assert(sw[a] == sw0[a]);
            if b < sw0.len() {
                assert(sw[b] == sw0[b]);
            } else {
                assert(sw[b].0 == Handle(h));
            }
        }
        assert forall|j: int, k: int| 0 <= j < sw.len() && 0 <= k < kp.len() implies #[trigger] sw[j].0 != Handle(
            #[trigger] kp[k].0,
        ) by {
            if j < sw0.len() {
                assert(sw[j] == sw0[j]);
                if k < kp0.len() {
                    assert(kp[k] == kp0[k]);
                } else {
                    assert(kp[k] == entries[n]);
                }
            } else {
                assert(sw[j].0 == Handle(h));
                assert(kp[k] == kp0[k]);
            }
        }
    }
}

/// A sweep reports each handle at most once, and a reported handle is no
/// longer in the table the next sweep starts from. A call with no message
/// is reported timed out exactly when its deadline has passed, and stays
/// registered, with its deadline, otherwise.
pub proof fn lemma_sweep_reports_once(entries: Seq<(u32, u64)>, arrivals: Seq<Option<RecvMetadata>>, now_millis: u64)
    requires
        arrivals.len() == entries.len(),
        handles_unique(entries),
    ensures
        forall|a: int, b: int|
            0 <= a < b < swept(entries, arrivals, now_millis).len() ==> #[trigger] swept(entries, arrivals, now_millis)[a].0
                != #[trigger] swept(entries, arrivals, now_millis)[b].0,
        forall|j: int|
            0 <= j < swept(entries, arrivals, now_millis).len() ==> entry_index(
                kept(entries, arrivals, now_millis),
                #[trigger] swept(entries, arrivals, now_millis)[j].0.0,
            ) is None,
        forall|i: int|
            0 <= i < entries.len() && #[trigger] arrivals[i] is None ==> (swept(entries, arrivals, now_millis).contains(
                (Handle(entries[i].0), RecvResult::TimedOut),
            ) <==> expired(entries[i].1, now_millis)) && (kept(entries, arrivals, now_millis).contains(entries[i])
                <==> !expired(entries[i].1, now_millis)),
{
    lemma_sweep_origins(entries, arrivals, now_millis);
    lemma_sweep_settles_each_call_once(entries, arrivals, now_millis);
    let sw = swept(entries, arrivals, now_millis);
    let kp = kept(entries, arrivals, now_millis);
    assert forall|j: int| 0 <= j < sw.len() implies entry_index(kp, #[trigger] sw[j].0.0) is None by {
        if exists|k: int| 0 <= k < kp.len() && #[trigger] kp[k].0 == sw[j].0.0 {
            let k = choose|k: int| 0 <= k < kp.len() && #[trigger] kp[k].0 == sw[j].0.0;
            assert(sw[j].0 != Handle(kp[k].0));
        }
    }
    assert forall|i: int| 0 <= i < entries.len() && #[trigger] arrivals[i] is None implies (sw.contains(
        (Handle(entries[i].0), RecvResult::TimedOut),
    ) <==> expired(entries[i].1, now_millis)) && (kp.contains(entries[i]) <==> !expired(entries[i].1, now_millis)) by {
        if expired(entries[i].1, now_millis) {
            assert(sw.contains((Handle(entries[i].0), RecvResult::TimedOut)));
            if kp.contains(entries[i]) {
                let k = choose|k: int| 0 <= k < kp.len() && kp[k] == entries[i];
                let j = choose|j: int| 0 <= j < sw.len() && sw[j] == (Handle(entries[i].0), RecvResult::TimedOut);
                assert(sw[j].0 != Handle(kp[k].0));
            }
        } else {
            assert(kp.contains(entries[i]));
            if sw.contains((Handle(entries[i].0), RecvResult::TimedOut)) {
                let k = choose|k: int| 0 <= k < kp.len() && kp[k] == entries[i];
                let j = choose|j: int| 0 <= j < sw.len() && sw[j] == (Handle(entries[i].0), RecvResult::TimedOut);
                assert(sw[j].0 != Handle(kp[k].0));
            }
        }
    }
}

/// The outstanding receive calls, keyed by handle, each with its deadline
/// (`0`: none); at most `N` of them.
pub struct PendingRecvs<const N: usize> {
    entries: Vec<(u32, u64)>,
}

impl<const N: usize> View for PendingRecvs<N> {
    type V = Seq<(u32, u64)>;

    closed spec fn view(&self) -> Seq<(u32, u64)> {
        self.entries@
    }
}

impl<const N: usize> PendingRecvs<N> {
    /// At most `N` calls, no handle twice.
    pub open spec fn wf(&self) -> bool {
        self@.len() <= N && handles_unique(self@)
    }

    pub fn new() -> (r: Self)
        ensures
            r.wf(),
            r@ == Seq::<(u32, u64)>::empty(),
    {
        PendingRecvs { entries: Vec::new() }
    }

    pub fn len(&self) -> (r: usize)
        ensures
            r == self@.len(),
    {
        self.entries.len()
    }

    /// Whether a call on `handle` is pending.
    pub fn contains(&self, handle: Handle) -> (r: bool)
        ensures
            r == (entry_index(self@, handle.0) is Some),
    {
        let mut i: usize = 0;
        while i < self.entries.len()
            invariant
                i <= self@.len(),
                forall|k: int| 0 <= k < i ==> #[trigger] self@[k].0 != handle.0,
            decreases self@.len() - i,
        {
            if self.entries[i].0 == handle.0 {
                assert(self@[i as int].0 == handle.0);
                return true;
            }
            i += 1;
        }
        false
    }

    /// The pending handles, in table order.
    pub fn handles(&self) -> (r: Vec<Handle>)
        ensures
            r@.len() == self@.len(),
            forall|i: int| 0 <= i < self@.len() ==> #[trigger] r@[i] == Handle(self@[i].0),
    {
        let mut r: Vec<Handle> = Vec::new();
        let mut i: usize = 0;
        while i < self.entries.len()
            invariant
                i <= self@.len(),
                r@.len() == i,
                forall|k: int| 0 <= k < i ==> #[trigger] r@[k] == Handle(self@[k].0),
            decreases self@.len() - i,
        {
            r.push(Handle(self.entries[i].0));
            i += 1;
        }
        r
    }

    /// Register a pending receive call on `handle`. A call already pending
    /// on the handle is kept as it was; a full table answers `NoSpace`.
    pub fn register(&mut self, handle: Handle, timeout_millis: u32, now_millis: u64) -> (r: Result<(), MctpError>)
        requires
            old(self).wf(),
            timeout_millis == 0 || now_millis + timeout_millis <= u64::MAX,
        ensures
            final(self).wf(),
            entry_index(old(self)@, handle.0) is Some ==> r is Ok && final(self)@ == old(self)@,
            entry_index(old(self)@, handle.0) is None && old(self)@.len() < N ==> r is Ok && final(self)@
                == old(self)@.push((handle.0, deadline_of(timeout_millis, now_millis))),
            entry_index(old(self)@, handle.0) is None && old(self)@.len() >= N ==> r == Err::<(), MctpError>(
                MctpError { code: ResponseCode::NoSpace },
            ) && final(self)@ == old(self)@,
    {
        let deadline: u64 = if timeout_millis != 0 {
            now_millis + timeout_millis as u64
        } else {
            0
        };
        if self.contains(handle) {
            return Ok(());
        }
        if self.entries.len() >= N {
            return Err(MctpError::from_code(ResponseCode::NoSpace));
        }
        self.entries.push((handle.0, deadline));
        Ok(())
    }

    /// Drop the call pending on `handle`, if any.
    pub fn remove(&mut self, handle: Handle)
        requires
            old(self).wf(),
        ensures
            final(self).wf(),
            entry_index(old(self)@, handle.0) is None ==> final(self)@ == old(self)@,
            entry_index(old(self)@, handle.0) matches Some(i) ==> final(self)@ == old(self)@.remove(i),
    {
        let mut i: usize = 0;
        while i < self.entries.len()
            invariant
                i <= self@.len(),
                self@ == old(self)@,
                old(self).wf(),
                forall|k: int| 0 <= k < i ==> #[trigger] self@[k].0 != handle.0,
            decreases self@.len() - i,
        {
            if self.entries[i].0 == handle.0 {
                proof {
                    let j = entry_index(old(self)@, handle.0).unwrap();
                    assert(old(self)@[i as int].0 == handle.0);
                    if j != i {
                        if j < i {
                            assert(old(self)@[j].0 != handle.0);
                        } else {
                            assert(old(self)@[i as int].0 != old(self)@[j].0);
                        }
                    }
                }
                self.entries.remove(i);
                proof {
                    let s = old(self)@.remove(i as int);
                    assert forall|a: int, b: int| 0 <= a < b < s.len() implies #[trigger] s[a].0 != #[trigger] s[b].0 by {
                        let a0 = if a < i { a } else { a + 1 };
                        let b0 = if b < i { b } else { b + 1 };
                        assert(old(self)@[a0].0 != old(self)@[b0].0);
                    }
                }
                return;
            }
            i += 1;
        }
    }

    /// End the calls that this sweep settles: `arrivals[i]` is what the
    /// stack holds for the `i`-th pending handle. A call whose message
    /// arrived gets it; otherwise a call past its deadline times out. The
    /// settled calls leave the table, in table order; the rest stay.
    pub fn sweep(&mut self, now_millis: u64, arrivals: &[Option<RecvMetadata>]) -> (r: Vec<(Handle, RecvResult)>)
        requires
            old(self).wf(),
            arrivals@.len() == old(self)@.len(),
        ensures
            final(self).wf(),
            r@ == swept(old(self)@, arrivals@, now_millis),
            final(self)@ == kept(old(self)@, arrivals@, now_millis),
    {
        let ghost entries = self@;
        let mut ready: Vec<(Handle, RecvResult)> = Vec::new();
        let mut stay: Vec<(u32, u64)> = Vec::new();
        let mut i: usize = 0;
        while i < self.entries.len()
            invariant
                self@ == entries,
                old(self)@ == entries,
                old(self).wf(),
                arrivals@.len() == entries.len(),
                i <= entries.len(),
                ready@ == swept(entries.take(i as int), arrivals@.take(i as int), now_millis),
                stay@ == kept(entries.take(i as int), arrivals@.take(i as int), now_millis),
                stay@.len() <= i,
                forall|k: int| 0 <= k < stay@.len() ==> exists|m: int| 0 <= m < i && #[trigger] stay@[k] == entries[m],
                handles_unique(stay@),
            decreases entries.len() - i,
        {
            let (handle, deadline) = self.entries[i];
            proof {
                assert(entries.take(i + 1).drop_last() =~= entries.take(i as int));
                assert(arrivals@.take(i + 1).take(i as int) =~= arrivals@.take(i as int));
            }
            match arrivals[i] {
                Some(meta) => {
                    ready.push((Handle(handle), RecvResult::Message(meta)));
                },
                None => {
                    if deadline != 0 && now_millis >= deadline {
                        ready.push((Handle(handle), RecvResult::TimedOut));
                    } else {
                        proof {
                            assert forall|k: int| 0 <= k < stay@.len() implies #[trigger] stay@[k].0 != handle by {
                                let m = choose|m: int| 0 <= m < i && #[trigger] stay@[k] == entries[m];
                                assert(entries[m].0 != entries[i as int].0);
                            }
                        }
                        stay.push((handle, deadline));
                    }
                },
            }
            i += 1;
        }
        proof {
            assert(entries.take(entries.len() as int) =~= entries);
            assert(arrivals@.take(arrivals@.len() as int) =~= arrivals@);
        }
        self.entries = stay;
        ready
    }
}

// ---------------------------------------------------------------------------
// Sends
// ---------------------------------------------------------------------------

/// How a send goes to the stack: the tag (owned when `owned`) if the caller
/// gave one, and the cookie that names the handle (`255` for a response,
/// which has none).
#[derive(Debug, Clone, Copy, PartialEq, Eq, Structural)]
pub struct SendPlan {
    pub tag: Option<PlannedTag>,
    pub cookie: u32,
}

/// A message tag as the stack takes it: its value, and whether this side
/// owns it (a request) or echoes the peer's (a response).
#[derive(Debug, Clone, Copy, PartialEq, Eq, Structural)]
pub struct PlannedTag {
    pub owned: bool,
    pub value: u8,
}

/// The plan of a send, or `NoSpace` when the payload is too large.
pub open spec fn send_plan_of(handle: Option<Handle>, tag: Option<u8>, payload_len: nat) -> Result<SendPlan, MctpError> {
    if payload_len > ServerConfig::MAX_PAYLOAD {
        Err(MctpError { code: ResponseCode::NoSpace })
    } else {
        Ok(
            SendPlan {
                tag: match tag {
                    Some(t) => Some(PlannedTag { owned: handle is Some, value: t }),
                    None => None,
                },
                cookie: match handle {
                    Some(h) => h.0,
                    None => 255,
                },
            },
        )
    }
}

/// Check a send and plan it: requests (with a handle) use owned tags,
/// responses (without one) unowned tags.
pub fn plan_send(handle: Option<Handle>, tag: Option<u8>, payload_len: usize) -> (r: Result<SendPlan, MctpError>)
    ensures
        r == send_plan_of(handle, tag, payload_len as nat),
{
    if payload_len > ServerConfig::MAX_PAYLOAD {
        return Err(MctpError::from_code(ResponseCode::NoSpace));
    }
    let owned = handle.is_some();
    let tag = match tag {
        Some(t) => Some(PlannedTag { owned, value: t }),
        None => None,
    };
    let cookie = match handle {
        Some(h) => h.0,
        None => 255,
    };
    Ok(SendPlan { tag, cookie })
}

} // verus!
