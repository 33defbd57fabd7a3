//! MCTP IPC wire protocol: the binary encoding of MCTP operations over IPC
//! channels.
//!
//! ```text
//! Request (12 bytes header + optional payload):
//! | op | flags | msg_type | eid | handle (4B LE) | tag | reserved (3B) |
//!
//! Response (12 bytes header + optional payload):
//! | code | flags | msg_type | eid | handle (4B LE) | payload_len (2B LE) | tag | reserved |
//! ```
//!
//! For `Recv` requests the 4 bytes after the header carry `timeout_millis`
//! (u32 LE); for `Send` requests the MCTP payload follows the header.

pub mod flags;

use vstd::prelude::*;
use crate::mctp_error::{code_byte, code_of_byte, ResponseCode};

verus! {

/// Error type for wire protocol encoding/decoding.
#[derive(Debug, Clone, Copy, PartialEq, Eq, Structural)]
pub enum WireError {
    /// Output buffer too small.
    BufferTooSmall,
    /// Payload exceeds maximum size.
    PayloadTooLarge,
    /// Unrecognized operation code.
    InvalidOpcode(u8),
    /// Input buffer too short for a complete header.
    Truncated,
}

/// MCTP IPC operation codes. Their wire byte is their position in this list.
#[derive(Debug, Clone, Copy, PartialEq, Eq, Structural)]
pub enum MctpOp {
    /// Set the local endpoint ID.
    SetEid,
    /// Get the local endpoint ID.
    GetEid,
    /// Register a listener for a message type.
    Listener,
    /// Allocate a request handle for a remote EID.
    Req,
    /// Receive a message on a handle.
    Recv,
    /// Send a message.
    Send,
    /// Release a handle.
    Unbind,
}

pub open spec fn op_byte(op: MctpOp) -> u8 {
    match op {
        MctpOp::SetEid => 0,
        MctpOp::GetEid => 1,
        MctpOp::Listener => 2,
        MctpOp::Req => 3,
        MctpOp::Recv => 4,
        MctpOp::Send => 5,
        MctpOp::Unbind => 6,
    }
}

pub open spec fn op_of_byte(val: u8) -> Option<MctpOp> {
    if val == 0 {
        Some(MctpOp::SetEid)
    } else if val == 1 {
        Some(MctpOp::GetEid)
    } else if val == 2 {
        Some(MctpOp::Listener)
    } else if val == 3 {
        Some(MctpOp::Req)
    } else if val == 4 {
        Some(MctpOp::Recv)
    } else if val == 5 {
        Some(MctpOp::Send)
    } else if val == 6 {
        Some(MctpOp::Unbind)
    } else {
        None
    }
}

impl MctpOp {
    /// Convert from raw byte.
    pub fn from_u8(val: u8) -> (r: Option<Self>)
        ensures
            r == op_of_byte(val),
    {
        match val {
            0 => Some(MctpOp::SetEid),
            1 => Some(MctpOp::GetEid),
            2 => Some(MctpOp::Listener),
            3 => Some(MctpOp::Req),
            4 => Some(MctpOp::Recv),
            5 => Some(MctpOp::Send),
            6 => Some(MctpOp::Unbind),
            _ => None,
        }
    }

    /// The wire byte of this operation.
    pub fn to_u8(self) -> (r: u8)
        ensures
            r == op_byte(self),
    {
        match self {
            MctpOp::SetEid => 0,
            MctpOp::GetEid => 1,
            MctpOp::Listener => 2,
            MctpOp::Req => 3,
            MctpOp::Recv => 4,
            MctpOp::Send => 5,
            MctpOp::Unbind => 6,
        }
    }
}

/// The little-endian bytes of a `u16`.
pub open spec fn le16(x: u16) -> Seq<u8> {
    seq![(x & 0xff) as u8, ((x >> 8) & 0xff) as u8]
}

/// The little-endian bytes of a `u32`.
pub open spec fn le32(x: u32) -> Seq<u8> {
    seq![(x & 0xff) as u8, ((x >> 8) & 0xff) as u8, ((x >> 16) & 0xff) as u8, ((x >> 24) & 0xff) as u8]
}

/// The `u16` whose little-endian bytes are `b0, b1`.
pub open spec fn from_le16(b0: u8, b1: u8) -> u16 {
    (b0 as u16) | ((b1 as u16) << 8)
}

/// The `u32` whose little-endian bytes are `b0 .. b3`.
pub open spec fn from_le32(b0: u8, b1: u8, b2: u8, b3: u8) -> u32 {
    (b0 as u32) | ((b1 as u32) << 8) | ((b2 as u32) << 16) | ((b3 as u32) << 24)
}

/// Reading back the little-endian bytes of a `u32` gives the value.
pub proof fn lemma_le32_roundtrip(x: u32)
    ensures
        from_le32(le32(x)[0], le32(x)[1], le32(x)[2], le32(x)[3]) == x,
{
    let b0 = (x & 0xff) as u8;
    let b1 = ((x >> 8) & 0xff) as u8;
    let b2 = ((x >> 16) & 0xff) as u8;
    let b3 = ((x >> 24) & 0xff) as u8;
    assert((b0 as u32) | ((b1 as u32) << 8) | ((b2 as u32) << 16) | ((b3 as u32) << 24) == x) by (bit_vector)
        requires
            b0 == (x & 0xff) as u8,
            b1 == ((x >> 8) & 0xff) as u8,
            b2 == ((x >> 16) & 0xff) as u8,
            b3 == ((x >> 24) & 0xff) as u8,
    ;
}

/// Reading back the little-endian bytes of a `u16` gives the value.
pub proof fn lemma_le16_roundtrip(x: u16)
    ensures
        from_le16(le16(x)[0], le16(x)[1]) == x,
{
    let b0 = (x & 0xff) as u8;
    let b1 = ((x >> 8) & 0xff) as u8;
    assert((b0 as u16) | ((b1 as u16) << 8) == x) by (bit_vector)
        requires
            b0 == (x & 0xff) as u8,
            b1 == ((x >> 8) & 0xff) as u8,
    ;
}

fn le32_bytes(x: u32) -> (r: [u8; 4])
    ensures
        r@ == le32(x),
{
    let r = [(x & 0xff) as u8, ((x >> 8) & 0xff) as u8, ((x >> 16) & 0xff) as u8, ((x >> 24) & 0xff) as u8];
    assert(r@ =~= le32(x));
    r
}

fn le16_bytes(x: u16) -> (r: [u8; 2])
    ensures
        r@ == le16(x),
{
    let r = [(x & 0xff) as u8, ((x >> 8) & 0xff) as u8];
    assert(r@ =~= le16(x));
    r
}

pub(crate) fn read_le32(b0: u8, b1: u8, b2: u8, b3: u8) -> (r: u32)
    ensures
        r == from_le32(b0, b1, b2, b3),
{
    (b0 as u32) | ((b1 as u32) << 8) | ((b2 as u32) << 16) | ((b3 as u32) << 24)
}

fn read_le16(b0: u8, b1: u8) -> (r: u16)
    ensures
        r == from_le16(b0, b1),
{
    (b0 as u16) | ((b1 as u16) << 8)
}

/// MCTP request header (12 bytes).
#[derive(Debug, Clone, Copy, PartialEq, Eq, Structural)]
pub struct MctpRequestHeader {
    /// Operation code.
    pub op: u8,
    /// Flags (see [`flags`]).
    pub flags: u8,
    /// MCTP message type.
    pub msg_type: u8,
    /// Endpoint ID.
    pub eid: u8,
    /// Handle value.
    pub handle: u32,
    /// Tag value.
    pub tag: u8,
}

/// The 12 wire bytes of a request header.
pub open spec fn request_bytes(h: MctpRequestHeader) -> Seq<u8> {
    seq![h.op, h.flags, h.msg_type, h.eid] + le32(h.handle) + seq![h.tag, 0u8, 0u8, 0u8]
}

/// The request header that the first 12 bytes of `b` encode, if there are 12.
pub open spec fn decode_request(b: Seq<u8>) -> Option<MctpRequestHeader> {
    if b.len() < 12 {
        None
    } else {
        Some(
            MctpRequestHeader {
                op: b[0],
                flags: b[1],
                msg_type: b[2],
                eid: b[3],
                handle: from_le32(b[4], b[5], b[6], b[7]),
                tag: b[8],
            },
        )
    }
}

impl MctpRequestHeader {
    /// Header size in bytes.
    pub const SIZE: usize = 12;

    /// Encode to bytes (little-endian).
    pub fn to_bytes(&self) -> (r: [u8; 12])
        ensures
            r@ == request_bytes(*self),
    {
        let h = le32_bytes(self.handle);
        let r = [self.op, self.flags, self.msg_type, self.eid, h[0], h[1], h[2], h[3], self.tag, 0, 0, 0];
        assert(r@ =~= request_bytes(*self));
        r
    }

    /// Decode from bytes.
    pub fn from_bytes(bytes: &[u8]) -> (r: Option<Self>)
        ensures
            r == decode_request(bytes@),
    {
        if bytes.len() < 12 {
            return None;
        }
        Some(
            MctpRequestHeader {
                op: bytes[0],
                flags: bytes[1],
                msg_type: bytes[2],
                eid: bytes[3],
                handle: read_le32(bytes[4], bytes[5], bytes[6], bytes[7]),
                tag: bytes[8],
            },
        )
    }

    /// Get the operation code.
    pub fn operation(&self) -> (r: Option<MctpOp>)
        ensures
            r == op_of_byte(self.op),
    {
        MctpOp::from_u8(self.op)
    }
}

/// MCTP response header (12 bytes).
#[derive(Debug, Clone, Copy, PartialEq, Eq, Structural)]
pub struct MctpResponseHeader {
    /// Response code.
    pub code: u8,
    /// Flags (bit 0 = msg_ic).
    pub flags: u8,
    /// MCTP message type (for Recv responses).
    pub msg_type: u8,
    /// Remote endpoint ID (for Recv responses).
    pub eid: u8,
    /// Handle (for Listener/Req) or 0.
    pub handle: u32,
    /// Payload length (for Recv responses).
    pub payload_len: u16,
    /// Message tag (for Recv/Send responses).
    pub tag: u8,
}

/// The 12 wire bytes of a response header.
pub open spec fn response_bytes(h: MctpResponseHeader) -> Seq<u8> {
    seq![h.code, h.flags, h.msg_type, h.eid] + le32(h.handle) + le16(h.payload_len) + seq![h.tag, 0u8]
}

/// The response header that the first 12 bytes of `b` encode, if there are 12.
pub open spec fn decode_response(b: Seq<u8>) -> Option<MctpResponseHeader> {
    if b.len() < 12 {
        None
    } else {
        Some(
            MctpResponseHeader {
                code: b[0],
                flags: b[1],
                msg_type: b[2],
                eid: b[3],
                handle: from_le32(b[4], b[5], b[6], b[7]),
                payload_len: from_le16(b[8], b[9]),
                tag: b[10],
            },
        )
    }
}

/// A response carrying `code` and nothing else.
pub open spec fn bare_response(code: u8) -> MctpResponseHeader {
    MctpResponseHeader { code, flags: 0, msg_type: 0, eid: 0, handle: 0, payload_len: 0, tag: 0 }
}

impl MctpResponseHeader {
    /// Header size in bytes.
    pub const SIZE: usize = 12;

    /// Create a success response with no data.
    pub fn success() -> (r: Self)
        ensures
            r == bare_response(0),
    {
        MctpResponseHeader { code: 0, flags: 0, msg_type: 0, eid: 0, handle: 0, payload_len: 0, tag: 0 }
    }

    /// Create an error response.
    pub fn error(code: ResponseCode) -> (r: Self)
        ensures
            r == bare_response(code_byte(code)),
    {
        MctpResponseHeader {
            code: code.to_u8(),
            flags: 0,
            msg_type: 0,
            eid: 0,
            handle: 0,
            payload_len: 0,
            tag: 0,
        }
    }

    /// Check if the response indicates success.
    pub fn is_success(&self) -> (r: bool)
        ensures
            r == (self.code == 0),
    {
        self.code == 0
    }

    /// Get the response code; an unknown byte reads as `InternalError`.
    pub fn response_code(&self) -> (r: ResponseCode)
        ensures
            r == match code_of_byte(self.code) {
                Some(c) => c,
                None => ResponseCode::InternalError,
            },
    {
        match ResponseCode::from_u8(self.code) {
            Some(c) => c,
            None => ResponseCode::InternalError,
        }
    }

    /// Encode to bytes (little-endian).
    pub fn to_bytes(&self) -> (r: [u8; 12])
        ensures
            r@ == response_bytes(*self),
    {
        let h = le32_bytes(self.handle);
        let pl = le16_bytes(self.payload_len);
        let r = [self.code, self.flags, self.msg_type, self.eid, h[0], h[1], h[2], h[3], pl[0], pl[1], self.tag, 0];
        assert(r@ =~= response_bytes(*self));
        r
    }

    /// Decode from bytes.
    pub fn from_bytes(bytes: &[u8]) -> (r: Option<Self>)
        ensures
            r == decode_response(bytes@),
    {
        if bytes.len() < 12 {
            return None;
        }
        Some(
            MctpResponseHeader {
                code: bytes[0],
                flags: bytes[1],
                msg_type: bytes[2],
                eid: bytes[3],
                handle: read_le32(bytes[4], bytes[5], bytes[6], bytes[7]),
                payload_len: read_le16(bytes[8], bytes[9]),
                tag: bytes[10],
            },
        )
    }
}

/// Decoding the bytes of a request header, followed by anything, gives the
/// header back.
pub proof fn lemma_request_roundtrip(h: MctpRequestHeader, rest: Seq<u8>)
    ensures
        decode_request(request_bytes(h) + rest) == Some(h),
{
    lemma_le32_roundtrip(h.handle);
    let b = request_bytes(h) + rest;
    assert(b[4] == le32(h.handle)[0] && b[5] == le32(h.handle)[1] && b[6] == le32(h.handle)[2] && b[7]
        == le32(h.handle)[3]);
}

/// Decoding the bytes of a response header, followed by anything, gives the
/// header back.
pub proof fn lemma_response_roundtrip(h: MctpResponseHeader, rest: Seq<u8>)
    ensures
        decode_response(response_bytes(h) + rest) == Some(h),
{
    lemma_le32_roundtrip(h.handle);
    lemma_le16_roundtrip(h.payload_len);
    let b = response_bytes(h) + rest;
    assert(b[4] == le32(h.handle)[0] && b[5] == le32(h.handle)[1] && b[6] == le32(h.handle)[2] && b[7]
        == le32(h.handle)[3]);
    assert(b[8] == le16(h.payload_len)[0] && b[9] == le16(h.payload_len)[1]);
}

/// Maximum MCTP payload size.
pub const MAX_PAYLOAD_SIZE: usize = 1023;

/// Maximum total request size (header + payload).
pub const MAX_REQUEST_SIZE: usize = 1035;

/// Maximum total response size (header + payload).
pub const MAX_RESPONSE_SIZE: usize = 1035;

/// Sentinel value for "no handle".
pub const NO_HANDLE: u32 = 0xFFFF_FFFF;

/// `data` written over the start of `before`, the rest of `before` left as it was.
pub open spec fn written(before: Seq<u8>, data: Seq<u8>) -> Seq<u8> {
    data + before.skip(data.len() as int)
}

/// Copy `src` into `buf` starting at `at`.
fn put(buf: &mut [u8], at: usize, src: &[u8])
    requires
        at + src@.len() <= old(buf)@.len(),
    ensures
        final(buf)@ == old(buf)@.take(at as int) + src@ + old(buf)@.skip(at + src@.len()),
{
    let n: usize = buf.len();
    let mut j: usize = 0;
    while j < src.len()
        invariant
            n == buf@.len(),
            at + src@.len() <= buf@.len(),
            buf@.len() == old(buf)@.len(),
            j <= src@.len(),
            buf@ == old(buf)@.take(at as int) + src@.take(j as int) + old(buf)@.skip(at + j),
        decreases src@.len() - j,
    {
        buf[at + j] = src[j];
        j += 1;
        assert(buf@ =~= old(buf)@.take(at as int) + src@.take(j as int) + old(buf)@.skip(at + j));
    }
    assert(src@.take(src@.len() as int) =~= src@);
}

/// Write a 12-byte header at the start of `buf`.
fn put_header(buf: &mut [u8], header: &[u8; 12])
    requires
        12 <= old(buf)@.len(),
    ensures
        final(buf)@ == written(old(buf)@, header@),
{
    put(buf, 0, header.as_slice());
    assert(old(buf)@.take(0) + header@ + old(buf)@.skip(12) =~= written(old(buf)@, header@));
}

/// The request header of an operation that carries only an EID, a message
/// type, or a handle.
pub open spec fn simple_request(op: MctpOp, flags: u8, msg_type: u8, eid: u8, handle: u32) -> MctpRequestHeader {
    MctpRequestHeader { op: op_byte(op), flags, msg_type, eid, handle, tag: 0 }
}

/// The outcome of encoding a bare 12-byte header into `buf`.
pub open spec fn header_encoded(before: Seq<u8>, after: Seq<u8>, r: Result<usize, WireError>, bytes: Seq<u8>) -> bool {
    match r {
        Ok(n) => before.len() >= 12 && n == 12 && after == written(before, bytes),
        Err(e) => before.len() < 12 && e == WireError::BufferTooSmall && after == before,
    }
}

fn encode_request_header(buf: &mut [u8], header: MctpRequestHeader) -> (r: Result<usize, WireError>)
    ensures
        header_encoded(old(buf)@, final(buf)@, r, request_bytes(header)),
{
    if buf.len() < 12 {
        return Err(WireError::BufferTooSmall);
    }
    put_header(buf, &header.to_bytes());
    Ok(12)
}

fn encode_response_header(buf: &mut [u8], header: MctpResponseHeader) -> (r: Result<usize, WireError>)
    ensures
        header_encoded(old(buf)@, final(buf)@, r, response_bytes(header)),
{
    if buf.len() < 12 {
        return Err(WireError::BufferTooSmall);
    }
    put_header(buf, &header.to_bytes());
    Ok(12)
}

/// Encode a `SetEid` request.
pub fn encode_set_eid(buf: &mut [u8], eid: u8) -> (r: Result<usize, WireError>)
    ensures
        header_encoded(old(buf)@, final(buf)@, r, request_bytes(simple_request(MctpOp::SetEid, 0, 0, eid, 0))),
{
    encode_request_header(buf, MctpRequestHeader { op: MctpOp::SetEid.to_u8(), flags: 0, msg_type: 0, eid, handle: 0, tag: 0 })
}

/// Encode a `GetEid` request.
pub fn encode_get_eid(buf: &mut [u8]) -> (r: Result<usize, WireError>)
    ensures
        header_encoded(old(buf)@, final(buf)@, r, request_bytes(simple_request(MctpOp::GetEid, 0, 0, 0, 0))),
{
    encode_request_header(buf, MctpRequestHeader { op: MctpOp::GetEid.to_u8(), flags: 0, msg_type: 0, eid: 0, handle: 0, tag: 0 })
}

/// Encode a `Listener` request.
pub fn encode_listener(buf: &mut [u8], msg_type: u8) -> (r: Result<usize, WireError>)
    ensures
        header_encoded(old(buf)@, final(buf)@, r, request_bytes(simple_request(MctpOp::Listener, 0, msg_type, 0, 0))),
{
    encode_request_header(
        buf,
        MctpRequestHeader { op: MctpOp::Listener.to_u8(), flags: 0, msg_type, eid: 0, handle: 0, tag: 0 },
    )
}

/// Encode a `Req` request.
pub fn encode_req(buf: &mut [u8], eid: u8) -> (r: Result<usize, WireError>)
    ensures
        header_encoded(old(buf)@, final(buf)@, r, request_bytes(simple_request(MctpOp::Req, 0, 0, eid, 0))),
{
    encode_request_header(buf, MctpRequestHeader { op: MctpOp::Req.to_u8(), flags: 0, msg_type: 0, eid, handle: 0, tag: 0 })
}

/// Encode an `Unbind` request.
pub fn encode_unbind(buf: &mut [u8], handle: u32) -> (r: Result<usize, WireError>)
    ensures
        header_encoded(
            old(buf)@,
            final(buf)@,
            r,
            request_bytes(simple_request(MctpOp::Unbind, flags::HAS_HANDLE, 0, 0, handle)),
        ),
{
    encode_request_header(
        buf,
        MctpRequestHeader { op: MctpOp::Unbind.to_u8(), flags: flags::HAS_HANDLE, msg_type: 0, eid: 0, handle, tag: 0 },
    )
}

/// Encode a `Recv` request: the header, then `timeout_millis` (u32 LE).
pub fn encode_recv(buf: &mut [u8], handle: u32, timeout_millis: u32) -> (r: Result<usize, WireError>)
    ensures
        match r {
            Ok(n) => old(buf)@.len() >= 16 && n == 16 && final(buf)@ == written(
                old(buf)@,
                request_bytes(simple_request(MctpOp::Recv, flags::HAS_HANDLE, 0, 0, handle)) + le32(timeout_millis),
            ),
            Err(e) => old(buf)@.len() < 16 && e == WireError::BufferTooSmall && final(buf)@ == old(buf)@,
        },
{
    let total: usize = 16;
    if buf.len() < total {
        return Err(WireError::BufferTooSmall);
    }
    let header = MctpRequestHeader {
        op: MctpOp::Recv.to_u8(),
        flags: flags::HAS_HANDLE,
        msg_type: 0,
        eid: 0,
        handle,
        tag: 0,
    };
    let ghost b0 = buf@;
    put_header(buf, &header.to_bytes());
    let t = le32_bytes(timeout_millis);
    put(buf, 12, t.as_slice());
    assert(buf@ =~= written(b0, request_bytes(header) + le32(timeout_millis)));
    Ok(total)
}

/// The flags byte of a `Send` request.
pub open spec fn send_flags(handle: bool, eid: bool, tag: bool, ic: bool) -> u8 {
    let f0: u8 = 0;
    let f1: u8 = if ic { f0 | flags::IC } else { f0 };
    let f2: u8 = if handle { f1 | flags::HAS_HANDLE } else { f1 };
    let f3: u8 = if eid { f2 | flags::HAS_EID } else { f2 };
    if tag { f3 | flags::HAS_TAG } else { f3 }
}

/// The request header of a `Send`.
pub open spec fn send_request(handle: Option<u32>, msg_type: u8, eid: Option<u8>, tag: Option<u8>, ic: bool) -> MctpRequestHeader {
    MctpRequestHeader {
        op: op_byte(MctpOp::Send),
        flags: send_flags(handle is Some, eid is Some, tag is Some, ic),
        msg_type,
        eid: match eid {
            Some(e) => e,
            None => 0,
        },
        handle: match handle {
            Some(h) => h,
            None => NO_HANDLE,
        },
        tag: match tag {
            Some(t) => t,
            None => 0,
        },
    }
}

/// Encode a `Send` request: the header, then the payload.
pub fn encode_send(
    buf: &mut [u8],
    handle: Option<u32>,
    msg_type: u8,
    eid: Option<u8>,
    tag: Option<u8>,
    ic: bool,
    payload: &[u8],
) -> (r: Result<usize, WireError>)
    ensures
        payload@.len() > MAX_PAYLOAD_SIZE ==> r == Err::<usize, WireError>(WireError::PayloadTooLarge) && final(buf)@ == old(buf)@,
        payload@.len() <= MAX_PAYLOAD_SIZE ==> match r {
            Ok(n) => n == 12 + payload@.len() && old(buf)@.len() >= n && final(buf)@ == written(
                old(buf)@,
                request_bytes(send_request(handle, msg_type, eid, tag, ic)) + payload@,
            ),
            Err(e) => old(buf)@.len() < 12 + payload@.len() && e == WireError::BufferTooSmall && final(buf)@
                == old(buf)@,
        },
{
    if payload.len() > MAX_PAYLOAD_SIZE {
        return Err(WireError::PayloadTooLarge);
    }
    let total = 12 + payload.len();
    if buf.len() < total {
        return Err(WireError::BufferTooSmall);
    }
    let mut f: u8 = 0;
    if ic {
        f = f | flags::IC;
    }
    if handle.is_some() {
        f = f | flags::HAS_HANDLE;
    }
    if eid.is_some() {
        f = f | flags::HAS_EID;
    }
    if tag.is_some() {
        f = f | flags::HAS_TAG;
    }
    let header = MctpRequestHeader {
        op: MctpOp::Send.to_u8(),
        flags: f,
        msg_type,
        eid: match eid {
            Some(e) => e,
            None => 0,
        },
        handle: match handle {
            Some(h) => h,
            None => NO_HANDLE,
        },
        tag: match tag {
            Some(t) => t,
            None => 0,
        },
    };
    assert(header == send_request(handle, msg_type, eid, tag, ic));
    let ghost b0 = buf@;
    put_header(buf, &header.to_bytes());
    put(buf, 12, payload);
    assert(buf@ =~= written(b0, request_bytes(header) + payload@));
    Ok(total)
}

/// Encode a success response for `GetEid`.
pub fn encode_get_eid_response(buf: &mut [u8], eid: u8) -> (r: Result<usize, WireError>)
    ensures
        header_encoded(old(buf)@, final(buf)@, r, response_bytes(MctpResponseHeader { eid, ..bare_response(0) })),
{
    let mut resp = MctpResponseHeader::success();
    resp.eid = eid;
    encode_response_header(buf, resp)
}

/// Encode a success response for `Listener` or `Req` (returns a handle).
pub fn encode_handle_response(buf: &mut [u8], handle: u32) -> (r: Result<usize, WireError>)
    ensures
        header_encoded(old(buf)@, final(buf)@, r, response_bytes(MctpResponseHeader { handle, ..bare_response(0) })),
{
    let mut resp = MctpResponseHeader::success();
    resp.handle = handle;
    encode_response_header(buf, resp)
}

/// Encode a success response for `Send` (returns the tag).
pub fn encode_send_response(buf: &mut [u8], tag: u8) -> (r: Result<usize, WireError>)
    ensures
        header_encoded(old(buf)@, final(buf)@, r, response_bytes(MctpResponseHeader { tag, ..bare_response(0) })),
{
    let mut resp = MctpResponseHeader::success();
    resp.tag = tag;
    encode_response_header(buf, resp)
}

/// The response header of a successful `Recv`.
pub open spec fn recv_response(msg_type: u8, msg_ic: bool, eid: u8, tag: u8, payload_len: nat) -> MctpResponseHeader {
    MctpResponseHeader {
        code: 0,
        flags: if msg_ic { flags::IC } else { 0 },
        msg_type,
        eid,
        handle: 0,
        payload_len: payload_len as u16,
        tag,
    }
}

/// Encode a success response for `Recv` (returns metadata + payload).
pub fn encode_recv_response(
    buf: &mut [u8],
    msg_type: u8,
    msg_ic: bool,
    eid: u8,
    tag: u8,
    payload: &[u8],
) -> (r: Result<usize, WireError>)
    ensures
        payload@.len() > MAX_PAYLOAD_SIZE ==> r == Err::<usize, WireError>(WireError::PayloadTooLarge) && final(buf)@ == old(buf)@,
        payload@.len() <= MAX_PAYLOAD_SIZE ==> match r {
            Ok(n) => n == 12 + payload@.len() && old(buf)@.len() >= n && final(buf)@ == written(
                old(buf)@,
                response_bytes(recv_response(msg_type, msg_ic, eid, tag, payload@.len())) + payload@,
            ),
            Err(e) => old(buf)@.len() < 12 + payload@.len() && e == WireError::BufferTooSmall && final(buf)@
                == old(buf)@,
        },
{
    if payload.len() > MAX_PAYLOAD_SIZE {
        return Err(WireError::PayloadTooLarge);
    }
    let total = 12 + payload.len();
    if buf.len() < total {
        return Err(WireError::BufferTooSmall);
    }
    let resp = MctpResponseHeader {
        code: 0,
        flags: if msg_ic { flags::IC } else { 0 },
        msg_type,
        eid,
        handle: 0,
        payload_len: payload.len() as u16,
        tag,
    };
    let ghost b0 = buf@;
    put_header(buf, &resp.to_bytes());
    put(buf, 12, payload);
    assert(buf@ =~= written(b0, response_bytes(resp) + payload@));
    Ok(total)
}

/// Encode a simple success response (no data).
pub fn encode_success_response(buf: &mut [u8]) -> (r: Result<usize, WireError>)
    ensures
        header_encoded(old(buf)@, final(buf)@, r, response_bytes(bare_response(0))),
{
    encode_response_header(buf, MctpResponseHeader::success())
}

/// Encode an error response.
pub fn encode_error_response(buf: &mut [u8], code: ResponseCode) -> (r: Result<usize, WireError>)
    ensures
        header_encoded(old(buf)@, final(buf)@, r, response_bytes(bare_response(code_byte(code)))),
{
    encode_response_header(buf, MctpResponseHeader::error(code))
}

/// Decode a response header.
pub fn decode_response_header(buf: &[u8]) -> (r: Result<MctpResponseHeader, WireError>)
    ensures
        match decode_response(buf@) {
            Some(h) => r == Ok::<MctpResponseHeader, WireError>(h),
            None => r == Err::<MctpResponseHeader, WireError>(WireError::Truncated),
        },
{
    match MctpResponseHeader::from_bytes(buf) {
        Some(h) => Ok(h),
        None => Err(WireError::Truncated),
    }
}

/// Get response payload data (after the header).
pub fn get_response_payload<'a>(buf: &'a [u8], header: &MctpResponseHeader) -> (r: Result<&'a [u8], WireError>)
    ensures
        buf@.len() < 12 + header.payload_len ==> r is Err && r->Err_0 == WireError::Truncated,
        buf@.len() >= 12 + header.payload_len ==> r is Ok && r->Ok_0@ == buf@.subrange(12, 12 + header.payload_len),
{
    let end = 12 + header.payload_len as usize;
    if buf.len() < end {
        return Err(WireError::Truncated);
    }
    Ok(&buf[12..end])
}

/// Decode a request header.
pub fn decode_request_header(buf: &[u8]) -> (r: Result<MctpRequestHeader, WireError>)
    ensures
        match decode_request(buf@) {
            Some(h) => r == Ok::<MctpRequestHeader, WireError>(h),
            None => r == Err::<MctpRequestHeader, WireError>(WireError::Truncated),
        },
{
    match MctpRequestHeader::from_bytes(buf) {
        Some(h) => Ok(h),
        None => Err(WireError::Truncated),
    }
}

/// Get request payload (after the header, for Send operations); empty when
/// there is nothing past the header.
pub fn get_request_payload(buf: &[u8]) -> (r: &[u8])
    ensures
        r@ == if buf@.len() > 12 {
            buf@.subrange(12, buf@.len() as int)
        } else {
            Seq::<u8>::empty()
        },
{
    if buf.len() > 12 {
        &buf[12..buf.len()]
    } else {
        &buf[0..0]
    }
}

} // verus!
