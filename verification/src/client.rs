//! The client side of the MCTP IPC protocol: the operations a client
//! offers, and how it reads the server's response to each request.

use vstd::prelude::*;
use crate::mctp_error::{code_of_byte, MctpError, ResponseCode};
use crate::server::{Handle, RecvMetadata};
use crate::wire::flags;
use crate::wire::{decode_response, get_response_payload, MctpResponseHeader};

verus! {

/// The MCTP operations a client offers, however it reaches the server: an
/// IPC channel, a direct call, an in-memory loopback.
pub trait MctpClient {
    /// Allocate a request handle for messages to `eid`.
    fn req(&self, eid: u8) -> Result<Handle, MctpError>;

    /// Register a listener for incoming messages of `msg_type`.
    fn listener(&self, msg_type: u8) -> Result<Handle, MctpError>;

    /// The endpoint's own id.
    fn get_eid(&self) -> u8;

    /// Set the endpoint's own id.
    fn set_eid(&self, eid: u8) -> Result<(), MctpError>;

    /// Receive a message on `handle` into `buf`.
    fn recv(&self, handle: Handle, timeout_millis: u32, buf: &mut [u8]) -> Result<RecvMetadata, MctpError>;

    /// Send a message; returns the tag it went out with.
    fn send(
        &self,
        handle: Option<Handle>,
        msg_type: u8,
        eid: Option<u8>,
        tag: Option<u8>,
        integrity_check: bool,
        buf: &[u8],
    ) -> Result<u8, MctpError>;

    /// Release a handle.
    fn drop_handle(&self, handle: Handle);
}

/// The error a client reports for a response: an internal error when it
/// holds no complete header, else the code of a header that is not a
/// success (an unknown code reads as an internal error).
pub open spec fn response_error(response: Seq<u8>) -> Option<ResponseCode> {
    match decode_response(response) {
        None => Some(ResponseCode::InternalError),
        Some(h) => if h.code == 0 {
            None
        } else {
            Some(
                match code_of_byte(h.code) {
                    Some(c) => c,
                    None => ResponseCode::InternalError,
                },
            )
        },
    }
}

/// Read the server's response: its header when it reports success, else
/// the error it carries.
pub fn check_response(response: &[u8]) -> (r: Result<MctpResponseHeader, MctpError>)
    ensures
        match r {
            Ok(h) => response_error(response@) is None && decode_response(response@) == Some(h),
            Err(e) => response_error(response@) == Some(e.code),
        },
{
    if response.len() < MctpResponseHeader::SIZE {
        return Err(MctpError::from_code(ResponseCode::InternalError));
    }
    let header = match MctpResponseHeader::from_bytes(response) {
        Some(h) => h,
        None => return Err(MctpError::from_code(ResponseCode::InternalError)),
    };
    if !header.is_success() {
        return Err(MctpError::from_code(header.response_code()));
    }
    Ok(header)
}

/// The metadata a successful `Recv` response reports.
pub open spec fn recv_metadata(h: MctpResponseHeader) -> RecvMetadata {
    RecvMetadata {
        msg_type: h.msg_type,
        msg_ic: h.flags & flags::IC != 0,
        msg_tag: h.tag,
        remote_eid: h.eid,
        payload_size: h.payload_len as usize,
    }
}

/// Read a successful `Recv` response: copy as much of its payload as fits
/// into `buf` and report the metadata, with the full payload size. A
/// response shorter than its payload length is an internal error.
pub fn recv_from_response(response: &[u8], header: &MctpResponseHeader, buf: &mut [u8]) -> (r: Result<RecvMetadata, MctpError>)
    ensures
        response@.len() < 12 + header.payload_len ==> r == Err::<RecvMetadata, MctpError>(
            MctpError { code: ResponseCode::InternalError },
        ) && final(buf)@ == old(buf)@,
        response@.len() >= 12 + header.payload_len ==> {
            let payload = response@.subrange(12, 12 + header.payload_len);
            let n = if payload.len() < old(buf)@.len() {
                payload.len()
            } else {
                old(buf)@.len()
            };
            &&& r == Ok::<RecvMetadata, MctpError>(recv_metadata(*header))
            &&& final(buf)@ == payload.take(n as int) + old(buf)@.skip(n as int)
        },
{
    let payload = match get_response_payload(response, header) {
        Ok(p) => p,
        Err(_) => return Err(MctpError::from_code(ResponseCode::InternalError)),
    };
    let copy_len = if payload.len() < buf.len() { payload.len() } else { buf.len() };
    let ghost before = buf@;
    let mut i: usize = 0;
    while i < copy_len
        invariant
            copy_len <= payload@.len(),
            copy_len <= before.len(),
            buf@.len() == before.len(),
            i <= copy_len,
            buf@ == payload@.take(i as int) + before.skip(i as int),
        decreases copy_len - i,
    {
        buf[i] = payload[i];
        i += 1;
        assert(buf@ =~= payload@.take(i as int) + before.skip(i as int));
    }
    Ok(
        RecvMetadata {
            msg_type: header.msg_type,
            msg_ic: header.flags & flags::IC != 0,
            msg_tag: header.tag,
            remote_eid: header.eid,
            payload_size: payload.len(),
        },
    )
}

} // verus!
