use openprot::mctp_error::ResponseCode;
use openprot::wire::flags;
use openprot::wire::{
    decode_request_header, decode_response_header, encode_error_response, encode_get_eid,
    encode_get_eid_response, encode_handle_response, encode_listener, encode_recv,
    encode_recv_response, encode_req, encode_send, encode_send_response, encode_set_eid,
    encode_success_response, encode_unbind, get_request_payload, get_response_payload, MctpOp,
    MctpRequestHeader, MctpResponseHeader, WireError, MAX_PAYLOAD_SIZE, NO_HANDLE,
};

#[test]
fn request_header_roundtrip() {
    let header = MctpRequestHeader {
        op: MctpOp::Send as u8,
        flags: flags::HAS_HANDLE | flags::IC,
        msg_type: 1,
        eid: 42,
        handle: 0x1234,
        tag: 7,
    };
    let bytes = header.to_bytes();
    let decoded = MctpRequestHeader::from_bytes(&bytes).unwrap();

    assert_eq!(decoded.op, MctpOp::Send as u8);
    assert_eq!(decoded.flags, flags::HAS_HANDLE | flags::IC);
    assert_eq!(decoded.msg_type, 1);
    assert_eq!(decoded.eid, 42);
    assert_eq!(decoded.handle, 0x1234);
    assert_eq!(decoded.tag, 7);
}

#[test]
fn response_header_roundtrip() {
    let header = MctpResponseHeader {
        code: ResponseCode::Success as u8,
        flags: flags::IC,
        msg_type: 1,
        eid: 8,
        handle: 0,
        payload_len: 16,
        tag: 3,
    };
    let bytes = header.to_bytes();
    let decoded = MctpResponseHeader::from_bytes(&bytes).unwrap();

    assert!(decoded.is_success());
    assert_eq!(decoded.flags & flags::IC, flags::IC);
    assert_eq!(decoded.msg_type, 1);
    assert_eq!(decoded.eid, 8);
    assert_eq!(decoded.payload_len, 16);
    assert_eq!(decoded.tag, 3);
}

#[test]
fn encode_send_roundtrip() {
    let mut buf = [0u8; 64];
    let payload = b"hello";
    let len = encode_send(&mut buf, Some(5), 1, Some(8), Some(3), true, payload).unwrap();

    let header = MctpRequestHeader::from_bytes(&buf).unwrap();
    assert_eq!(header.operation(), Some(MctpOp::Send));
    assert_eq!(header.flags & flags::IC, flags::IC);
    assert_eq!(header.flags & flags::HAS_HANDLE, flags::HAS_HANDLE);
    assert_eq!(header.flags & flags::HAS_EID, flags::HAS_EID);
    assert_eq!(header.flags & flags::HAS_TAG, flags::HAS_TAG);
    assert_eq!(header.msg_type, 1);
    assert_eq!(header.eid, 8);
    assert_eq!(header.handle, 5);
    assert_eq!(header.tag, 3);
    assert_eq!(&buf[MctpRequestHeader::SIZE..len], b"hello");
}

#[test]
fn encode_recv_roundtrip() {
    let mut buf = [0u8; 32];
    let len = encode_recv(&mut buf, 7, 5000).unwrap();
    assert_eq!(len, MctpRequestHeader::SIZE + 4);

    let header = MctpRequestHeader::from_bytes(&buf).unwrap();
    assert_eq!(header.operation(), Some(MctpOp::Recv));
    assert_eq!(header.handle, 7);

    let timeout = u32::from_le_bytes([
        buf[MctpRequestHeader::SIZE],
        buf[MctpRequestHeader::SIZE + 1],
        buf[MctpRequestHeader::SIZE + 2],
        buf[MctpRequestHeader::SIZE + 3],
    ]);
    assert_eq!(timeout, 5000);
}

#[test]
fn error_response() {
    let mut buf = [0u8; 16];
    let len = encode_error_response(&mut buf, ResponseCode::NoSpace).unwrap();
    assert_eq!(len, MctpResponseHeader::SIZE);

    let header = decode_response_header(&buf).unwrap();
    assert!(!header.is_success());
    assert_eq!(header.response_code(), ResponseCode::NoSpace);
}

#[test]
fn recv_response_with_payload() {
    let mut buf = [0u8; 64];
    let payload = b"echo data";
    let len = encode_recv_response(&mut buf, 1, false, 42, 5, payload).unwrap();

    let header = decode_response_header(&buf).unwrap();
    assert!(header.is_success());
    assert_eq!(header.msg_type, 1);
    assert_eq!(header.eid, 42);
    assert_eq!(header.tag, 5);
    assert_eq!(header.payload_len, 9);

    let data = get_response_payload(&buf[..len], &header).unwrap();
    assert_eq!(data, b"echo data");
}

#[test]
fn send_payload_too_large() {
    let mut buf = [0u8; 2048];
    let oversized = [0u8; MAX_PAYLOAD_SIZE + 1];
    assert_eq!(
        encode_send(&mut buf, None, 1, None, None, false, &oversized),
        Err(WireError::PayloadTooLarge)
    );
}

#[test]
fn request_header_bytes_are_little_endian() {
    let header = MctpRequestHeader {
        op: MctpOp::Unbind as u8,
        flags: flags::HAS_HANDLE,
        msg_type: 0,
        eid: 0,
        handle: 0x0403_0201,
        tag: 9,
    };
    assert_eq!(header.to_bytes(), [6, 2, 0, 0, 1, 2, 3, 4, 9, 0, 0, 0]);
}

#[test]
fn response_header_bytes_are_little_endian() {
    let header = MctpResponseHeader {
        code: 4,
        flags: 1,
        msg_type: 2,
        eid: 3,
        handle: 0x0807_0605,
        payload_len: 0x0a09,
        tag: 11,
    };
    assert_eq!(header.to_bytes(), [4, 1, 2, 3, 5, 6, 7, 8, 9, 10, 11, 0]);
}

#[test]
fn short_headers_do_not_decode() {
    assert!(MctpRequestHeader::from_bytes(&[0u8; 11]).is_none());
    assert!(MctpResponseHeader::from_bytes(&[0u8; 11]).is_none());
    assert_eq!(decode_response_header(&[0u8; 3]), Err(WireError::Truncated));
    assert_eq!(decode_request_header(&[0u8; 3]), Err(WireError::Truncated));
}

#[test]
fn unknown_opcode_has_no_operation() {
    let header = MctpRequestHeader { op: 7, flags: 0, msg_type: 0, eid: 0, handle: 0, tag: 0 };
    assert_eq!(header.operation(), None);
    assert_eq!(MctpOp::from_u8(6), Some(MctpOp::Unbind));
    assert_eq!(MctpOp::from_u8(7), None);
    assert_eq!(MctpOp::Recv.to_u8(), 4);
}

#[test]
fn simple_requests_encode_their_fields() {
    let mut buf = [0xEEu8; 16];
    assert_eq!(encode_set_eid(&mut buf, 0x22), Ok(12));
    assert_eq!(&buf[..4], &[0, 0, 0, 0x22]);
    assert_eq!(&buf[12..], &[0xEE; 4]);

    assert_eq!(encode_get_eid(&mut buf), Ok(12));
    assert_eq!(buf[0], 1);

    assert_eq!(encode_listener(&mut buf, 5), Ok(12));
    assert_eq!(&buf[..3], &[2, 0, 5]);

    assert_eq!(encode_req(&mut buf, 9), Ok(12));
    assert_eq!(&buf[..4], &[3, 0, 0, 9]);

    assert_eq!(encode_unbind(&mut buf, 0x0102_0304), Ok(12));
    assert_eq!(&buf[..8], &[6, 2, 0, 0, 4, 3, 2, 1]);
}

#[test]
fn encoders_refuse_small_buffers() {
    let mut buf = [0u8; 11];
    assert_eq!(encode_get_eid(&mut buf), Err(WireError::BufferTooSmall));
    assert_eq!(encode_success_response(&mut buf), Err(WireError::BufferTooSmall));
    assert_eq!(buf, [0u8; 11]);
    let mut buf = [0u8; 15];
    assert_eq!(encode_recv(&mut buf, 1, 2), Err(WireError::BufferTooSmall));
    let mut buf = [0u8; 16];
    assert_eq!(
        encode_send(&mut buf, None, 1, None, None, false, b"hello"),
        Err(WireError::BufferTooSmall)
    );
}

#[test]
fn send_without_handle_uses_the_sentinel() {
    let mut buf = [0u8; 32];
    let len = encode_send(&mut buf, None, 3, None, None, false, b"x").unwrap();
    assert_eq!(len, 13);
    let header = decode_request_header(&buf).unwrap();
    assert_eq!(header.flags, 0);
    assert_eq!(header.handle, NO_HANDLE);
    assert_eq!(get_request_payload(&buf[..len]), b"x");
    assert_eq!(get_request_payload(&buf[..12]), b"");
}

#[test]
fn success_responses_carry_their_value() {
    let mut buf = [0u8; 12];
    encode_get_eid_response(&mut buf, 0x1d).unwrap();
    let header = decode_response_header(&buf).unwrap();
    assert!(header.is_success());
    assert_eq!(header.eid, 0x1d);

    encode_handle_response(&mut buf, 77).unwrap();
    assert_eq!(decode_response_header(&buf).unwrap().handle, 77);

    encode_send_response(&mut buf, 6).unwrap();
    assert_eq!(decode_response_header(&buf).unwrap().tag, 6);
}

#[test]
fn truncated_payload_is_reported() {
    let mut buf = [0u8; 64];
    encode_recv_response(&mut buf, 1, true, 2, 3, b"abcd").unwrap();
    let header = decode_response_header(&buf).unwrap();
    assert_eq!(header.flags & flags::IC, flags::IC);
    assert_eq!(get_response_payload(&buf[..15], &header), Err(WireError::Truncated));
}

#[test]
fn unknown_response_code_reads_as_internal_error() {
    let header = MctpResponseHeader { code: 200, flags: 0, msg_type: 0, eid: 0, handle: 0, payload_len: 0, tag: 0 };
    assert!(!header.is_success());
    assert_eq!(header.response_code(), ResponseCode::InternalError);
    assert_eq!(MctpResponseHeader::error(ResponseCode::TimedOut).code, 4);
}
