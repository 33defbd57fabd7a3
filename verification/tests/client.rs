use openprot::client::{check_response, recv_from_response};
use openprot::mctp_error::{MctpError, ResponseCode};
use openprot::server::RecvMetadata;
use openprot::wire::{encode_error_response, encode_handle_response, encode_recv_response, MctpResponseHeader};

#[test]
fn a_success_response_yields_its_header() {
    let mut buf = [0u8; 12];
    encode_handle_response(&mut buf, 21).unwrap();
    assert_eq!(check_response(&buf).unwrap().handle, 21);
}

#[test]
fn an_error_response_yields_its_code() {
    let mut buf = [0u8; 12];
    encode_error_response(&mut buf, ResponseCode::AddrInUse).unwrap();
    assert_eq!(check_response(&buf), Err(MctpError::from_code(ResponseCode::AddrInUse)));
    buf[0] = 99;
    assert_eq!(check_response(&buf), Err(MctpError::from_code(ResponseCode::InternalError)));
}

#[test]
fn a_short_response_is_an_internal_error() {
    assert_eq!(check_response(&[0u8; 11]), Err(MctpError::from_code(ResponseCode::InternalError)));
}

#[test]
fn a_recv_response_copies_what_fits() {
    let mut resp = [0u8; 32];
    let n = encode_recv_response(&mut resp, 4, true, 9, 2, b"payload").unwrap();
    let header = check_response(&resp[..n]).unwrap();

    let mut big = [0u8; 16];
    let meta = recv_from_response(&resp[..n], &header, &mut big).unwrap();
    assert_eq!(meta, RecvMetadata { msg_type: 4, msg_ic: true, msg_tag: 2, remote_eid: 9, payload_size: 7 });
    assert_eq!(&big[..7], b"payload");

    let mut small = [0xFFu8; 3];
    let meta = recv_from_response(&resp[..n], &header, &mut small).unwrap();
    assert_eq!(meta.payload_size, 7);
    assert_eq!(&small, b"pay");

    let truncated = recv_from_response(&resp[..n - 1], &header, &mut big);
    assert_eq!(truncated, Err(MctpError::from_code(ResponseCode::InternalError)));
    assert_eq!(MctpResponseHeader::SIZE, 12);
}
