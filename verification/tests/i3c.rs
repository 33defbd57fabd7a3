use openprot::i3c::{
    smbus_pec, MctpI3cEncap, MctpI3cHeader, MCTP_I3C_COMMAND_CODE, MCTP_I3C_HEADER, MCTP_I3C_MAXMTU,
};
use openprot::mctp_error::MctpErrorKind;

const OWN: u8 = 0x08;
const PEER: u8 = 0x1d;

#[test]
fn header_round_trips() {
    let h = MctpI3cHeader {
        dest: PEER,
        source: OWN,
        byte_count: 5,
    };
    let wire = h.encode().expect("encode");
    assert_eq!(wire, [PEER << 1, MCTP_I3C_COMMAND_CODE, 5, (OWN << 1) | 1]);
    assert_eq!(MctpI3cHeader::decode(&wire).expect("decode"), h);
}

#[test]
fn header_rejects_non_7bit_addresses() {
    assert!(MctpI3cHeader {
        dest: 0x80,
        source: OWN,
        byte_count: 1
    }
    .encode()
    .is_err());
    assert!(MctpI3cHeader {
        dest: PEER,
        source: 0xff,
        byte_count: 1
    }
    .encode()
    .is_err());
}

#[test]
fn header_rejects_oversize_byte_count() {
    assert!(MctpI3cHeader {
        dest: PEER,
        source: OWN,
        byte_count: 256
    }
    .encode()
    .is_err());
}

#[test]
fn header_rejects_bad_framing() {
    let good = [PEER << 1, MCTP_I3C_COMMAND_CODE, 5, (OWN << 1) | 1];

    // Write bit set on the destination.
    let mut bad = good;
    bad[0] |= 1;
    assert!(MctpI3cHeader::decode(&bad).is_err());

    // Wrong command code.
    let mut bad = good;
    bad[1] = 0x0e;
    assert!(MctpI3cHeader::decode(&bad).is_err());

    // Source byte missing its fixed low bit.
    let mut bad = good;
    bad[3] &= !1;
    assert!(MctpI3cHeader::decode(&bad).is_err());

    // Short header.
    assert!(MctpI3cHeader::decode(&good[..3]).is_err());
}

#[test]
fn encap_round_trips_without_pec() {
    let encap = MctpI3cEncap::new(OWN);
    let payload = [0xde, 0xad, 0xbe, 0xef];
    let mut out = [0u8; 64];

    let n = encap.encode(PEER, &payload, false, &mut out).expect("encode");
    assert_eq!(n, MCTP_I3C_HEADER + payload.len());

    // Decode from the peer's point of view: it sees itself as destination.
    let peer = MctpI3cEncap::new(PEER);
    let (inner, header) = peer.decode(&out[..n], false).expect("decode");
    assert_eq!(inner, &payload);
    assert_eq!(header.dest, PEER);
    assert_eq!(header.source, OWN);
}

#[test]
fn encap_round_trips_with_pec() {
    let encap = MctpI3cEncap::new(OWN);
    let payload = [0x01, 0x02, 0x03];
    let mut out = [0u8; 64];

    let n = encap.encode(PEER, &payload, true, &mut out).expect("encode");
    assert_eq!(n, MCTP_I3C_HEADER + payload.len() + 1);

    let peer = MctpI3cEncap::new(PEER);
    let (inner, _) = peer.decode(&out[..n], true).expect("decode");
    assert_eq!(inner, &payload);
}

#[test]
fn decode_rejects_corrupt_pec() {
    let encap = MctpI3cEncap::new(OWN);
    let mut out = [0u8; 64];
    let n = encap.encode(PEER, &[0xaa, 0xbb], true, &mut out).expect("encode");

    out[n - 1] ^= 0xff;
    assert!(MctpI3cEncap::new(PEER).decode(&out[..n], true).is_err());
}

#[test]
fn decode_rejects_byte_count_mismatch() {
    let encap = MctpI3cEncap::new(OWN);
    let mut out = [0u8; 64];
    let n = encap.encode(PEER, &[0x11, 0x22, 0x33], false, &mut out).expect("encode");

    // Claim one byte more than is present.
    out[2] += 1;
    assert!(MctpI3cEncap::new(PEER).decode(&out[..n], false).is_err());
}

#[test]
fn encode_rejects_undersized_buffer() {
    let encap = MctpI3cEncap::new(OWN);
    let payload = [0u8; 8];
    let mut out = [0u8; MCTP_I3C_HEADER + 4];
    assert!(encap.encode(PEER, &payload, false, &mut out).is_err());
}

#[test]
fn encode_rejects_oversize_payload() {
    let encap = MctpI3cEncap::new(OWN);
    let payload = [0u8; MCTP_I3C_MAXMTU + 1];
    let mut out = [0u8; 512];
    assert!(encap.encode(PEER, &payload, false, &mut out).is_err());
}

#[test]
fn pec_matches_known_answer() {
    // Same vector as the i3c host harness's own PEC test
    // (target/veer/tests/i3c_host), which pins this polynomial.
    assert_eq!(
        smbus_pec(&[0x10, 0x01, 0x02, 0x03, 0x04]),
        0xd1
    );
}

#[test]
fn decode_rejects_empty() {
    assert!(MctpI3cEncap::new(OWN).decode(&[], false).is_err());
}

#[test]
fn pec_of_nothing_is_zero_and_of_one_byte_is_its_crc() {
    assert_eq!(smbus_pec(&[]), 0);
    assert_eq!(smbus_pec(&[0x01]), 0x07);
    assert_eq!(smbus_pec(&[0x80]), 0x89);
}

#[test]
fn errors_name_the_rule_that_was_broken() {
    let h = MctpI3cHeader { dest: 0x80, source: OWN, byte_count: 1 };
    assert_eq!(h.encode(), Err(MctpErrorKind::BadArgument));
    assert_eq!(MctpI3cHeader::decode(&[0, 0x0f, 1]), Err(MctpErrorKind::BadArgument));
    assert_eq!(MctpI3cHeader::decode(&[1, 0x0f, 1, 1]), Err(MctpErrorKind::InvalidInput));

    let encap = MctpI3cEncap::new(OWN);
    assert_eq!(encap.own_addr(), OWN);
    let mut out = [0u8; 8];
    assert_eq!(encap.encode(PEER, &[0u8; 8], false, &mut out), Err(MctpErrorKind::NoSpace));
    assert_eq!(out, [0u8; 8]);
    assert_eq!(
        encap.encode(PEER, &[0u8; MCTP_I3C_MAXMTU + 1], false, &mut [0u8; 512]),
        Err(MctpErrorKind::BadArgument)
    );
    // A destination that is not 7-bit passes the size checks, then fails
    // in the header, writing nothing.
    let mut out = [0xAAu8; 16];
    assert_eq!(encap.encode(0x80, &[1, 2], false, &mut out), Err(MctpErrorKind::BadArgument));
    assert_eq!(out, [0xAA; 16]);
}

#[test]
fn encode_leaves_the_rest_of_the_buffer() {
    let encap = MctpI3cEncap::new(OWN);
    let mut out = [0x55u8; 12];
    let n = encap.encode(PEER, &[9, 8], true, &mut out).expect("encode");
    assert_eq!(n, 7);
    assert_eq!(&out[..6], &[PEER << 1, MCTP_I3C_COMMAND_CODE, 3, (OWN << 1) | 1, 9, 8]);
    assert_eq!(out[6], smbus_pec(&out[..6]));
    assert_eq!(&out[7..], &[0x55; 5]);
    assert_eq!(MCTP_I3C_HEADER, 4);
}

#[test]
fn decode_checks_the_byte_count_against_the_pec_stripped_length() {
    let encap = MctpI3cEncap::new(OWN);
    let mut out = [0u8; 16];
    let n = encap.encode(PEER, &[1, 2, 3], true, &mut out).expect("encode");
    // Without the PEC flag the PEC byte counts as payload, so the count is short.
    assert_eq!(MctpI3cEncap::new(PEER).decode(&out[..n], false), Err(MctpErrorKind::InvalidInput));
    let (inner, header) = MctpI3cEncap::new(PEER).decode(&out[..n], true).expect("decode");
    assert_eq!(inner, &[1, 2, 3]);
    assert_eq!(header.byte_count, 4);
}
