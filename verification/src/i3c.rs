//! MCTP-over-I3C encapsulation (DSP0233): the four-byte transport header
//! and the optional SMBus PEC.
//!
//! ```text
//!   0        1        2        3        4 ..            N
//! +--------+--------+--------+--------+-----------------+-------+
//! | dest<<1| 0x0F   | bytecnt| src<<1 | MCTP packet ... | PEC   |
//! +--------+--------+--------+--------+-----------------+-------+
//! ```
//!
//! Addresses are I3C dynamic addresses; the PEC is optional and negotiated
//! separately, so both directions take an explicit `pec` flag.

use crate::mctp_error::MctpErrorKind;
use vstd::prelude::*;

verus! {

/// The DSP0237 MCTP command code, reused unchanged by DSP0233.
pub const MCTP_I3C_COMMAND_CODE: u8 = 0x0f;

/// Size of the encapsulation header, in bytes.
pub const MCTP_I3C_HEADER: usize = 4;

/// Largest MCTP packet that fits: the byte-count field is a `u8` and counts
/// the source-address byte alongside the payload.
pub const MCTP_I3C_MAXMTU: usize = 254;

// ---------------------------------------------------------------------------
// SMBus PEC
// ---------------------------------------------------------------------------

/// One bit of the CRC-8 shift register, polynomial 0x07.
pub open spec fn crc8_bit(crc: u8) -> u8 {
    if crc & 0x80 != 0 {
        (crc << 1) ^ 0x07
    } else {
        crc << 1
    }
}

/// `n` bits of the CRC-8 shift register.
pub open spec fn crc8_bits(crc: u8, n: nat) -> u8
    decreases n,
{
    if n == 0 {
        crc
    } else {
        crc8_bits(crc8_bit(crc), (n - 1) as nat)
    }
}

/// SMBus PEC of `data`: CRC-8 with polynomial 0x07, zero seed, no
/// reflection, the bytes taken in order.
pub open spec fn pec_of(data: Seq<u8>) -> u8
    decreases data.len(),
{
    if data.len() == 0 {
        0
    } else {
        crc8_bits(pec_of(data.drop_last()) ^ data.last(), 8)
    }
}

/// SMBus PEC: CRC-8 with polynomial 0x07, zero seed, no reflection.
pub fn smbus_pec(data: &[u8]) -> (r: u8)
    ensures
        r == pec_of(data@),
{
    let mut crc: u8 = 0;
    let mut i: usize = 0;
    while i < data.len()
        invariant
            i <= data@.len(),
            crc == pec_of(data@.take(i as int)),
        decreases data@.len() - i,
    {
        let value = data[i];
        let ghost start: u8 = crc ^ value;
        crc = crc ^ value;
        let mut k: usize = 0;
        while k < 8
            invariant
                k <= 8,
                crc == crc8_bits(start, k as nat),
            decreases 8 - k,
        {
            proof {
                lemma_crc8_bits_step(start, k as nat);
            }
            crc = if crc & 0x80 != 0 {
                (crc << 1) ^ 0x07
            } else {
                crc << 1
            };
            k += 1;
        }
        proof {
            assert(data@.take(i + 1).drop_last() =~= data@.take(i as int));
        }
        i += 1;
    }
    proof {
        assert(data@.take(data@.len() as int) =~= data@);
    }
    crc
}

proof fn lemma_crc8_bits_step(crc: u8, n: nat)
    ensures
        crc8_bits(crc, n + 1) == crc8_bit(crc8_bits(crc, n)),
    decreases n,
{
    reveal_with_fuel(crc8_bits, 2);
    if n > 0 {
        let m = (n - 1) as nat;
        lemma_crc8_bits_step(crc8_bit(crc), m);
        assert(crc8_bits(crc, n + 1) == crc8_bits(crc8_bit(crc), m + 1));
        assert(crc8_bits(crc, n) == crc8_bits(crc8_bit(crc), m));
    }
}

// ---------------------------------------------------------------------------
// Header
// ---------------------------------------------------------------------------

/// A decoded MCTP-over-I3C transport header.
#[derive(Debug, Clone, Copy, PartialEq, Eq, Structural)]
pub struct MctpI3cHeader {
    /// 7-bit destination dynamic address, excluding the R/W# bit.
    pub dest: u8,
    /// 7-bit source dynamic address, excluding the fixed low bit.
    pub source: u8,
    /// Bytes following this field, up to but excluding any PEC.
    pub byte_count: usize,
}

/// Whether a header can be put on the wire: 7-bit addresses and a byte
/// count that fits the count byte.
pub open spec fn header_encodable(h: MctpI3cHeader) -> bool {
    h.dest <= 0x7f && h.source <= 0x7f && h.byte_count <= 255
}

/// The four header bytes of an encodable header.
pub open spec fn header_bytes(h: MctpI3cHeader) -> Seq<u8> {
    seq![(h.dest * 2) as u8, MCTP_I3C_COMMAND_CODE, h.byte_count as u8, (h.source * 2 + 1) as u8]
}

/// What decoding four header bytes gives.
pub open spec fn header_decode(b: Seq<u8>) -> Result<MctpI3cHeader, MctpErrorKind> {
    if b.len() != 4 {
        Err(MctpErrorKind::BadArgument)
    } else if b[0] % 2 != 0 || b[1] != MCTP_I3C_COMMAND_CODE || b[3] % 2 != 1 {
        Err(MctpErrorKind::InvalidInput)
    } else {
        Ok(MctpI3cHeader { dest: b[0] / 2, source: b[3] / 2, byte_count: b[2] as usize })
    }
}

proof fn lemma_byte_bits(b: u8)
    ensures
        b >> 1 == b / 2,
        (b & 1 != 0) <==> (b % 2 != 0),
        (b & 1 == 1) <==> (b % 2 == 1),
        b <= 0x7f ==> (b << 1) == b * 2,
        b <= 0x7f ==> ((b << 1) | 1) == b * 2 + 1,
{
    assert(b >> 1 == b / 2) by (bit_vector);
    assert((b & 1 != 0) <==> (b % 2 != 0)) by (bit_vector);
    assert((b & 1 == 1) <==> (b % 2 == 1)) by (bit_vector);
    assert(b <= 0x7f ==> (b << 1) == b * 2) by (bit_vector);
    assert(b <= 0x7f ==> ((b << 1) | 1) == b * 2 + 1) by (bit_vector);
}

/// Decoding the bytes of an encodable header gives the header back.
pub proof fn lemma_header_roundtrip(h: MctpI3cHeader)
    requires
        header_encodable(h),
    ensures
        header_decode(header_bytes(h)) == Ok::<MctpI3cHeader, MctpErrorKind>(h),
{
}

/// Encoding a header that decoded gives the same four bytes back.
pub proof fn lemma_header_bytes_roundtrip(b: Seq<u8>)
    requires
        header_decode(b) is Ok,
    ensures
        header_encodable(header_decode(b)->Ok_0),
        header_bytes(header_decode(b)->Ok_0) =~= b,
{
}

impl MctpI3cHeader {
    /// Encode to the four-byte on-wire header; fails with `BadArgument` if
    /// an address is not 7-bit or the byte count does not fit a `u8`.
    pub fn encode(&self) -> (r: Result<[u8; 4], MctpErrorKind>)
        ensures
            match r {
                Ok(bytes) => header_encodable(*self) && bytes@ == header_bytes(*self),
                Err(e) => !header_encodable(*self) && e == MctpErrorKind::BadArgument,
            },
    {
        if self.dest > 0x7f || self.source > 0x7f {
            return Err(MctpErrorKind::BadArgument);
        }
        if self.byte_count > 255 {
            return Err(MctpErrorKind::BadArgument);
        }
        proof {
            lemma_byte_bits(self.dest);
            lemma_byte_bits(self.source);
        }
        let bytes: [u8; 4] = [
            self.dest << 1,
            MCTP_I3C_COMMAND_CODE,
            self.byte_count as u8,
            (self.source << 1) | 1,
        ];
        assert(bytes@ =~= header_bytes(*self));
        Ok(bytes)
    }

    /// Decode and validate a four-byte header: `BadArgument` if it is not
    /// four bytes, `InvalidInput` if the write bit, command code or source
    /// low bit is wrong.
    pub fn decode(header: &[u8]) -> (r: Result<Self, MctpErrorKind>)
        ensures
            r == header_decode(header@),
    {
        if header.len() != 4 {
            return Err(MctpErrorKind::BadArgument);
        }
        let dest = header[0];
        let cmd = header[1];
        let byte_count = header[2];
        let source = header[3];
        proof {
            lemma_byte_bits(dest);
            lemma_byte_bits(source);
        }
        if dest & 1 != 0 {
            return Err(MctpErrorKind::InvalidInput);
        }
        if cmd != MCTP_I3C_COMMAND_CODE {
            return Err(MctpErrorKind::InvalidInput);
        }
        if source & 1 != 1 {
            return Err(MctpErrorKind::InvalidInput);
        }
        Ok(MctpI3cHeader { dest: dest >> 1, source: source >> 1, byte_count: byte_count as usize })
    }
}

// ---------------------------------------------------------------------------
// Encapsulation
// ---------------------------------------------------------------------------

/// What stripping the transport header from `packet` gives: the inner MCTP
/// packet and the header, after the PEC (when `pec` is set) is checked and
/// removed and the byte count is checked against the length.
pub open spec fn encap_decode(packet: Seq<u8>, pec: bool) -> Result<(Seq<u8>, MctpI3cHeader), MctpErrorKind> {
    if packet.len() == 0 {
        Err(MctpErrorKind::InvalidInput)
    } else if pec && pec_of(packet.drop_last()) != packet.last() {
        Err(MctpErrorKind::InvalidInput)
    } else {
        let body = if pec { packet.drop_last() } else { packet };
        if body.len() < 4 {
            Err(MctpErrorKind::InvalidInput)
        } else {
            match header_decode(body.take(4)) {
                Err(e) => Err(e),
                Ok(h) => if h.byte_count + 3 != body.len() {
                    Err(MctpErrorKind::InvalidInput)
                } else {
                    Ok((body.skip(4), h))
                },
            }
        }
    }
}

/// The header a target at `own` puts in front of `payload` for `dest`.
pub open spec fn outbound_header(own: u8, dest: u8, payload_len: nat) -> MctpI3cHeader {
    MctpI3cHeader { dest, source: own, byte_count: (payload_len + 1) as usize }
}

/// The framed bytes: header, payload, and the PEC of both when `pec` is set.
pub open spec fn frame(own: u8, dest: u8, payload: Seq<u8>, pec: bool) -> Seq<u8> {
    let body = header_bytes(outbound_header(own, dest, payload.len())) + payload;
    if pec {
        body.push(pec_of(body))
    } else {
        body
    }
}

/// How framing `payload` from `own` to `dest` into a buffer of `out_len`
/// bytes ends: the framed length, or the first rule it breaks.
pub open spec fn encap_encode(own: u8, dest: u8, payload_len: nat, pec: bool, out_len: nat) -> Result<usize, MctpErrorKind> {
    let framed = 4 + payload_len + if pec { 1nat } else { 0nat };
    if payload_len > MCTP_I3C_MAXMTU {
        Err(MctpErrorKind::BadArgument)
    } else if out_len < framed {
        Err(MctpErrorKind::NoSpace)
    } else if !header_encodable(outbound_header(own, dest, payload_len)) {
        Err(MctpErrorKind::BadArgument)
    } else {
        Ok(framed as usize)
    }
}

/// A frame that was encoded decodes, at the peer, to the payload and the
/// header that was put in front of it.
pub proof fn lemma_encap_roundtrip(own: u8, dest: u8, payload: Seq<u8>, pec: bool)
    requires
        payload.len() <= MCTP_I3C_MAXMTU,
        header_encodable(outbound_header(own, dest, payload.len())),
    ensures
        encap_decode(frame(own, dest, payload, pec), pec) == Ok::<(Seq<u8>, MctpI3cHeader), MctpErrorKind>(
            (payload, outbound_header(own, dest, payload.len())),
        ),
{
    let h = outbound_header(own, dest, payload.len());
    let body = header_bytes(h) + payload;
    lemma_header_roundtrip(h);
    assert(body.take(4) =~= header_bytes(h));
    assert(body.skip(4) =~= payload);
    if pec {
        assert(body.push(pec_of(body)).drop_last() =~= body);
    }
}

/// Adds and removes the MCTP-over-I3C transport header for the target at
/// dynamic address `own_addr`.
#[derive(Debug, Clone)]
pub struct MctpI3cEncap {
    own_addr: u8,
}

impl MctpI3cEncap {
    pub closed spec fn own_addr_spec(&self) -> u8 {
        self.own_addr
    }

    /// Bind to a dynamic address.
    pub fn new(own_addr: u8) -> (r: Self)
        ensures
            r.own_addr_spec() == own_addr,
    {
        MctpI3cEncap { own_addr }
    }

    /// This target's dynamic address.
    pub fn own_addr(&self) -> (r: u8)
        ensures
            r == self.own_addr_spec(),
    {
        self.own_addr
    }

    /// Strip the transport header from an inbound private write.
    pub fn decode<'f>(&self, packet: &'f [u8], pec: bool) -> (r: Result<(&'f [u8], MctpI3cHeader), MctpErrorKind>)
        ensures
            match (r, encap_decode(packet@, pec)) {
                (Ok((inner, h)), Ok((spec_inner, spec_h))) => inner@ == spec_inner && h == spec_h,
                (Err(e), Err(spec_e)) => e == spec_e,
                _ => false,
            },
    {
        if packet.len() == 0 {
            return Err(MctpErrorKind::InvalidInput);
        }
        let mut body = packet;
        if pec {
            let (rest, last) = packet.split_at(packet.len() - 1);
            assert(rest@ =~= packet@.drop_last());
            if smbus_pec(rest) != last[0] {
                return Err(MctpErrorKind::InvalidInput);
            }
            body = rest;
        }
        if body.len() < 4 {
            return Err(MctpErrorKind::InvalidInput);
        }
        let (head, inner) = body.split_at(4);
        let header = match MctpI3cHeader::decode(head) {
            Ok(h) => h,
            Err(e) => return Err(e),
        };
        if header.byte_count + 3 != body.len() {
            return Err(MctpErrorKind::InvalidInput);
        }
        Ok((inner, header))
    }

    /// Frame one MCTP packet for an outbound private write into `out`:
    /// header, payload and, when `pec` is set, the trailing PEC. Returns the
    /// framed length; `out` past it is left as it was, and on an error
    /// nothing is written.
    pub fn encode(&self, dest: u8, payload: &[u8], pec: bool, out: &mut [u8]) -> (r: Result<usize, MctpErrorKind>)
        ensures
            r == encap_encode(self.own_addr_spec(), dest, payload@.len(), pec, old(out)@.len()),
            match r {
                Ok(n) => final(out)@ == frame(self.own_addr_spec(), dest, payload@, pec) + old(out)@.skip(
                    n as int,
                ),
                Err(_) => final(out)@ == old(out)@,
            },
    {
        if payload.len() > MCTP_I3C_MAXMTU {
            return Err(MctpErrorKind::BadArgument);
        }
        let pec_extra: usize = if pec { 1 } else { 0 };
        let framed: usize = MCTP_I3C_HEADER + payload.len() + pec_extra;
        if out.len() < framed {
            return Err(MctpErrorKind::NoSpace);
        }
        let header = MctpI3cHeader { dest, source: self.own_addr, byte_count: payload.len() + 1 };
        let bytes = match header.encode() {
            Ok(b) => b,
            Err(e) => return Err(e),
        };
        let ghost before = out@;
        let mut j: usize = 0;
        while j < 4
            invariant
                j <= 4,
                out@.len() == before.len(),
                before.len() >= framed,
                framed == 4 + payload@.len() + pec_extra,
                out@ == bytes@.take(j as int) + before.skip(j as int),
            decreases 4 - j,
        {
            out[j] = bytes[j];
            j += 1;
            assert(out@ =~= bytes@.take(j as int) + before.skip(j as int));
        }
        let mut k: usize = 0;
        while k < payload.len()
            invariant
                k <= payload@.len(),
                payload@.len() <= MCTP_I3C_MAXMTU,
                out@.len() == before.len(),
                before.len() >= framed,
                framed == 4 + payload@.len() + pec_extra,
                out@ == bytes@ + payload@.take(k as int) + before.skip(4 + k),
            decreases payload@.len() - k,
        {
            out[4 + k] = payload[k];
            k += 1;
            assert(out@ =~= bytes@ + payload@.take(k as int) + before.skip(4 + k));
        }
        assert(payload@.take(payload@.len() as int) =~= payload@);
        let ghost body = bytes@ + payload@;
        if pec {
            let (head, _) = out.split_at(4 + payload.len());
            assert(head@ =~= body);
            let crc = smbus_pec(head);
            out[framed - 1] = crc;
            assert(out@ =~= body.push(pec_of(body)) + before.skip(framed as int));
        }
        Ok(framed)
    }
}

} // verus!
