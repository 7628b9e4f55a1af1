//! Framing layer of the eSSP serial protocol: byte stuffing, CRC-16
//! protection, and the `STX, sequence, length, payload, CRC` wire format.

use vstd::prelude::*;

verus! {

// Protocol constants.
pub const STX: u8 = 0x7F;
pub const RESPONSE_OK: u8 = 0xF0;
pub const RESPONSE_ERROR: u8 = 0xFF;
pub const RESPONSE_KEY_NOT_SET: u8 = 0xFA;
pub const RESPONSE_COMMAND_NOT_KNOWN: u8 = 0xF2;

// Command codes.
pub const CMD_SYNC: u8 = 0x11;
pub const CMD_SETUP_REQUEST: u8 = 0x05;
pub const CMD_HOST_PROTOCOL: u8 = 0x06;
pub const CMD_POLL: u8 = 0x07;
pub const CMD_ENABLE: u8 = 0x0A;
pub const CMD_DISABLE: u8 = 0x09;
pub const CMD_SET_INHIBITS: u8 = 0x02;
pub const CMD_GET_ALL_LEVELS: u8 = 0x3B;
pub const CMD_PAYOUT: u8 = 0x42;
pub const CMD_ENABLE_PAYOUT: u8 = 0x5C;
pub const CMD_SETUP_ENCRYPTION: u8 = 0x4A;
pub const CMD_SET_ROUTE: u8 = 0x3A;
pub const CMD_REJECT: u8 = 0x08;
pub const CMD_COIN_MECH_GLOBAL_INHIBIT: u8 = 0x49;
// Legacy aliases answered like CMD_GET_ALL_LEVELS.
pub const CMD_GET_ROUTING: u8 = 0x41;
pub const CMD_GET_LEVELS_LEGACY: u8 = 0x22;

// Poll event codes.
pub const EVENT_RESET: u8 = 0xF1;
pub const EVENT_READ: u8 = 0xEF;
pub const EVENT_CREDIT: u8 = 0xEE;
pub const EVENT_REJECTING: u8 = 0xED;
pub const EVENT_REJECTED: u8 = 0xEC;
pub const EVENT_STACKING: u8 = 0xCC;
pub const EVENT_STACKED: u8 = 0xEB;
pub const EVENT_DISABLED: u8 = 0xE8;
pub const EVENT_DISPENSING: u8 = 0xDA;
pub const EVENT_DISPENSED: u8 = 0xD2;
pub const EVENT_JAMMED: u8 = 0xD5;
pub const EVENT_CASHBOX_REMOVED: u8 = 0xE3;
pub const EVENT_COINS_VALUE_ADDED: u8 = 0xBF;

/// CRC-16 value of a byte sequence under the eSSP parameters
/// (polynomial 0x8005, initial value 0xFFFF, no reflection, zero xor-out).
/// The value depends on the bytes alone.
pub uninterp spec fn crc16_of(data: Seq<u8>) -> u16;

/// Relies on crc::Crc::<u16>::checksum with crc::CRC_16_CMS, whose parameters
/// are polynomial 0x8005, initial value 0xFFFF, refin/refout false, xorout 0:
/// the checksum is a function of the input bytes alone.
#[verifier::external_body]
fn calculate_crc(data: &[u8]) -> (r: u16)
    ensures
        r == crc16_of(data@),
{
    crc::Crc::<u16>::new(&crc::CRC_16_CMS).checksum(data)
}

/// Wire form of one payload byte: a literal STX is escaped by doubling it.
pub open spec fn stuffed_byte(b: u8) -> Seq<u8> {
    if b == STX {
        seq![STX, STX]
    } else {
        seq![b]
    }
}

/// Wire form of a whole payload: each byte stuffed independently.
pub open spec fn spec_stuff(s: Seq<u8>) -> Seq<u8>
    decreases s.len(),
{
    if s.len() == 0 {
        Seq::empty()
    } else {
        stuffed_byte(s[0]) + spec_stuff(s.skip(1))
    }
}

/// Byte stuffing: 0x7F becomes 0x7F 0x7F, all other bytes pass unchanged.
pub fn stuff_bytes(data: &[u8]) -> (r: Vec<u8>)
    ensures
        r@ == spec_stuff(data@),
{
    let mut stuffed: Vec<u8> = Vec::with_capacity(data.len());
    let mut i: usize = 0;
    proof {
        assert(data@.skip(0) =~= data@);
        assert(stuffed@ + spec_stuff(data@) =~= spec_stuff(data@));
    }
    while i < data.len()
        invariant
            i <= data@.len(),
            spec_stuff(data@) == stuffed@ + spec_stuff(data@.skip(i as int)),
        decreases data@.len() - i,
    {
        let byte = data[i];
        stuffed.push(byte);
        if byte == STX {
            stuffed.push(STX);
        }
        proof {
            assert(data@.skip(i as int).skip(1) =~= data@.skip(i + 1));
        }
        i = i + 1;
    }
    proof {
        assert(data@.skip(data@.len() as int) =~= Seq::<u8>::empty());
        assert(stuffed@ =~= spec_stuff(data@));
    }
    stuffed
}

/// Inverse of stuffing: an STX byte is kept, and an immediately following
/// duplicate STX is dropped.
pub open spec fn spec_unstuff(s: Seq<u8>) -> Seq<u8>
    decreases s.len(),
{
    if s.len() == 0 {
        Seq::empty()
    } else if s[0] == STX && s.len() >= 2 && s[1] == STX {
        seq![STX] + spec_unstuff(s.skip(2))
    } else {
        seq![s[0]] + spec_unstuff(s.skip(1))
    }
}

/// Byte unstuffing: 0x7F 0x7F becomes 0x7F.
pub fn unstuff_bytes(data: &[u8]) -> (r: Vec<u8>)
    ensures
        r@ == spec_unstuff(data@),
{
    let mut unstuffed: Vec<u8> = Vec::new();
    let mut i: usize = 0;
    proof {
        assert(data@.skip(0) =~= data@);
        assert(unstuffed@ + spec_unstuff(data@) =~= spec_unstuff(data@));
    }
    while i < data.len()
        invariant
            i <= data@.len(),
            spec_unstuff(data@) == unstuffed@ + spec_unstuff(data@.skip(i as int)),
        decreases data@.len() - i,
    {
        let byte = data[i];
        unstuffed.push(byte);
        if byte == STX && i + 1 < data.len() && data[i + 1] == STX {
            proof {
                assert(data@.skip(i as int).skip(2) =~= data@.skip(i + 2));
            }
            i = i + 2;
        } else {
            proof {
                assert(data@.skip(i as int).skip(1) =~= data@.skip(i + 1));
            }
            i = i + 1;
        }
    }
    proof {
        assert(data@.skip(data@.len() as int) =~= Seq::<u8>::empty());
        assert(unstuffed@ =~= spec_unstuff(data@));
    }
    unstuffed
}

/// Stuffing is reversible: unstuffing the stuffed form of any payload gives
/// the payload back, each escaped STX independently of its neighbours.
pub proof fn lemma_unstuff_stuff(s: Seq<u8>)
    ensures
        spec_unstuff(spec_stuff(s)) == s,
    decreases s.len(),
{
    if s.len() == 0 {
        assert(spec_unstuff(spec_stuff(s)) =~= s);
    } else {
        lemma_unstuff_stuff(s.skip(1));
        let t = spec_stuff(s);
        if s[0] == STX {
            assert(t =~= seq![STX, STX] + spec_stuff(s.skip(1)));
            assert(t.skip(2) =~= spec_stuff(s.skip(1)));
            assert(spec_unstuff(t) =~= seq![STX] + s.skip(1));
            assert(spec_unstuff(t) =~= s);
        } else {
            assert(t =~= seq![s[0]] + spec_stuff(s.skip(1)));
            assert(t.skip(1) =~= spec_stuff(s.skip(1)));
            assert(spec_unstuff(t) =~= seq![s[0]] + s.skip(1));
            assert(spec_unstuff(t) =~= s);
        }
    }
}

/// Why one decode attempt failed.  The first two mean "wait for more bytes";
/// the last two call for resynchronisation.
#[derive(Clone, Copy, Debug, PartialEq, Eq, Structural)]
pub enum DecodeError {
    /// Fewer than the 5 bytes any frame at least occupies.
    TooShort,
    /// The declared frame extends past the bytes available.
    Incomplete,
    /// The first byte is not the STX start marker.
    FramingError,
    /// The trailing checksum does not match the frame body.
    CrcMismatch,
}

/// An eSSP packet: a sequence byte and an unstuffed payload.
#[derive(Debug, Clone)]
pub struct EsspPacket {
    pub sequence: u8,
    pub data: Vec<u8>,
}

/// Full wire form of a packet: STX, sequence, stuffed length, stuffed
/// payload, and the CRC-16 of everything after STX, least-significant first.
pub open spec fn spec_encode(sequence: u8, payload: Seq<u8>) -> Seq<u8>
    recommends
        spec_stuff(payload).len() <= 255,
{
    let stuffed = spec_stuff(payload);
    let body = seq![sequence, stuffed.len() as u8] + stuffed;
    let crc = crc16_of(body);
    seq![STX] + body + seq![(crc % 256) as u8, (crc / 256) as u8]
}

/// What one decode attempt on a byte prefix yields: either the sequence
/// byte, the unstuffed payload and the count of bytes the frame occupies,
/// or the `DecodeError` that applies.
pub open spec fn spec_decode(b: Seq<u8>) -> Result<(u8, Seq<u8>, int), DecodeError> {
    if b.len() < 5 {
        Err(DecodeError::TooShort)
    } else if b[0] != STX {
        Err(DecodeError::FramingError)
    } else {
        let len = b[2] as int;
        let total = 5 + len;
        if b.len() < total {
            Err(DecodeError::Incomplete)
        } else {
            let body = b.subrange(1, total - 2);
            if (b[total - 2] as int) + 256 * (b[total - 1] as int) != crc16_of(body) as int {
                Err(DecodeError::CrcMismatch)
            } else {
                Ok((b[1], spec_unstuff(b.subrange(3, 3 + len)), total))
            }
        }
    }
}

impl EsspPacket {
    pub fn new(sequence: u8, data: Vec<u8>) -> (r: Self)
        ensures
            r.sequence == sequence,
            r.data@ == data@,
    {
        Self { sequence, data }
    }

    /// Serialize the packet to bytes with STX, sequence, length, stuffed
    /// payload and CRC.  The stuffed payload must fit the one length byte.
    pub fn to_bytes(&self) -> (r: Vec<u8>)
        requires
            spec_stuff(self.data@).len() <= 255,
        ensures
            r@ == spec_encode(self.sequence, self.data@),
            r@.len() == spec_stuff(self.data@).len() + 5,
    {
        let stuffed = stuff_bytes(self.data.as_slice());

        // CRC input: everything after STX (sequence, length, stuffed payload).
        let mut body: Vec<u8> = Vec::new();
        body.push(self.sequence);
        body.push(stuffed.len() as u8);
        body.extend_from_slice(stuffed.as_slice());
        let crc = calculate_crc(body.as_slice());

        let mut packet: Vec<u8> = Vec::new();
        packet.push(STX);
        packet.extend_from_slice(body.as_slice());
        packet.push((crc % 256) as u8);
        packet.push((crc / 256) as u8);
        proof {
            assert(body@ =~= seq![self.sequence, spec_stuff(self.data@).len() as u8]
                + spec_stuff(self.data@));
            assert(packet@ =~= spec_encode(self.sequence, self.data@));
        }
        packet
    }

    /// Parse a packet from the front of `data`; on success also return the
    /// number of bytes the frame occupied.
    pub fn from_bytes(data: &[u8]) -> (r: Result<(Self, usize), DecodeError>)
        ensures
            match spec_decode(data@) {
                Ok(t) => match r {
                    Ok(p) => p.0.sequence == t.0 && p.0.data@ == t.1 && p.1 as int == t.2,
                    Err(_) => false,
                },
                Err(e) => r matches Err(e2) && e2 == e,
            },
    {
        if data.len() < 5 {
            return Err(DecodeError::TooShort);
        }
        if data[0] != STX {
            return Err(DecodeError::FramingError);
        }
        let sequence = data[1];
        let length = data[2] as usize;
        let total_len = 5 + length;
        if data.len() < total_len {
            return Err(DecodeError::Incomplete);
        }

        // CRC is calculated over sequence, length and stuffed payload.
        let mut body: Vec<u8> = Vec::new();
        let mut i: usize = 1;
        while i < total_len - 2
            invariant
                1 <= i <= total_len - 2,
                total_len == 5 + length,
                total_len <= data@.len(),
                length == data@[2],
                body@ == data@.subrange(1, i as int),
            decreases total_len - i,
        {
            body.push(data[i]);
            proof {
                assert(body@ =~= data@.subrange(1, i + 1));
            }
            i = i + 1;
        }
        let expected_crc = calculate_crc(body.as_slice());
        let received_crc: u16 = data[total_len - 2] as u16 + (data[total_len - 1] as u16) * 256;
        if expected_crc != received_crc {
            return Err(DecodeError::CrcMismatch);
        }

        // Extract and unstuff the payload.
        let mut stuffed: Vec<u8> = Vec::new();
        let mut j: usize = 3;
        while j < 3 + length
            invariant
                3 <= j <= 3 + length,
                total_len == 5 + length,
                total_len <= data@.len(),
                stuffed@ == data@.subrange(3, j as int),
            decreases 3 + length - j,
        {
            stuffed.push(data[j]);
            proof {
                assert(stuffed@ =~= data@.subrange(3, j + 1));
            }
            j = j + 1;
        }
        let unstuffed = unstuff_bytes(stuffed.as_slice());

        Ok((Self::new(sequence, unstuffed), total_len))
    }
}

/// Build a response packet whose payload is the status byte followed by the
/// response data.
pub fn build_response(sequence: u8, status: u8, data: &[u8]) -> (r: EsspPacket)
    ensures
        r.sequence == sequence,
        r.data@ == seq![status] + data@,
{
    let mut response_data: Vec<u8> = Vec::new();
    response_data.push(status);
    response_data.extend_from_slice(data);
    proof {
        assert(response_data@ =~= seq![status] + data@);
    }
    EsspPacket::new(sequence, response_data)
}

/// Round trip: decoding the encoding of any payload whose stuffed form fits
/// the length byte gives back the sequence, the payload, and the encoded
/// length as the count of consumed bytes.
pub proof fn lemma_decode_encode(sequence: u8, payload: Seq<u8>)
    requires
        spec_stuff(payload).len() <= 255,
    ensures
        spec_encode(sequence, payload).len() == spec_stuff(payload).len() + 5,
        spec_decode(spec_encode(sequence, payload)) == Ok::<_, DecodeError>(
            (sequence, payload, spec_encode(sequence, payload).len() as int),
        ),
{
    let stuffed = spec_stuff(payload);
    let body = seq![sequence, stuffed.len() as u8] + stuffed;
    let crc = crc16_of(body);
    let e = spec_encode(sequence, payload);
    assert(e.len() == stuffed.len() + 5);
    assert(e[0] == STX);
    assert(e[1] == sequence);
    assert(e[2] == stuffed.len() as u8);
    assert(e[2] as int == stuffed.len());
    let total = 5 + e[2] as int;
    assert(total == e.len());
    assert(e.subrange(1, total - 2) =~= body);
    vstd::arithmetic::div_mod::lemma_fundamental_div_mod(crc as int, 256);
    assert(e[total - 2] as int == crc as int % 256);
    assert(e[total - 1] as int == crc as int / 256);
    assert((e[total - 2] as int) + 256 * (e[total - 1] as int) == crc as int);
    assert(e.subrange(3, 3 + e[2] as int) =~= stuffed);
    lemma_unstuff_stuff(payload);
}

/// Corruption confined to the two trailing checksum bytes of a correctly
/// framed packet always makes decoding fail with a CRC mismatch.  (Corruption
/// of the frame body changes what the checksum is compared against, which no
/// statement here pins down; the codec tests exercise those flips.)
pub proof fn lemma_crc_byte_corruption(sequence: u8, payload: Seq<u8>, corrupted: Seq<u8>)
    requires
        spec_stuff(payload).len() <= 255,
        corrupted.len() == spec_encode(sequence, payload).len(),
        forall|i: int|
            0 <= i < corrupted.len() - 2 ==> corrupted[i] == spec_encode(sequence, payload)[i],
        corrupted != spec_encode(sequence, payload),
    ensures
        spec_decode(corrupted) == Err::<(u8, Seq<u8>, int), DecodeError>(DecodeError::CrcMismatch),
{
    let e = spec_encode(sequence, payload);
    lemma_decode_encode(sequence, payload);
    let stuffed = spec_stuff(payload);
    let body = seq![sequence, stuffed.len() as u8] + stuffed;
    let crc = crc16_of(body);
    let total = e.len() as int;
    assert(corrupted[0] == STX);
    assert(corrupted[2] == e[2]);
    assert(corrupted.len() == 5 + corrupted[2] as int);
    assert(corrupted.subrange(1, total - 2) =~= e.subrange(1, total - 2));
    assert(e.subrange(1, total - 2) =~= body);
    // The frame body is untouched, so only the received checksum can differ;
    // if both checksum bytes matched too, the packets would be equal.
    if corrupted[total - 2] == e[total - 2] && corrupted[total - 1] == e[total - 1] {
        assert(corrupted =~= e);
    }
    vstd::arithmetic::div_mod::lemma_fundamental_div_mod(crc as int, 256);
    assert((e[total - 2] as int) + 256 * (e[total - 1] as int) == crc as int);
    // A 16-bit value decomposes uniquely into two bytes.
    assert((corrupted[total - 2] as int) + 256 * (corrupted[total - 1] as int) != crc as int);
}

} // verus!

