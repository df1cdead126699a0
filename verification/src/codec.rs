//! Packet codec: the wire frame, its encoder and decoder, and the
//! even-parity integrity byte.
//!
//! Wire frame (all integers big-endian):
//! a 4-byte total length (9 + payload length), a 1-byte kind code, a 4-byte
//! sequence number, the payload bytes, then 1 integrity byte (0x00 when the
//! total number of set payload bits is even, 0xFF otherwise).

use vstd::prelude::*;
use vstd::pervasive::VecAdditionalExecFns;
use crate::errors::FrameError;

verus! {

/// The eight recognized packet kinds. Codes with bit 3 set are control
/// kinds; DATA and RETRANSMISSION are the data kinds.
#[derive(Copy, Clone, PartialEq, Eq, Structural, Debug)]
pub enum PacketType {
    Data,
    Retransmission,
    Syn,
    SynAck,
    Ack,
    Nak,
    Fin,
    Rst,
}

/// The 4-bit wire code of a packet kind.
pub open spec fn kind_code_spec(k: PacketType) -> u8 {
    match k {
        PacketType::Data => 0x01,
        PacketType::Retransmission => 0x02,
        PacketType::Syn => 0x08,
        PacketType::SynAck => 0x09,
        PacketType::Ack => 0x0a,
        PacketType::Nak => 0x0b,
        PacketType::Fin => 0x0c,
        PacketType::Rst => 0x0d,
    }
}

/// The packet kind a wire code stands for, if any.
pub open spec fn kind_of_code(c: u8) -> Option<PacketType> {
    if c == 0x01 {
        Some(PacketType::Data)
    } else if c == 0x02 {
        Some(PacketType::Retransmission)
    } else if c == 0x08 {
        Some(PacketType::Syn)
    } else if c == 0x09 {
        Some(PacketType::SynAck)
    } else if c == 0x0a {
        Some(PacketType::Ack)
    } else if c == 0x0b {
        Some(PacketType::Nak)
    } else if c == 0x0c {
        Some(PacketType::Fin)
    } else if c == 0x0d {
        Some(PacketType::Rst)
    } else {
        None
    }
}

/// A kind is a control kind exactly when bit 3 of its code is set.
pub open spec fn is_control_kind(k: PacketType) -> bool {
    match k {
        PacketType::Data | PacketType::Retransmission => false,
        _ => true,
    }
}

/// Bit 3 of the code distinguishes the control kinds from the data kinds.
pub proof fn lemma_control_bit(k: PacketType)
    ensures
        is_control_kind(k) <==> kind_code_spec(k) & 0x08 == 0x08,
{
    match k {
        PacketType::Data => assert(0x01u8 & 0x08 == 0x00) by (bit_vector),
        PacketType::Retransmission => assert(0x02u8 & 0x08 == 0x00) by (bit_vector),
        PacketType::Syn => assert(0x08u8 & 0x08 == 0x08) by (bit_vector),
        PacketType::SynAck => assert(0x09u8 & 0x08 == 0x08) by (bit_vector),
        PacketType::Ack => assert(0x0au8 & 0x08 == 0x08) by (bit_vector),
        PacketType::Nak => assert(0x0bu8 & 0x08 == 0x08) by (bit_vector),
        PacketType::Fin => assert(0x0cu8 & 0x08 == 0x08) by (bit_vector),
        PacketType::Rst => assert(0x0du8 & 0x08 == 0x08) by (bit_vector),
    }
}

pub fn kind_code(k: PacketType) -> (r: u8)
    ensures
        r == kind_code_spec(k),
{
    match k {
        PacketType::Data => 0x01,
        PacketType::Retransmission => 0x02,
        PacketType::Syn => 0x08,
        PacketType::SynAck => 0x09,
        PacketType::Ack => 0x0a,
        PacketType::Nak => 0x0b,
        PacketType::Fin => 0x0c,
        PacketType::Rst => 0x0d,
    }
}

pub fn parse_kind(c: u8) -> (r: Option<PacketType>)
    ensures
        r == kind_of_code(c),
{
    if c == 0x01 {
        Some(PacketType::Data)
    } else if c == 0x02 {
        Some(PacketType::Retransmission)
    } else if c == 0x08 {
        Some(PacketType::Syn)
    } else if c == 0x09 {
        Some(PacketType::SynAck)
    } else if c == 0x0a {
        Some(PacketType::Ack)
    } else if c == 0x0b {
        Some(PacketType::Nak)
    } else if c == 0x0c {
        Some(PacketType::Fin)
    } else if c == 0x0d {
        Some(PacketType::Rst)
    } else {
        None
    }
}

/// The number of set bits in a byte.
pub open spec fn ones8(b: u8) -> u8 {
    ((b & 1) + ((b >> 1) & 1) + ((b >> 2) & 1) + ((b >> 3) & 1) + ((b >> 4) & 1) + ((b >> 5) & 1)
        + ((b >> 6) & 1) + ((b >> 7) & 1)) as u8
}

/// The number of set bits across all bytes of a payload.
pub open spec fn ones_count(data: Seq<u8>) -> nat
    decreases data.len(),
{
    if data.len() == 0 {
        0
    } else {
        ones8(data[0]) as nat + ones_count(data.drop_first())
    }
}

/// The integrity byte of a payload: 0x00 when the total number of set bits
/// is even, 0xFF otherwise.
pub open spec fn parity_byte(data: Seq<u8>) -> u8 {
    if ones_count(data) % 2 == 0 {
        0x00
    } else {
        0xFF
    }
}

proof fn lemma_ones_count_push(data: Seq<u8>, b: u8)
    ensures
        ones_count(data.push(b)) == ones_count(data) + ones8(b),
    decreases data.len(),
{
    let pushed = data.push(b);
    assert(pushed.len() == data.len() + 1);
    if data.len() == 0 {
        assert(pushed[0] == b);
        assert(pushed.drop_first() =~= Seq::<u8>::empty());
        assert(ones_count(pushed) == ones8(b) as nat + ones_count(pushed.drop_first()));
        assert(ones_count(Seq::<u8>::empty()) == 0);
    } else {
        assert(pushed[0] == data[0]);
        assert(pushed.drop_first() =~= data.drop_first().push(b));
        lemma_ones_count_push(data.drop_first(), b);
        assert(ones_count(pushed) == ones8(data[0]) as nat + ones_count(pushed.drop_first()));
        assert(ones_count(data) == ones8(data[0]) as nat + ones_count(data.drop_first()));
    }
}

fn byte_ones(b: u8) -> (r: u8)
    ensures
        r == ones8(b),
{
    proof {
        assert((b & 1) + ((b >> 1) & 1) + ((b >> 2) & 1) + ((b >> 3) & 1) + ((b >> 4) & 1) + ((b
            >> 5) & 1) + ((b >> 6) & 1) + ((b >> 7) & 1) <= 8) by (bit_vector);
    }
    (b & 1) + ((b >> 1) & 1) + ((b >> 2) & 1) + ((b >> 3) & 1) + ((b >> 4) & 1) + ((b >> 5) & 1) + (
    (b >> 6) & 1) + ((b >> 7) & 1)
}

/// Computes the even-parity integrity byte of a payload: 0x00 when the
/// number of set bits is even, 0xFF otherwise.
pub fn check_parity(data: &[u8]) -> (r: u8)
    ensures
        r == parity_byte(data@),
{
    let mut odd: bool = false;
    let mut i: usize = 0;
    while i < data.len()
        invariant
            i <= data@.len(),
            odd == (ones_count(data@.take(i as int)) % 2 == 1),
        decreases data@.len() - i,
    {
        let c = byte_ones(data[i]);
        proof {
            assert(data@.take(i + 1) =~= data@.take(i as int).push(data@[i as int]));
            lemma_ones_count_push(data@.take(i as int), data@[i as int]);
        }
        odd = odd ^ (c % 2 == 1);
        i = i + 1;
    }
    proof {
        assert(data@.take(i as int) =~= data@);
    }
    if odd {
        0xFF
    } else {
        0x00
    }
}

/// The big-endian bytes of a 32-bit value, most significant first.
pub open spec fn be32(n: u32) -> Seq<u8> {
    seq![(n >> 24) as u8, (n >> 16) as u8, (n >> 8) as u8, n as u8]
}

/// The 32-bit value read from four big-endian bytes.
pub open spec fn be32_val(b0: u8, b1: u8, b2: u8, b3: u8) -> u32 {
    (b0 as u32) << 24 | (b1 as u32) << 16 | (b2 as u32) << 8 | (b3 as u32)
}

/// Reading back the four big-endian bytes of a value gives the value.
pub proof fn lemma_be32_round_trip(n: u32)
    ensures
        be32_val(be32(n)[0], be32(n)[1], be32(n)[2], be32(n)[3]) == n,
{
    assert(((n >> 24) as u8 as u32) << 24 | ((n >> 16) as u8 as u32) << 16 | ((n >> 8) as u8 as u32)
        << 8 | (n as u8 as u32) == n) by (bit_vector);
}

pub fn u32_to_be_bytes(n: u32) -> (r: Vec<u8>)
    ensures
        r@ == be32(n),
{
    let mut out: Vec<u8> = Vec::new();
    out.push((n >> 24) as u8);
    out.push((n >> 16) as u8);
    out.push((n >> 8) as u8);
    out.push(n as u8);
    proof {
        assert(out@ =~= be32(n));
    }
    out
}

/// Reads a big-endian u32 starting at `start_index`, or reports a truncated
/// frame when fewer than four bytes are available there.
pub fn bytes_to_u32(byte_vector: &Vec<u8>, start_index: usize) -> (r: Result<u32, FrameError>)
    ensures
        r is Ok <==> start_index + 4 <= byte_vector@.len(),
        r is Ok ==> r.unwrap() == be32_val(
            byte_vector@[start_index as int],
            byte_vector@[start_index as int + 1],
            byte_vector@[start_index as int + 2],
            byte_vector@[start_index as int + 3],
        ),
        r is Err ==> r == Result::<u32, FrameError>::Err(FrameError::Truncated),
{
    if start_index < byte_vector.len() && byte_vector.len() - start_index >= 4 {
        let result: u32 = (byte_vector[start_index] as u32) << 24 | (byte_vector[start_index
            + 1] as u32) << 16 | (byte_vector[start_index + 2] as u32) << 8 | (byte_vector[start_index
            + 3] as u32);
        Ok(result)
    } else {
        Err(FrameError::Truncated)
    }
}

/// A single protocol frame. `length` and `parity` are derived from the
/// other three fields whenever a packet is built by [`Packet::new`]; a
/// decoded packet carries whatever the wire held, so a corrupted frame is
/// representable and [`verify`] can reject it.
#[derive(Debug, PartialEq)]
pub struct Packet {
    pub length: u32,
    pub packet_type: PacketType,
    pub sequence_no: u32,
    pub data: Vec<u8>,
    pub parity: u8,
}

/// The mathematical image of a packet: the same fields with the payload as
/// a sequence.
pub struct PacketView {
    pub length: u32,
    pub packet_type: PacketType,
    pub sequence_no: u32,
    pub data: Seq<u8>,
    pub parity: u8,
}

impl View for Packet {
    type V = PacketView;

    open spec fn view(&self) -> PacketView {
        PacketView {
            length: self.length,
            packet_type: self.packet_type,
            sequence_no: self.sequence_no,
            data: self.data@,
            parity: self.parity,
        }
    }
}

/// The packet that [`Packet::new`] builds: length and parity recomputed
/// from the kind, the sequence number and the payload.
pub open spec fn make_packet(packet_type: PacketType, sequence_no: u32, data: Seq<u8>) -> PacketView {
    PacketView {
        length: (data.len() + 9) as u32,
        packet_type,
        sequence_no,
        data,
        parity: parity_byte(data),
    }
}

/// A well-formed packet: length and parity agree with the payload.
pub open spec fn packet_wf(p: PacketView) -> bool {
    &&& p.length == p.data.len() + 9
    &&& p.parity == parity_byte(p.data)
}

/// The integrity check passes: the carried parity byte equals the parity
/// recomputed from the payload.
pub open spec fn packet_verifies(p: PacketView) -> bool {
    p.parity == parity_byte(p.data)
}

impl Packet {
    /// Builds a frame with its derived fields recomputed.
    pub fn new(packet_type: PacketType, sequence_no: u32, data: Vec<u8>) -> (r: Packet)
        requires
            data@.len() + 9 <= u32::MAX,
        ensures
            r@ == make_packet(packet_type, sequence_no, data@),
    {
        let length = (data.len() + 9) as u32;
        let parity = check_parity(data.as_slice());
        Packet { length, packet_type, sequence_no, data, parity }
    }
}

/// Copies a packet field by field, so that the copy provably carries the
/// same view.
pub fn clone_packet(p: &Packet) -> (r: Packet)
    ensures
        r@ == p@,
{
    let mut data: Vec<u8> = Vec::new();
    let mut i: usize = 0;
    while i < p.data.len()
        invariant
            i <= p.data@.len(),
            data@ == p.data@.take(i as int),
        decreases p.data@.len() - i,
    {
        data.push(p.data[i]);
        proof {
            assert(p.data@.take(i + 1) =~= p.data@.take(i as int).push(p.data@[i as int]));
        }
        i = i + 1;
    }
    proof {
        assert(p.data@.take(i as int) =~= p.data@);
    }
    Packet {
        length: p.length,
        packet_type: p.packet_type,
        sequence_no: p.sequence_no,
        data,
        parity: p.parity,
    }
}

/// Recomputes the parity of the payload and compares it with the carried
/// integrity byte.
pub fn verify(packet: &Packet) -> (r: bool)
    ensures
        r == packet_verifies(packet@),
{
    check_parity(packet.data.as_slice()) == packet.parity
}

/// The encoded frame of a packet: big-endian total length, kind code,
/// big-endian sequence number, payload, parity byte.
pub open spec fn spec_encode(packet_type: PacketType, sequence_no: u32, data: Seq<u8>) -> Seq<u8> {
    be32((data.len() + 9) as u32) + seq![kind_code_spec(packet_type)] + be32(sequence_no) + data
        + seq![parity_byte(data)]
}

/// A byte string is an acceptable frame: the full envelope is present, the
/// declared length (9 + payload length, which does not count the trailing
/// integrity byte) matches the bytes available, and the kind code is
/// recognized.
pub open spec fn frame_ok(b: Seq<u8>) -> bool {
    &&& b.len() >= 10
    &&& be32_val(b[0], b[1], b[2], b[3]) == b.len() - 1
    &&& kind_of_code(b[4]) is Some
}

/// The declared length field of a frame.
pub open spec fn frame_length(b: Seq<u8>) -> u32 {
    be32_val(b[0], b[1], b[2], b[3])
}

/// The sequence number field of a frame.
pub open spec fn frame_seq(b: Seq<u8>) -> u32 {
    be32_val(b[5], b[6], b[7], b[8])
}

/// The payload bytes of a frame.
pub open spec fn frame_payload(b: Seq<u8>) -> Seq<u8> {
    b.subrange(9, b.len() - 1)
}

/// The trailing integrity byte of a frame.
pub open spec fn frame_parity(b: Seq<u8>) -> u8 {
    b[b.len() - 1]
}

/// Writes the wire frame of a packet built from the given kind, sequence
/// number and payload.
pub fn encode(packet_type: PacketType, sequence_no: u32, data: &Vec<u8>) -> (r: Vec<u8>)
    requires
        data@.len() + 9 <= u32::MAX,
    ensures
        r@ == spec_encode(packet_type, sequence_no, data@),
{
    let mut out = u32_to_be_bytes((data.len() + 9) as u32);
    out.push(kind_code(packet_type));
    let seq_bytes = u32_to_be_bytes(sequence_no);
    out.push(seq_bytes[0]);
    out.push(seq_bytes[1]);
    out.push(seq_bytes[2]);
    out.push(seq_bytes[3]);
    let ghost prefix = out@;
    let mut i: usize = 0;
    while i < data.len()
        invariant
            i <= data@.len(),
            out@ == prefix + data@.take(i as int),
        decreases data@.len() - i,
    {
        out.push(data[i]);
        proof {
            assert(prefix + data@.take(i + 1) =~= (prefix + data@.take(i as int)).push(
                data@[i as int],
            ));
        }
        i = i + 1;
    }
    out.push(check_parity(data.as_slice()));
    proof {
        assert(data@.take(data@.len() as int) =~= data@);
        assert(out@ =~= spec_encode(packet_type, sequence_no, data@));
    }
    out
}

/// Parses a wire frame. Fails exactly when fewer than 9 bytes are
/// available, when the declared length does not match the bytes available,
/// or when the kind code is not recognized. The carried parity byte is
/// taken as it stands; [`verify`] checks it separately.
pub fn decode(bytes: &Vec<u8>) -> (r: Result<Packet, FrameError>)
    ensures
        r is Ok <==> frame_ok(bytes@),
        r is Ok ==> {
            let p = r.unwrap()@;
            &&& p.length == frame_length(bytes@)
            &&& Some(p.packet_type) == kind_of_code(bytes@[4])
            &&& p.sequence_no == frame_seq(bytes@)
            &&& p.data == frame_payload(bytes@)
            &&& p.parity == frame_parity(bytes@)
        },
        r is Err ==> r.unwrap_err() == spec_decode_err(bytes@),
{
    if bytes.len() < 9 {
        return Err(FrameError::Truncated);
    }
    let declared = match bytes_to_u32(bytes, 0) {
        Ok(v) => v,
        Err(e) => {
            return Err(e);
        },
    };
    if bytes.len() < 10 || declared as usize != bytes.len() - 1 {
        return Err(FrameError::LengthMismatch);
    }
    let packet_type = match parse_kind(bytes[4]) {
        Some(k) => k,
        None => {
            return Err(FrameError::UnknownKind);
        },
    };
    let sequence_no = match bytes_to_u32(bytes, 5) {
        Ok(v) => v,
        Err(e) => {
            return Err(e);
        },
    };
    let mut data: Vec<u8> = Vec::new();
    let mut i: usize = 9;
    while i < bytes.len() - 1
        invariant
            9 <= i <= bytes@.len() - 1,
            bytes@.len() >= 9,
            data@ == bytes@.subrange(9, i as int),
        decreases bytes@.len() - i,
    {
        data.push(bytes[i]);
        proof {
            assert(bytes@.subrange(9, i + 1) =~= bytes@.subrange(9, i as int).push(
                bytes@[i as int],
            ));
        }
        i = i + 1;
    }
    let parity = bytes[bytes.len() - 1];
    Ok(Packet { length: declared, packet_type, sequence_no, data, parity })
}

/// The error [`decode`] reports for an unacceptable frame: the checks run
/// in the order truncation, length, kind.
pub open spec fn spec_decode_err(b: Seq<u8>) -> FrameError {
    if b.len() < 9 {
        FrameError::Truncated
    } else if b.len() < 10 || be32_val(b[0], b[1], b[2], b[3]) != b.len() - 1 {
        FrameError::LengthMismatch
    } else {
        FrameError::UnknownKind
    }
}

/// Round-trip law: decoding an encoded frame reconstructs the kind, the
/// sequence number and the payload exactly, and the carried parity is the
/// recomputed one.
pub proof fn lemma_encode_decode_round_trip(packet_type: PacketType, sequence_no: u32, data: Seq<u8>)
    requires
        data.len() + 9 <= u32::MAX,
    ensures
        frame_ok(spec_encode(packet_type, sequence_no, data)),
        kind_of_code(spec_encode(packet_type, sequence_no, data)[4]) == Some(packet_type),
        frame_seq(spec_encode(packet_type, sequence_no, data)) == sequence_no,
        frame_payload(spec_encode(packet_type, sequence_no, data)) == data,
        frame_parity(spec_encode(packet_type, sequence_no, data)) == parity_byte(data),
        frame_length(spec_encode(packet_type, sequence_no, data)) == data.len() + 9,
{
    let e = spec_encode(packet_type, sequence_no, data);
    let n = (data.len() + 9) as u32;
    assert(e.len() == data.len() + 10);
    assert(e[0] == be32(n)[0] && e[1] == be32(n)[1] && e[2] == be32(n)[2] && e[3] == be32(n)[3]);
    lemma_be32_round_trip(n);
    assert(e[4] == kind_code_spec(packet_type));
    assert(kind_of_code(kind_code_spec(packet_type)) == Some(packet_type));
    assert(e[5] == be32(sequence_no)[0] && e[6] == be32(sequence_no)[1] && e[7] == be32(
        sequence_no,
    )[2] && e[8] == be32(sequence_no)[3]);
    lemma_be32_round_trip(sequence_no);
    assert(frame_payload(e) =~= data);
    assert(e[e.len() - 1] == parity_byte(data));
}

/// A packet with recomputed derived fields passes the integrity check.
pub proof fn lemma_new_packet_verifies(packet_type: PacketType, sequence_no: u32, data: Seq<u8>)
    ensures
        packet_verifies(make_packet(packet_type, sequence_no, data)),
{
}

/// The byte with one bit flipped.
pub open spec fn flip_bit(b: u8, j: u8) -> u8 {
    b ^ (1u8 << j)
}

proof fn lemma_flip_bit_parity(b: u8, j: u8)
    requires
        j < 8,
    ensures
        ones8(flip_bit(b, j)) % 2 != ones8(b) % 2,
{
    assert(j < 8 ==> ((((b ^ (1u8 << j)) & 1) + (((b ^ (1u8 << j)) >> 1) & 1) + (((b ^ (1u8 << j))
        >> 2) & 1) + (((b ^ (1u8 << j)) >> 3) & 1) + (((b ^ (1u8 << j)) >> 4) & 1) + (((b ^ (1u8
        << j)) >> 5) & 1) + (((b ^ (1u8 << j)) >> 6) & 1) + (((b ^ (1u8 << j)) >> 7) & 1)) as u8)
        % 2 != (((b & 1) + ((b >> 1) & 1) + ((b >> 2) & 1) + ((b >> 3) & 1) + ((b >> 4) & 1) + ((b
        >> 5) & 1) + ((b >> 6) & 1) + ((b >> 7) & 1)) as u8) % 2) by (bit_vector);
}

proof fn lemma_ones_count_update(data: Seq<u8>, i: int, v: u8)
    requires
        0 <= i < data.len(),
    ensures
        ones_count(data.update(i, v)) + ones8(data[i]) == ones_count(data) + ones8(v),
    decreases data.len(),
{
    let u = data.update(i, v);
    if i == 0 {
        assert(u[0] == v);
        assert(u.drop_first() =~= data.drop_first());
    } else {
        assert(u[0] == data[0]);
        assert(u.drop_first() =~= data.drop_first().update(i - 1, v));
        lemma_ones_count_update(data.drop_first(), i - 1, v);
    }
}

/// Flips one bit of the payload of an already-built packet without
/// recomputing its integrity byte: the model of wire corruption.
pub fn corrupt_payload_bit(p: &mut Packet, byte_idx: usize, bit_idx: u8)
    requires
        byte_idx < old(p)@.data.len(),
        bit_idx < 8,
    ensures
        final(p)@.data == old(p)@.data.update(
            byte_idx as int,
            flip_bit(old(p)@.data[byte_idx as int], bit_idx),
        ),
        final(p)@.parity == old(p)@.parity,
        final(p)@.packet_type == old(p)@.packet_type,
        final(p)@.sequence_no == old(p)@.sequence_no,
        final(p)@.length == old(p)@.length,
{
    let b = p.data[byte_idx];
    p.data.set(byte_idx, b ^ (1u8 << bit_idx));
}

/// Single-bit detection guarantee: flipping any single bit of the payload
/// flips the recomputed parity, so a packet whose parity was computed for
/// the original payload fails the integrity check after the flip. (Two-bit
/// corruption restores the parity and goes undetected.)
pub proof fn lemma_single_bit_flip_detected(p: PacketView, i: int, j: u8)
    requires
        packet_verifies(p),
        0 <= i < p.data.len(),
        j < 8,
    ensures
        !packet_verifies(
            (PacketView { data: p.data.update(i, flip_bit(p.data[i], j)), ..p }),
        ),
{
    lemma_flip_bit_parity(p.data[i], j);
    lemma_ones_count_update(p.data, i, flip_bit(p.data[i], j));
}

} // verus!
