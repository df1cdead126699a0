use hdstp::codec::{
    bytes_to_u32, check_parity, decode, encode, kind_code, parse_kind, u32_to_be_bytes, verify,
    Packet, PacketType,
};
use hdstp::errors::FrameError;

#[test]
fn parity_of_empty_payload_is_zero() {
    assert_eq!(check_parity(&[]), 0x00);
}

#[test]
fn parity_counts_set_bits() {
    // 0b0000_0001 has one set bit: odd.
    assert_eq!(check_parity(&[0x01]), 0xFF);
    // 0b0000_0011 has two set bits: even.
    assert_eq!(check_parity(&[0x03]), 0x00);
    // 1 + 2 set bits across two bytes: odd.
    assert_eq!(check_parity(&[0x01, 0x03]), 0xFF);
    assert_eq!(check_parity(&[0xFF]), 0x00);
    assert_eq!(check_parity(&[0xFF, 0x01]), 0xFF);
}

#[test]
fn kind_codes_match_the_wire_table() {
    assert_eq!(kind_code(PacketType::Data), 0b0001);
    assert_eq!(kind_code(PacketType::Retransmission), 0b0010);
    assert_eq!(kind_code(PacketType::Syn), 0b1000);
    assert_eq!(kind_code(PacketType::SynAck), 0b1001);
    assert_eq!(kind_code(PacketType::Ack), 0b1010);
    assert_eq!(kind_code(PacketType::Nak), 0b1011);
    assert_eq!(kind_code(PacketType::Fin), 0b1100);
    assert_eq!(kind_code(PacketType::Rst), 0b1101);
    assert_eq!(parse_kind(0b1001), Some(PacketType::SynAck));
    assert_eq!(parse_kind(0b0111), None);
}

#[test]
fn encode_writes_the_documented_frame() {
    let payload = vec![0xAB, 0xCD];
    let frame = encode(PacketType::Data, 0x01020304, &payload);
    // 4-byte big-endian length (9 + 2), kind, 4-byte sequence, payload,
    // parity (0xAB and 0xCD hold five set bits each: even total).
    assert_eq!(
        frame,
        vec![0x00, 0x00, 0x00, 0x0B, 0x01, 0x01, 0x02, 0x03, 0x04, 0xAB, 0xCD, 0x00]
    );
}

#[test]
fn decode_encode_round_trips() {
    for (kind, seq, payload) in [
        (PacketType::Data, 0u32, b"".to_vec()),
        (PacketType::Syn, 42, b"hello".to_vec()),
        (PacketType::SynAck, u32::MAX, vec![0u8; 33]),
        (PacketType::Rst, 7, vec![0xFF, 0x00, 0x7F]),
    ] {
        let frame = encode(kind, seq, &payload);
        let packet = decode(&frame).unwrap();
        assert_eq!(packet.packet_type, kind);
        assert_eq!(packet.sequence_no, seq);
        assert_eq!(packet.data, payload);
        assert!(verify(&packet));
    }
}

#[test]
fn decode_rejects_short_input() {
    assert_eq!(decode(&vec![0x00, 0x00, 0x00]), Err(FrameError::Truncated));
    assert_eq!(decode(&Vec::new()), Err(FrameError::Truncated));
}

#[test]
fn decode_rejects_wrong_length() {
    let mut frame = encode(PacketType::Ack, 1, &Vec::new());
    frame.push(0x00); // one byte too many for the declared length
    assert_eq!(decode(&frame), Err(FrameError::LengthMismatch));
}

#[test]
fn decode_rejects_unknown_kind() {
    let mut frame = encode(PacketType::Ack, 1, &Vec::new());
    frame[4] = 0b0111;
    assert_eq!(decode(&frame), Err(FrameError::UnknownKind));
}

#[test]
fn verify_detects_single_bit_flip() {
    let payload = b"Hello, this is a test file transfer!".to_vec();
    let clean = Packet::new(PacketType::Data, 5, payload.clone());
    assert!(verify(&clean));
    // Flip every single bit in turn: each flip must be detected.
    for byte in 0..payload.len() {
        for bit in 0..8 {
            let mut corrupted = Packet::new(PacketType::Data, 5, payload.clone());
            corrupted.data[byte] ^= 1 << bit;
            assert!(!verify(&corrupted), "flip at byte {byte} bit {bit} went undetected");
        }
    }
}

#[test]
fn verify_misses_a_two_bit_flip() {
    // The documented weakness: two flipped bits restore the parity.
    let mut packet = Packet::new(PacketType::Data, 5, vec![0x00, 0x00]);
    packet.data[0] ^= 0b0000_0011;
    assert!(verify(&packet));
}

#[test]
fn bytes_to_u32_reads_big_endian() {
    let bytes = vec![0xDE, 0xAD, 0xBE, 0xEF, 0x01];
    assert_eq!(bytes_to_u32(&bytes, 0), Ok(0xDEADBEEF));
    assert_eq!(bytes_to_u32(&bytes, 1), Ok(0xADBEEF01));
    assert_eq!(bytes_to_u32(&bytes, 2), Err(FrameError::Truncated));
}

#[test]
fn u32_to_be_bytes_round_trips() {
    let bytes = u32_to_be_bytes(0x01020304);
    assert_eq!(bytes, vec![0x01, 0x02, 0x03, 0x04]);
    assert_eq!(bytes_to_u32(&bytes, 0), Ok(0x01020304));
}

#[test]
fn packet_new_derives_length_and_parity() {
    let packet = Packet::new(PacketType::Data, 9, vec![0x01, 0x02, 0x03]);
    assert_eq!(packet.length, 12);
    assert_eq!(packet.parity, check_parity(&[0x01, 0x02, 0x03]));
}
