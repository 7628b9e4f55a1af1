use virtusdev::essp_protocol::{
    stuff_bytes, unstuff_bytes, DecodeError, EsspPacket, CMD_SYNC, STX,
};

#[test]
fn test_byte_stuffing() {
    let data = vec![0x01, 0x7F, 0x02, 0x7F, 0x7F, 0x03];
    let stuffed = stuff_bytes(&data);
    assert_eq!(stuffed, vec![0x01, 0x7F, 0x7F, 0x02, 0x7F, 0x7F, 0x7F, 0x7F, 0x03]);
}

#[test]
fn test_byte_unstuffing() {
    let stuffed = vec![0x01, 0x7F, 0x7F, 0x02, 0x7F, 0x7F, 0x7F, 0x7F, 0x03];
    let unstuffed = unstuff_bytes(&stuffed);
    assert_eq!(unstuffed, vec![0x01, 0x7F, 0x02, 0x7F, 0x7F, 0x03]);
}

#[test]
fn test_packet_roundtrip() {
    let original = EsspPacket::new(42, vec![CMD_SYNC]);
    let bytes = original.to_bytes();
    let (parsed, consumed) = EsspPacket::from_bytes(&bytes).unwrap();
    assert_eq!(consumed, bytes.len());
    assert_eq!(parsed.sequence, original.sequence);
    assert_eq!(parsed.data, original.data);
}

#[test]
fn test_packet_with_stx_in_data() {
    let original = EsspPacket::new(10, vec![0x05, 0x7F, 0x10, 0x7F]);
    let bytes = original.to_bytes();
    let (parsed, _) = EsspPacket::from_bytes(&bytes).unwrap();
    assert_eq!(parsed.data, original.data);
}

#[test]
fn roundtrip_with_consecutive_stx_bytes() {
    // Consecutive STX bytes are each stuffed independently.
    let original = EsspPacket::new(1, vec![0x7F, 0x7F, 0x7F]);
    let bytes = original.to_bytes();
    // STX, seq, len, 6 stuffed bytes, 2 CRC bytes
    assert_eq!(bytes.len(), 3 + 6 + 2);
    assert_eq!(bytes[2], 6);
    let (parsed, consumed) = EsspPacket::from_bytes(&bytes).unwrap();
    assert_eq!(consumed, bytes.len());
    assert_eq!(parsed.data, vec![0x7F, 0x7F, 0x7F]);
}

#[test]
fn roundtrip_at_maximum_stuffed_length() {
    // 127 STX bytes stuff to 254 bytes; one more plain byte reaches the
    // 255-byte cap of the one-byte length field exactly.
    let mut payload = vec![0x7Fu8; 127];
    payload.push(0x42);
    let original = EsspPacket::new(9, payload.clone());
    let bytes = original.to_bytes();
    assert_eq!(bytes[2], 255);
    assert_eq!(bytes.len(), 255 + 5);
    let (parsed, consumed) = EsspPacket::from_bytes(&bytes).unwrap();
    assert_eq!(consumed, bytes.len());
    assert_eq!(parsed.data, payload);
}

#[test]
fn decode_too_short() {
    assert_eq!(
        EsspPacket::from_bytes(&[STX, 0x01, 0x00, 0xAA]).unwrap_err(),
        DecodeError::TooShort
    );
    assert_eq!(EsspPacket::from_bytes(&[]).unwrap_err(), DecodeError::TooShort);
}

#[test]
fn decode_framing_error() {
    assert_eq!(
        EsspPacket::from_bytes(&[0x00, 0x01, 0x01, 0x11, 0xAA, 0xBB]).unwrap_err(),
        DecodeError::FramingError
    );
}

#[test]
fn decode_incomplete() {
    let mut bytes = EsspPacket::new(1, vec![0x11, 0x22]).to_bytes();
    bytes.pop();
    assert_eq!(EsspPacket::from_bytes(&bytes).unwrap_err(), DecodeError::Incomplete);
}

#[test]
fn decode_crc_mismatch() {
    let mut bytes = EsspPacket::new(1, vec![0x11]).to_bytes();
    let last = bytes.len() - 1;
    bytes[last] ^= 0xFF;
    assert_eq!(EsspPacket::from_bytes(&bytes).unwrap_err(), DecodeError::CrcMismatch);
}

#[test]
fn any_single_bit_flip_fails_decode() {
    let bytes = EsspPacket::new(7, vec![0x05, 0x7F, 0x10]).to_bytes();
    for i in 0..bytes.len() {
        for bit in 0..8 {
            let mut corrupted = bytes.clone();
            corrupted[i] ^= 1u8 << bit;
            let result = EsspPacket::from_bytes(&corrupted);
            assert!(result.is_err(), "flip of bit {} in byte {} decoded", bit, i);
            if i == 0 {
                // The start marker itself is corrupted.
                assert_eq!(result.unwrap_err(), DecodeError::FramingError);
            } else if i != 2 {
                // Any corruption of the frame body or of the checksum is a
                // CRC mismatch; a corrupted length byte (i == 2) may also
                // surface as an incomplete frame.
                assert_eq!(result.unwrap_err(), DecodeError::CrcMismatch);
            }
        }
    }
}

#[test]
fn crc_bytes_match_reference_checksum() {
    // The trailing CRC must match an independent computation with the same
    // parameters (polynomial 0x8005, init 0xFFFF, no reflection).
    let bytes = EsspPacket::new(0x80, vec![0x11]).to_bytes();
    let body = &bytes[1..bytes.len() - 2];
    let crc = crc::Crc::<u16>::new(&crc::CRC_16_CMS).checksum(body);
    assert_eq!(bytes[bytes.len() - 2], (crc & 0xFF) as u8);
    assert_eq!(bytes[bytes.len() - 1], (crc >> 8) as u8);
}
