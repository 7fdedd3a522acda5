use mcscrape::wire::{DecodeError, EncodeError, Packet};

const MAGIC: [u8; 16] = [
    0x00, 0xFF, 0xFF, 0x00, 0xFE, 0xFE, 0xFE, 0xFE, 0xFD, 0xFD, 0xFD, 0xFD, 0x12, 0x34, 0x56,
    0x78,
];

fn sample_ping() -> Packet {
    Packet::UnconnectedPing { elapsed_time: 0x0102030405060708, client_guid: 0x1122334455667788 }
}

fn sample_pong(user_data: &str) -> Packet {
    Packet::UnconnectedPong {
        elapsed_time: 7,
        server_guid: 0xDEADBEEF,
        user_data: user_data.to_string(),
    }
}

#[test]
fn ping_layout_is_exact() {
    let encoded = sample_ping().encode().unwrap();
    let mut expected = vec![0x01u8, 0x01, 0x02, 0x03, 0x04, 0x05, 0x06, 0x07, 0x08];
    expected.extend(MAGIC.iter().copied());
    expected.extend([0x11u8, 0x22, 0x33, 0x44, 0x55, 0x66, 0x77, 0x88]);
    assert_eq!(encoded, expected);
}

#[test]
fn pong_layout_is_exact() {
    let packet = Packet::UnconnectedPong {
        elapsed_time: 2,
        server_guid: 3,
        user_data: "AB".to_string(),
    };
    let encoded = packet.encode().unwrap();
    let mut expected = vec![0x1Cu8, 0, 0, 0, 0, 0, 0, 0, 2, 0, 0, 0, 0, 0, 0, 0, 3];
    expected.extend(MAGIC.iter().copied());
    expected.extend([0x00u8, 0x02]);
    expected.extend(*b"AB");
    assert_eq!(encoded, expected);
}

#[test]
fn ping_round_trip() {
    let packet = sample_ping();
    let encoded = packet.encode().unwrap();
    assert_eq!(Packet::decode(&encoded).unwrap(), packet);
}

#[test]
fn pong_round_trip() {
    let packet = sample_pong("MCPE;A name;419;1.19.1;5;20");
    let encoded = packet.encode().unwrap();
    assert_eq!(Packet::decode(&encoded).unwrap(), packet);
}

#[test]
fn pong_round_trip_empty_status() {
    let packet = sample_pong("");
    let encoded = packet.encode().unwrap();
    assert_eq!(Packet::decode(&encoded).unwrap(), packet);
}

#[test]
fn pong_round_trip_multibyte_status() {
    let packet = sample_pong("caf\u{e9};\u{4e16}\u{754c};x;y;3;4");
    let encoded = packet.encode().unwrap();
    assert_eq!(Packet::decode(&encoded).unwrap(), packet);
}

#[test]
fn encode_rejects_oversized_status() {
    let packet = sample_pong(&"x".repeat(0x10000));
    assert_eq!(packet.encode(), Err(EncodeError::StatusTooLong));
}

#[test]
fn encode_accepts_largest_status() {
    let packet = sample_pong(&"x".repeat(0xFFFF));
    let encoded = packet.encode().unwrap();
    assert_eq!(encoded.len(), 35 + 0xFFFF);
    assert_eq!(Packet::decode(&encoded).unwrap(), packet);
}

#[test]
fn ping_altered_magic_is_rejected() {
    let mut encoded = sample_ping().encode().unwrap();
    encoded[9] ^= 0x01;
    assert_eq!(Packet::decode(&encoded), Err(DecodeError::BadMagic));
}

#[test]
fn pong_altered_magic_is_rejected() {
    let mut encoded = sample_pong("MCPE;x;1;1;5;20").encode().unwrap();
    encoded[32] = 0x99;
    assert_eq!(Packet::decode(&encoded), Err(DecodeError::BadMagic));
}

#[test]
fn ping_every_strict_prefix_fails() {
    let encoded = sample_ping().encode().unwrap();
    for len in 0..encoded.len() {
        assert!(Packet::decode(&encoded[..len]).is_err(), "prefix {} decoded", len);
    }
}

#[test]
fn pong_every_strict_prefix_fails() {
    let encoded = sample_pong("MCPE;Server;123;1.19;5;20").encode().unwrap();
    for len in 0..encoded.len() {
        assert!(Packet::decode(&encoded[..len]).is_err(), "prefix {} decoded", len);
    }
}

#[test]
fn unknown_tag_is_rejected() {
    let encoded = sample_ping().encode().unwrap();
    for tag in [0x00u8, 0x02, 0x1B, 0x1D, 0xFF] {
        let mut altered = encoded.clone();
        altered[0] = tag;
        assert_eq!(
            Packet::decode(&altered),
            Err(DecodeError::UnexpectedVariant { found: tag })
        );
    }
}

#[test]
fn empty_buffer_is_rejected() {
    assert_eq!(Packet::decode(&[]), Err(DecodeError::UnexpectedEnd));
}

#[test]
fn pong_status_length_beyond_buffer_is_rejected() {
    let mut encoded = sample_pong("AB").encode().unwrap();
    // Declare three status bytes while only two follow.
    encoded[34] = 3;
    assert_eq!(Packet::decode(&encoded), Err(DecodeError::UnexpectedEnd));
}

#[test]
fn pong_invalid_utf8_is_rejected() {
    let mut encoded = sample_pong("AB").encode().unwrap();
    encoded[35] = 0xFF;
    assert_eq!(Packet::decode(&encoded), Err(DecodeError::InvalidUtf8));
}

#[test]
fn decode_ignores_trailing_bytes() {
    let packet = sample_ping();
    let mut encoded = packet.encode().unwrap();
    encoded.extend([0xAAu8, 0xBB]);
    assert_eq!(Packet::decode(&encoded).unwrap(), packet);
}
