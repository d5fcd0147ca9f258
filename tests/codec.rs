use rcon_client::codec::{decode_header, decode_packet, encode_packet, read_le, Header};
use rcon_client::error::RconError;

#[test]
fn encode_login_packet_bytes() {
    let bytes = encode_packet(1, 3, "secret".as_bytes());
    let expected: Vec<u8> = vec![
        16, 0, 0, 0, 1, 0, 0, 0, 3, 0, 0, 0, b's', b'e', b'c', b'r', b'e', b't', 0, 0,
    ];
    assert_eq!(bytes, expected);
}

#[test]
fn encode_empty_payload() {
    let bytes = encode_packet(7, 2, &[]);
    assert_eq!(bytes, vec![10, 0, 0, 0, 7, 0, 0, 0, 2, 0, 0, 0, 0, 0]);
}

#[test]
fn encode_negative_id_is_twos_complement() {
    let bytes = encode_packet(-1, 0, &[]);
    assert_eq!(&bytes[4..8], &[255, 255, 255, 255]);
    let bytes = encode_packet(0x01020304, -2, b"a");
    assert_eq!(&bytes[4..12], &[4, 3, 2, 1, 254, 255, 255, 255]);
}

#[test]
fn length_field_counts_bytes_after_it() {
    let payload = b"list players";
    let bytes = encode_packet(5, 2, payload);
    let length = read_le(&bytes, 0);
    assert_eq!(length, 4 + 4 + payload.len() as i32 + 2);
    assert_eq!(bytes.len(), 4 + length as usize);
}

#[test]
fn decode_header_reads_three_fields() {
    let bytes = encode_packet(42, 2, b"hello");
    assert_eq!(decode_header(&bytes), Ok(Header { length: 15, id: 42, kind: 2 }));
}

#[test]
fn decode_header_needs_twelve_bytes() {
    assert_eq!(decode_header(&[1, 0, 0, 0, 2, 0, 0, 0, 3, 0, 0]), Err(RconError::MalformedHeader));
    assert_eq!(decode_header(&[]), Err(RconError::MalformedHeader));
}

#[test]
fn decode_round_trip() {
    for (id, kind, payload) in [
        (1, 3, "secret"),
        (-1, 2, ""),
        (i32::MAX, 0, "give @a cooked_porkchop"),
        (i32::MIN, -7, "\u{e9}t\u{e9}"),
    ] {
        let bytes = encode_packet(id, kind, payload.as_bytes());
        let packet = decode_packet(&bytes).unwrap();
        assert_eq!(packet.id, id);
        assert_eq!(packet.kind, kind);
        assert_eq!(packet.payload, payload.as_bytes().to_vec());
    }
}

#[test]
fn decode_rejects_inconsistent_length() {
    let mut bytes = encode_packet(1, 0, b"abc");
    bytes[0] = 200;
    assert!(matches!(decode_packet(&bytes), Err(RconError::MalformedHeader)));
    let short = vec![9, 0, 0, 0, 1, 0, 0, 0, 0, 0, 0, 0];
    assert!(matches!(decode_packet(&short), Err(RconError::MalformedHeader)));
    assert!(matches!(decode_packet(&[16, 0, 0]), Err(RconError::MalformedHeader)));
}
