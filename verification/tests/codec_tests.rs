use reliable_udp::codec::{
    decode_body, deserialize_packet, encode_body, encode_wire, serialize_packets,
    DeserializeError,
};
use reliable_udp::crc::crc32;
use reliable_udp::packets::{packet_eq, DisconnectReason, Packet, PendingPacket, ProtocolOpCode, Session};

fn test_session() -> Session {
    Session {
        session_id: 0x12345678,
        crc_length: 3,
        crc_seed: 0xDEADBEEF,
        allow_compression: false,
        use_encryption: false,
    }
}

fn compressing_session() -> Session {
    Session {
        session_id: 0x12345678,
        crc_length: 2,
        crc_seed: 0x01020304,
        allow_compression: true,
        use_encryption: false,
    }
}

fn all_variants() -> Vec<Packet> {
    vec![
        Packet::SessionRequest(3, 0xDEADBEEF, 512, String::from("LoginUdp_9")),
        Packet::SessionReply(0xDEADBEEF, 0xCAFEF00D, 3, false, false, 512, 3),
        Packet::Disconnect(7, DisconnectReason::Application),
        Packet::Heartbeat,
        Packet::NetStatusRequest(1, 2, 3, 4, 5, 6, 7, 8, 9),
        Packet::NetStatusReply(1, 2, 3, 4, 5, 6, 7),
        Packet::Data(0xFFFF, vec![1, 2, 3]),
        Packet::DataFragment(0, vec![9, 8, 7, 6]),
        Packet::Ack(42),
        Packet::AckAll(0x8000),
        Packet::UnknownSender,
        Packet::RemapConnection(11, 22),
    ]
}

#[test]
fn round_trip_every_variant_without_session() {
    for p in all_variants() {
        let wire = encode_wire(&p, &None);
        let decoded = deserialize_packet(&wire, &None).expect("decode");
        assert_eq!(decoded.len(), 1);
        assert!(packet_eq(&decoded[0], &p));
    }
}

#[test]
fn round_trip_every_variant_with_session() {
    let session = Some(test_session());
    for p in all_variants() {
        let wire = encode_wire(&p, &session);
        let decoded = deserialize_packet(&wire, &session).expect("decode");
        assert_eq!(decoded.len(), 1);
        assert!(packet_eq(&decoded[0], &p));
    }
}

#[test]
fn round_trip_with_compression_flag() {
    let session = Some(compressing_session());
    for p in all_variants() {
        let wire = encode_wire(&p, &session);
        let decoded = deserialize_packet(&wire, &session).expect("decode");
        assert_eq!(decoded.len(), 1);
        assert!(packet_eq(&decoded[0], &p));
    }
}

#[test]
fn compressed_flag_is_rejected() {
    let session = Some(compressing_session());
    // Build a heartbeat by hand with the flag byte set to 1.
    let mut body = vec![0x00, 0x06, 0x01];
    let crc = crc32(0x01020304, &body);
    body.push(((crc >> 8) & 0xFF) as u8);
    body.push((crc & 0xFF) as u8);
    assert!(matches!(
        deserialize_packet(&body, &session),
        Err(DeserializeError::DecompressionError)
    ));
}

#[test]
fn crc_mismatch_is_rejected() {
    let session = Some(test_session());
    let mut wire = encode_wire(&Packet::Heartbeat, &session);
    let last = wire.len() - 1;
    wire[last] ^= 0xFF;
    assert!(matches!(
        deserialize_packet(&wire, &session),
        Err(DeserializeError::CrcError)
    ));
}

#[test]
fn truncated_and_unknown_opcode_are_rejected() {
    assert!(matches!(
        deserialize_packet(&vec![0x00], &None),
        Err(DeserializeError::TruncatedPacket)
    ));
    assert!(matches!(
        deserialize_packet(&vec![0x00, 0x42], &None),
        Err(DeserializeError::UnknownOpCode)
    ));
    // An Ack body must be exactly two bytes.
    assert!(matches!(
        deserialize_packet(&vec![0x00, 0x11, 0x01], &None),
        Err(DeserializeError::TruncatedPacket)
    ));
}

#[test]
fn heartbeat_wire_bytes_are_pinned() {
    let wire = encode_wire(&Packet::Heartbeat, &None);
    assert_eq!(wire, vec![0x00, 0x06]);
    let wire = encode_wire(&Packet::Ack(0x1234), &None);
    assert_eq!(wire, vec![0x00, 0x11, 0x12, 0x34]);
}

#[test]
fn session_request_body_layout_is_pinned() {
    let p = Packet::SessionRequest(3, 0xDEADBEEF, 512, String::from("Hi"));
    let body = encode_body(&p);
    assert_eq!(
        body,
        vec![
            0x00, 0x01, // opcode
            0x00, 0x00, 0x00, 0x03, // protocol version
            0xDE, 0xAD, 0xBE, 0xEF, // session id
            0x00, 0x00, 0x02, 0x00, // buffer size
            0x00, 0x00, 0x00, 0x02, // name length
            b'H', b'i',
        ]
    );
    let back = decode_body(&body).expect("decode");
    assert!(packet_eq(&back, &p));
}

#[test]
fn crc_variant_is_pinned() {
    // The reflected polynomial 0xEDB88320, seeded directly, no final
    // complement.  Seeding with all ones therefore matches the common
    // CRC-32 up to the final complement.
    let data: Vec<u8> = b"123456789".to_vec();
    assert_eq!(crc32(0xFFFF_FFFF, &data), !0xCBF4_3926u32);
    assert_eq!(crc32(7, &Vec::new()), 7);
}

#[test]
fn multi_packet_expands_to_sub_packets() {
    let session = Some(test_session());
    let queue = vec![
        PendingPacket::new(Packet::Ack(1)),
        PendingPacket::new(Packet::Ack(2)),
        PendingPacket::new(Packet::Heartbeat),
    ];
    let out = serialize_packets(&queue, 3, 512, &session).expect("serialize");
    // Three tiny packets coalesce into one multi-packet datagram.
    assert_eq!(out.len(), 1);
    let decoded = deserialize_packet(&out[0], &session).expect("decode");
    assert_eq!(decoded.len(), 3);
    assert!(packet_eq(&decoded[0], &Packet::Ack(1)));
    assert!(packet_eq(&decoded[1], &Packet::Ack(2)));
    assert!(packet_eq(&decoded[2], &Packet::Heartbeat));
}

#[test]
fn multi_packet_sub_length_at_boundary() {
    // One sub-packet encoding shorter than 0xFF bytes and one at least
    // 0xFF bytes take the 1-byte and 3-byte length forms respectively;
    // both round-trip through one datagram.
    let session = Some(test_session());
    let small = Packet::Data(1, vec![0xAA; 10]);
    let large = Packet::Data(2, vec![0xBB; 300]);
    let exact = Packet::Data(3, vec![0xCC; 0xFF - 4]);
    let queue = vec![
        PendingPacket::new(small.clone()),
        PendingPacket::new(large.clone()),
        PendingPacket::new(exact.clone()),
    ];
    let out = serialize_packets(&queue, 3, 2048, &session).expect("serialize");
    let mut decoded = Vec::new();
    for datagram in &out {
        decoded.extend(deserialize_packet(datagram, &session).expect("decode"));
    }
    assert_eq!(decoded.len(), 3);
    assert!(packet_eq(&decoded[0], &small));
    assert!(packet_eq(&decoded[1], &large));
    assert!(packet_eq(&decoded[2], &exact));
}

#[test]
fn oversized_packet_is_refused() {
    let queue = vec![PendingPacket::new(Packet::Data(1, vec![0; 600]))];
    assert!(serialize_packets(&queue, 1, 512, &None).is_err());
    assert!(serialize_packets(&queue, 1, 700, &None).is_ok());
}

#[test]
fn serialize_respects_buffer_size() {
    let session = Some(test_session());
    let queue = vec![
        PendingPacket::new(Packet::Data(1, vec![0xAA; 200])),
        PendingPacket::new(Packet::Data(2, vec![0xBB; 200])),
        PendingPacket::new(Packet::Data(3, vec![0xCC; 200])),
    ];
    let out = serialize_packets(&queue, 3, 512, &session).expect("serialize");
    for datagram in &out {
        assert!(datagram.len() <= 512);
    }
    let mut decoded = Vec::new();
    for datagram in &out {
        decoded.extend(deserialize_packet(datagram, &session).expect("decode"));
    }
    assert_eq!(decoded.len(), 3);
}

#[test]
fn opcode_values_match_the_wire_table() {
    assert_eq!(ProtocolOpCode::SessionRequest.value(), 0x01);
    assert_eq!(ProtocolOpCode::SessionReply.value(), 0x02);
    assert_eq!(ProtocolOpCode::MultiPacket.value(), 0x03);
    assert_eq!(ProtocolOpCode::Disconnect.value(), 0x05);
    assert_eq!(ProtocolOpCode::Heartbeat.value(), 0x06);
    assert_eq!(ProtocolOpCode::NetStatusRequest.value(), 0x07);
    assert_eq!(ProtocolOpCode::NetStatusReply.value(), 0x08);
    assert_eq!(ProtocolOpCode::Data.value(), 0x09);
    assert_eq!(ProtocolOpCode::DataFragment.value(), 0x0D);
    assert_eq!(ProtocolOpCode::Ack.value(), 0x11);
    assert_eq!(ProtocolOpCode::AckAll.value(), 0x15);
    assert_eq!(ProtocolOpCode::UnknownSender.value(), 0x1D);
    assert_eq!(ProtocolOpCode::RemapConnection.value(), 0x1E);
    assert_eq!(DisconnectReason::ProtocolMismatch.value(), 16);
    assert_eq!(
        DisconnectReason::from_value(9),
        Some(DisconnectReason::NewConnectionAttempt)
    );
    assert_eq!(DisconnectReason::from_value(17), None);
    assert!(ProtocolOpCode::Data.requires_session());
    assert!(!ProtocolOpCode::SessionRequest.requires_session());
}
