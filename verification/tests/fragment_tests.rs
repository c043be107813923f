use reliable_udp::packets::{packet_eq, Packet, Session};
use reliable_udp::reliable_data::{
    bundle_reliable_data, fragment_data, unbundle_reliable_data, DataPacket, FragmentError,
    FragmentState,
};

fn test_session() -> Session {
    Session {
        session_id: 1,
        crc_length: 3,
        crc_seed: 0,
        allow_compression: false,
        use_encryption: false,
    }
}

#[test]
fn small_payload_stays_single() {
    let out = fragment_data(512, &None, vec![1, 2, 3]).expect("fragment");
    assert_eq!(out.len(), 1);
    match &out[0] {
        DataPacket::Single(payload) => assert_eq!(payload, &vec![1, 2, 3]),
        DataPacket::Fragment(_) => panic!("expected a single"),
    }
}

#[test]
fn fragmented_send_matches_the_declared_total() {
    // With a 512-byte buffer and a session of 3 CRC bytes the envelope is
    // 2 + 2 + 3 + 1 = 8 bytes, so 504 bytes of each fragment are usable.
    let payload: Vec<u8> = (0..1500u32).map(|i| (i % 251) as u8).collect();
    let out = fragment_data(512, &Some(test_session()), payload.clone()).expect("fragment");
    assert_eq!(out.len(), 3);
    let mut rebuilt = Vec::new();
    for (i, chunk) in out.iter().enumerate() {
        match chunk {
            DataPacket::Fragment(bytes) => {
                if i == 0 {
                    // 4-byte big-endian total size: 1500 = 0x05DC.
                    assert_eq!(&bytes[0..4], &[0, 0, 5, 220]);
                    assert_eq!(bytes.len(), 504);
                    rebuilt.extend_from_slice(&bytes[4..]);
                } else {
                    rebuilt.extend_from_slice(bytes);
                }
            }
            DataPacket::Single(_) => panic!("expected fragments"),
        }
    }
    assert_eq!(rebuilt, payload);
}

#[test]
fn fragment_count_is_the_ceiling() {
    // 1000 bytes over 504-byte chunks: the 4-byte total steals from the
    // first chunk, so the run is 500 + 500 bytes: ceil(1000 / 504) = 2.
    let payload = vec![7u8; 1000];
    let out = fragment_data(512, &Some(test_session()), payload).expect("fragment");
    assert_eq!(out.len(), 2);
}

#[test]
fn buffer_too_small_is_refused() {
    assert!(fragment_data(5, &None, vec![1, 2, 3]).is_err());
    // 6 bytes leaves one usable byte: a tiny payload fits…
    assert!(fragment_data(6, &None, vec![1]).is_ok());
    // …but fragmenting would need the 4-byte total beside a payload byte.
    assert!(fragment_data(6, &None, vec![1, 2]).is_err());
}

#[test]
fn reassembler_joins_a_fragment_run() {
    let mut state = FragmentState::new();
    // Total size 6, split 2 + 2 + 2.
    let first = Packet::DataFragment(10, vec![0, 0, 0, 6, 1, 2]);
    let second = Packet::DataFragment(11, vec![3, 4]);
    let third = Packet::DataFragment(12, vec![5, 6]);
    assert!(matches!(state.add(first), Ok(None)));
    assert!(matches!(state.add(second), Ok(None)));
    match state.add(third) {
        Ok(Some(Packet::Data(seq, payload))) => {
            assert_eq!(seq, 10);
            assert_eq!(payload, vec![1, 2, 3, 4, 5, 6]);
        }
        other => panic!("unexpected outcome: {:?}", other),
    }
    assert!(!state.active);
}

#[test]
fn final_chunk_exactly_fills_the_total() {
    let mut state = FragmentState::new();
    let first = Packet::DataFragment(0, vec![0, 0, 0, 4, 9, 9]);
    assert!(matches!(state.add(first), Ok(None)));
    // These two bytes land exactly on the declared total.
    match state.add(Packet::DataFragment(1, vec![8, 8])) {
        Ok(Some(Packet::Data(0, payload))) => assert_eq!(payload, vec![9, 9, 8, 8]),
        other => panic!("unexpected outcome: {:?}", other),
    }
}

#[test]
fn single_fragment_that_fills_its_total_is_emitted_at_once() {
    let mut state = FragmentState::new();
    match state.add(Packet::DataFragment(5, vec![0, 0, 0, 2, 1, 2])) {
        Ok(Some(Packet::Data(5, payload))) => assert_eq!(payload, vec![1, 2]),
        other => panic!("unexpected outcome: {:?}", other),
    }
}

#[test]
fn fragment_overflow_is_fatal() {
    let mut state = FragmentState::new();
    assert!(matches!(
        state.add(Packet::DataFragment(0, vec![0, 0, 0, 3, 1, 2])),
        Ok(None)
    ));
    assert!(matches!(
        state.add(Packet::DataFragment(1, vec![3, 4])),
        Err(FragmentError::FragmentOverflow)
    ));
}

#[test]
fn whole_data_during_a_run_is_fatal() {
    let mut state = FragmentState::new();
    assert!(matches!(
        state.add(Packet::DataFragment(0, vec![0, 0, 0, 9, 1])),
        Ok(None)
    ));
    assert!(matches!(
        state.add(Packet::Data(1, vec![1])),
        Err(FragmentError::FragmentInterleaved)
    ));
}

#[test]
fn short_first_fragment_is_fatal() {
    let mut state = FragmentState::new();
    assert!(matches!(
        state.add(Packet::DataFragment(0, vec![0, 0])),
        Err(FragmentError::FragmentTruncated)
    ));
}

#[test]
fn non_sequenced_packets_pass_through() {
    let mut state = FragmentState::new();
    match state.add(Packet::Heartbeat) {
        Ok(Some(p)) => assert!(packet_eq(&p, &Packet::Heartbeat)),
        other => panic!("unexpected outcome: {:?}", other),
    }
}

#[test]
fn bundle_round_trip() {
    let items = vec![vec![1u8, 2, 3], vec![], vec![9u8; 40]];
    let bundled = bundle_reliable_data(&items);
    assert_eq!(&bundled[0..2], &[0x00, 0x19]);
    let back = unbundle_reliable_data(&bundled).expect("unbundle");
    assert_eq!(back, items);
}

#[test]
fn bundle_length_boundary() {
    // An item shorter than 0xFF bytes takes a 1-byte prefix; one of 0xFF
    // bytes or more takes the 3-byte form.
    let items = vec![vec![5u8; 0xFE], vec![6u8; 0xFF], vec![7u8; 300]];
    let bundled = bundle_reliable_data(&items);
    assert_eq!(bundled[2], 0xFE);
    assert_eq!(bundled[2 + 1 + 0xFE], 0xFF);
    let back = unbundle_reliable_data(&bundled).expect("unbundle");
    assert_eq!(back, items);
}

#[test]
fn non_bundled_payload_decodes_to_itself() {
    let payload = vec![42u8, 1, 2, 3];
    let back = unbundle_reliable_data(&payload).expect("unbundle");
    assert_eq!(back, vec![payload]);
    let empty: Vec<u8> = Vec::new();
    assert_eq!(unbundle_reliable_data(&empty).expect("unbundle"), vec![empty]);
}

#[test]
fn malformed_bundle_is_rejected() {
    // Sentinel followed by a length that overruns the remaining bytes.
    let bad = vec![0x00, 0x19, 0x05, 1, 2];
    assert!(unbundle_reliable_data(&bad).is_err());
}
