use reliable_udp::channel::Channel;
use reliable_udp::codec::{deserialize_packet, encode_wire};
use reliable_udp::packets::{packet_eq, Packet, Session};

fn handshake(channel: &mut Channel) -> Session {
    let request = Packet::SessionRequest(3, 0xDEADBEEF, 512, String::from("LoginUdp_9"));
    let wire = encode_wire(&request, &None);
    assert_eq!(channel.receive(&wire), Ok(1));
    let delivered = channel.process_next(1).expect("handshake");
    assert!(delivered.is_empty());
    channel.session.expect("session open")
}

#[test]
fn handshake_opens_the_session_and_queues_the_reply() {
    let mut channel = Channel::new(512, 100);
    assert!(channel.session.is_none());
    let session = handshake(&mut channel);
    assert_eq!(session.session_id, 0xDEADBEEF);
    assert_eq!(session.crc_length, 3);
    assert!(!session.allow_compression);
    assert!(!session.use_encryption);
    assert_eq!(channel.buffer_size, 512);
    // The queued reply echoes the session and the fresh seed.
    assert_eq!(channel.send_queue.len(), 1);
    let expected = Packet::SessionReply(0xDEADBEEF, session.crc_seed, 3, false, false, 512, 3);
    assert!(channel.send_queue[0].needs_send);
    assert!(packet_eq(&channel.send_queue[0].packet, &expected));
    // The reply goes out as one decodable datagram.
    let out = channel.send_next(10).expect("send");
    assert_eq!(out.len(), 1);
    let decoded = deserialize_packet(&out[0], &Some(session)).expect("decode");
    assert_eq!(decoded.len(), 1);
    assert!(packet_eq(&decoded[0], &expected));
}

#[test]
fn mismatched_protocol_version_draws_a_disconnect() {
    let mut channel = Channel::new(512, 100);
    let request = Packet::SessionRequest(2, 0xDEADBEEF, 512, String::from("LoginUdp_9"));
    let wire = encode_wire(&request, &None);
    assert_eq!(channel.receive(&wire), Ok(1));
    let delivered = channel.process_next(1).expect("process");
    assert!(delivered.is_empty());
    assert!(channel.session.is_none());
    assert_eq!(channel.send_queue.len(), 1);
    assert!(packet_eq(
        &channel.send_queue[0].packet,
        &Packet::Disconnect(
            0xDEADBEEF,
            reliable_udp::packets::DisconnectReason::ProtocolMismatch
        )
    ));
}

#[test]
fn packets_needing_a_session_are_dropped_before_handshake() {
    let mut channel = Channel::new(512, 100);
    let wire = encode_wire(&Packet::Data(0, vec![1, 2]), &None);
    assert_eq!(channel.receive(&wire), Ok(0));
    assert!(channel.receive_queue.is_empty());
}

#[test]
fn in_order_data_is_delivered_and_acknowledged() {
    let mut channel = Channel::new(512, 100);
    let session = Some(handshake(&mut channel));
    let before = channel.send_queue.len();
    let first = encode_wire(&Packet::Data(0, b"AB".to_vec()), &session);
    let second = encode_wire(&Packet::Data(1, b"CD".to_vec()), &session);
    assert_eq!(channel.receive(&first), Ok(1));
    assert_eq!(channel.receive(&second), Ok(1));
    let delivered = channel.process_next(2).expect("process");
    assert_eq!(delivered, vec![b"AB".to_vec(), b"CD".to_vec()]);
    // One cumulative acknowledgement for the batch.
    assert_eq!(channel.send_queue.len(), before + 1);
    assert!(packet_eq(
        &channel.send_queue[before].packet,
        &Packet::AckAll(1)
    ));
    assert_eq!(channel.next_client_sequence, 2);
}

#[test]
fn reordered_data_is_delivered_in_sender_order() {
    let mut channel = Channel::new(512, 100);
    let session = Some(handshake(&mut channel));
    let before = channel.send_queue.len();
    let second = encode_wire(&Packet::Data(1, b"CD".to_vec()), &session);
    let first = encode_wire(&Packet::Data(0, b"AB".to_vec()), &session);
    assert_eq!(channel.receive(&second), Ok(1));
    assert_eq!(channel.receive(&first), Ok(1));
    let delivered = channel.process_next(2).expect("process");
    assert_eq!(delivered, vec![b"AB".to_vec(), b"CD".to_vec()]);
    // The out-of-order arrival was acknowledged alone, then the batch.
    assert_eq!(channel.send_queue.len(), before + 2);
    assert!(packet_eq(&channel.send_queue[before].packet, &Packet::Ack(1)));
    assert!(packet_eq(
        &channel.send_queue[before + 1].packet,
        &Packet::AckAll(1)
    ));
    assert!(channel.reordered_packets.is_empty());
}

#[test]
fn duplicate_sequenced_packet_is_delivered_once_and_acknowledged() {
    let mut channel = Channel::new(512, 100);
    let session = Some(handshake(&mut channel));
    let before = channel.send_queue.len();
    let late = encode_wire(&Packet::Data(1, b"XY".to_vec()), &session);
    assert_eq!(channel.receive(&late), Ok(1));
    assert_eq!(channel.receive(&late), Ok(1));
    let first = encode_wire(&Packet::Data(0, b"AB".to_vec()), &session);
    assert_eq!(channel.receive(&first), Ok(1));
    let delivered = channel.process_next(3).expect("process");
    // Exactly one delivery of each payload, in sender order.
    assert_eq!(delivered, vec![b"AB".to_vec(), b"XY".to_vec()]);
    // Both out-of-order arrivals drew an Ack(1).
    assert!(packet_eq(&channel.send_queue[before].packet, &Packet::Ack(1)));
    assert!(packet_eq(
        &channel.send_queue[before + 1].packet,
        &Packet::Ack(1)
    ));
    assert!(packet_eq(
        &channel.send_queue[before + 2].packet,
        &Packet::AckAll(1)
    ));
}

#[test]
fn fragmented_send_queues_sequenced_fragments() {
    let mut channel = Channel::new(512, 100);
    handshake(&mut channel);
    let before = channel.send_queue.len();
    let payload: Vec<u8> = (0..1500u32).map(|i| (i % 256) as u8).collect();
    channel.send_data(payload.clone());
    assert_eq!(channel.send_queue.len(), before + 3);
    match &channel.send_queue[before].packet {
        Packet::DataFragment(seq, bytes) => {
            assert_eq!(*seq, 0);
            assert_eq!(&bytes[0..4], &[0, 0, 5, 220]);
        }
        other => panic!("expected a fragment, got {:?}", other),
    }
    let mut rebuilt = Vec::new();
    for i in 0..3 {
        match &channel.send_queue[before + i].packet {
            Packet::DataFragment(seq, bytes) => {
                assert_eq!(*seq, i as u16);
                rebuilt.extend_from_slice(if i == 0 { &bytes[4..] } else { &bytes[..] });
            }
            other => panic!("expected a fragment, got {:?}", other),
        }
    }
    assert_eq!(rebuilt, payload);
}

#[test]
fn ack_all_retires_exactly_the_window() {
    let mut channel = Channel::new(512, 100);
    let session = handshake(&mut channel);
    channel.send_next(10).expect("drain the reply");
    channel.send_next(0).expect("purge the dispatched reply");
    channel.next_server_sequence = 10;
    for i in 0..5u8 {
        channel.send_data(vec![i]);
    }
    assert_eq!(channel.send_queue.len(), 5);
    channel.next_server_sequence = 15;
    let ack = encode_wire(&Packet::AckAll(12), &Some(session));
    assert_eq!(channel.receive(&ack), Ok(1));
    channel.process_next(1).expect("process");
    let flags: Vec<bool> = channel.send_queue.iter().map(|e| e.needs_send).collect();
    assert_eq!(flags, vec![false, false, false, true, true]);
}

#[test]
fn single_ack_retires_one_entry() {
    let mut channel = Channel::new(512, 100);
    let session = handshake(&mut channel);
    channel.send_next(10).expect("drain the reply");
    channel.send_next(0).expect("purge the dispatched reply");
    channel.send_data(vec![1]);
    channel.send_data(vec![2]);
    let ack = encode_wire(&Packet::Ack(0), &Some(session));
    assert_eq!(channel.receive(&ack), Ok(1));
    channel.process_next(1).expect("process");
    let flags: Vec<bool> = channel.send_queue.iter().map(|e| e.needs_send).collect();
    assert_eq!(flags, vec![false, true]);
}

#[test]
fn sequence_numbers_wrap_when_sending() {
    let mut channel = Channel::new(512, 100);
    handshake(&mut channel);
    channel.send_next(10).expect("drain the reply");
    channel.send_next(0).expect("purge the dispatched reply");
    channel.next_server_sequence = 0xFFFE;
    channel.send_data(vec![1]);
    channel.send_data(vec![2]);
    channel.send_data(vec![3]);
    let seqs: Vec<u16> = channel
        .send_queue
        .iter()
        .map(|e| e.packet.sequence_number().unwrap())
        .collect();
    assert_eq!(seqs, vec![0xFFFE, 0xFFFF, 0x0000]);
    assert_eq!(channel.next_server_sequence, 1);
}

#[test]
fn sequence_numbers_wrap_when_receiving() {
    let mut channel = Channel::new(512, 100);
    let session = Some(handshake(&mut channel));
    channel.next_client_sequence = 0xFFFF;
    let first = encode_wire(&Packet::Data(0xFFFF, b"A".to_vec()), &session);
    let second = encode_wire(&Packet::Data(0x0000, b"B".to_vec()), &session);
    assert_eq!(channel.receive(&first), Ok(1));
    assert_eq!(channel.receive(&second), Ok(1));
    let delivered = channel.process_next(2).expect("process");
    assert_eq!(delivered, vec![b"A".to_vec(), b"B".to_vec()]);
    assert_eq!(channel.next_client_sequence, 1);
}

#[test]
fn recency_window_is_inclusive_above_and_exclusive_below() {
    let mut channel = Channel::new(512, 4);
    let session = Some(handshake(&mut channel));
    // Gap exactly the window size: buffered for reorder.
    let at_limit = encode_wire(&Packet::Data(4, b"D".to_vec()), &session);
    assert_eq!(channel.receive(&at_limit), Ok(1));
    channel.process_next(1).expect("process");
    assert_eq!(channel.reordered_packets.len(), 1);
    assert_eq!(channel.reordered_packets[0].0, 4);
    // Gap one beyond the window: acknowledged but not buffered.
    let beyond = encode_wire(&Packet::Data(5, b"E".to_vec()), &session);
    assert_eq!(channel.receive(&beyond), Ok(1));
    channel.process_next(1).expect("process");
    assert_eq!(channel.reordered_packets.len(), 1);
    // The expected number itself is the lower, excluded end: delivered.
    let expected = encode_wire(&Packet::Data(0, b"A".to_vec()), &session);
    assert_eq!(channel.receive(&expected), Ok(1));
    let delivered = channel.process_next(1).expect("process");
    assert_eq!(delivered, vec![b"A".to_vec()]);
}

#[test]
fn fragment_run_reassembles_across_receive_and_process() {
    let mut channel = Channel::new(512, 100);
    let session = Some(handshake(&mut channel));
    let first = encode_wire(
        &Packet::DataFragment(0, vec![0, 0, 0, 4, 1, 2]),
        &session,
    );
    let second = encode_wire(&Packet::DataFragment(1, vec![3, 4]), &session);
    assert_eq!(channel.receive(&first), Ok(1));
    assert_eq!(channel.receive(&second), Ok(1));
    let delivered = channel.process_next(2).expect("process");
    assert_eq!(delivered, vec![vec![1, 2, 3, 4]]);
}

#[test]
fn bundled_data_is_unbundled_for_the_caller() {
    let mut channel = Channel::new(512, 100);
    let session = Some(handshake(&mut channel));
    let bundled = reliable_udp::reliable_data::bundle_reliable_data(&vec![
        b"one".to_vec(),
        b"two".to_vec(),
    ]);
    let wire = encode_wire(&Packet::Data(0, bundled), &session);
    assert_eq!(channel.receive(&wire), Ok(1));
    let delivered = channel.process_next(1).expect("process");
    assert_eq!(delivered, vec![b"one".to_vec(), b"two".to_vec()]);
}

#[test]
fn heartbeat_is_answered_with_a_heartbeat() {
    let mut channel = Channel::new(512, 100);
    let session = Some(handshake(&mut channel));
    let before = channel.send_queue.len();
    let wire = encode_wire(&Packet::Heartbeat, &session);
    assert_eq!(channel.receive(&wire), Ok(1));
    channel.process_next(1).expect("process");
    assert_eq!(channel.send_queue.len(), before + 1);
    assert!(packet_eq(
        &channel.send_queue[before].packet,
        &Packet::Heartbeat
    ));
}

#[test]
fn non_sequenced_packets_are_sent_exactly_once() {
    let mut channel = Channel::new(512, 100);
    handshake(&mut channel);
    // The queued session reply is not sequenced: it goes out once and the
    // next call sends nothing.
    let out = channel.send_next(10).expect("send");
    assert_eq!(out.len(), 1);
    let out = channel.send_next(10).expect("send again");
    assert!(out.is_empty());
    // A sequenced packet stays queued until acknowledged.
    channel.send_data(vec![5]);
    assert_eq!(channel.send_next(10).expect("send").len(), 1);
    assert_eq!(channel.send_next(10).expect("resend").len(), 1);
}
