use hyades::association::{
    AssocState, Association, ASSOCIATION_MAX_RETRANS, DEFAULT_A_RWND, MAX_INIT_RETRANSMITS,
    RTO_INITIAL_MS, RTO_MAX_MS,
};
use hyades::chunk::{AnyChunk, Abort, CookieEcho, Data, ParamType};
use hyades::cookie::Cookie;
use hyades::error::SCTPError;
use hyades::packet::decode_packet;

fn established_sender() -> Association {
    let mut a = Association::new_sender(6000, 6001, 1500);
    a.state = AssocState::Established;
    a.remote_rwnd = 100000;
    a.cwnd = 100000;
    a
}

#[test]
fn new_sender_seeds_congestion_state() {
    let a = Association::new_sender(6000, 6001, 1500);
    assert_eq!(a.state, AssocState::Idle);
    assert_eq!(a.rto, RTO_INITIAL_MS);
    // min(4*1500, max(2*1500, 4380)) = min(6000, 4380)
    assert_eq!(a.cwnd, 4380);
    assert_eq!(a.ssthresh, 10000);
    assert_eq!(a.max_init_retries, MAX_INIT_RETRANSMITS);
    assert_eq!(a.max_retries, ASSOCIATION_MAX_RETRANS);
    assert_eq!(a.remote_port, Some(6001));
}

#[test]
fn handshake_success_establishes_both_ends() {
    // initiator sends Init; responder answers InitAck with a cookie;
    // initiator echoes it; responder acknowledges: both Established
    let mut initiator = Association::new_sender(6000, 6001, 1500);
    let mut responder = Association::new_recvr(6001);

    let init_packet = initiator.make_init(0xABCD);
    assert_eq!(initiator.state, AssocState::InitSent);
    let init_bytes = init_packet.to_bytes();

    let decoded_init = decode_packet(&init_bytes).unwrap();
    let init_chunk = match &decoded_init.chunks[0] {
        AnyChunk::Init(i) => i.clone(),
        other => panic!("expected an Init chunk, got {:?}", other),
    };
    let issued = Cookie::from_bytes(vec![9, 9, 9, 9]);
    let ack_packet = responder.on_init(init_chunk, 6000, issued, 424242);
    assert_eq!(responder.state, AssocState::InitReceived);
    assert_eq!(responder.remote_rwnd, DEFAULT_A_RWND);

    let decoded_ack = decode_packet(&ack_packet.to_bytes()).unwrap();
    let ack_chunk = match &decoded_ack.chunks[0] {
        AnyChunk::InitAck(a) => a.clone(),
        other => panic!("expected an InitAck chunk, got {:?}", other),
    };
    let params = ack_chunk.optional_params.as_ref().unwrap();
    assert_eq!(params[0].param_type, ParamType::StateCookie);
    assert_eq!(params[0].value, vec![9, 9, 9, 9]);

    let echo_packet = initiator.on_init_ack(&ack_chunk).unwrap();
    assert_eq!(initiator.state, AssocState::CookieEchoed);
    assert_eq!(initiator.remote_rwnd, DEFAULT_A_RWND);

    let decoded_echo = decode_packet(&echo_packet.to_bytes()).unwrap();
    let echo_chunk = match &decoded_echo.chunks[0] {
        AnyChunk::CookieEcho(e) => e.clone(),
        other => panic!("expected a CookieEcho chunk, got {:?}", other),
    };
    let ack = responder.on_cookie_echo(&echo_chunk);
    assert!(ack.is_some());
    assert_eq!(responder.state, AssocState::Established);

    let decoded_cookie_ack = decode_packet(&ack.unwrap().to_bytes()).unwrap();
    match &decoded_cookie_ack.chunks[0] {
        AnyChunk::CookieAck(_) => {}
        other => panic!("expected a CookieAck chunk, got {:?}", other),
    }
    initiator.on_cookie_ack();
    assert_eq!(initiator.state, AssocState::Established);
}

#[test]
fn cookie_mismatch_keeps_responder_unestablished() {
    let mut responder = Association::new_recvr(6001);
    let init = hyades::chunk::Init::new(7, 10000, 1, 1, None);
    let _ack = responder.on_init(init, 6000, Cookie::from_bytes(vec![1, 2, 3, 4]), 5);
    assert_eq!(responder.state, AssocState::InitReceived);

    let wrong = CookieEcho::new(Cookie::from_bytes(vec![4, 3, 2, 1]));
    let reply = responder.on_cookie_echo(&wrong);
    assert!(reply.is_none());
    assert_eq!(responder.state, AssocState::InitReceived);

    // a later valid echo still completes the handshake
    let right = CookieEcho::new(Cookie::from_bytes(vec![1, 2, 3, 4]));
    assert!(responder.on_cookie_echo(&right).is_some());
    assert_eq!(responder.state, AssocState::Established);
}

#[test]
fn missing_cookie_fails_handshake_step() {
    let mut initiator = Association::new_sender(6000, 6001, 1500);
    let _ = initiator.make_init(1);
    let init = hyades::chunk::Init::new(1, 2, 1, 1, None);
    let bare_ack = hyades::chunk::InitAck::with_tsn(init, 9);
    assert_eq!(initiator.on_init_ack(&bare_ack), Err(SCTPError::NoCookieError));
    assert_eq!(initiator.state, AssocState::InitSent);
}

#[test]
fn init_retries_exhaust_into_handshake_failure() {
    let mut a = Association::new_sender(6000, 6001, 1500);
    let _ = a.make_init(1);
    for _ in 0..MAX_INIT_RETRANSMITS {
        assert_eq!(a.on_init_timeout(), Ok(()));
    }
    assert_eq!(a.on_init_timeout(), Err(SCTPError::HandshakeFailedError));
}

#[test]
fn cookie_echo_retries_exhaust_into_handshake_failure() {
    let mut a = Association::new_sender(6000, 6001, 1500);
    a.state = AssocState::CookieEchoed;
    for _ in 0..ASSOCIATION_MAX_RETRANS {
        assert_eq!(a.on_cookie_echo_timeout(), Ok(()));
    }
    assert_eq!(a.on_cookie_echo_timeout(), Err(SCTPError::HandshakeFailedError));
}

#[test]
fn send_assigns_one_tsn_per_chunk_and_one_ssn_per_call() {
    let mut a = established_sender();
    a.tsn = 100;
    let mut expected_tsn = 100u32;
    // ten calls; the fourth and later payloads span several fragments
    for call in 0..10usize {
        let ssn_before = a.stream_seq_no;
        let payload = vec![7u8; 1 + call * 700];
        let packets = a.send(&payload).unwrap();
        let expected_fragments = (payload.len() + 1499) / 1500;
        assert_eq!(packets.len(), expected_fragments.max(1));
        for (i, p) in packets.iter().enumerate() {
            match &p.chunks[0] {
                AnyChunk::Data(d) => {
                    assert_eq!(d.tsn, expected_tsn, "each chunk takes the next number");
                    assert_eq!(d.stream_seq_no, ssn_before);
                    assert_eq!(d.begin(), i == 0);
                    assert_eq!(d.end(), i == packets.len() - 1);
                    expected_tsn = expected_tsn.wrapping_add(1);
                }
                other => panic!("expected a Data chunk, got {:?}", other),
            }
        }
        assert_eq!(a.stream_seq_no, ssn_before.wrapping_add(1));
        assert_eq!(a.tsn, expected_tsn);
    }
}

#[test]
fn send_fragments_reassemble_to_the_message() {
    let mut a = established_sender();
    let payload: Vec<u8> = (0..4000u32).map(|i| (i % 251) as u8).collect();
    let packets = a.send(&payload).unwrap();
    assert_eq!(packets.len(), 3);
    let mut reassembled: Vec<u8> = Vec::new();
    for p in &packets {
        match &p.chunks[0] {
            AnyChunk::Data(d) => {
                let unpadded = (d.header.length - 16) as usize;
                reassembled.extend_from_slice(&d.data[..unpadded]);
            }
            other => panic!("expected a Data chunk, got {:?}", other),
        }
    }
    assert_eq!(reassembled, payload);
    // every fragment respects the MTU
    for p in &packets {
        match &p.chunks[0] {
            AnyChunk::Data(d) => assert!((d.header.length - 16) as usize <= 1500),
            _ => unreachable!(),
        }
    }
}

#[test]
fn send_round_trips_over_the_wire() {
    let mut a = established_sender();
    let packets = a.send(&vec![1, 2, 3]).unwrap();
    let back = decode_packet(&packets[0].to_bytes()).unwrap();
    assert_eq!(back.chunks, packets[0].chunks);
}

#[test]
fn send_with_zero_window_is_remote_buffer_full() {
    let mut a = Association::new_sender(6000, 6001, 1500);
    a.state = AssocState::Established;
    assert_eq!(a.remote_rwnd, 0);
    assert_eq!(a.send(&vec![1]), Err(SCTPError::RemoteBufferFull));
}

#[test]
fn send_beyond_effective_window_is_window_exhausted() {
    let mut a = Association::new_sender(6000, 6001, 1500);
    a.state = AssocState::Established;
    a.remote_rwnd = 10;
    a.cwnd = 5;
    // five bytes fit min(cwnd, rwnd); six do not
    assert!(a.send(&vec![0; 5]).is_ok());
    assert_eq!(a.send(&vec![0; 6]), Err(SCTPError::WindowExhausted));
}

#[test]
fn rto_expiration_halves_into_slow_start_and_doubles_timer() {
    let mut a = Association::new_sender(6000, 6001, 1500);
    a.cwnd = 20000;
    a.rto = 3000;
    a.on_rto_expired();
    // ssthresh = max(cwnd/2, 4*mtu) = max(10000, 6000)
    assert_eq!(a.ssthresh, 10000);
    assert_eq!(a.cwnd, 1500);
    assert_eq!(a.rto, 6000);

    // when half the window is below four MTUs, the floor wins
    let mut b = Association::new_sender(6000, 6001, 1500);
    b.cwnd = 4000;
    b.rto = 3000;
    b.on_rto_expired();
    assert_eq!(b.ssthresh, 6000);
    assert_eq!(b.cwnd, 1500);

    // backoff is clamped at the ceiling
    let mut c = Association::new_sender(6000, 6001, 1500);
    c.rto = 50000;
    c.on_rto_expired();
    assert_eq!(c.rto, RTO_MAX_MS);
}

#[test]
fn terminate_drains_queue_in_order() {
    let mut a = Association::new_sender(6000, 6001, 1500);
    let mut p1 = hyades::packet::Packet::new(1, 2);
    p1.add_chunk(AnyChunk::CookieAck(hyades::chunk::CookieAck::new()));
    let p2 = hyades::packet::Packet::new(3, 4);
    a.enqueue(p1.clone());
    a.enqueue(p2.clone());
    let drained = a.terminate();
    assert_eq!(drained.len(), 2);
    assert_eq!(drained[0], p1);
    assert_eq!(drained[1], p2);
    assert_eq!(a.state, AssocState::Closed);
    assert!(a.msg_queue.is_empty());
}

#[test]
fn abort_discards_queue_and_builds_abort_packet() {
    let mut a = Association::new_sender(6000, 6001, 1500);
    a.enqueue(hyades::packet::Packet::new(1, 2));
    let packet = a.abort();
    assert_eq!(a.state, AssocState::Aborted);
    assert!(a.msg_queue.is_empty());
    match &packet.chunks[0] {
        AnyChunk::Abort(ab) => {
            assert_eq!(ab.header.chunk_type, 6);
            assert_eq!(ab.header.length, 4);
            assert!(ab.value.is_empty());
        }
        other => panic!("expected an Abort chunk, got {:?}", other),
    }
    // the abort packet survives the wire
    let back = decode_packet(&packet.to_bytes()).unwrap();
    assert_eq!(back.chunks, packet.chunks);
}

#[test]
fn recv_dispatches_data_and_abort_chunks() {
    let mut a = established_sender();
    let mut p = hyades::packet::Packet::new(6001, 6000);
    p.add_chunk(AnyChunk::Data(Data::new(555, 0, 0, 0, true, true, vec![1])));
    assert_eq!(a.recv(&p.to_bytes()), Ok(()));
    assert_eq!(a.largest_tsn, 555);

    // a smaller sequence number does not lower the largest seen
    let mut q = hyades::packet::Packet::new(6001, 6000);
    q.add_chunk(AnyChunk::Data(Data::new(5, 0, 0, 0, true, true, vec![1])));
    assert_eq!(a.recv(&q.to_bytes()), Ok(()));
    assert_eq!(a.largest_tsn, 555);

    let mut r = hyades::packet::Packet::new(6001, 6000);
    r.add_chunk(AnyChunk::Abort(Abort::new(None)));
    assert_eq!(a.recv(&r.to_bytes()), Ok(()));
    assert_eq!(a.state, AssocState::Aborted);
}

#[test]
fn recv_discards_malformed_datagrams_and_survives() {
    let mut a = established_sender();
    a.largest_tsn = 77;
    let garbage = vec![1u8, 2, 3];
    assert_eq!(a.recv(&garbage), Err(SCTPError::TruncatedPacket));
    assert_eq!(a.largest_tsn, 77);
    assert_eq!(a.state, AssocState::Established);

    let mut p = hyades::packet::Packet::new(6001, 6000);
    p.add_chunk(AnyChunk::Data(Data::new(9, 0, 0, 0, true, true, vec![1])));
    let mut corrupted = p.to_bytes();
    corrupted[13] ^= 0x40;
    assert_eq!(a.recv(&corrupted), Err(SCTPError::ChecksumMismatch));
    assert_eq!(a.largest_tsn, 77);
}

#[test]
fn shutdown_chunks_walk_teardown_states() {
    let mut a = established_sender();
    let mut p = hyades::packet::Packet::new(6001, 6000);
    p.add_chunk(AnyChunk::Shutdown(hyades::chunk::RawChunk::new(7, 0, vec![0, 0, 0, 1])));
    assert_eq!(a.recv(&p.to_bytes()), Ok(()));
    assert_eq!(a.state, AssocState::ShuttingDown);

    let mut q = hyades::packet::Packet::new(6001, 6000);
    q.add_chunk(AnyChunk::ShutdownComplete(hyades::chunk::RawChunk::new(14, 0, vec![])));
    assert_eq!(a.recv(&q.to_bytes()), Ok(()));
    assert_eq!(a.state, AssocState::Closed);

    // a SACK is an extension point and changes nothing yet
    let mut b = established_sender();
    let mut s = hyades::packet::Packet::new(6001, 6000);
    s.add_chunk(AnyChunk::Sack(hyades::chunk::RawChunk::new(3, 0, vec![0, 0, 0, 9])));
    assert_eq!(b.recv(&s.to_bytes()), Ok(()));
    assert_eq!(b.state, AssocState::Established);
}

#[test]
fn random_verification_tag_is_nonzero() {
    for _ in 0..16 {
        assert!(hyades::random::random_verification_tag() >= 1);
    }
}

#[test]
fn configure_mtu_seeds_window() {
    let mut a = Association::new_recvr(6001);
    assert!(a.mtu.is_none());
    a.configure_mtu(1500);
    assert_eq!(a.mtu, Some(1500));
    assert_eq!(a.cwnd, 4380);
}
