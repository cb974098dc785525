use harness65::frames::{
    ack_bytes, build_frame, build_packet_frames, echo_response_bytes, frag_ack_bytes,
    frame_action, parse_frame, ping_bytes, shutdown_bytes, transition_allowed, AckStep, AckWaiter,
    FrameAction, FrameError, Mode, ModeTracker,
};
use harness65::handshake::{HandshakeScanner, HsStep};

#[test]
fn frame_round_trips_through_parser() {
    let payload: Vec<u8> = vec![0x10, 0x00, 0x20, 0x00];
    let frame = build_frame(0x53, &payload);
    let (typ, body) = parse_frame(&frame).expect("well-formed frame");
    assert_eq!(typ, 0x53);
    assert_eq!(body, payload);
}

#[test]
fn corrupt_frame_fails_crc() {
    let payload: Vec<u8> = vec![1, 2, 3, 4, 5];
    let mut frame = build_frame(0x07, &payload);
    // flip one payload bit; the stuffed byte stays nonzero
    frame[2] ^= 0x01;
    match parse_frame(&frame) {
        Err(FrameError::Crc) | Err(FrameError::Framing) | Err(FrameError::Truncated) => {}
        other => panic!("corruption went unnoticed: {:?}", other.map(|p| p.0)),
    }
}

#[test]
fn oversize_ordinary_packet_is_rejected() {
    // type 9 with a declared length beyond one physical packet
    let mut inner: Vec<u8> = vec![9, 121];
    inner.extend(std::iter::repeat(1u8).take(121));
    // build a frame around arbitrary content by hand: stuff with the
    // library encoder
    let mut enc = harness65::cobs::CobsEncoder::new();
    enc.write(&inner);
    let frame = enc.finish();
    assert_eq!(parse_frame(&frame), Err(FrameError::TooLarge));
}

#[test]
fn bad_fragment_and_echo_lengths() {
    let mut enc = harness65::cobs::CobsEncoder::new();
    enc.write(&[0u8, 5, 1, 2, 3, 4, 5]);
    assert_eq!(parse_frame(&enc.finish()), Err(FrameError::BadFragmentLength));
    let mut enc2 = harness65::cobs::CobsEncoder::new();
    enc2.write(&[0xFFu8, 1, 9]);
    assert_eq!(parse_frame(&enc2.finish()), Err(FrameError::BadEchoLength));
}

#[test]
fn truncated_frame_is_noticed() {
    let frame = build_frame(0x04, &vec![1, 2, 3]);
    // cut the frame short, keeping a terminating zero
    let mut cut = frame[..frame.len() - 3].to_vec();
    cut.push(0);
    match parse_frame(&cut) {
        Err(FrameError::Truncated) | Err(FrameError::Framing) | Err(FrameError::Crc) => {}
        other => panic!("truncation went unnoticed: {:?}", other.map(|p| p.0)),
    }
}

#[test]
fn fragmentation_splits_at_physical_ceiling() {
    let data: Vec<u8> = (0..250u16).map(|x| (x % 250) as u8 | 1).collect();
    let frames = build_packet_frames(0x01, &data);
    assert_eq!(frames.len(), 3);
    let (t0, p0) = parse_frame(&frames[0]).unwrap();
    assert_eq!((t0, p0.len()), (0, 120));
    assert_eq!(p0, data[..120].to_vec());
    let (t1, p1) = parse_frame(&frames[1]).unwrap();
    assert_eq!((t1, p1.len()), (0, 120));
    let (t2, p2) = parse_frame(&frames[2]).unwrap();
    assert_eq!(t2, 0x01);
    assert_eq!(p2, data[240..].to_vec());
    let small = build_packet_frames(0xFE, &[]);
    assert_eq!(small.len(), 1);
    let (ts, ps) = parse_frame(&small[0]).unwrap();
    assert_eq!((ts, ps.len()), (0xFE, 0));
}

#[test]
fn receiver_frame_classification() {
    assert_eq!(frame_action(0, 0), FrameAction::Keepalive);
    assert_eq!(frame_action(0, 120), FrameAction::Fragment);
    assert_eq!(frame_action(255, 0), FrameAction::EchoRequest);
    assert_eq!(frame_action(0x53, 32), FrameAction::Deliver(0x53));
}

#[test]
fn control_tokens() {
    assert_eq!(ack_bytes(false), vec![0, 0, 1]);
    assert_eq!(ack_bytes(true), vec![0, 0, 3]);
    assert_eq!(frag_ack_bytes(), vec![0, 0, 2]);
    assert_eq!(echo_response_bytes(), vec![0, 0, 8]);
    assert_eq!(shutdown_bytes(), vec![0, 0, 0, 0]);
    assert_eq!(ping_bytes(Mode::Receiver), Some(vec![0, 0, 7]));
    assert_eq!(
        ping_bytes(Mode::Sender),
        Some(vec![0x02, 0xFF, 0x05, 0xD2, 0xFD, 0xEF, 0x8D, 0x00])
    );
    assert_eq!(ping_bytes(Mode::Raw), None);
    assert_eq!(ping_bytes(Mode::ReceiverNeedAck), None);
}

#[test]
fn mode_machine_edges() {
    assert!(transition_allowed(Mode::Raw, Mode::Sender));
    assert!(transition_allowed(Mode::Sender, Mode::Receiver));
    assert!(transition_allowed(Mode::Receiver, Mode::ReceiverNeedAck));
    assert!(transition_allowed(Mode::ReceiverNeedAck, Mode::Receiver));
    assert!(transition_allowed(Mode::ReceiverNeedAck, Mode::Sender));
    assert!(!transition_allowed(Mode::Raw, Mode::Receiver));
    assert!(!transition_allowed(Mode::Sender, Mode::Sender));
    assert!(!transition_allowed(Mode::Receiver, Mode::Sender));
    let mut m = ModeTracker::new();
    assert_eq!(m.mode, Mode::Raw);
    m.enter_mode(Mode::Sender);
    m.enter_mode(Mode::Receiver);
    m.enter_mode(Mode::ReceiverNeedAck);
    m.enter_mode(Mode::Sender);
    assert_eq!(m.mode, Mode::Sender);
}

#[test]
fn ack_wait_sequences() {
    let mut w = AckWaiter::new(false);
    assert_eq!(w.feed(0), AckStep::More);
    assert_eq!(w.feed(0), AckStep::More);
    assert_eq!(w.feed(1), AckStep::Flip(false));
    let mut w2 = AckWaiter::new(false);
    let _ = w2.feed(0);
    let _ = w2.feed(0);
    assert_eq!(w2.feed(3), AckStep::Flip(true));
    assert_eq!(w2.feed(0), AckStep::Shutdown);
    assert_eq!(w2.feed(9), AckStep::Protocol);
    let mut w3 = AckWaiter::new(true);
    let _ = w3.feed(0);
    let _ = w3.feed(0);
    assert_eq!(w3.feed(8), AckStep::PingConsumed);
    assert_eq!(w3.feed(8), AckStep::Protocol, "only one ping is outstanding");
    let mut w4 = AckWaiter::new(false);
    assert_eq!(w4.feed(5), AckStep::Unexpected);
}

#[test]
fn handshake_wakeup() {
    let mut s = HandshakeScanner::new();
    for &b in &[0x99u8, 0x04, 0x00, 0x00, 0x05, 0x00, 0x00] {
        assert_eq!(s.feed(b), HsStep::More);
        assert!(!s.woken());
    }
    assert_eq!(s.feed(0x06), HsStep::WakeupSeen);
    assert!(s.woken());
    // any further byte withdraws the wakeup until silence confirms it
    assert_eq!(s.feed(0x12), HsStep::More);
    assert!(!s.woken());
}

#[test]
fn handshake_wakeup_mismatch_restarts() {
    let mut s = HandshakeScanner::new();
    let _ = s.feed(0x04);
    let _ = s.feed(0x00);
    assert_eq!(s.feed(0x07), HsStep::More);
    assert!(!s.woken());
    // a full sequence afterwards still works
    for &b in &[0x04u8, 0x00, 0x00, 0x05, 0x00, 0x00] {
        let _ = s.feed(b);
    }
    assert_eq!(s.feed(0x06), HsStep::WakeupSeen);
}

#[test]
fn handshake_bus_report() {
    let mut s = HandshakeScanner::new();
    assert_eq!(s.feed(0xFF), HsStep::More);
    for &b in &[0x00u8, 0xFF, 0x00, 0xFF] {
        assert_eq!(s.feed(b), HsStep::More);
    }
    // mask 0x010203, want 0x040506, got 0x070809, cycle 42, edge high
    for &b in &[1u8, 2, 3, 4, 5, 6, 7, 8, 9, 42, 1] {
        assert_eq!(s.feed(b), HsStep::More);
    }
    match s.feed(0xDE) {
        HsStep::Diagnostic(rep) => {
            assert_eq!(rep.mask, 0x010203);
            assert_eq!(rep.want, 0x040506);
            assert_eq!(rep.got, 0x070809);
            assert_eq!(rep.cycle, 42);
            assert!(rep.edge);
        }
        other => panic!("expected a diagnostic, got {:?}", other),
    }
}

#[test]
fn handshake_report_discarded_without_sentinel() {
    let mut s = HandshakeScanner::new();
    let _ = s.feed(0xFF);
    for &b in &[0x00u8, 0xFF, 0x00, 0xFF] {
        let _ = s.feed(b);
    }
    for &b in &[1u8, 2, 3, 4, 5, 6, 7, 8, 9, 42, 1] {
        let _ = s.feed(b);
    }
    assert_eq!(s.feed(0x55), HsStep::More, "wrong sentinel discards the report");
    // an invalid edge byte also discards it
    let mut s2 = HandshakeScanner::new();
    let _ = s2.feed(0xFF);
    for &b in &[0x00u8, 0xFF, 0x00, 0xFF] {
        let _ = s2.feed(b);
    }
    for &b in &[1u8, 2, 3, 4, 5, 6, 7, 8, 9, 42, 9] {
        let _ = s2.feed(b);
    }
    assert_eq!(s2.feed(0xDE), HsStep::More);
}
