use harness65::job::{AddrRange, Job};
use harness65::session::{
    be16_vec, be32_vec, check_request, encode_signal_changes, init_data_chunks, pack_rwmap,
    parse_termination, termination_flag, HwSession, RequestDecision, SessionAction, SessionError,
};
use harness65::system::TerminationCause;

fn base_job() -> Job {
    Job {
        init: Vec::new(),
        rwmap: None,
        serial_in_addr: None,
        serial_out_addr: None,
        serial_in_data: None,
        serial_out_fmt: None,
        show_cycles: None,
        max_cycles: None,
        terminate_on_brk: None,
        terminate_on_infinite_loop: None,
        terminate_on_zero_fetch: None,
        terminate_on_stack_fetch: None,
        terminate_on_vector_fetch: None,
        terminate_on_bad_write: None,
        nmi: None,
        irq: None,
        rdy: None,
        so: None,
        res: None,
    }
}

#[test]
fn big_endian_helpers() {
    assert_eq!(be16_vec(0x0200), vec![0x02, 0x00]);
    assert_eq!(be16_vec(0xF004), vec![0xF0, 0x04]);
    assert_eq!(be32_vec(1000), vec![0, 0, 0x03, 0xE8]);
    assert_eq!(be32_vec(10000000), vec![0x00, 0x98, 0x96, 0x80]);
}

#[test]
fn rwmap_packs_as_pairs() {
    let rs = vec![AddrRange { start: 0, end: 511 }, AddrRange { start: 0x0200, end: 0x02FF }];
    assert_eq!(pack_rwmap(&rs), vec![0, 0, 0x01, 0xFF, 0x02, 0x00, 0x02, 0xFF]);
}

#[test]
fn termination_flag_bits() {
    let job = base_job();
    assert_eq!(termination_flag(&job), 0x3F, "all defaults");
    let mut j2 = base_job();
    j2.terminate_on_brk = Some(false);
    assert_eq!(termination_flag(&j2), 0x3E);
    let mut j3 = base_job();
    j3.terminate_on_infinite_loop = Some(false);
    j3.terminate_on_bad_write = Some(false);
    assert_eq!(termination_flag(&j3), 0x1D);
    let mut j4 = base_job();
    j4.terminate_on_brk = Some(true);
    assert_eq!(termination_flag(&j4), 0x3F, "an explicit true keeps the bit");
}

#[test]
fn signal_changes_single_nmi() {
    let mut job = base_job();
    job.nmi = Some(vec![100]);
    // NMI id 2, turning on: header 0x82, then the cycle in three bytes
    assert_eq!(encode_signal_changes(&job), vec![0x82, 0, 0, 100]);
}

#[test]
fn signal_changes_merge_and_toggle() {
    let mut job = base_job();
    job.nmi = Some(vec![100, 200]);
    job.irq = Some(vec![100]);
    job.rdy = Some(vec![50]);
    // cycle 50: RDY (id 4) starts on, so its first toggle turns it off;
    // cycle 100: NMI on before IRQ on (tie kept in list order);
    // cycle 200: NMI off again
    assert_eq!(
        encode_signal_changes(&job),
        vec![
            0x04, 0, 0, 50,
            0x82, 0, 0, 100,
            0x83, 0, 0, 100,
            0x02, 0, 0, 200,
        ]
    );
}

#[test]
fn signal_changes_empty_when_no_timeline() {
    assert_eq!(encode_signal_changes(&base_job()), Vec::<u8>::new());
}

#[test]
fn init_chunks_tile_and_split() {
    let data = vec![1u8, 2, 3];
    let chunks = init_data_chunks(7, &data);
    assert_eq!(chunks, vec![vec![1, 2, 3, 1, 2, 3, 1]]);
    let big = init_data_chunks(250, &vec![9u8]);
    assert_eq!(big.len(), 3);
    assert_eq!(big[0].len(), 120);
    assert_eq!(big[1].len(), 120);
    assert_eq!(big[2].len(), 10);
    assert!(big.iter().all(|c| c.iter().all(|&b| b == 9)));
    assert_eq!(init_data_chunks(0, &Vec::new()), Vec::<Vec<u8>>::new());
}

#[test]
fn termination_packet_parses() {
    let mut buf = Vec::new();
    buf.extend_from_slice(&[0, 0, 0x03, 0xE8]); // 1000 cycles
    buf.extend_from_slice(&[0, 0, 0, 50]); // 50 ms
    buf.extend_from_slice(&[0x02, 0x00]); // last pc
    buf.push(2); // infinite_loop
    let t = parse_termination(&buf).unwrap();
    assert_eq!(t.num_cycles, 1000);
    assert_eq!(t.execution_time_ms, 50);
    assert_eq!(t.last_pc, 0x0200);
    assert_eq!(t.cause, TerminationCause::InfiniteLoop);
    let short = parse_termination(&vec![0u8; 10]);
    assert_eq!(short, Err(SessionError::WrongTerminationLength));
    let mut bad = buf.clone();
    bad[10] = 7;
    assert_eq!(parse_termination(&bad), Err(SessionError::UnknownCause));
}

#[test]
fn session_cycle_reports() {
    let mut s = HwSession::new(Vec::new(), false);
    // one word 0x7020055: type 7, address 0200, data 55
    let payload = vec![0x07, 0x02, 0x00, 0x55];
    match s.on_packet(1, &payload) {
        Ok(SessionAction::AckPlain) => {}
        other => panic!("unexpected: {:?}", result_kind(&other)),
    }
    assert_eq!(s.cycle_reports, vec!["7020055".to_string()]);
    let odd = vec![1u8, 2, 3];
    match s.on_packet(1, &odd) {
        Err(SessionError::BadCycleReportLength) => {}
        other => panic!("unexpected: {:?}", result_kind(&other)),
    }
}

fn result_kind(r: &Result<SessionAction, SessionError>) -> String {
    match r {
        Ok(SessionAction::AckPlain) => "AckPlain".to_string(),
        Ok(SessionAction::ServeSerial(v)) => format!("ServeSerial({} bytes)", v.len()),
        Ok(SessionAction::Finish) => "Finish".to_string(),
        Err(e) => format!("Err({})", e.message()),
    }
}

#[test]
fn session_serves_serial_in_blocks() {
    let mut s = HwSession::new((0..40u8).collect(), false);
    let empty = Vec::new();
    match s.on_packet(2, &empty) {
        Ok(SessionAction::ServeSerial(chunk)) => {
            assert_eq!(chunk, (0..32u8).collect::<Vec<u8>>());
        }
        other => panic!("unexpected: {}", result_kind(&other)),
    }
    match s.on_packet(2, &empty) {
        Ok(SessionAction::ServeSerial(chunk)) => {
            assert_eq!(chunk, (32..40u8).collect::<Vec<u8>>());
        }
        other => panic!("unexpected: {}", result_kind(&other)),
    }
    match s.on_packet(2, &empty) {
        Ok(SessionAction::ServeSerial(chunk)) => assert!(chunk.is_empty()),
        other => panic!("unexpected: {}", result_kind(&other)),
    }
    match s.on_packet(2, &vec![1u8]) {
        Err(SessionError::NonEmptySerialRead) => {}
        other => panic!("unexpected: {}", result_kind(&other)),
    }
}

#[test]
fn session_serial_writes_honor_capture() {
    let mut s = HwSession::new(Vec::new(), true);
    match s.on_packet(3, &b"ab".to_vec()) {
        Ok(SessionAction::AckPlain) => {}
        other => panic!("unexpected: {}", result_kind(&other)),
    }
    assert_eq!(s.serial_out, b"ab".to_vec());
    match s.on_packet(3, &Vec::new()) {
        Err(SessionError::EmptySerialWrite) => {}
        other => panic!("unexpected: {}", result_kind(&other)),
    }
    let mut quiet = HwSession::new(Vec::new(), false);
    let _ = quiet.on_packet(3, &b"ab".to_vec());
    assert!(quiet.serial_out.is_empty(), "no format, no capture");
}

#[test]
fn session_termination_finishes() {
    let mut s = HwSession::new(Vec::new(), false);
    let mut buf = vec![0u8, 0, 0, 9, 0, 0, 0, 1, 0x02, 0x00];
    buf.push(0);
    match s.on_packet(4, &buf) {
        Ok(SessionAction::Finish) => {}
        other => panic!("unexpected: {}", result_kind(&other)),
    }
    let t = s.report.unwrap();
    assert_eq!(t.num_cycles, 9);
    assert_eq!(t.cause, TerminationCause::Limit);
    let mut s2 = HwSession::new(Vec::new(), false);
    match s2.on_packet(9, &Vec::new()) {
        Err(SessionError::UnknownPacketType) => {}
        other => panic!("unexpected: {}", result_kind(&other)),
    }
}

#[test]
fn request_gate() {
    assert_eq!(check_request(false, Some(10)), RequestDecision::MethodNotAllowed);
    assert_eq!(check_request(true, None), RequestDecision::LengthRequired);
    assert_eq!(check_request(true, Some(2000001)), RequestDecision::TooLarge);
    assert_eq!(check_request(true, Some(2000000)), RequestDecision::Proceed);
    assert_eq!(check_request(true, Some(0)), RequestDecision::Proceed);
}
