use harness65::job::{DataType, Job};
use harness65::report::encode_serial_out;
use harness65::system::{System, TerminationCause};

fn base_job() -> Job {
    Job {
        init: Vec::new(),
        rwmap: None,
        serial_in_addr: None,
        serial_out_addr: None,
        serial_in_data: None,
        serial_out_fmt: None,
        show_cycles: None,
        max_cycles: None,
        terminate_on_brk: None,
        terminate_on_infinite_loop: None,
        terminate_on_zero_fetch: None,
        terminate_on_stack_fetch: None,
        terminate_on_vector_fetch: None,
        terminate_on_bad_write: None,
        nmi: None,
        irq: None,
        rdy: None,
        so: None,
        res: None,
    }
}

#[test]
fn serial_output_rendering() {
    assert_eq!(encode_serial_out(&None, &b"xyz".to_vec()), None);
    assert_eq!(
        encode_serial_out(&Some(DataType::Utf8), &b"HI".to_vec()),
        Some("utf8:HI".to_string())
    );
    // "foo" encodes to "Zm9v"; identity output would fail here
    assert_eq!(
        encode_serial_out(&Some(DataType::Base64), &b"foo".to_vec()),
        Some("base64:Zm9v".to_string())
    );
    assert_eq!(
        encode_serial_out(&Some(DataType::Base64), &Vec::new()),
        Some("base64:".to_string())
    );
}

#[test]
fn lossy_utf8_replaces_bad_bytes() {
    let out = encode_serial_out(&Some(DataType::Utf8), &vec![0x41, 0xFF, 0x42]).unwrap();
    assert!(out.starts_with("utf8:A"));
    assert!(out.ends_with('B'));
    assert!(out.chars().any(|c| c == char::REPLACEMENT_CHARACTER));
}

#[test]
fn cause_tags_are_the_document_tags() {
    assert_eq!(TerminationCause::Limit.tag(), "limit");
    assert_eq!(TerminationCause::Brk.tag(), "brk");
    assert_eq!(TerminationCause::InfiniteLoop.tag(), "infinite_loop");
    assert_eq!(TerminationCause::ZeroFetch.tag(), "zero_fetch");
    assert_eq!(TerminationCause::StackFetch.tag(), "stack_fetch");
    assert_eq!(TerminationCause::VectorFetch.tag(), "vector_fetch");
    assert_eq!(TerminationCause::BadWrite.tag(), "bad_write");
}

#[test]
fn serial_input_port_reads_and_overflow() {
    let mut job = base_job();
    job.serial_in_addr = Some(0xF004);
    job.serial_in_data = Some(vec![0x48, 0x49]);
    job.validate_and_normalize().unwrap();
    let mut sys = System::new(&job);
    let (v1, e1) = sys.read(0xF004);
    assert_eq!((v1, e1.len()), (0x48, 0));
    let (v2, e2) = sys.read(0xF004);
    assert_eq!((v2, e2.len()), (0x49, 0));
    // a dry queue reads as zero and raises the overflow flag
    let (v3, e3) = sys.read(0xF004);
    assert_eq!(v3, 0);
    assert_eq!(e3, vec![harness65::system::CpuEffect::SetOverflow]);
    // other addresses are plain memory
    let (v4, e4) = sys.read(0xFFFD);
    assert_eq!((v4, e4.len()), (0x02, 0));
}

#[test]
fn serial_output_port_bypasses_memory() {
    let mut job = base_job();
    job.serial_out_addr = Some(0xF001);
    job.validate_and_normalize().unwrap();
    let mut sys = System::new(&job);
    let _ = sys.write(0xF001, 0x55);
    let _ = sys.write(0xF001, 0x56);
    assert_eq!(sys.serial_out_data, vec![0x55, 0x56]);
    assert_eq!(sys.sram[0xF001], 0, "the port shadows RAM");
    assert_eq!(sys.termination_cause, None, "a port write is never a bad write");
}
