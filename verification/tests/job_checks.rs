use harness65::job::{parse_blob, parse_data_type, AddrRange, DataType, Job, JobError};

fn base_job() -> Job {
    Job {
        init: Vec::new(),
        rwmap: None,
        serial_in_addr: None,
        serial_out_addr: None,
        serial_in_data: None,
        serial_out_fmt: None,
        show_cycles: None,
        max_cycles: None,
        terminate_on_brk: None,
        terminate_on_infinite_loop: None,
        terminate_on_zero_fetch: None,
        terminate_on_stack_fetch: None,
        terminate_on_vector_fetch: None,
        terminate_on_bad_write: None,
        nmi: None,
        irq: None,
        rdy: None,
        so: None,
        res: None,
    }
}

#[test]
fn blob_utf8_prefix() {
    assert_eq!(parse_blob(b"utf8:hello"), Ok(b"hello".to_vec()));
    assert_eq!(parse_blob(b"utf8:"), Ok(Vec::new()));
}

#[test]
fn blob_base64_prefix() {
    // "Zm9v" is the encoding of "foo"; a decoder echoing its input back
    // would fail this
    assert_eq!(parse_blob(b"base64:Zm9v"), Ok(b"foo".to_vec()));
    assert_eq!(parse_blob(b"base64:"), Ok(Vec::new()));
}

#[test]
fn blob_bad_inputs() {
    assert_eq!(parse_blob(b"base64:!!!"), Err(JobError::InvalidBase64));
    assert_eq!(parse_blob(b"hex:00"), Err(JobError::BadBlobPrefix));
    assert_eq!(parse_blob(b""), Err(JobError::BadBlobPrefix));
    assert_eq!(parse_blob(b"utf"), Err(JobError::BadBlobPrefix));
}

#[test]
fn data_type_names() {
    assert_eq!(parse_data_type(b"utf8"), Ok(DataType::Utf8));
    assert_eq!(parse_data_type(b"base64"), Ok(DataType::Base64));
    assert_eq!(parse_data_type(b"hex"), Err(JobError::BadDataType));
    assert_eq!(parse_data_type(b"utf8 "), Err(JobError::BadDataType));
}

#[test]
fn ranges_reject_inversion() {
    assert_eq!(AddrRange::new(0, 511), Ok(AddrRange { start: 0, end: 511 }));
    assert_eq!(AddrRange::new(5, 5), Ok(AddrRange { start: 5, end: 5 }));
    assert_eq!(AddrRange::new(6, 5), Err(JobError::RangeInverted));
}

#[test]
fn init_record_bounds() {
    let mut job = base_job();
    job.init = vec![harness65::job::InitRec { base: 0xFFFE, data: vec![0, 0, 0], size: None }];
    assert_eq!(job.validate_and_normalize(), Err(JobError::InitTooLarge));
    let mut ok = base_job();
    ok.init = vec![harness65::job::InitRec { base: 0xFFFE, data: vec![0, 0], size: None }];
    assert_eq!(ok.validate_and_normalize(), Ok(()));
    let mut tiled = base_job();
    tiled.init = vec![harness65::job::InitRec { base: 0, data: vec![1], size: Some(65537) }];
    assert_eq!(tiled.validate_and_normalize(), Err(JobError::InitTooLarge));
}

#[test]
fn max_cycles_bounds() {
    for bad in [0u32, 8, 10000001] {
        let mut job = base_job();
        job.max_cycles = Some(bad);
        assert_eq!(job.validate_and_normalize(), Err(JobError::BadMaxCycles));
    }
    for good in [9u32, 10000000] {
        let mut job = base_job();
        job.max_cycles = Some(good);
        assert_eq!(job.validate_and_normalize(), Ok(()));
    }
}

#[test]
fn timelines_are_capped_and_sorted() {
    let mut long = base_job();
    long.nmi = Some((0..21).collect());
    assert_eq!(long.validate_and_normalize(), Err(JobError::TimelineTooLong));
    let mut job = base_job();
    job.irq = Some(vec![30, 10, 20, 10]);
    assert_eq!(job.validate_and_normalize(), Ok(()));
    assert_eq!(job.irq, Some(vec![10, 10, 20, 30]));
}

#[test]
fn error_messages_are_verbatim() {
    assert_eq!(
        JobError::InitTooLarge.message(),
        "Initialization record exceeds size of address space"
    );
    assert_eq!(
        JobError::BadMaxCycles.message(),
        "Maximum cycle count cannot exceed 10,000,000 or be less than 9"
    );
    assert_eq!(
        JobError::TimelineTooLong.message(),
        "A given special signal may not toggle more than 20 times"
    );
    assert_eq!(JobError::BadBlobPrefix.message(), "binary data must start with utf8: or base64:");
    assert_eq!(JobError::InvalidBase64.message(), "invalid base64 data");
    assert_eq!(JobError::BadRangeShape.message(), "range must be 2-element array");
    assert_eq!(
        JobError::RangeInverted.message(),
        "end of range cannot be less than start of range"
    );
    assert_eq!(JobError::BadDataType.message(), "expected either utf8 or base64");
}
