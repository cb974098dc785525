use harness65::cobs::{CobsDecoder, CobsEncoder, DecState, FeedResult};

/// Decode a whole frame, returning every emitted byte and whether the
/// frame ended cleanly.
fn decode_all(frame: &[u8]) -> (Vec<u8>, bool) {
    let mut dec = CobsDecoder::new();
    let mut out = Vec::new();
    for &b in frame {
        match dec.feed(b) {
            FeedResult::More => {}
            FeedResult::Out(x) => out.push(x),
            FeedResult::Finished => return (out, true),
            FeedResult::Corrupt => return (out, false),
        }
    }
    (out, false)
}

#[test]
fn encoder_crc_is_crc32_of_payload() {
    let mut enc = CobsEncoder::new();
    enc.write(b"123456789");
    // the classic CRC-32 (IEEE) check value
    assert_eq!(enc.crc(), 0xCBF43926);
    assert_eq!(crc::crc32::checksum_ieee(b"123456789"), 0xCBF43926);
}

#[test]
fn decoder_crc_matches_payload_crc() {
    let payload = b"123456789";
    let mut enc = CobsEncoder::new();
    enc.write(payload);
    let frame = enc.finish();
    let mut dec = CobsDecoder::new();
    let mut count = 0usize;
    let mut crc_at_payload = None;
    for &b in frame.iter() {
        match dec.feed(b) {
            FeedResult::Out(_) => {
                count += 1;
                if count == payload.len() {
                    crc_at_payload = Some(dec.crc());
                }
            }
            FeedResult::Finished => break,
            _ => {}
        }
    }
    assert_eq!(crc_at_payload, Some(0xCBF43926));
}

#[test]
fn round_trip_plain_payload() {
    let payload: Vec<u8> = vec![0x11, 0x22, 0x00, 0x33, 0x00, 0x00, 0x44];
    let mut enc = CobsEncoder::new();
    enc.write(&payload);
    let frame = enc.finish();
    assert_eq!(*frame.last().unwrap(), 0);
    for &b in &frame[..frame.len() - 1] {
        assert_ne!(b, 0, "no raw zero inside the frame");
    }
    let (out, clean) = decode_all(&frame);
    assert!(clean);
    assert!(out.len() >= payload.len() + 3);
    assert_eq!(&out[..payload.len()], &payload[..]);
}

#[test]
fn all_zero_payloads_round_trip() {
    // every length up to the report cap
    for n in 0..=1000usize {
        let payload = vec![0u8; n];
        let mut enc = CobsEncoder::new();
        enc.write(&payload);
        let frame = enc.finish();
        let (out, clean) = decode_all(&frame);
        assert!(clean, "length {}", n);
        assert!(out.len() >= n + 3, "length {}", n);
        assert!(out[..n].iter().all(|&b| b == 0), "length {}", n);
    }
}

#[test]
fn embedded_zero_in_run_is_framing_error() {
    let mut dec = CobsDecoder::new();
    // a run of declared length 3 holds two bytes; a zero inside it breaks
    assert_eq!(dec.feed(3), FeedResult::More);
    assert_eq!(dec.feed(0x41), FeedResult::Out(0x41));
    assert_eq!(dec.feed(0x00), FeedResult::Corrupt);
    // the decoder stays broken
    assert_eq!(dec.feed(0x42), FeedResult::Corrupt);
}

#[test]
fn deferred_zero_is_emitted_only_before_another_group() {
    // group [2, 'A'] then terminator: the implied zero is dropped
    let (out, clean) = decode_all(&[2, 0x41, 0]);
    assert!(clean);
    assert_eq!(out, vec![0x41]);
    // group [2, 'A'] then group [2, 'B']: the zero between them shows
    let (out, clean) = decode_all(&[2, 0x41, 2, 0x42, 0]);
    assert!(clean);
    assert_eq!(out, vec![0x41, 0x00, 0x42]);
}

#[test]
fn full_run_uses_long_form() {
    // 254 nonzero bytes followed by a zero: the encoder emits the
    // reserved long-form stuffing byte and absorbs the zero
    let mut payload = vec![1u8; 254];
    payload.push(0);
    let mut enc = CobsEncoder::new();
    enc.write(&payload);
    let frame = enc.finish();
    assert_eq!(frame[0], 0xFF);
    assert_eq!(&frame[1..255], &payload[..254]);
    // 255 nonzero bytes: long form, then the leftover byte starts the
    // next run
    let payload2 = vec![2u8; 255];
    let mut enc2 = CobsEncoder::new();
    enc2.write(&payload2);
    let frame2 = enc2.finish();
    assert_eq!(frame2[0], 0xFF);
    assert_eq!(&frame2[1..255], &payload2[..254]);
    assert_eq!(frame2[256], 2, "the 255th byte follows in the next group");
}

#[test]
fn decoder_long_form_reads_without_deferred_zero() {
    // 0xFF declares a long run; after its body the next group follows
    // with no implied zero in between
    let mut frame = vec![0xFFu8];
    frame.extend(std::iter::repeat(7u8).take(253));
    frame.extend_from_slice(&[2, 0x55, 0]);
    let (out, clean) = decode_all(&frame);
    assert!(clean);
    assert_eq!(out.len(), 254);
    assert!(out[..253].iter().all(|&b| b == 7));
    assert_eq!(out[253], 0x55);
}

#[test]
fn fresh_decoder_state() {
    let dec = CobsDecoder::new();
    let _ = DecState::NeedRun;
    assert_eq!(dec.crc(), 0, "no bytes folded in yet");
}
