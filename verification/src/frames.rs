use vstd::prelude::*;

use crate::cobs::{
    be32_bytes, frame_spec, run_dec, CobsDecoder, CobsEncoder, DecState, FeedResult,
};
use crate::crcdigest::crc32_of;

verus! {

/// Payload ceiling of one frame on the wire.
pub const MAX_PHYSICAL_PACKET_SIZE: usize = 120;

/// Ceiling of one logical packet, fragmented across frames.
pub const MAX_LOGICAL_PACKET_SIZE: usize = 1200;

// ============================================================
// Transport session modes.
// ============================================================

#[derive(Clone, Copy, PartialEq, Eq, Structural, Debug)]
pub enum Mode {
    Raw,
    Sender,
    Receiver,
    ReceiverNeedAck,
}

/// The transport's legal mode changes; everything else is a programmer
/// error and callers must not ask for it.
pub open spec fn mode_transition_ok(from: Mode, to: Mode) -> bool {
    match (from, to) {
        (Mode::Raw, Mode::Sender) => true,
        (Mode::Receiver, Mode::ReceiverNeedAck) => true,
        (Mode::ReceiverNeedAck, Mode::Receiver) => true,
        (Mode::ReceiverNeedAck, Mode::Sender) => true,
        (Mode::Sender, Mode::Receiver) => true,
        _ => false,
    }
}

pub fn transition_allowed(from: Mode, to: Mode) -> (r: bool)
    ensures
        r == mode_transition_ok(from, to),
{
    match (from, to) {
        (Mode::Raw, Mode::Sender) => true,
        (Mode::Receiver, Mode::ReceiverNeedAck) => true,
        (Mode::ReceiverNeedAck, Mode::Receiver) => true,
        (Mode::ReceiverNeedAck, Mode::Sender) => true,
        (Mode::Sender, Mode::Receiver) => true,
        _ => false,
    }
}

/// The session's mode, moved only along the legal edges.
pub struct ModeTracker {
    pub mode: Mode,
}

impl ModeTracker {
    pub fn new() -> (r: ModeTracker)
        ensures
            r.mode == Mode::Raw,
    {
        ModeTracker { mode: Mode::Raw }
    }

    pub fn enter_mode(&mut self, to: Mode)
        requires
            mode_transition_ok(old(self).mode, to),
        ensures
            final(self).mode == to,
    {
        self.mode = to;
    }
}

// ============================================================
// Raw control tokens on the ack channel; these are not frames.
// ============================================================

/// The three-byte ack token: flip bit set or clear.
pub fn ack_bytes(flip: bool) -> (r: Vec<u8>)
    ensures
        flip ==> r@ == seq![0u8, 0u8, 3u8],
        !flip ==> r@ == seq![0u8, 0u8, 1u8],
{
    let mut v: Vec<u8> = Vec::new();
    v.push(0);
    v.push(0);
    if flip {
        v.push(3);
    } else {
        v.push(1);
    }
    proof {
        if flip {
            assert(v@ =~= seq![0u8, 0u8, 3u8]);
        } else {
            assert(v@ =~= seq![0u8, 0u8, 1u8]);
        }
    }
    v
}

/// The mid-packet fragment ack.
pub fn frag_ack_bytes() -> (r: Vec<u8>)
    ensures
        r@ == seq![0u8, 0u8, 2u8],
{
    let mut v: Vec<u8> = Vec::new();
    v.push(0);
    v.push(0);
    v.push(2);
    proof {
        assert(v@ =~= seq![0u8, 0u8, 2u8]);
    }
    v
}

/// The echo response a receiver returns for an echo request.
pub fn echo_response_bytes() -> (r: Vec<u8>)
    ensures
        r@ == seq![0u8, 0u8, 8u8],
{
    let mut v: Vec<u8> = Vec::new();
    v.push(0);
    v.push(0);
    v.push(8);
    proof {
        assert(v@ =~= seq![0u8, 0u8, 8u8]);
    }
    v
}

/// What a stalled read sends, once per stall: a keepalive solicit in
/// receiver mode, a pre-encoded echo request in sender mode, nothing in
/// the others.
pub fn ping_bytes(mode: Mode) -> (r: Option<Vec<u8>>)
    ensures
        match mode {
            Mode::Receiver => r matches Some(v) && v@ == seq![0u8, 0u8, 7u8],
            Mode::Sender => r matches Some(v) && v@ == seq![
                0x02u8,
                0xffu8,
                0x05u8,
                0xd2u8,
                0xfdu8,
                0xefu8,
                0x8du8,
                0u8,
            ],
            _ => r is None,
        },
{
    match mode {
        Mode::Receiver => {
            let mut v: Vec<u8> = Vec::new();
            v.push(0);
            v.push(0);
            v.push(7);
            proof {
                assert(v@ =~= seq![0u8, 0u8, 7u8]);
            }
            Some(v)
        },
        Mode::Sender => {
            let mut v: Vec<u8> = Vec::new();
            v.push(0x02);
            v.push(0xff);
            v.push(0x05);
            v.push(0xd2);
            v.push(0xfd);
            v.push(0xef);
            v.push(0x8d);
            v.push(0);
            proof {
                assert(v@ =~= seq![0x02u8, 0xffu8, 0x05u8, 0xd2u8, 0xfdu8, 0xefu8, 0x8du8, 0u8]);
            }
            Some(v)
        },
        _ => None,
    }
}

/// The best-effort shutdown nudge sent when the transport is dropped.
pub fn shutdown_bytes() -> (r: Vec<u8>)
    ensures
        r@ == seq![0u8, 0u8, 0u8, 0u8],
{
    let mut v: Vec<u8> = Vec::new();
    v.push(0);
    v.push(0);
    v.push(0);
    v.push(0);
    proof {
        assert(v@ =~= seq![0u8, 0u8, 0u8, 0u8]);
    }
    v
}

// ============================================================
// Building frames.
// ============================================================

/// One frame: packet type, length byte, payload, CRC-32, terminator.
pub fn build_frame(typ: u8, data: &[u8]) -> (r: Vec<u8>)
    requires
        data@.len() <= 120,
    ensures
        r@ == frame_spec(seq![typ, data@.len() as u8] + data@),
{
    let mut enc = CobsEncoder::new();
    let mut hdr: Vec<u8> = Vec::new();
    hdr.push(typ);
    hdr.push(data.len() as u8);
    enc.write(hdr.as_slice());
    enc.write(data);
    proof {
        assert(enc.written_bytes() =~= seq![typ, data@.len() as u8] + data@);
    }
    enc.finish()
}

/// How many full fragments a logical packet of `n` bytes needs before its
/// final frame.
pub open spec fn frag_count(n: int) -> int
    decreases n,
{
    if n > 120 {
        1 + frag_count(n - 120)
    } else {
        0
    }
}

/// The frames `send_packet` writes for one logical packet: every oversize
/// chunk as a fragment frame of type zero and length 120, then the real
/// packet type over what remains.
pub fn build_packet_frames(typ: u8, data: &[u8]) -> (r: Vec<Vec<u8>>)
    ensures
        r@.len() == frag_count(data@.len() as int) + 1,
        forall|i: int|
            0 <= i < frag_count(data@.len() as int) ==> (#[trigger] r@[i])@ == frame_spec(
                seq![0u8, 120u8] + data@.subrange(i * 120, i * 120 + 120),
            ),
        (r@[r@.len() - 1])@ == frame_spec(
            seq![
                typ,
                (data@.len() - frag_count(data@.len() as int) * 120) as u8,
            ] + data@.skip(frag_count(data@.len() as int) * 120),
        ),
{
    let mut r: Vec<Vec<u8>> = Vec::new();
    let mut pos: usize = 0;
    let ghost n = data@.len() as int;
    while data.len() - pos > 120
        invariant
            pos == r@.len() * 120,
            pos <= data@.len(),
            frag_count(n) == r@.len() + frag_count(n - pos),
            n == data@.len(),
            forall|i: int|
                0 <= i < r@.len() ==> (#[trigger] r@[i])@ == frame_spec(
                    seq![0u8, 120u8] + data@.subrange(i * 120, i * 120 + 120),
                ),
        decreases data@.len() - pos,
    {
        let chunk = &data[pos..pos + 120];
        let f = build_frame(0, chunk);
        r.push(f);
        pos = pos + 120;
    }
    let rest = &data[pos..data.len()];
    let f = build_frame(typ, rest);
    r.push(f);
    proof {
        assert(frag_count(n - (r@.len() - 1) * 120) == 0);
        assert(rest@ =~= data@.skip((r@.len() - 1) * 120));
    }
    r
}

// ============================================================
// Parsing frames.
// ============================================================

/// Why an incoming frame was rejected.
#[derive(Clone, Copy, PartialEq, Eq, Structural, Debug)]
pub enum FrameError {
    /// The frame ended before it was complete.
    Truncated,
    /// A zero byte inside a declared run, or bytes between the CRC and the
    /// terminating zero.
    Framing,
    /// A fragment header whose length is neither zero nor a full physical
    /// packet.
    BadFragmentLength,
    /// An echo request with a payload.
    BadEchoLength,
    /// An ordinary packet longer than a physical packet allows.
    TooLarge,
    /// The received CRC differs from the computed one.
    Crc,
}

impl FrameError {
    pub open spec fn message_spec(self) -> Seq<char> {
        match self {
            FrameError::Truncated => "unexpected EOF"@,
            FrameError::Framing => "Framing error"@,
            FrameError::BadFragmentLength => "Invalid fragment length"@,
            FrameError::BadEchoLength => "Invalid echo request length"@,
            FrameError::TooLarge => "Physical packet too large"@,
            FrameError::Crc => "CRC error"@,
        }
    }

    pub fn message(&self) -> (r: &'static str)
        ensures
            r@ == self.message_spec(),
    {
        match self {
            FrameError::Truncated => "unexpected EOF",
            FrameError::Framing => "Framing error",
            FrameError::BadFragmentLength => "Invalid fragment length",
            FrameError::BadEchoLength => "Invalid echo request length",
            FrameError::TooLarge => "Physical packet too large",
            FrameError::Crc => "CRC error",
        }
    }
}

/// The header rule for an unstuffed frame: fragments carry nothing or a
/// full physical packet, echo requests carry nothing, and everything else
/// fits in a physical packet.
pub open spec fn header_ok(t: u8, l: u8) -> bool {
    if t == 0 {
        l == 0 || l == 120
    } else if t == 255 {
        l == 0
    } else {
        l <= 120
    }
}

pub open spec fn header_error(t: u8) -> FrameError {
    if t == 0 {
        FrameError::BadFragmentLength
    } else if t == 255 {
        FrameError::BadEchoLength
    } else {
        FrameError::TooLarge
    }
}

/// Everything `parse_frame` accepts, said of the frame's unstuffed image
/// `em`: a valid header, exactly the declared payload, then the CRC of all
/// that went before, then the end.
pub open spec fn frame_well_formed(em: Seq<u8>) -> bool {
    &&& em.len() >= 2
    &&& header_ok(em[0], em[1])
    &&& em.len() == em[1] + 6
    &&& em.subrange(2 + em[1] as int, em.len() as int) == be32_bytes(
        crc32_of(em.take(2 + em[1] as int)),
    )
}

/// Parse one whole frame, terminator included. The caller hands exactly
/// the bytes up to and including the first raw zero, which is how frames
/// are cut from the wire: nothing inside a frame is a zero byte.
#[verifier::rlimit(60)]
pub fn parse_frame(buf: &[u8]) -> (r: Result<(u8, Vec<u8>), FrameError>)
    requires
        buf@.len() >= 1,
        buf@[buf@.len() - 1] == 0,
        forall|i: int| 0 <= i < buf@.len() - 1 ==> buf@[i] != 0,
    ensures
        ({
            let dm = run_dec(DecState::NeedRun, buf@);
            let em = dm.1;
            match r {
                Ok(tp) => {
                    &&& dm.0 is Done
                    &&& frame_well_formed(em)
                    &&& tp.0 == em[0]
                    &&& tp.1@ == em.subrange(2, 2 + em[1] as int)
                },
                Err(e) => {
                    if em.len() >= 2 && !header_ok(em[0], em[1]) {
                        e == header_error(em[0])
                    } else if dm.0 is Broken || (em.len() >= 2 && em.len() > em[1] + 6) {
                        e == FrameError::Framing
                    } else if !(dm.0 is Done) || em.len() < 2 || em.len() < em[1] + 6 {
                        e == FrameError::Truncated
                    } else {
                        e == FrameError::Crc && !frame_well_formed(em)
                    }
                },
            }
        }),
{
    let ghost whole = run_dec(DecState::NeedRun, buf@);
    let mut dec = CobsDecoder::new();
    let mut em: Vec<u8> = Vec::new();
    let mut crc_calc: u32 = 0;
    let mut i: usize = 0;
    proof {
        assert(buf@.take(0) =~= Seq::<u8>::empty());
    }
    while i < buf.len()
        invariant
            i <= buf@.len(),
            buf@.len() >= 1,
            buf@[buf@.len() - 1] == 0,
            forall|j: int| 0 <= j < buf@.len() - 1 ==> buf@[j] != 0,
            whole == run_dec(DecState::NeedRun, buf@),
            dec.wf(),
            dec.state_of() == run_dec(DecState::NeedRun, buf@.take(i as int)).0,
            dec.emitted_bytes() == run_dec(DecState::NeedRun, buf@.take(i as int)).1,
            em@ == dec.emitted_bytes(),
            !(dec.state_of() is Done),
            !(dec.state_of() is Broken),
            em@.len() >= 2 ==> header_ok(em@[0], em@[1]),
            em@.len() >= 2 ==> em@.len() <= em@[1] + 6,
            em@.len() >= 2 && em@.len() >= em@[1] + 2 ==> crc_calc == crc32_of(
                em@.take(2 + em@[1] as int),
            ),
        decreases buf@.len() - i,
    {
        let b = buf[i];
        let step = dec.feed(b);
        proof {
            crate::cobs::lemma_run_dec_snoc(DecState::NeedRun, buf@.take(i as int), b);
            assert(buf@.take(i as int).push(b) =~= buf@.take(i as int + 1));
        }
        i = i + 1;
        match step {
            FeedResult::More => {},
            FeedResult::Out(x) => {
                let ghost em_pre = em@;
                em.push(x);
                proof {
                    assert(em@ =~= dec.emitted_bytes());
                }
                if em.len() == 2 {
                    let t = em[0];
                    let l = em[1];
                    let bad = if t == 0 {
                        !(l == 0 || l == 120)
                    } else if t == 255 {
                        l != 0
                    } else {
                        l > 120
                    };
                    if bad {
                        proof {
                            crate::cobs::lemma_run_dec_split(DecState::NeedRun, buf@, i as int);
                            assert(whole.1[0] == em@[0]);
                            assert(whole.1[1] == em@[1]);
                        }
                        return Err(if t == 0 {
                            FrameError::BadFragmentLength
                        } else if t == 255 {
                            FrameError::BadEchoLength
                        } else {
                            FrameError::TooLarge
                        });
                    }
                }
                if em.len() >= 2 {
                    let l = em[1];
                    if em.len() == 2 + l as usize {
                        crc_calc = dec.crc();
                        proof {
                            assert(em@.take(2 + em@[1] as int) =~= em@);
                        }
                    }
                    proof {
                        if em_pre.len() >= 2 && em_pre.len() >= em_pre[1] + 2 {
                            assert(em@.take(2 + em@[1] as int) =~= em_pre.take(
                                2 + em_pre[1] as int,
                            ));
                        }
                    }
                    if em.len() > 6 + l as usize {
                        proof {
                            crate::cobs::lemma_run_dec_split(DecState::NeedRun, buf@, i as int);
                            assert(whole.1[0] == em@[0]);
                            assert(whole.1[1] == em@[1]);
                            assert(whole.1.len() >= em@.len());
                        }
                        return Err(FrameError::Framing);
                    }
                }
            },
            FeedResult::Finished => {
                proof {
                    // only the final terminator finishes the frame
                    assert(buf@[i - 1] == 0);
                    assert(i == buf@.len());
                    assert(buf@.take(i as int) =~= buf@);
                }
                if em.len() < 2 {
                    return Err(FrameError::Truncated);
                }
                let l = em[1];
                if em.len() < 6 + l as usize {
                    return Err(FrameError::Truncated);
                }
                // exactly 6 + l bytes: anything more was rejected on arrival
                let c0 = em[2 + l as usize];
                let c1 = em[3 + l as usize];
                let c2 = em[4 + l as usize];
                let c3 = em[5 + l as usize];
                let ok = c0 == ((crc_calc >> 24) & 0xff) as u8 && c1 == ((crc_calc >> 16) & 0xff)
                    as u8 && c2 == ((crc_calc >> 8) & 0xff) as u8 && c3 == (crc_calc & 0xff) as u8;
                proof {
                    let want = be32_bytes(crc32_of(em@.take(2 + em@[1] as int)));
                    let rx = em@.subrange(2 + em@[1] as int, em@.len() as int);
                    if ok {
                        assert(rx =~= want);
                    } else {
                        if rx == want {
                            assert(rx[0] == want[0]);
                            assert(rx[1] == want[1]);
                            assert(rx[2] == want[2]);
                            assert(rx[3] == want[3]);
                            assert(false);
                        }
                    }
                }
                if !ok {
                    return Err(FrameError::Crc);
                }
                let t = em[0];
                let mut payload: Vec<u8> = Vec::new();
                payload.extend_from_slice(&em[2..2 + l as usize]);
                return Ok((t, payload));
            },
            FeedResult::Corrupt => {
                proof {
                    assert(buf@[i - 1] == 0);
                    assert(i == buf@.len());
                    assert(buf@.take(i as int) =~= buf@);
                }
                return Err(FrameError::Framing);
            },
        }
        proof {
            // More and Out never move the decoder past the frame
            if dec.state_of() is Done || dec.state_of() is Broken {
                assert(false);
            }
        }
    }
    proof {
        assert(buf@.take(buf@.len() as int) =~= buf@);
    }
    Err(FrameError::Truncated)
}

/// What a receiver does with a good frame, by its header.
#[derive(Clone, Copy, PartialEq, Eq, Structural, Debug)]
pub enum FrameAction {
    /// An empty type-zero frame: a keepalive; consume it silently and
    /// clear the outstanding-ping mark.
    Keepalive,
    /// A full type-zero frame: append its payload and send a fragment ack.
    Fragment,
    /// An echo request: send an echo response.
    EchoRequest,
    /// A user-visible packet of this type: deliver it and move to the
    /// ack-owing mode.
    Deliver(u8),
}

/// Classify a well-formed frame the way the receive loop does.
pub fn frame_action(typ: u8, payload_len: usize) -> (r: FrameAction)
    requires
        header_ok(typ, payload_len as u8),
        payload_len <= 120,
    ensures
        typ == 0 && payload_len == 0 ==> r == FrameAction::Keepalive,
        typ == 0 && payload_len > 0 ==> r == FrameAction::Fragment,
        typ == 255 ==> r == FrameAction::EchoRequest,
        typ != 0 && typ != 255 ==> r == FrameAction::Deliver(typ),
{
    if typ == 0 {
        if payload_len == 0 {
            FrameAction::Keepalive
        } else {
            FrameAction::Fragment
        }
    } else if typ == 255 {
        FrameAction::EchoRequest
    } else {
        FrameAction::Deliver(typ)
    }
}

// ============================================================
// Waiting for an ack after a sent packet.
// ============================================================

/// What one more ack-channel byte meant.
#[derive(Clone, Copy, PartialEq, Eq, Structural, Debug)]
pub enum AckStep {
    /// Keep reading.
    More,
    /// The ack arrived, with this flip bit.
    Flip(bool),
    /// An echo response answering our own ping was consumed.
    PingConsumed,
    /// A zero where the ack code was due: the peer shut down.
    Shutdown,
    /// Any other code there: a protocol error.
    Protocol,
    /// A nonzero byte where a leading zero was due.
    Unexpected,
}

/// The sender's wait for the three-byte ack token `00 00 {01|03}`; an echo
/// response code is consumed silently when a ping is outstanding.
pub struct AckWaiter {
    pub zeros: u8,
    pub sent_ping: bool,
}

impl AckWaiter {
    pub fn new(sent_ping: bool) -> (r: AckWaiter)
        ensures
            r.zeros == 0,
            r.sent_ping == sent_ping,
    {
        AckWaiter { zeros: 0, sent_ping }
    }

    pub fn feed(&mut self, b: u8) -> (r: AckStep)
        requires
            old(self).zeros <= 2,
        ensures
            final(self).zeros <= 2,
            ({
                let o = *old(self);
                if o.zeros < 2 {
                    if b == 0 {
                        r == AckStep::More && final(self).zeros == o.zeros + 1 && final(self).sent_ping == o.sent_ping
                    } else {
                        r == AckStep::Unexpected && *final(self) == o
                    }
                } else {
                    if b == 1 {
                        r == AckStep::Flip(false) && *final(self) == o
                    } else if b == 3 {
                        r == AckStep::Flip(true) && *final(self) == o
                    } else if b == 8 && o.sent_ping {
                        r == AckStep::PingConsumed && final(self).sent_ping == false && final(self).zeros == o.zeros
                    } else if b == 0 {
                        r == AckStep::Shutdown && *final(self) == o
                    } else {
                        r == AckStep::Protocol && *final(self) == o
                    }
                }
            }),
    {
        if self.zeros < 2 {
            if b == 0 {
                self.zeros = self.zeros + 1;
                AckStep::More
            } else {
                AckStep::Unexpected
            }
        } else {
            if b == 1 {
                AckStep::Flip(false)
            } else if b == 3 {
                AckStep::Flip(true)
            } else if b == 8 && self.sent_ping {
                self.sent_ping = false;
                AckStep::PingConsumed
            } else if b == 0 {
                AckStep::Shutdown
            } else {
                AckStep::Protocol
            }
        }
    }
}

} // verus!
