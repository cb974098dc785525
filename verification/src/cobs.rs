use vstd::prelude::*;

use crate::crcdigest::{crc32_of, digest_bytes, digest_sum32, digest_write, digest_write_u8, ieee_digest};

verus! {

// ============================================================
// Stuffing, as a fold over the input with the pending run carried along.
// A frame's inner stream is cut into groups: a stuffing byte, then the
// nonzero bytes of the run. A zero byte ends a run; a run that reaches
// 254 buffered bytes is emitted with the reserved stuffing byte 255 and
// carries no implied zero.
// ============================================================

/// The bytes emitted and the run still pending after stuffing `s`,
/// starting with `r` already buffered.
pub open spec fn stuff_pair(s: Seq<u8>, r: Seq<u8>) -> (Seq<u8>, Seq<u8>)
    decreases s.len(),
{
    if s.len() == 0 {
        (Seq::empty(), r)
    } else {
        let c = s[0];
        let rest = s.skip(1);
        if c == 0 {
            let p = stuff_pair(rest, Seq::empty());
            (seq![(r.len() + 1) as u8] + r + p.0, p.1)
        } else if r.len() == 254 {
            let p = stuff_pair(rest, seq![c]);
            (seq![255u8] + r + p.0, p.1)
        } else {
            stuff_pair(rest, r.push(c))
        }
    }
}

/// The final flush of a pending run: its stuffing byte, then its bytes.
pub open spec fn flush_run(r: Seq<u8>) -> Seq<u8> {
    if r.len() > 0 {
        seq![(r.len() + 1) as u8] + r
    } else {
        Seq::empty()
    }
}

/// The full stuffed image of `s`: every group, the last run flushed,
/// without the terminating zero.
pub open spec fn cobs_stuff(s: Seq<u8>) -> Seq<u8> {
    stuff_pair(s, Seq::empty()).0 + flush_run(stuff_pair(s, Seq::empty()).1)
}

/// A 32-bit value as four big-endian bytes.
pub open spec fn be32_bytes(x: u32) -> Seq<u8> {
    seq![
        ((x >> 24) & 0xff) as u8,
        ((x >> 16) & 0xff) as u8,
        ((x >> 8) & 0xff) as u8,
        (x & 0xff) as u8,
    ]
}

/// A whole frame for the content `s`: the content and its CRC-32 stuffed
/// together, then the terminating zero.
pub open spec fn frame_spec(s: Seq<u8>) -> Seq<u8> {
    cobs_stuff(s + be32_bytes(crc32_of(s))).push(0)
}

// ============================================================
// The decoder's state machine, one byte at a time.
// ============================================================

#[derive(Clone, Copy, PartialEq, Eq, Structural, Debug)]
pub enum DecState {
    /// At a group boundary; the next byte is a stuffing byte.
    NeedRun,
    /// At a group boundary with a literal zero owed; it is emitted only if
    /// another group follows.
    DeferZero,
    /// Inside an ordinary group; the field counts the bytes still owed,
    /// plus one.
    Run(u8),
    /// Inside a reserved 255 group, which implies no zero at its end.
    LongRun(u8),
    /// The frame ended at its terminating zero.
    Done,
    /// A framing error: a zero byte inside a declared run.
    Broken,
}

pub open spec fn opt_seq(o: Option<u8>) -> Seq<u8> {
    match o {
        Some(b) => seq![b],
        None => Seq::empty(),
    }
}

/// One decoder step: the next state and the byte emitted, if any.
pub open spec fn dec_step(st: DecState, b: u8) -> (DecState, Option<u8>) {
    match st {
        DecState::NeedRun => {
            if b == 0 {
                (DecState::Done, None)
            } else if b == 255 {
                (DecState::LongRun(254), None)
            } else if b == 1 {
                (DecState::DeferZero, None)
            } else {
                (DecState::Run(b), None)
            }
        },
        DecState::DeferZero => {
            if b == 0 {
                (DecState::Done, None)
            } else if b == 255 {
                (DecState::LongRun(254), Some(0))
            } else if b == 1 {
                (DecState::DeferZero, Some(0))
            } else {
                (DecState::Run(b), Some(0))
            }
        },
        DecState::Run(n) => {
            if b == 0 {
                (DecState::Broken, None)
            } else if n <= 2 {
                (DecState::DeferZero, Some(b))
            } else {
                (DecState::Run((n - 1) as u8), Some(b))
            }
        },
        DecState::LongRun(n) => {
            if b == 0 {
                (DecState::Broken, None)
            } else if n <= 2 {
                (DecState::NeedRun, Some(b))
            } else {
                (DecState::LongRun((n - 1) as u8), Some(b))
            }
        },
        DecState::Done => (DecState::Done, None),
        DecState::Broken => (DecState::Broken, None),
    }
}

/// The decoder run over a whole input: final state and everything emitted.
pub open spec fn run_dec(st: DecState, input: Seq<u8>) -> (DecState, Seq<u8>)
    decreases input.len(),
{
    if input.len() == 0 {
        (st, Seq::empty())
    } else {
        let s1 = dec_step(st, input[0]);
        let s2 = run_dec(s1.0, input.skip(1));
        (s2.0, opt_seq(s1.1) + s2.1)
    }
}

// ============================================================
// Executable encoder.
// ============================================================

/// Streaming COBS encoder with a rolling CRC-32 over the unstuffed bytes.
pub struct CobsEncoder {
    out: Vec<u8>,
    run: Vec<u8>,
    digest: crc::crc32::Digest,
    written: Ghost<Seq<u8>>,
}

impl CobsEncoder {
    /// Everything handed to `write` so far; the CRC covers exactly this.
    pub closed spec fn written_bytes(self) -> Seq<u8> {
        self.written@
    }

    pub closed spec fn run_ok(self) -> bool {
        &&& self.run@.len() <= 254
        &&& forall|i: int| 0 <= i < self.run@.len() ==> self.run@[i] != 0
    }

    pub closed spec fn wf(self) -> bool {
        &&& self.run_ok()
        &&& self.out@ == stuff_pair(self.written@, Seq::<u8>::empty()).0
        &&& self.run@ == stuff_pair(self.written@, Seq::<u8>::empty()).1
        &&& digest_bytes(self.digest) == self.written@
    }

    pub fn new() -> (r: CobsEncoder)
        ensures
            r.wf(),
            r.written_bytes() == Seq::<u8>::empty(),
    {
        let r = CobsEncoder {
            out: Vec::new(),
            run: Vec::new(),
            digest: ieee_digest(),
            written: Ghost(Seq::empty()),
        };
        proof {
            assert(stuff_pair(Seq::<u8>::empty(), Seq::<u8>::empty()).0 =~= Seq::<u8>::empty());
        }
        r
    }

    /// Stuff one byte; the digest and the ghost tally are left alone.
    fn push_byte(&mut self, c: u8, Ghost(w): Ghost<Seq<u8>>)
        requires
            old(self).run_ok(),
            old(self).out@ == stuff_pair(w, Seq::<u8>::empty()).0,
            old(self).run@ == stuff_pair(w, Seq::<u8>::empty()).1,
        ensures
            final(self).run_ok(),
            final(self).out@ == stuff_pair(w.push(c), Seq::<u8>::empty()).0,
            final(self).run@ == stuff_pair(w.push(c), Seq::<u8>::empty()).1,
            final(self).digest == old(self).digest,
            final(self).written == old(self).written,
    {
        proof {
            lemma_stuff_pair_snoc(w, c);
        }
        if c == 0 {
            let sb = (self.run.len() + 1) as u8;
            self.out.push(sb);
            self.out.append(&mut self.run);
            proof {
                let p = stuff_pair(w, Seq::<u8>::empty());
                assert(self.out@ =~= p.0 + seq![(p.1.len() + 1) as u8] + p.1);
                assert(self.run@ =~= Seq::<u8>::empty());
            }
        } else if self.run.len() == 254 {
            self.out.push(255);
            self.out.append(&mut self.run);
            self.run.push(c);
            proof {
                let p = stuff_pair(w, Seq::<u8>::empty());
                assert(self.out@ =~= p.0 + seq![255u8] + p.1);
                assert(self.run@ =~= seq![c]);
            }
        } else {
            self.run.push(c);
        }
    }

    /// Append `data` to the frame content: it is folded into the CRC and
    /// stuffed into the output.
    pub fn write(&mut self, data: &[u8])
        requires
            old(self).wf(),
        ensures
            final(self).wf(),
            final(self).written_bytes() == old(self).written_bytes() + data@,
    {
        digest_write(&mut self.digest, data);
        let ghost w0 = self.written@;
        proof {
            assert(w0 + data@.take(0) =~= w0);
        }
        let mut i: usize = 0;
        while i < data.len()
            invariant
                i <= data@.len(),
                self.run_ok(),
                self.out@ == stuff_pair(w0 + data@.take(i as int), Seq::<u8>::empty()).0,
                self.run@ == stuff_pair(w0 + data@.take(i as int), Seq::<u8>::empty()).1,
                digest_bytes(self.digest) == w0 + data@,
                self.written@ == w0,
            decreases data@.len() - i,
        {
            let c = data[i];
            self.push_byte(c, Ghost(w0 + data@.take(i as int)));
            proof {
                assert((w0 + data@.take(i as int)).push(c) =~= w0 + data@.take(i as int + 1));
            }
            i = i + 1;
        }
        proof {
            assert(w0 + data@.take(data@.len() as int) =~= w0 + data@);
        }
        self.written = Ghost(w0 + data@);
    }

    /// The rolling CRC-32 of everything written so far.
    pub fn crc(&self) -> (r: u32)
        requires
            self.wf(),
        ensures
            r == crc32_of(self.written_bytes()),
    {
        digest_sum32(&self.digest)
    }

    /// Close the frame: stuff the big-endian CRC-32 of the content, flush
    /// the pending run, and write the terminating zero.
    pub fn finish(self) -> (frame: Vec<u8>)
        requires
            self.wf(),
        ensures
            frame@ == frame_spec(self.written_bytes()),
    {
        let mut me = self;
        let ghost w = me.written@;
        let crc = digest_sum32(&me.digest);
        let b0 = ((crc >> 24) & 0xff) as u8;
        let b1 = ((crc >> 16) & 0xff) as u8;
        let b2 = ((crc >> 8) & 0xff) as u8;
        let b3 = (crc & 0xff) as u8;
        me.push_byte(b0, Ghost(w));
        me.push_byte(b1, Ghost(w.push(b0)));
        me.push_byte(b2, Ghost(w.push(b0).push(b1)));
        me.push_byte(b3, Ghost(w.push(b0).push(b1).push(b2)));
        proof {
            assert(w.push(b0).push(b1).push(b2).push(b3) =~= w + be32_bytes(crc32_of(w)));
        }
        let ghost u = w + be32_bytes(crc32_of(w));
        if me.run.len() > 0 {
            let sb = (me.run.len() + 1) as u8;
            me.out.push(sb);
            me.out.append(&mut me.run);
            proof {
                let p = stuff_pair(u, Seq::<u8>::empty());
                assert(me.out@ =~= p.0 + flush_run(p.1));
            }
        } else {
            proof {
                let p = stuff_pair(u, Seq::<u8>::empty());
                assert(me.out@ =~= p.0 + flush_run(p.1));
            }
        }
        me.out.push(0);
        proof {
            assert(me.out@ =~= frame_spec(w));
        }
        me.out
    }
}

// ============================================================
// Executable decoder.
// ============================================================

/// What one fed byte produced.
#[derive(Clone, Copy, PartialEq, Eq, Structural, Debug)]
pub enum FeedResult {
    /// Nothing yet; feed more bytes.
    More,
    /// One literal byte of the inner stream.
    Out(u8),
    /// The frame ended at its terminating zero.
    Finished,
    /// A framing error: a zero byte inside a declared run.
    Corrupt,
}

pub open spec fn feed_result_spec(s: (DecState, Option<u8>)) -> FeedResult {
    match s.1 {
        Some(b) => FeedResult::Out(b),
        None => if s.0 is Done {
            FeedResult::Finished
        } else if s.0 is Broken {
            FeedResult::Corrupt
        } else {
            FeedResult::More
        },
    }
}

pub open spec fn dec_state_ok(st: DecState) -> bool {
    match st {
        DecState::Run(n) => 2 <= n <= 254,
        DecState::LongRun(n) => 2 <= n <= 254,
        _ => true,
    }
}

/// Streaming COBS decoder with a rolling CRC-32 over the emitted bytes.
pub struct CobsDecoder {
    state: DecState,
    digest: crc::crc32::Digest,
    emitted: Ghost<Seq<u8>>,
}

impl CobsDecoder {
    /// Every literal byte emitted so far; the CRC covers exactly this.
    pub closed spec fn emitted_bytes(self) -> Seq<u8> {
        self.emitted@
    }

    pub closed spec fn state_of(self) -> DecState {
        self.state
    }

    pub closed spec fn wf(self) -> bool {
        &&& dec_state_ok(self.state)
        &&& digest_bytes(self.digest) == self.emitted@
    }

    pub fn new() -> (r: CobsDecoder)
        ensures
            r.wf(),
            r.state_of() == DecState::NeedRun,
            r.emitted_bytes() == Seq::<u8>::empty(),
    {
        CobsDecoder { state: DecState::NeedRun, digest: ieee_digest(), emitted: Ghost(Seq::empty()) }
    }

    fn emit(&mut self, b: u8) -> (r: FeedResult)
        requires
            old(self).wf(),
        ensures
            final(self).wf(),
            final(self).state == old(self).state,
            final(self).emitted@ == old(self).emitted@.push(b),
            r == FeedResult::Out(b),
    {
        digest_write_u8(&mut self.digest, b);
        self.emitted = Ghost(self.emitted@.push(b));
        FeedResult::Out(b)
    }

    /// Feed one raw frame byte and take one decoder step.
    pub fn feed(&mut self, b: u8) -> (r: FeedResult)
        requires
            old(self).wf(),
        ensures
            final(self).wf(),
            final(self).state_of() == dec_step(old(self).state_of(), b).0,
            final(self).emitted_bytes() == old(self).emitted_bytes()
                + opt_seq(dec_step(old(self).state_of(), b).1),
            r == feed_result_spec(dec_step(old(self).state_of(), b)),
    {
        let st = self.state;
        let r = match st {
            DecState::NeedRun => {
                if b == 0 {
                    self.state = DecState::Done;
                    FeedResult::Finished
                } else if b == 255 {
                    self.state = DecState::LongRun(254);
                    FeedResult::More
                } else if b == 1 {
                    self.state = DecState::DeferZero;
                    FeedResult::More
                } else {
                    self.state = DecState::Run(b);
                    FeedResult::More
                }
            },
            DecState::DeferZero => {
                if b == 0 {
                    self.state = DecState::Done;
                    FeedResult::Finished
                } else {
                    if b == 255 {
                        self.state = DecState::LongRun(254);
                    } else if b == 1 {
                        self.state = DecState::DeferZero;
                    } else {
                        self.state = DecState::Run(b);
                    }
                    self.emit(0)
                }
            },
            DecState::Run(n) => {
                if b == 0 {
                    self.state = DecState::Broken;
                    FeedResult::Corrupt
                } else {
                    if n <= 2 {
                        self.state = DecState::DeferZero;
                    } else {
                        self.state = DecState::Run(n - 1);
                    }
                    self.emit(b)
                }
            },
            DecState::LongRun(n) => {
                if b == 0 {
                    self.state = DecState::Broken;
                    FeedResult::Corrupt
                } else {
                    if n <= 2 {
                        self.state = DecState::NeedRun;
                    } else {
                        self.state = DecState::LongRun(n - 1);
                    }
                    self.emit(b)
                }
            },
            DecState::Done => FeedResult::Finished,
            DecState::Broken => FeedResult::Corrupt,
        };
        proof {
            assert(final(self).emitted_bytes() == old(self).emitted_bytes()
                + opt_seq(dec_step(old(self).state_of(), b).1)) by {
                if opt_seq(dec_step(old(self).state_of(), b).1).len() == 0 {
                    assert(old(self).emitted@ + Seq::<u8>::empty() =~= old(self).emitted@);
                } else {
                    assert(old(self).emitted@ + opt_seq(dec_step(old(self).state_of(), b).1)
                        =~= old(self).emitted@.push(opt_seq(dec_step(old(self).state_of(), b).1)[0]));
                }
            }
        }
        r
    }

    /// The rolling CRC-32 of every byte emitted so far.
    pub fn crc(&self) -> (r: u32)
        requires
            self.wf(),
        ensures
            r == crc32_of(self.emitted_bytes()),
    {
        digest_sum32(&self.digest)
    }
}

// ============================================================
// Lemmas about stuffing.
// ============================================================

/// Stuffing distributes over concatenation of the input, carrying the run.
proof fn lemma_stuff_pair_concat(a: Seq<u8>, b: Seq<u8>, r: Seq<u8>)
    ensures
        stuff_pair(a + b, r).0 == stuff_pair(a, r).0 + stuff_pair(b, stuff_pair(a, r).1).0,
        stuff_pair(a + b, r).1 == stuff_pair(b, stuff_pair(a, r).1).1,
    decreases a.len(),
{
    if a.len() == 0 {
        assert(a + b =~= b);
        assert(stuff_pair(a, r).0 + stuff_pair(b, r).0 =~= stuff_pair(b, r).0);
    } else {
        let c = a[0];
        assert((a + b)[0] == c);
        assert((a + b).skip(1) =~= a.skip(1) + b);
        if c == 0 {
            lemma_stuff_pair_concat(a.skip(1), b, Seq::empty());
            let pa = stuff_pair(a.skip(1), Seq::<u8>::empty());
            let pb = stuff_pair(b, pa.1);
            assert(seq![(r.len() + 1) as u8] + r + (pa.0 + pb.0)
                =~= (seq![(r.len() + 1) as u8] + r + pa.0) + pb.0);
        } else if r.len() == 254 {
            lemma_stuff_pair_concat(a.skip(1), b, seq![c]);
            let pa = stuff_pair(a.skip(1), seq![c]);
            let pb = stuff_pair(b, pa.1);
            assert(seq![255u8] + r + (pa.0 + pb.0) =~= (seq![255u8] + r + pa.0) + pb.0);
        } else {
            lemma_stuff_pair_concat(a.skip(1), b, r.push(c));
        }
    }
}

/// Stuffing written as a front recursion, final flush included; this is
/// the shape the decoding proofs peel group by group.
pub open spec fn stuff_from(s: Seq<u8>, r: Seq<u8>) -> Seq<u8>
    decreases s.len(),
{
    if s.len() == 0 {
        flush_run(r)
    } else {
        let c = s[0];
        let rest = s.skip(1);
        if c == 0 {
            seq![(r.len() + 1) as u8] + r + stuff_from(rest, Seq::empty())
        } else if r.len() == 254 {
            seq![255u8] + r + stuff_from(rest, seq![c])
        } else {
            stuff_from(rest, r.push(c))
        }
    }
}

/// The two spellings of stuffing agree.
proof fn lemma_stuff_from_pair(s: Seq<u8>, r: Seq<u8>)
    ensures
        stuff_from(s, r) == stuff_pair(s, r).0 + flush_run(stuff_pair(s, r).1),
    decreases s.len(),
{
    if s.len() == 0 {
        assert(Seq::<u8>::empty() + flush_run(r) =~= flush_run(r));
    } else {
        let c = s[0];
        let rest = s.skip(1);
        if c == 0 {
            lemma_stuff_from_pair(rest, Seq::empty());
            let p = stuff_pair(rest, Seq::<u8>::empty());
            assert(seq![(r.len() + 1) as u8] + r + (p.0 + flush_run(p.1))
                =~= (seq![(r.len() + 1) as u8] + r + p.0) + flush_run(p.1));
        } else if r.len() == 254 {
            lemma_stuff_from_pair(rest, seq![c]);
            let p = stuff_pair(rest, seq![c]);
            assert(seq![255u8] + r + (p.0 + flush_run(p.1))
                =~= (seq![255u8] + r + p.0) + flush_run(p.1));
        } else {
            lemma_stuff_from_pair(rest, r.push(c));
        }
    }
}

/// One more input byte moves the stuffing state by one step.
proof fn lemma_stuff_pair_snoc(w: Seq<u8>, c: u8)
    ensures
        ({
            let p = stuff_pair(w, Seq::<u8>::empty());
            let q = stuff_pair(w.push(c), Seq::<u8>::empty());
            if c == 0 {
                q.0 == p.0 + seq![(p.1.len() + 1) as u8] + p.1 && q.1 == Seq::<u8>::empty()
            } else if p.1.len() == 254 {
                q.0 == p.0 + seq![255u8] + p.1 && q.1 == seq![c]
            } else {
                q.0 == p.0 && q.1 == p.1.push(c)
            }
        }),
{
    let e = Seq::<u8>::empty();
    assert(w.push(c) =~= w + seq![c]);
    lemma_stuff_pair_concat(w, seq![c], e);
    let p = stuff_pair(w, e);
    let ps = stuff_pair(seq![c], p.1);
    assert(seq![c][0] == c);
    assert(seq![c].skip(1) =~= e);
    if c == 0 {
        assert(stuff_pair(e, e).0 =~= e);
        assert(stuff_pair(e, e).1 =~= e);
        assert(ps.0 =~= seq![(p.1.len() + 1) as u8] + p.1);
        assert(ps.1 =~= e);
        assert(p.0 + ps.0 =~= p.0 + seq![(p.1.len() + 1) as u8] + p.1);
    } else if p.1.len() == 254 {
        assert(stuff_pair(e, seq![c]).0 =~= e);
        assert(stuff_pair(e, seq![c]).1 =~= seq![c]);
        assert(ps.0 =~= seq![255u8] + p.1);
        assert(ps.1 =~= seq![c]);
        assert(p.0 + ps.0 =~= p.0 + seq![255u8] + p.1);
    } else {
        assert(stuff_pair(e, p.1.push(c)).0 =~= e);
        assert(stuff_pair(e, p.1.push(c)).1 =~= p.1.push(c));
        assert(ps.0 =~= e);
        assert(ps.1 =~= p.1.push(c));
        assert(p.0 + ps.0 =~= p.0);
    }
}

// ============================================================
// Round trip: decoding a stuffed stream gives the input back.
// ============================================================

/// Decoding distributes over concatenation of the raw stream.
proof fn lemma_run_dec_concat(st: DecState, a: Seq<u8>, b: Seq<u8>)
    ensures
        run_dec(st, a + b).0 == run_dec(run_dec(st, a).0, b).0,
        run_dec(st, a + b).1 == run_dec(st, a).1 + run_dec(run_dec(st, a).0, b).1,
    decreases a.len(),
{
    if a.len() == 0 {
        assert(a + b =~= b);
        assert(run_dec(st, a).1 + run_dec(st, b).1 =~= run_dec(st, b).1);
    } else {
        assert((a + b)[0] == a[0]);
        assert((a + b).skip(1) =~= a.skip(1) + b);
        let s1 = dec_step(st, a[0]);
        lemma_run_dec_concat(s1.0, a.skip(1), b);
        let m = run_dec(s1.0, a.skip(1));
        let f = run_dec(m.0, b);
        assert(opt_seq(s1.1) + (m.1 + f.1) =~= (opt_seq(s1.1) + m.1) + f.1);
    }
}

/// Reading the body of a declared run emits exactly its bytes, then stands
/// at the boundary that the run's kind dictates.
proof fn lemma_run_body(rb: Seq<u8>, rest: Seq<u8>, long: bool)
    requires
        1 <= rb.len() <= 253,
        forall|i: int| 0 <= i < rb.len() ==> rb[i] != 0,
    ensures
        ({
            let st0 = if long {
                DecState::LongRun((rb.len() + 1) as u8)
            } else {
                DecState::Run((rb.len() + 1) as u8)
            };
            let bnd = if long {
                DecState::NeedRun
            } else {
                DecState::DeferZero
            };
            run_dec(st0, rb + rest).0 == run_dec(bnd, rest).0
                && run_dec(st0, rb + rest).1 == rb + run_dec(bnd, rest).1
        }),
    decreases rb.len(),
{
    let st0 = if long {
        DecState::LongRun((rb.len() + 1) as u8)
    } else {
        DecState::Run((rb.len() + 1) as u8)
    };
    let bnd = if long {
        DecState::NeedRun
    } else {
        DecState::DeferZero
    };
    assert((rb + rest)[0] == rb[0]);
    assert((rb + rest).skip(1) =~= rb.skip(1) + rest);
    if rb.len() == 1 {
        assert(rb.skip(1) + rest =~= rest);
        assert(seq![rb[0]] + run_dec(bnd, rest).1 =~= rb + run_dec(bnd, rest).1);
    } else {
        lemma_run_body(rb.skip(1), rest, long);
        assert(seq![rb[0]] + (rb.skip(1) + run_dec(bnd, rest).1) =~= rb + run_dec(bnd, rest).1);
    }
}

/// Holds when the stuffing of `u`, begun with `rl` bytes already buffered,
/// never fills a run to 254 bytes: no group of `u` takes the reserved long
/// form, whose declared and actual lengths disagree on this wire.
pub open spec fn clear_ok(u: Seq<u8>, rl: int) -> bool
    decreases u.len(),
{
    if u.len() == 0 {
        rl <= 253
    } else if u[0] == 0 {
        rl <= 253 && clear_ok(u.skip(1), 0)
    } else {
        rl + 1 <= 253 && clear_ok(u.skip(1), rl + 1)
    }
}

/// As `clear_ok`, with four bytes of headroom left at the end for a CRC
/// trailer of any value. Holds in particular whenever every stretch of
/// consecutive nonzero bytes in the content is shorter than 250 bytes.
pub open spec fn head_ok(s: Seq<u8>, rl: int) -> bool
    decreases s.len(),
{
    if s.len() == 0 {
        rl <= 249
    } else if s[0] == 0 {
        rl <= 253 && head_ok(s.skip(1), 0)
    } else {
        rl + 1 <= 253 && head_ok(s.skip(1), rl + 1)
    }
}

/// Frame content that stuffs cleanly whatever four CRC bytes follow it.
pub open spec fn enc_headroom(s: Seq<u8>) -> bool {
    head_ok(s, 0)
}

/// What decoding gives back: the input, except that a final zero byte is
/// deferred at the frame's end and never emitted.
pub open spec fn strip_tail_zero(u: Seq<u8>) -> Seq<u8> {
    if u.len() > 0 && u.last() == 0 {
        u.drop_last()
    } else {
        u
    }
}

proof fn lemma_clear_small(t: Seq<u8>, rl: int)
    requires
        0 <= rl,
        rl + t.len() <= 253,
    ensures
        clear_ok(t, rl),
    decreases t.len(),
{
    if t.len() > 0 {
        if t[0] == 0 {
            lemma_clear_small(t.skip(1), 0);
        } else {
            lemma_clear_small(t.skip(1), rl + 1);
        }
    }
}

proof fn lemma_head_extend(s: Seq<u8>, rl: int, t: Seq<u8>)
    requires
        head_ok(s, rl),
        0 <= rl,
        t.len() <= 4,
    ensures
        clear_ok(s + t, rl),
    decreases s.len(),
{
    if s.len() == 0 {
        assert(s + t =~= t);
        lemma_clear_small(t, rl);
    } else {
        assert((s + t)[0] == s[0]);
        assert((s + t).skip(1) =~= s.skip(1) + t);
        if s[0] == 0 {
            lemma_head_extend(s.skip(1), 0, t);
        } else {
            lemma_head_extend(s.skip(1), rl + 1, t);
        }
    }
}

proof fn lemma_run_dec_single(st: DecState, b: u8)
    ensures
        run_dec(st, seq![b]).0 == dec_step(st, b).0,
        run_dec(st, seq![b]).1 == opt_seq(dec_step(st, b).1),
{
    assert(seq![b][0] == b);
    assert(seq![b].skip(1) =~= Seq::<u8>::empty());
    assert(run_dec(dec_step(st, b).0, Seq::<u8>::empty()).1 =~= Seq::<u8>::empty());
    assert(opt_seq(dec_step(st, b).1) + Seq::<u8>::empty() =~= opt_seq(dec_step(st, b).1));
}

proof fn lemma_run_dec_step(st: DecState, x: u8, rest: Seq<u8>)
    ensures
        run_dec(st, seq![x] + rest).0 == run_dec(dec_step(st, x).0, rest).0,
        run_dec(st, seq![x] + rest).1 == opt_seq(dec_step(st, x).1)
            + run_dec(dec_step(st, x).0, rest).1,
{
    lemma_run_dec_single(st, x);
    lemma_run_dec_concat(st, seq![x], rest);
}

/// One more raw byte advances the decoder run by one step.
pub(crate) proof fn lemma_run_dec_snoc(st: DecState, s: Seq<u8>, b: u8)
    ensures
        run_dec(st, s.push(b)).0 == dec_step(run_dec(st, s).0, b).0,
        run_dec(st, s.push(b)).1 == run_dec(st, s).1 + opt_seq(dec_step(run_dec(st, s).0, b).1),
{
    assert(s.push(b) =~= s + seq![b]);
    lemma_run_dec_concat(st, s, seq![b]);
    lemma_run_dec_single(run_dec(st, s).0, b);
}

/// A decoder run splits at any point: what was emitted so far stays a
/// prefix of the whole run's emission.
pub(crate) proof fn lemma_run_dec_split(st: DecState, s: Seq<u8>, i: int)
    requires
        0 <= i <= s.len(),
    ensures
        run_dec(st, s).0 == run_dec(run_dec(st, s.take(i)).0, s.skip(i)).0,
        run_dec(st, s).1 == run_dec(st, s.take(i)).1 + run_dec(
            run_dec(st, s.take(i)).0,
            s.skip(i),
        ).1,
{
    assert(s.take(i) + s.skip(i) =~= s);
    lemma_run_dec_concat(st, s.take(i), s.skip(i));
}

/// The heart of the round trip: a cleanly stuffed stream, closed by its
/// terminating zero, decodes to the pending run, then the input with only
/// a final zero withheld; the deferred zero owed on entry is emitted iff
/// at least one group follows.
#[verifier::rlimit(60)]
proof fn lemma_unstuff(u: Seq<u8>, r: Seq<u8>, d: bool)
    requires
        clear_ok(u, r.len() as int),
        r.len() <= 253,
        forall|i: int| 0 <= i < r.len() ==> r[i] != 0,
    ensures
        ({
            let bnd = if d {
                DecState::DeferZero
            } else {
                DecState::NeedRun
            };
            let pre: Seq<u8> = if d && (u.len() > 0 || r.len() > 0) {
                seq![0u8]
            } else {
                Seq::empty()
            };
            run_dec(bnd, stuff_from(u, r) + seq![0u8]).0 == DecState::Done
                && run_dec(bnd, stuff_from(u, r) + seq![0u8]).1 == pre + r + strip_tail_zero(u)
        }),
    decreases u.len(),
{
    let bnd = if d {
        DecState::DeferZero
    } else {
        DecState::NeedRun
    };
    let pre: Seq<u8> = if d && (u.len() > 0 || r.len() > 0) {
        seq![0u8]
    } else {
        Seq::empty()
    };
    let e = Seq::<u8>::empty();
    if u.len() == 0 {
        if r.len() == 0 {
            let stream = stuff_from(u, r) + seq![0u8];
            assert(stream =~= seq![0u8]);
            lemma_run_dec_single(bnd, 0);
            assert(run_dec(bnd, stream).1 =~= e);
            assert(pre + r + strip_tail_zero(u) =~= e);
        } else {
            let x = (r.len() + 1) as u8;
            let stream = stuff_from(u, r) + seq![0u8];
            assert(stream =~= seq![x] + (r + seq![0u8]));
            lemma_run_dec_step(bnd, x, r + seq![0u8]);
            assert(dec_step(bnd, x).0 == DecState::Run(x));
            lemma_run_body(r, seq![0u8], false);
            lemma_run_dec_single(DecState::DeferZero, 0);
            assert(run_dec(bnd, stream).0 == DecState::Done);
            assert(run_dec(bnd, stream).1 =~= opt_seq(dec_step(bnd, x).1) + (r + e));
            assert(opt_seq(dec_step(bnd, x).1) + (r + e) =~= pre + r + strip_tail_zero(u));
        }
    } else if u[0] == 0 {
        let rest = u.skip(1);
        let x = (r.len() + 1) as u8;
        let tail = stuff_from(rest, e) + seq![0u8];
        let stream = stuff_from(u, r) + seq![0u8];
        assert(stream =~= seq![x] + (r + tail));
        lemma_unstuff(rest, e, true);
        let pre2: Seq<u8> = if rest.len() > 0 {
            seq![0u8]
        } else {
            e
        };
        assert(run_dec(DecState::DeferZero, tail).0 == DecState::Done);
        assert(run_dec(DecState::DeferZero, tail).1 == pre2 + e + strip_tail_zero(rest));
        lemma_run_dec_step(bnd, x, r + tail);
        if r.len() == 0 {
            // the group is a bare stuffing byte 1
            assert(x == 1);
            assert(r + tail =~= tail);
            assert(dec_step(bnd, 1).0 == DecState::DeferZero);
            assert(run_dec(bnd, stream).0 == DecState::Done);
            assert(run_dec(bnd, stream).1
                =~= opt_seq(dec_step(bnd, 1).1) + (pre2 + e + strip_tail_zero(rest)));
        } else {
            assert(2 <= x <= 254);
            assert(dec_step(bnd, x).0 == DecState::Run(x));
            lemma_run_body(r, tail, false);
            assert(run_dec(bnd, stream).0 == DecState::Done);
            assert(run_dec(bnd, stream).1
                =~= opt_seq(dec_step(bnd, x).1) + (r + (pre2 + e + strip_tail_zero(rest))));
        }
        if rest.len() == 0 {
            assert(strip_tail_zero(u) =~= e);
        } else {
            assert(u =~= seq![0u8] + rest);
            assert(u.last() == rest.last());
            if rest.last() == 0 {
                assert(u.drop_last() =~= seq![0u8] + rest.drop_last());
            }
            assert(strip_tail_zero(u) =~= seq![0u8] + strip_tail_zero(rest));
        }
        assert(run_dec(bnd, stream).1 =~= pre + r + strip_tail_zero(u));
    } else {
        let c = u[0];
        let rest = u.skip(1);
        assert(r.len() + 1 <= 253);
        lemma_unstuff(rest, r.push(c), d);
        assert(stuff_from(u, r) == stuff_from(rest, r.push(c)));
        let pre2: Seq<u8> = if d && (rest.len() > 0 || r.push(c).len() > 0) {
            seq![0u8]
        } else {
            e
        };
        assert(pre2 == pre);
        if rest.len() == 0 {
            assert(strip_tail_zero(u) =~= seq![c]);
            assert(strip_tail_zero(rest) =~= e);
        } else {
            assert(u =~= seq![c] + rest);
            assert(u.last() == rest.last());
            if rest.last() == 0 {
                assert(u.drop_last() =~= seq![c] + rest.drop_last());
            }
            assert(strip_tail_zero(u) =~= seq![c] + strip_tail_zero(rest));
        }
        assert(pre2 + r.push(c) + strip_tail_zero(rest) =~= pre + r + strip_tail_zero(u));
    }
}

/// COBS round trip, stated over the raw frame. For content `s` with
/// `enc_headroom` and any four trailing CRC bytes `t`, decoding the stuffed
/// and zero-terminated stream ends the frame cleanly and gives back `s`
/// followed by at least three bytes of the trailer; in particular the first
/// `s.len()` emitted bytes are exactly `s`, so the decoder's rolling CRC at
/// that point is the CRC-32 of `s`.
pub proof fn lemma_frame_round_trip(s: Seq<u8>, t: Seq<u8>)
    requires
        enc_headroom(s),
        t.len() == 4,
    ensures
        ({
            let dec = run_dec(DecState::NeedRun, cobs_stuff(s + t).push(0));
            dec.0 == DecState::Done
                && dec.1.len() >= s.len() + 3
                && dec.1.take(s.len() as int) == s
                && crc32_of(dec.1.take(s.len() as int)) == crc32_of(s)
        }),
{
    let u = s + t;
    lemma_head_extend(s, 0, t);
    lemma_stuff_from_pair(u, Seq::empty());
    assert(cobs_stuff(u) == stuff_from(u, Seq::empty()));
    lemma_unstuff(u, Seq::empty(), false);
    assert(cobs_stuff(u).push(0) =~= stuff_from(u, Seq::<u8>::empty()) + seq![0u8]);
    let dec = run_dec(DecState::NeedRun, cobs_stuff(u).push(0));
    assert(dec.1 =~= strip_tail_zero(u));
    if u.last() == 0 {
        assert(u.drop_last() =~= s + t.drop_last());
    }
    assert(dec.1.take(s.len() as int) =~= s);
}

/// The decoding of a whole frame for content `s`: the CRC trailer is the
/// one the encoder wrote, so this is `lemma_frame_round_trip` at the frame
/// that `CobsEncoder::finish` returns.
pub proof fn lemma_frame_decodes_to_content(s: Seq<u8>)
    requires
        enc_headroom(s),
    ensures
        ({
            let dec = run_dec(DecState::NeedRun, frame_spec(s));
            dec.0 == DecState::Done
                && dec.1.len() >= s.len() + 3
                && dec.1.take(s.len() as int) == s
        }),
{
    lemma_frame_round_trip(s, be32_bytes(crc32_of(s)));
}

/// The all-zero content of any length survives the round trip: decoding
/// its frame emits that many zero bytes before the CRC trailer.
pub proof fn lemma_all_zeros_round_trip(n: nat)
    ensures
        ({
            let s = Seq::<u8>::new(n, |i: int| 0u8);
            let dec = run_dec(DecState::NeedRun, frame_spec(s));
            dec.0 == DecState::Done
                && dec.1.len() >= n + 3
                && dec.1.take(n as int) == s
        }),
{
    let s = Seq::<u8>::new(n, |i: int| 0u8);
    assert(head_ok(s, 0)) by {
        lemma_zeros_head_ok(n);
    }
    lemma_frame_decodes_to_content(s);
}

proof fn lemma_zeros_head_ok(n: nat)
    ensures
        head_ok(Seq::<u8>::new(n, |i: int| 0u8), 0),
    decreases n,
{
    let s = Seq::<u8>::new(n, |i: int| 0u8);
    if n > 0 {
        lemma_zeros_head_ok((n - 1) as nat);
        assert(s.skip(1) =~= Seq::<u8>::new((n - 1) as nat, |i: int| 0u8));
    }
}

/// A zero byte inside a declared run is always a framing error: the
/// decoder breaks and emits nothing.
pub proof fn lemma_zero_inside_run_is_error(st: DecState)
    requires
        st is Run || st is LongRun,
    ensures
        dec_step(st, 0).0 == DecState::Broken,
        dec_step(st, 0).1 == None::<u8>,
{
}

} // verus!
