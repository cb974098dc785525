use vstd::prelude::*;

use crate::job::{AddrRange, Job};
use crate::system::{hex_ascii, TerminationCause};
use crate::textenc::{ascii_chars, ascii_string};

verus! {

/// Largest request body the hardware path accepts.
pub const MAX_JOB_SIZE: usize = 2000000;

/// How much queued serial input one serve answers with.
pub const SERIAL_IN_BLOCK_SIZE: usize = 32;

/// How often an aborted session is retried from the handshake.
pub const MAX_OVERALL_RETRIES: u32 = 3;

// ============================================================
// Big-endian helpers.
// ============================================================

pub open spec fn be16_bytes(x: u16) -> Seq<u8> {
    seq![((x >> 8) & 0xff) as u8, (x & 0xff) as u8]
}

pub fn be16_vec(x: u16) -> (r: Vec<u8>)
    ensures
        r@ == be16_bytes(x),
{
    let mut v: Vec<u8> = Vec::new();
    v.push(((x >> 8) & 0xff) as u8);
    v.push((x & 0xff) as u8);
    proof {
        assert(v@ =~= be16_bytes(x));
    }
    v
}

pub fn be32_vec(x: u32) -> (r: Vec<u8>)
    ensures
        r@ == crate::cobs::be32_bytes(x),
{
    let mut v: Vec<u8> = Vec::new();
    v.push(((x >> 24) & 0xff) as u8);
    v.push(((x >> 16) & 0xff) as u8);
    v.push(((x >> 8) & 0xff) as u8);
    v.push((x & 0xff) as u8);
    proof {
        assert(v@ =~= crate::cobs::be32_bytes(x));
    }
    v
}

// ============================================================
// Upload payloads.
// ============================================================

/// The writability map as big-endian (start, end) pairs.
pub open spec fn rwmap_bytes(rs: Seq<AddrRange>) -> Seq<u8>
    decreases rs.len(),
{
    if rs.len() == 0 {
        Seq::empty()
    } else {
        rwmap_bytes(rs.drop_last()) + be16_bytes(rs.last().start) + be16_bytes(rs.last().end)
    }
}

pub fn pack_rwmap(rs: &Vec<AddrRange>) -> (r: Vec<u8>)
    ensures
        r@ == rwmap_bytes(rs@),
{
    let mut r: Vec<u8> = Vec::new();
    let mut i: usize = 0;
    proof {
        assert(r@ =~= rwmap_bytes(rs@.take(0)));
    }
    while i < rs.len()
        invariant
            i <= rs@.len(),
            r@ == rwmap_bytes(rs@.take(i as int)),
        decreases rs@.len() - i,
    {
        let rg = rs[i];
        r.push(((rg.start >> 8) & 0xff) as u8);
        r.push((rg.start & 0xff) as u8);
        r.push(((rg.end >> 8) & 0xff) as u8);
        r.push((rg.end & 0xff) as u8);
        proof {
            assert(rs@.take(i as int + 1).drop_last() =~= rs@.take(i as int));
            assert(rs@.take(i as int + 1).last() == rs@[i as int]);
            assert(r@ =~= rwmap_bytes(rs@.take(i as int)) + be16_bytes(rs@[i as int].start)
                + be16_bytes(rs@[i as int].end));
        }
        i = i + 1;
    }
    proof {
        assert(rs@.take(rs@.len() as int) =~= rs@);
    }
    r
}

/// The termination flag byte: each of the six heuristics that a job turns
/// off clears its bit; everything defaults on.
pub open spec fn termination_flag_spec(job: Job) -> u8 {
    ((if job.terminate_on_brk == Some(false) {
        0int
    } else {
        1int
    }) + (if job.terminate_on_infinite_loop == Some(false) {
        0int
    } else {
        2int
    }) + (if job.terminate_on_zero_fetch == Some(false) {
        0int
    } else {
        4int
    }) + (if job.terminate_on_stack_fetch == Some(false) {
        0int
    } else {
        8int
    }) + (if job.terminate_on_vector_fetch == Some(false) {
        0int
    } else {
        16int
    }) + (if job.terminate_on_bad_write == Some(false) {
        0int
    } else {
        32int
    })) as u8
}

/// The flag byte for the 0x07 packet; callers send it only when it is not
/// the all-defaults value 0x3F.
pub fn termination_flag(job: &Job) -> (r: u8)
    ensures
        r == termination_flag_spec(*job),
{
    let mut flag: u8 = 0;
    if !matches!(job.terminate_on_brk, Some(false)) {
        flag = flag + 1;
    }
    if !matches!(job.terminate_on_infinite_loop, Some(false)) {
        flag = flag + 2;
    }
    if !matches!(job.terminate_on_zero_fetch, Some(false)) {
        flag = flag + 4;
    }
    if !matches!(job.terminate_on_stack_fetch, Some(false)) {
        flag = flag + 8;
    }
    if !matches!(job.terminate_on_vector_fetch, Some(false)) {
        flag = flag + 16;
    }
    if !matches!(job.terminate_on_bad_write, Some(false)) {
        flag = flag + 32;
    }
    flag
}

// ============================================================
// The merged signal timeline, packet 0x08.
// ============================================================

/// One toggle of one line on the wire; `on` is the state after it.
#[derive(Clone, Copy, PartialEq, Eq, Structural, Debug)]
pub struct SigChange {
    pub id: u8,
    pub cycle: u32,
    pub on: bool,
}

/// A timeline's toggles: states alternate away from `start_on`.
pub open spec fn sig_changes_of(cycles: Seq<u32>, id: u8, start_on: bool) -> Seq<SigChange> {
    Seq::new(cycles.len(), |i: int| SigChange { id, cycle: cycles[i], on: ((i % 2 == 0) != start_on) })
}

pub open spec fn timeline_changes(t: Option<Vec<u32>>, id: u8, start_on: bool) -> Seq<SigChange> {
    match t {
        Some(v) => sig_changes_of(v@, id, start_on),
        None => Seq::empty(),
    }
}

/// Merge two cycle-sorted change lists; ties keep the left list first.
pub open spec fn merge_changes(a: Seq<SigChange>, b: Seq<SigChange>) -> Seq<SigChange>
    decreases a.len() + b.len(),
{
    if a.len() == 0 {
        b
    } else if b.len() == 0 {
        a
    } else if a[0].cycle <= b[0].cycle {
        seq![a[0]] + merge_changes(a.skip(1), b)
    } else {
        seq![b[0]] + merge_changes(a, b.skip(1))
    }
}

/// One wire entry: a header byte carrying the line id, with the high bit
/// set when the line turns on, then the cycle as three big-endian bytes.
pub open spec fn sig_entry_bytes(c: SigChange) -> Seq<u8> {
    seq![
        (if c.on {
            128u8 | c.id
        } else {
            c.id
        }),
        ((c.cycle >> 16) & 0xff) as u8,
        ((c.cycle >> 8) & 0xff) as u8,
        (c.cycle & 0xff) as u8,
    ]
}

pub open spec fn sig_bytes(s: Seq<SigChange>) -> Seq<u8>
    decreases s.len(),
{
    if s.len() == 0 {
        Seq::empty()
    } else {
        sig_bytes(s.drop_last()) + sig_entry_bytes(s.last())
    }
}

/// Every change a job schedules, merged over the five lines, ordered by
/// cycle with ties kept in the order NMI, IRQ, RDY, SO, RES. Line ids:
/// RES 0, SO 1, NMI 2, IRQ 3, RDY 4; only RDY starts on.
pub open spec fn job_changes(job: Job) -> Seq<SigChange> {
    merge_changes(
        merge_changes(
            merge_changes(
                merge_changes(
                    timeline_changes(job.nmi, 2, false),
                    timeline_changes(job.irq, 3, false),
                ),
                timeline_changes(job.rdy, 4, true),
            ),
            timeline_changes(job.so, 1, false),
        ),
        timeline_changes(job.res, 0, false),
    )
}

fn add_changes(out: &mut Vec<SigChange>, t: &Option<Vec<u32>>, id: u8, start_on: bool)
    ensures
        final(out)@ == old(out)@ + timeline_changes(*t, id, start_on),
{
    match t {
        Some(v) => {
            let ghost target = sig_changes_of(v@, id, start_on);
            let mut on = !start_on;
            let mut i: usize = 0;
            proof {
                assert(out@ + target.take(0) =~= out@);
            }
            while i < v.len()
                invariant
                    i <= v@.len(),
                    on == ((i as int % 2 == 0) != start_on),
                    target == sig_changes_of(v@, id, start_on),
                    out@ == old(out)@ + target.take(i as int),
                decreases v@.len() - i,
            {
                out.push(SigChange { id, cycle: v[i], on });
                proof {
                    assert(target[i as int] == (SigChange {
                        id,
                        cycle: v@[i as int],
                        on: ((i as int % 2 == 0) != start_on),
                    }));
                    assert(target.take(i as int).push(target[i as int]) =~= target.take(
                        i as int + 1,
                    ));
                    assert(out@ =~= old(out)@ + target.take(i as int + 1));
                }
                on = !on;
                i = i + 1;
            }
            proof {
                assert(target.take(v@.len() as int) =~= target);
            }
        },
        None => {
            proof {
                assert(old(out)@ + Seq::<SigChange>::empty() =~= old(out)@);
            }
        },
    }
}

fn merge_change_vecs(a: &Vec<SigChange>, b: &Vec<SigChange>) -> (r: Vec<SigChange>)
    ensures
        r@ == merge_changes(a@, b@),
{
    let mut r: Vec<SigChange> = Vec::new();
    let mut i: usize = 0;
    let mut j: usize = 0;
    proof {
        assert(a@.skip(0) =~= a@);
        assert(b@.skip(0) =~= b@);
        assert(r@ + merge_changes(a@, b@) =~= merge_changes(a@, b@));
    }
    while i < a.len() || j < b.len()
        invariant
            i <= a@.len(),
            j <= b@.len(),
            merge_changes(a@, b@) == r@ + merge_changes(a@.skip(i as int), b@.skip(j as int)),
        decreases a@.len() - i + b@.len() - j,
    {
        let ghost r0 = r@;
        let ghost ra = a@.skip(i as int);
        let ghost rb = b@.skip(j as int);
        if i < a.len() && (j >= b.len() || a[i].cycle <= b[j].cycle) {
            r.push(a[i]);
            proof {
                assert(ra[0] == a@[i as int]);
                assert(ra.skip(1) =~= a@.skip(i as int + 1));
                if rb.len() == 0 {
                    assert(ra =~= seq![ra[0]] + ra.skip(1));
                    assert(merge_changes(ra.skip(1), rb) =~= ra.skip(1));
                    assert(merge_changes(ra, rb) == ra);
                }
                assert(merge_changes(ra, rb) == seq![a@[i as int]] + merge_changes(
                    a@.skip(i as int + 1),
                    rb,
                ));
                assert(r0 + (seq![a@[i as int]] + merge_changes(a@.skip(i as int + 1), rb)) =~= (r0
                    + seq![a@[i as int]]) + merge_changes(a@.skip(i as int + 1), rb));
                assert(r@ =~= r0 + seq![a@[i as int]]);
            }
            i = i + 1;
        } else {
            r.push(b[j]);
            proof {
                assert(rb[0] == b@[j as int]);
                assert(rb.skip(1) =~= b@.skip(j as int + 1));
                if ra.len() == 0 {
                    assert(rb =~= seq![rb[0]] + rb.skip(1));
                    assert(merge_changes(ra, rb.skip(1)) =~= rb.skip(1));
                    assert(merge_changes(ra, rb) == rb);
                }
                assert(merge_changes(ra, rb) == seq![b@[j as int]] + merge_changes(
                    ra,
                    b@.skip(j as int + 1),
                ));
                assert(r0 + (seq![b@[j as int]] + merge_changes(ra, b@.skip(j as int + 1))) =~= (r0
                    + seq![b@[j as int]]) + merge_changes(ra, b@.skip(j as int + 1)));
                assert(r@ =~= r0 + seq![b@[j as int]]);
            }
            j = j + 1;
        }
    }
    proof {
        assert(a@.skip(a@.len() as int) =~= Seq::<SigChange>::empty());
        assert(b@.skip(b@.len() as int) =~= Seq::<SigChange>::empty());
        assert(merge_changes(Seq::empty(), Seq::empty()) =~= Seq::<SigChange>::empty());
        assert(r@ + Seq::<SigChange>::empty() =~= r@);
    }
    r
}

/// The whole 0x08 payload; empty exactly when no line ever toggles, in
/// which case the packet is not sent.
pub fn encode_signal_changes(job: &Job) -> (r: Vec<u8>)
    requires
        job.timelines_sorted(),
    ensures
        r@ == sig_bytes(job_changes(*job)),
        r@.len() == 4 * job_changes(*job).len(),
{
    let mut nmi_c: Vec<SigChange> = Vec::new();
    let mut irq_c: Vec<SigChange> = Vec::new();
    let mut rdy_c: Vec<SigChange> = Vec::new();
    let mut so_c: Vec<SigChange> = Vec::new();
    let mut res_c: Vec<SigChange> = Vec::new();
    add_changes(&mut nmi_c, &job.nmi, 2, false);
    add_changes(&mut irq_c, &job.irq, 3, false);
    add_changes(&mut rdy_c, &job.rdy, 4, true);
    add_changes(&mut so_c, &job.so, 1, false);
    add_changes(&mut res_c, &job.res, 0, false);
    proof {
        assert(nmi_c@ =~= timeline_changes(job.nmi, 2, false));
        assert(irq_c@ =~= timeline_changes(job.irq, 3, false));
        assert(rdy_c@ =~= timeline_changes(job.rdy, 4, true));
        assert(so_c@ =~= timeline_changes(job.so, 1, false));
        assert(res_c@ =~= timeline_changes(job.res, 0, false));
    }
    let m1 = merge_change_vecs(&nmi_c, &irq_c);
    let m2 = merge_change_vecs(&m1, &rdy_c);
    let m3 = merge_change_vecs(&m2, &so_c);
    let m4 = merge_change_vecs(&m3, &res_c);
    proof {
        assert(m4@ == job_changes(*job));
    }
    let mut r: Vec<u8> = Vec::new();
    let mut i: usize = 0;
    proof {
        assert(r@ =~= sig_bytes(m4@.take(0)));
    }
    while i < m4.len()
        invariant
            i <= m4@.len(),
            r@ == sig_bytes(m4@.take(i as int)),
            r@.len() == 4 * i,
        decreases m4@.len() - i,
    {
        let c = m4[i];
        if c.on {
            r.push(128u8 | c.id);
        } else {
            r.push(c.id);
        }
        r.push(((c.cycle >> 16) & 0xff) as u8);
        r.push(((c.cycle >> 8) & 0xff) as u8);
        r.push((c.cycle & 0xff) as u8);
        proof {
            assert(m4@.take(i as int + 1).drop_last() =~= m4@.take(i as int));
            assert(m4@.take(i as int + 1).last() == m4@[i as int]);
            assert(r@ =~= sig_bytes(m4@.take(i as int)) + sig_entry_bytes(m4@[i as int]));
        }
        i = i + 1;
    }
    proof {
        assert(m4@.take(m4@.len() as int) =~= m4@);
    }
    r
}

// ============================================================
// Init record upload, packets 0x09 and 0x01.
// ============================================================

/// A record's data tiled out to `size` bytes.
pub open spec fn tile_seq(data: Seq<u8>, size: int) -> Seq<u8> {
    Seq::new(size as nat, |i: int| data[i % (data.len() as int)])
}

/// The 0x01 payloads carrying one record's bytes: the tiled image cut into
/// chunks of at most one physical packet each.
pub fn init_data_chunks(size: u32, data: &Vec<u8>) -> (r: Vec<Vec<u8>>)
    requires
        data@.len() > 0 || size == 0,
    ensures
        size == 0 ==> r@.len() == 0,
        size > 0 ==> r@.len() * 120 >= size && (r@.len() - 1) * 120 < size,
        forall|i: int|
            0 <= i < r@.len() ==> (#[trigger] r@[i])@ == tile_seq(data@, size as int).subrange(
                i * 120,
                if (i + 1) * 120 <= size {
                    (i + 1) * 120
                } else {
                    size as int
                },
            ),
{
    let mut r: Vec<Vec<u8>> = Vec::new();
    let mut pos: usize = 0;
    let ghost t = tile_seq(data@, size as int);
    while pos < size as usize
        invariant
            data@.len() > 0 || size == 0,
            pos <= size,
            pos < size ==> pos == r@.len() * 120,
            pos == size ==> (size == 0 && r@.len() == 0) || (size > 0 && r@.len() * 120 >= size
                && (r@.len() - 1) * 120 < size),
            pos == r@.len() * 120 || pos == size,
            t == tile_seq(data@, size as int),
            forall|i: int|
                0 <= i < r@.len() ==> (#[trigger] r@[i])@ == t.subrange(
                    i * 120,
                    if (i + 1) * 120 <= size {
                        (i + 1) * 120
                    } else {
                        size as int
                    },
                ),
        decreases size - pos,
    {
        let endpos: usize = if size as usize - pos > 120 {
            pos + 120
        } else {
            size as usize
        };
        let mut chunk: Vec<u8> = Vec::new();
        let mut j: usize = pos;
        proof {
            assert(chunk@ =~= t.subrange(pos as int, pos as int));
        }
        while j < endpos
            invariant
                pos <= j <= endpos,
                endpos <= size,
                data@.len() > 0,
                t == tile_seq(data@, size as int),
                chunk@ == t.subrange(pos as int, j as int),
            decreases endpos - j,
        {
            chunk.push(data[j % data.len()]);
            proof {
                assert(t.subrange(pos as int, j as int).push(t[j as int]) =~= t.subrange(
                    pos as int,
                    j as int + 1,
                ));
            }
            j = j + 1;
        }
        r.push(chunk);
        pos = endpos;
    }
    r
}

// ============================================================
// Incoming runtime packets.
// ============================================================

/// Why the event loop rejects a packet and aborts the session.
#[derive(Clone, Copy, PartialEq, Eq, Structural, Debug)]
pub enum SessionError {
    /// A cycle-report payload that is not whole 32-bit words.
    BadCycleReportLength,
    /// More trace lines than the report cap allows.
    TooManyCycleReports,
    /// A serial read request that carries bytes.
    NonEmptySerialRead,
    /// A serial write that carries none.
    EmptySerialWrite,
    /// A termination packet of the wrong size.
    WrongTerminationLength,
    /// A termination cause id with no tag.
    UnknownCause,
    /// A packet type the session does not know.
    UnknownPacketType,
}

impl SessionError {
    pub open spec fn message_spec(self) -> Seq<char> {
        match self {
            SessionError::BadCycleReportLength => "bad cycle report packet length"@,
            SessionError::TooManyCycleReports => "too many cycle reports"@,
            SessionError::NonEmptySerialRead => "non-empty serial read request"@,
            SessionError::EmptySerialWrite => "empty serial write"@,
            SessionError::WrongTerminationLength => "wrong termination length"@,
            SessionError::UnknownCause => "unknown termination cause"@,
            SessionError::UnknownPacketType => "unknown packet type"@,
        }
    }

    pub fn message(&self) -> (r: &'static str)
        ensures
            r@ == self.message_spec(),
    {
        match self {
            SessionError::BadCycleReportLength => "bad cycle report packet length",
            SessionError::TooManyCycleReports => "too many cycle reports",
            SessionError::NonEmptySerialRead => "non-empty serial read request",
            SessionError::EmptySerialWrite => "empty serial write",
            SessionError::WrongTerminationLength => "wrong termination length",
            SessionError::UnknownCause => "unknown termination cause",
            SessionError::UnknownPacketType => "unknown packet type",
        }
    }
}

/// The big-endian 32-bit word at index `i` of a word-aligned payload.
pub open spec fn word_at(b: Seq<u8>, i: int) -> u32 {
    (b[4 * i] * 0x1000000 + b[4 * i + 1] * 0x10000 + b[4 * i + 2] * 0x100 + b[4 * i + 3]) as u32
}

/// The hex rendering of one trace word: seven digits, as the trace format
/// asks, one more only if the word cannot fit in seven.
pub open spec fn word_hex_ascii(w: u32) -> Seq<u8> {
    let tail = seq![
        hex_ascii((w as int / 0x100000) % 16),
        hex_ascii((w as int / 0x10000) % 16),
        hex_ascii((w as int / 0x1000) % 16),
        hex_ascii((w as int / 0x100) % 16),
        hex_ascii((w as int / 0x10) % 16),
        hex_ascii(w as int % 16),
    ];
    if w < 0x10000000 {
        seq![hex_ascii(w as int / 0x1000000)] + tail
    } else {
        seq![hex_ascii(w as int / 0x10000000), hex_ascii((w as int / 0x1000000) % 16)] + tail
    }
}

fn word_hex_string(w: u32) -> (r: String)
    ensures
        r@ == ascii_chars(word_hex_ascii(w)),
{
    let mut b: Vec<u8> = Vec::new();
    if w < 0x10000000 {
        b.push(hex_digit_byte((w / 0x1000000) as u8));
    } else {
        b.push(hex_digit_byte((w / 0x10000000) as u8));
        b.push(hex_digit_byte(((w / 0x1000000) % 16) as u8));
    }
    b.push(hex_digit_byte(((w / 0x100000) % 16) as u8));
    b.push(hex_digit_byte(((w / 0x10000) % 16) as u8));
    b.push(hex_digit_byte(((w / 0x1000) % 16) as u8));
    b.push(hex_digit_byte(((w / 0x100) % 16) as u8));
    b.push(hex_digit_byte(((w / 0x10) % 16) as u8));
    b.push(hex_digit_byte((w % 16) as u8));
    proof {
        assert(b@ =~= word_hex_ascii(w));
        assert(forall|i: int| 0 <= i < b@.len() ==> b@[i] < 128);
    }
    ascii_string(b)
}

fn hex_digit_byte(v: u8) -> (r: u8)
    requires
        v < 16,
    ensures
        r == hex_ascii(v as int),
{
    if v < 10 {
        48 + v
    } else {
        55 + v
    }
}

/// The fields of a 0x04 termination packet.
#[derive(Clone, Copy, PartialEq, Eq, Structural, Debug)]
pub struct TermReport {
    pub num_cycles: u32,
    pub execution_time_ms: u32,
    pub last_pc: u16,
    pub cause: TerminationCause,
}

/// The wire's termination cause ids, in tag order.
pub open spec fn cause_of_id(id: u8) -> Option<TerminationCause> {
    if id == 0 {
        Some(TerminationCause::Limit)
    } else if id == 1 {
        Some(TerminationCause::Brk)
    } else if id == 2 {
        Some(TerminationCause::InfiniteLoop)
    } else if id == 3 {
        Some(TerminationCause::ZeroFetch)
    } else if id == 4 {
        Some(TerminationCause::StackFetch)
    } else if id == 5 {
        Some(TerminationCause::VectorFetch)
    } else if id == 6 {
        Some(TerminationCause::BadWrite)
    } else {
        None
    }
}

pub fn cause_from_id(id: u8) -> (r: Option<TerminationCause>)
    ensures
        r == cause_of_id(id),
{
    if id == 0 {
        Some(TerminationCause::Limit)
    } else if id == 1 {
        Some(TerminationCause::Brk)
    } else if id == 2 {
        Some(TerminationCause::InfiniteLoop)
    } else if id == 3 {
        Some(TerminationCause::ZeroFetch)
    } else if id == 4 {
        Some(TerminationCause::StackFetch)
    } else if id == 5 {
        Some(TerminationCause::VectorFetch)
    } else if id == 6 {
        Some(TerminationCause::BadWrite)
    } else {
        None
    }
}

/// Parse the eleven bytes of a termination packet: the cycle count and
/// execution time as 32-bit words, the last program counter, the cause id.
pub fn parse_termination(buf: &Vec<u8>) -> (r: Result<TermReport, SessionError>)
    ensures
        buf@.len() != 11 ==> r == Err::<TermReport, SessionError>(
            SessionError::WrongTerminationLength,
        ),
        buf@.len() == 11 ==> match cause_of_id(buf@[10]) {
            Some(c) => r matches Ok(t) && t.num_cycles == word_at(buf@, 0)
                && t.execution_time_ms == word_at(buf@, 1) && t.last_pc == buf@[8] * 256 + buf@[9]
                && t.cause == c,
            None => r == Err::<TermReport, SessionError>(SessionError::UnknownCause),
        },
{
    if buf.len() != 11 {
        return Err(SessionError::WrongTerminationLength);
    }
    let num_cycles: u32 = (buf[0] as u32) * 0x1000000 + (buf[1] as u32) * 0x10000 + (buf[2] as u32)
        * 0x100 + (buf[3] as u32);
    let execution_time_ms: u32 = (buf[4] as u32) * 0x1000000 + (buf[5] as u32) * 0x10000 + (buf[6]
        as u32) * 0x100 + (buf[7] as u32);
    let last_pc: u16 = (buf[8] as u16) * 256 + (buf[9] as u16);
    match cause_from_id(buf[10]) {
        Some(cause) => Ok(TermReport { num_cycles, execution_time_ms, last_pc, cause }),
        None => Err(SessionError::UnknownCause),
    }
}

/// What the driver must do after a good runtime packet.
pub enum SessionAction {
    /// Acknowledge without flipping.
    AckPlain,
    /// Acknowledge with a flip, then send these bytes as a 0x53 packet,
    /// flipping back.
    ServeSerial(Vec<u8>),
    /// Acknowledge without flipping and leave the loop: the run is over.
    Finish,
}

/// The receive half of a hardware session: what arrived, what is left to
/// serve, and the summary once it came.
pub struct HwSession {
    pub cycle_reports: Vec<String>,
    pub serial_out: Vec<u8>,
    pub serial_in: Vec<u8>,
    pub serial_in_pos: usize,
    pub capture_out: bool,
    pub report: Option<TermReport>,
}

impl HwSession {
    pub open spec fn wf(self) -> bool {
        &&& self.serial_in_pos <= self.serial_in@.len()
        &&& self.cycle_reports@.len() <= 1000
    }

    pub fn new(serial_in: Vec<u8>, capture_out: bool) -> (r: HwSession)
        ensures
            r.wf(),
            r.cycle_reports@ == Seq::<String>::empty(),
            r.serial_out@ == Seq::<u8>::empty(),
            r.serial_in == serial_in,
            r.serial_in_pos == 0,
            r.capture_out == capture_out,
            r.report is None,
    {
        HwSession {
            cycle_reports: Vec::new(),
            serial_out: Vec::new(),
            serial_in,
            serial_in_pos: 0,
            capture_out,
            report: None,
        }
    }

    /// One delivered packet moves the session: cycle reports append to the
    /// trace, a read request serves the next block of input, a write
    /// appends to the captured output, a termination packet ends the run.
    /// Anything else aborts, with the session left as it was.
    #[verifier::rlimit(60)]
    pub fn on_packet(&mut self, typ: u8, payload: &Vec<u8>) -> (r: Result<
        SessionAction,
        SessionError,
    >)
        requires
            old(self).wf(),
            old(self).report is None,
        ensures
            final(self).wf(),
            ({
                let o = *old(self);
                let f = *final(self);
                if typ == 1 {
                    if payload@.len() % 4 != 0 {
                        r matches Err(e) && e == SessionError::BadCycleReportLength && f == o
                    } else if o.cycle_reports@.len() + payload@.len() / 4 > 1000 {
                        r matches Err(e) && e == SessionError::TooManyCycleReports && f == o
                    } else {
                        &&& r matches Ok(a) && a is AckPlain
                        &&& f == (HwSession { cycle_reports: f.cycle_reports, ..o })
                        &&& f.cycle_reports@.len() == o.cycle_reports@.len() + payload@.len() / 4
                        &&& f.cycle_reports@.take(o.cycle_reports@.len() as int)
                            == o.cycle_reports@
                        &&& forall|i: int|
                            0 <= i < payload@.len() / 4
                                ==> (#[trigger] f.cycle_reports@[o.cycle_reports@.len() + i])@
                                == ascii_chars(word_hex_ascii(word_at(payload@, i)))
                    }
                } else if typ == 2 {
                    if payload@.len() != 0 {
                        r matches Err(e) && e == SessionError::NonEmptySerialRead && f == o
                    } else {
                        let n = if o.serial_in@.len() - o.serial_in_pos >= 32 {
                            32int
                        } else {
                            o.serial_in@.len() - o.serial_in_pos
                        };
                        &&& r matches Ok(a) && a matches SessionAction::ServeSerial(chunk)
                            && chunk@ == o.serial_in@.subrange(
                            o.serial_in_pos as int,
                            o.serial_in_pos + n,
                        )
                        &&& f == (HwSession { serial_in_pos: f.serial_in_pos, ..o })
                        &&& f.serial_in_pos == o.serial_in_pos + n
                    }
                } else if typ == 3 {
                    if payload@.len() == 0 {
                        r matches Err(e) && e == SessionError::EmptySerialWrite && f == o
                    } else {
                        &&& r matches Ok(a) && a is AckPlain
                        &&& f == (HwSession { serial_out: f.serial_out, ..o })
                        &&& f.serial_out@ == (if o.capture_out {
                            o.serial_out@ + payload@
                        } else {
                            o.serial_out@
                        })
                    }
                } else if typ == 4 {
                    if payload@.len() != 11 {
                        r matches Err(e) && e == SessionError::WrongTerminationLength && f == o
                    } else {
                        match cause_of_id(payload@[10]) {
                            Some(c) => (r matches Ok(a) && a is Finish) && f == (HwSession {
                                report: f.report,
                                ..o
                            }) && (f.report matches Some(t) && t.cause == c && t.num_cycles
                                == word_at(payload@, 0) && t.execution_time_ms == word_at(
                                payload@,
                                1,
                            ) && t.last_pc == payload@[8] * 256 + payload@[9]),
                            None => r matches Err(e) && e == SessionError::UnknownCause && f == o,
                        }
                    }
                } else {
                    r matches Err(e) && e == SessionError::UnknownPacketType && f == o
                }
            }),
    {
        if typ == 1 {
            if payload.len() % 4 != 0 {
                return Err(SessionError::BadCycleReportLength);
            }
            let n = payload.len() / 4;
            if n > 1000 || self.cycle_reports.len() > 1000 - n {
                return Err(SessionError::TooManyCycleReports);
            }
            let ghost base = self.cycle_reports@;
            let mut i: usize = 0;
            while i < n
                invariant
                    i <= n,
                    n == payload@.len() / 4,
                    payload@.len() % 4 == 0,
                    base.len() + n <= 1000,
                    self.cycle_reports@.len() == base.len() + i,
                    self.cycle_reports@.take(base.len() as int) == base,
                    forall|k: int|
                        0 <= k < i ==> (#[trigger] self.cycle_reports@[base.len() + k])@
                            == ascii_chars(word_hex_ascii(word_at(payload@, k))),
                    *self == (HwSession { cycle_reports: self.cycle_reports, ..*old(self) }),
                decreases n - i,
            {
                let w: u32 = (payload[4 * i] as u32) * 0x1000000 + (payload[4 * i + 1] as u32)
                    * 0x10000 + (payload[4 * i + 2] as u32) * 0x100 + (payload[4 * i + 3] as u32);
                let s = word_hex_string(w);
                let ghost pre = self.cycle_reports@;
                self.cycle_reports.push(s);
                proof {
                    assert(self.cycle_reports@.take(base.len() as int) =~= base);
                }
                i = i + 1;
            }
            return Ok(SessionAction::AckPlain);
        }
        if typ == 2 {
            if payload.len() != 0 {
                return Err(SessionError::NonEmptySerialRead);
            }
            let avail = self.serial_in.len() - self.serial_in_pos;
            let n = if avail >= SERIAL_IN_BLOCK_SIZE {
                SERIAL_IN_BLOCK_SIZE
            } else {
                avail
            };
            let mut chunk: Vec<u8> = Vec::new();
            chunk.extend_from_slice(&self.serial_in[self.serial_in_pos..self.serial_in_pos + n]);
            self.serial_in_pos = self.serial_in_pos + n;
            proof {
                assert(chunk@ =~= old(self).serial_in@.subrange(
                    old(self).serial_in_pos as int,
                    old(self).serial_in_pos + n,
                ));
            }
            return Ok(SessionAction::ServeSerial(chunk));
        }
        if typ == 3 {
            if payload.len() == 0 {
                return Err(SessionError::EmptySerialWrite);
            }
            if self.capture_out {
                self.serial_out.extend_from_slice(payload.as_slice());
            }
            return Ok(SessionAction::AckPlain);
        }
        if typ == 4 {
            if payload.len() != 11 {
                return Err(SessionError::WrongTerminationLength);
            }
            match parse_termination(payload) {
                Ok(t) => {
                    self.report = Some(t);
                    return Ok(SessionAction::Finish);
                },
                Err(e) => {
                    return Err(e);
                },
            }
        }
        Err(SessionError::UnknownPacketType)
    }
}

// ============================================================
// The front door's request gate.
// ============================================================

#[derive(Clone, Copy, PartialEq, Eq, Structural, Debug)]
pub enum RequestDecision {
    /// Only POST is served.
    MethodNotAllowed,
    /// The request must carry a content length.
    LengthRequired,
    /// The body may not exceed the job size cap.
    TooLarge,
    /// Read the body and run the job.
    Proceed,
}

/// The method and size gate of the hardware front end.
pub fn check_request(method_is_post: bool, content_length: Option<u64>) -> (r: RequestDecision)
    ensures
        !method_is_post ==> r == RequestDecision::MethodNotAllowed,
        method_is_post && content_length is None ==> r == RequestDecision::LengthRequired,
        (method_is_post && (content_length matches Some(n) && n > 2000000)) ==> r
            == RequestDecision::TooLarge,
        (method_is_post && (content_length matches Some(n) && n <= 2000000)) ==> r
            == RequestDecision::Proceed,
{
    if !method_is_post {
        RequestDecision::MethodNotAllowed
    } else {
        match content_length {
            None => RequestDecision::LengthRequired,
            Some(n) => {
                if n > 2000000 {
                    RequestDecision::TooLarge
                } else {
                    RequestDecision::Proceed
                }
            },
        }
    }
}

} // verus!
