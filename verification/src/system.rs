use vstd::prelude::*;

use std::collections::VecDeque;

use crate::job::{AddrRange, InitRec, Job};

verus! {

/// Default cycle budget when the job gives none.
pub const MAX_CYCLE_COUNT: u32 = 10000000;

/// At most this many trace lines are recorded.
pub const CYCLES_TO_REPORT: u32 = 1000;

/// Which asynchronous CPU line a scheduled flip drives.
#[derive(Clone, Copy, PartialEq, Eq, Structural, Debug)]
pub enum FlipKind {
    Overflow,
    Nmi,
    Irq,
}

/// One scheduled change of a CPU line.
#[derive(Clone, Copy, PartialEq, Eq, Structural, Debug)]
pub struct Flip {
    pub kind: FlipKind,
    pub cycle: u32,
    pub state: bool,
}

/// What the driver must do to the CPU after a bus event: the supervisor
/// never touches the CPU itself, it hands these out.
#[derive(Clone, Copy, PartialEq, Eq, Structural, Debug)]
pub enum CpuEffect {
    /// OR the V flag into the status register.
    SetOverflow,
    SetIrq(bool),
    SetNmi(bool),
}

/// Why a run ended.
#[derive(Clone, Copy, PartialEq, Eq, Structural, Debug)]
pub enum TerminationCause {
    Limit,
    Brk,
    InfiniteLoop,
    ZeroFetch,
    StackFetch,
    VectorFetch,
    BadWrite,
}

impl TerminationCause {
    pub open spec fn tag_spec(self) -> Seq<char> {
        match self {
            TerminationCause::Limit => "limit"@,
            TerminationCause::Brk => "brk"@,
            TerminationCause::InfiniteLoop => "infinite_loop"@,
            TerminationCause::ZeroFetch => "zero_fetch"@,
            TerminationCause::StackFetch => "stack_fetch"@,
            TerminationCause::VectorFetch => "vector_fetch"@,
            TerminationCause::BadWrite => "bad_write"@,
        }
    }

    /// The tag as the result document spells it.
    pub fn tag(&self) -> (r: &'static str)
        ensures
            r@ == self.tag_spec(),
    {
        match self {
            TerminationCause::Limit => "limit",
            TerminationCause::Brk => "brk",
            TerminationCause::InfiniteLoop => "infinite_loop",
            TerminationCause::ZeroFetch => "zero_fetch",
            TerminationCause::StackFetch => "stack_fetch",
            TerminationCause::VectorFetch => "vector_fetch",
            TerminationCause::BadWrite => "bad_write",
        }
    }
}

/// The six bus event kinds, with the type codes the trace records.
#[derive(Clone, Copy, PartialEq, Eq, Structural, Debug)]
pub enum BusKind {
    LockedWrite,
    LockedRead,
    VectorRead,
    Write,
    Read,
    Opcode,
}

impl BusKind {
    pub open spec fn code_spec(self) -> u8 {
        match self {
            BusKind::LockedWrite => 2,
            BusKind::LockedRead => 3,
            BusKind::VectorRead => 5,
            BusKind::Write => 6,
            BusKind::Read => 7,
            BusKind::Opcode => 15,
        }
    }

    pub fn code(&self) -> (r: u8)
        ensures
            r == self.code_spec(),
    {
        match self {
            BusKind::LockedWrite => 2,
            BusKind::LockedRead => 3,
            BusKind::VectorRead => 5,
            BusKind::Write => 6,
            BusKind::Read => 7,
            BusKind::Opcode => 15,
        }
    }
}

// ============================================================
// Signal timelines as flip sequences.
// ============================================================

/// A timeline's toggles as flips: states alternate, asserted first.
pub open spec fn flips_of(cycles: Seq<u32>, kind: FlipKind) -> Seq<Flip> {
    Seq::new(cycles.len(), |i: int| Flip { kind, cycle: cycles[i], state: i % 2 == 0 })
}

pub open spec fn timeline_flips(t: Option<Vec<u32>>, kind: FlipKind) -> Seq<Flip> {
    match t {
        Some(v) => flips_of(v@, kind),
        None => Seq::empty(),
    }
}

pub open spec fn flips_sorted(s: Seq<Flip>) -> bool {
    forall|i: int, j: int| 0 <= i < j < s.len() ==> s[i].cycle <= s[j].cycle
}

/// Merge two flip lists by cycle; ties keep the left list first, which is
/// what makes the overall order stable by insertion.
pub open spec fn merge_flips(a: Seq<Flip>, b: Seq<Flip>) -> Seq<Flip>
    decreases a.len() + b.len(),
{
    if a.len() == 0 {
        b
    } else if b.len() == 0 {
        a
    } else if a[0].cycle <= b[0].cycle {
        seq![a[0]] + merge_flips(a.skip(1), b)
    } else {
        seq![b[0]] + merge_flips(a, b.skip(1))
    }
}

/// Every flip a job schedules, ordered by cycle, overflow entries first on
/// ties, then NMI, then IRQ.
pub open spec fn job_flips(job: Job) -> Seq<Flip> {
    merge_flips(
        merge_flips(
            timeline_flips(job.so, FlipKind::Overflow),
            timeline_flips(job.nmi, FlipKind::Nmi),
        ),
        timeline_flips(job.irq, FlipKind::Irq),
    )
}

proof fn lemma_merge_sorted(a: Seq<Flip>, b: Seq<Flip>)
    requires
        flips_sorted(a),
        flips_sorted(b),
    ensures
        flips_sorted(merge_flips(a, b)),
        merge_flips(a, b).len() == a.len() + b.len(),
        merge_flips(a, b).len() > 0 ==> (a.len() > 0 && merge_flips(a, b)[0] == a[0]) || (
        b.len() > 0 && merge_flips(a, b)[0] == b[0]),
    decreases a.len() + b.len(),
{
    if a.len() == 0 || b.len() == 0 {
    } else if a[0].cycle <= b[0].cycle {
        assert(flips_sorted(a.skip(1)));
        lemma_merge_sorted(a.skip(1), b);
        let m = merge_flips(a.skip(1), b);
        let r = merge_flips(a, b);
        assert forall|i: int, j: int| 0 <= i < j < r.len() implies r[i].cycle <= r[j].cycle by {
            if i == 0 {
                if m.len() > 0 {
                    assert(a[0].cycle <= m[0].cycle);
                    assert(r[j] == m[j - 1]);
                    if j - 1 > 0 {
                        assert(m[0].cycle <= m[j - 1].cycle);
                    }
                }
            } else {
                assert(r[i] == m[i - 1]);
                assert(r[j] == m[j - 1]);
            }
        }
    } else {
        assert(flips_sorted(b.skip(1)));
        lemma_merge_sorted(a, b.skip(1));
        let m = merge_flips(a, b.skip(1));
        let r = merge_flips(a, b);
        assert forall|i: int, j: int| 0 <= i < j < r.len() implies r[i].cycle <= r[j].cycle by {
            if i == 0 {
                if m.len() > 0 {
                    assert(b[0].cycle <= m[0].cycle);
                    assert(r[j] == m[j - 1]);
                    if j - 1 > 0 {
                        assert(m[0].cycle <= m[j - 1].cycle);
                    }
                }
            } else {
                assert(r[i] == m[i - 1]);
                assert(r[j] == m[j - 1]);
            }
        }
    }
}

/// Merge two cycle-sorted flip lists, keeping the left one first on ties.
fn merge_flip_vecs(a: &Vec<Flip>, b: &Vec<Flip>) -> (r: Vec<Flip>)
    ensures
        r@ == merge_flips(a@, b@),
{
    let mut r: Vec<Flip> = Vec::new();
    let mut i: usize = 0;
    let mut j: usize = 0;
    proof {
        assert(a@.skip(0) =~= a@);
        assert(b@.skip(0) =~= b@);
        assert(r@ + merge_flips(a@, b@) =~= merge_flips(a@, b@));
    }
    while i < a.len() || j < b.len()
        invariant
            i <= a@.len(),
            j <= b@.len(),
            merge_flips(a@, b@) == r@ + merge_flips(a@.skip(i as int), b@.skip(j as int)),
        decreases a@.len() - i + b@.len() - j,
    {
        let ghost r0 = r@;
        let ghost ra = a@.skip(i as int);
        let ghost rb = b@.skip(j as int);
        if i < a.len() && (j >= b.len() || a[i].cycle <= b[j].cycle) {
            r.push(a[i]);
            proof {
                assert(ra[0] == a@[i as int]);
                assert(ra.skip(1) =~= a@.skip(i as int + 1));
                if rb.len() == 0 {
                    assert(ra =~= seq![ra[0]] + ra.skip(1));
                    assert(merge_flips(ra.skip(1), rb) =~= ra.skip(1));
                    assert(merge_flips(ra, rb) == ra);
                }
                assert(merge_flips(ra, rb) == seq![a@[i as int]] + merge_flips(
                    a@.skip(i as int + 1),
                    rb,
                ));
                assert(r0 + (seq![a@[i as int]] + merge_flips(a@.skip(i as int + 1), rb)) =~= (r0
                    + seq![a@[i as int]]) + merge_flips(a@.skip(i as int + 1), rb));
                assert(r@ =~= r0 + seq![a@[i as int]]);
            }
            i = i + 1;
        } else {
            r.push(b[j]);
            proof {
                assert(rb[0] == b@[j as int]);
                assert(rb.skip(1) =~= b@.skip(j as int + 1));
                if ra.len() == 0 {
                    assert(rb =~= seq![rb[0]] + rb.skip(1));
                    assert(merge_flips(ra, rb.skip(1)) =~= rb.skip(1));
                    assert(merge_flips(ra, rb) == rb);
                }
                assert(merge_flips(ra, rb) == seq![b@[j as int]] + merge_flips(
                    ra,
                    b@.skip(j as int + 1),
                ));
                assert(r0 + (seq![b@[j as int]] + merge_flips(ra, b@.skip(j as int + 1))) =~= (r0
                    + seq![b@[j as int]]) + merge_flips(ra, b@.skip(j as int + 1)));
                assert(r@ =~= r0 + seq![b@[j as int]]);
            }
            j = j + 1;
        }
    }
    proof {
        assert(a@.skip(a@.len() as int) =~= Seq::<Flip>::empty());
        assert(b@.skip(b@.len() as int) =~= Seq::<Flip>::empty());
        assert(merge_flips(Seq::empty(), Seq::empty()) =~= Seq::<Flip>::empty());
        assert(r@ + Seq::<Flip>::empty() =~= r@);
    }
    r
}

// ============================================================
// The memory image a job describes.
// ============================================================

/// RAM before any initialization record: zero everywhere except the reset
/// vector high byte, preset so the default reset vector is 0x0200.
pub open spec fn base_image() -> Seq<u8> {
    Seq::new(65536, |i: int| if i == 0xFFFD { 2u8 } else { 0u8 })
}

/// One record laid down: `data` tiled from `base` over `size` cells, the
/// rest untouched. A record with no bytes writes nothing.
pub open spec fn tile_at(s: Seq<u8>, base: int, size: int, data: Seq<u8>) -> Seq<u8> {
    Seq::new(
        s.len() as nat,
        |i: int| if base <= i < base + size && data.len() > 0 {
            data[(i - base) % (data.len() as int)]
        } else {
            s[i]
        },
    )
}

pub open spec fn apply_init(s: Seq<u8>, rec: InitRec) -> Seq<u8> {
    tile_at(s, rec.base as int, rec.effective_size(), rec.data@)
}

/// All records laid down in order; later records overwrite earlier ones.
pub open spec fn apply_inits(s: Seq<u8>, recs: Seq<InitRec>) -> Seq<u8>
    decreases recs.len(),
{
    if recs.len() == 0 {
        s
    } else {
        apply_init(apply_inits(s, recs.drop_last()), recs.last())
    }
}

/// Init tiling law: within one record's span the final image is the
/// record's data repeated and truncated to its size; outside, the prior
/// image shows through.
pub proof fn lemma_init_tiling(s0: Seq<u8>, rec: InitRec)
    requires
        s0.len() == 65536,
        rec.base + rec.effective_size() <= 65536,
        rec.data@.len() > 0,
    ensures
        apply_init(s0, rec).len() == 65536,
        forall|i: int|
            rec.base <= i < rec.base + rec.effective_size() ==> #[trigger] apply_init(s0, rec)[i]
                == rec.data@[(i - rec.base) % (rec.data@.len() as int)],
        forall|i: int|
            0 <= i < 65536 && !(rec.base <= i < rec.base + rec.effective_size())
                ==> #[trigger] apply_init(s0, rec)[i] == s0[i],
{
}

pub open spec fn in_ranges(ranges: Seq<AddrRange>, i: int) -> bool {
    exists|k: int| 0 <= k < ranges.len() && (#[trigger] ranges[k]).start <= i <= ranges[k].end
}

/// The writability map the job asks for: its ranges, or the default zero
/// page and stack when it gives none.
pub open spec fn rwmap_or_default(rw: Option<Vec<AddrRange>>) -> Seq<AddrRange> {
    match rw {
        Some(v) => v@,
        None => seq![AddrRange { start: 0, end: 511 }],
    }
}

/// Mark every cell of every range writable; nothing is ever unmarked.
fn fill_ranges(writable: &mut Vec<bool>, ranges: &Vec<AddrRange>)
    requires
        old(writable)@.len() == 65536,
        forall|k: int| 0 <= k < ranges@.len() ==> (#[trigger] ranges@[k]).start <= ranges@[k].end,
    ensures
        final(writable)@.len() == 65536,
        forall|i: int|
            0 <= i < 65536 ==> final(writable)@[i] == (old(writable)@[i] || in_ranges(ranges@, i)),
{
    let mut k: usize = 0;
    while k < ranges.len()
        invariant
            k <= ranges@.len(),
            writable@.len() == 65536,
            old(writable)@.len() == 65536,
            forall|m: int| 0 <= m < ranges@.len() ==> (#[trigger] ranges@[m]).start <= ranges@[m].end,
            forall|i: int|
                0 <= i < 65536 ==> writable@[i] == (old(writable)@[i] || in_ranges(
                    ranges@.take(k as int),
                    i,
                )),
        decreases ranges@.len() - k,
    {
        let rg = ranges[k];
        proof {
            assert(ranges@[k as int].start <= ranges@[k as int].end);
        }
        let endpos: usize = rg.end as usize + 1;
        let mut a: usize = rg.start as usize;
        while a < endpos
            invariant
                rg.start as int <= a as int <= endpos as int,
                endpos == rg.end as int + 1,
                k < ranges@.len(),
                rg == ranges@[k as int],
                writable@.len() == 65536,
                old(writable)@.len() == 65536,
                forall|i: int|
                    0 <= i < 65536 ==> writable@[i] == (old(writable)@[i] || in_ranges(
                        ranges@.take(k as int),
                        i,
                    ) || (rg.start <= i < a as int)),
            decreases endpos - a,
        {
            writable[a] = true;
            a = a + 1;
        }
        proof {
            assert(ranges@.take(k as int + 1).drop_last() =~= ranges@.take(k as int));
            assert(ranges@.take(k as int + 1).last() == ranges@[k as int]);
            assert forall|i: int| 0 <= i < 65536 implies writable@[i] == (old(writable)@[i]
                || in_ranges(ranges@.take(k as int + 1), i)) by {
                let t1 = ranges@.take(k as int + 1);
                if in_ranges(ranges@.take(k as int), i) {
                    let w = choose|m: int|
                        0 <= m < ranges@.take(k as int).len() && (#[trigger] ranges@.take(
                            k as int,
                        )[m]).start <= i <= ranges@.take(k as int)[m].end;
                    assert(t1[w].start <= i <= t1[w].end);
                } else if rg.start <= i < a as int {
                    assert(t1[k as int].start <= i <= t1[k as int].end);
                } else if in_ranges(t1, i) {
                    let w = choose|m: int|
                        0 <= m < t1.len() && (#[trigger] t1[m]).start <= i <= t1[m].end;
                    if w < k as int {
                        assert(ranges@.take(k as int)[w].start <= i <= ranges@.take(
                            k as int,
                        )[w].end);
                    }
                }
            }
        }
        k = k + 1;
    }
    proof {
        assert(ranges@.take(ranges@.len() as int) =~= ranges@);
    }
}

// ============================================================
// Hex trace lines.
// ============================================================

pub open spec fn hex_ascii(v: int) -> u8 {
    if 0 <= v < 10 {
        (48 + v) as u8
    } else if 10 <= v < 16 {
        (55 + v) as u8
    } else {
        0
    }
}

/// The seven hex digits of one trace line: type code, address, data.
pub open spec fn cycle_ascii(code: u8, addr: u16, data: u8) -> Seq<u8> {
    seq![
        hex_ascii(code as int),
        hex_ascii(addr as int / 4096),
        hex_ascii((addr as int / 256) % 16),
        hex_ascii((addr as int / 16) % 16),
        hex_ascii(addr as int % 16),
        hex_ascii(data as int / 16),
        hex_ascii(data as int % 16),
    ]
}

fn hex_digit(v: u8) -> (r: u8)
    requires
        v < 16,
    ensures
        r == hex_ascii(v as int),
{
    if v < 10 {
        48 + v
    } else {
        55 + v
    }
}

fn cycle_string(code: u8, addr: u16, data: u8) -> (r: String)
    requires
        code < 16,
    ensures
        r@ == crate::textenc::ascii_chars(cycle_ascii(code, addr, data)),
{
    let mut b: Vec<u8> = Vec::new();
    b.push(hex_digit(code));
    b.push(hex_digit((addr / 4096) as u8));
    b.push(hex_digit(((addr / 256) % 16) as u8));
    b.push(hex_digit(((addr / 16) % 16) as u8));
    b.push(hex_digit((addr % 16) as u8));
    b.push(hex_digit(data / 16));
    b.push(hex_digit(data % 16));
    proof {
        assert(b@ =~= cycle_ascii(code, addr, data));
        assert(forall|i: int| 0 <= i < b@.len() ==> b@[i] < 128);
    }
    crate::textenc::ascii_string(b)
}

// ============================================================
// The execution supervisor.
// ============================================================

/// The CPU's dispatched line changes for a batch of due flips; a cleared
/// overflow line is a no-op in this model and dispatches nothing.
pub open spec fn effect_of(f: Flip) -> Seq<CpuEffect> {
    match f.kind {
        FlipKind::Overflow => if f.state {
            seq![CpuEffect::SetOverflow]
        } else {
            Seq::empty()
        },
        FlipKind::Nmi => seq![CpuEffect::SetNmi(f.state)],
        FlipKind::Irq => seq![CpuEffect::SetIrq(f.state)],
    }
}

pub open spec fn flip_effects(s: Seq<Flip>) -> Seq<CpuEffect>
    decreases s.len(),
{
    if s.len() == 0 {
        Seq::empty()
    } else {
        flip_effects(s.drop_last()) + effect_of(s.last())
    }
}

/// The flips due at `now` were handed out, in order, and dropped from the
/// queue; everything later stays.
pub open spec fn flips_drained(
    before: Seq<Flip>,
    after: Seq<Flip>,
    now: int,
    eff: Seq<CpuEffect>,
    k: int,
) -> bool {
    &&& 0 <= k <= before.len()
    &&& (forall|i: int| 0 <= i < k ==> (#[trigger] before[i]).cycle <= now)
    &&& (k < before.len() ==> before[k].cycle > now)
    &&& after == before.skip(k)
    &&& eff == flip_effects(before.take(k))
}

/// The cycle-accounting step of one bus event: past the budget or after a
/// latch nothing moves; otherwise the count advances, a trace line may be
/// recorded, and the due flips are dispatched.
pub open spec fn cycle_advanced(
    o: System,
    f: System,
    code: u8,
    addr: u16,
    data: u8,
    eff: Seq<CpuEffect>,
) -> bool {
    if o.num_cycles >= o.cycles_to_run || o.termination_cause is Some {
        &&& f.num_cycles == o.num_cycles
        &&& f.cycles == o.cycles
        &&& f.cycles_to_report == o.cycles_to_report
        &&& f.flips == o.flips
        &&& eff == Seq::<CpuEffect>::empty()
    } else {
        &&& f.num_cycles == o.num_cycles + 1
        &&& (if o.cycles_to_report > 0 {
            f.cycles_to_report == o.cycles_to_report - 1 && f.cycles@.len() == o.cycles@.len() + 1
                && f.cycles@ == o.cycles@.push(f.cycles@.last()) && f.cycles@.last()@
                == crate::textenc::ascii_chars(cycle_ascii(code, addr, data))
        } else {
            f.cycles == o.cycles && f.cycles_to_report == o.cycles_to_report
        })
        &&& exists|k: int| #[trigger] flips_drained(o.flips@, f.flips@, o.num_cycles + 1, eff, k)
    }
}

/// The software harness: 64 KiB of RAM with a writability mask, optional
/// memory-mapped serial ports, termination heuristics, a cycle budget and
/// trace, and the queue of scheduled line flips.
pub struct System {
    pub sram: Vec<u8>,
    pub writable: Vec<bool>,
    pub serial_in_addr: Option<u16>,
    pub serial_out_addr: Option<u16>,
    pub serial_in_data: VecDeque<u8>,
    pub serial_out_data: Vec<u8>,
    pub vector_has_been_pulled: bool,
    pub cycles_to_report: u32,
    pub cycles: Vec<String>,
    pub terminate_on_brk: bool,
    pub terminate_on_infinite_loop: bool,
    pub terminate_on_zero_fetch: bool,
    pub terminate_on_stack_fetch: bool,
    pub terminate_on_vector_fetch: bool,
    pub terminate_on_bad_write: bool,
    pub last_pc: Option<u16>,
    pub termination_cause: Option<TerminationCause>,
    pub cycles_to_run: u32,
    pub num_cycles: u32,
    pub flips: VecDeque<Flip>,
}

impl System {
    pub open spec fn wf(self) -> bool {
        &&& self.sram@.len() == 65536
        &&& self.writable@.len() == 65536
        &&& self.cycles@.len() + self.cycles_to_report <= 1000
        &&& self.cycles@.len() + self.cycles_to_report <= self.cycles_to_run
        &&& self.num_cycles >= 5
        &&& flips_sorted(self.flips@)
        &&& (self.num_cycles > 5 ==> forall|i: int|
            0 <= i < self.flips@.len() ==> (#[trigger] self.flips@[i]).cycle > self.num_cycles)
    }

    /// The byte a read at `addr` returns: the next queued serial byte (or
    /// zero when the queue is dry) at the input port, RAM anywhere else.
    pub open spec fn read_value(self, addr: u16) -> u8 {
        if self.serial_in_addr == Some(addr) {
            if self.serial_in_data@.len() > 0 {
                self.serial_in_data@[0]
            } else {
                0
            }
        } else {
            self.sram@[addr as int]
        }
    }

    /// A read of the dry input port sets the CPU's overflow flag.
    pub open spec fn overflow_on_read(self, addr: u16) -> bool {
        self.serial_in_addr == Some(addr) && self.serial_in_data@.len() == 0
    }

    pub open spec fn serial_after_read(self, addr: u16) -> Seq<u8> {
        if self.serial_in_addr == Some(addr) && self.serial_in_data@.len() > 0 {
            self.serial_in_data@.skip(1)
        } else {
            self.serial_in_data@
        }
    }

    pub open spec fn write_to_serial(self, addr: u16) -> bool {
        self.serial_out_addr == Some(addr)
    }

    /// A write outside the mask and the ports latches `bad_write`, once,
    /// when that heuristic is enabled.
    pub open spec fn bad_write_latches(self, addr: u16) -> bool {
        &&& !self.write_to_serial(addr)
        &&& !self.writable@[addr as int]
        &&& self.terminate_on_bad_write
        &&& self.termination_cause is None
    }

    pub open spec fn ovf_eff(self, addr: u16) -> Seq<CpuEffect> {
        if self.overflow_on_read(addr) {
            seq![CpuEffect::SetOverflow]
        } else {
            Seq::empty()
        }
    }

    /// Everything a plain read does, shared by the three read callbacks.
    pub open spec fn read_post(
        o: System,
        f: System,
        addr: u16,
        code: u8,
        val: u8,
        eff: Seq<CpuEffect>,
        pulled: bool,
    ) -> bool {
        &&& val == o.read_value(addr)
        &&& f.serial_in_data@ == o.serial_after_read(addr)
        &&& f.sram == o.sram
        &&& f.writable == o.writable
        &&& f.serial_out_data == o.serial_out_data
        &&& f.serial_in_addr == o.serial_in_addr
        &&& f.serial_out_addr == o.serial_out_addr
        &&& f.last_pc == o.last_pc
        &&& f.termination_cause == o.termination_cause
        &&& f.cycles_to_run == o.cycles_to_run
        &&& f.terminate_on_brk == o.terminate_on_brk
        &&& f.terminate_on_infinite_loop == o.terminate_on_infinite_loop
        &&& f.terminate_on_zero_fetch == o.terminate_on_zero_fetch
        &&& f.terminate_on_stack_fetch == o.terminate_on_stack_fetch
        &&& f.terminate_on_vector_fetch == o.terminate_on_vector_fetch
        &&& f.terminate_on_bad_write == o.terminate_on_bad_write
        &&& (if pulled {
            exists|rest: Seq<CpuEffect>|
                eff == o.ovf_eff(addr) + rest && #[trigger] cycle_advanced(
                    o,
                    f,
                    code,
                    addr,
                    o.read_value(addr),
                    rest,
                )
        } else {
            &&& eff == o.ovf_eff(addr)
            &&& f.num_cycles == o.num_cycles
            &&& f.cycles == o.cycles
            &&& f.cycles_to_report == o.cycles_to_report
            &&& f.flips == o.flips
        })
    }

    /// Everything a write does, shared by the two write callbacks.
    pub open spec fn write_post(
        o: System,
        f: System,
        addr: u16,
        code: u8,
        value: u8,
        eff: Seq<CpuEffect>,
        pulled: bool,
    ) -> bool {
        &&& f.serial_in_data == o.serial_in_data
        &&& f.writable == o.writable
        &&& f.serial_in_addr == o.serial_in_addr
        &&& f.serial_out_addr == o.serial_out_addr
        &&& f.last_pc == o.last_pc
        &&& f.cycles_to_run == o.cycles_to_run
        &&& f.vector_has_been_pulled == o.vector_has_been_pulled
        &&& f.terminate_on_brk == o.terminate_on_brk
        &&& f.terminate_on_infinite_loop == o.terminate_on_infinite_loop
        &&& f.terminate_on_zero_fetch == o.terminate_on_zero_fetch
        &&& f.terminate_on_stack_fetch == o.terminate_on_stack_fetch
        &&& f.terminate_on_vector_fetch == o.terminate_on_vector_fetch
        &&& f.terminate_on_bad_write == o.terminate_on_bad_write
        &&& (o.write_to_serial(addr) ==> f.serial_out_data@ == o.serial_out_data@.push(value)
            && f.sram == o.sram && f.termination_cause == o.termination_cause)
        &&& (!o.write_to_serial(addr) && o.writable@[addr as int] ==> f.sram@ == o.sram@.update(
            addr as int,
            value,
        ) && f.serial_out_data == o.serial_out_data && f.termination_cause == o.termination_cause)
        &&& (!o.write_to_serial(addr) && !o.writable@[addr as int] ==> f.sram == o.sram
            && f.serial_out_data == o.serial_out_data && f.termination_cause == (
        if o.bad_write_latches(addr) {
            Some(TerminationCause::BadWrite)
        } else {
            o.termination_cause
        }))
        &&& (if pulled {
            cycle_advanced(o, f, code, addr, value, eff)
        } else {
            &&& eff == Seq::<CpuEffect>::empty()
            &&& f.num_cycles == o.num_cycles
            &&& f.cycles == o.cycles
            &&& f.cycles_to_report == o.cycles_to_report
            &&& f.flips == o.flips
        })
    }

    /// Turn one timeline into flips, states alternating asserted-first,
    /// appended to `flips`.
    pub fn add_flips(flips: &mut Vec<Flip>, vec: &Option<Vec<u32>>, kind: FlipKind)
        ensures
            final(flips)@ == old(flips)@ + timeline_flips(*vec, kind),
    {
        match vec {
            Some(v) => {
                let ghost target = flips_of(v@, kind);
                let mut next_state = true;
                let mut i: usize = 0;
                proof {
                    assert(flips@ + target.take(0) =~= flips@);
                }
                while i < v.len()
                    invariant
                        i <= v@.len(),
                        next_state == (i as int % 2 == 0),
                        target == flips_of(v@, kind),
                        flips@ == old(flips)@ + target.take(i as int),
                    decreases v@.len() - i,
                {
                    flips.push(Flip { kind, cycle: v[i], state: next_state });
                    proof {
                        assert(target[i as int] == (Flip {
                            kind,
                            cycle: v@[i as int],
                            state: i as int % 2 == 0,
                        }));
                        assert(target.take(i as int).push(target[i as int]) =~= target.take(
                            i as int + 1,
                        ));
                        assert(flips@ =~= old(flips)@ + target.take(i as int + 1));
                    }
                    next_state = !next_state;
                    i = i + 1;
                }
                proof {
                    assert(target.take(v@.len() as int) =~= target);
                }
            },
            None => {
                proof {
                    assert(old(flips)@ + Seq::<Flip>::empty() =~= old(flips)@);
                }
            },
        }
    }

    /// Build the supervisor for an ingested job. The RDY and RES timelines
    /// are not supported by the software core; callers must reject them.
    #[verifier::rlimit(60)]
    pub fn new(job: &Job) -> (s: System)
        requires
            job.ingested(),
            job.rwmap_ok(),
            job.rdy is None,
            job.res is None,
        ensures
            s.wf(),
            s.sram@ == apply_inits(base_image(), job.init@),
            s.writable@.len() == 65536,
            forall|a: int|
                0 <= a < 65536 ==> s.writable@[a] == in_ranges(rwmap_or_default(job.rwmap), a),
            s.serial_in_addr == job.serial_in_addr,
            s.serial_out_addr == job.serial_out_addr,
            s.serial_in_data@ == (match job.serial_in_data {
                Some(d) => d@,
                None => Seq::<u8>::empty(),
            }),
            s.serial_out_data@ == Seq::<u8>::empty(),
            s.vector_has_been_pulled == false,
            s.cycles@ == Seq::<String>::empty(),
            s.cycles_to_run == (match job.max_cycles {
                Some(m) => m,
                None => MAX_CYCLE_COUNT,
            }),
            s.cycles_to_report == (if job.show_cycles == Some(true) {
                if 1000 <= s.cycles_to_run {
                    1000u32
                } else {
                    s.cycles_to_run
                }
            } else {
                0u32
            }),
            s.terminate_on_brk == (job.terminate_on_brk != Some(false)),
            s.terminate_on_infinite_loop == (job.terminate_on_infinite_loop != Some(false)),
            s.terminate_on_zero_fetch == (job.terminate_on_zero_fetch != Some(false)),
            s.terminate_on_stack_fetch == (job.terminate_on_stack_fetch != Some(false)),
            s.terminate_on_vector_fetch == (job.terminate_on_vector_fetch != Some(false)),
            s.terminate_on_bad_write == (job.terminate_on_bad_write != Some(false)),
            s.last_pc is None,
            s.termination_cause is None,
            s.num_cycles == 5,
            s.flips@ == job_flips(*job),
    {
        let mut sram: Vec<u8> = Vec::new();
        let mut i: usize = 0;
        proof {
            assert(sram@ =~= base_image().take(0));
        }
        while i < 65536
            invariant
                i <= 65536,
                sram@.len() == i,
                sram@ == base_image().take(i as int),
            decreases 65536 - i,
        {
            if i == 0xFFFD {
                sram.push(2);
            } else {
                sram.push(0);
            }
            proof {
                assert(base_image().take(i as int).push(base_image()[i as int]) =~= base_image()
                    .take(i as int + 1));
            }
            i = i + 1;
        }
        proof {
            assert(base_image().take(65536) =~= base_image());
        }
        let mut r: usize = 0;
        while r < job.init.len()
            invariant
                r <= job.init@.len(),
                sram@.len() == 65536,
                sram@ == apply_inits(base_image(), job.init@.take(r as int)),
                job.init_ok(),
            decreases job.init@.len() - r,
        {
            let rec = &job.init[r];
            proof {
                assert(job.init@[r as int].base + job.init@[r as int].effective_size() <= 65536);
            }
            let dlen = rec.data.len();
            let size: usize = match rec.size {
                Some(sz) => sz as usize,
                None => dlen,
            };
            let ghost pre = sram@;
            if dlen > 0 {
                let base = rec.base as usize;
                let mut joff: usize = 0;
                while joff < size
                    invariant
                        joff <= size,
                        base == rec.base as usize,
                        base + size <= 65536,
                        dlen == rec.data@.len(),
                        dlen > 0,
                        size as int == rec.effective_size(),
                        *rec == job.init@[r as int],
                        sram@.len() == 65536,
                        sram@ == tile_at(pre, base as int, joff as int, rec.data@),
                    decreases size - joff,
                {
                    let b = rec.data[joff % dlen];
                    sram[base + joff] = b;
                    proof {
                        assert(sram@ =~= tile_at(pre, base as int, joff as int + 1, rec.data@));
                    }
                    joff = joff + 1;
                }
                proof {
                    assert(sram@ =~= apply_init(pre, job.init@[r as int]));
                }
            } else {
                proof {
                    assert(sram@ =~= apply_init(pre, job.init@[r as int]));
                }
            }
            proof {
                assert(job.init@.take(r as int + 1).drop_last() =~= job.init@.take(r as int));
                assert(job.init@.take(r as int + 1).last() == job.init@[r as int]);
            }
            r = r + 1;
        }
        proof {
            assert(job.init@.take(job.init@.len() as int) =~= job.init@);
        }
        let mut writable: Vec<bool> = Vec::new();
        let mut w: usize = 0;
        while w < 65536
            invariant
                w <= 65536,
                writable@.len() == w,
                forall|a: int| 0 <= a < w ==> writable@[a] == false,
            decreases 65536 - w,
        {
            writable.push(false);
            w = w + 1;
        }
        match &job.rwmap {
            Some(v) => {
                fill_ranges(&mut writable, v);
            },
            None => {
                let mut d: Vec<AddrRange> = Vec::new();
                d.push(AddrRange { start: 0, end: 511 });
                proof {
                    assert(d@ =~= rwmap_or_default(job.rwmap));
                }
                fill_ranges(&mut writable, &d);
            },
        }
        let mut serial_in_data: VecDeque<u8> = VecDeque::new();
        match &job.serial_in_data {
            Some(d) => {
                let mut x: usize = 0;
                proof {
                    assert(serial_in_data@ =~= d@.take(0));
                }
                while x < d.len()
                    invariant
                        x <= d@.len(),
                        serial_in_data@ == d@.take(x as int),
                    decreases d@.len() - x,
                {
                    serial_in_data.push_back(d[x]);
                    proof {
                        assert(d@.take(x as int).push(d@[x as int]) =~= d@.take(x as int + 1));
                    }
                    x = x + 1;
                }
                proof {
                    assert(d@.take(d@.len() as int) =~= d@);
                }
            },
            None => {},
        }
        let cycles_to_run: u32 = match job.max_cycles {
            Some(m) => m,
            None => MAX_CYCLE_COUNT,
        };
        let show: bool = match job.show_cycles {
            Some(b) => b,
            None => false,
        };
        let cycles_to_report: u32 = if show {
            if CYCLES_TO_REPORT <= cycles_to_run {
                CYCLES_TO_REPORT
            } else {
                cycles_to_run
            }
        } else {
            0
        };
        let mut so_f: Vec<Flip> = Vec::new();
        let mut nmi_f: Vec<Flip> = Vec::new();
        let mut irq_f: Vec<Flip> = Vec::new();
        Self::add_flips(&mut so_f, &job.so, FlipKind::Overflow);
        Self::add_flips(&mut nmi_f, &job.nmi, FlipKind::Nmi);
        Self::add_flips(&mut irq_f, &job.irq, FlipKind::Irq);
        proof {
            assert(so_f@ =~= timeline_flips(job.so, FlipKind::Overflow));
            assert(nmi_f@ =~= timeline_flips(job.nmi, FlipKind::Nmi));
            assert(irq_f@ =~= timeline_flips(job.irq, FlipKind::Irq));
            assert(flips_sorted(so_f@));
            assert(flips_sorted(nmi_f@));
            assert(flips_sorted(irq_f@));
        }
        let m1 = merge_flip_vecs(&so_f, &nmi_f);
        proof {
            lemma_merge_sorted(so_f@, nmi_f@);
        }
        let m2 = merge_flip_vecs(&m1, &irq_f);
        proof {
            lemma_merge_sorted(m1@, irq_f@);
            assert(m2@ == job_flips(*job));
        }
        let mut flips: VecDeque<Flip> = VecDeque::new();
        let mut q: usize = 0;
        proof {
            assert(flips@ =~= m2@.take(0));
        }
        while q < m2.len()
            invariant
                q <= m2@.len(),
                flips@ == m2@.take(q as int),
            decreases m2@.len() - q,
        {
            flips.push_back(m2[q]);
            proof {
                assert(m2@.take(q as int).push(m2@[q as int]) =~= m2@.take(q as int + 1));
            }
            q = q + 1;
        }
        proof {
            assert(m2@.take(m2@.len() as int) =~= m2@);
        }
        let s = System {
            sram,
            writable,
            serial_in_addr: job.serial_in_addr,
            serial_out_addr: job.serial_out_addr,
            serial_in_data,
            serial_out_data: Vec::new(),
            vector_has_been_pulled: false,
            cycles_to_report,
            cycles: Vec::new(),
            terminate_on_brk: match job.terminate_on_brk {
                Some(b) => b,
                None => true,
            },
            terminate_on_infinite_loop: match job.terminate_on_infinite_loop {
                Some(b) => b,
                None => true,
            },
            terminate_on_zero_fetch: match job.terminate_on_zero_fetch {
                Some(b) => b,
                None => true,
            },
            terminate_on_stack_fetch: match job.terminate_on_stack_fetch {
                Some(b) => b,
                None => true,
            },
            terminate_on_vector_fetch: match job.terminate_on_vector_fetch {
                Some(b) => b,
                None => true,
            },
            terminate_on_bad_write: match job.terminate_on_bad_write {
                Some(b) => b,
                None => true,
            },
            last_pc: None,
            termination_cause: None,
            cycles_to_run,
            num_cycles: 5,
            flips,
        };
        proof {
            assert(flips_sorted(s.flips@));
        }
        s
    }

    fn handle_read(&mut self, addr: u16) -> (r: (u8, bool))
        requires
            old(self).sram@.len() == 65536,
        ensures
            r.0 == old(self).read_value(addr),
            r.1 == old(self).overflow_on_read(addr),
            final(self).serial_in_data@ == old(self).serial_after_read(addr),
            *final(self) == (System { serial_in_data: final(self).serial_in_data, ..*old(self) }),
    {
        if let Some(sia) = self.serial_in_addr {
            if addr == sia {
                match self.serial_in_data.pop_front() {
                    Some(x) => {
                        return (x, false);
                    },
                    None => {
                        return (0, true);
                    },
                }
            }
        }
        (self.sram[addr as usize], false)
    }

    fn handle_write(&mut self, addr: u16, value: u8)
        requires
            old(self).sram@.len() == 65536,
            old(self).writable@.len() == 65536,
        ensures
            *final(self) == (System {
                sram: final(self).sram,
                serial_out_data: final(self).serial_out_data,
                termination_cause: final(self).termination_cause,
                ..*old(self)
            }),
            old(self).write_to_serial(addr) ==> final(self).serial_out_data@ == old(self).serial_out_data@.push(value) && final(self).sram == old(self).sram && final(self).termination_cause == old(self).termination_cause,
            !old(self).write_to_serial(addr) && old(self).writable@[addr as int] ==> final(self).sram@ == old(self).sram@.update(addr as int, value) && final(self).serial_out_data
                == old(self).serial_out_data && final(self).termination_cause == old(self).termination_cause,
            !old(self).write_to_serial(addr) && !old(self).writable@[addr as int] ==> final(self).sram == old(self).sram && final(self).serial_out_data == old(self).serial_out_data
                && final(self).termination_cause == (if old(self).bad_write_latches(addr) {
                Some(TerminationCause::BadWrite)
            } else {
                old(self).termination_cause
            }),
    {
        if let Some(soa) = self.serial_out_addr {
            if addr == soa {
                self.serial_out_data.push(value);
                return ;
            }
        }
        if self.writable[addr as usize] {
            self.sram[addr as usize] = value;
        } else if self.terminate_on_bad_write && self.termination_cause.is_none() {
            self.termination_cause = Some(TerminationCause::BadWrite);
        }
    }

    /// Account one bus cycle: nothing moves past the budget or after a
    /// latch; otherwise the count advances, a trace line may be recorded,
    /// and every flip now due is dispatched.
    #[verifier::rlimit(60)]
    fn report_cycle(&mut self, kind: BusKind, addr: u16, data: u8) -> (eff: Vec<CpuEffect>)
        requires
            old(self).wf(),
        ensures
            final(self).wf(),
            cycle_advanced(*old(self), *final(self), kind.code_spec(), addr, data, eff@),
            *final(self) == (System {
                num_cycles: final(self).num_cycles,
                cycles: final(self).cycles,
                cycles_to_report: final(self).cycles_to_report,
                flips: final(self).flips,
                ..*old(self)
            }),
    {
        if self.num_cycles >= self.cycles_to_run || self.termination_cause.is_some() {
            let eff: Vec<CpuEffect> = Vec::new();
            proof {
                assert(eff@ =~= Seq::<CpuEffect>::empty());
            }
            return eff;
        }
        if self.cycles_to_report > 0 {
            self.cycles_to_report = self.cycles_to_report - 1;
            let line = cycle_string(kind.code(), addr, data);
            self.cycles.push(line);
        }
        self.num_cycles = self.num_cycles + 1;
        let ghost snap = *self;
        let ghost flips0 = self.flips@;
        let n0: usize = self.flips.len();
        let mut eff: Vec<CpuEffect> = Vec::new();
        proof {
            assert(flips0.skip(0) =~= flips0);
            assert(eff@ =~= flip_effects(flips0.take(0)));
        }
        let mut kx: usize = 0;
        while self.flips.len() > 0 && self.flips[0].cycle <= self.num_cycles
            invariant
                kx <= n0,
                flips0.len() == n0,
                *self == (System { flips: self.flips, ..snap }),
                self.flips@ == flips0.skip(kx as int),
                forall|i: int| 0 <= i < kx ==> (#[trigger] flips0[i]).cycle <= snap.num_cycles,
                eff@ == flip_effects(flips0.take(kx as int)),
                flips_sorted(flips0),
            decreases flips0.len() - kx,
    {
            let f = match self.flips.pop_front() {
                Some(f) => f,
                None => {
                    proof {
                        assert(false);
                    }
                    Flip { kind: FlipKind::Overflow, cycle: 0, state: false }
                },
            };
            proof {
                assert(f == flips0[kx as int]);
                assert(flips0.skip(kx as int).skip(1) =~= flips0.skip(kx as int + 1));
            }
            let ghost eff0 = eff@;
            match f.kind {
                FlipKind::Overflow => {
                    if f.state {
                        eff.push(CpuEffect::SetOverflow);
                    }
                },
                FlipKind::Irq => {
                    eff.push(CpuEffect::SetIrq(f.state));
                },
                FlipKind::Nmi => {
                    eff.push(CpuEffect::SetNmi(f.state));
                },
            }
            proof {
                assert(eff@ =~= eff0 + effect_of(f));
                assert(flips0.take(kx as int + 1).drop_last() =~= flips0.take(kx as int));
                assert(flips0.take(kx as int + 1).last() == flips0[kx as int]);
                assert(eff@ =~= flip_effects(flips0.take(kx as int + 1)));
            }
            kx = kx + 1;
        }
        proof {
            assert(flips_drained(
                snap.flips@,
                self.flips@,
                snap.num_cycles as int,
                eff@,
                kx as int,
            ));
            assert(cycle_advanced(
                *old(self),
                *self,
                kind.code_spec(),
                addr,
                data,
                eff@,
            ));
            assert forall|i: int|
                0 <= i < self.flips@.len() implies (#[trigger] self.flips@[i]).cycle
                > self.num_cycles by {
                assert(self.flips@[i] == flips0[kx + i]);
                if kx < flips0.len() {
                    assert(flips0[kx as int].cycle > snap.num_cycles);
                }
            }
        }
        eff
    }

    #[verifier::rlimit(60)]
    fn perform_read(&mut self, kind: BusKind, addr: u16) -> (r: (u8, Vec<CpuEffect>))
        requires
            old(self).wf(),
        ensures
            final(self).wf(),
            System::read_post(
                *old(self),
                *final(self),
                addr,
                kind.code_spec(),
                r.0,
                r.1@,
                old(self).vector_has_been_pulled,
            ),
            final(self).vector_has_been_pulled == old(self).vector_has_been_pulled,
    {
        let pair = self.handle_read(addr);
        let val = pair.0;
        let mut eff: Vec<CpuEffect> = Vec::new();
        if pair.1 {
            eff.push(CpuEffect::SetOverflow);
        }
        proof {
            assert(eff@ =~= old(self).ovf_eff(addr));
        }
        if self.vector_has_been_pulled {
            let mut more = self.report_cycle(kind, addr, val);
            let ghost rest = more@;
            eff.append(&mut more);
            proof {
                assert(eff@ =~= old(self).ovf_eff(addr) + rest);
                assert(cycle_advanced(
                    *old(self),
                    *self,
                    kind.code_spec(),
                    addr,
                    old(self).read_value(addr),
                    rest,
                ));
            }
        }
        (val, eff)
    }

    #[verifier::rlimit(60)]
    fn perform_write(&mut self, kind: BusKind, addr: u16, value: u8) -> (eff: Vec<CpuEffect>)
        requires
            old(self).wf(),
        ensures
            final(self).wf(),
            System::write_post(
                *old(self),
                *final(self),
                addr,
                kind.code_spec(),
                value,
                eff@,
                old(self).vector_has_been_pulled,
            ),
    {
        let mut eff: Vec<CpuEffect> = Vec::new();
        if self.vector_has_been_pulled {
            let mut more = self.report_cycle(kind, addr, value);
            let ghost rest = more@;
            eff.append(&mut more);
            proof {
                assert(eff@ =~= rest);
            }
        } else {
            proof {
                assert(eff@ =~= Seq::<CpuEffect>::empty());
            }
        }
        self.handle_write(addr, value);
        eff
    }

    /// An ordinary data read on the bus.
    pub fn read(&mut self, addr: u16) -> (r: (u8, Vec<CpuEffect>))
        requires
            old(self).wf(),
        ensures
            final(self).wf(),
            System::read_post(
                *old(self),
                *final(self),
                addr,
                7,
                r.0,
                r.1@,
                old(self).vector_has_been_pulled,
            ),
            final(self).vector_has_been_pulled == old(self).vector_has_been_pulled,
            final(self).num_cycles >= old(self).num_cycles,
            !old(self).vector_has_been_pulled ==> final(self).cycles == old(self).cycles,
    {
        self.perform_read(BusKind::Read, addr)
    }

    /// A read during a read-modify-write instruction.
    pub fn read_locked(&mut self, addr: u16) -> (r: (u8, Vec<CpuEffect>))
        requires
            old(self).wf(),
        ensures
            final(self).wf(),
            System::read_post(
                *old(self),
                *final(self),
                addr,
                3,
                r.0,
                r.1@,
                old(self).vector_has_been_pulled,
            ),
            final(self).vector_has_been_pulled == old(self).vector_has_been_pulled,
            final(self).num_cycles >= old(self).num_cycles,
            !old(self).vector_has_been_pulled ==> final(self).cycles == old(self).cycles,
    {
        self.perform_read(BusKind::LockedRead, addr)
    }

    /// An interrupt or reset vector read; the first one starts the
    /// accounted part of the run.
    pub fn read_vector(&mut self, addr: u16) -> (r: (u8, Vec<CpuEffect>))
        requires
            old(self).wf(),
        ensures
            final(self).wf(),
            System::read_post(*old(self), *final(self), addr, 5, r.0, r.1@, true),
            final(self).vector_has_been_pulled == true,
            final(self).num_cycles >= old(self).num_cycles,
    {
        self.vector_has_been_pulled = true;
        let ghost mid = *self;
        let pr = self.perform_read(BusKind::VectorRead, addr);
        proof {
            let o = *old(self);
            let f = *self;
            let rest = choose|rest: Seq<CpuEffect>|
                pr.1@ == mid.ovf_eff(addr) + rest && #[trigger] cycle_advanced(
                    mid,
                    f,
                    5,
                    addr,
                    mid.read_value(addr),
                    rest,
                );
            lemma_cycle_advanced_frame_pre(mid, o, f, 5, addr, o.read_value(addr), rest);
            assert(pr.1@ == o.ovf_eff(addr) + rest);
        }
        pr
    }

    /// Which cause, if any, an opcode fetch at `addr` returning `val`
    /// latches; the heuristics run in this order and only the first fires.
    pub open spec fn opcode_outcome(o: System, addr: u16, val: u8) -> Option<TerminationCause> {
        if !o.vector_has_been_pulled || o.termination_cause is Some {
            None
        } else if o.terminate_on_infinite_loop && o.last_pc == Some(addr) {
            Some(TerminationCause::InfiniteLoop)
        } else if o.terminate_on_zero_fetch && addr < 0x0100 {
            Some(TerminationCause::ZeroFetch)
        } else if o.terminate_on_stack_fetch && 0x0100 <= addr && addr < 0x0200 {
            Some(TerminationCause::StackFetch)
        } else if o.terminate_on_vector_fetch && addr >= 0xFFFA {
            Some(TerminationCause::VectorFetch)
        } else if o.terminate_on_brk && val == 0x00 {
            Some(TerminationCause::Brk)
        } else {
            None
        }
    }

    /// `last_pc` after an opcode fetch: updated to the fetched address
    /// unless the fetch was ungated or tripped the infinite-loop check.
    pub open spec fn opcode_last_pc(o: System, addr: u16) -> Option<u16> {
        if o.vector_has_been_pulled && o.termination_cause is None && !(o.terminate_on_infinite_loop
            && o.last_pc == Some(addr)) {
            Some(addr)
        } else {
            o.last_pc
        }
    }

    /// An opcode fetch: the read itself, then the termination heuristics.
    /// When one fires, the fetched byte is replaced by a fast NOP so the
    /// CPU idles until the driver sees the latch.
    #[verifier::rlimit(60)]
    pub fn read_opcode(&mut self, addr: u16) -> (r: (u8, Vec<CpuEffect>))
        requires
            old(self).wf(),
        ensures
            final(self).wf(),
            ({
                let o = *old(self);
                let f = *final(self);
                let val = o.read_value(addr);
                let outcome = System::opcode_outcome(o, addr, val);
                &&& r.0 == (if outcome is Some {
                    3u8
                } else {
                    val
                })
                &&& f.termination_cause == (match outcome {
                    Some(c) => Some(c),
                    None => o.termination_cause,
                })
                &&& f.last_pc == System::opcode_last_pc(o, addr)
                &&& f.serial_in_data@ == o.serial_after_read(addr)
                &&& f.sram == o.sram
                &&& f.writable == o.writable
                &&& f.serial_out_data == o.serial_out_data
                &&& f.serial_in_addr == o.serial_in_addr
                &&& f.serial_out_addr == o.serial_out_addr
                &&& f.cycles_to_run == o.cycles_to_run
                &&& f.vector_has_been_pulled == o.vector_has_been_pulled
                &&& f.terminate_on_brk == o.terminate_on_brk
                &&& f.terminate_on_infinite_loop == o.terminate_on_infinite_loop
                &&& f.terminate_on_zero_fetch == o.terminate_on_zero_fetch
                &&& f.terminate_on_stack_fetch == o.terminate_on_stack_fetch
                &&& f.terminate_on_vector_fetch == o.terminate_on_vector_fetch
                &&& f.terminate_on_bad_write == o.terminate_on_bad_write
                &&& (if o.vector_has_been_pulled {
                    exists|rest: Seq<CpuEffect>|
                        r.1@ == o.ovf_eff(addr) + rest && #[trigger] cycle_advanced(
                            o,
                            f,
                            15,
                            addr,
                            val,
                            rest,
                        )
                } else {
                    &&& r.1@ == o.ovf_eff(addr)
                    &&& f.num_cycles == o.num_cycles
                    &&& f.cycles == o.cycles
                    &&& f.cycles_to_report == o.cycles_to_report
                    &&& f.flips == o.flips
                })
            }),
            final(self).num_cycles >= old(self).num_cycles,
            !old(self).vector_has_been_pulled ==> final(self).cycles == old(self).cycles,
            old(self).termination_cause is Some ==> final(self).termination_cause == old(
                self,
            ).termination_cause,
    {
        let pr = self.perform_read(BusKind::Opcode, addr);
        let ghost mid = *self;
        let ret = pr.0;
        let eff = pr.1;
        let mut out: u8 = ret;
        if self.vector_has_been_pulled && self.termination_cause.is_none() {
            let mut latched = false;
            if let Some(last_pc) = self.last_pc {
                if self.terminate_on_infinite_loop && addr == last_pc {
                    self.termination_cause = Some(TerminationCause::InfiniteLoop);
                    out = 0x03;
                    latched = true;
                }
            }
            if !latched {
                self.last_pc = Some(addr);
                if self.terminate_on_zero_fetch && addr < 0x0100 {
                    self.termination_cause = Some(TerminationCause::ZeroFetch);
                    out = 0x03;
                } else if self.terminate_on_stack_fetch && addr >= 0x0100 && addr < 0x0200 {
                    self.termination_cause = Some(TerminationCause::StackFetch);
                    out = 0x03;
                } else if self.terminate_on_vector_fetch && addr >= 0xFFFA {
                    self.termination_cause = Some(TerminationCause::VectorFetch);
                    out = 0x03;
                // 0x00 is the BRK opcode
                } else if self.terminate_on_brk && ret == 0x00 {
                    self.termination_cause = Some(TerminationCause::Brk);
                    out = 0x03;
                }
            }
        }
        proof {
            if old(self).vector_has_been_pulled {
                let o = *old(self);
                let f = *self;
                let rest = choose|rest: Seq<CpuEffect>|
                    eff@ == o.ovf_eff(addr) + rest && #[trigger] cycle_advanced(
                        o,
                        mid,
                        15,
                        addr,
                        o.read_value(addr),
                        rest,
                    );
                lemma_cycle_advanced_frame_post(o, mid, f, 15, addr, o.read_value(addr), rest);
            }
        }
        (out, eff)
    }

    /// An ordinary data write on the bus.
    pub fn write(&mut self, addr: u16, value: u8) -> (eff: Vec<CpuEffect>)
        requires
            old(self).wf(),
        ensures
            final(self).wf(),
            System::write_post(
                *old(self),
                *final(self),
                addr,
                6,
                value,
                eff@,
                old(self).vector_has_been_pulled,
            ),
            final(self).num_cycles >= old(self).num_cycles,
            !old(self).vector_has_been_pulled ==> final(self).cycles == old(self).cycles,
            old(self).termination_cause is Some ==> final(self).termination_cause == old(
                self,
            ).termination_cause,
    {
        self.perform_write(BusKind::Write, addr, value)
    }

    /// A write during a read-modify-write instruction.
    pub fn write_locked(&mut self, addr: u16, value: u8) -> (eff: Vec<CpuEffect>)
        requires
            old(self).wf(),
        ensures
            final(self).wf(),
            System::write_post(
                *old(self),
                *final(self),
                addr,
                2,
                value,
                eff@,
                old(self).vector_has_been_pulled,
            ),
            final(self).num_cycles >= old(self).num_cycles,
            !old(self).vector_has_been_pulled ==> final(self).cycles == old(self).cycles,
            old(self).termination_cause is Some ==> final(self).termination_cause == old(
                self,
            ).termination_cause,
    {
        self.perform_write(BusKind::LockedWrite, addr, value)
    }

    /// The driver keeps stepping the CPU while this holds.
    pub fn should_continue(&self) -> (r: bool)
        ensures
            r == (self.termination_cause is None && self.num_cycles < self.cycles_to_run),
    {
        self.termination_cause.is_none() && self.num_cycles < self.cycles_to_run
    }

    /// When the budget ran out with nothing latched, the cause is `limit`;
    /// an earlier latch is never overwritten.
    pub fn latch_limit(&mut self)
        ensures
            *final(self) == (System {
                termination_cause: final(self).termination_cause,
                ..*old(self)
            }),
            final(self).termination_cause == (if old(self).termination_cause is None && old(
                self,
            ).num_cycles >= old(self).cycles_to_run {
                Some(TerminationCause::Limit)
            } else {
                old(self).termination_cause
            }),
    {
        if self.num_cycles >= self.cycles_to_run && self.termination_cause.is_none() {
            self.termination_cause = Some(TerminationCause::Limit);
        }
    }
}

/// The cycle-accounting step only cares about the trace fields of either
/// side; the other fields may differ.
proof fn lemma_cycle_advanced_frame_post(
    o: System,
    f1: System,
    f2: System,
    code: u8,
    addr: u16,
    data: u8,
    eff: Seq<CpuEffect>,
)
    requires
        cycle_advanced(o, f1, code, addr, data, eff),
        f2.num_cycles == f1.num_cycles,
        f2.cycles == f1.cycles,
        f2.cycles_to_report == f1.cycles_to_report,
        f2.flips == f1.flips,
    ensures
        cycle_advanced(o, f2, code, addr, data, eff),
{
    if !(o.num_cycles >= o.cycles_to_run || o.termination_cause is Some) {
        let k = choose|k: int|
            #[trigger] flips_drained(o.flips@, f1.flips@, o.num_cycles + 1, eff, k);
        assert(flips_drained(o.flips@, f2.flips@, o.num_cycles + 1, eff, k));
    }
}

proof fn lemma_cycle_advanced_frame_pre(
    o1: System,
    o2: System,
    f: System,
    code: u8,
    addr: u16,
    data: u8,
    eff: Seq<CpuEffect>,
)
    requires
        cycle_advanced(o1, f, code, addr, data, eff),
        o2.num_cycles == o1.num_cycles,
        o2.cycles == o1.cycles,
        o2.cycles_to_report == o1.cycles_to_report,
        o2.flips == o1.flips,
        o2.termination_cause == o1.termination_cause,
        o2.cycles_to_run == o1.cycles_to_run,
    ensures
        cycle_advanced(o2, f, code, addr, data, eff),
{
    if !(o1.num_cycles >= o1.cycles_to_run || o1.termination_cause is Some) {
        let k = choose|k: int|
            #[trigger] flips_drained(o1.flips@, f.flips@, o1.num_cycles + 1, eff, k);
        assert(flips_drained(o2.flips@, f.flips@, o2.num_cycles + 1, eff, k));
    }
}

/// The trace never outgrows the smaller of the report cap and the cycle
/// budget.
pub proof fn lemma_cycle_cap(s: System)
    requires
        s.wf(),
    ensures
        s.cycles@.len() <= 1000,
        s.cycles@.len() <= s.cycles_to_run,
{
}

/// Dispatch window for scheduled flips. A drained flip is never dispatched
/// before its cycle; once the supervisor is past its first accounted cycle
/// every drain happens exactly at the flip's cycle, and a flip scheduled at
/// cycle five or later is seen no later than one cycle after its own.
pub proof fn lemma_flip_dispatch_window(
    o: System,
    f: System,
    eff: Seq<CpuEffect>,
    k: int,
    now: int,
)
    requires
        o.wf(),
        o.num_cycles < o.cycles_to_run,
        now == o.num_cycles + 1,
        flips_drained(o.flips@, f.flips@, now, eff, k),
    ensures
        forall|i: int| 0 <= i < k ==> (#[trigger] o.flips@[i]).cycle <= now,
        o.num_cycles > 5 ==> forall|i: int| 0 <= i < k ==> (#[trigger] o.flips@[i]).cycle == now,
        forall|i: int|
            0 <= i < k && (#[trigger] o.flips@[i]).cycle >= 5 ==> now <= o.flips@[i].cycle + 1,
{
    if o.num_cycles > 5 {
        assert forall|i: int| 0 <= i < k implies (#[trigger] o.flips@[i]).cycle == now by {
            assert(o.flips@[i].cycle > o.num_cycles);
        }
    }
}

} // verus!
