use vstd::prelude::*;

verus! {

// ============================================================
// Errors a job document can be rejected with.
// ============================================================

#[derive(Clone, Copy, PartialEq, Eq, Structural, Debug)]
pub enum JobError {
    /// An initialization record runs past the top of the address space.
    InitTooLarge,
    /// `max_cycles` lies outside 9 ..= 10_000_000.
    BadMaxCycles,
    /// A signal timeline toggles more than 20 times.
    TimelineTooLong,
    /// A blob string begins with neither `utf8:` nor `base64:`.
    BadBlobPrefix,
    /// A `base64:` blob carries bytes that do not decode.
    InvalidBase64,
    /// A writability range is not a two-element array.
    BadRangeShape,
    /// A writability range ends before it starts.
    RangeInverted,
    /// An output format that is neither `utf8` nor `base64`.
    BadDataType,
}

impl JobError {
    pub open spec fn message_spec(self) -> Seq<char> {
        match self {
            JobError::InitTooLarge => "Initialization record exceeds size of address space"@,
            JobError::BadMaxCycles => "Maximum cycle count cannot exceed 10,000,000 or be less than 9"@,
            JobError::TimelineTooLong => "A given special signal may not toggle more than 20 times"@,
            JobError::BadBlobPrefix => "binary data must start with utf8: or base64:"@,
            JobError::InvalidBase64 => "invalid base64 data"@,
            JobError::BadRangeShape => "range must be 2-element array"@,
            JobError::RangeInverted => "end of range cannot be less than start of range"@,
            JobError::BadDataType => "expected either utf8 or base64"@,
        }
    }

    /// The validation message, word for word as callers report it.
    pub fn message(&self) -> (r: &'static str)
        ensures
            r@ == self.message_spec(),
    {
        match self {
            JobError::InitTooLarge => "Initialization record exceeds size of address space",
            JobError::BadMaxCycles => "Maximum cycle count cannot exceed 10,000,000 or be less than 9",
            JobError::TimelineTooLong => "A given special signal may not toggle more than 20 times",
            JobError::BadBlobPrefix => "binary data must start with utf8: or base64:",
            JobError::InvalidBase64 => "invalid base64 data",
            JobError::BadRangeShape => "range must be 2-element array",
            JobError::RangeInverted => "end of range cannot be less than start of range",
            JobError::BadDataType => "expected either utf8 or base64",
        }
    }
}

// ============================================================
// Base64 blobs.
// ============================================================

/// What base64 decoding of `s` gives: the decoded bytes, or nothing when
/// `s` is not valid standard base64.
pub uninterp spec fn b64_decode_of(s: Seq<u8>) -> Option<Seq<u8>>;

/// Relies on base64::decode (standard alphabet, padded): decodes valid
/// base64 text, rejects anything else; the result depends on the bytes
/// alone.
#[verifier::external_body]
fn b64_decode(input: &[u8]) -> (r: Option<Vec<u8>>)
    ensures
        r is Some <==> b64_decode_of(input@) is Some,
        r matches Some(v) ==> b64_decode_of(input@) matches Some(w) && v@ == w,
{
    match base64::decode(input) {
        Ok(v) => Some(v),
        Err(_) => None,
    }
}

pub open spec fn utf8_prefix() -> Seq<u8> {
    seq![117u8, 116u8, 102u8, 56u8, 58u8]
}

pub open spec fn base64_prefix() -> Seq<u8> {
    seq![98u8, 97u8, 115u8, 101u8, 54u8, 52u8, 58u8]
}

/// Decode a blob string: `utf8:` carries its bytes literally, `base64:`
/// carries standard base64; anything else is rejected.
pub fn parse_blob(s: &[u8]) -> (r: Result<Vec<u8>, JobError>)
    ensures
        ({
            if s@.len() >= 7 && s@.subrange(0, 7) == base64_prefix() {
                match b64_decode_of(s@.skip(7)) {
                    Some(w) => r matches Ok(v) && v@ == w,
                    None => r == Err::<Vec<u8>, JobError>(JobError::InvalidBase64),
                }
            } else if s@.len() >= 5 && s@.subrange(0, 5) == utf8_prefix() {
                r matches Ok(v) && v@ == s@.skip(5)
            } else {
                r == Err::<Vec<u8>, JobError>(JobError::BadBlobPrefix)
            }
        }),
{
    if s.len() >= 7 && s[0] == 98 && s[1] == 97 && s[2] == 115 && s[3] == 101 && s[4] == 54
        && s[5] == 52 && s[6] == 58 {
        // "base64:"
        proof {
            assert(s@.subrange(0, 7) =~= base64_prefix());
        }
        match b64_decode(&s[7..s.len()]) {
            Some(v) => Ok(v),
            None => Err(JobError::InvalidBase64),
        }
    } else if s.len() >= 5 && s[0] == 117 && s[1] == 116 && s[2] == 102 && s[3] == 56
        && s[4] == 58 {
        // "utf8:"
        proof {
            assert(s@.subrange(0, 5) =~= utf8_prefix());
            assert(!(s@.len() >= 7 && s@.subrange(0, 7) == base64_prefix()));
        }
        let mut v: Vec<u8> = Vec::new();
        v.extend_from_slice(&s[5..s.len()]);
        Ok(v)
    } else {
        proof {
            if s@.len() >= 7 && s@.subrange(0, 7) == base64_prefix() {
                assert(s@[0] == base64_prefix()[0]);
                assert(false);
            }
            if s@.len() >= 5 && s@.subrange(0, 5) == utf8_prefix() {
                assert(s@[0] == utf8_prefix()[0]);
                assert(s@[1] == utf8_prefix()[1]);
                assert(s@[2] == utf8_prefix()[2]);
                assert(s@[3] == utf8_prefix()[3]);
                assert(s@[4] == utf8_prefix()[4]);
                assert(false);
            }
        }
        Err(JobError::BadBlobPrefix)
    }
}

// ============================================================
// The job document, already decoded from its wire shape.
// ============================================================

/// How captured serial output is rendered in the result document.
#[derive(Clone, Copy, PartialEq, Eq, Structural, Debug)]
pub enum DataType {
    Utf8,
    Base64,
}

/// Recognize an output format name: exactly `utf8` or `base64`.
pub fn parse_data_type(s: &[u8]) -> (r: Result<DataType, JobError>)
    ensures
        ({
            if s@ == seq![117u8, 116u8, 102u8, 56u8] {
                r == Ok::<DataType, JobError>(DataType::Utf8)
            } else if s@ == seq![98u8, 97u8, 115u8, 101u8, 54u8, 52u8] {
                r == Ok::<DataType, JobError>(DataType::Base64)
            } else {
                r == Err::<DataType, JobError>(JobError::BadDataType)
            }
        }),
{
    if s.len() == 4 && s[0] == 117 && s[1] == 116 && s[2] == 102 && s[3] == 56 {
        // "utf8"
        proof {
            assert(s@ =~= seq![117u8, 116u8, 102u8, 56u8]);
        }
        Ok(DataType::Utf8)
    } else if s.len() == 6 && s[0] == 98 && s[1] == 97 && s[2] == 115 && s[3] == 101
        && s[4] == 54 && s[5] == 52 {
        // "base64"
        proof {
            assert(s@ =~= seq![98u8, 97u8, 115u8, 101u8, 54u8, 52u8]);
        }
        Ok(DataType::Base64)
    } else {
        proof {
            if s@ == seq![117u8, 116u8, 102u8, 56u8] {
                assert(false);
            }
            if s@ == seq![98u8, 97u8, 115u8, 101u8, 54u8, 52u8] {
                assert(false);
            }
        }
        Err(JobError::BadDataType)
    }
}

/// One initialization record: raw bytes laid down at `base`, tiled up to
/// `size` when that is given and larger.
pub struct InitRec {
    pub base: u16,
    pub data: Vec<u8>,
    pub size: Option<u32>,
}

impl InitRec {
    /// How many cells the record covers.
    pub open spec fn effective_size(self) -> int {
        match self.size {
            Some(s) => s as int,
            None => self.data@.len() as int,
        }
    }
}

/// An inclusive range of writable addresses.
#[derive(Clone, Copy, PartialEq, Eq, Structural, Debug)]
pub struct AddrRange {
    pub start: u16,
    pub end: u16,
}

impl AddrRange {
    /// Build a range; an inverted pair is rejected.
    pub fn new(start: u16, end: u16) -> (r: Result<AddrRange, JobError>)
        ensures
            end >= start ==> r == Ok::<AddrRange, JobError>(AddrRange { start, end }),
            end < start ==> r == Err::<AddrRange, JobError>(JobError::RangeInverted),
    {
        if end < start {
            Err(JobError::RangeInverted)
        } else {
            Ok(AddrRange { start, end })
        }
    }
}

pub open spec fn sorted_u32(s: Seq<u32>) -> bool {
    forall|i: int, j: int| 0 <= i < j < s.len() ==> s[i] <= s[j]
}

pub open spec fn timeline_sorted(t: Option<Vec<u32>>) -> bool {
    match t {
        Some(v) => sorted_u32(v@),
        None => true,
    }
}

/// `b` is `a` sorted ascending: same kind, same length, same multiset.
pub open spec fn sorted_version(a: Option<Vec<u32>>, b: Option<Vec<u32>>) -> bool {
    match (a, b) {
        (Option::None, Option::None) => true,
        (Option::Some(x), Option::Some(y)) => y@.len() == x@.len() && sorted_u32(y@)
            && y@.to_multiset() == x@.to_multiset(),
        _ => false,
    }
}

/// A whole job description.
pub struct Job {
    pub init: Vec<InitRec>,
    pub rwmap: Option<Vec<AddrRange>>,
    pub serial_in_addr: Option<u16>,
    pub serial_out_addr: Option<u16>,
    pub serial_in_data: Option<Vec<u8>>,
    pub serial_out_fmt: Option<DataType>,
    pub show_cycles: Option<bool>,
    pub max_cycles: Option<u32>,
    pub terminate_on_brk: Option<bool>,
    pub terminate_on_infinite_loop: Option<bool>,
    pub terminate_on_zero_fetch: Option<bool>,
    pub terminate_on_stack_fetch: Option<bool>,
    pub terminate_on_vector_fetch: Option<bool>,
    pub terminate_on_bad_write: Option<bool>,
    pub nmi: Option<Vec<u32>>,
    pub irq: Option<Vec<u32>>,
    pub rdy: Option<Vec<u32>>,
    pub so: Option<Vec<u32>>,
    pub res: Option<Vec<u32>>,
}

impl Job {
    /// Every initialization record fits inside the 64 KiB address space.
    pub open spec fn init_ok(self) -> bool {
        forall|i: int| 0 <= i < self.init@.len()
            ==> (#[trigger] self.init@[i]).base + self.init@[i].effective_size() <= 65536
    }

    pub open spec fn cycles_ok(self) -> bool {
        match self.max_cycles {
            Some(mc) => 9 <= mc <= 10000000,
            None => true,
        }
    }

    pub open spec fn timeline_len_ok(t: Option<Vec<u32>>) -> bool {
        match t {
            Some(v) => v@.len() <= 20,
            None => true,
        }
    }

    pub open spec fn timelines_ok(self) -> bool {
        &&& Self::timeline_len_ok(self.nmi)
        &&& Self::timeline_len_ok(self.irq)
        &&& Self::timeline_len_ok(self.rdy)
        &&& Self::timeline_len_ok(self.so)
        &&& Self::timeline_len_ok(self.res)
    }

    /// Everything `validate_and_normalize` checks.
    pub open spec fn valid_shape(self) -> bool {
        self.init_ok() && self.cycles_ok() && self.timelines_ok()
    }

    /// The first violation, in the order the checks run.
    pub open spec fn first_error(self) -> JobError {
        if !self.init_ok() {
            JobError::InitTooLarge
        } else if !self.cycles_ok() {
            JobError::BadMaxCycles
        } else {
            JobError::TimelineTooLong
        }
    }

    /// Every writability range runs forward. Ranges are built by
    /// `AddrRange::new`, which rejects inverted ones.
    pub open spec fn rwmap_ok(self) -> bool {
        match self.rwmap {
            Some(v) => forall|k: int|
                0 <= k < v@.len() ==> (#[trigger] v@[k]).start <= v@[k].end,
            None => true,
        }
    }

    pub open spec fn timelines_sorted(self) -> bool {
        &&& timeline_sorted(self.nmi)
        &&& timeline_sorted(self.irq)
        &&& timeline_sorted(self.rdy)
        &&& timeline_sorted(self.so)
        &&& timeline_sorted(self.res)
    }

    /// A job ready for the supervisor: bounds checked, timelines sorted.
    pub open spec fn ingested(self) -> bool {
        &&& self.valid_shape()
        &&& self.timelines_sorted()
    }

    /// Reject a malformed job, and sort each signal timeline ascending.
    /// Nothing else changes; a rejected job is left as it came.
    pub fn validate_and_normalize(&mut self) -> (r: Result<(), JobError>)
        ensures
            r is Ok <==> old(self).valid_shape(),
            r matches Err(e) ==> e == old(self).first_error() && *final(self) == *old(self),
            r is Ok ==> {
                &&& final(self).ingested()
                &&& final(self).init == old(self).init
                &&& final(self).rwmap == old(self).rwmap
                &&& final(self).serial_in_addr == old(self).serial_in_addr
                &&& final(self).serial_out_addr == old(self).serial_out_addr
                &&& final(self).serial_in_data == old(self).serial_in_data
                &&& final(self).serial_out_fmt == old(self).serial_out_fmt
                &&& final(self).show_cycles == old(self).show_cycles
                &&& final(self).max_cycles == old(self).max_cycles
                &&& final(self).terminate_on_brk == old(self).terminate_on_brk
                &&& final(self).terminate_on_infinite_loop == old(self).terminate_on_infinite_loop
                &&& final(self).terminate_on_zero_fetch == old(self).terminate_on_zero_fetch
                &&& final(self).terminate_on_stack_fetch == old(self).terminate_on_stack_fetch
                &&& final(self).terminate_on_vector_fetch == old(self).terminate_on_vector_fetch
                &&& final(self).terminate_on_bad_write == old(self).terminate_on_bad_write
                &&& sorted_version(old(self).nmi, final(self).nmi)
                &&& sorted_version(old(self).irq, final(self).irq)
                &&& sorted_version(old(self).rdy, final(self).rdy)
                &&& sorted_version(old(self).so, final(self).so)
                &&& sorted_version(old(self).res, final(self).res)
            },
    {
        let mut i: usize = 0;
        while i < self.init.len()
            invariant
                i <= self.init@.len(),
                forall|k: int| 0 <= k < i
                    ==> (#[trigger] self.init@[k]).base + self.init@[k].effective_size() <= 65536,
                *self == *old(self),
            decreases self.init@.len() - i,
        {
            let rec = &self.init[i];
            let size: u64 = match rec.size {
                Some(s) => s as u64,
                None => rec.data.len() as u64,
            };
            if size > 65536 || rec.base as u64 + size > 65536 {
                return Err(JobError::InitTooLarge);
            }
            i = i + 1;
        }
        if let Some(mc) = self.max_cycles {
            if mc > 10000000 || mc < 9 {
                return Err(JobError::BadMaxCycles);
            }
        }
        if !timeline_len_below(&self.nmi) || !timeline_len_below(&self.irq)
            || !timeline_len_below(&self.rdy) || !timeline_len_below(&self.so)
            || !timeline_len_below(&self.res) {
            return Err(JobError::TimelineTooLong);
        }
        self.nmi = sort_timeline(&self.nmi);
        self.irq = sort_timeline(&self.irq);
        self.rdy = sort_timeline(&self.rdy);
        self.so = sort_timeline(&self.so);
        self.res = sort_timeline(&self.res);
        Ok(())
    }
}

fn timeline_len_below(t: &Option<Vec<u32>>) -> (r: bool)
    ensures
        r == Job::timeline_len_ok(*t),
{
    match t {
        Some(v) => v.len() <= 20,
        None => true,
    }
}

fn sort_timeline(t: &Option<Vec<u32>>) -> (r: Option<Vec<u32>>)
    ensures
        sorted_version(*t, r),
        timeline_sorted(r),
{
    match t {
        Some(v) => Some(sort_u32(v)),
        None => None,
    }
}

/// Sort a cycle list ascending; nothing is added or lost.
pub fn sort_u32(v: &Vec<u32>) -> (r: Vec<u32>)
    ensures
        r@.len() == v@.len(),
        sorted_u32(r@),
        r@.to_multiset() == v@.to_multiset(),
{
    let mut r: Vec<u32> = Vec::new();
    let mut i: usize = 0;
    proof {
        assert(v@.take(0) =~= Seq::<u32>::empty());
        assert(r@ =~= Seq::<u32>::empty());
    }
    while i < v.len()
        invariant
            i <= v@.len(),
            r@.len() == i,
            sorted_u32(r@),
            r@.to_multiset() == v@.take(i as int).to_multiset(),
        decreases v@.len() - i,
    {
        let x = v[i];
        let ghost r0 = r@;
        let mut p: usize = 0;
        while p < r.len() && r[p as usize] <= x
            invariant
                p <= r@.len(),
                r@ == r0,
                forall|j: int| 0 <= j < p ==> r@[j] <= x,
            decreases r@.len() - p,
        {
            p = p + 1;
        }
        r.insert(p, x);
        proof {
            assert(sorted_u32(r@)) by {
                assert forall|a: int, b: int| 0 <= a < b < r@.len() implies r@[a] <= r@[b] by {
                    if b < p {
                    } else if a < p && b == p {
                    } else if a == p {
                        assert(r@[b] == r0[b - 1]);
                        if p < r0.len() {
                            assert(r0[p as int] > x);
                        }
                    } else if a < p {
                        assert(r@[b] == r0[b - 1]);
                    } else {
                        assert(r@[a] == r0[a - 1]);
                        assert(r@[b] == r0[b - 1]);
                    }
                }
            }
            assert(r@.to_multiset() == v@.take(i as int + 1).to_multiset()) by {
                assert(r@ == r0.insert(p as int, x));
                vstd::seq_lib::to_multiset_insert(r0, p as int, x);
                assert(v@.take(i as int).push(x) =~= v@.take(i as int + 1));
                vstd::seq_lib::to_multiset_build(v@.take(i as int), x);
            }
        }
        i = i + 1;
    }
    proof {
        assert(v@.take(v@.len() as int) =~= v@);
    }
    r
}

} // verus!
