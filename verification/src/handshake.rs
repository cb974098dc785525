use vstd::prelude::*;

verus! {

/// A device-side bus-error report seen during the reset sequence.
#[derive(Clone, Copy, PartialEq, Eq, Structural, Debug)]
pub struct BusReport {
    pub mask: u32,
    pub want: u32,
    pub got: u32,
    pub cycle: u8,
    pub edge: bool,
}

/// The eleven report bytes: three 24-bit big-endian fields, the cycle,
/// and the edge, which must be 0 (low) or 1 (high) or the report is
/// discarded.
pub open spec fn bus_report_spec(b: Seq<u8>) -> Option<BusReport> {
    if b.len() == 11 && (b[10] == 0 || b[10] == 1) {
        Some(
            BusReport {
                mask: (b[0] * 0x10000 + b[1] * 0x100 + b[2]) as u32,
                want: (b[3] * 0x10000 + b[4] * 0x100 + b[5]) as u32,
                got: (b[6] * 0x10000 + b[7] * 0x100 + b[8]) as u32,
                cycle: b[9],
                edge: b[10] == 1,
            },
        )
    } else {
        None
    }
}

pub fn parse_bus_report(b: &Vec<u8>) -> (r: Option<BusReport>)
    ensures
        r == bus_report_spec(b@),
{
    if b.len() == 11 && (b[10] == 0 || b[10] == 1) {
        let mask: u32 = (b[0] as u32) * 0x10000 + (b[1] as u32) * 0x100 + (b[2] as u32);
        let want: u32 = (b[3] as u32) * 0x10000 + (b[4] as u32) * 0x100 + (b[5] as u32);
        let got: u32 = (b[6] as u32) * 0x10000 + (b[7] as u32) * 0x100 + (b[8] as u32);
        Some(BusReport { mask, want, got, cycle: b[9], edge: b[10] == 1 })
    } else {
        None
    }
}

/// The wakeup tail after the starting 4: `00 00 05 00 00 06`.
pub open spec fn wakeup_tail() -> Seq<u8> {
    seq![0u8, 0u8, 5u8, 0u8, 0u8, 6u8]
}

/// The report tail after the starting FF: `00 FF 00 FF`.
pub open spec fn report_tail() -> Seq<u8> {
    seq![0u8, 255u8, 0u8, 255u8]
}

/// Where the handshake scanner stands.
#[derive(Clone, Copy, PartialEq, Eq, Structural, Debug)]
pub enum HsState {
    /// Looking for the start of a wakeup or of a report.
    Scan,
    /// Matching the wakeup tail; the index counts matched bytes.
    Wakeup(u8),
    /// Consuming the report tail; a mismatch stops the matching early but
    /// the report bytes follow either way.
    Trailer(u8),
    /// Collecting the eleven report bytes.
    Report(u8),
    /// The byte after the report: it counts only under the sentinel DE.
    Sentinel,
}

/// What one handshake byte meant.
#[derive(Clone, Copy, PartialEq, Eq, Structural, Debug)]
pub enum HsStep {
    More,
    /// The full wakeup sequence arrived; the port may be drained and the
    /// session begun.
    WakeupSeen,
    /// A complete bus-error report arrived under its sentinel.
    Diagnostic(BusReport),
}

/// Scans the raw handshake bytes for the wakeup sequence, parsing the
/// device's bus-error reports on the way. Whether a wakeup has been seen
/// is withdrawn by any later byte, so a quiet line after the wakeup is
/// what completes the handshake.
pub struct HandshakeScanner {
    pub state: HsState,
    pub report: Vec<u8>,
    pub woken: bool,
}

impl HandshakeScanner {
    pub open spec fn wf(self) -> bool {
        match self.state {
            HsState::Wakeup(i) => i <= 5,
            HsState::Trailer(i) => i <= 3,
            HsState::Report(j) => j <= 10 && self.report@.len() == j,
            HsState::Sentinel => self.report@.len() == 11,
            _ => true,
        }
    }

    pub fn new() -> (r: HandshakeScanner)
        ensures
            r.wf(),
            r.state == HsState::Scan,
            r.woken == false,
    {
        HandshakeScanner { state: HsState::Scan, report: Vec::new(), woken: false }
    }

    /// Whether the last byte completed the wakeup; any byte after it
    /// starts the scan over.
    pub fn woken(&self) -> (r: bool)
        ensures
            r == self.woken,
    {
        self.woken
    }

    pub fn feed(&mut self, b: u8) -> (r: HsStep)
        requires
            old(self).wf(),
        ensures
            final(self).wf(),
            final(self).woken == (r is WakeupSeen),
            ({
                let o = *old(self);
                let f = *final(self);
                match o.state {
                    HsState::Scan => {
                        if b == 4 {
                            f.state == HsState::Wakeup(0) && r == HsStep::More
                        } else if b == 255 {
                            f.state == HsState::Trailer(0) && r == HsStep::More
                        } else {
                            f.state == HsState::Scan && r == HsStep::More
                        }
                    },
                    HsState::Wakeup(i) => {
                        if b == wakeup_tail()[i as int] {
                            if i < 5 {
                                f.state == HsState::Wakeup((i + 1) as u8) && r == HsStep::More
                            } else {
                                f.state == HsState::Scan && r == HsStep::WakeupSeen
                            }
                        } else {
                            f.state == HsState::Scan && r == HsStep::More
                        }
                    },
                    HsState::Trailer(i) => {
                        if b == report_tail()[i as int] && i < 3 {
                            f.state == HsState::Trailer((i + 1) as u8) && r == HsStep::More
                        } else {
                            f.state == HsState::Report(0) && f.report@ == Seq::<u8>::empty() && r
                                == HsStep::More
                        }
                    },
                    HsState::Report(j) => {
                        f.report@ == o.report@.push(b) && r == HsStep::More && (if j < 10 {
                            f.state == HsState::Report((j + 1) as u8)
                        } else {
                            f.state == HsState::Sentinel
                        })
                    },
                    HsState::Sentinel => {
                        f.state == HsState::Scan && (if b == 0xde {
                            match bus_report_spec(o.report@) {
                                Some(rep) => r == HsStep::Diagnostic(rep),
                                None => r == HsStep::More,
                            }
                        } else {
                            r == HsStep::More
                        })
                    },
                }
            }),
    {
        self.woken = false;
        let st = self.state;
        match st {
            HsState::Scan => {
                if b == 4 {
                    self.state = HsState::Wakeup(0);
                } else if b == 255 {
                    self.state = HsState::Trailer(0);
                }
                HsStep::More
            },
            HsState::Wakeup(i) => {
                let expected: u8 = if i == 0 || i == 1 || i == 3 || i == 4 {
                    0
                } else if i == 2 {
                    5
                } else {
                    6
                };
                if b == expected {
                    if i < 5 {
                        self.state = HsState::Wakeup(i + 1);
                        HsStep::More
                    } else {
                        self.state = HsState::Scan;
                        self.woken = true;
                        HsStep::WakeupSeen
                    }
                } else {
                    self.state = HsState::Scan;
                    HsStep::More
                }
            },
            HsState::Trailer(i) => {
                let expected: u8 = if i == 0 || i == 2 {
                    0
                } else {
                    255
                };
                if b == expected && i < 3 {
                    self.state = HsState::Trailer(i + 1);
                } else {
                    self.state = HsState::Report(0);
                    self.report.clear();
                }
                HsStep::More
            },
            HsState::Report(j) => {
                self.report.push(b);
                if j < 10 {
                    self.state = HsState::Report(j + 1);
                } else {
                    self.state = HsState::Sentinel;
                }
                HsStep::More
            },
            HsState::Sentinel => {
                self.state = HsState::Scan;
                if b == 0xde {
                    match parse_bus_report(&self.report) {
                        Some(rep) => HsStep::Diagnostic(rep),
                        None => HsStep::More,
                    }
                } else {
                    HsStep::More
                }
            },
        }
    }
}

} // verus!
