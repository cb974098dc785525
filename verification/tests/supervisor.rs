use harness65::job::{DataType, InitRec, Job};
use harness65::report::{assemble_result, RunResult};
use harness65::system::{CpuEffect, System, TerminationCause};
use w65c02s::W65C02S;

/// The host side of the CPU's bus: the verified supervisor plus the glue
/// that applies its effects to the CPU.
struct Harness {
    sys: System,
}

fn apply(cpu: &mut W65C02S, effects: Vec<CpuEffect>) {
    for e in effects {
        match e {
            CpuEffect::SetOverflow => cpu.set_p(cpu.get_p() | w65c02s::P_V),
            CpuEffect::SetIrq(b) => cpu.set_irq(b),
            CpuEffect::SetNmi(b) => cpu.set_nmi(b),
        }
    }
}

impl w65c02s::System for Harness {
    fn read(&mut self, cpu: &mut W65C02S, addr: u16) -> u8 {
        let (v, eff) = self.sys.read(addr);
        apply(cpu, eff);
        v
    }
    fn read_locked(&mut self, cpu: &mut W65C02S, addr: u16) -> u8 {
        let (v, eff) = self.sys.read_locked(addr);
        apply(cpu, eff);
        v
    }
    fn read_opcode(&mut self, cpu: &mut W65C02S, addr: u16) -> u8 {
        let (v, eff) = self.sys.read_opcode(addr);
        apply(cpu, eff);
        v
    }
    fn read_vector(&mut self, cpu: &mut W65C02S, addr: u16) -> u8 {
        let (v, eff) = self.sys.read_vector(addr);
        apply(cpu, eff);
        v
    }
    fn write(&mut self, cpu: &mut W65C02S, addr: u16, value: u8) {
        let eff = self.sys.write(addr, value);
        apply(cpu, eff);
    }
    fn write_locked(&mut self, cpu: &mut W65C02S, addr: u16, value: u8) {
        let eff = self.sys.write_locked(addr, value);
        apply(cpu, eff);
    }
}

fn empty_job() -> Job {
    Job {
        init: Vec::new(),
        rwmap: None,
        serial_in_addr: None,
        serial_out_addr: None,
        serial_in_data: None,
        serial_out_fmt: None,
        show_cycles: None,
        max_cycles: None,
        terminate_on_brk: None,
        terminate_on_infinite_loop: None,
        terminate_on_zero_fetch: None,
        terminate_on_stack_fetch: None,
        terminate_on_vector_fetch: None,
        terminate_on_bad_write: None,
        nmi: None,
        irq: None,
        rdy: None,
        so: None,
        res: None,
    }
}

fn run_job(mut job: Job) -> RunResult {
    job.validate_and_normalize().expect("job should validate");
    assert!(job.rdy.is_none(), "RDY is not supported");
    assert!(job.res.is_none(), "Reset is not supported");
    let sys = System::new(&job);
    let mut h = Harness { sys };
    let mut cpu = W65C02S::new();
    while h.sys.should_continue() {
        cpu.step(&mut h);
    }
    h.sys.latch_limit();
    assemble_result(h.sys, &job.serial_out_fmt)
}

#[test]
fn default_reset_vector_and_limit() {
    // Zeroed memory holds a BRK opcode at the default reset target, so the
    // brk heuristic must be off for the budget to win the race.
    let mut job = empty_job();
    job.max_cycles = Some(9);
    job.terminate_on_brk = Some(false);
    let r = run_job(job);
    assert_eq!(r.termination_cause, TerminationCause::Limit);
    assert_eq!(r.num_cycles, 9);
    assert_eq!(r.last_pc, Some(0x0200));
}

#[test]
fn default_reset_vector_with_brk_enabled() {
    // With every heuristic on, the implicit BRK at the reset target
    // latches before the nine-cycle budget runs out.
    let mut job = empty_job();
    job.max_cycles = Some(9);
    let r = run_job(job);
    assert_eq!(r.termination_cause, TerminationCause::Brk);
    assert_eq!(r.last_pc, Some(0x0200));
}

#[test]
fn brk_at_reset_pc() {
    let mut job = empty_job();
    job.init = vec![InitRec { base: 0x0200, data: vec![0x00], size: None }];
    let r = run_job(job);
    assert_eq!(r.termination_cause, TerminationCause::Brk);
    assert_eq!(r.last_pc, Some(0x0200));
}

#[test]
fn infinite_loop_jmp_to_self() {
    let mut job = empty_job();
    job.init = vec![InitRec { base: 0x0200, data: vec![0x4C, 0x00, 0x02], size: None }];
    let r = run_job(job);
    assert_eq!(r.termination_cause, TerminationCause::InfiniteLoop);
    assert_eq!(r.last_pc, Some(0x0200));
}

#[test]
fn serial_echo() {
    let mut job = empty_job();
    // LDA $F004 / STA $F001 / JMP $0200
    job.init = vec![InitRec {
        base: 0x0200,
        data: vec![0xAD, 0x04, 0xF0, 0x8D, 0x01, 0xF0, 0x4C, 0x00, 0x02],
        size: None,
    }];
    job.serial_in_addr = Some(0xF004);
    job.serial_out_addr = Some(0xF001);
    job.serial_in_data = Some(b"HI".to_vec());
    job.serial_out_fmt = Some(DataType::Utf8);
    job.max_cycles = Some(200);
    let r = run_job(job);
    let out = r.serial_out_data.expect("output requested");
    assert!(out.starts_with("utf8:HI"), "got {:?}", out);
}

#[test]
fn bad_write_outside_map() {
    let mut job = empty_job();
    // LDA #$42 / STA $0200
    job.init = vec![InitRec { base: 0x0200, data: vec![0xA9, 0x42, 0x8D, 0x00, 0x02], size: None }];
    let r = run_job(job);
    assert_eq!(r.termination_cause, TerminationCause::BadWrite);
}

#[test]
fn nmi_vector_read_near_scheduled_cycle() {
    let mut job = empty_job();
    job.init = vec![InitRec { base: 0x0200, data: vec![0x4C, 0x00, 0x02], size: None }];
    job.terminate_on_infinite_loop = Some(false);
    job.nmi = Some(vec![100]);
    job.show_cycles = Some(true);
    job.max_cycles = Some(400);
    let r = run_job(job);
    // the trace starts at cycle 5: line i was recorded at cycle 5 + i
    let idx = r
        .cycles
        .iter()
        .position(|line| line.starts_with("5FFFA"))
        .expect("the NMI vector was read");
    let cycle = 5 + idx as u32;
    // The line flip is dispatched at cycle 100; the CPU then finishes the
    // instruction in flight and walks its seven-cycle interrupt sequence
    // before the vector itself is read.
    assert!(cycle >= 100, "vector read at cycle {}", cycle);
    assert!(cycle <= 110, "vector read at cycle {}", cycle);
}

#[test]
fn write_outside_map_never_mutates_memory() {
    let mut job = empty_job();
    let mut sys = {
        job.validate_and_normalize().unwrap();
        System::new(&job)
    };
    let before = sys.sram[0x1000];
    let _ = sys.write(0x1000, 0x77);
    assert_eq!(sys.sram[0x1000], before);
    assert_eq!(sys.termination_cause, Some(TerminationCause::BadWrite));
    // a second offending write leaves the first latch in place
    let _ = sys.write(0x1001, 0x66);
    assert_eq!(sys.termination_cause, Some(TerminationCause::BadWrite));
    assert_eq!(sys.sram[0x1001], 0);
}

#[test]
fn writable_cells_take_writes() {
    let mut job = empty_job();
    job.validate_and_normalize().unwrap();
    let mut sys = System::new(&job);
    let _ = sys.write(0x01FF, 0x5A);
    assert_eq!(sys.sram[0x01FF], 0x5A);
    assert_eq!(sys.termination_cause, None);
}

#[test]
fn init_tiling_fills_with_repeated_data() {
    let mut job = empty_job();
    job.init = vec![InitRec { base: 0x0300, data: vec![1, 2, 3], size: Some(10) }];
    job.validate_and_normalize().unwrap();
    let sys = System::new(&job);
    assert_eq!(&sys.sram[0x0300..0x030A], &[1, 2, 3, 1, 2, 3, 1, 2, 3, 1]);
    assert_eq!(sys.sram[0x030A], 0, "nothing past the record's size");
}

#[test]
fn reset_vector_preload() {
    let mut job = empty_job();
    job.validate_and_normalize().unwrap();
    let sys = System::new(&job);
    assert_eq!(sys.sram[0xFFFD], 0x02);
    assert_eq!(sys.sram[0xFFFC], 0x00);
}

#[test]
fn trace_is_capped_by_budget_and_limit() {
    let mut job = empty_job();
    job.init = vec![InitRec { base: 0x0200, data: vec![0x4C, 0x00, 0x02], size: None }];
    job.terminate_on_infinite_loop = Some(false);
    job.show_cycles = Some(true);
    job.max_cycles = Some(2000);
    let r = run_job(job);
    assert_eq!(r.cycles.len(), 1000);
    // every line is the seven-digit hex form
    for line in &r.cycles {
        assert_eq!(line.len(), 7);
        assert!(line.chars().all(|c| c.is_ascii_hexdigit()));
    }
    // a tighter budget caps the trace below the report cap
    let mut job2 = empty_job();
    job2.show_cycles = Some(true);
    job2.max_cycles = Some(9);
    let r2 = run_job(job2);
    assert!(r2.cycles.len() <= 9);
}
