use nak_sched::ir::{Dst, Op, Opcode, RegRef, SSAValue, Src};
use nak_sched::latency::{RegLatencySM75, SM75Latency};
use nak_sched::regs::RegFile;

fn ssa(idx: u32, file: RegFile) -> SSAValue {
    SSAValue { idx, file }
}

fn op(opcode: Opcode, dsts: Vec<Dst>, srcs: Vec<Src>) -> Op {
    Op { opcode, srcs, dsts }
}

fn src(vals: &[SSAValue]) -> Src {
    Src { ssa: vals.to_vec(), bindless_cbuf: false }
}

fn gpr_op(opcode: Opcode, d: u32, s: u32) -> Op {
    op(
        opcode,
        vec![Dst::SSA(vec![ssa(d, RegFile::GPR)])],
        vec![src(&[ssa(s, RegFile::GPR)]), src(&[]), src(&[])],
    )
}

#[test]
fn raw_coupled_alu_chain_is_four() {
    let w = gpr_op(Opcode::IAdd3, 1, 0);
    let r = gpr_op(Opcode::IAdd3, 2, 1);
    assert_eq!(SM75Latency::raw(&w, 0, &r, 0), 4);
}

#[test]
fn raw_disp64_writer_to_alu_reader_is_six() {
    let w = op(
        Opcode::CS2R,
        vec![Dst::SSA(vec![ssa(1, RegFile::GPR), ssa(2, RegFile::GPR)])],
        vec![],
    );
    let r = gpr_op(Opcode::IAdd3, 3, 1);
    assert_eq!(SM75Latency::raw(&w, 0, &r, 0), 6);
}

#[test]
fn raw_single_width_cs2r_is_alu() {
    let w = op(Opcode::CS2R, vec![Dst::SSA(vec![ssa(1, RegFile::GPR)])], vec![]);
    let r = gpr_op(Opcode::IAdd3, 3, 1);
    assert_eq!(SM75Latency::raw(&w, 0, &r, 0), 4);
}

#[test]
fn raw_hmma_16816_to_imma_is_twenty_two() {
    assert_eq!(
        RegLatencySM75::read_after_write(RegLatencySM75::RedirectedHMMA_16816, RegLatencySM75::IMMA),
        22
    );
}

#[test]
fn paw_isetp_guard_is_twelve() {
    let w = op(
        Opcode::ISetP,
        vec![Dst::SSA(vec![ssa(5, RegFile::Pred)])],
        vec![src(&[ssa(0, RegFile::GPR)]), src(&[ssa(1, RegFile::GPR)])],
    );
    assert_eq!(SM75Latency::paw(&w, 0), 12);
}

#[test]
fn raw_fma_chain_and_fp64() {
    let fma1 = gpr_op(Opcode::FFma, 1, 0);
    let fma2 = gpr_op(Opcode::FFma, 2, 1);
    assert_eq!(SM75Latency::raw(&fma1, 0, &fma2, 0), 4);
    let dfma = gpr_op(Opcode::DFma, 1, 0);
    let add = gpr_op(Opcode::IAdd3, 2, 1);
    assert_eq!(SM75Latency::raw(&dfma, 0, &add, 0), 9);
}

#[test]
fn raw_imad64_operand_selects_class() {
    let w = gpr_op(Opcode::IAdd3, 1, 0);
    let r = gpr_op(Opcode::IMad64, 2, 1);
    // Operands 0 and 1 read as IMADWideAB, operand 2 as IMADWideLower.
    assert_eq!(SM75Latency::raw(&w, 0, &r, 0), 5);
    assert_eq!(SM75Latency::raw(&w, 0, &r, 2), 5);
    let w64 = gpr_op(Opcode::IMad64, 1, 0);
    assert_eq!(SM75Latency::raw(&w64, 0, &r, 0), 6);
    assert_eq!(SM75Latency::raw(&w64, 0, &r, 2), 2);
}

#[test]
fn raw_uniform_writer_to_vector_reader() {
    let w = op(
        Opcode::IAdd3,
        vec![Dst::SSA(vec![ssa(1, RegFile::UGPR)])],
        vec![src(&[ssa(0, RegFile::UGPR)])],
    );
    let r = op(
        Opcode::IAdd3,
        vec![Dst::SSA(vec![ssa(2, RegFile::GPR)])],
        vec![src(&[ssa(1, RegFile::UGPR)])],
    );
    assert_eq!(SM75Latency::raw(&w, 0, &r, 0), 6);
    let r_bindless = op(
        Opcode::IAdd3,
        vec![Dst::SSA(vec![ssa(2, RegFile::GPR)])],
        vec![Src { ssa: vec![ssa(1, RegFile::UGPR)], bindless_cbuf: true }],
    );
    assert_eq!(SM75Latency::raw(&w, 0, &r_bindless, 0), 12);
}

#[test]
fn raw_carry_and_empty_destination() {
    let w = op(
        Opcode::IAdd3,
        vec![Dst::SSA(vec![ssa(1, RegFile::GPR)]), Dst::SSA(vec![ssa(2, RegFile::Carry)]), Dst::Empty],
        vec![src(&[ssa(0, RegFile::GPR)])],
    );
    let r = gpr_op(Opcode::IAdd3X, 3, 2);
    assert_eq!(SM75Latency::raw(&w, 1, &r, 0), 6);
    assert_eq!(SM75Latency::raw(&w, 2, &r, 0), 0);
}

#[test]
fn raw_fixed_register_destination() {
    let w = op(Opcode::Mov, vec![Dst::Reg(RegRef { file: RegFile::GPR, comps: 1 })], vec![src(&[])]);
    let r = gpr_op(Opcode::FFma, 3, 2);
    assert_eq!(SM75Latency::raw(&w, 0, &r, 0), 5);
}

#[test]
fn war_and_waw_entries() {
    let read = gpr_op(Opcode::IAdd3, 2, 1);
    let write = gpr_op(Opcode::DFma, 1, 0);
    assert_eq!(SM75Latency::war(&read, 0, &write, 0), 2);
    let a = gpr_op(Opcode::DFma, 1, 0);
    let b = gpr_op(Opcode::IAdd3, 1, 0);
    assert_eq!(SM75Latency::waw(&a, 0, &b, 0, true), 5);
    assert_eq!(SM75Latency::waw(&a, 0, &b, 0, false), 1);
}

#[test]
fn latency_lookups_repeat() {
    let w = gpr_op(Opcode::HFma2, 1, 0);
    let r = gpr_op(Opcode::MuFu, 2, 1);
    let first = SM75Latency::raw(&w, 0, &r, 0);
    let second = SM75Latency::raw(&w, 0, &r, 0);
    assert_eq!(first, second);
    assert_eq!(first, 8);
}

#[test]
fn scoreboards_for_variable_latency_ops() {
    assert!(SM75Latency::needs_scoreboards(&gpr_op(Opcode::Ld, 1, 0)));
    assert!(SM75Latency::needs_scoreboards(&gpr_op(Opcode::DFma, 1, 0)));
    assert!(!SM75Latency::needs_scoreboards(&gpr_op(Opcode::IAdd3, 1, 0)));
    assert!(!SM75Latency::needs_scoreboards(&gpr_op(Opcode::HFma2, 1, 0)));
    let r2ur = op(Opcode::R2UR, vec![Dst::SSA(vec![ssa(1, RegFile::UGPR)])], vec![src(&[ssa(0, RegFile::GPR)])]);
    assert!(SM75Latency::needs_scoreboards(&r2ur));
}

#[test]
fn war_predicate_classifies_reader_as_reader() {
    // IMad64 reading source 0 is IMADWideAB as a reader; DSetP writing a
    // predicate is RedirectedFP64.
    let read = gpr_op(Opcode::IMad64, 2, 1);
    let write = op(Opcode::DSetP, vec![Dst::SSA(vec![ssa(7, RegFile::Pred)])], vec![src(&[ssa(0, RegFile::GPR)])]);
    assert_eq!(SM75Latency::war(&read, 0, &write, 0), 1);
    let alu_read = gpr_op(Opcode::IAdd3, 2, 1);
    assert_eq!(SM75Latency::war(&alu_read, 0, &write, 0), 2);
}
