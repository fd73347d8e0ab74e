//! Turing (SM75) register latency tables.
//!
//! Coupled instructions have fixed latencies: they need delays but no
//! scoreboards.  Decoupled instructions have variable latencies: they need
//! scoreboards but no delays.  Redirected instructions are coupled on some
//! SMs and decoupled on others, so they need both.
//!
//! Each op is first mapped to a latency class, which depends on whether it
//! is looked at as a reader or as a writer and on the operand index; a
//! latency is then read from a table indexed by the two classes.  A class
//! combination that has no entry is a misuse of the tables, which the
//! lookups exclude by their preconditions.

use vstd::prelude::*;
use crate::regs::RegFile;
use crate::ir::{Dst, Op, Opcode, dst_comps, dst_file};

verus! {

/// Latency classes for ops writing or reading GPRs and predicates.
#[allow(non_camel_case_types)]
#[derive(Clone, Copy, Debug, PartialEq, Eq, Structural)]
pub enum RegLatencySM75 {
    CoupledDisp64,
    CoupledDisp,
    CoupledAlu,
    CoupledFMA,
    IMADLo,
    /// Readers only.
    IMADWideAB,
    IMADWideLower,
    IMADWideUpper,
    RedirectedFP64,
    RedirectedFP16,
    RedirectedHMMA_884_F16,
    RedirectedHMMA_884_F32,
    RedirectedHMMA_1688,
    RedirectedHMMA_16816,
    IMMA,
    Decoupled,
    /// Readers only.
    DecoupledOther,
    BMov,
    GuardPredicate,
}

impl RegLatencySM75 {
    /// The class of `op` as a reader (of source `idx`) or as a writer (of
    /// destination `idx`); `None` where the op has no class in that role.
    pub open spec fn spec_op_category(op: Op, reader: bool, idx: int) -> Option<RegLatencySM75> {
        match op.opcode {
            Opcode::IMad | Opcode::IMul => Some(RegLatencySM75::IMADLo),
            Opcode::IAdd3 | Opcode::IAdd3X | Opcode::BMsk | Opcode::Lop3 | Opcode::ISetP | Opcode::IAbs | Opcode::Lea | Opcode::LeaX | Opcode::IMnMx | Opcode::I2I | Opcode::Shf | Opcode::FMnMx | Opcode::FSet | Opcode::FSetP | Opcode::Mov | Opcode::Sel | Opcode::PLop3 | Opcode::Prmt => Some(RegLatencySM75::CoupledAlu),
            Opcode::PopC | Opcode::Flo | Opcode::Ipa | Opcode::MuFu | Opcode::F2F | Opcode::F2I | Opcode::I2F | Opcode::FRnd | Opcode::AL2P | Opcode::BRev | Opcode::S2R | Opcode::Bar | Opcode::BClear | Opcode::Bra | Opcode::BSSy | Opcode::Kill | Opcode::Exit | Opcode::BSync | Opcode::Tex | Opcode::Tld | Opcode::Tld4 | Opcode::Tmml | Opcode::Txd | Opcode::Txq | Opcode::Ldc | Opcode::ALd | Opcode::ASt | Opcode::Out | Opcode::OutFinal | Opcode::Ld | Opcode::St | Opcode::Atom | Opcode::MemBar | Opcode::SuLd | Opcode::SuSt | Opcode::SuAtom | Opcode::PixLd | Opcode::Isberd | Opcode::LdTram | Opcode::Shfl => Some(RegLatencySM75::Decoupled),
            Opcode::FFma | Opcode::FAdd | Opcode::FMul | Opcode::FSwzAdd | Opcode::IDp4 => Some(RegLatencySM75::CoupledFMA),
            Opcode::DAdd | Opcode::DFma | Opcode::DMul | Opcode::DSetP | Opcode::DMnMx => Some(RegLatencySM75::RedirectedFP64),
            Opcode::HAdd2 | Opcode::HFma2 | Opcode::HMul2 | Opcode::HSet2 | Opcode::HSetP2 | Opcode::HMnMx2 => Some(RegLatencySM75::RedirectedFP16),
            Opcode::Nop | Opcode::Vote => Some(RegLatencySM75::CoupledDisp),
            Opcode::CCtl => Some(RegLatencySM75::DecoupledOther),
            Opcode::IMad64 => if reader {
                if idx == 0 || idx == 1 {
                    Some(RegLatencySM75::IMADWideAB)
                } else if idx == 2 {
                    Some(RegLatencySM75::IMADWideLower)
                } else {
                    None
                }
            } else {
                Some(RegLatencySM75::IMADWideUpper)
            },
            Opcode::R2UR => if reader {
                Some(RegLatencySM75::Decoupled)
            } else {
                None
            },
            Opcode::CS2R => if op.dsts@.len() > 0 && dst_comps(op.dsts@[0]) == 2 {
                Some(RegLatencySM75::CoupledDisp64)
            } else {
                Some(RegLatencySM75::CoupledAlu)
            },
            Opcode::BMov => if op.dsts@.len() > 0 && op.dsts@[0] is Reg && op.dsts@[0]->Reg_0.file == RegFile::GPR {
                Some(RegLatencySM75::BMov)
            } else {
                Some(RegLatencySM75::Decoupled)
            },
            Opcode::Lop2 | Opcode::PSetP => None,
        }
    }

    pub fn op_category(op: &Op, reader: bool, op_reg_idx: usize) -> (r: RegLatencySM75)
        requires
            Self::spec_op_category(*op, reader, op_reg_idx as int) is Some,
        ensures
            Some(r) == Self::spec_op_category(*op, reader, op_reg_idx as int),
    {
        match op.opcode {
            Opcode::IMad | Opcode::IMul => RegLatencySM75::IMADLo,
            Opcode::IAdd3 | Opcode::IAdd3X | Opcode::BMsk | Opcode::Lop3 | Opcode::ISetP | Opcode::IAbs | Opcode::Lea | Opcode::LeaX | Opcode::IMnMx | Opcode::I2I | Opcode::Shf | Opcode::FMnMx | Opcode::FSet | Opcode::FSetP | Opcode::Mov | Opcode::Sel | Opcode::PLop3 | Opcode::Prmt => RegLatencySM75::CoupledAlu,
            Opcode::PopC | Opcode::Flo | Opcode::Ipa | Opcode::MuFu | Opcode::F2F | Opcode::F2I | Opcode::I2F | Opcode::FRnd | Opcode::AL2P | Opcode::BRev | Opcode::S2R | Opcode::Bar | Opcode::BClear | Opcode::Bra | Opcode::BSSy | Opcode::Kill | Opcode::Exit | Opcode::BSync | Opcode::Tex | Opcode::Tld | Opcode::Tld4 | Opcode::Tmml | Opcode::Txd | Opcode::Txq | Opcode::Ldc | Opcode::ALd | Opcode::ASt | Opcode::Out | Opcode::OutFinal | Opcode::Ld | Opcode::St | Opcode::Atom | Opcode::MemBar | Opcode::SuLd | Opcode::SuSt | Opcode::SuAtom | Opcode::PixLd | Opcode::Isberd | Opcode::LdTram | Opcode::Shfl => RegLatencySM75::Decoupled,
            Opcode::FFma | Opcode::FAdd | Opcode::FMul | Opcode::FSwzAdd | Opcode::IDp4 => RegLatencySM75::CoupledFMA,
            Opcode::DAdd | Opcode::DFma | Opcode::DMul | Opcode::DSetP | Opcode::DMnMx => RegLatencySM75::RedirectedFP64,
            Opcode::HAdd2 | Opcode::HFma2 | Opcode::HMul2 | Opcode::HSet2 | Opcode::HSetP2 | Opcode::HMnMx2 => RegLatencySM75::RedirectedFP16,
            Opcode::Nop | Opcode::Vote => RegLatencySM75::CoupledDisp,
            Opcode::CCtl => RegLatencySM75::DecoupledOther,
            Opcode::IMad64 => if reader {
                if op_reg_idx == 0 || op_reg_idx == 1 {
                    RegLatencySM75::IMADWideAB
                } else if op_reg_idx == 2 {
                    RegLatencySM75::IMADWideLower
                } else {
                    unreached()
                }
            } else {
                RegLatencySM75::IMADWideUpper
            },
            Opcode::R2UR => if reader {
                RegLatencySM75::Decoupled
            } else {
                unreached()
            },
            Opcode::CS2R => if op.dsts.len() > 0 && op.dsts[0].comps() == 2 {
                RegLatencySM75::CoupledDisp64
            } else {
                RegLatencySM75::CoupledAlu
            },
            Opcode::BMov => if op.dsts.len() > 0 && op.dsts[0].is_gpr_reg() {
                RegLatencySM75::BMov
            } else {
                RegLatencySM75::Decoupled
            },
            Opcode::Lop2 | Opcode::PSetP => unreached(),
        }
    }

    pub open spec fn spec_read_after_write(writer: RegLatencySM75, reader: RegLatencySM75) -> Option<u32> {
        if matches!(writer, RegLatencySM75::IMADWideAB |
            RegLatencySM75::DecoupledOther) { None } else {
        match reader {
            RegLatencySM75::CoupledDisp64 |
            RegLatencySM75::CoupledDisp |
            RegLatencySM75::CoupledAlu => {
                match writer {
                    RegLatencySM75::CoupledDisp64 => Some(6),
                    RegLatencySM75::CoupledAlu | RegLatencySM75::CoupledDisp => Some(4),
                    RegLatencySM75::CoupledFMA | RegLatencySM75::IMADLo => Some(5),
                    RegLatencySM75::IMADWideLower => Some(3),
                    RegLatencySM75::IMADWideUpper => Some(5),
                    RegLatencySM75::RedirectedFP64 => Some(9),
                    RegLatencySM75::RedirectedFP16 => Some(8),
                    RegLatencySM75::RedirectedHMMA_884_F16 => Some(13),
                    RegLatencySM75::RedirectedHMMA_884_F32 => Some(10),
                    RegLatencySM75::RedirectedHMMA_1688 => Some(14),
                    RegLatencySM75::RedirectedHMMA_16816 => Some(22),
                    RegLatencySM75::IMMA => Some(10),
                    _ => Some(1)
                }
            },
            RegLatencySM75::CoupledFMA |
            RegLatencySM75::IMADLo => {
                match writer {
                    RegLatencySM75::CoupledDisp64 => Some(6),
                    RegLatencySM75::CoupledAlu | RegLatencySM75::CoupledDisp => Some(5),
                    RegLatencySM75::CoupledFMA | RegLatencySM75::IMADLo => Some(4),
                    RegLatencySM75::IMADWideLower => Some(2),
                    RegLatencySM75::IMADWideUpper => Some(4),
                    RegLatencySM75::RedirectedFP64 => Some(9),
                    RegLatencySM75::RedirectedFP16 => Some(8),
                    RegLatencySM75::RedirectedHMMA_884_F16 => Some(13),
                    RegLatencySM75::RedirectedHMMA_884_F32 => Some(10),
                    RegLatencySM75::RedirectedHMMA_1688 => Some(14),
                    RegLatencySM75::RedirectedHMMA_16816 => Some(22),
                    RegLatencySM75::IMMA => Some(10),
                    _ => Some(1)
                }
            }
            RegLatencySM75::IMADWideAB => {
                match writer {
                    RegLatencySM75::CoupledDisp64 => Some(6),
                    RegLatencySM75::CoupledAlu | RegLatencySM75::CoupledDisp => Some(5),
                    RegLatencySM75::CoupledFMA | RegLatencySM75::IMADLo => Some(4),
                    RegLatencySM75::IMADWideLower => Some(4),
                    RegLatencySM75::IMADWideUpper => Some(6),
                    RegLatencySM75::RedirectedFP64 => Some(9),
                    RegLatencySM75::RedirectedFP16 => Some(8),
                    RegLatencySM75::RedirectedHMMA_884_F16 => Some(13),
                    RegLatencySM75::RedirectedHMMA_884_F32 => Some(10),
                    RegLatencySM75::RedirectedHMMA_1688 => Some(14),
                    RegLatencySM75::RedirectedHMMA_16816 => Some(22),
                    RegLatencySM75::IMMA => Some(10),
                    _ => Some(1)
                }
            }
            RegLatencySM75::IMADWideLower |
            RegLatencySM75::IMADWideUpper => {
                match reader {
                    RegLatencySM75::IMADWideLower => {
                        match writer {
                            RegLatencySM75::CoupledDisp64 => Some(6),
                            RegLatencySM75::CoupledAlu | RegLatencySM75::CoupledDisp => Some(5),
                            RegLatencySM75::CoupledFMA | RegLatencySM75::IMADLo => Some(4),
                            RegLatencySM75::IMADWideLower => Some(2),
                            RegLatencySM75::IMADWideUpper => Some(2),
                            RegLatencySM75::RedirectedFP64 => Some(9),
                            RegLatencySM75::RedirectedFP16 => Some(8),
                            RegLatencySM75::RedirectedHMMA_884_F16 => Some(13),
                            RegLatencySM75::RedirectedHMMA_884_F32 => Some(10),
                            RegLatencySM75::RedirectedHMMA_1688 => Some(14),
                            RegLatencySM75::RedirectedHMMA_16816 => Some(22),
                            RegLatencySM75::IMMA => Some(10),
                            _ => Some(1)
                        }
                    }
                    RegLatencySM75::IMADWideUpper => {
                        match writer {
                            RegLatencySM75::CoupledDisp64 => Some(4),
                            RegLatencySM75::CoupledAlu | RegLatencySM75::CoupledDisp => Some(3),
                            RegLatencySM75::CoupledFMA | RegLatencySM75::IMADLo => Some(2),
                            RegLatencySM75::IMADWideLower => Some(2),
                            RegLatencySM75::IMADWideUpper => Some(2),
                            RegLatencySM75::RedirectedFP64 => Some(7),
                            RegLatencySM75::RedirectedFP16 => Some(6),
                            RegLatencySM75::RedirectedHMMA_884_F16 => Some(11),
                            RegLatencySM75::RedirectedHMMA_884_F32 => Some(8),
                            RegLatencySM75::RedirectedHMMA_1688 => Some(12),
                            RegLatencySM75::RedirectedHMMA_16816 => Some(20),
                            RegLatencySM75::IMMA => Some(8),
                            _ => Some(1)
                        }
                    }
                    _ => None
                }
            }
            RegLatencySM75::RedirectedFP64 => {
                match writer {
                    RegLatencySM75::CoupledDisp64 => Some(6),
                    RegLatencySM75::CoupledAlu | RegLatencySM75::CoupledDisp => Some(6),
                    RegLatencySM75::CoupledFMA | RegLatencySM75::IMADLo => Some(6),
                    RegLatencySM75::IMADWideLower => Some(6),
                    RegLatencySM75::IMADWideUpper => Some(6),
                    RegLatencySM75::RedirectedFP64 => Some(8),
                    RegLatencySM75::RedirectedFP16 => Some(8),
                    RegLatencySM75::RedirectedHMMA_884_F16 => Some(13),
                    RegLatencySM75::RedirectedHMMA_884_F32 => Some(10),
                    RegLatencySM75::RedirectedHMMA_1688 => Some(14),
                    RegLatencySM75::RedirectedHMMA_16816 => Some(22),
                    RegLatencySM75::IMMA => Some(10),
                    _ => Some(1)
                }
            }
            RegLatencySM75::RedirectedFP16 => {
                match writer {
                    RegLatencySM75::CoupledDisp64 => Some(6),
                    RegLatencySM75::CoupledAlu | RegLatencySM75::CoupledDisp => Some(6),
                    RegLatencySM75::CoupledFMA | RegLatencySM75::IMADLo => Some(6),
                    RegLatencySM75::IMADWideLower => Some(6),
                    RegLatencySM75::IMADWideUpper => Some(6),
                    RegLatencySM75::RedirectedFP64 => Some(9),
                    RegLatencySM75::RedirectedFP16 => Some(6),
                    RegLatencySM75::RedirectedHMMA_884_F16 => Some(13),
                    RegLatencySM75::RedirectedHMMA_884_F32 => Some(10),
                    RegLatencySM75::RedirectedHMMA_1688 => Some(14),
                    RegLatencySM75::RedirectedHMMA_16816 => Some(22),
                    RegLatencySM75::IMMA => Some(10),
                    _ => Some(1)
                }
            }
            RegLatencySM75::RedirectedHMMA_884_F16 |
            RegLatencySM75::RedirectedHMMA_884_F32 |
            RegLatencySM75::RedirectedHMMA_1688    |
            RegLatencySM75::RedirectedHMMA_16816 |
            RegLatencySM75::Decoupled => {
                match writer {
                    RegLatencySM75::CoupledDisp64 => Some(6),
                    RegLatencySM75::CoupledAlu | RegLatencySM75::CoupledDisp => Some(6),
                    RegLatencySM75::CoupledFMA | RegLatencySM75::IMADLo => Some(6),
                    RegLatencySM75::IMADWideLower => Some(6),
                    RegLatencySM75::IMADWideUpper => Some(6),
                    RegLatencySM75::RedirectedFP64 => Some(9),
                    RegLatencySM75::RedirectedFP16 => Some(8),
                    RegLatencySM75::RedirectedHMMA_884_F16 => Some(13),
                    RegLatencySM75::RedirectedHMMA_884_F32 => Some(10),
                    RegLatencySM75::RedirectedHMMA_1688 => Some(14),
                    RegLatencySM75::RedirectedHMMA_16816 => Some(22),
                    RegLatencySM75::IMMA => Some(10),
                    _ => Some(1)
                }
            }
            RegLatencySM75::IMMA |
            RegLatencySM75::DecoupledOther => {
                match writer {
                    RegLatencySM75::CoupledDisp64 => Some(8),
                    RegLatencySM75::CoupledAlu | RegLatencySM75::CoupledDisp => Some(8),
                    RegLatencySM75::CoupledFMA | RegLatencySM75::IMADLo => Some(8),
                    RegLatencySM75::IMADWideLower => Some(8),
                    RegLatencySM75::IMADWideUpper => Some(8),
                    RegLatencySM75::RedirectedFP64 => Some(9),
                    RegLatencySM75::RedirectedFP16 => Some(8),
                    RegLatencySM75::RedirectedHMMA_884_F16 => Some(13),
                    RegLatencySM75::RedirectedHMMA_884_F32 => Some(10),
                    RegLatencySM75::RedirectedHMMA_1688 => Some(14),
                    RegLatencySM75::RedirectedHMMA_16816 => Some(22),
                    RegLatencySM75::IMMA => Some(10), 
                    _ => Some(1)
                }
            }
            RegLatencySM75::BMov |
            RegLatencySM75::GuardPredicate => None
        }
    }
    }

    pub fn read_after_write(writer: RegLatencySM75, reader: RegLatencySM75) -> (r: u32)
        requires
            Self::spec_read_after_write(writer, reader).is_some(),
        ensures
            Some(r) == Self::spec_read_after_write(writer, reader),
    {
        if matches!(writer, RegLatencySM75::IMADWideAB |
            RegLatencySM75::DecoupledOther) { unreached() } else {
        match reader {
            RegLatencySM75::CoupledDisp64 |
            RegLatencySM75::CoupledDisp |
            RegLatencySM75::CoupledAlu => {
                match writer {
                    RegLatencySM75::CoupledDisp64 => 6,
                    RegLatencySM75::CoupledAlu | RegLatencySM75::CoupledDisp => 4,
                    RegLatencySM75::CoupledFMA | RegLatencySM75::IMADLo => 5,
                    RegLatencySM75::IMADWideLower => 3,
                    RegLatencySM75::IMADWideUpper => 5,
                    RegLatencySM75::RedirectedFP64 => 9,
                    RegLatencySM75::RedirectedFP16 => 8,
                    RegLatencySM75::RedirectedHMMA_884_F16 => 13,
                    RegLatencySM75::RedirectedHMMA_884_F32 => 10,
                    RegLatencySM75::RedirectedHMMA_1688 => 14,
                    RegLatencySM75::RedirectedHMMA_16816 => 22,
                    RegLatencySM75::IMMA => 10,
                    _ => 1
                }
            },
            RegLatencySM75::CoupledFMA |
            RegLatencySM75::IMADLo => {
                match writer {
                    RegLatencySM75::CoupledDisp64 => 6,
                    RegLatencySM75::CoupledAlu | RegLatencySM75::CoupledDisp => 5,
                    RegLatencySM75::CoupledFMA | RegLatencySM75::IMADLo => 4,
                    RegLatencySM75::IMADWideLower => 2,
                    RegLatencySM75::IMADWideUpper => 4,
                    RegLatencySM75::RedirectedFP64 => 9,
                    RegLatencySM75::RedirectedFP16 => 8,
                    RegLatencySM75::RedirectedHMMA_884_F16 => 13,
                    RegLatencySM75::RedirectedHMMA_884_F32 => 10,
                    RegLatencySM75::RedirectedHMMA_1688 => 14,
                    RegLatencySM75::RedirectedHMMA_16816 => 22,
                    RegLatencySM75::IMMA => 10,
                    _ => 1
                }
            }
            RegLatencySM75::IMADWideAB => {
                match writer {
                    RegLatencySM75::CoupledDisp64 => 6,
                    RegLatencySM75::CoupledAlu | RegLatencySM75::CoupledDisp => 5,
                    RegLatencySM75::CoupledFMA | RegLatencySM75::IMADLo => 4,
                    RegLatencySM75::IMADWideLower => 4,
                    RegLatencySM75::IMADWideUpper => 6,
                    RegLatencySM75::RedirectedFP64 => 9,
                    RegLatencySM75::RedirectedFP16 => 8,
                    RegLatencySM75::RedirectedHMMA_884_F16 => 13,
                    RegLatencySM75::RedirectedHMMA_884_F32 => 10,
                    RegLatencySM75::RedirectedHMMA_1688 => 14,
                    RegLatencySM75::RedirectedHMMA_16816 => 22,
                    RegLatencySM75::IMMA => 10,
                    _ => 1
                }
            }
            RegLatencySM75::IMADWideLower |
            RegLatencySM75::IMADWideUpper => {
                match reader {
                    RegLatencySM75::IMADWideLower => {
                        match writer {
                            RegLatencySM75::CoupledDisp64 => 6,
                            RegLatencySM75::CoupledAlu | RegLatencySM75::CoupledDisp => 5,
                            RegLatencySM75::CoupledFMA | RegLatencySM75::IMADLo => 4,
                            RegLatencySM75::IMADWideLower => 2,
                            RegLatencySM75::IMADWideUpper => 2,
                            RegLatencySM75::RedirectedFP64 => 9,
                            RegLatencySM75::RedirectedFP16 => 8,
                            RegLatencySM75::RedirectedHMMA_884_F16 => 13,
                            RegLatencySM75::RedirectedHMMA_884_F32 => 10,
                            RegLatencySM75::RedirectedHMMA_1688 => 14,
                            RegLatencySM75::RedirectedHMMA_16816 => 22,
                            RegLatencySM75::IMMA => 10,
                            _ => 1
                        }
                    }
                    RegLatencySM75::IMADWideUpper => {
                        match writer {
                            RegLatencySM75::CoupledDisp64 => 4,
                            RegLatencySM75::CoupledAlu | RegLatencySM75::CoupledDisp => 3,
                            RegLatencySM75::CoupledFMA | RegLatencySM75::IMADLo => 2,
                            RegLatencySM75::IMADWideLower => 2,
                            RegLatencySM75::IMADWideUpper => 2,
                            RegLatencySM75::RedirectedFP64 => 7,
                            RegLatencySM75::RedirectedFP16 => 6,
                            RegLatencySM75::RedirectedHMMA_884_F16 => 11,
                            RegLatencySM75::RedirectedHMMA_884_F32 => 8,
                            RegLatencySM75::RedirectedHMMA_1688 => 12,
                            RegLatencySM75::RedirectedHMMA_16816 => 20,
                            RegLatencySM75::IMMA => 8,
                            _ => 1
                        }
                    }
                    _ => unreached()
                }
            }
            RegLatencySM75::RedirectedFP64 => {
                match writer {
                    RegLatencySM75::CoupledDisp64 => 6,
                    RegLatencySM75::CoupledAlu | RegLatencySM75::CoupledDisp => 6,
                    RegLatencySM75::CoupledFMA | RegLatencySM75::IMADLo => 6,
                    RegLatencySM75::IMADWideLower => 6,
                    RegLatencySM75::IMADWideUpper => 6,
                    RegLatencySM75::RedirectedFP64 => 8,
                    RegLatencySM75::RedirectedFP16 => 8,
                    RegLatencySM75::RedirectedHMMA_884_F16 => 13,
                    RegLatencySM75::RedirectedHMMA_884_F32 => 10,
                    RegLatencySM75::RedirectedHMMA_1688 => 14,
                    RegLatencySM75::RedirectedHMMA_16816 => 22,
                    RegLatencySM75::IMMA => 10,
                    _ => 1
                }
            }
            RegLatencySM75::RedirectedFP16 => {
                match writer {
                    RegLatencySM75::CoupledDisp64 => 6,
                    RegLatencySM75::CoupledAlu | RegLatencySM75::CoupledDisp => 6,
                    RegLatencySM75::CoupledFMA | RegLatencySM75::IMADLo => 6,
                    RegLatencySM75::IMADWideLower => 6,
                    RegLatencySM75::IMADWideUpper => 6,
                    RegLatencySM75::RedirectedFP64 => 9,
                    RegLatencySM75::RedirectedFP16 => 6,
                    RegLatencySM75::RedirectedHMMA_884_F16 => 13,
                    RegLatencySM75::RedirectedHMMA_884_F32 => 10,
                    RegLatencySM75::RedirectedHMMA_1688 => 14,
                    RegLatencySM75::RedirectedHMMA_16816 => 22,
                    RegLatencySM75::IMMA => 10,
                    _ => 1
                }
            }
            RegLatencySM75::RedirectedHMMA_884_F16 |
            RegLatencySM75::RedirectedHMMA_884_F32 |
            RegLatencySM75::RedirectedHMMA_1688    |
            RegLatencySM75::RedirectedHMMA_16816 |
            RegLatencySM75::Decoupled => {
                match writer {
                    RegLatencySM75::CoupledDisp64 => 6,
                    RegLatencySM75::CoupledAlu | RegLatencySM75::CoupledDisp => 6,
                    RegLatencySM75::CoupledFMA | RegLatencySM75::IMADLo => 6,
                    RegLatencySM75::IMADWideLower => 6,
                    RegLatencySM75::IMADWideUpper => 6,
                    RegLatencySM75::RedirectedFP64 => 9,
                    RegLatencySM75::RedirectedFP16 => 8,
                    RegLatencySM75::RedirectedHMMA_884_F16 => 13,
                    RegLatencySM75::RedirectedHMMA_884_F32 => 10,
                    RegLatencySM75::RedirectedHMMA_1688 => 14,
                    RegLatencySM75::RedirectedHMMA_16816 => 22,
                    RegLatencySM75::IMMA => 10,
                    _ => 1
                }
            }
            RegLatencySM75::IMMA |
            RegLatencySM75::DecoupledOther => {
                match writer {
                    RegLatencySM75::CoupledDisp64 => 8,
                    RegLatencySM75::CoupledAlu | RegLatencySM75::CoupledDisp => 8,
                    RegLatencySM75::CoupledFMA | RegLatencySM75::IMADLo => 8,
                    RegLatencySM75::IMADWideLower => 8,
                    RegLatencySM75::IMADWideUpper => 8,
                    RegLatencySM75::RedirectedFP64 => 9,
                    RegLatencySM75::RedirectedFP16 => 8,
                    RegLatencySM75::RedirectedHMMA_884_F16 => 13,
                    RegLatencySM75::RedirectedHMMA_884_F32 => 10,
                    RegLatencySM75::RedirectedHMMA_1688 => 14,
                    RegLatencySM75::RedirectedHMMA_16816 => 22,
                    RegLatencySM75::IMMA => 10, 
                    _ => 1
                }
            }
            RegLatencySM75::BMov |
            RegLatencySM75::GuardPredicate => unreached()
        }
    }
    }

    pub open spec fn spec_write_after_write(writer1: RegLatencySM75, writer2: RegLatencySM75, has_pred: bool) -> Option<u32> {
        if matches!(writer1, RegLatencySM75::IMADWideAB |
            RegLatencySM75::DecoupledOther) { None } else {
        match writer2 {
            RegLatencySM75::CoupledDisp64 => {
                match writer1 {
                    RegLatencySM75::CoupledDisp64 |
                    RegLatencySM75::CoupledDisp |
                    RegLatencySM75::CoupledAlu |
                    RegLatencySM75::CoupledFMA |
                    RegLatencySM75::IMADLo |
                    RegLatencySM75::IMADWideLower |
                    RegLatencySM75::IMADWideUpper => Some(1),
                    RegLatencySM75::RedirectedFP64 => Some(4),
                    RegLatencySM75::RedirectedFP16 => Some(3),
                    RegLatencySM75::RedirectedHMMA_884_F16 => Some(8),
                    RegLatencySM75::RedirectedHMMA_884_F32 => Some(if has_pred { 4 } else { 2 }),
                    RegLatencySM75::RedirectedHMMA_1688 => Some(9),
                    RegLatencySM75::RedirectedHMMA_16816 => Some(17),
                    RegLatencySM75::IMMA => Some(5),
                    _ => Some(1),
                }
            },
            RegLatencySM75::CoupledDisp |
            RegLatencySM75::CoupledAlu => {
                match writer1 {
                    RegLatencySM75::CoupledDisp64 => Some(2),
                    RegLatencySM75::CoupledDisp |
                    RegLatencySM75::CoupledAlu |
                    RegLatencySM75::CoupledFMA |
                    RegLatencySM75::IMADLo |
                    RegLatencySM75::IMADWideLower |
                    RegLatencySM75::IMADWideUpper => Some(1),
                    RegLatencySM75::RedirectedFP64 => Some(if has_pred { 5 } else { 1 }),
                    RegLatencySM75::RedirectedFP16 => Some(if has_pred { 4 } else { 1 }),
                    RegLatencySM75::RedirectedHMMA_884_F16 => Some(if has_pred { 9 } else { 1 }),
                    RegLatencySM75::RedirectedHMMA_884_F32 => Some(if has_pred { 6 } else { 1 }),
                    RegLatencySM75::RedirectedHMMA_1688 => Some(if has_pred { 10 } else { 1 }),
                    RegLatencySM75::RedirectedHMMA_16816 => Some(if has_pred { 18 } else { 1 }),
                    RegLatencySM75::IMMA => Some(if has_pred { 6 } else { 1 }),
                    _ => Some(1),
                }
            },
            RegLatencySM75::CoupledFMA | RegLatencySM75::IMADLo => {
                match writer1 {
                    RegLatencySM75::CoupledDisp64 => Some(2),
                    RegLatencySM75::CoupledDisp |
                    RegLatencySM75::CoupledAlu |
                    RegLatencySM75::CoupledFMA |
                    RegLatencySM75::IMADLo |
                    RegLatencySM75::IMADWideLower => Some(1),
                    RegLatencySM75::IMADWideUpper => Some(if has_pred { 2 } else { 1 }),
                    RegLatencySM75::RedirectedFP64 => Some(if has_pred { 5 } else { 1 }),
                    RegLatencySM75::RedirectedFP16 => Some(if has_pred { 4 } else { 1 }),
                    RegLatencySM75::RedirectedHMMA_884_F16 => Some(if has_pred { 9 } else { 1 }),
                    RegLatencySM75::RedirectedHMMA_884_F32 => Some(if has_pred { 6 } else { 1 }),
                    RegLatencySM75::RedirectedHMMA_1688 => Some(if has_pred { 10 } else { 1 }),
                    RegLatencySM75::RedirectedHMMA_16816 => Some(if has_pred { 18 } else { 1 }),
                    RegLatencySM75::IMMA => Some(if has_pred { 6 } else { 1 }),
                    _ => Some(1),
                }
            }
            RegLatencySM75::IMADWideLower => {
                match writer1 {
                    RegLatencySM75::CoupledDisp64 => Some(if has_pred { 4 } else { 2 }),
                    RegLatencySM75::CoupledDisp |
                    RegLatencySM75::CoupledAlu => Some(if has_pred { 3 } else { 1 }),
                    RegLatencySM75::CoupledFMA |
                    RegLatencySM75::IMADLo => Some(if has_pred { 2 } else { 1 }),
                    RegLatencySM75::IMADWideLower => Some(1),
                    RegLatencySM75::IMADWideUpper => Some(1),
                    RegLatencySM75::RedirectedFP64 => Some(if has_pred { 7 } else { 3 }),
                    RegLatencySM75::RedirectedFP16 => Some(if has_pred { 6 } else { 3 }),
                    RegLatencySM75::RedirectedHMMA_884_F16 => Some(if has_pred { 11 } else { 3 }),
                    RegLatencySM75::RedirectedHMMA_884_F32 => Some(if has_pred { 8 } else { 3 }),
                    RegLatencySM75::RedirectedHMMA_1688 => Some(if has_pred { 12 } else { 3 }),
                    RegLatencySM75::RedirectedHMMA_16816 => Some(if has_pred { 20 } else { 3 }),
                    RegLatencySM75::IMMA => Some(if has_pred { 8 } else { 3 }),
                    _ => Some(1),
                }
            },
            RegLatencySM75::IMADWideUpper => {
                match writer1 {
                    RegLatencySM75::CoupledDisp64 => Some(if has_pred { 2 } else { 1 }),
                    RegLatencySM75::CoupledDisp |
                    RegLatencySM75::CoupledAlu |
                    RegLatencySM75::CoupledFMA |
                    RegLatencySM75::IMADLo |
                    RegLatencySM75::IMADWideLower |
                    RegLatencySM75::IMADWideUpper => Some(1),
                    RegLatencySM75::RedirectedFP64 => Some(if has_pred { 5 } else { 1 }),
                    RegLatencySM75::RedirectedFP16 => Some(if has_pred { 4 } else { 1 }),
                    RegLatencySM75::RedirectedHMMA_884_F16 => Some(if has_pred { 9 } else { 1 }),
                    RegLatencySM75::RedirectedHMMA_884_F32 => Some(if has_pred { 6 } else { 1 }),
                    RegLatencySM75::RedirectedHMMA_1688 => Some(if has_pred { 10 } else { 1 }),
                    RegLatencySM75::RedirectedHMMA_16816 => Some(if has_pred { 18 } else { 1 }),
                    RegLatencySM75::IMMA => Some(if has_pred { 6 } else { 1 }),
                    _ => Some(1),
                }
            },
            RegLatencySM75::RedirectedFP64 => {
                match writer1 {
                    RegLatencySM75::CoupledDisp64 |
                    RegLatencySM75::CoupledDisp |
                    RegLatencySM75::CoupledAlu |
                    RegLatencySM75::CoupledFMA |
                    RegLatencySM75::IMADLo |
                    RegLatencySM75::IMADWideLower |
                    RegLatencySM75::IMADWideUpper => Some(2),
                    RegLatencySM75::RedirectedFP64 => Some(1),
                    RegLatencySM75::RedirectedFP16 => Some(2),
                    RegLatencySM75::RedirectedHMMA_884_F16 => Some(5),
                    RegLatencySM75::RedirectedHMMA_884_F32 => Some(2),
                    RegLatencySM75::RedirectedHMMA_1688 => Some(6),
                    RegLatencySM75::RedirectedHMMA_16816 => Some(14),
                    RegLatencySM75::IMMA => Some(2),
                    _ => Some(1),
                }
            },
            RegLatencySM75::RedirectedFP16 => {
                match writer1 {
                    RegLatencySM75::CoupledDisp64 |
                    RegLatencySM75::CoupledDisp |
                    RegLatencySM75::CoupledAlu |
                    RegLatencySM75::CoupledFMA |
                    RegLatencySM75::IMADLo |
                    RegLatencySM75::IMADWideLower |
                    RegLatencySM75::IMADWideUpper => Some(2),
                    RegLatencySM75::RedirectedFP64 => Some(if has_pred { 2 } else { 1 }),
                    RegLatencySM75::RedirectedFP16 => Some(1),
                    RegLatencySM75::RedirectedHMMA_884_F16 => Some(if has_pred { 7 } else { 1 }),
                    RegLatencySM75::RedirectedHMMA_884_F32 => Some(if has_pred { 4 } else { 1 }),
                    RegLatencySM75::RedirectedHMMA_1688 => Some(if has_pred { 8 } else { 1 }),
                    RegLatencySM75::RedirectedHMMA_16816 => Some(if has_pred { 16 } else { 1 }),
                    RegLatencySM75::IMMA => Some(if has_pred { 4 } else { 1 }),
                    _ => Some(1),
                }
            },
            RegLatencySM75::RedirectedHMMA_884_F16 => {
                match writer1 {
                    RegLatencySM75::CoupledDisp64 |
                    RegLatencySM75::CoupledDisp |
                    RegLatencySM75::CoupledAlu |
                    RegLatencySM75::CoupledFMA |
                    RegLatencySM75::IMADLo |
                    RegLatencySM75::IMADWideLower |
                    RegLatencySM75::IMADWideUpper => Some(2),
                    RegLatencySM75::RedirectedFP64 => Some(if has_pred { 5 } else { 2 }),
                    RegLatencySM75::RedirectedFP16 => Some(if has_pred { 4 } else { 2 }),
                    RegLatencySM75::RedirectedHMMA_884_F16 => Some(1),
                    RegLatencySM75::RedirectedHMMA_884_F32 => Some(if has_pred { 6 } else { 4 }),
                    RegLatencySM75::RedirectedHMMA_1688 => Some(if has_pred { 10 } else { 4 }),
                    RegLatencySM75::RedirectedHMMA_16816 => Some(if has_pred { 18 } else { 2 }),
                    RegLatencySM75::IMMA => Some(if has_pred { 6 } else { 4 }),
                    _ => Some(1),
                }
            },
            RegLatencySM75::RedirectedHMMA_884_F32 => {
                match writer1 {
                    RegLatencySM75::CoupledDisp64 |
                    RegLatencySM75::CoupledDisp |
                    RegLatencySM75::CoupledAlu |
                    RegLatencySM75::CoupledFMA |
                    RegLatencySM75::IMADLo |
                    RegLatencySM75::IMADWideLower |
                    RegLatencySM75::IMADWideUpper => Some(2),
                    RegLatencySM75::RedirectedFP64 => Some(if has_pred { 5 } else { 2 }),
                    RegLatencySM75::RedirectedFP16 => Some(if has_pred { 4 } else { 2 }),
                    RegLatencySM75::RedirectedHMMA_884_F16 => Some(if has_pred { 9 } else { 5 }),
                    RegLatencySM75::RedirectedHMMA_884_F32 => Some(1),
                    RegLatencySM75::RedirectedHMMA_1688 => Some(if has_pred { 10 } else { 4 }),
                    RegLatencySM75::RedirectedHMMA_16816 => Some(if has_pred { 18 } else { 2 }),
                    RegLatencySM75::IMMA => Some(if has_pred { 6 } else { 4 }),
                    _ => Some(1),
                }
            },
            RegLatencySM75::RedirectedHMMA_1688 => {
                match writer1 {
                    RegLatencySM75::CoupledDisp64 |
                    RegLatencySM75::CoupledDisp |
                    RegLatencySM75::CoupledAlu |
                    RegLatencySM75::CoupledFMA |
                    RegLatencySM75::IMADLo |
                    RegLatencySM75::IMADWideLower |
                    RegLatencySM75::IMADWideUpper |
                    RegLatencySM75::RedirectedFP64 |
                    RegLatencySM75::RedirectedFP16 => Some(2),
                    RegLatencySM75::RedirectedHMMA_884_F16 => Some(4),
                    RegLatencySM75::RedirectedHMMA_884_F32 => Some(2),
                    RegLatencySM75::RedirectedHMMA_1688 => Some(1),
                    RegLatencySM75::RedirectedHMMA_16816 => Some(16),
                    RegLatencySM75::IMMA => Some(2),
                    _ => Some(1),
                }
            },
            RegLatencySM75::RedirectedHMMA_16816 => {
                match writer1 {
                    RegLatencySM75::CoupledDisp64 |
                    RegLatencySM75::CoupledDisp |
                    RegLatencySM75::CoupledAlu |
                    RegLatencySM75::CoupledFMA |
                    RegLatencySM75::IMADLo |
                    RegLatencySM75::IMADWideLower |
                    RegLatencySM75::IMADWideUpper |
                    RegLatencySM75::RedirectedFP64 |
                    RegLatencySM75::RedirectedFP16 => Some(2),
                    RegLatencySM75::RedirectedHMMA_884_F16 => Some(4),
                    RegLatencySM75::RedirectedHMMA_884_F32 => Some(2),
                    RegLatencySM75::RedirectedHMMA_1688 => Some(6),
                    RegLatencySM75::RedirectedHMMA_16816 => Some(1),
                    RegLatencySM75::IMMA => Some(2),
                    _ => Some(1),
                }
            },
            RegLatencySM75::IMMA => {
                match writer1 {
                    RegLatencySM75::CoupledDisp64 |
                    RegLatencySM75::CoupledDisp |
                    RegLatencySM75::CoupledAlu |
                    RegLatencySM75::CoupledFMA |
                    RegLatencySM75::IMADLo |
                    RegLatencySM75::IMADWideLower |
                    RegLatencySM75::IMADWideUpper => Some(if has_pred { 4 } else { 2 }),
                    RegLatencySM75::RedirectedFP64 => Some(if has_pred { 5 } else { 3 }),
                    RegLatencySM75::RedirectedFP16 => Some(if has_pred { 4 } else { 2 }),
                    RegLatencySM75::RedirectedHMMA_884_F16 => Some(if has_pred { 9 } else { 7 }),
                    RegLatencySM75::RedirectedHMMA_884_F32 => Some(if has_pred { 6 } else { 4 }),
                    RegLatencySM75::RedirectedHMMA_1688 => Some(if has_pred { 10 } else { 4 }),
                    RegLatencySM75::RedirectedHMMA_16816 => Some(if has_pred { 18 } else { 4 }),
                    RegLatencySM75::IMMA => Some(1),
                    _ => Some(1),
                }
            },
            RegLatencySM75::Decoupled => {
                match writer1 {
                    RegLatencySM75::CoupledDisp64 |
                    RegLatencySM75::CoupledDisp |
                    RegLatencySM75::CoupledAlu |
                    RegLatencySM75::CoupledFMA |
                    RegLatencySM75::IMADLo |
                    RegLatencySM75::IMADWideLower |
                    RegLatencySM75::IMADWideUpper |
                    RegLatencySM75::RedirectedFP64 |
                    RegLatencySM75::RedirectedFP16 |
                    RegLatencySM75::RedirectedHMMA_884_F16 |
                    RegLatencySM75::RedirectedHMMA_884_F32 |
                    RegLatencySM75::RedirectedHMMA_1688 => Some(6),
                    RegLatencySM75::RedirectedHMMA_16816 => Some(14),
                    RegLatencySM75::IMMA => Some(2),
                    _ => Some(1),
                }
            },
            RegLatencySM75::BMov => {
                match writer1 {
                    RegLatencySM75::CoupledDisp64 |
                    RegLatencySM75::CoupledDisp |
                    RegLatencySM75::CoupledAlu |
                    RegLatencySM75::CoupledFMA |
                    RegLatencySM75::IMADLo |
                    RegLatencySM75::IMADWideLower |
                    RegLatencySM75::IMADWideUpper |
                    RegLatencySM75::RedirectedFP64 |
                    RegLatencySM75::RedirectedFP16 |
                    RegLatencySM75::RedirectedHMMA_884_F16 |
                    RegLatencySM75::RedirectedHMMA_884_F32 |
                    RegLatencySM75::RedirectedHMMA_1688 => Some(9),
                    RegLatencySM75::RedirectedHMMA_16816 => Some(14),
                    RegLatencySM75::IMMA => Some(9),
                    _ => Some(1),
                }
            },
            RegLatencySM75::IMADWideAB |
            RegLatencySM75::DecoupledOther | RegLatencySM75::GuardPredicate => None
        }
    }
    }

    pub fn write_after_write(writer1: RegLatencySM75, writer2: RegLatencySM75, has_pred: bool) -> (r: u32)
        requires
            Self::spec_write_after_write(writer1, writer2, has_pred).is_some(),
        ensures
            Some(r) == Self::spec_write_after_write(writer1, writer2, has_pred),
    {
        if matches!(writer1, RegLatencySM75::IMADWideAB |
            RegLatencySM75::DecoupledOther) { unreached() } else {
        match writer2 {
            RegLatencySM75::CoupledDisp64 => {
                match writer1 {
                    RegLatencySM75::CoupledDisp64 |
                    RegLatencySM75::CoupledDisp |
                    RegLatencySM75::CoupledAlu |
                    RegLatencySM75::CoupledFMA |
                    RegLatencySM75::IMADLo |
                    RegLatencySM75::IMADWideLower |
                    RegLatencySM75::IMADWideUpper => 1,
                    RegLatencySM75::RedirectedFP64 => 4,
                    RegLatencySM75::RedirectedFP16 => 3,
                    RegLatencySM75::RedirectedHMMA_884_F16 => 8,
                    RegLatencySM75::RedirectedHMMA_884_F32 => if has_pred { 4 } else { 2 },
                    RegLatencySM75::RedirectedHMMA_1688 => 9,
                    RegLatencySM75::RedirectedHMMA_16816 => 17,
                    RegLatencySM75::IMMA => 5,
                    _ => 1,
                }
            },
            RegLatencySM75::CoupledDisp |
            RegLatencySM75::CoupledAlu => {
                match writer1 {
                    RegLatencySM75::CoupledDisp64 => 2,
                    RegLatencySM75::CoupledDisp |
                    RegLatencySM75::CoupledAlu |
                    RegLatencySM75::CoupledFMA |
                    RegLatencySM75::IMADLo |
                    RegLatencySM75::IMADWideLower |
                    RegLatencySM75::IMADWideUpper => 1,
                    RegLatencySM75::RedirectedFP64 => if has_pred { 5 } else { 1 },
                    RegLatencySM75::RedirectedFP16 => if has_pred { 4 } else { 1 },
                    RegLatencySM75::RedirectedHMMA_884_F16 => if has_pred { 9 } else { 1 },
                    RegLatencySM75::RedirectedHMMA_884_F32 => if has_pred { 6 } else { 1 },
                    RegLatencySM75::RedirectedHMMA_1688 => if has_pred { 10 } else { 1 },
                    RegLatencySM75::RedirectedHMMA_16816 => if has_pred { 18 } else { 1 },
                    RegLatencySM75::IMMA => if has_pred { 6 } else { 1 },
                    _ => 1,
                }
            },
            RegLatencySM75::CoupledFMA | RegLatencySM75::IMADLo => {
                match writer1 {
                    RegLatencySM75::CoupledDisp64 => 2,
                    RegLatencySM75::CoupledDisp |
                    RegLatencySM75::CoupledAlu |
                    RegLatencySM75::CoupledFMA |
                    RegLatencySM75::IMADLo |
                    RegLatencySM75::IMADWideLower => 1,
                    RegLatencySM75::IMADWideUpper => if has_pred { 2 } else { 1 },
                    RegLatencySM75::RedirectedFP64 => if has_pred { 5 } else { 1 },
                    RegLatencySM75::RedirectedFP16 => if has_pred { 4 } else { 1 },
                    RegLatencySM75::RedirectedHMMA_884_F16 => if has_pred { 9 } else { 1 },
                    RegLatencySM75::RedirectedHMMA_884_F32 => if has_pred { 6 } else { 1 },
                    RegLatencySM75::RedirectedHMMA_1688 => if has_pred { 10 } else { 1 },
                    RegLatencySM75::RedirectedHMMA_16816 => if has_pred { 18 } else { 1 },
                    RegLatencySM75::IMMA => if has_pred { 6 } else { 1 },
                    _ => 1,
                }
            }
            RegLatencySM75::IMADWideLower => {
                match writer1 {
                    RegLatencySM75::CoupledDisp64 => if has_pred { 4 } else { 2 },
                    RegLatencySM75::CoupledDisp |
                    RegLatencySM75::CoupledAlu => if has_pred { 3 } else { 1 },
                    RegLatencySM75::CoupledFMA |
                    RegLatencySM75::IMADLo => if has_pred { 2 } else { 1 },
                    RegLatencySM75::IMADWideLower => 1,
                    RegLatencySM75::IMADWideUpper => 1,
                    RegLatencySM75::RedirectedFP64 => if has_pred { 7 } else { 3 },
                    RegLatencySM75::RedirectedFP16 => if has_pred { 6 } else { 3 },
                    RegLatencySM75::RedirectedHMMA_884_F16 => if has_pred { 11 } else { 3 },
                    RegLatencySM75::RedirectedHMMA_884_F32 => if has_pred { 8 } else { 3 },
                    RegLatencySM75::RedirectedHMMA_1688 => if has_pred { 12 } else { 3 },
                    RegLatencySM75::RedirectedHMMA_16816 => if has_pred { 20 } else { 3 },
                    RegLatencySM75::IMMA => if has_pred { 8 } else { 3 },
                    _ => 1,
                }
            },
            RegLatencySM75::IMADWideUpper => {
                match writer1 {
                    RegLatencySM75::CoupledDisp64 => if has_pred { 2 } else { 1 },
                    RegLatencySM75::CoupledDisp |
                    RegLatencySM75::CoupledAlu |
                    RegLatencySM75::CoupledFMA |
                    RegLatencySM75::IMADLo |
                    RegLatencySM75::IMADWideLower |
                    RegLatencySM75::IMADWideUpper => 1,
                    RegLatencySM75::RedirectedFP64 => if has_pred { 5 } else { 1 },
                    RegLatencySM75::RedirectedFP16 => if has_pred { 4 } else { 1 },
                    RegLatencySM75::RedirectedHMMA_884_F16 => if has_pred { 9 } else { 1 },
                    RegLatencySM75::RedirectedHMMA_884_F32 => if has_pred { 6 } else { 1 },
                    RegLatencySM75::RedirectedHMMA_1688 => if has_pred { 10 } else { 1 },
                    RegLatencySM75::RedirectedHMMA_16816 => if has_pred { 18 } else { 1 },
                    RegLatencySM75::IMMA => if has_pred { 6 } else { 1 },
                    _ => 1,
                }
            },
            RegLatencySM75::RedirectedFP64 => {
                match writer1 {
                    RegLatencySM75::CoupledDisp64 |
                    RegLatencySM75::CoupledDisp |
                    RegLatencySM75::CoupledAlu |
                    RegLatencySM75::CoupledFMA |
                    RegLatencySM75::IMADLo |
                    RegLatencySM75::IMADWideLower |
                    RegLatencySM75::IMADWideUpper => 2,
                    RegLatencySM75::RedirectedFP64 => 1,
                    RegLatencySM75::RedirectedFP16 => 2,
                    RegLatencySM75::RedirectedHMMA_884_F16 => 5,
                    RegLatencySM75::RedirectedHMMA_884_F32 => 2,
                    RegLatencySM75::RedirectedHMMA_1688 => 6,
                    RegLatencySM75::RedirectedHMMA_16816 => 14,
                    RegLatencySM75::IMMA => 2,
                    _ => 1,
                }
            },
            RegLatencySM75::RedirectedFP16 => {
                match writer1 {
                    RegLatencySM75::CoupledDisp64 |
                    RegLatencySM75::CoupledDisp |
                    RegLatencySM75::CoupledAlu |
                    RegLatencySM75::CoupledFMA |
                    RegLatencySM75::IMADLo |
                    RegLatencySM75::IMADWideLower |
                    RegLatencySM75::IMADWideUpper => 2,
                    RegLatencySM75::RedirectedFP64 => if has_pred { 2 } else { 1 },
                    RegLatencySM75::RedirectedFP16 => 1,
                    RegLatencySM75::RedirectedHMMA_884_F16 => if has_pred { 7 } else { 1 },
                    RegLatencySM75::RedirectedHMMA_884_F32 => if has_pred { 4 } else { 1 },
                    RegLatencySM75::RedirectedHMMA_1688 => if has_pred { 8 } else { 1 },
                    RegLatencySM75::RedirectedHMMA_16816 => if has_pred { 16 } else { 1 },
                    RegLatencySM75::IMMA => if has_pred { 4 } else { 1 },
                    _ => 1,
                }
            },
            RegLatencySM75::RedirectedHMMA_884_F16 => {
                match writer1 {
                    RegLatencySM75::CoupledDisp64 |
                    RegLatencySM75::CoupledDisp |
                    RegLatencySM75::CoupledAlu |
                    RegLatencySM75::CoupledFMA |
                    RegLatencySM75::IMADLo |
                    RegLatencySM75::IMADWideLower |
                    RegLatencySM75::IMADWideUpper => 2,
                    RegLatencySM75::RedirectedFP64 => if has_pred { 5 } else { 2 },
                    RegLatencySM75::RedirectedFP16 => if has_pred { 4 } else { 2 },
                    RegLatencySM75::RedirectedHMMA_884_F16 => 1,
                    RegLatencySM75::RedirectedHMMA_884_F32 => if has_pred { 6 } else { 4 },
                    RegLatencySM75::RedirectedHMMA_1688 => if has_pred { 10 } else { 4 },
                    RegLatencySM75::RedirectedHMMA_16816 => if has_pred { 18 } else { 2 },
                    RegLatencySM75::IMMA => if has_pred { 6 } else { 4 },
                    _ => 1,
                }
            },
            RegLatencySM75::RedirectedHMMA_884_F32 => {
                match writer1 {
                    RegLatencySM75::CoupledDisp64 |
                    RegLatencySM75::CoupledDisp |
                    RegLatencySM75::CoupledAlu |
                    RegLatencySM75::CoupledFMA |
                    RegLatencySM75::IMADLo |
                    RegLatencySM75::IMADWideLower |
                    RegLatencySM75::IMADWideUpper => 2,
                    RegLatencySM75::RedirectedFP64 => if has_pred { 5 } else { 2 },
                    RegLatencySM75::RedirectedFP16 => if has_pred { 4 } else { 2 },
                    RegLatencySM75::RedirectedHMMA_884_F16 => if has_pred { 9 } else { 5 },
                    RegLatencySM75::RedirectedHMMA_884_F32 => 1,
                    RegLatencySM75::RedirectedHMMA_1688 => if has_pred { 10 } else { 4 },
                    RegLatencySM75::RedirectedHMMA_16816 => if has_pred { 18 } else { 2 },
                    RegLatencySM75::IMMA => if has_pred { 6 } else { 4 },
                    _ => 1,
                }
            },
            RegLatencySM75::RedirectedHMMA_1688 => {
                match writer1 {
                    RegLatencySM75::CoupledDisp64 |
                    RegLatencySM75::CoupledDisp |
                    RegLatencySM75::CoupledAlu |
                    RegLatencySM75::CoupledFMA |
                    RegLatencySM75::IMADLo |
                    RegLatencySM75::IMADWideLower |
                    RegLatencySM75::IMADWideUpper |
                    RegLatencySM75::RedirectedFP64 |
                    RegLatencySM75::RedirectedFP16 => 2,
                    RegLatencySM75::RedirectedHMMA_884_F16 => 4,
                    RegLatencySM75::RedirectedHMMA_884_F32 => 2,
                    RegLatencySM75::RedirectedHMMA_1688 => 1,
                    RegLatencySM75::RedirectedHMMA_16816 => 16,
                    RegLatencySM75::IMMA => 2,
                    _ => 1,
                }
            },
            RegLatencySM75::RedirectedHMMA_16816 => {
                match writer1 {
                    RegLatencySM75::CoupledDisp64 |
                    RegLatencySM75::CoupledDisp |
                    RegLatencySM75::CoupledAlu |
                    RegLatencySM75::CoupledFMA |
                    RegLatencySM75::IMADLo |
                    RegLatencySM75::IMADWideLower |
                    RegLatencySM75::IMADWideUpper |
                    RegLatencySM75::RedirectedFP64 |
                    RegLatencySM75::RedirectedFP16 => 2,
                    RegLatencySM75::RedirectedHMMA_884_F16 => 4,
                    RegLatencySM75::RedirectedHMMA_884_F32 => 2,
                    RegLatencySM75::RedirectedHMMA_1688 => 6,
                    RegLatencySM75::RedirectedHMMA_16816 => 1,
                    RegLatencySM75::IMMA => 2,
                    _ => 1,
                }
            },
            RegLatencySM75::IMMA => {
                match writer1 {
                    RegLatencySM75::CoupledDisp64 |
                    RegLatencySM75::CoupledDisp |
                    RegLatencySM75::CoupledAlu |
                    RegLatencySM75::CoupledFMA |
                    RegLatencySM75::IMADLo |
                    RegLatencySM75::IMADWideLower |
                    RegLatencySM75::IMADWideUpper => if has_pred { 4 } else { 2 },
                    RegLatencySM75::RedirectedFP64 => if has_pred { 5 } else { 3 },
                    RegLatencySM75::RedirectedFP16 => if has_pred { 4 } else { 2 },
                    RegLatencySM75::RedirectedHMMA_884_F16 => if has_pred { 9 } else { 7 },
                    RegLatencySM75::RedirectedHMMA_884_F32 => if has_pred { 6 } else { 4 },
                    RegLatencySM75::RedirectedHMMA_1688 => if has_pred { 10 } else { 4 },
                    RegLatencySM75::RedirectedHMMA_16816 => if has_pred { 18 } else { 4 },
                    RegLatencySM75::IMMA => 1,
                    _ => 1,
                }
            },
            RegLatencySM75::Decoupled => {
                match writer1 {
                    RegLatencySM75::CoupledDisp64 |
                    RegLatencySM75::CoupledDisp |
                    RegLatencySM75::CoupledAlu |
                    RegLatencySM75::CoupledFMA |
                    RegLatencySM75::IMADLo |
                    RegLatencySM75::IMADWideLower |
                    RegLatencySM75::IMADWideUpper |
                    RegLatencySM75::RedirectedFP64 |
                    RegLatencySM75::RedirectedFP16 |
                    RegLatencySM75::RedirectedHMMA_884_F16 |
                    RegLatencySM75::RedirectedHMMA_884_F32 |
                    RegLatencySM75::RedirectedHMMA_1688 => 6,
                    RegLatencySM75::RedirectedHMMA_16816 => 14,
                    RegLatencySM75::IMMA => 2,
                    _ => 1,
                }
            },
            RegLatencySM75::BMov => {
                match writer1 {
                    RegLatencySM75::CoupledDisp64 |
                    RegLatencySM75::CoupledDisp |
                    RegLatencySM75::CoupledAlu |
                    RegLatencySM75::CoupledFMA |
                    RegLatencySM75::IMADLo |
                    RegLatencySM75::IMADWideLower |
                    RegLatencySM75::IMADWideUpper |
                    RegLatencySM75::RedirectedFP64 |
                    RegLatencySM75::RedirectedFP16 |
                    RegLatencySM75::RedirectedHMMA_884_F16 |
                    RegLatencySM75::RedirectedHMMA_884_F32 |
                    RegLatencySM75::RedirectedHMMA_1688 => 9,
                    RegLatencySM75::RedirectedHMMA_16816 => 14,
                    RegLatencySM75::IMMA => 9,
                    _ => 1,
                }
            },
            RegLatencySM75::IMADWideAB |
            RegLatencySM75::DecoupledOther | RegLatencySM75::GuardPredicate => unreached()
        }
    }
    }

    pub open spec fn spec_write_after_read(reader: RegLatencySM75, writer: RegLatencySM75) -> Option<u32> {
        match writer {
            RegLatencySM75::CoupledDisp64 |
            RegLatencySM75::CoupledDisp |
            RegLatencySM75::CoupledAlu |
            RegLatencySM75::CoupledFMA |
            RegLatencySM75::IMADLo |
            RegLatencySM75::IMADWideLower |
            RegLatencySM75::IMADWideUpper => {
                match reader {
                    RegLatencySM75::RedirectedHMMA_1688 => Some(5),
                    RegLatencySM75::RedirectedHMMA_16816 => Some(13),
                    _ => Some(1),
                }
            },
            RegLatencySM75::RedirectedFP64 => {
                match reader {
                    RegLatencySM75::RedirectedFP64 => Some(1),
                    RegLatencySM75::RedirectedHMMA_1688 => Some(6),
                    RegLatencySM75::RedirectedHMMA_16816 => Some(14),
                    RegLatencySM75::Decoupled => Some(1),
                    _ => Some(2),
                }
            },
            RegLatencySM75::RedirectedFP16 => {
                match reader {
                    RegLatencySM75::RedirectedFP16 => Some(1),
                    RegLatencySM75::RedirectedHMMA_1688 => Some(6),
                    RegLatencySM75::RedirectedHMMA_16816 => Some(14),
                    RegLatencySM75::Decoupled => Some(1),
                    _ => Some(2),
                }
            },
            RegLatencySM75::RedirectedHMMA_884_F16 => {
                match reader {
                    RegLatencySM75::RedirectedHMMA_884_F16 => Some(1),
                    RegLatencySM75::RedirectedHMMA_1688 => Some(6),
                    RegLatencySM75::RedirectedHMMA_16816 => Some(14),
                    RegLatencySM75::Decoupled => Some(1),
                    _ => Some(2),
                }
            },
            RegLatencySM75::RedirectedHMMA_884_F32 => {
                match reader {
                    RegLatencySM75::RedirectedHMMA_884_F32 => Some(1),
                    RegLatencySM75::RedirectedHMMA_1688 => Some(6),
                    RegLatencySM75::RedirectedHMMA_16816 => Some(14),
                    RegLatencySM75::Decoupled => Some(1),
                    _ => Some(2),
                }
            },
            RegLatencySM75::RedirectedHMMA_1688 => {
                match reader {
                    RegLatencySM75::RedirectedHMMA_1688 => Some(1),
                    RegLatencySM75::RedirectedHMMA_16816 => Some(14),
                    RegLatencySM75::Decoupled => Some(1),
                    _ => Some(2),
                }
            },
            RegLatencySM75::RedirectedHMMA_16816 => {
                match reader {
                    RegLatencySM75::RedirectedHMMA_1688 => Some(6),
                    RegLatencySM75::RedirectedHMMA_16816 => Some(1),
                    RegLatencySM75::Decoupled => Some(1),
                    _ => Some(2),
                }
            },
            RegLatencySM75::IMMA => {
                match reader {
                    RegLatencySM75::RedirectedHMMA_1688 => Some(6),
                    RegLatencySM75::RedirectedHMMA_16816 => Some(14),
                    RegLatencySM75::IMMA => Some(1),
                    RegLatencySM75::Decoupled => Some(1),
                    _ => Some(2),
                }
            },
            RegLatencySM75::Decoupled => {
                match reader {
                    RegLatencySM75::RedirectedHMMA_1688 => Some(2),
                    RegLatencySM75::RedirectedHMMA_16816 => Some(14),
                    RegLatencySM75::Decoupled => Some(1),
                    _ => Some(2),
                }
            },
            RegLatencySM75::BMov => {
                match reader {
                    RegLatencySM75::RedirectedHMMA_1688 => Some(9),
                    RegLatencySM75::RedirectedHMMA_16816 => Some(14),
                    RegLatencySM75::Decoupled => Some(1),
                    _ => Some(9),
                }
            },
            RegLatencySM75::IMADWideAB |
            RegLatencySM75::DecoupledOther | RegLatencySM75::GuardPredicate => None
        }
    }

    pub fn write_after_read(reader: RegLatencySM75, writer: RegLatencySM75) -> (r: u32)
        requires
            Self::spec_write_after_read(reader, writer).is_some(),
        ensures
            Some(r) == Self::spec_write_after_read(reader, writer),
    {
        match writer {
            RegLatencySM75::CoupledDisp64 |
            RegLatencySM75::CoupledDisp |
            RegLatencySM75::CoupledAlu |
            RegLatencySM75::CoupledFMA |
            RegLatencySM75::IMADLo |
            RegLatencySM75::IMADWideLower |
            RegLatencySM75::IMADWideUpper => {
                match reader {
                    RegLatencySM75::RedirectedHMMA_1688 => 5,
                    RegLatencySM75::RedirectedHMMA_16816 => 13,
                    _ => 1,
                }
            },
            RegLatencySM75::RedirectedFP64 => {
                match reader {
                    RegLatencySM75::RedirectedFP64 => 1,
                    RegLatencySM75::RedirectedHMMA_1688 => 6,
                    RegLatencySM75::RedirectedHMMA_16816 => 14,
                    RegLatencySM75::Decoupled => 1,
                    _ => 2,
                }
            },
            RegLatencySM75::RedirectedFP16 => {
                match reader {
                    RegLatencySM75::RedirectedFP16 => 1,
                    RegLatencySM75::RedirectedHMMA_1688 => 6,
                    RegLatencySM75::RedirectedHMMA_16816 => 14,
                    RegLatencySM75::Decoupled => 1,
                    _ => 2,
                }
            },
            RegLatencySM75::RedirectedHMMA_884_F16 => {
                match reader {
                    RegLatencySM75::RedirectedHMMA_884_F16 => 1,
                    RegLatencySM75::RedirectedHMMA_1688 => 6,
                    RegLatencySM75::RedirectedHMMA_16816 => 14,
                    RegLatencySM75::Decoupled => 1,
                    _ => 2,
                }
            },
            RegLatencySM75::RedirectedHMMA_884_F32 => {
                match reader {
                    RegLatencySM75::RedirectedHMMA_884_F32 => 1,
                    RegLatencySM75::RedirectedHMMA_1688 => 6,
                    RegLatencySM75::RedirectedHMMA_16816 => 14,
                    RegLatencySM75::Decoupled => 1,
                    _ => 2,
                }
            },
            RegLatencySM75::RedirectedHMMA_1688 => {
                match reader {
                    RegLatencySM75::RedirectedHMMA_1688 => 1,
                    RegLatencySM75::RedirectedHMMA_16816 => 14,
                    RegLatencySM75::Decoupled => 1,
                    _ => 2,
                }
            },
            RegLatencySM75::RedirectedHMMA_16816 => {
                match reader {
                    RegLatencySM75::RedirectedHMMA_1688 => 6,
                    RegLatencySM75::RedirectedHMMA_16816 => 1,
                    RegLatencySM75::Decoupled => 1,
                    _ => 2,
                }
            },
            RegLatencySM75::IMMA => {
                match reader {
                    RegLatencySM75::RedirectedHMMA_1688 => 6,
                    RegLatencySM75::RedirectedHMMA_16816 => 14,
                    RegLatencySM75::IMMA => 1,
                    RegLatencySM75::Decoupled => 1,
                    _ => 2,
                }
            },
            RegLatencySM75::Decoupled => {
                match reader {
                    RegLatencySM75::RedirectedHMMA_1688 => 2,
                    RegLatencySM75::RedirectedHMMA_16816 => 14,
                    RegLatencySM75::Decoupled => 1,
                    _ => 2,
                }
            },
            RegLatencySM75::BMov => {
                match reader {
                    RegLatencySM75::RedirectedHMMA_1688 => 9,
                    RegLatencySM75::RedirectedHMMA_16816 => 14,
                    RegLatencySM75::Decoupled => 1,
                    _ => 9,
                }
            },
            RegLatencySM75::IMADWideAB |
            RegLatencySM75::DecoupledOther | RegLatencySM75::GuardPredicate => unreached()
        }
    }

    pub open spec fn spec_pred_read_after_write(writer: RegLatencySM75, reader: RegLatencySM75) -> Option<u32> {
        match reader {
            RegLatencySM75::CoupledDisp => {
                match writer {
                    RegLatencySM75::CoupledDisp |
                    RegLatencySM75::CoupledAlu |
                    RegLatencySM75::CoupledFMA |
                    RegLatencySM75::IMADLo |
                    RegLatencySM75::IMADWideUpper |
                    RegLatencySM75::IMADWideLower => Some(12),
                    RegLatencySM75::RedirectedFP64 => Some(15),
                    RegLatencySM75::RedirectedFP16 => Some(14),
                    RegLatencySM75::Decoupled => Some(1),
                    _ => None
                }
            }
            RegLatencySM75::CoupledAlu => {
                match writer {
                    RegLatencySM75::CoupledDisp |
                    RegLatencySM75::CoupledAlu => Some(4),
                    RegLatencySM75::CoupledFMA |
                    RegLatencySM75::IMADLo |
                    RegLatencySM75::IMADWideUpper |
                    RegLatencySM75::IMADWideLower => Some(5),
                    RegLatencySM75::RedirectedFP64 => Some(9),
                    RegLatencySM75::RedirectedFP16 => Some(8),
                    RegLatencySM75::Decoupled => Some(1),
                    _ => None
                }
            }
            RegLatencySM75::CoupledFMA |
            RegLatencySM75::IMADLo => {
                match writer {
                    RegLatencySM75::CoupledDisp |
                    RegLatencySM75::CoupledAlu => Some(5),
                    RegLatencySM75::CoupledFMA |
                    RegLatencySM75::IMADLo |
                    RegLatencySM75::IMADWideUpper |
                    RegLatencySM75::IMADWideLower => Some(4),
                    RegLatencySM75::RedirectedFP64 => Some(9),
                    RegLatencySM75::RedirectedFP16 => Some(8),
                    RegLatencySM75::Decoupled => Some(1),
                    _ => None
                }
            }
            RegLatencySM75::IMADWideUpper |
            RegLatencySM75::IMADWideLower => {
                match writer {
                    RegLatencySM75::CoupledDisp |
                    RegLatencySM75::CoupledAlu => Some(5),
                    RegLatencySM75::CoupledFMA |
                    RegLatencySM75::IMADLo => Some(4),
                    RegLatencySM75::IMADWideUpper |
                    RegLatencySM75::IMADWideLower => Some(2),
                    RegLatencySM75::RedirectedFP64 => Some(9),
                    RegLatencySM75::RedirectedFP16 => Some(8),
                    RegLatencySM75::Decoupled => Some(1),
                    _ => None
                }
            }
            RegLatencySM75::RedirectedFP64 => {
                match writer {
                    RegLatencySM75::CoupledDisp |
                    RegLatencySM75::CoupledAlu |
                    RegLatencySM75::CoupledFMA |
                    RegLatencySM75::IMADLo |
                    RegLatencySM75::IMADWideUpper |
                    RegLatencySM75::IMADWideLower => Some(12),
                    RegLatencySM75::RedirectedFP64 => Some(8),
                    RegLatencySM75::RedirectedFP16 => Some(14),
                    RegLatencySM75::Decoupled => Some(1),
                    _ => None
                }
            }
            RegLatencySM75::RedirectedFP16 => {
                match writer {
                    RegLatencySM75::CoupledDisp |
                    RegLatencySM75::CoupledAlu |
                    RegLatencySM75::CoupledFMA |
                    RegLatencySM75::IMADLo |
                    RegLatencySM75::IMADWideUpper |
                    RegLatencySM75::IMADWideLower => Some(12),
                    RegLatencySM75::RedirectedFP64 => Some(15),
                    RegLatencySM75::RedirectedFP16 => Some(6),
                    RegLatencySM75::Decoupled => Some(1),
                    _ => None
                }
            }
            RegLatencySM75::Decoupled |
            RegLatencySM75::GuardPredicate => {
                match writer {
                    RegLatencySM75::CoupledDisp |
                    RegLatencySM75::CoupledAlu |
                    RegLatencySM75::CoupledFMA |
                    RegLatencySM75::IMADLo |
                    RegLatencySM75::IMADWideUpper |
                    RegLatencySM75::IMADWideLower => Some(12),
                    RegLatencySM75::RedirectedFP64 => Some(15),
                    RegLatencySM75::RedirectedFP16 => Some(14),
                    RegLatencySM75::Decoupled => Some(1),
                    _ => None
                }
            }
            _ => None
        }
    }

    pub fn pred_read_after_write(writer: RegLatencySM75, reader: RegLatencySM75) -> (r: u32)
        requires
            Self::spec_pred_read_after_write(writer, reader).is_some(),
        ensures
            Some(r) == Self::spec_pred_read_after_write(writer, reader),
    {
        match reader {
            RegLatencySM75::CoupledDisp => {
                match writer {
                    RegLatencySM75::CoupledDisp |
                    RegLatencySM75::CoupledAlu |
                    RegLatencySM75::CoupledFMA |
                    RegLatencySM75::IMADLo |
                    RegLatencySM75::IMADWideUpper |
                    RegLatencySM75::IMADWideLower => 12,
                    RegLatencySM75::RedirectedFP64 => 15,
                    RegLatencySM75::RedirectedFP16 => 14,
                    RegLatencySM75::Decoupled => 1,
                    _ => unreached()
                }
            }
            RegLatencySM75::CoupledAlu => {
                match writer {
                    RegLatencySM75::CoupledDisp |
                    RegLatencySM75::CoupledAlu => 4,
                    RegLatencySM75::CoupledFMA |
                    RegLatencySM75::IMADLo |
                    RegLatencySM75::IMADWideUpper |
                    RegLatencySM75::IMADWideLower => 5,
                    RegLatencySM75::RedirectedFP64 => 9,
                    RegLatencySM75::RedirectedFP16 => 8,
                    RegLatencySM75::Decoupled => 1,
                    _ => unreached()
                }
            }
            RegLatencySM75::CoupledFMA |
            RegLatencySM75::IMADLo => {
                match writer {
                    RegLatencySM75::CoupledDisp |
                    RegLatencySM75::CoupledAlu => 5,
                    RegLatencySM75::CoupledFMA |
                    RegLatencySM75::IMADLo |
                    RegLatencySM75::IMADWideUpper |
                    RegLatencySM75::IMADWideLower => 4,
                    RegLatencySM75::RedirectedFP64 => 9,
                    RegLatencySM75::RedirectedFP16 => 8,
                    RegLatencySM75::Decoupled => 1,
                    _ => unreached()
                }
            }
            RegLatencySM75::IMADWideUpper |
            RegLatencySM75::IMADWideLower => {
                match writer {
                    RegLatencySM75::CoupledDisp |
                    RegLatencySM75::CoupledAlu => 5,
                    RegLatencySM75::CoupledFMA |
                    RegLatencySM75::IMADLo => 4,
                    RegLatencySM75::IMADWideUpper |
                    RegLatencySM75::IMADWideLower => 2,
                    RegLatencySM75::RedirectedFP64 => 9,
                    RegLatencySM75::RedirectedFP16 => 8,
                    RegLatencySM75::Decoupled => 1,
                    _ => unreached()
                }
            }
            RegLatencySM75::RedirectedFP64 => {
                match writer {
                    RegLatencySM75::CoupledDisp |
                    RegLatencySM75::CoupledAlu |
                    RegLatencySM75::CoupledFMA |
                    RegLatencySM75::IMADLo |
                    RegLatencySM75::IMADWideUpper |
                    RegLatencySM75::IMADWideLower => 12,
                    RegLatencySM75::RedirectedFP64 => 8,
                    RegLatencySM75::RedirectedFP16 => 14,
                    RegLatencySM75::Decoupled => 1,
                    _ => unreached()
                }
            }
            RegLatencySM75::RedirectedFP16 => {
                match writer {
                    RegLatencySM75::CoupledDisp |
                    RegLatencySM75::CoupledAlu |
                    RegLatencySM75::CoupledFMA |
                    RegLatencySM75::IMADLo |
                    RegLatencySM75::IMADWideUpper |
                    RegLatencySM75::IMADWideLower => 12,
                    RegLatencySM75::RedirectedFP64 => 15,
                    RegLatencySM75::RedirectedFP16 => 6,
                    RegLatencySM75::Decoupled => 1,
                    _ => unreached()
                }
            }
            RegLatencySM75::Decoupled |
            RegLatencySM75::GuardPredicate => {
                match writer {
                    RegLatencySM75::CoupledDisp |
                    RegLatencySM75::CoupledAlu |
                    RegLatencySM75::CoupledFMA |
                    RegLatencySM75::IMADLo |
                    RegLatencySM75::IMADWideUpper |
                    RegLatencySM75::IMADWideLower => 12,
                    RegLatencySM75::RedirectedFP64 => 15,
                    RegLatencySM75::RedirectedFP16 => 14,
                    RegLatencySM75::Decoupled => 1,
                    _ => unreached()
                }
            }
            _ => unreached()
        }
    }

    pub open spec fn spec_pred_write_after_write(writer1: RegLatencySM75, writer2: RegLatencySM75, has_pred: bool) -> Option<u32> {
        match writer2 {
            RegLatencySM75::CoupledDisp |
            RegLatencySM75::CoupledAlu |
            RegLatencySM75::CoupledFMA |
            RegLatencySM75::IMADLo => {
                match writer1 {
                    RegLatencySM75::CoupledDisp |
                    RegLatencySM75::CoupledAlu |
                    RegLatencySM75::CoupledFMA |
                    RegLatencySM75::IMADLo |
                    RegLatencySM75::IMADWideUpper |
                    RegLatencySM75::IMADWideLower => Some(1),
                    RegLatencySM75::RedirectedFP64 => Some(if has_pred { 5 } else { 1 }),
                    RegLatencySM75::RedirectedFP16 => Some(if has_pred { 4 } else { 1 }),
                    RegLatencySM75::Decoupled => Some(1),
                    _ => None
                }
            }
            RegLatencySM75::IMADWideUpper |
            RegLatencySM75::IMADWideLower => {
                match writer1 {
                    RegLatencySM75::CoupledDisp |
                    RegLatencySM75::CoupledAlu => Some(if has_pred { 3 } else { 2 }),
                    RegLatencySM75::CoupledFMA |
                    RegLatencySM75::IMADLo => Some(if has_pred { 2 } else { 1 }),
                    RegLatencySM75::IMADWideUpper |
                    RegLatencySM75::IMADWideLower => Some(1),
                    RegLatencySM75::RedirectedFP64 => Some(if has_pred { 7 } else { 3 }),
                    RegLatencySM75::RedirectedFP16 => Some(if has_pred { 6 } else { 3 }),
                    RegLatencySM75::Decoupled => Some(1),
                    _ => None
                }
            }
            RegLatencySM75::RedirectedFP64 => {
                match writer1 {
                    RegLatencySM75::CoupledDisp |
                    RegLatencySM75::CoupledAlu |
                    RegLatencySM75::CoupledFMA |
                    RegLatencySM75::IMADLo |
                    RegLatencySM75::IMADWideUpper |
                    RegLatencySM75::IMADWideLower => Some(if has_pred { 4 } else { 2 }),
                    RegLatencySM75::RedirectedFP64 => Some(1),
                    RegLatencySM75::RedirectedFP16 => Some(if has_pred { 6 } else { 4 }),
                    RegLatencySM75::Decoupled => Some(1),
                    _ => None
                }
            }
            RegLatencySM75::RedirectedFP16 => {
                match writer1 {
                    RegLatencySM75::CoupledDisp |
                    RegLatencySM75::CoupledAlu |
                    RegLatencySM75::CoupledFMA |
                    RegLatencySM75::IMADLo |
                    RegLatencySM75::IMADWideUpper |
                    RegLatencySM75::IMADWideLower => Some(if has_pred { 6 } else { 4 }),
                    RegLatencySM75::RedirectedFP64 => Some(if has_pred { 9 } else { 7 }),
                    RegLatencySM75::RedirectedFP16 => Some(1),
                    RegLatencySM75::Decoupled => Some(1),
                    _ => None
                }
            }
            RegLatencySM75::Decoupled => {
                match writer1 {
                    RegLatencySM75::CoupledDisp |
                    RegLatencySM75::CoupledAlu |
                    RegLatencySM75::CoupledFMA |
                    RegLatencySM75::IMADLo |
                    RegLatencySM75::IMADWideUpper |
                    RegLatencySM75::IMADWideLower |
                    RegLatencySM75::RedirectedFP64 |
                    RegLatencySM75::RedirectedFP16 => Some(2),
                    RegLatencySM75::Decoupled => Some(1),
                    _ => None
                }
            }
            _ => None
        }
    }

    pub fn pred_write_after_write(writer1: RegLatencySM75, writer2: RegLatencySM75, has_pred: bool) -> (r: u32)
        requires
            Self::spec_pred_write_after_write(writer1, writer2, has_pred).is_some(),
        ensures
            Some(r) == Self::spec_pred_write_after_write(writer1, writer2, has_pred),
    {
        match writer2 {
            RegLatencySM75::CoupledDisp |
            RegLatencySM75::CoupledAlu |
            RegLatencySM75::CoupledFMA |
            RegLatencySM75::IMADLo => {
                match writer1 {
                    RegLatencySM75::CoupledDisp |
                    RegLatencySM75::CoupledAlu |
                    RegLatencySM75::CoupledFMA |
                    RegLatencySM75::IMADLo |
                    RegLatencySM75::IMADWideUpper |
                    RegLatencySM75::IMADWideLower => 1,
                    RegLatencySM75::RedirectedFP64 => if has_pred { 5 } else { 1 },
                    RegLatencySM75::RedirectedFP16 => if has_pred { 4 } else { 1 },
                    RegLatencySM75::Decoupled => 1,
                    _ => unreached()
                }
            }
            RegLatencySM75::IMADWideUpper |
            RegLatencySM75::IMADWideLower => {
                match writer1 {
                    RegLatencySM75::CoupledDisp |
                    RegLatencySM75::CoupledAlu => if has_pred { 3 } else { 2 },
                    RegLatencySM75::CoupledFMA |
                    RegLatencySM75::IMADLo => if has_pred { 2 } else { 1 },
                    RegLatencySM75::IMADWideUpper |
                    RegLatencySM75::IMADWideLower => 1,
                    RegLatencySM75::RedirectedFP64 => if has_pred { 7 } else { 3 },
                    RegLatencySM75::RedirectedFP16 => if has_pred { 6 } else { 3 },
                    RegLatencySM75::Decoupled => 1,
                    _ => unreached()
                }
            }
            RegLatencySM75::RedirectedFP64 => {
                match writer1 {
                    RegLatencySM75::CoupledDisp |
                    RegLatencySM75::CoupledAlu |
                    RegLatencySM75::CoupledFMA |
                    RegLatencySM75::IMADLo |
                    RegLatencySM75::IMADWideUpper |
                    RegLatencySM75::IMADWideLower => if has_pred { 4 } else { 2 },
                    RegLatencySM75::RedirectedFP64 => 1,
                    RegLatencySM75::RedirectedFP16 => if has_pred { 6 } else { 4 },
                    RegLatencySM75::Decoupled => 1,
                    _ => unreached()
                }
            }
            RegLatencySM75::RedirectedFP16 => {
                match writer1 {
                    RegLatencySM75::CoupledDisp |
                    RegLatencySM75::CoupledAlu |
                    RegLatencySM75::CoupledFMA |
                    RegLatencySM75::IMADLo |
                    RegLatencySM75::IMADWideUpper |
                    RegLatencySM75::IMADWideLower => if has_pred { 6 } else { 4 },
                    RegLatencySM75::RedirectedFP64 => if has_pred { 9 } else { 7 },
                    RegLatencySM75::RedirectedFP16 => 1,
                    RegLatencySM75::Decoupled => 1,
                    _ => unreached()
                }
            }
            RegLatencySM75::Decoupled => {
                match writer1 {
                    RegLatencySM75::CoupledDisp |
                    RegLatencySM75::CoupledAlu |
                    RegLatencySM75::CoupledFMA |
                    RegLatencySM75::IMADLo |
                    RegLatencySM75::IMADWideUpper |
                    RegLatencySM75::IMADWideLower |
                    RegLatencySM75::RedirectedFP64 |
                    RegLatencySM75::RedirectedFP16 => 2,
                    RegLatencySM75::Decoupled => 1,
                    _ => unreached()
                }
            }
            _ => unreached()
        }
    }

    pub open spec fn spec_pred_write_after_read(reader: RegLatencySM75, writer: RegLatencySM75) -> Option<u32> {
        match writer {
            RegLatencySM75::CoupledDisp |
            RegLatencySM75::CoupledAlu |
            RegLatencySM75::CoupledFMA |
            RegLatencySM75::IMADLo |
            RegLatencySM75::IMADWideUpper |
            RegLatencySM75::IMADWideLower => Some(1),
            RegLatencySM75::RedirectedFP64 => {
                match reader {
                    RegLatencySM75::CoupledAlu |
                    RegLatencySM75::CoupledFMA |
                    RegLatencySM75::IMADLo |
                    RegLatencySM75::IMADWideUpper |
                    RegLatencySM75::IMADWideLower |
                    RegLatencySM75::RedirectedFP16 => Some(2),
                    _ => Some(1),
                }
            }
            RegLatencySM75::RedirectedFP16 => {
                match reader {
                    RegLatencySM75::CoupledAlu |
                    RegLatencySM75::CoupledFMA |
                    RegLatencySM75::IMADLo |
                    RegLatencySM75::IMADWideUpper |
                    RegLatencySM75::IMADWideLower |
                    RegLatencySM75::RedirectedFP64 => Some(2),
                    _ => Some(1),
                }
            }
            RegLatencySM75::Decoupled => {
                match reader {
                    RegLatencySM75::CoupledAlu |
                    RegLatencySM75::CoupledFMA |
                    RegLatencySM75::IMADLo |
                    RegLatencySM75::IMADWideUpper |
                    RegLatencySM75::IMADWideLower |
                    RegLatencySM75::RedirectedFP16 |
                    RegLatencySM75::RedirectedFP64 => Some(2),
                    _ => Some(1),
                }
            }
            _ => None
        }
    }

    pub fn pred_write_after_read(reader: RegLatencySM75, writer: RegLatencySM75) -> (r: u32)
        requires
            Self::spec_pred_write_after_read(reader, writer).is_some(),
        ensures
            Some(r) == Self::spec_pred_write_after_read(reader, writer),
    {
        match writer {
            RegLatencySM75::CoupledDisp |
            RegLatencySM75::CoupledAlu |
            RegLatencySM75::CoupledFMA |
            RegLatencySM75::IMADLo |
            RegLatencySM75::IMADWideUpper |
            RegLatencySM75::IMADWideLower => 1,
            RegLatencySM75::RedirectedFP64 => {
                match reader {
                    RegLatencySM75::CoupledAlu |
                    RegLatencySM75::CoupledFMA |
                    RegLatencySM75::IMADLo |
                    RegLatencySM75::IMADWideUpper |
                    RegLatencySM75::IMADWideLower |
                    RegLatencySM75::RedirectedFP16 => 2,
                    _ => 1,
                }
            }
            RegLatencySM75::RedirectedFP16 => {
                match reader {
                    RegLatencySM75::CoupledAlu |
                    RegLatencySM75::CoupledFMA |
                    RegLatencySM75::IMADLo |
                    RegLatencySM75::IMADWideUpper |
                    RegLatencySM75::IMADWideLower |
                    RegLatencySM75::RedirectedFP64 => 2,
                    _ => 1,
                }
            }
            RegLatencySM75::Decoupled => {
                match reader {
                    RegLatencySM75::CoupledAlu |
                    RegLatencySM75::CoupledFMA |
                    RegLatencySM75::IMADLo |
                    RegLatencySM75::IMADWideUpper |
                    RegLatencySM75::IMADWideLower |
                    RegLatencySM75::RedirectedFP16 |
                    RegLatencySM75::RedirectedFP64 => 2,
                    _ => 1,
                }
            }
            _ => unreached()
        }
    }

}

/// Latency classes for ops writing or reading uniform registers and
/// uniform predicates.
#[derive(Clone, Copy, Debug, PartialEq, Eq, Structural)]
pub enum URegLatencySM75 {
    Udp,
    VectorCoupled,
    VectorDecoupled,
    Uldc,
    Umov,
    VectorCoupledBindless,
    VectorDecoupledBindless,
    VoteU,
    GuardPredicate,
    R2UR,
}

impl URegLatencySM75 {
    /// The class of `op` as a reader (of source `idx`) or as a writer.  A
    /// reader of a bindless constant buffer gets a bindless class; a uniform
    /// op gets `Udp` in place of either vector class.
    pub open spec fn spec_op_category(op: Op, reader: bool, idx: int) -> Option<URegLatencySM75> {
        if reader && !(0 <= idx < op.srcs@.len()) {
            None
        } else {
            let bindless = reader && op.srcs@[idx].bindless_cbuf;
            let uniform_op = op.spec_is_uniform();
            let vcoupled = if uniform_op {
                URegLatencySM75::Udp
            } else if bindless {
                URegLatencySM75::VectorCoupledBindless
            } else {
                URegLatencySM75::VectorCoupled
            };
            let vdecoupled = if uniform_op {
                URegLatencySM75::Udp
            } else if bindless {
                URegLatencySM75::VectorDecoupledBindless
            } else {
                URegLatencySM75::VectorDecoupled
            };
        match op.opcode {
                Opcode::BMsk | Opcode::BRev | Opcode::IAdd3 | Opcode::IAdd3X | Opcode::IAbs | Opcode::IMnMx | Opcode::IMad | Opcode::IMad64 | Opcode::ISetP | Opcode::Lea | Opcode::LeaX | Opcode::Lop2 | Opcode::Lop3 | Opcode::PLop3 | Opcode::Prmt | Opcode::PSetP | Opcode::Sel | Opcode::Shf | Opcode::FAdd | Opcode::FMul | Opcode::FFma | Opcode::FSetP | Opcode::FMnMx | Opcode::HAdd2 | Opcode::HMul2 | Opcode::HSet2 | Opcode::HFma2 | Opcode::HSetP2 => Some(vcoupled),
                Opcode::Flo | Opcode::MuFu | Opcode::PopC | Opcode::Shfl | Opcode::I2F | Opcode::F2I | Opcode::F2F | Opcode::FRnd | Opcode::DMul | Opcode::DFma | Opcode::DAdd | Opcode::DSetP => Some(vdecoupled),
                Opcode::Ldc => if uniform_op {
                    Some(URegLatencySM75::Uldc)
                } else {
                    Some(vdecoupled)
                },
                Opcode::Mov => if uniform_op {
                    Some(URegLatencySM75::Umov)
                } else {
                    Some(vcoupled)
                },
                Opcode::R2UR => if !reader {
                    Some(URegLatencySM75::R2UR)
                } else {
                    None
                },
                Opcode::Vote => Some(URegLatencySM75::VoteU),
                Opcode::IMul | Opcode::I2I | Opcode::FSwzAdd | Opcode::FSet | Opcode::DMnMx | Opcode::HMnMx2 | Opcode::Ipa | Opcode::AL2P | Opcode::Nop | Opcode::S2R | Opcode::CS2R | Opcode::BMov | Opcode::Bar | Opcode::IDp4 | Opcode::BClear | Opcode::Bra | Opcode::BSSy | Opcode::Kill | Opcode::Exit | Opcode::BSync | Opcode::Tex | Opcode::Tld | Opcode::Tld4 | Opcode::Tmml | Opcode::Txd | Opcode::Txq | Opcode::ALd | Opcode::ASt | Opcode::Out | Opcode::OutFinal | Opcode::Ld | Opcode::St | Opcode::Atom | Opcode::CCtl | Opcode::MemBar | Opcode::SuLd | Opcode::SuSt | Opcode::SuAtom | Opcode::PixLd | Opcode::Isberd | Opcode::LdTram => None,
            }
        }
    }

    pub fn op_category(op: &Op, reader: bool, op_reg_idx: usize) -> (r: URegLatencySM75)
        requires
            Self::spec_op_category(*op, reader, op_reg_idx as int) is Some,
        ensures
            Some(r) == Self::spec_op_category(*op, reader, op_reg_idx as int),
    {
        let bindless = reader && op.srcs[op_reg_idx].bindless_cbuf;
        let uniform_op = op.is_uniform();
        let vcoupled = if uniform_op {
            URegLatencySM75::Udp
        } else if bindless {
            URegLatencySM75::VectorCoupledBindless
        } else {
            URegLatencySM75::VectorCoupled
        };
        let vdecoupled = if uniform_op {
            URegLatencySM75::Udp
        } else if bindless {
            URegLatencySM75::VectorDecoupledBindless
        } else {
            URegLatencySM75::VectorDecoupled
        };
        match op.opcode {
            Opcode::BMsk | Opcode::BRev | Opcode::IAdd3 | Opcode::IAdd3X | Opcode::IAbs | Opcode::IMnMx | Opcode::IMad | Opcode::IMad64 | Opcode::ISetP | Opcode::Lea | Opcode::LeaX | Opcode::Lop2 | Opcode::Lop3 | Opcode::PLop3 | Opcode::Prmt | Opcode::PSetP | Opcode::Sel | Opcode::Shf | Opcode::FAdd | Opcode::FMul | Opcode::FFma | Opcode::FSetP | Opcode::FMnMx | Opcode::HAdd2 | Opcode::HMul2 | Opcode::HSet2 | Opcode::HFma2 | Opcode::HSetP2 => vcoupled,
            Opcode::Flo | Opcode::MuFu | Opcode::PopC | Opcode::Shfl | Opcode::I2F | Opcode::F2I | Opcode::F2F | Opcode::FRnd | Opcode::DMul | Opcode::DFma | Opcode::DAdd | Opcode::DSetP => vdecoupled,
            Opcode::Ldc => if uniform_op {
                URegLatencySM75::Uldc
            } else {
                vdecoupled
            },
            Opcode::Mov => if uniform_op {
                URegLatencySM75::Umov
            } else {
                vcoupled
            },
            Opcode::R2UR => if !reader {
                URegLatencySM75::R2UR
            } else {
                unreached()
            },
            Opcode::Vote => URegLatencySM75::VoteU,
            Opcode::IMul | Opcode::I2I | Opcode::FSwzAdd | Opcode::FSet | Opcode::DMnMx | Opcode::HMnMx2 | Opcode::Ipa | Opcode::AL2P | Opcode::Nop | Opcode::S2R | Opcode::CS2R | Opcode::BMov | Opcode::Bar | Opcode::IDp4 | Opcode::BClear | Opcode::Bra | Opcode::BSSy | Opcode::Kill | Opcode::Exit | Opcode::BSync | Opcode::Tex | Opcode::Tld | Opcode::Tld4 | Opcode::Tmml | Opcode::Txd | Opcode::Txq | Opcode::ALd | Opcode::ASt | Opcode::Out | Opcode::OutFinal | Opcode::Ld | Opcode::St | Opcode::Atom | Opcode::CCtl | Opcode::MemBar | Opcode::SuLd | Opcode::SuSt | Opcode::SuAtom | Opcode::PixLd | Opcode::Isberd | Opcode::LdTram => unreached(),
        }
    }

    pub open spec fn spec_read_after_write(writer: URegLatencySM75, reader: URegLatencySM75) -> Option<u32> {
        match reader {
            URegLatencySM75::Udp => {
                match writer {
                    URegLatencySM75::Udp => Some(4),
                    URegLatencySM75::R2UR => Some(2),
                    URegLatencySM75::Uldc |
                    URegLatencySM75::VoteU |
                    URegLatencySM75::Umov => Some(2),
                    _ => None,
                }
            }
            URegLatencySM75::VectorCoupled => {
                match writer {
                    URegLatencySM75::Udp => Some(6),
                    URegLatencySM75::R2UR => Some(2),
                    URegLatencySM75::Uldc |
                    URegLatencySM75::VoteU |
                    URegLatencySM75::Umov => Some(2),
                    _ => None,
                }
            }
            URegLatencySM75::VectorDecoupled => {
                match writer {
                    URegLatencySM75::Udp => Some(9),
                    URegLatencySM75::R2UR => Some(2),
                    URegLatencySM75::Uldc |
                    URegLatencySM75::VoteU |
                    URegLatencySM75::Umov => Some(2),
                    _ => None,
                }
            }
            URegLatencySM75::Uldc |
            URegLatencySM75::VectorCoupledBindless |
            URegLatencySM75::VectorDecoupledBindless => {
                match writer {
                    URegLatencySM75::Udp => Some(12),
                    URegLatencySM75::R2UR => Some(2),
                    URegLatencySM75::Uldc |
                    URegLatencySM75::VoteU |
                    URegLatencySM75::Umov => Some(5),
                    _ => None,
                }
            }
            URegLatencySM75::Umov => {
                match writer {
                    URegLatencySM75::Udp => Some(7),
                    URegLatencySM75::R2UR => Some(2),
                    URegLatencySM75::Uldc |
                    URegLatencySM75::VoteU |
                    URegLatencySM75::Umov => Some(2),
                    _ => None,
                }
            }
            _ => None,
        }
    }

    pub fn read_after_write(writer: URegLatencySM75, reader: URegLatencySM75) -> (r: u32)
        requires
            Self::spec_read_after_write(writer, reader).is_some(),
        ensures
            Some(r) == Self::spec_read_after_write(writer, reader),
    {
        match reader {
            URegLatencySM75::Udp => {
                match writer {
                    URegLatencySM75::Udp => 4,
                    URegLatencySM75::R2UR => 2,
                    URegLatencySM75::Uldc |
                    URegLatencySM75::VoteU |
                    URegLatencySM75::Umov => 2,
                    _ => unreached(),
                }
            }
            URegLatencySM75::VectorCoupled => {
                match writer {
                    URegLatencySM75::Udp => 6,
                    URegLatencySM75::R2UR => 2,
                    URegLatencySM75::Uldc |
                    URegLatencySM75::VoteU |
                    URegLatencySM75::Umov => 2,
                    _ => unreached(),
                }
            }
            URegLatencySM75::VectorDecoupled => {
                match writer {
                    URegLatencySM75::Udp => 9,
                    URegLatencySM75::R2UR => 2,
                    URegLatencySM75::Uldc |
                    URegLatencySM75::VoteU |
                    URegLatencySM75::Umov => 2,
                    _ => unreached(),
                }
            }
            URegLatencySM75::Uldc |
            URegLatencySM75::VectorCoupledBindless |
            URegLatencySM75::VectorDecoupledBindless => {
                match writer {
                    URegLatencySM75::Udp => 12,
                    URegLatencySM75::R2UR => 2,
                    URegLatencySM75::Uldc |
                    URegLatencySM75::VoteU |
                    URegLatencySM75::Umov => 5,
                    _ => unreached(),
                }
            }
            URegLatencySM75::Umov => {
                match writer {
                    URegLatencySM75::Udp => 7,
                    URegLatencySM75::R2UR => 2,
                    URegLatencySM75::Uldc |
                    URegLatencySM75::VoteU |
                    URegLatencySM75::Umov => 2,
                    _ => unreached(),
                }
            }
            _ => unreached(),
        }
    }

    pub open spec fn spec_write_after_write(writer1: URegLatencySM75, writer2: URegLatencySM75, has_pred: bool) -> Option<u32> {
        match writer2 {
            URegLatencySM75::Udp => {
                match writer1 {
                    URegLatencySM75::Udp => Some(1),
                    URegLatencySM75::R2UR => Some(2),
                    URegLatencySM75::Uldc |
                    URegLatencySM75::VoteU |
                    URegLatencySM75::Umov => Some(1),
                    _ => None,
                }
            },
            URegLatencySM75::R2UR => {
                match writer1 {
                    URegLatencySM75::Udp => Some(if has_pred { 10 } else { 6 }),
                    URegLatencySM75::R2UR => Some(2),
                    URegLatencySM75::Uldc |
                    URegLatencySM75::VoteU |
                    URegLatencySM75::Umov => Some(4),
                    _ => None,
                }
            },
            URegLatencySM75::Uldc |
            URegLatencySM75::VoteU |
            URegLatencySM75::Umov => {
                match writer1 {
                    URegLatencySM75::Udp => Some(7),
                    URegLatencySM75::R2UR => Some(2),
                    URegLatencySM75::Uldc |
                    URegLatencySM75::VoteU |
                    URegLatencySM75::Umov => Some(1),
                    _ => None,
                }
            }
            _ => None,
        }
    }

    pub fn write_after_write(writer1: URegLatencySM75, writer2: URegLatencySM75, has_pred: bool) -> (r: u32)
        requires
            Self::spec_write_after_write(writer1, writer2, has_pred).is_some(),
        ensures
            Some(r) == Self::spec_write_after_write(writer1, writer2, has_pred),
    {
        match writer2 {
            URegLatencySM75::Udp => {
                match writer1 {
                    URegLatencySM75::Udp => 1,
                    URegLatencySM75::R2UR => 2,
                    URegLatencySM75::Uldc |
                    URegLatencySM75::VoteU |
                    URegLatencySM75::Umov => 1,
                    _ => unreached(),
                }
            },
            URegLatencySM75::R2UR => {
                match writer1 {
                    URegLatencySM75::Udp => if has_pred { 10 } else { 6 },
                    URegLatencySM75::R2UR => 2,
                    URegLatencySM75::Uldc |
                    URegLatencySM75::VoteU |
                    URegLatencySM75::Umov => 4,
                    _ => unreached(),
                }
            },
            URegLatencySM75::Uldc |
            URegLatencySM75::VoteU |
            URegLatencySM75::Umov => {
                match writer1 {
                    URegLatencySM75::Udp => 7,
                    URegLatencySM75::R2UR => 2,
                    URegLatencySM75::Uldc |
                    URegLatencySM75::VoteU |
                    URegLatencySM75::Umov => 1,
                    _ => unreached(),
                }
            }
            _ => unreached(),
        }
    }

    pub open spec fn spec_write_after_read(reader: URegLatencySM75, writer: URegLatencySM75) -> Option<u32> {
        match writer {
            URegLatencySM75::Udp => Some(1),
            URegLatencySM75::R2UR => Some(1),
            URegLatencySM75::Uldc |
            URegLatencySM75::VoteU |
            URegLatencySM75::Umov => {
                match reader {
                    URegLatencySM75::Udp => Some(3),
                    _ => Some(1),
                }
            }
            _ => None
        }
    }

    pub fn write_after_read(reader: URegLatencySM75, writer: URegLatencySM75) -> (r: u32)
        requires
            Self::spec_write_after_read(reader, writer).is_some(),
        ensures
            Some(r) == Self::spec_write_after_read(reader, writer),
    {
        match writer {
            URegLatencySM75::Udp => 1,
            URegLatencySM75::R2UR => 1,
            URegLatencySM75::Uldc |
            URegLatencySM75::VoteU |
            URegLatencySM75::Umov => {
                match reader {
                    URegLatencySM75::Udp => 3,
                    _ => 1,
                }
            }
            _ => unreached()
        }
    }

    pub open spec fn spec_pred_read_after_write(writer: URegLatencySM75, reader: URegLatencySM75) -> Option<u32> {
        match reader {
            URegLatencySM75::Udp => {
                match writer {
                    URegLatencySM75::Udp => Some(4),
                    URegLatencySM75::VoteU => Some(1),
                    _ => None
                }
            }
            URegLatencySM75::VectorCoupled => {
                match writer {
                    URegLatencySM75::Udp => Some(6),
                    URegLatencySM75::VoteU => Some(1),
                    _ => None
                }
            }
            URegLatencySM75::GuardPredicate => {
                match writer {
                    URegLatencySM75::Udp => Some(11),
                    URegLatencySM75::VoteU => Some(5),
                    _ => None
                }
            }
            _ => None
        }
    }

    pub fn pred_read_after_write(writer: URegLatencySM75, reader: URegLatencySM75) -> (r: u32)
        requires
            Self::spec_pred_read_after_write(writer, reader).is_some(),
        ensures
            Some(r) == Self::spec_pred_read_after_write(writer, reader),
    {
        match reader {
            URegLatencySM75::Udp => {
                match writer {
                    URegLatencySM75::Udp => 4,
                    URegLatencySM75::VoteU => 1,
                    _ => unreached()
                }
            }
            URegLatencySM75::VectorCoupled => {
                match writer {
                    URegLatencySM75::Udp => 6,
                    URegLatencySM75::VoteU => 1,
                    _ => unreached()
                }
            }
            URegLatencySM75::GuardPredicate => {
                match writer {
                    URegLatencySM75::Udp => 11,
                    URegLatencySM75::VoteU => 5,
                    _ => unreached()
                }
            }
            _ => unreached()
        }
    }

    pub open spec fn spec_pred_write_after_write(writer1: URegLatencySM75, writer2: URegLatencySM75) -> Option<u32> {
        match writer2 {
            URegLatencySM75::Udp => Some(1),
            URegLatencySM75::VoteU => {
                match writer1 {
                    URegLatencySM75::Udp => Some(7),
                    URegLatencySM75::VoteU => Some(1),
                    _ => None
                }
            }
            _ => None
        }
    }

    pub fn pred_write_after_write(writer1: URegLatencySM75, writer2: URegLatencySM75) -> (r: u32)
        requires
            Self::spec_pred_write_after_write(writer1, writer2).is_some(),
        ensures
            Some(r) == Self::spec_pred_write_after_write(writer1, writer2),
    {
        match writer2 {
            URegLatencySM75::Udp => 1,
            URegLatencySM75::VoteU => {
                match writer1 {
                    URegLatencySM75::Udp => 7,
                    URegLatencySM75::VoteU => 1,
                    _ => unreached()
                }
            }
            _ => unreached()
        }
    }

    pub open spec fn spec_pred_write_after_read(reader: URegLatencySM75, writer: URegLatencySM75) -> Option<u32> {
        match writer {
            URegLatencySM75::Udp => Some(1),
            URegLatencySM75::VoteU => {
                match reader {
                    URegLatencySM75::Udp => Some(2),
                    _ => Some(1),
                }
            }
            _ => None
        }
    }

    pub fn pred_write_after_read(reader: URegLatencySM75, writer: URegLatencySM75) -> (r: u32)
        requires
            Self::spec_pred_write_after_read(reader, writer).is_some(),
        ensures
            Some(r) == Self::spec_pred_write_after_read(reader, writer),
    {
        match writer {
            URegLatencySM75::Udp => 1,
            URegLatencySM75::VoteU => {
                match reader {
                    URegLatencySM75::Udp => 2,
                    _ => 1,
                }
            }
            _ => unreached()
        }
    }

}

/// The SM75 latency oracle.
pub struct SM75Latency {}

impl SM75Latency {
    /// Whether `op` has a variable latency and so needs software
    /// scoreboarding rather than a fixed delay.
    pub open spec fn spec_needs_scoreboards(op: Op) -> Option<bool> {
        if op.spec_is_uniform() {
            match URegLatencySM75::spec_op_category(op, false, 0) {
                Some(c) => Some(c == URegLatencySM75::R2UR),
                None => None,
            }
        } else {
            match RegLatencySM75::spec_op_category(op, true, 0) {
                Some(c) => Some(c == RegLatencySM75::RedirectedFP64 || c == RegLatencySM75::RedirectedHMMA_884_F16
                    || c == RegLatencySM75::RedirectedHMMA_884_F32 || c == RegLatencySM75::RedirectedHMMA_1688
                    || c == RegLatencySM75::RedirectedHMMA_16816 || c == RegLatencySM75::IMMA || c == RegLatencySM75::Decoupled),
                None => None,
            }
        }
    }

    pub fn needs_scoreboards(op: &Op) -> (r: bool)
        requires
            Self::spec_needs_scoreboards(*op) is Some,
        ensures
            Some(r) == Self::spec_needs_scoreboards(*op),
    {
        if op.is_uniform() {
            match URegLatencySM75::op_category(op, false, 0) {
                URegLatencySM75::R2UR => true,
                _ => false,
            }
        } else {
            match RegLatencySM75::op_category(op, true, 0) {
                RegLatencySM75::RedirectedFP64
                | RegLatencySM75::RedirectedHMMA_884_F16
                | RegLatencySM75::RedirectedHMMA_884_F32
                | RegLatencySM75::RedirectedHMMA_1688
                | RegLatencySM75::RedirectedHMMA_16816
                | RegLatencySM75::IMMA
                | RegLatencySM75::Decoupled => true,
                _ => false,
            }
        }
    }

    /// Cycles between a write of destination `dst_idx` of `write` and a read of it as source `src_idx` of `read`.
    pub open spec fn spec_raw(write: Op, dst_idx: int, read: Op, src_idx: int) -> Option<u32> {
        if !(0 <= dst_idx < write.dsts@.len()) {
            None
        } else if write.dsts@[dst_idx] is Empty {
            Some(0)
        } else {
            match dst_file(write.dsts@[dst_idx]) {
                Some(RegFile::GPR) => match (RegLatencySM75::spec_op_category(write, false, dst_idx), RegLatencySM75::spec_op_category(read, true, src_idx)) {
                    (Some(x), Some(y)) => RegLatencySM75::spec_read_after_write(x, y),
                    _ => None,
                },
                Some(RegFile::UGPR) => match (URegLatencySM75::spec_op_category(write, false, dst_idx), URegLatencySM75::spec_op_category(read, true, src_idx)) {
                    (Some(x), Some(y)) => URegLatencySM75::spec_read_after_write(x, y),
                    _ => None,
                },
                Some(RegFile::Pred) => match (RegLatencySM75::spec_op_category(write, false, dst_idx), RegLatencySM75::spec_op_category(read, true, src_idx)) {
                    (Some(x), Some(y)) => RegLatencySM75::spec_pred_read_after_write(x, y),
                    _ => None,
                },
                Some(RegFile::UPred) => match (URegLatencySM75::spec_op_category(write, false, dst_idx), URegLatencySM75::spec_op_category(read, true, src_idx)) {
                    (Some(x), Some(y)) => URegLatencySM75::spec_pred_read_after_write(x, y),
                    _ => None,
                },
                Some(RegFile::Carry) => Some(6),
                _ => None,
            }
        }
    }

    pub fn raw(write: &Op, dst_idx: usize, read: &Op, src_idx: usize) -> (r: u32)
        requires
            Self::spec_raw(*write, dst_idx as int, *read, src_idx as int) is Some,
        ensures
            Some(r) == Self::spec_raw(*write, dst_idx as int, *read, src_idx as int),
    {
        let dst = &write.dsts[dst_idx];
        match dst {
            Dst::Empty => return 0,
            _ => {},
        }
        match dst.file() {
            Some(RegFile::GPR) => {
                let x = RegLatencySM75::op_category(write, false, dst_idx);
                let y = RegLatencySM75::op_category(read, true, src_idx);
                RegLatencySM75::read_after_write(x, y)
            },
            Some(RegFile::UGPR) => {
                let x = URegLatencySM75::op_category(write, false, dst_idx);
                let y = URegLatencySM75::op_category(read, true, src_idx);
                URegLatencySM75::read_after_write(x, y)
            },
            Some(RegFile::Pred) => {
                let x = RegLatencySM75::op_category(write, false, dst_idx);
                let y = RegLatencySM75::op_category(read, true, src_idx);
                RegLatencySM75::pred_read_after_write(x, y)
            },
            Some(RegFile::UPred) => {
                let x = URegLatencySM75::op_category(write, false, dst_idx);
                let y = URegLatencySM75::op_category(read, true, src_idx);
                URegLatencySM75::pred_read_after_write(x, y)
            },
            Some(RegFile::Carry) => 6,
            _ => unreached(),
        }
    }

    /// Cycles between a read of source `src_idx` of `read` and a later write of the same register by destination `dst_idx` of `write`.
    pub open spec fn spec_war(read: Op, src_idx: int, write: Op, dst_idx: int) -> Option<u32> {
        if !(0 <= dst_idx < write.dsts@.len()) {
            None
        } else if write.dsts@[dst_idx] is Empty {
            Some(0)
        } else {
            match dst_file(write.dsts@[dst_idx]) {
                Some(RegFile::GPR) => match (RegLatencySM75::spec_op_category(write, false, dst_idx), RegLatencySM75::spec_op_category(read, true, src_idx)) {
                    (Some(x), Some(y)) => RegLatencySM75::spec_write_after_read(y, x),
                    _ => None,
                },
                Some(RegFile::UGPR) => match (URegLatencySM75::spec_op_category(write, false, dst_idx), URegLatencySM75::spec_op_category(read, true, src_idx)) {
                    (Some(x), Some(y)) => URegLatencySM75::spec_write_after_read(y, x),
                    _ => None,
                },
                Some(RegFile::Pred) => match (RegLatencySM75::spec_op_category(write, false, dst_idx), RegLatencySM75::spec_op_category(read, true, src_idx)) {
                    (Some(x), Some(y)) => RegLatencySM75::spec_pred_write_after_read(y, x),
                    _ => None,
                },
                Some(RegFile::UPred) => match (URegLatencySM75::spec_op_category(write, false, dst_idx), URegLatencySM75::spec_op_category(read, true, src_idx)) {
                    (Some(x), Some(y)) => URegLatencySM75::spec_pred_write_after_read(y, x),
                    _ => None,
                },
                Some(RegFile::Carry) => Some(6),
                _ => None,
            }
        }
    }

    pub fn war(read: &Op, src_idx: usize, write: &Op, dst_idx: usize) -> (r: u32)
        requires
            Self::spec_war(*read, src_idx as int, *write, dst_idx as int) is Some,
        ensures
            Some(r) == Self::spec_war(*read, src_idx as int, *write, dst_idx as int),
    {
        let dst = &write.dsts[dst_idx];
        match dst {
            Dst::Empty => return 0,
            _ => {},
        }
        match dst.file() {
            Some(RegFile::GPR) => {
                let x = RegLatencySM75::op_category(write, false, dst_idx);
                let y = RegLatencySM75::op_category(read, true, src_idx);
                RegLatencySM75::write_after_read(y, x)
            },
            Some(RegFile::UGPR) => {
                let x = URegLatencySM75::op_category(write, false, dst_idx);
                let y = URegLatencySM75::op_category(read, true, src_idx);
                URegLatencySM75::write_after_read(y, x)
            },
            Some(RegFile::Pred) => {
                let x = RegLatencySM75::op_category(write, false, dst_idx);
                let y = RegLatencySM75::op_category(read, true, src_idx);
                RegLatencySM75::pred_write_after_read(y, x)
            },
            Some(RegFile::UPred) => {
                let x = URegLatencySM75::op_category(write, false, dst_idx);
                let y = URegLatencySM75::op_category(read, true, src_idx);
                URegLatencySM75::pred_write_after_read(y, x)
            },
            Some(RegFile::Carry) => 6,
            _ => unreached(),
        }
    }

    /// Cycles between two writes of the same register, by destination `a_dst_idx` of `a` and then destination `b_dst_idx` of `b`; `a_op_pred` says whether `a` is predicated.
    pub open spec fn spec_waw(a: Op, a_dst_idx: int, b: Op, b_dst_idx: int, a_op_pred: bool) -> Option<u32> {
        if !(0 <= a_dst_idx < a.dsts@.len()) {
            None
        } else if a.dsts@[a_dst_idx] is Empty {
            Some(0)
        } else {
            match dst_file(a.dsts@[a_dst_idx]) {
                Some(RegFile::GPR) => match (RegLatencySM75::spec_op_category(a, false, a_dst_idx), RegLatencySM75::spec_op_category(b, false, b_dst_idx)) {
                    (Some(x), Some(y)) => RegLatencySM75::spec_write_after_write(x, y, a_op_pred),
                    _ => None,
                },
                Some(RegFile::UGPR) => match (URegLatencySM75::spec_op_category(a, false, a_dst_idx), URegLatencySM75::spec_op_category(b, false, b_dst_idx)) {
                    (Some(x), Some(y)) => URegLatencySM75::spec_write_after_write(x, y, a_op_pred),
                    _ => None,
                },
                Some(RegFile::Pred) => match (RegLatencySM75::spec_op_category(a, false, a_dst_idx), RegLatencySM75::spec_op_category(b, false, b_dst_idx)) {
                    (Some(x), Some(y)) => RegLatencySM75::spec_pred_write_after_write(x, y, a_op_pred),
                    _ => None,
                },
                Some(RegFile::UPred) => match (URegLatencySM75::spec_op_category(a, false, a_dst_idx), URegLatencySM75::spec_op_category(b, false, b_dst_idx)) {
                    (Some(x), Some(y)) => URegLatencySM75::spec_pred_write_after_write(x, y),
                    _ => None,
                },
                Some(RegFile::Carry) => Some(6),
                _ => None,
            }
        }
    }

    pub fn waw(a: &Op, a_dst_idx: usize, b: &Op, b_dst_idx: usize, a_op_pred: bool) -> (r: u32)
        requires
            Self::spec_waw(*a, a_dst_idx as int, *b, b_dst_idx as int, a_op_pred) is Some,
        ensures
            Some(r) == Self::spec_waw(*a, a_dst_idx as int, *b, b_dst_idx as int, a_op_pred),
    {
        let dst = &a.dsts[a_dst_idx];
        match dst {
            Dst::Empty => return 0,
            _ => {},
        }
        match dst.file() {
            Some(RegFile::GPR) => {
                let x = RegLatencySM75::op_category(a, false, a_dst_idx);
                let y = RegLatencySM75::op_category(b, false, b_dst_idx);
                RegLatencySM75::write_after_write(x, y, a_op_pred)
            },
            Some(RegFile::UGPR) => {
                let x = URegLatencySM75::op_category(a, false, a_dst_idx);
                let y = URegLatencySM75::op_category(b, false, b_dst_idx);
                URegLatencySM75::write_after_write(x, y, a_op_pred)
            },
            Some(RegFile::Pred) => {
                let x = RegLatencySM75::op_category(a, false, a_dst_idx);
                let y = RegLatencySM75::op_category(b, false, b_dst_idx);
                RegLatencySM75::pred_write_after_write(x, y, a_op_pred)
            },
            Some(RegFile::UPred) => {
                let x = URegLatencySM75::op_category(a, false, a_dst_idx);
                let y = URegLatencySM75::op_category(b, false, b_dst_idx);
                URegLatencySM75::pred_write_after_write(x, y)
            },
            Some(RegFile::Carry) => 6,
            _ => unreached(),
        }
    }

    /// Cycles between a write of predicate destination `dst_idx` of `write` and its use as a guard.
    pub open spec fn spec_paw(write: Op, dst_idx: int) -> Option<u32> {
        if !(0 <= dst_idx < write.dsts@.len()) {
            None
        } else if write.dsts@[dst_idx] is Empty {
            Some(0)
        } else {
            match dst_file(write.dsts@[dst_idx]) {
                Some(RegFile::Pred) => match RegLatencySM75::spec_op_category(write, false, dst_idx) {
                    Some(x) => RegLatencySM75::spec_pred_read_after_write(x, RegLatencySM75::GuardPredicate),
                    None => None,
                },
                Some(RegFile::UPred) => match URegLatencySM75::spec_op_category(write, false, dst_idx) {
                    Some(x) => URegLatencySM75::spec_pred_read_after_write(x, URegLatencySM75::GuardPredicate),
                    None => None,
                },
                _ => None,
            }
        }
    }

    pub fn paw(write: &Op, dst_idx: usize) -> (r: u32)
        requires
            Self::spec_paw(*write, dst_idx as int) is Some,
        ensures
            Some(r) == Self::spec_paw(*write, dst_idx as int),
    {
        let dst = &write.dsts[dst_idx];
        match dst {
            Dst::Empty => return 0,
            _ => {},
        }
        match dst.file() {
            Some(RegFile::Pred) => {
                let x = RegLatencySM75::op_category(write, false, dst_idx);
                RegLatencySM75::pred_read_after_write(x, RegLatencySM75::GuardPredicate)
            },
            Some(RegFile::UPred) => {
                let x = URegLatencySM75::op_category(write, false, dst_idx);
                URegLatencySM75::pred_read_after_write(x, URegLatencySM75::GuardPredicate)
            },
            _ => unreached(),
        }
    }
}


/// Latency lookups are functions of their arguments: two lookups with the
/// same arguments give the same number of cycles.
pub proof fn lemma_latencies_deterministic(
    w: Op,
    w_idx: int,
    r: Op,
    r_idx: int,
    pred: bool,
    c1: u32,
    c2: u32,
)
    ensures
        Some(c1) == SM75Latency::spec_raw(w, w_idx, r, r_idx) && Some(c2) == SM75Latency::spec_raw(w, w_idx, r, r_idx) ==> c1 == c2,
        Some(c1) == SM75Latency::spec_war(r, r_idx, w, w_idx) && Some(c2) == SM75Latency::spec_war(r, r_idx, w, w_idx) ==> c1 == c2,
        Some(c1) == SM75Latency::spec_waw(w, w_idx, r, r_idx, pred) && Some(c2) == SM75Latency::spec_waw(w, w_idx, r, r_idx, pred) ==> c1 == c2,
        Some(c1) == SM75Latency::spec_paw(w, w_idx) && Some(c2) == SM75Latency::spec_paw(w, w_idx) ==> c1 == c2,
{
}

} // verus!
