//! The part of the shader IR that scheduling and latency lookup read.

use vstd::prelude::*;
use crate::regs::RegFile;

verus! {

/// An SSA value: a unique identifier tagged with its register file.
#[derive(Clone, Copy, Debug, PartialEq, Eq, Structural)]
pub struct SSAValue {
    pub idx: u32,
    pub file: RegFile,
}

impl SSAValue {
    pub fn file(&self) -> (r: RegFile)
        ensures
            r == self.file,
    {
        self.file
    }
}

/// An instruction source: the SSA values it reads (none for an immediate),
/// and whether it is a bindless constant-buffer reference.
#[derive(Clone, Debug)]
pub struct Src {
    pub ssa: Vec<SSAValue>,
    pub bindless_cbuf: bool,
}

/// A fixed register, as found after allocation.
#[derive(Clone, Copy, Debug, PartialEq, Eq, Structural)]
pub struct RegRef {
    pub file: RegFile,
    pub comps: u8,
}

/// An instruction destination.  An `SSA` destination with more than one
/// value is a vector destination.
#[derive(Clone, Debug)]
pub enum Dst {
    Empty,
    Reg(RegRef),
    SSA(Vec<SSAValue>),
}

/// The register file a destination writes, if it writes one.
pub open spec fn dst_file(d: Dst) -> Option<RegFile> {
    match d {
        Dst::Empty => None,
        Dst::Reg(r) => Some(r.file),
        Dst::SSA(v) => if v.len() > 0 { Some(v[0].file) } else { None },
    }
}

/// The number of registers a destination writes.
pub open spec fn dst_comps(d: Dst) -> int {
    match d {
        Dst::Empty => 0,
        Dst::Reg(r) => r.comps as int,
        Dst::SSA(v) => v.len() as int,
    }
}

/// The SSA values a destination defines.
pub open spec fn dst_ssa(d: Dst) -> Seq<SSAValue> {
    match d {
        Dst::SSA(v) => v@,
        _ => Seq::empty(),
    }
}

impl Dst {
    pub fn file(&self) -> (r: Option<RegFile>)
        ensures
            r == dst_file(*self),
    {
        match self {
            Dst::Empty => None,
            Dst::Reg(r) => Some(r.file),
            Dst::SSA(v) => if v.len() > 0 { Some(v[0].file) } else { None },
        }
    }

    pub fn comps(&self) -> (r: usize)
        ensures
            r == dst_comps(*self),
    {
        match self {
            Dst::Empty => 0,
            Dst::Reg(r) => r.comps as usize,
            Dst::SSA(v) => v.len(),
        }
    }

    pub fn is_gpr_reg(&self) -> (r: bool)
        ensures
            r == (self is Reg && self->Reg_0.file == RegFile::GPR),
    {
        match self {
            Dst::Reg(r) => r.file == RegFile::GPR,
            _ => false,
        }
    }
}

/// Opcode kinds.
#[allow(non_camel_case_types)]
#[derive(Clone, Copy, Debug, PartialEq, Eq, Structural)]
pub enum Opcode {
    IMad,
    IMul,
    IMad64,
    PopC,
    IAdd3,
    IAdd3X,
    BMsk,
    Lop2,
    Lop3,
    Flo,
    ISetP,
    IAbs,
    Lea,
    LeaX,
    IMnMx,
    I2I,
    Shf,
    FFma,
    FAdd,
    FMul,
    FMnMx,
    FSwzAdd,
    FSet,
    FSetP,
    DAdd,
    DFma,
    DMul,
    DSetP,
    DMnMx,
    HAdd2,
    HFma2,
    HMul2,
    HSet2,
    HSetP2,
    HMnMx2,
    Ipa,
    MuFu,
    F2F,
    F2I,
    I2F,
    FRnd,
    AL2P,
    Mov,
    Sel,
    BRev,
    PLop3,
    PSetP,
    Prmt,
    Nop,
    Vote,
    S2R,
    R2UR,
    CS2R,
    BMov,
    Bar,
    IDp4,
    BClear,
    Bra,
    BSSy,
    Kill,
    Exit,
    BSync,
    Tex,
    Tld,
    Tld4,
    Tmml,
    Txd,
    Txq,
    Ldc,
    ALd,
    ASt,
    Out,
    OutFinal,
    Ld,
    St,
    Atom,
    CCtl,
    MemBar,
    SuLd,
    SuSt,
    SuAtom,
    PixLd,
    Isberd,
    LdTram,
    Shfl,
}

/// An operation: its opcode with its ordered sources and destinations.
#[derive(Clone, Debug)]
pub struct Op {
    pub opcode: Opcode,
    pub srcs: Vec<Src>,
    pub dsts: Vec<Dst>,
}

impl Op {
    /// An op is uniform when it writes a uniform register file.
    pub open spec fn spec_is_uniform(&self) -> bool {
        exists|i: int|
            0 <= i < self.dsts@.len() && #[trigger] dst_file(self.dsts@[i]) is Some
                && dst_file(self.dsts@[i])->0.spec_is_uniform()
    }

    pub fn is_uniform(&self) -> (r: bool)
        ensures
            r == self.spec_is_uniform(),
    {
        let mut i: usize = 0;
        while i < self.dsts.len()
            invariant
                i <= self.dsts@.len(),
                forall|j: int|
                    0 <= j < i ==> !(#[trigger] dst_file(self.dsts@[j]) is Some
                        && dst_file(self.dsts@[j])->0.spec_is_uniform()),
            decreases self.dsts@.len() - i,
        {
            match self.dsts[i].file() {
                Some(f) => {
                    if f.is_uniform() {
                        return true;
                    }
                },
                None => {},
            }
            i += 1;
        }
        false
    }
}

/// An instruction: an op and an optional predicate guard.
#[derive(Clone, Debug)]
pub struct Instr {
    pub op: Op,
    pub pred: Option<SSAValue>,
}

} // verus!
