//! Register files, per-file counters and the occupancy model.

use vstd::prelude::*;

verus! {

/// A physical class of registers.  `Mem` is the pseudo-file that values
/// spill to when every register file is full.
#[derive(Clone, Copy, Debug, PartialEq, Eq, Structural)]
pub enum RegFile {
    GPR,
    UGPR,
    Pred,
    UPred,
    Carry,
    Bar,
    Mem,
}

impl RegFile {
    pub open spec fn spec_is_uniform(self) -> bool {
        self == RegFile::UGPR || self == RegFile::UPred
    }

    /// Whether this file holds uniform (warp-wide) values.
    pub fn is_uniform(&self) -> (r: bool)
        ensures
            r == self.spec_is_uniform(),
    {
        match self {
            RegFile::UGPR | RegFile::UPred => true,
            _ => false,
        }
    }
}

/// A total map from register file to a value.
#[derive(Clone, Copy, Debug, PartialEq, Eq, Structural)]
pub struct PerRegFile<T> {
    pub gpr: T,
    pub ugpr: T,
    pub pred: T,
    pub upred: T,
    pub carry: T,
    pub bar: T,
    pub mem: T,
}

impl<T: Copy> PerRegFile<T> {
    pub open spec fn spec_get(self, f: RegFile) -> T {
        match f {
            RegFile::GPR => self.gpr,
            RegFile::UGPR => self.ugpr,
            RegFile::Pred => self.pred,
            RegFile::UPred => self.upred,
            RegFile::Carry => self.carry,
            RegFile::Bar => self.bar,
            RegFile::Mem => self.mem,
        }
    }

    pub open spec fn spec_set(self, f: RegFile, v: T) -> Self {
        match f {
            RegFile::GPR => PerRegFile { gpr: v, ..self },
            RegFile::UGPR => PerRegFile { ugpr: v, ..self },
            RegFile::Pred => PerRegFile { pred: v, ..self },
            RegFile::UPred => PerRegFile { upred: v, ..self },
            RegFile::Carry => PerRegFile { carry: v, ..self },
            RegFile::Bar => PerRegFile { bar: v, ..self },
            RegFile::Mem => PerRegFile { mem: v, ..self },
        }
    }

    /// A map that holds `v` for every file.
    pub fn splat(v: T) -> (r: Self)
        ensures
            forall|f: RegFile| #[trigger] r.spec_get(f) == v,
    {
        PerRegFile { gpr: v, ugpr: v, pred: v, upred: v, carry: v, bar: v, mem: v }
    }

    pub fn get(&self, f: RegFile) -> (r: T)
        ensures
            r == self.spec_get(f),
    {
        match f {
            RegFile::GPR => self.gpr,
            RegFile::UGPR => self.ugpr,
            RegFile::Pred => self.pred,
            RegFile::UPred => self.upred,
            RegFile::Carry => self.carry,
            RegFile::Bar => self.bar,
            RegFile::Mem => self.mem,
        }
    }

    pub fn set(&mut self, f: RegFile, v: T)
        ensures
            *final(self) == old(self).spec_set(f, v),
    {
        match f {
            RegFile::GPR => self.gpr = v,
            RegFile::UGPR => self.ugpr = v,
            RegFile::Pred => self.pred = v,
            RegFile::UPred => self.upred = v,
            RegFile::Carry => self.carry = v,
            RegFile::Bar => self.bar = v,
            RegFile::Mem => self.mem = v,
        }
    }
}

/// Register-file capacity of one SM, the input of the occupancy math.
pub const TOTAL_REGS: u32 = 65536;

/// Smallest multiple of 8 that is at least `max(gprs, 1)`: registers are
/// allocated eight at a time.
pub open spec fn alloc_granule(gprs: int) -> int {
    let g = if gprs < 1 { 1 } else { gprs };
    ((g + 7) / 8) * 8
}

/// Warps per SM when each thread needs `gprs` registers: whole groups of four
/// warps, at most 48.
pub open spec fn occupancy(gprs: int) -> int {
    let warps = ((65536int / 32) / alloc_granule(gprs) / 4) * 4;
    if warps > 48 { 48 } else { warps }
}

/// The number of warps that one SM can keep resident when every thread uses
/// `gprs` registers.
pub fn occupancy_in_warps_per_sm(gprs: u32) -> (r: u32)
    ensures
        r == occupancy(gprs as int),
{
    if gprs > 2048 {
        proof {
            vstd::arithmetic::div_mod::lemma_basic_div(2048, alloc_granule(gprs as int));
        }
        return 0;
    }
    let g: u32 = if gprs < 1 { 1 } else { gprs };
    let rounded: u32 = ((g + 7) / 8) * 8;
    assert(rounded >= 8);
    let warps: u32 = ((TOTAL_REGS / 32) / rounded / 4) * 4;
    if warps > 48 { 48 } else { warps }
}

/// The register count at the end of the occupancy plateau that `x` lies on,
/// rounded down to a multiple of 8.
pub open spec fn occupancy_cliff(x: int) -> int {
    let threads = occupancy(x) * 32;
    let threads = if threads < 1 { 1 } else { threads };
    ((65536int / threads) / 8) * 8
}

/// Using an extra register is typically free until one more register makes
/// occupancy drop.  This is how many registers can be used without losing
/// occupancy, given that at least `x` are needed.
pub fn next_occupancy_cliff(x: u32) -> (r: u32)
    ensures
        r == occupancy_cliff(x as int),
        r <= 65536,
{
    proof {
        lemma_cliff_bounds(x as int);
    }
    let occ = occupancy_in_warps_per_sm(x);
    let threads: u32 = occ * 32;
    let threads: u32 = if threads < 1 { 1 } else { threads };
    ((TOTAL_REGS / threads) / 8) * 8
}

/// The cliff is never below the register count it was asked for (up to
/// the size of the register file), and never above the register file.
pub proof fn lemma_cliff_bounds(y: int)
    ensures
        0 <= y <= 65536 ==> occupancy_cliff(y) >= y,
        0 <= occupancy_cliff(y) <= 65536,
{
    let g = alloc_granule(y);
    let occ = occupancy(y);
    assert(g >= 8);
    let w = ((2048int / g) / 4) * 4;
    assert(0 <= 2048int / g) by (nonlinear_arith)
        requires
            g >= 8,
    ;
    assert(w <= 2048int / g);
    assert(0 <= w);
    assert(0 <= occ <= w);
    let threads = if occ * 32 < 1 { 1 } else { occ * 32 };
    assert(threads >= 1);
    assert(0 <= 65536int / threads <= 65536) by (nonlinear_arith)
        requires
            threads >= 1,
    ;
    if 0 <= y <= 65536 {
        if occ == 0 {
            assert(threads == 1);
        } else {
            assert(occ * g <= 2048) by (nonlinear_arith)
                requires
                    occ <= 2048int / g,
                    g >= 8,
                    occ >= 0,
            ;
            assert(threads * g <= 65536) by (nonlinear_arith)
                requires
                    threads == occ * 32,
                    occ * g <= 2048,
            ;
            assert(65536int / threads >= g) by (nonlinear_arith)
                requires
                    threads * g <= 65536,
                    threads >= 1,
                    g >= 0,
            ;
            assert(g % 8 == 0);
            assert(((65536int / threads) / 8) * 8 >= g) by (nonlinear_arith)
                requires
                    65536int / threads >= g,
                    g % 8 == 0,
                    g >= 0,
            ;
        }
    }
}

proof fn lemma_cliff_band_8(x: int)
    requires
        0 <= x <= 8,
    ensures
        occupancy_cliff(x) >= x,
        occupancy(occupancy_cliff(x)) == occupancy(x),
        occupancy(occupancy_cliff(x) + 1) < occupancy(occupancy_cliff(x)),
{
    assert(alloc_granule(x) == 8);
    assert(occupancy(x) == 48);
    assert(65536int / 1536 == 42);
    assert(occupancy_cliff(x) == 40);
    assert(alloc_granule(40int) == 40);
    assert(occupancy(40int) == 48);
    assert(alloc_granule(40int + 1) == 48);
    assert(occupancy(40int + 1) == 40);
}

proof fn lemma_cliff_band_16(x: int)
    requires
        9 <= x <= 16,
    ensures
        occupancy_cliff(x) >= x,
        occupancy(occupancy_cliff(x)) == occupancy(x),
        occupancy(occupancy_cliff(x) + 1) < occupancy(occupancy_cliff(x)),
{
    assert(alloc_granule(x) == 16);
    assert(occupancy(x) == 48);
    assert(65536int / 1536 == 42);
    assert(occupancy_cliff(x) == 40);
    assert(alloc_granule(40int) == 40);
    assert(occupancy(40int) == 48);
    assert(alloc_granule(40int + 1) == 48);
    assert(occupancy(40int + 1) == 40);
}

proof fn lemma_cliff_band_24(x: int)
    requires
        17 <= x <= 24,
    ensures
        occupancy_cliff(x) >= x,
        occupancy(occupancy_cliff(x)) == occupancy(x),
        occupancy(occupancy_cliff(x) + 1) < occupancy(occupancy_cliff(x)),
{
    assert(alloc_granule(x) == 24);
    assert(occupancy(x) == 48);
    assert(65536int / 1536 == 42);
    assert(occupancy_cliff(x) == 40);
    assert(alloc_granule(40int) == 40);
    assert(occupancy(40int) == 48);
    assert(alloc_granule(40int + 1) == 48);
    assert(occupancy(40int + 1) == 40);
}

proof fn lemma_cliff_band_32(x: int)
    requires
        25 <= x <= 32,
    ensures
        occupancy_cliff(x) >= x,
        occupancy(occupancy_cliff(x)) == occupancy(x),
        occupancy(occupancy_cliff(x) + 1) < occupancy(occupancy_cliff(x)),
{
    assert(alloc_granule(x) == 32);
    assert(occupancy(x) == 48);
    assert(65536int / 1536 == 42);
    assert(occupancy_cliff(x) == 40);
    assert(alloc_granule(40int) == 40);
    assert(occupancy(40int) == 48);
    assert(alloc_granule(40int + 1) == 48);
    assert(occupancy(40int + 1) == 40);
}

proof fn lemma_cliff_band_40(x: int)
    requires
        33 <= x <= 40,
    ensures
        occupancy_cliff(x) >= x,
        occupancy(occupancy_cliff(x)) == occupancy(x),
        occupancy(occupancy_cliff(x) + 1) < occupancy(occupancy_cliff(x)),
{
    assert(alloc_granule(x) == 40);
    assert(occupancy(x) == 48);
    assert(65536int / 1536 == 42);
    assert(occupancy_cliff(x) == 40);
    assert(alloc_granule(40int) == 40);
    assert(occupancy(40int) == 48);
    assert(alloc_granule(40int + 1) == 48);
    assert(occupancy(40int + 1) == 40);
}

proof fn lemma_cliff_band_48(x: int)
    requires
        41 <= x <= 48,
    ensures
        occupancy_cliff(x) >= x,
        occupancy(occupancy_cliff(x)) == occupancy(x),
        occupancy(occupancy_cliff(x) + 1) < occupancy(occupancy_cliff(x)),
{
    assert(alloc_granule(x) == 48);
    assert(occupancy(x) == 40);
    assert(65536int / 1280 == 51);
    assert(occupancy_cliff(x) == 48);
    assert(alloc_granule(48int) == 48);
    assert(occupancy(48int) == 40);
    assert(alloc_granule(48int + 1) == 56);
    assert(occupancy(48int + 1) == 36);
}

proof fn lemma_cliff_band_56(x: int)
    requires
        49 <= x <= 56,
    ensures
        occupancy_cliff(x) >= x,
        occupancy(occupancy_cliff(x)) == occupancy(x),
        occupancy(occupancy_cliff(x) + 1) < occupancy(occupancy_cliff(x)),
{
    assert(alloc_granule(x) == 56);
    assert(occupancy(x) == 36);
    assert(65536int / 1152 == 56);
    assert(occupancy_cliff(x) == 56);
    assert(alloc_granule(56int) == 56);
    assert(occupancy(56int) == 36);
    assert(alloc_granule(56int + 1) == 64);
    assert(occupancy(56int + 1) == 32);
}

proof fn lemma_cliff_band_64(x: int)
    requires
        57 <= x <= 64,
    ensures
        occupancy_cliff(x) >= x,
        occupancy(occupancy_cliff(x)) == occupancy(x),
        occupancy(occupancy_cliff(x) + 1) < occupancy(occupancy_cliff(x)),
{
    assert(alloc_granule(x) == 64);
    assert(occupancy(x) == 32);
    assert(65536int / 1024 == 64);
    assert(occupancy_cliff(x) == 64);
    assert(alloc_granule(64int) == 64);
    assert(occupancy(64int) == 32);
    assert(alloc_granule(64int + 1) == 72);
    assert(occupancy(64int + 1) == 28);
}

proof fn lemma_cliff_band_72(x: int)
    requires
        65 <= x <= 72,
    ensures
        occupancy_cliff(x) >= x,
        occupancy(occupancy_cliff(x)) == occupancy(x),
        occupancy(occupancy_cliff(x) + 1) < occupancy(occupancy_cliff(x)),
{
    assert(alloc_granule(x) == 72);
    assert(occupancy(x) == 28);
    assert(65536int / 896 == 73);
    assert(occupancy_cliff(x) == 72);
    assert(alloc_granule(72int) == 72);
    assert(occupancy(72int) == 28);
    assert(alloc_granule(72int + 1) == 80);
    assert(occupancy(72int + 1) == 24);
}

proof fn lemma_cliff_band_80(x: int)
    requires
        73 <= x <= 80,
    ensures
        occupancy_cliff(x) >= x,
        occupancy(occupancy_cliff(x)) == occupancy(x),
        occupancy(occupancy_cliff(x) + 1) < occupancy(occupancy_cliff(x)),
{
    assert(alloc_granule(x) == 80);
    assert(occupancy(x) == 24);
    assert(65536int / 768 == 85);
    assert(occupancy_cliff(x) == 80);
    assert(alloc_granule(80int) == 80);
    assert(occupancy(80int) == 24);
    assert(alloc_granule(80int + 1) == 88);
    assert(occupancy(80int + 1) == 20);
}

proof fn lemma_cliff_band_88(x: int)
    requires
        81 <= x <= 88,
    ensures
        occupancy_cliff(x) >= x,
        occupancy(occupancy_cliff(x)) == occupancy(x),
        occupancy(occupancy_cliff(x) + 1) < occupancy(occupancy_cliff(x)),
{
    assert(alloc_granule(x) == 88);
    assert(occupancy(x) == 20);
    assert(65536int / 640 == 102);
    assert(occupancy_cliff(x) == 96);
    assert(alloc_granule(96int) == 96);
    assert(occupancy(96int) == 20);
    assert(alloc_granule(96int + 1) == 104);
    assert(occupancy(96int + 1) == 16);
}

proof fn lemma_cliff_band_96(x: int)
    requires
        89 <= x <= 96,
    ensures
        occupancy_cliff(x) >= x,
        occupancy(occupancy_cliff(x)) == occupancy(x),
        occupancy(occupancy_cliff(x) + 1) < occupancy(occupancy_cliff(x)),
{
    assert(alloc_granule(x) == 96);
    assert(occupancy(x) == 20);
    assert(65536int / 640 == 102);
    assert(occupancy_cliff(x) == 96);
    assert(alloc_granule(96int) == 96);
    assert(occupancy(96int) == 20);
    assert(alloc_granule(96int + 1) == 104);
    assert(occupancy(96int + 1) == 16);
}

proof fn lemma_cliff_band_104(x: int)
    requires
        97 <= x <= 104,
    ensures
        occupancy_cliff(x) >= x,
        occupancy(occupancy_cliff(x)) == occupancy(x),
        occupancy(occupancy_cliff(x) + 1) < occupancy(occupancy_cliff(x)),
{
    assert(alloc_granule(x) == 104);
    assert(occupancy(x) == 16);
    assert(65536int / 512 == 128);
    assert(occupancy_cliff(x) == 128);
    assert(alloc_granule(128int) == 128);
    assert(occupancy(128int) == 16);
    assert(alloc_granule(128int + 1) == 136);
    assert(occupancy(128int + 1) == 12);
}

proof fn lemma_cliff_band_112(x: int)
    requires
        105 <= x <= 112,
    ensures
        occupancy_cliff(x) >= x,
        occupancy(occupancy_cliff(x)) == occupancy(x),
        occupancy(occupancy_cliff(x) + 1) < occupancy(occupancy_cliff(x)),
{
    assert(alloc_granule(x) == 112);
    assert(occupancy(x) == 16);
    assert(65536int / 512 == 128);
    assert(occupancy_cliff(x) == 128);
    assert(alloc_granule(128int) == 128);
    assert(occupancy(128int) == 16);
    assert(alloc_granule(128int + 1) == 136);
    assert(occupancy(128int + 1) == 12);
}

proof fn lemma_cliff_band_120(x: int)
    requires
        113 <= x <= 120,
    ensures
        occupancy_cliff(x) >= x,
        occupancy(occupancy_cliff(x)) == occupancy(x),
        occupancy(occupancy_cliff(x) + 1) < occupancy(occupancy_cliff(x)),
{
    assert(alloc_granule(x) == 120);
    assert(occupancy(x) == 16);
    assert(65536int / 512 == 128);
    assert(occupancy_cliff(x) == 128);
    assert(alloc_granule(128int) == 128);
    assert(occupancy(128int) == 16);
    assert(alloc_granule(128int + 1) == 136);
    assert(occupancy(128int + 1) == 12);
}

proof fn lemma_cliff_band_128(x: int)
    requires
        121 <= x <= 128,
    ensures
        occupancy_cliff(x) >= x,
        occupancy(occupancy_cliff(x)) == occupancy(x),
        occupancy(occupancy_cliff(x) + 1) < occupancy(occupancy_cliff(x)),
{
    assert(alloc_granule(x) == 128);
    assert(occupancy(x) == 16);
    assert(65536int / 512 == 128);
    assert(occupancy_cliff(x) == 128);
    assert(alloc_granule(128int) == 128);
    assert(occupancy(128int) == 16);
    assert(alloc_granule(128int + 1) == 136);
    assert(occupancy(128int + 1) == 12);
}

proof fn lemma_cliff_band_136(x: int)
    requires
        129 <= x <= 136,
    ensures
        occupancy_cliff(x) >= x,
        occupancy(occupancy_cliff(x)) == occupancy(x),
        occupancy(occupancy_cliff(x) + 1) < occupancy(occupancy_cliff(x)),
{
    assert(alloc_granule(x) == 136);
    assert(occupancy(x) == 12);
    assert(65536int / 384 == 170);
    assert(occupancy_cliff(x) == 168);
    assert(alloc_granule(168int) == 168);
    assert(occupancy(168int) == 12);
    assert(alloc_granule(168int + 1) == 176);
    assert(occupancy(168int + 1) == 8);
}

proof fn lemma_cliff_band_144(x: int)
    requires
        137 <= x <= 144,
    ensures
        occupancy_cliff(x) >= x,
        occupancy(occupancy_cliff(x)) == occupancy(x),
        occupancy(occupancy_cliff(x) + 1) < occupancy(occupancy_cliff(x)),
{
    assert(alloc_granule(x) == 144);
    assert(occupancy(x) == 12);
    assert(65536int / 384 == 170);
    assert(occupancy_cliff(x) == 168);
    assert(alloc_granule(168int) == 168);
    assert(occupancy(168int) == 12);
    assert(alloc_granule(168int + 1) == 176);
    assert(occupancy(168int + 1) == 8);
}

proof fn lemma_cliff_band_152(x: int)
    requires
        145 <= x <= 152,
    ensures
        occupancy_cliff(x) >= x,
        occupancy(occupancy_cliff(x)) == occupancy(x),
        occupancy(occupancy_cliff(x) + 1) < occupancy(occupancy_cliff(x)),
{
    assert(alloc_granule(x) == 152);
    assert(occupancy(x) == 12);
    assert(65536int / 384 == 170);
    assert(occupancy_cliff(x) == 168);
    assert(alloc_granule(168int) == 168);
    assert(occupancy(168int) == 12);
    assert(alloc_granule(168int + 1) == 176);
    assert(occupancy(168int + 1) == 8);
}

proof fn lemma_cliff_band_160(x: int)
    requires
        153 <= x <= 160,
    ensures
        occupancy_cliff(x) >= x,
        occupancy(occupancy_cliff(x)) == occupancy(x),
        occupancy(occupancy_cliff(x) + 1) < occupancy(occupancy_cliff(x)),
{
    assert(alloc_granule(x) == 160);
    assert(occupancy(x) == 12);
    assert(65536int / 384 == 170);
    assert(occupancy_cliff(x) == 168);
    assert(alloc_granule(168int) == 168);
    assert(occupancy(168int) == 12);
    assert(alloc_granule(168int + 1) == 176);
    assert(occupancy(168int + 1) == 8);
}

proof fn lemma_cliff_band_168(x: int)
    requires
        161 <= x <= 168,
    ensures
        occupancy_cliff(x) >= x,
        occupancy(occupancy_cliff(x)) == occupancy(x),
        occupancy(occupancy_cliff(x) + 1) < occupancy(occupancy_cliff(x)),
{
    assert(alloc_granule(x) == 168);
    assert(occupancy(x) == 12);
    assert(65536int / 384 == 170);
    assert(occupancy_cliff(x) == 168);
    assert(alloc_granule(168int) == 168);
    assert(occupancy(168int) == 12);
    assert(alloc_granule(168int + 1) == 176);
    assert(occupancy(168int + 1) == 8);
}

proof fn lemma_cliff_band_176(x: int)
    requires
        169 <= x <= 176,
    ensures
        occupancy_cliff(x) >= x,
        occupancy(occupancy_cliff(x)) == occupancy(x),
        occupancy(occupancy_cliff(x) + 1) < occupancy(occupancy_cliff(x)),
{
    assert(alloc_granule(x) == 176);
    assert(occupancy(x) == 8);
    assert(65536int / 256 == 256);
    assert(occupancy_cliff(x) == 256);
    assert(alloc_granule(256int) == 256);
    assert(occupancy(256int) == 8);
    assert(alloc_granule(256int + 1) == 264);
    assert(occupancy(256int + 1) == 4);
}

proof fn lemma_cliff_band_184(x: int)
    requires
        177 <= x <= 184,
    ensures
        occupancy_cliff(x) >= x,
        occupancy(occupancy_cliff(x)) == occupancy(x),
        occupancy(occupancy_cliff(x) + 1) < occupancy(occupancy_cliff(x)),
{
    assert(alloc_granule(x) == 184);
    assert(occupancy(x) == 8);
    assert(65536int / 256 == 256);
    assert(occupancy_cliff(x) == 256);
    assert(alloc_granule(256int) == 256);
    assert(occupancy(256int) == 8);
    assert(alloc_granule(256int + 1) == 264);
    assert(occupancy(256int + 1) == 4);
}

proof fn lemma_cliff_band_192(x: int)
    requires
        185 <= x <= 192,
    ensures
        occupancy_cliff(x) >= x,
        occupancy(occupancy_cliff(x)) == occupancy(x),
        occupancy(occupancy_cliff(x) + 1) < occupancy(occupancy_cliff(x)),
{
    assert(alloc_granule(x) == 192);
    assert(occupancy(x) == 8);
    assert(65536int / 256 == 256);
    assert(occupancy_cliff(x) == 256);
    assert(alloc_granule(256int) == 256);
    assert(occupancy(256int) == 8);
    assert(alloc_granule(256int + 1) == 264);
    assert(occupancy(256int + 1) == 4);
}

proof fn lemma_cliff_band_200(x: int)
    requires
        193 <= x <= 200,
    ensures
        occupancy_cliff(x) >= x,
        occupancy(occupancy_cliff(x)) == occupancy(x),
        occupancy(occupancy_cliff(x) + 1) < occupancy(occupancy_cliff(x)),
{
    assert(alloc_granule(x) == 200);
    assert(occupancy(x) == 8);
    assert(65536int / 256 == 256);
    assert(occupancy_cliff(x) == 256);
    assert(alloc_granule(256int) == 256);
    assert(occupancy(256int) == 8);
    assert(alloc_granule(256int + 1) == 264);
    assert(occupancy(256int + 1) == 4);
}

proof fn lemma_cliff_band_208(x: int)
    requires
        201 <= x <= 208,
    ensures
        occupancy_cliff(x) >= x,
        occupancy(occupancy_cliff(x)) == occupancy(x),
        occupancy(occupancy_cliff(x) + 1) < occupancy(occupancy_cliff(x)),
{
    assert(alloc_granule(x) == 208);
    assert(occupancy(x) == 8);
    assert(65536int / 256 == 256);
    assert(occupancy_cliff(x) == 256);
    assert(alloc_granule(256int) == 256);
    assert(occupancy(256int) == 8);
    assert(alloc_granule(256int + 1) == 264);
    assert(occupancy(256int + 1) == 4);
}

proof fn lemma_cliff_band_216(x: int)
    requires
        209 <= x <= 216,
    ensures
        occupancy_cliff(x) >= x,
        occupancy(occupancy_cliff(x)) == occupancy(x),
        occupancy(occupancy_cliff(x) + 1) < occupancy(occupancy_cliff(x)),
{
    assert(alloc_granule(x) == 216);
    assert(occupancy(x) == 8);
    assert(65536int / 256 == 256);
    assert(occupancy_cliff(x) == 256);
    assert(alloc_granule(256int) == 256);
    assert(occupancy(256int) == 8);
    assert(alloc_granule(256int + 1) == 264);
    assert(occupancy(256int + 1) == 4);
}

proof fn lemma_cliff_band_224(x: int)
    requires
        217 <= x <= 224,
    ensures
        occupancy_cliff(x) >= x,
        occupancy(occupancy_cliff(x)) == occupancy(x),
        occupancy(occupancy_cliff(x) + 1) < occupancy(occupancy_cliff(x)),
{
    assert(alloc_granule(x) == 224);
    assert(occupancy(x) == 8);
    assert(65536int / 256 == 256);
    assert(occupancy_cliff(x) == 256);
    assert(alloc_granule(256int) == 256);
    assert(occupancy(256int) == 8);
    assert(alloc_granule(256int + 1) == 264);
    assert(occupancy(256int + 1) == 4);
}

proof fn lemma_cliff_band_232(x: int)
    requires
        225 <= x <= 232,
    ensures
        occupancy_cliff(x) >= x,
        occupancy(occupancy_cliff(x)) == occupancy(x),
        occupancy(occupancy_cliff(x) + 1) < occupancy(occupancy_cliff(x)),
{
    assert(alloc_granule(x) == 232);
    assert(occupancy(x) == 8);
    assert(65536int / 256 == 256);
    assert(occupancy_cliff(x) == 256);
    assert(alloc_granule(256int) == 256);
    assert(occupancy(256int) == 8);
    assert(alloc_granule(256int + 1) == 264);
    assert(occupancy(256int + 1) == 4);
}

proof fn lemma_cliff_band_240(x: int)
    requires
        233 <= x <= 240,
    ensures
        occupancy_cliff(x) >= x,
        occupancy(occupancy_cliff(x)) == occupancy(x),
        occupancy(occupancy_cliff(x) + 1) < occupancy(occupancy_cliff(x)),
{
    assert(alloc_granule(x) == 240);
    assert(occupancy(x) == 8);
    assert(65536int / 256 == 256);
    assert(occupancy_cliff(x) == 256);
    assert(alloc_granule(256int) == 256);
    assert(occupancy(256int) == 8);
    assert(alloc_granule(256int + 1) == 264);
    assert(occupancy(256int + 1) == 4);
}

proof fn lemma_cliff_band_248(x: int)
    requires
        241 <= x <= 248,
    ensures
        occupancy_cliff(x) >= x,
        occupancy(occupancy_cliff(x)) == occupancy(x),
        occupancy(occupancy_cliff(x) + 1) < occupancy(occupancy_cliff(x)),
{
    assert(alloc_granule(x) == 248);
    assert(occupancy(x) == 8);
    assert(65536int / 256 == 256);
    assert(occupancy_cliff(x) == 256);
    assert(alloc_granule(256int) == 256);
    assert(occupancy(256int) == 8);
    assert(alloc_granule(256int + 1) == 264);
    assert(occupancy(256int + 1) == 4);
}

proof fn lemma_cliff_band_256(x: int)
    requires
        249 <= x <= 256,
    ensures
        occupancy_cliff(x) >= x,
        occupancy(occupancy_cliff(x)) == occupancy(x),
        occupancy(occupancy_cliff(x) + 1) < occupancy(occupancy_cliff(x)),
{
    assert(alloc_granule(x) == 256);
    assert(occupancy(x) == 8);
    assert(65536int / 256 == 256);
    assert(occupancy_cliff(x) == 256);
    assert(alloc_granule(256int) == 256);
    assert(occupancy(256int) == 8);
    assert(alloc_granule(256int + 1) == 264);
    assert(occupancy(256int + 1) == 4);
}

/// For every register count from 0 to 255, the cliff returned for it is on
/// the same occupancy plateau, at least as large, and one more register past
/// it lowers occupancy.
pub proof fn lemma_occupancy_cliff(x: int)
    requires
        0 <= x <= 255,
    ensures
        occupancy_cliff(x) >= x,
        occupancy(occupancy_cliff(x)) == occupancy(x),
        occupancy(occupancy_cliff(x) + 1) < occupancy(occupancy_cliff(x)),
{
    if x <= 8 {
        lemma_cliff_band_8(x);
    } else if x <= 16 {
        lemma_cliff_band_16(x);
    } else if x <= 24 {
        lemma_cliff_band_24(x);
    } else if x <= 32 {
        lemma_cliff_band_32(x);
    } else if x <= 40 {
        lemma_cliff_band_40(x);
    } else if x <= 48 {
        lemma_cliff_band_48(x);
    } else if x <= 56 {
        lemma_cliff_band_56(x);
    } else if x <= 64 {
        lemma_cliff_band_64(x);
    } else if x <= 72 {
        lemma_cliff_band_72(x);
    } else if x <= 80 {
        lemma_cliff_band_80(x);
    } else if x <= 88 {
        lemma_cliff_band_88(x);
    } else if x <= 96 {
        lemma_cliff_band_96(x);
    } else if x <= 104 {
        lemma_cliff_band_104(x);
    } else if x <= 112 {
        lemma_cliff_band_112(x);
    } else if x <= 120 {
        lemma_cliff_band_120(x);
    } else if x <= 128 {
        lemma_cliff_band_128(x);
    } else if x <= 136 {
        lemma_cliff_band_136(x);
    } else if x <= 144 {
        lemma_cliff_band_144(x);
    } else if x <= 152 {
        lemma_cliff_band_152(x);
    } else if x <= 160 {
        lemma_cliff_band_160(x);
    } else if x <= 168 {
        lemma_cliff_band_168(x);
    } else if x <= 176 {
        lemma_cliff_band_176(x);
    } else if x <= 184 {
        lemma_cliff_band_184(x);
    } else if x <= 192 {
        lemma_cliff_band_192(x);
    } else if x <= 200 {
        lemma_cliff_band_200(x);
    } else if x <= 208 {
        lemma_cliff_band_208(x);
    } else if x <= 216 {
        lemma_cliff_band_216(x);
    } else if x <= 224 {
        lemma_cliff_band_224(x);
    } else if x <= 232 {
        lemma_cliff_band_232(x);
    } else if x <= 240 {
        lemma_cliff_band_240(x);
    } else if x <= 248 {
        lemma_cliff_band_248(x);
    } else if x <= 256 {
        lemma_cliff_band_256(x);
    }
}

} // verus!
