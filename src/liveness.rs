//! Blocks, functions and a simple block-level liveness analysis.

use vstd::prelude::*;
use crate::regs::PerRegFile;
use crate::ir::{Dst, Instr, SSAValue, dst_ssa};
use crate::net_live::reads_src_prefix;
use crate::live::LiveSet;

verus! {

/// A basic block: straight-line instructions and the indices of the blocks
/// that branch to it.
#[derive(Clone, Debug)]
pub struct BasicBlock {
    pub instrs: Vec<Instr>,
    pub preds: Vec<usize>,
}

/// The last instruction of a block that reads or writes a value.
#[derive(Clone, Copy, Debug, PartialEq, Eq, Structural)]
pub struct LastUse {
    pub ssa: SSAValue,
    pub ip: usize,
}

/// Liveness of one block.
#[derive(Clone, Debug)]
pub struct BlockLiveness {
    pub live_in: LiveSet,
    pub live_out: LiveSet,
    pub last_use: Vec<LastUse>,
}

/// Liveness of every block of a function.
#[derive(Clone, Debug)]
pub struct SimpleLiveness {
    pub blocks: Vec<BlockLiveness>,
}

pub open spec fn reads(instr: Instr, v: SSAValue) -> bool {
    instr.pred == Some(v) || exists|i: int| 0 <= i < instr.op.srcs@.len() && (#[trigger] instr.op.srcs@[i]).ssa@.contains(v)
}

fn note_use(last: &mut Vec<LastUse>, ssa: SSAValue, ip: usize) {
    let mut k: usize = 0;
    while k < last.len()
        decreases last@.len() - k,
    {
        if last[k].ssa == ssa {
            last.set(k, LastUse { ssa, ip });
            return;
        }
        k += 1;
    }
    last.push(LastUse { ssa, ip });
}

fn insert_all(set: &mut LiveSet, vals: &Vec<SSAValue>)
    requires
        old(set).wf(),
    ensures
        final(set).wf(),
        forall|v: SSAValue| #[trigger] final(set).spec_contains(v) <==> (old(set).spec_contains(v) || vals@.contains(v)),
{
    let mut k: usize = 0;
    while k < vals.len()
        invariant
            set.wf(),
            k <= vals@.len(),
            forall|v: SSAValue| #[trigger] set.spec_contains(v) <==> (old(set).spec_contains(v) || vals@.subrange(0, k as int).contains(v)),
        decreases vals@.len() - k,
    {
        proof {
            assert(vals@.subrange(0, k as int + 1) =~= vals@.subrange(0, k as int).push(vals@[k as int]));
            crate::live::lemma_push_contains(vals@.subrange(0, k as int), vals@[k as int]);
        }
        set.insert(vals[k]);
        k += 1;
    }
    assert(vals@.subrange(0, k as int) =~= vals@);
}

/// Among the destinations before `d`, a vector one defines `v`.
pub open spec fn in_vector_dst(instr: Instr, d: int, v: SSAValue) -> bool {
    exists|d2: int| 0 <= d2 < d && d2 < instr.op.dsts@.len() && dst_ssa(#[trigger] instr.op.dsts@[d2]).len() > 1
        && dst_ssa(instr.op.dsts@[d2]).contains(v)
}

/// Among the destinations before `d`, a scalar one defines `v`.
pub open spec fn in_scalar_dst(instr: Instr, d: int, v: SSAValue) -> bool {
    exists|d2: int| 0 <= d2 < d && d2 < instr.op.dsts@.len() && dst_ssa(#[trigger] instr.op.dsts@[d2]).len() == 1
        && dst_ssa(instr.op.dsts@[d2])[0] == v
}

/// Among the destinations before `d`, and the first `j` values of
/// destination `d`, some defines `v`.
pub open spec fn defines_prefix(instr: Instr, d: int, j: int, v: SSAValue) -> bool {
    (exists|d2: int| 0 <= d2 < d && d2 < instr.op.dsts@.len() && dst_ssa(#[trigger] instr.op.dsts@[d2]).contains(v))
        || (0 <= d < instr.op.dsts@.len() && dst_ssa(instr.op.dsts@[d]).subrange(0, j).contains(v))
}

/// The first record of `ssa` in `uses` names an instruction after `ip`.
pub open spec fn used_after(uses: Seq<LastUse>, ssa: SSAValue, ip: usize) -> bool
    decreases uses.len(),
{
    if uses.len() == 0 {
        false
    } else if uses[0].ssa == ssa {
        uses[0].ip > ip
    } else {
        used_after(uses.drop_first(), ssa, ip)
    }
}

/// `ssa` is still live after instruction `ip` of the block: it is live
/// out of the block, or the last instruction touching it comes later.
pub open spec fn spec_live_after(bl: BlockLiveness, ssa: SSAValue, ip: usize) -> bool {
    bl.live_out.spec_contains(ssa) || used_after(bl.last_use@, ssa, ip)
}

impl BlockLiveness {
    /// Whether `ssa` is still live after instruction `ip` of the block.
    pub fn is_live_after_ip(&self, ssa: &SSAValue, ip: usize) -> (r: bool)
        ensures
            r == spec_live_after(*self, *ssa, ip),
    {
        if self.live_out.contains(ssa) {
            return true;
        }
        let mut k: usize = 0;
        assert(self.last_use@.subrange(0, self.last_use@.len() as int) =~= self.last_use@);
        while k < self.last_use.len()
            invariant
                k <= self.last_use@.len(),
                !self.live_out.spec_contains(*ssa),
                used_after(self.last_use@, *ssa, ip) == used_after(self.last_use@.subrange(k as int, self.last_use@.len() as int), *ssa, ip),
            decreases self.last_use@.len() - k,
        {
            proof {
                let t = self.last_use@.subrange(k as int, self.last_use@.len() as int);
                assert(t.drop_first() =~= self.last_use@.subrange(k as int + 1, self.last_use@.len() as int));
                assert(t[0] == self.last_use@[k as int]);
            }
            if self.last_use[k].ssa == *ssa {
                return self.last_use[k].ip > ip;
            }
            k += 1;
        }
        proof {
            assert(self.last_use@.subrange(k as int, self.last_use@.len() as int) =~= Seq::<LastUse>::empty());
        }
        false
    }

    pub fn is_live_in(&self, ssa: &SSAValue) -> (r: bool)
        ensures
            r == self.live_in.spec_contains(*ssa),
    {
        self.live_in.contains(ssa)
    }

    pub open spec fn wf(&self) -> bool {
        self.live_in.wf() && self.live_out.wf()
    }
}

/// Some destination of `instr` defines `v`.
pub open spec fn defines_any(instr: Instr, v: SSAValue) -> bool {
    exists|d: int| 0 <= d < instr.op.dsts@.len() && dst_ssa(#[trigger] instr.op.dsts@[d]).contains(v)
}

/// Among the first `k` instructions, one reads `v` before any defines it.
pub open spec fn gen_before(instrs: Seq<Instr>, k: int, v: SSAValue) -> bool {
    exists|ip: int| 0 <= ip < k && #[trigger] reads(instrs[ip], v) && forall|ip2: int| 0 <= ip2 < ip ==> !defines_any(#[trigger] instrs[ip2], v)
}

/// Among the first `k` instructions, one defines `v`.
pub open spec fn kills_before(instrs: Seq<Instr>, k: int, v: SSAValue) -> bool {
    exists|ip: int| 0 <= ip < k && #[trigger] defines_any(instrs[ip], v)
}

/// The values a block reads before defining them, the values it defines,
/// and the last instruction touching each value.
fn block_summary(instrs: &Vec<Instr>) -> (r: (LiveSet, LiveSet, Vec<LastUse>))
    ensures
        r.0.wf(),
        r.1.wf(),
        forall|v: SSAValue| #[trigger] r.0.spec_contains(v) <==> gen_before(instrs@, instrs@.len() as int, v),
        forall|v: SSAValue| #[trigger] r.1.spec_contains(v) <==> kills_before(instrs@, instrs@.len() as int, v),
{
    let mut gen = LiveSet::new();
    let mut kill = LiveSet::new();
    let mut last: Vec<LastUse> = Vec::new();
    let mut ip: usize = 0;
    while ip < instrs.len()
        invariant
            ip <= instrs@.len(),
            gen.wf(),
            kill.wf(),
            forall|v: SSAValue| #[trigger] gen.spec_contains(v) <==> gen_before(instrs@, ip as int, v),
            forall|v: SSAValue| #[trigger] kill.spec_contains(v) <==> kills_before(instrs@, ip as int, v),
        decreases instrs@.len() - ip,
    {
        let instr = &instrs[ip];
        let ghost kill0 = kill;
        let mut i: usize = 0;
        while i < instr.op.srcs.len()
            invariant
                ip < instrs@.len(),
                *instr == instrs@[ip as int],
                i <= instr.op.srcs@.len(),
                gen.wf(),
                kill.wf(),
                kill == kill0,
                forall|v: SSAValue| #[trigger] kill.spec_contains(v) <==> kills_before(instrs@, ip as int, v),
                forall|v: SSAValue| #[trigger] gen.spec_contains(v) <==> (gen_before(instrs@, ip as int, v)
                    || (reads_src_prefix(*instr, i as int, 0, v) && !kills_before(instrs@, ip as int, v))),
            decreases instr.op.srcs@.len() - i,
        {
            let vals = &instr.op.srcs[i].ssa;
            let mut j: usize = 0;
            while j < vals.len()
                invariant
                    ip < instrs@.len(),
                    *instr == instrs@[ip as int],
                    i < instr.op.srcs@.len(),
                    *vals == instr.op.srcs@[i as int].ssa,
                    j <= vals@.len(),
                    gen.wf(),
                    kill.wf(),
                    kill == kill0,
                    forall|v: SSAValue| #[trigger] kill.spec_contains(v) <==> kills_before(instrs@, ip as int, v),
                    forall|v: SSAValue| #[trigger] gen.spec_contains(v) <==> (gen_before(instrs@, ip as int, v)
                        || (reads_src_prefix(*instr, i as int, j as int, v) && !kills_before(instrs@, ip as int, v))),
                decreases vals@.len() - j,
            {
                let x = vals[j];
                proof {
                    assert(vals@.subrange(0, j as int + 1) =~= vals@.subrange(0, j as int).push(x));
                    crate::live::lemma_push_contains(vals@.subrange(0, j as int), x);
                }
                if !kill.contains(&x) {
                    gen.insert(x);
                }
                note_use(&mut last, x, ip);
                j += 1;
            }
            proof {
                assert(vals@.subrange(0, vals@.len() as int) =~= vals@);
                assert forall|v: SSAValue| reads_src_prefix(*instr, i as int + 1, 0, v)
                    <==> reads_src_prefix(*instr, i as int, vals@.len() as int, v) by {
                    if reads_src_prefix(*instr, i as int + 1, 0, v) {
                        let i2 = choose|i2: int| 0 <= i2 < i + 1 && i2 < instr.op.srcs@.len() && (#[trigger] instr.op.srcs@[i2]).ssa@.contains(v);
                    }
                }
            }
            i += 1;
        }
        match instr.pred {
            Some(p) => {
                if !kill.contains(&p) {
                    gen.insert(p);
                }
                note_use(&mut last, p, ip);
            },
            None => {},
        }
        proof {
            assert forall|v: SSAValue| #[trigger] gen.spec_contains(v) <==> gen_before(instrs@, ip as int + 1, v) by {
                assert(reads_src_prefix(*instr, i as int, 0, v) <==> exists|k: int|
                    0 <= k < instr.op.srcs@.len() && (#[trigger] instr.op.srcs@[k]).ssa@.contains(v));
                if gen_before(instrs@, ip as int + 1, v) && !gen_before(instrs@, ip as int, v) {
                    let q = choose|q: int| 0 <= q < ip + 1 && #[trigger] reads(instrs@[q], v)
                        && forall|ip2: int| 0 <= ip2 < q ==> !defines_any(#[trigger] instrs@[ip2], v);
                    assert(q == ip);
                    if kills_before(instrs@, ip as int, v) {
                        let q2 = choose|q2: int| 0 <= q2 < ip && #[trigger] defines_any(instrs@[q2], v);
                    }
                }
                if reads(*instr, v) && !kills_before(instrs@, ip as int, v) {
                    assert forall|ip2: int| 0 <= ip2 < ip implies !defines_any(#[trigger] instrs@[ip2], v) by {}
                    assert(reads(instrs@[ip as int], v));
                }
            }
        }
        let mut d: usize = 0;
        while d < instr.op.dsts.len()
            invariant
                ip < instrs@.len(),
                *instr == instrs@[ip as int],
                d <= instr.op.dsts@.len(),
                gen.wf(),
                kill.wf(),
                forall|v: SSAValue| #[trigger] gen.spec_contains(v) <==> gen_before(instrs@, ip as int + 1, v),
                forall|v: SSAValue| #[trigger] kill.spec_contains(v) <==> (kills_before(instrs@, ip as int, v)
                    || defines_prefix(*instr, d as int, 0, v)),
            decreases instr.op.dsts@.len() - d,
        {
            match &instr.op.dsts[d] {
                Dst::SSA(vals) => {
                    let mut j: usize = 0;
                    while j < vals.len()
                        invariant
                            ip < instrs@.len(),
                            *instr == instrs@[ip as int],
                            d < instr.op.dsts@.len(),
                            instr.op.dsts@[d as int] == Dst::SSA(*vals),
                            j <= vals@.len(),
                            gen.wf(),
                            kill.wf(),
                            forall|v: SSAValue| #[trigger] gen.spec_contains(v) <==> gen_before(instrs@, ip as int + 1, v),
                            forall|v: SSAValue| #[trigger] kill.spec_contains(v) <==> (kills_before(instrs@, ip as int, v)
                                || defines_prefix(*instr, d as int, j as int, v)),
                        decreases vals@.len() - j,
                    {
                        let x = vals[j];
                        proof {
                            assert(vals@.subrange(0, j as int + 1) =~= vals@.subrange(0, j as int).push(x));
                            crate::live::lemma_push_contains(vals@.subrange(0, j as int), x);
                        }
                        kill.insert(x);
                        note_use(&mut last, x, ip);
                        j += 1;
                    }
                    proof {
                        assert(vals@.subrange(0, vals@.len() as int) =~= vals@);
                    }
                },
                _ => {
                    proof {
                        assert(dst_ssa(instr.op.dsts@[d as int]).subrange(0, 0) =~= Seq::<SSAValue>::empty());
                    }
                },
            }
            proof {
                assert forall|v: SSAValue| defines_prefix(*instr, d as int + 1, 0, v)
                    <==> defines_prefix(*instr, d as int, dst_ssa(instr.op.dsts@[d as int]).len() as int, v) by {
                    assert(dst_ssa(instr.op.dsts@[d as int]).subrange(0, dst_ssa(instr.op.dsts@[d as int]).len() as int)
                        =~= dst_ssa(instr.op.dsts@[d as int]));
                    if defines_prefix(*instr, d as int + 1, 0, v) {
                        let d2 = choose|d2: int| 0 <= d2 < d + 1 && d2 < instr.op.dsts@.len() && dst_ssa(#[trigger] instr.op.dsts@[d2]).contains(v);
                    }
                }
            }
            d += 1;
        }
        proof {
            assert forall|v: SSAValue| #[trigger] kill.spec_contains(v) <==> kills_before(instrs@, ip as int + 1, v) by {
                assert(defines_prefix(*instr, d as int, 0, v) <==> defines_any(instrs@[ip as int], v));
                if kills_before(instrs@, ip as int + 1, v) && !kills_before(instrs@, ip as int, v) {
                    let q = choose|q: int| 0 <= q < ip + 1 && #[trigger] defines_any(instrs@[q], v);
                    assert(q == ip);
                }
            }
        }
        ip += 1;
    }
    (gen, kill, last)
}

/// `bl` has as live-in exactly the values its block reads before defining
/// them, and those live out of it that it does not define.
pub open spec fn live_in_equation(bl: BlockLiveness, instrs: Seq<Instr>) -> bool {
    forall|v: SSAValue| #[trigger] bl.live_in.spec_contains(v) <==> (gen_before(instrs, instrs.len() as int, v)
        || (bl.live_out.spec_contains(v) && !kills_before(instrs, instrs.len() as int, v)))
}

/// `gens[k]` and `kills[k]` summarise block `k`.
pub open spec fn summaries_ok(gens: Seq<LiveSet>, kills: Seq<LiveSet>, blocks: Seq<BasicBlock>, m: int) -> bool {
    &&& forall|k: int, v: SSAValue| 0 <= k < m ==> (#[trigger] gens[k].spec_contains(v) <==> gen_before(blocks[k].instrs@, blocks[k].instrs@.len() as int, v))
    &&& forall|k: int, v: SSAValue| 0 <= k < m ==> (#[trigger] kills[k].spec_contains(v) <==> kills_before(blocks[k].instrs@, blocks[k].instrs@.len() as int, v))
}

impl SimpleLiveness {
    pub open spec fn wf(&self) -> bool {
        forall|b: int| 0 <= b < self.blocks@.len() ==> (#[trigger] self.blocks@[b]).wf()
    }

    /// Backward dataflow to a fixed point: a value is live out of a block
    /// when it is live into a successor, and live into a block when the
    /// block reads it before defining it or it is live out and not defined
    /// in the block.  Round-robin passes in reverse block order reach the
    /// fixed point within one pass more than the number of blocks.
    pub fn for_function(blocks: &Vec<BasicBlock>) -> (r: SimpleLiveness)
        ensures
            r.blocks@.len() == blocks@.len(),
            r.wf(),
            forall|k: int| 0 <= k < r.blocks@.len() ==> live_in_equation(#[trigger] r.blocks@[k], blocks@[k].instrs@),
    {
        let n = blocks.len();
        let mut gens: Vec<LiveSet> = Vec::new();
        let mut kills: Vec<LiveSet> = Vec::new();
        let mut out = SimpleLiveness { blocks: Vec::new() };
        let mut b: usize = 0;
        while b < n
            invariant
                b <= n,
                n == blocks@.len(),
                gens@.len() == b,
                kills@.len() == b,
                forall|k: int| 0 <= k < b ==> (#[trigger] gens@[k]).wf(),
                summaries_ok(gens@, kills@, blocks@, b as int),
                out.blocks@.len() == b,
                out.wf(),
            decreases n - b,
        {
            let (gen, kill, last) = block_summary(&blocks[b].instrs);
            gens.push(gen);
            kills.push(kill);
            out.blocks.push(BlockLiveness { live_in: LiveSet::new(), live_out: LiveSet::new(), last_use: last });
            b += 1;
        }
        let mut budget: usize = n;
        loop
            invariant
                n == blocks@.len(),
                gens@.len() == n,
                kills@.len() == n,
                forall|k: int| 0 <= k < n ==> (#[trigger] gens@[k]).wf(),
                out.blocks@.len() == n,
                out.wf(),
                summaries_ok(gens@, kills@, blocks@, n as int),
            ensures
                forall|k: int| 0 <= k < n ==> live_in_equation(#[trigger] out.blocks@[k], blocks@[k].instrs@),
            decreases budget,
        {
            let mut changed = false;
            let mut b: usize = n;
            while b > 0
                invariant
                    b <= n,
                    n == blocks@.len(),
                    gens@.len() == n,
                    kills@.len() == n,
                    forall|k: int| 0 <= k < n ==> (#[trigger] gens@[k]).wf(),
                    out.blocks@.len() == n,
                    out.wf(),
                    summaries_ok(gens@, kills@, blocks@, n as int),
                    forall|k: int| b <= k < n ==> live_in_equation(#[trigger] out.blocks@[k], blocks@[k].instrs@),
                decreases b,
            {
                b -= 1;
                // Live out: everything live into a successor.
                let mut live_out = LiveSet::new();
                let mut s: usize = 0;
                while s < n
                    invariant
                        b < n,
                        n == blocks@.len(),
                        out.blocks@.len() == n,
                        out.wf(),
                        live_out.wf(),
                    decreases n - s,
                {
                    let preds = &blocks[s].preds;
                    let mut k: usize = 0;
                    let mut is_succ = false;
                    while k < preds.len()
                        decreases preds@.len() - k,
                    {
                        if preds[k] == b {
                            is_succ = true;
                        }
                        k += 1;
                    }
                    if is_succ {
                        assert(out.blocks@[s as int].wf());
                        insert_all(&mut live_out, &out.blocks[s].live_in.vals);
                    }
                    s += 1;
                }
                // Live in: read before defined, or live out and not defined.
                let mut live_in = LiveSet { vals: gens[b].vals.clone() };
                assert(gens@[b as int].wf());
                let mut k: usize = 0;
                while k < live_out.vals.len()
                    invariant
                        b < n,
                        kills@.len() == n,
                        gens@.len() == n,
                        live_in.wf(),
                        live_out.wf(),
                        k <= live_out.vals@.len(),
                        forall|v: SSAValue| #[trigger] live_in.spec_contains(v) <==> (gens@[b as int].spec_contains(v)
                            || (live_out.vals@.subrange(0, k as int).contains(v) && !kills@[b as int].spec_contains(v))),
                    decreases live_out.vals@.len() - k,
                {
                    let x = live_out.vals[k];
                    proof {
                        assert(live_out.vals@.subrange(0, k as int + 1) =~= live_out.vals@.subrange(0, k as int).push(x));
                        crate::live::lemma_push_contains(live_out.vals@.subrange(0, k as int), x);
                    }
                    if !kills[b].contains(&x) {
                        live_in.insert(x);
                    }
                    k += 1;
                }
                proof {
                    assert(live_out.vals@.subrange(0, k as int) =~= live_out.vals@);
                }
                if live_in.len() != out.blocks[b].live_in.len() || live_out.len() != out.blocks[b].live_out.len() {
                    changed = true;
                }
                let last = out.blocks[b].last_use.clone();
                let ghost o0 = out.blocks@;
                out.blocks.set(b, BlockLiveness { live_in, live_out, last_use: last });
                proof {
                    assert(live_in_equation(out.blocks@[b as int], blocks@[b as int].instrs@));
                    assert forall|k: int| b <= k < n implies live_in_equation(#[trigger] out.blocks@[k], blocks@[k].instrs@) by {
                        if k != b {
                            assert(out.blocks@[k] == o0[k]);
                        }
                    }
                }
            }
            if !changed || budget == 0 {
                break;
            }
            budget -= 1;
        }
        out
    }
}

/// Per-file maximum of two count vectors.
pub open spec fn max_of(a: PerRegFile<i64>, b: PerRegFile<i64>) -> PerRegFile<i64> {
    PerRegFile {
        gpr: if a.gpr > b.gpr { a.gpr } else { b.gpr },
        ugpr: if a.ugpr > b.ugpr { a.ugpr } else { b.ugpr },
        pred: if a.pred > b.pred { a.pred } else { b.pred },
        upred: if a.upred > b.upred { a.upred } else { b.upred },
        carry: if a.carry > b.carry { a.carry } else { b.carry },
        bar: if a.bar > b.bar { a.bar } else { b.bar },
        mem: if a.mem > b.mem { a.mem } else { b.mem },
    }
}

/// The live sets during instruction `ip` on which its pressure peaks:
/// `s1` once its vector defs are live, `s3` once its dying sources are gone
/// and its scalar defs are live.
pub open spec fn peak_sets(s1: LiveSet, s3: LiveSet, before: LiveSet, instr: Instr, bl: BlockLiveness, ip: usize) -> bool {
    let nd = instr.op.dsts@.len() as int;
    &&& s1.wf()
    &&& s3.wf()
    &&& forall|v: SSAValue| #[trigger] s1.spec_contains(v) <==> (before.spec_contains(v) || in_vector_dst(instr, nd, v))
    &&& forall|v: SSAValue| #[trigger] s3.spec_contains(v) <==> ((s1.spec_contains(v) && !(reads(instr, v)
        && !spec_live_after(bl, v, ip))) || in_scalar_dst(instr, nd, v))
}

fn max_counts(a: PerRegFile<i64>, b: PerRegFile<i64>) -> (r: PerRegFile<i64>)
    requires
        crate::live::counts_in_range(a),
        crate::live::counts_in_range(b),
    ensures
        crate::live::counts_in_range(r),
        r == max_of(a, b),
        r.gpr == if a.gpr > b.gpr { a.gpr } else { b.gpr },
        r.ugpr == if a.ugpr > b.ugpr { a.ugpr } else { b.ugpr },
        r.pred == if a.pred > b.pred { a.pred } else { b.pred },
        r.upred == if a.upred > b.upred { a.upred } else { b.upred },
        r.carry == if a.carry > b.carry { a.carry } else { b.carry },
        r.bar == if a.bar > b.bar { a.bar } else { b.bar },
        r.mem == if a.mem > b.mem { a.mem } else { b.mem },
{
    PerRegFile {
        gpr: if a.gpr > b.gpr { a.gpr } else { b.gpr },
        ugpr: if a.ugpr > b.ugpr { a.ugpr } else { b.ugpr },
        pred: if a.pred > b.pred { a.pred } else { b.pred },
        upred: if a.upred > b.upred { a.upred } else { b.upred },
        carry: if a.carry > b.carry { a.carry } else { b.carry },
        bar: if a.bar > b.bar { a.bar } else { b.bar },
        mem: if a.mem > b.mem { a.mem } else { b.mem },
    }
}

impl LiveSet {
    /// Steps the live set forward over instruction `ip` of a block and
    /// returns the peak counts during it.  Vector defs go live before the
    /// sources die; a scalar def goes live after the last source dies; defs
    /// that nothing reads die at once.
    pub fn insert_instr_top_down(&mut self, ip: usize, instr: &Instr, bl: &BlockLiveness) -> (r: PerRegFile<i64>)
        requires
            old(self).wf(),
        ensures
            final(self).wf(),
            crate::live::counts_in_range(r),
            exists|s1: LiveSet, s3: LiveSet| #[trigger] peak_sets(s1, s3, *old(self), *instr, *bl, ip)
                && r == max_of(s1.spec_counts(), s3.spec_counts()),
            forall|v: SSAValue| #[trigger] final(self).spec_contains(v) <==> ((((old(self).spec_contains(v)
                || in_vector_dst(*instr, instr.op.dsts@.len() as int, v)) && !(reads(*instr, v) && !spec_live_after(*bl, v, ip)))
                || in_scalar_dst(*instr, instr.op.dsts@.len() as int, v)) && !(defines_prefix(
                *instr,
                instr.op.dsts@.len() as int,
                0,
                v,
            ) && !spec_live_after(*bl, v, ip))),
    {
        let nd = instr.op.dsts.len();
        // Vector destinations go live before the sources die.
        let mut d: usize = 0;
        while d < nd
            invariant
                nd == instr.op.dsts@.len(),
                d <= nd,
                self.wf(),
                forall|v: SSAValue| #[trigger] self.spec_contains(v) <==> (old(self).spec_contains(v) || in_vector_dst(*instr, d as int, v)),
            decreases nd - d,
        {
            proof {
                assert forall|v: SSAValue| in_vector_dst(*instr, d as int + 1, v) <==> (in_vector_dst(*instr, d as int, v)
                    || (dst_ssa(instr.op.dsts@[d as int]).len() > 1 && dst_ssa(instr.op.dsts@[d as int]).contains(v))) by {
                    if in_vector_dst(*instr, d as int + 1, v) {
                        let d2 = choose|d2: int| 0 <= d2 < d + 1 && d2 < instr.op.dsts@.len() && dst_ssa(#[trigger] instr.op.dsts@[d2]).len() > 1
                            && dst_ssa(instr.op.dsts@[d2]).contains(v);
                    }
                }
            }
            match &instr.op.dsts[d] {
                Dst::SSA(vals) => {
                    if vals.len() > 1 {
                        insert_all(self, vals);
                    }
                },
                _ => {},
            }
            d += 1;
        }
        let ghost a1 = *self;
        let before = self.counts();

        // Sources that are not used again die.
        let ns = instr.op.srcs.len();
        let mut i: usize = 0;
        while i < ns
            invariant
                ns == instr.op.srcs@.len(),
                i <= ns,
                self.wf(),
                forall|v: SSAValue| #[trigger] self.spec_contains(v) <==> (a1.spec_contains(v) && !(reads_src_prefix(*instr, i as int, 0, v)
                    && !spec_live_after(*bl, v, ip))),
            decreases ns - i,
        {
            let vals = &instr.op.srcs[i].ssa;
            let mut j: usize = 0;
            while j < vals.len()
                invariant
                    ns == instr.op.srcs@.len(),
                    i < ns,
                    *vals == instr.op.srcs@[i as int].ssa,
                    j <= vals@.len(),
                    self.wf(),
                    forall|v: SSAValue| #[trigger] self.spec_contains(v) <==> (a1.spec_contains(v) && !(reads_src_prefix(*instr, i as int, j as int, v)
                        && !spec_live_after(*bl, v, ip))),
                decreases vals@.len() - j,
            {
                let x = vals[j];
                proof {
                    assert(vals@.subrange(0, j as int + 1) =~= vals@.subrange(0, j as int).push(x));
                    crate::live::lemma_push_contains(vals@.subrange(0, j as int), x);
                }
                if !bl.is_live_after_ip(&x, ip) {
                    self.remove(&x);
                }
                j += 1;
            }
            proof {
                assert(vals@.subrange(0, vals@.len() as int) =~= vals@);
                assert forall|v: SSAValue| reads_src_prefix(*instr, i as int + 1, 0, v)
                    <==> reads_src_prefix(*instr, i as int, vals@.len() as int, v) by {
                    if reads_src_prefix(*instr, i as int + 1, 0, v) {
                        let i2 = choose|i2: int| 0 <= i2 < i + 1 && i2 < instr.op.srcs@.len() && (#[trigger] instr.op.srcs@[i2]).ssa@.contains(v);
                    }
                }
            }
            i += 1;
        }
        proof {
            assert forall|v: SSAValue| reads_src_prefix(*instr, ns as int, 0, v) <==> exists|k: int|
                0 <= k < instr.op.srcs@.len() && (#[trigger] instr.op.srcs@[k]).ssa@.contains(v) by {}
        }
        match instr.pred {
            Some(p) => {
                if !bl.is_live_after_ip(&p, ip) {
                    self.remove(&p);
                }
            },
            None => {},
        }
        let ghost a2 = *self;
        proof {
            assert forall|v: SSAValue| #[trigger] a2.spec_contains(v) <==> (a1.spec_contains(v) && !(reads(*instr, v)
                && !spec_live_after(*bl, v, ip))) by {}
        }

        // Scalar destinations go live after the last source dies.
        let mut d: usize = 0;
        while d < nd
            invariant
                nd == instr.op.dsts@.len(),
                d <= nd,
                self.wf(),
                forall|v: SSAValue| #[trigger] self.spec_contains(v) <==> (a2.spec_contains(v) || in_scalar_dst(*instr, d as int, v)),
            decreases nd - d,
        {
            proof {
                assert forall|v: SSAValue| in_scalar_dst(*instr, d as int + 1, v) <==> (in_scalar_dst(*instr, d as int, v)
                    || (dst_ssa(instr.op.dsts@[d as int]).len() == 1 && dst_ssa(instr.op.dsts@[d as int])[0] == v)) by {
                    if in_scalar_dst(*instr, d as int + 1, v) {
                        let d2 = choose|d2: int| 0 <= d2 < d + 1 && d2 < instr.op.dsts@.len() && dst_ssa(#[trigger] instr.op.dsts@[d2]).len() == 1
                            && dst_ssa(instr.op.dsts@[d2])[0] == v;
                    }
                }
            }
            match &instr.op.dsts[d] {
                Dst::SSA(vals) => {
                    if vals.len() == 1 {
                        self.insert(vals[0]);
                    }
                },
                _ => {},
            }
            d += 1;
        }
        let after = self.counts();
        let peak = max_counts(before, after);
        let ghost a3 = *self;
        proof {
            assert(peak_sets(a1, a3, *old(self), *instr, *bl, ip));
        }

        // Destinations that nothing reads die at once.
        let mut d: usize = 0;
        while d < nd
            invariant
                nd == instr.op.dsts@.len(),
                d <= nd,
                self.wf(),
                forall|v: SSAValue| #[trigger] self.spec_contains(v) <==> (a3.spec_contains(v) && !(defines_prefix(*instr, d as int, 0, v)
                    && !spec_live_after(*bl, v, ip))),
            decreases nd - d,
        {
            match &instr.op.dsts[d] {
                Dst::SSA(vals) => {
                    let mut j: usize = 0;
                    while j < vals.len()
                        invariant
                            nd == instr.op.dsts@.len(),
                            d < nd,
                            instr.op.dsts@[d as int] == Dst::SSA(*vals),
                            j <= vals@.len(),
                            self.wf(),
                            forall|v: SSAValue| #[trigger] self.spec_contains(v) <==> (a3.spec_contains(v) && !(defines_prefix(*instr, d as int, j as int, v)
                                && !spec_live_after(*bl, v, ip))),
                        decreases vals@.len() - j,
                    {
                        let x = vals[j];
                        proof {
                            assert(vals@.subrange(0, j as int + 1) =~= vals@.subrange(0, j as int).push(x));
                            crate::live::lemma_push_contains(vals@.subrange(0, j as int), x);
                        }
                        if !bl.is_live_after_ip(&x, ip) {
                            self.remove(&x);
                        }
                        j += 1;
                    }
                    proof {
                        assert(vals@.subrange(0, vals@.len() as int) =~= vals@);
                    }
                },
                _ => {
                    proof {
                        assert(dst_ssa(instr.op.dsts@[d as int]).subrange(0, 0) =~= Seq::<SSAValue>::empty());
                    }
                },
            }
            proof {
                assert forall|v: SSAValue| defines_prefix(*instr, d as int + 1, 0, v)
                    <==> defines_prefix(*instr, d as int, dst_ssa(instr.op.dsts@[d as int]).len() as int, v) by {
                    assert(dst_ssa(instr.op.dsts@[d as int]).subrange(0, dst_ssa(instr.op.dsts@[d as int]).len() as int)
                        =~= dst_ssa(instr.op.dsts@[d as int]));
                    if defines_prefix(*instr, d as int + 1, 0, v) {
                        let d2 = choose|d2: int| 0 <= d2 < d + 1 && d2 < instr.op.dsts@.len() && dst_ssa(#[trigger] instr.op.dsts@[d2]).contains(v);
                    }
                }
            }
            d += 1;
        }
        peak
    }
}

} // verus!
