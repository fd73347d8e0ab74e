//! For each instruction of a region, how much the live-value counts change
//! if it is scheduled next while walking the region bottom-up.

use vstd::prelude::*;
use crate::regs::{PerRegFile, RegFile};
use crate::ir::{Dst, Instr, SSAValue, Src, dst_ssa};
use crate::live::count_file;
use crate::live::LiveSet;

verus! {

/// The change in live values from the end of an instruction to points
/// during it, per register file.
#[derive(Clone, Copy, Debug, PartialEq, Eq, Structural)]
pub struct InstrCount {
    /// Change across the whole instruction.
    pub net: PerRegFile<i32>,
    /// At the end of the instruction, where immediately-killed defs are live.
    pub peak1: PerRegFile<i32>,
    /// Just before sources are read, once vector defs are live.
    pub peak2: PerRegFile<i32>,
}

/// The region's instructions that read one SSA value.
#[derive(Clone, Debug)]
pub struct SsaUses {
    pub ssa: SSAValue,
    pub instrs: Vec<usize>,
}

/// Net-live counts of every instruction of a region, and for each value
/// read in the region and not live out of it, the instructions reading it.
pub struct NetLive {
    pub counts: Vec<InstrCount>,
    pub ssa_to_instr: Vec<SsaUses>,
}

/// One less, held at the bottom of the range.
pub fn count_down(c: i32) -> (r: i32)
    ensures
        c > i32::MIN ==> r == c - 1,
        c == i32::MIN ==> r == c,
{
    if c > i32::MIN { c - 1 } else { c }
}

/// One more, held at the top of the range.
pub fn count_up(c: i32) -> (r: i32)
    ensures
        c < i32::MAX ==> r == c + 1,
        c == i32::MAX ==> r == c,
{
    if c < i32::MAX { c + 1 } else { c }
}

/// A count as an `i32`, held at `i32::MAX`.
pub open spec fn cap_i32(c: nat) -> i32 {
    if c > i32::MAX { i32::MAX } else { c as i32 }
}

fn count_to_i32(c: usize) -> (r: i32)
    ensures
        r == cap_i32(c as nat),
{
    if c > i32::MAX as usize { i32::MAX } else { c as i32 }
}

/// One more, held at the top of the range.
pub open spec fn up(c: i32) -> i32 {
    if c < i32::MAX { (c + 1) as i32 } else { c }
}

fn add_to(p: PerRegFile<i32>, f: RegFile, up: bool) -> (r: PerRegFile<i32>)
    ensures
        r == p.spec_set(f, if up { crate::net_live::up(p.spec_get(f)) } else { down(p.spec_get(f)) }),
{
    let v = p.get(f);
    let mut q = p;
    q.set(f, if up { count_up(v) } else { count_down(v) });
    q
}

pub open spec fn has_key(uses: Seq<SsaUses>, v: SSAValue) -> bool {
    exists|k: int| 0 <= k < uses.len() && (#[trigger] uses[k]).ssa == v
}

/// Some source of `instr` reads `v`.
pub open spec fn reads_src(instr: Instr, v: SSAValue) -> bool {
    exists|i: int| 0 <= i < instr.op.srcs@.len() && (#[trigger] instr.op.srcs@[i]).ssa@.contains(v)
}

/// Among the sources before `i`, and the first `s` values of source `i`,
/// some reads `v`.
pub open spec fn reads_src_prefix(instr: Instr, i: int, s: int, v: SSAValue) -> bool {
    (exists|i2: int| 0 <= i2 < i && i2 < instr.op.srcs@.len() && (#[trigger] instr.op.srcs@[i2]).ssa@.contains(v))
        || (0 <= i < instr.op.srcs@.len() && instr.op.srcs@[i].ssa@.subrange(0, s).contains(v))
}

/// `uses` holds one entry for each value that some instruction of
/// `instrs` reads and that is not in `live_out`, listing exactly the
/// instructions that read it.
pub open spec fn records_readers(uses: Seq<SsaUses>, instrs: Seq<Instr>, live_out: Seq<SSAValue>) -> bool {
    &&& forall|v: SSAValue| #[trigger] has_key(uses, v) <==> (!live_out.contains(v)
        && exists|i: int| 0 <= i < instrs.len() && #[trigger] reads_src(instrs[i], v))
    &&& forall|k: int, j: usize| 0 <= k < uses.len() ==> (#[trigger] uses[k].instrs@.contains(j) <==> (j < instrs.len()
        && reads_src(instrs[j as int], uses[k].ssa)))
}

/// The values read by `srcs`, in order.
pub open spec fn flat_srcs(srcs: Seq<Src>) -> Seq<SSAValue>
    decreases srcs.len(),
{
    if srcs.len() == 0 {
        Seq::empty()
    } else {
        flat_srcs(srcs.drop_last()) + srcs.last().ssa@
    }
}

/// The values of `s` that are not in `live_out`, each once, in the order
/// they first occur.
pub open spec fn distinct_new(s: Seq<SSAValue>, live_out: Seq<SSAValue>) -> Seq<SSAValue>
    decreases s.len(),
{
    if s.len() == 0 {
        Seq::empty()
    } else {
        let p = distinct_new(s.drop_last(), live_out);
        if live_out.contains(s.last()) || p.contains(s.last()) { p } else { p.push(s.last()) }
    }
}

/// The counts of `instr` before its defs are accounted for: the values it
/// reads that are not live out become live when it is scheduled.
pub open spec fn initial_count(instr: Instr, live_out: Seq<SSAValue>) -> InstrCount {
    let u = distinct_new(flat_srcs(instr.op.srcs@), live_out);
    let net = PerRegFile {
        gpr: cap_i32(count_file(u, RegFile::GPR)),
        ugpr: cap_i32(count_file(u, RegFile::UGPR)),
        pred: cap_i32(count_file(u, RegFile::Pred)),
        upred: cap_i32(count_file(u, RegFile::UPred)),
        carry: cap_i32(count_file(u, RegFile::Carry)),
        bar: cap_i32(count_file(u, RegFile::Bar)),
        mem: cap_i32(count_file(u, RegFile::Mem)),
    };
    InstrCount {
        net,
        peak1: PerRegFile { gpr: 0, ugpr: 0, pred: 0, upred: 0, carry: 0, bar: 0, mem: 0 },
        peak2: net,
    }
}

/// The values `dsts` define, in order, each with whether its destination
/// is a vector.
pub open spec fn dst_entries(dsts: Seq<Dst>) -> Seq<(SSAValue, bool)>
    decreases dsts.len(),
{
    if dsts.len() == 0 {
        Seq::empty()
    } else {
        let v = dst_ssa(dsts.last());
        dst_entries(dsts.drop_last()) + Seq::new(v.len(), |k: int| (v[k], v.len() > 1))
    }
}

/// `c` after one def: a def that is read later in the region, or live
/// out, dies at the instruction; one that nothing reads is live only
/// around it; a scalar def does not overlap the sources.
pub open spec fn count_def(c: InstrCount, e: (SSAValue, bool), killed: bool) -> InstrCount {
    let f = e.0.file;
    let c1 = if killed {
        InstrCount { net: c.net.spec_set(f, down(c.net.spec_get(f))), ..c }
    } else {
        InstrCount {
            peak1: c.peak1.spec_set(f, up(c.peak1.spec_get(f))),
            peak2: c.peak2.spec_set(f, up(c.peak2.spec_get(f))),
            ..c
        }
    };
    if e.1 { c1 } else { InstrCount { peak2: c1.peak2.spec_set(f, down(c1.peak2.spec_get(f))), ..c1 } }
}

/// `c` after the defs `es`, in order.
pub open spec fn count_defs(c: InstrCount, es: Seq<(SSAValue, bool)>, uses: Seq<SsaUses>, live_out: Seq<SSAValue>) -> InstrCount
    decreases es.len(),
{
    if es.len() == 0 {
        c
    } else {
        count_def(
            count_defs(c, es.drop_last(), uses, live_out),
            es.last(),
            has_key(uses, es.last().0) || live_out.contains(es.last().0),
        )
    }
}

/// The counts of instruction `instr` of a region.
pub open spec fn spec_instr_count(instr: Instr, uses: Seq<SsaUses>, live_out: Seq<SSAValue>) -> InstrCount {
    count_defs(initial_count(instr, live_out), dst_entries(instr.op.dsts@), uses, live_out)
}

/// One less, held at the bottom of the range.
pub open spec fn down(c: i32) -> i32 {
    if c > i32::MIN { (c - 1) as i32 } else { c }
}

/// `c` once a value of file `f` that it reads has become live.
pub open spec fn after_live(c: InstrCount, f: RegFile) -> InstrCount {
    InstrCount {
        net: c.net.spec_set(f, down(c.net.spec_get(f))),
        peak2: c.peak2.spec_set(f, down(c.peak2.spec_get(f))),
        ..c
    }
}

/// Instruction `i` is recorded as reading `v`.
pub open spec fn listed(uses: Seq<SsaUses>, v: SSAValue, i: usize) -> bool {
    exists|k: int| 0 <= k < uses.len() && (#[trigger] uses[k]).ssa == v && uses[k].instrs@.contains(i)
}

impl NetLive {
    pub open spec fn wf(&self, n: int) -> bool {
        &&& self.counts@.len() == n
        &&& self.uses_wf(n)
    }

    /// Every recorded reader is an instruction below `n`, and each value
    /// is recorded once.
    pub open spec fn uses_wf(&self, n: int) -> bool {
        &&& forall|k: int| 0 <= k < self.ssa_to_instr@.len() ==> (#[trigger] self.ssa_to_instr@[k]).instrs@.no_duplicates()
        &&& forall|k: int, j: int|
            0 <= k < self.ssa_to_instr@.len() && 0 <= j < self.ssa_to_instr@[k].instrs@.len()
                ==> #[trigger] self.ssa_to_instr@[k].instrs@[j] < n
        &&& forall|a: int, b: int|
            0 <= a < self.ssa_to_instr@.len() && 0 <= b < self.ssa_to_instr@.len() && a != b
                ==> #[trigger] self.ssa_to_instr@[a].ssa != #[trigger] self.ssa_to_instr@[b].ssa
    }

    fn find(&self, ssa: SSAValue) -> (r: Option<usize>)
        ensures
            r matches Some(k) ==> k < self.ssa_to_instr@.len() && self.ssa_to_instr@[k as int].ssa == ssa,
            r is None ==> !has_key(self.ssa_to_instr@, ssa),
    {
        let mut k: usize = 0;
        while k < self.ssa_to_instr.len()
            invariant
                k <= self.ssa_to_instr@.len(),
                forall|j: int| 0 <= j < k ==> self.ssa_to_instr@[j].ssa != ssa,
            decreases self.ssa_to_instr@.len() - k,
        {
            if self.ssa_to_instr[k].ssa == ssa {
                return Some(k);
            }
            k += 1;
        }
        None
    }

    /// Records that instruction `idx` reads `ssa`.
    fn add_use(&mut self, ssa: SSAValue, idx: usize, n: usize)
        requires
            old(self).uses_wf(n as int),
            idx < n,
            forall|k: int| 0 <= k < old(self).ssa_to_instr@.len() && (#[trigger] old(self).ssa_to_instr@[k]).ssa == ssa
                ==> !old(self).ssa_to_instr@[k].instrs@.contains(idx),
        ensures
            final(self).uses_wf(n as int),
            final(self).counts@ == old(self).counts@,
            has_key(final(self).ssa_to_instr@, ssa),
            forall|v: SSAValue| has_key(old(self).ssa_to_instr@, v) ==> has_key(final(self).ssa_to_instr@, v),
            forall|v: SSAValue| has_key(final(self).ssa_to_instr@, v) ==> has_key(old(self).ssa_to_instr@, v) || v == ssa,
            final(self).ssa_to_instr@.len() == old(self).ssa_to_instr@.len() + if has_key(old(self).ssa_to_instr@, ssa) { 0int } else { 1int },
            forall|k: int| 0 <= k < old(self).ssa_to_instr@.len() ==> (#[trigger] final(self).ssa_to_instr@[k]).ssa == old(self).ssa_to_instr@[k].ssa
                && final(self).ssa_to_instr@[k].instrs@ == if old(self).ssa_to_instr@[k].ssa == ssa {
                    old(self).ssa_to_instr@[k].instrs@.push(idx)
                } else {
                    old(self).ssa_to_instr@[k].instrs@
                },
            !has_key(old(self).ssa_to_instr@, ssa) ==> final(self).ssa_to_instr@.last().ssa == ssa
                && final(self).ssa_to_instr@.last().instrs@ == seq![idx],
    {
        match self.find(ssa) {
            Some(k) => {
                let ghost s0 = self.ssa_to_instr@;
                self.ssa_to_instr[k].instrs.push(idx);
                proof {
                    assert forall|v: SSAValue| has_key(s0, v) implies has_key(self.ssa_to_instr@, v) by {
                        let j = choose|j: int| 0 <= j < s0.len() && (#[trigger] s0[j]).ssa == v;
                        assert(self.ssa_to_instr@[j].ssa == v);
                    }
                    assert(self.ssa_to_instr@[k as int].ssa == ssa);
                    assert forall|v: SSAValue| has_key(self.ssa_to_instr@, v) implies has_key(s0, v) || v == ssa by {
                        let j = choose|j: int| 0 <= j < self.ssa_to_instr@.len() && (#[trigger] self.ssa_to_instr@[j]).ssa == v;
                        assert(s0[j].ssa == v);
                    }
                }
            },
            None => {
                let mut instrs = Vec::new();
                instrs.push(idx);
                let ghost s0 = self.ssa_to_instr@;
                self.ssa_to_instr.push(SsaUses { ssa, instrs });
                proof {
                    assert forall|v: SSAValue| has_key(s0, v) implies has_key(self.ssa_to_instr@, v) by {
                        let j = choose|j: int| 0 <= j < s0.len() && (#[trigger] s0[j]).ssa == v;
                        assert(self.ssa_to_instr@[j].ssa == v);
                    }
                    assert(self.ssa_to_instr@[s0.len() as int].ssa == ssa);
                    assert forall|v: SSAValue| has_key(self.ssa_to_instr@, v) implies has_key(s0, v) || v == ssa by {
                        let j = choose|j: int| 0 <= j < self.ssa_to_instr@.len() && (#[trigger] self.ssa_to_instr@[j]).ssa == v;
                        if j < s0.len() {
                            assert(s0[j].ssa == v);
                        }
                    }
                }
            },
        }
    }

    /// Builds the counts of a region whose values live out of it are
    /// `live_out`.  An instruction's sources that are not live out become
    /// live when it is scheduled; its defs that are read later (or live
    /// out) die, while a def that nothing reads is live only around the
    /// instruction; a scalar def does not overlap the sources.
    pub fn new(instrs: &Vec<Instr>, live_out: &LiveSet) -> (r: NetLive)
        requires
            live_out.wf(),
        ensures
            r.wf(instrs@.len() as int),
            records_readers(r.ssa_to_instr@, instrs@, live_out.vals@),
            forall|i: int| 0 <= i < instrs@.len() ==> #[trigger] r.counts@[i] == spec_instr_count(instrs@[i], r.ssa_to_instr@, live_out.vals@),
    {
        let n = instrs.len();
        let mut nl = NetLive { counts: Vec::new(), ssa_to_instr: Vec::new() };
        let mut use_set = LiveSet::new();
        let mut idx: usize = 0;
        while idx < n
            invariant
                n == instrs@.len(),
                idx <= n,
                nl.counts@.len() == idx,
                nl.uses_wf(idx as int),
                use_set.wf(),
                forall|v: SSAValue| #[trigger] has_key(nl.ssa_to_instr@, v) <==> (!live_out.vals@.contains(v)
                    && exists|i2: int| 0 <= i2 < idx && #[trigger] reads_src(instrs@[i2], v)),
                forall|k: int, j: usize| 0 <= k < nl.ssa_to_instr@.len() ==> (#[trigger] nl.ssa_to_instr@[k].instrs@.contains(j)
                    <==> (j < idx && reads_src(instrs@[j as int], nl.ssa_to_instr@[k].ssa))),
                forall|i2: int| 0 <= i2 < idx ==> #[trigger] nl.counts@[i2] == initial_count(instrs@[i2], live_out.vals@),
            decreases n - idx,
        {
            use_set.clear();
            proof {
                assert(instrs@[idx as int].op.srcs@.subrange(0, 0) =~= Seq::<Src>::empty());
            }
            let instr = &instrs[idx];
            let mut i: usize = 0;
            while i < instr.op.srcs.len()
                invariant
                    idx < n,
                    n == instrs@.len(),
                    *instr == instrs@[idx as int],
                    i <= instr.op.srcs@.len(),
                    nl.counts@.len() == idx,
                    nl.uses_wf(idx as int + 1),
                    use_set.wf(),
                    forall|v: SSAValue| #[trigger] use_set.spec_contains(v) <==> (!live_out.vals@.contains(v)
                        && reads_src_prefix(*instr, i as int, 0, v)),
                    use_set.vals@ == distinct_new(flat_srcs(instr.op.srcs@.subrange(0, i as int)), live_out.vals@),
                    forall|i2: int| 0 <= i2 < idx ==> #[trigger] nl.counts@[i2] == initial_count(instrs@[i2], live_out.vals@),
                    forall|v: SSAValue| #[trigger] has_key(nl.ssa_to_instr@, v) <==> (!live_out.vals@.contains(v)
                        && ((exists|i2: int| 0 <= i2 < idx && #[trigger] reads_src(instrs@[i2], v))
                            || reads_src_prefix(*instr, i as int, 0, v))),
                    forall|k: int, j: usize| 0 <= k < nl.ssa_to_instr@.len() ==> (#[trigger] nl.ssa_to_instr@[k].instrs@.contains(j)
                        <==> ((j < idx && reads_src(instrs@[j as int], nl.ssa_to_instr@[k].ssa))
                            || (j == idx && use_set.spec_contains(nl.ssa_to_instr@[k].ssa)))),
                decreases instr.op.srcs@.len() - i,
            {
                let vals = &instr.op.srcs[i].ssa;
                let mut s: usize = 0;
                while s < vals.len()
                    invariant
                        idx < n,
                        n == instrs@.len(),
                        *instr == instrs@[idx as int],
                        i < instr.op.srcs@.len(),
                        *vals == instr.op.srcs@[i as int].ssa,
                        s <= vals@.len(),
                        nl.counts@.len() == idx,
                        nl.uses_wf(idx as int + 1),
                        use_set.wf(),
                        forall|v: SSAValue| #[trigger] use_set.spec_contains(v) <==> (!live_out.vals@.contains(v)
                            && reads_src_prefix(*instr, i as int, s as int, v)),
                        use_set.vals@ == distinct_new(flat_srcs(instr.op.srcs@.subrange(0, i as int)) + vals@.subrange(0, s as int), live_out.vals@),
                        forall|i2: int| 0 <= i2 < idx ==> #[trigger] nl.counts@[i2] == initial_count(instrs@[i2], live_out.vals@),
                        forall|v: SSAValue| #[trigger] has_key(nl.ssa_to_instr@, v) <==> (!live_out.vals@.contains(v)
                            && ((exists|i2: int| 0 <= i2 < idx && #[trigger] reads_src(instrs@[i2], v))
                                || reads_src_prefix(*instr, i as int, s as int, v))),
                        forall|k: int, j: usize| 0 <= k < nl.ssa_to_instr@.len() ==> (#[trigger] nl.ssa_to_instr@[k].instrs@.contains(j)
                            <==> ((j < idx && reads_src(instrs@[j as int], nl.ssa_to_instr@[k].ssa))
                                || (j == idx && use_set.spec_contains(nl.ssa_to_instr@[k].ssa)))),
                    decreases vals@.len() - s,
                {
                    let ssa = vals[s];
                    let ghost uses0 = nl.ssa_to_instr@;
                    let ghost set0 = use_set;
                    proof {
                        assert forall|v: SSAValue| reads_src_prefix(*instr, i as int, s as int + 1, v)
                            <==> (reads_src_prefix(*instr, i as int, s as int, v) || v == ssa) by {
                            assert(vals@.subrange(0, s as int + 1) =~= vals@.subrange(0, s as int).push(ssa));
                            crate::live::lemma_push_contains(vals@.subrange(0, s as int), ssa);
                        }
                    }
                    proof {
                        let t = flat_srcs(instr.op.srcs@.subrange(0, i as int)) + vals@.subrange(0, s as int);
                        assert(t.push(ssa) =~= flat_srcs(instr.op.srcs@.subrange(0, i as int)) + vals@.subrange(0, s as int + 1));
                        assert(t.push(ssa).drop_last() =~= t);
                    }
                    if !live_out.contains(&ssa) {
                        if use_set.insert(ssa) {
                            proof {
                                assert forall|k: int| 0 <= k < uses0.len() && (#[trigger] uses0[k]).ssa == ssa
                                    implies !uses0[k].instrs@.contains(idx) by {}
                            }
                            nl.add_use(ssa, idx, idx + 1);
                            proof {
                                let uses1 = nl.ssa_to_instr@;
                                assert forall|k: int, j: usize| 0 <= k < uses1.len() implies (#[trigger] uses1[k].instrs@.contains(j)
                                    <==> ((j < idx && reads_src(instrs@[j as int], uses1[k].ssa))
                                        || (j == idx && use_set.spec_contains(uses1[k].ssa)))) by {
                                    if k < uses0.len() {
                                        if uses0[k].ssa == ssa {
                                            assert(uses1[k].instrs@ == uses0[k].instrs@.push(idx));
                                            if uses1[k].instrs@.contains(j) && j != idx {
                                                let q = choose|q: int| 0 <= q < uses1[k].instrs@.len() && uses1[k].instrs@[q] == j;
                                                assert(uses0[k].instrs@[q] == j);
                                            }
                                            if uses0[k].instrs@.contains(j) {
                                                let q = choose|q: int| 0 <= q < uses0[k].instrs@.len() && uses0[k].instrs@[q] == j;
                                                assert(uses1[k].instrs@[q] == j);
                                            }
                                            assert(uses1[k].instrs@[uses0[k].instrs@.len() as int] == idx);
                                        }
                                    } else {
                                        assert(uses1[k].instrs@ == seq![idx]);
                                        if uses1[k].instrs@.contains(j) {
                                            assert(uses1[k].instrs@[0] == idx);
                                        }
                                        assert(uses1[k].instrs@[0] == idx);
                                    }
                                }
                            }
                        }
                    }
                    s += 1;
                }
                proof {
                    assert(vals@.subrange(0, vals@.len() as int) =~= vals@);
                    assert(instr.op.srcs@.subrange(0, i as int + 1).drop_last() =~= instr.op.srcs@.subrange(0, i as int));
                    assert(flat_srcs(instr.op.srcs@.subrange(0, i as int + 1)) =~= flat_srcs(instr.op.srcs@.subrange(0, i as int)) + vals@);
                    assert(flat_srcs(instr.op.srcs@.subrange(0, i as int)) + vals@.subrange(0, vals@.len() as int)
                        =~= flat_srcs(instr.op.srcs@.subrange(0, i as int + 1)));
                    assert forall|v: SSAValue| reads_src_prefix(*instr, i as int + 1, 0, v)
                        <==> reads_src_prefix(*instr, i as int, vals@.len() as int, v) by {
                        assert(vals@.subrange(0, vals@.len() as int) =~= vals@);
                        if reads_src_prefix(*instr, i as int + 1, 0, v) {
                            let i2 = choose|i2: int| 0 <= i2 < i + 1 && i2 < instr.op.srcs@.len() && (#[trigger] instr.op.srcs@[i2]).ssa@.contains(v);
                            if i2 == i {
                            }
                        }
                    }
                }
                i += 1;
            }
            proof {
                assert forall|v: SSAValue| reads_src_prefix(*instr, i as int, 0, v) <==> #[trigger] reads_src(instrs@[idx as int], v) by {}
            }
            let net = PerRegFile {
                gpr: count_to_i32(use_set.count(RegFile::GPR)),
                ugpr: count_to_i32(use_set.count(RegFile::UGPR)),
                pred: count_to_i32(use_set.count(RegFile::Pred)),
                upred: count_to_i32(use_set.count(RegFile::UPred)),
                carry: count_to_i32(use_set.count(RegFile::Carry)),
                bar: count_to_i32(use_set.count(RegFile::Bar)),
                mem: count_to_i32(use_set.count(RegFile::Mem)),
            };
            proof {
                assert(instr.op.srcs@.subrange(0, i as int) =~= instr.op.srcs@);
            }
            nl.counts.push(InstrCount {
                net,
                peak1: PerRegFile { gpr: 0, ugpr: 0, pred: 0, upred: 0, carry: 0, bar: 0, mem: 0 },
                peak2: net,
            });
            proof {
                assert forall|v: SSAValue| #[trigger] has_key(nl.ssa_to_instr@, v) <==> (!live_out.vals@.contains(v)
                    && exists|i2: int| 0 <= i2 < idx + 1 && #[trigger] reads_src(instrs@[i2], v)) by {
                    if reads_src_prefix(*instr, i as int, 0, v) {
                        assert(reads_src(instrs@[idx as int], v));
                    }
                    if !live_out.vals@.contains(v) && exists|i2: int| 0 <= i2 < idx + 1 && #[trigger] reads_src(instrs@[i2], v) {
                        let i2 = choose|i2: int| 0 <= i2 < idx + 1 && #[trigger] reads_src(instrs@[i2], v);
                        if i2 < idx {
                        } else {
                            assert(reads_src(instrs@[idx as int], v));
                        }
                    }
                }
                assert forall|k: int, j: usize| 0 <= k < nl.ssa_to_instr@.len() implies (#[trigger] nl.ssa_to_instr@[k].instrs@.contains(j)
                    <==> (j < idx + 1 && reads_src(instrs@[j as int], nl.ssa_to_instr@[k].ssa))) by {
                    let v = nl.ssa_to_instr@[k].ssa;
                    assert(has_key(nl.ssa_to_instr@, v));
                }
                assert(nl.counts@[idx as int] == initial_count(instrs@[idx as int], live_out.vals@));
            }
            idx += 1;
        }
        let ghost recorded = nl.ssa_to_instr@;

        let mut idx: usize = 0;
        while idx < n
            invariant
                n == instrs@.len(),
                idx <= n,
                nl.wf(n as int),
                nl.ssa_to_instr@ == recorded,
                forall|i2: int| 0 <= i2 < idx ==> #[trigger] nl.counts@[i2] == spec_instr_count(instrs@[i2], recorded, live_out.vals@),
                forall|i2: int| idx <= i2 < n ==> #[trigger] nl.counts@[i2] == initial_count(instrs@[i2], live_out.vals@),
            decreases n - idx,
        {
            let instr = &instrs[idx];
            let mut count = nl.counts[idx];
            let ghost init = count;
            proof {
                assert(instr.op.dsts@.subrange(0, 0) =~= Seq::<Dst>::empty());
            }
            let mut d: usize = 0;
            while d < instr.op.dsts.len()
                invariant
                    idx < n,
                    n == instrs@.len(),
                    *instr == instrs@[idx as int],
                    d <= instr.op.dsts@.len(),
                    nl.wf(n as int),
                    nl.ssa_to_instr@ == recorded,
                    count == count_defs(init, dst_entries(instr.op.dsts@.subrange(0, d as int)), recorded, live_out.vals@),
                decreases instr.op.dsts@.len() - d,
            {
                proof {
                    assert(instr.op.dsts@.subrange(0, d as int + 1).drop_last() =~= instr.op.dsts@.subrange(0, d as int));
                }
                match &instr.op.dsts[d] {
                    Dst::SSA(vals) => {
                        let is_vector = vals.len() > 1;
                        let ghost es0 = dst_entries(instr.op.dsts@.subrange(0, d as int));
                        proof {
                            assert(es0 + Seq::new(0, |k: int| (vals@[k], vals@.len() > 1)) =~= es0);
                        }
                        let mut s: usize = 0;
                        while s < vals.len()
                            invariant
                                idx < n,
                                n == instrs@.len(),
                                nl.wf(n as int),
                                nl.ssa_to_instr@ == recorded,
                                s <= vals@.len(),
                                is_vector == (vals@.len() > 1),
                                count == count_defs(init, es0 + Seq::new(s as nat, |k: int| (vals@[k], vals@.len() > 1)), recorded, live_out.vals@),
                            decreases vals@.len() - s,
                        {
                            let ssa = vals[s];
                            let f = ssa.file();
                            proof {
                                let es = es0 + Seq::new(s as nat, |k: int| (vals@[k], vals@.len() > 1));
                                let es2 = es0 + Seq::new((s + 1) as nat, |k: int| (vals@[k], vals@.len() > 1));
                                assert(es2.drop_last() =~= es);
                                assert(es2.last() == (ssa, is_vector));
                            }
                            if nl.find(ssa).is_some() || live_out.contains(&ssa) {
                                count.net = add_to(count.net, f, false);
                            } else {
                                count.peak1 = add_to(count.peak1, f, true);
                                count.peak2 = add_to(count.peak2, f, true);
                            }
                            if !is_vector {
                                count.peak2 = add_to(count.peak2, f, false);
                            }
                            s += 1;
                        }
                        proof {
                            assert(es0 + Seq::new(vals@.len(), |k: int| (vals@[k], vals@.len() > 1))
                                =~= dst_entries(instr.op.dsts@.subrange(0, d as int + 1)));
                        }
                    },
                    _ => {
                        proof {
                            assert(dst_entries(instr.op.dsts@.subrange(0, d as int + 1)) =~= dst_entries(instr.op.dsts@.subrange(0, d as int)));
                        }
                    },
                }
                d += 1;
            }
            proof {
                assert(instr.op.dsts@.subrange(0, d as int) =~= instr.op.dsts@);
            }
            nl.counts.set(idx, count);
            idx += 1;
        }
        proof {
            assert forall|k: int, j: usize| 0 <= k < nl.ssa_to_instr@.len() implies (#[trigger] nl.ssa_to_instr@[k].instrs@.contains(j)
                <==> (j < instrs@.len() && reads_src(instrs@[j as int], nl.ssa_to_instr@[k].ssa))) by {}
        }
        nl
    }

    /// Called when `ssa` becomes live while walking bottom-up: every
    /// instruction that reads it no longer makes it live, and it is no
    /// longer tracked.  Returns whether `ssa` was tracked.
    pub fn remove(&mut self, ssa: SSAValue) -> (r: bool)
        requires
            old(self).wf(old(self).counts@.len() as int),
        ensures
            final(self).wf(old(self).counts@.len() as int),
            r == has_key(old(self).ssa_to_instr@, ssa),
            !has_key(final(self).ssa_to_instr@, ssa),
            !r ==> final(self).ssa_to_instr@ == old(self).ssa_to_instr@,
            r ==> exists|k: int| 0 <= k < old(self).ssa_to_instr@.len() && (#[trigger] old(self).ssa_to_instr@[k]).ssa == ssa
                && final(self).ssa_to_instr@ == old(self).ssa_to_instr@.remove(k),
            forall|i: int| 0 <= i < final(self).counts@.len() ==> #[trigger] final(self).counts@[i] == if listed(
                old(self).ssa_to_instr@,
                ssa,
                i as usize,
            ) {
                after_live(old(self).counts@[i], ssa.file)
            } else {
                old(self).counts@[i]
            },
    {
        let n = self.counts.len();
        match self.find(ssa) {
            Some(k) => {
                let f = ssa.file();
                let m = self.ssa_to_instr[k].instrs.len();
                let ghost list = self.ssa_to_instr@[k as int].instrs@;
                let mut j: usize = 0;
                while j < m
                    invariant
                        n == self.counts@.len(),
                        n == old(self).counts@.len(),
                        k < self.ssa_to_instr@.len(),
                        self.ssa_to_instr@ == old(self).ssa_to_instr@,
                        self.ssa_to_instr@[k as int].ssa == ssa,
                        list == self.ssa_to_instr@[k as int].instrs@,
                        m == list.len(),
                        j <= m,
                        self.wf(n as int),
                        forall|i: int| 0 <= i < n ==> #[trigger] self.counts@[i] == if list.subrange(0, j as int).contains(i as usize) {
                            after_live(old(self).counts@[i], f)
                        } else {
                            old(self).counts@[i]
                        },
                    decreases m - j,
                {
                    let i = self.ssa_to_instr[k].instrs[j];
                    let mut c = self.counts[i];
                    c.net = add_to(c.net, f, false);
                    c.peak2 = add_to(c.peak2, f, false);
                    proof {
                        assert(self.ssa_to_instr@[k as int].instrs@.no_duplicates());
                        assert(!list.subrange(0, j as int).contains(i)) by {
                            if list.subrange(0, j as int).contains(i) {
                                let q = choose|q: int| 0 <= q < j && list.subrange(0, j as int)[q] == i;
                                assert(list[q] == list[j as int]);
                            }
                        }
                        assert(list.subrange(0, j as int + 1) =~= list.subrange(0, j as int).push(i));
                        crate::live::lemma_push_contains_usize(list.subrange(0, j as int), i);
                    }
                    self.counts.set(i, c);
                    j += 1;
                }
                let ghost s0 = self.ssa_to_instr@;
                self.ssa_to_instr.remove(k);
                proof {
                    assert(list.subrange(0, m as int) =~= list);
                    assert forall|i: int| 0 <= i < n implies #[trigger] self.counts@[i] == if listed(old(self).ssa_to_instr@, ssa, i as usize) {
                        after_live(old(self).counts@[i], f)
                    } else {
                        old(self).counts@[i]
                    } by {
                        if listed(old(self).ssa_to_instr@, ssa, i as usize) {
                            let k2 = choose|k2: int| 0 <= k2 < s0.len() && (#[trigger] s0[k2]).ssa == ssa && s0[k2].instrs@.contains(i as usize);
                            assert(k2 == k);
                        }
                    }
                    assert forall|a: int| 0 <= a < self.ssa_to_instr@.len() implies #[trigger] self.ssa_to_instr@[a]
                        == (if a < k { s0[a] } else { s0[a + 1] }) by {}
                    assert forall|a: int, b: int|
                        0 <= a < self.ssa_to_instr@.len() && 0 <= b < self.ssa_to_instr@.len() && a != b
                            implies #[trigger] self.ssa_to_instr@[a].ssa != #[trigger] self.ssa_to_instr@[b].ssa by {
                        let sa = if a < k { a } else { a + 1 };
                        let sb = if b < k { b } else { b + 1 };
                        assert(self.ssa_to_instr@[a] == s0[sa] && self.ssa_to_instr@[b] == s0[sb]);
                    }
                    assert forall|kk: int, jj: int|
                        0 <= kk < self.ssa_to_instr@.len() && 0 <= jj < self.ssa_to_instr@[kk].instrs@.len()
                            implies #[trigger] self.ssa_to_instr@[kk].instrs@[jj] < n by {
                        let sk = if kk < k { kk } else { kk + 1 };
                        assert(self.ssa_to_instr@[kk] == s0[sk]);
                    }
                    assert forall|kk: int| 0 <= kk < self.ssa_to_instr@.len() implies (#[trigger] self.ssa_to_instr@[kk]).instrs@.no_duplicates() by {
                        let sk = if kk < k { kk } else { kk + 1 };
                        assert(self.ssa_to_instr@[kk] == s0[sk]);
                    }
                    if has_key(self.ssa_to_instr@, ssa) {
                        let a = choose|a: int| 0 <= a < self.ssa_to_instr@.len() && (#[trigger] self.ssa_to_instr@[a]).ssa == ssa;
                        let sa = if a < k { a } else { a + 1 };
                        assert(s0[sa].ssa == ssa && s0[k as int].ssa == ssa);
                    }
                }
                true
            },
            None => {
                proof {
                    assert forall|i: int| 0 <= i < n implies !#[trigger] listed(old(self).ssa_to_instr@, ssa, i as usize) by {
                        if listed(old(self).ssa_to_instr@, ssa, i as usize) {
                            let k2 = choose|k2: int| 0 <= k2 < self.ssa_to_instr@.len() && (#[trigger] self.ssa_to_instr@[k2]).ssa == ssa
                                && self.ssa_to_instr@[k2].instrs@.contains(i as usize);
                        }
                    }
                }
                false
            },
        }
    }
}

} // verus!
