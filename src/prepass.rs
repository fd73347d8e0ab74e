//! The schedule-mode driver: splits every block into schedule units, then
//! schedules each reorderable unit under the tightest register budget that
//! works.

use vstd::prelude::*;
use crate::regs::{PerRegFile, lemma_cliff_bounds, next_occupancy_cliff, occupancy_cliff};
use crate::ir::{Instr, SSAValue};
use crate::live::LiveSet;
use crate::liveness::{BasicBlock, SimpleLiveness};
use crate::graph::{
    SideEffect, ShaderModel, guards, is_last_def, is_permutation, latencies_defined, next_memory, precedes,
    side_effect_type, spec_side_effect, uses,
};
use crate::score::{SW_RESERVED_GPRS, SW_RESERVED_GPRS_SPILL, TARGET_FREE, ScheduleThresholds, calc_used_gprs};
use crate::sched::{InstructionOrder, respects_dependencies, sched_buffer};

verus! {

/// The register budget of one scheduling attempt.
#[derive(Clone, Copy, Debug, PartialEq, Eq, Structural)]
pub enum ScheduleType {
    /// Stay within this many GPRs.
    RegLimit(u8),
    /// Allow spilling, but never beyond the unit's original peak.
    Spill,
}

pub open spec fn spec_cliff_with_reserved(gprs: int, reserved: int) -> int {
    occupancy_cliff(gprs + reserved) - reserved
}

/// The occupancy cliff for `gprs` registers when `reserved` more are taken
/// by the system.
pub fn next_occupancy_cliff_with_reserved(gprs: i32, reserved: i32) -> (r: i32)
    requires
        0 <= reserved,
        0 <= gprs + reserved <= 65536,
    ensures
        r == spec_cliff_with_reserved(gprs as int, reserved as int),
        r >= gprs,
{
    proof {
        lemma_cliff_bounds(gprs + reserved);
    }
    let c = next_occupancy_cliff((gprs + reserved) as u32);
    c as i32 - reserved
}

/// The `k`-th budget tried: `start`, then the occupancy cliff just above
/// each previous one.
pub open spec fn nth_cliff(start: int, reserved: int, k: nat) -> int
    decreases k,
{
    if k == 0 {
        start
    } else {
        spec_cliff_with_reserved(nth_cliff(start, reserved, (k - 1) as nat) + 1, reserved)
    }
}

/// Register limits at the first `m` budgets tried.
pub open spec fn cliff_limits(start: int, reserved: int, m: nat) -> Seq<ScheduleType> {
    Seq::new(m, |k: int| ScheduleType::RegLimit(nth_cliff(start, reserved, k as nat) as u8))
}

/// The budgets that `get_schedule_types` lists: the cliffs from `start`
/// on that are below `max_gpr`, up to and including the first that
/// reaches `max_target`; when none reaches it, the cliffs below `max_gpr`,
/// then `max_gpr` less the software reservation, then spilling if
/// `max_target` is above `max_gpr`.
pub open spec fn is_schedule_type_list(
    r: Seq<ScheduleType>,
    start: int,
    reserved: int,
    max_gpr: int,
    max_target: int,
) -> bool {
    exists|m: nat| {
        &&& #[trigger] cliff_limits(start, reserved, m).len() == m
        &&& forall|k: nat| k < m ==> #[trigger] nth_cliff(start, reserved, k) < max_gpr
        &&& forall|k: nat| k + 1 < m ==> #[trigger] nth_cliff(start, reserved, k) < max_target
        &&& {
            ||| (m > 0 && nth_cliff(start, reserved, (m - 1) as nat) >= max_target && r == cliff_limits(start, reserved, m))
            ||| (nth_cliff(start, reserved, m) >= max_gpr && (m > 0 ==> nth_cliff(start, reserved, (m - 1) as nat) < max_target)
                && r == cliff_limits(start, reserved, m) + seq![ScheduleType::RegLimit((max_gpr - 2) as u8)]
                + if max_target > max_gpr { seq![ScheduleType::Spill] } else { Seq::<ScheduleType>::empty() })
        }
    }
}

/// The budgets to try, from the most occupancy-friendly up: a register
/// limit at each occupancy cliff from `min_gpr_target` on, stopping after
/// the first that covers `max_gpr_target`, capped by `max_regs[GPR]` less
/// the software reservation; then spilling, if the original schedule
/// already needed more than `max_regs[GPR]`.
pub fn get_schedule_types(
    max_regs: PerRegFile<i32>,
    min_gpr_target: i32,
    max_gpr_target: i32,
    reserved_gprs: i32,
) -> (r: Vec<ScheduleType>)
    requires
        0 <= min_gpr_target,
        0 <= reserved_gprs,
        min_gpr_target + reserved_gprs <= 65536,
        max_regs.gpr + reserved_gprs <= 65536,
        2 <= max_regs.gpr <= 256,
    ensures
        r@.len() >= 1,
        is_schedule_type_list(
            r@,
            spec_cliff_with_reserved(min_gpr_target as int, reserved_gprs as int),
            reserved_gprs as int,
            max_regs.gpr as int,
            max_gpr_target as int,
        ),
{
    let mut out: Vec<ScheduleType> = Vec::new();
    let mut gpr_target = next_occupancy_cliff_with_reserved(min_gpr_target, reserved_gprs);
    let ghost start = gpr_target as int;
    let ghost mut m: nat = 0;
    while gpr_target < max_regs.gpr
        invariant
            0 <= min_gpr_target <= gpr_target,
            0 <= reserved_gprs,
            max_regs.gpr + reserved_gprs <= 65536,
            2 <= max_regs.gpr <= 256,
            start == spec_cliff_with_reserved(min_gpr_target as int, reserved_gprs as int),
            gpr_target == nth_cliff(start, reserved_gprs as int, m),
            out@ == cliff_limits(start, reserved_gprs as int, m),
            forall|k: nat| k < m ==> #[trigger] nth_cliff(start, reserved_gprs as int, k) < max_regs.gpr,
            forall|k: nat| k < m ==> #[trigger] nth_cliff(start, reserved_gprs as int, k) < max_gpr_target,
        decreases if gpr_target < max_regs.gpr { max_regs.gpr - gpr_target } else { 0 },
    {
        out.push(ScheduleType::RegLimit(gpr_target as u8));
        proof {
            assert(out@ =~= cliff_limits(start, reserved_gprs as int, m + 1));
        }

        // Only one entry at or above the original schedule's need (it can
        // be above when more registers do not change occupancy).
        if gpr_target >= max_gpr_target {
            proof {
                let mm: nat = m + 1;
                assert(nth_cliff(start, reserved_gprs as int, (mm - 1) as nat) >= max_gpr_target);
                assert(cliff_limits(start, reserved_gprs as int, mm).len() == mm);
                assert(forall|k: nat| k < mm ==> #[trigger] nth_cliff(start, reserved_gprs as int, k) < max_regs.gpr);
                assert(out@ == cliff_limits(start, reserved_gprs as int, mm));
            }
            return out;
        }
        gpr_target = next_occupancy_cliff_with_reserved(gpr_target + 1, reserved_gprs);
        proof {
            m = m + 1;
        }
    }
    out.push(ScheduleType::RegLimit((max_regs.gpr - SW_RESERVED_GPRS) as u8));

    // Only allow spilling if the original schedule spilled.
    if max_gpr_target > max_regs.gpr {
        out.push(ScheduleType::Spill);
    }
    proof {
        let tail = if max_gpr_target > max_regs.gpr { seq![ScheduleType::Spill] } else { Seq::<ScheduleType>::empty() };
        assert(out@ =~= cliff_limits(start, reserved_gprs as int, m) + seq![ScheduleType::RegLimit((max_regs.gpr - 2) as u8)] + tail);
        if m > 0 {
            assert(nth_cliff(start, reserved_gprs as int, (m - 1) as nat) < max_gpr_target);
        }
        assert(cliff_limits(start, reserved_gprs as int, m).len() == m);
    }
    out
}

impl ScheduleType {
    pub open spec fn spec_thresholds(self, max_regs: PerRegFile<i32>, peak_gpr_count: i64) -> ScheduleThresholds {
        match self {
            ScheduleType::RegLimit(g) => ScheduleThresholds {
                heuristic_threshold: (g - TARGET_FREE) as i64,
                quit_threshold: g as i64,
            },
            ScheduleType::Spill => ScheduleThresholds {
                heuristic_threshold: (max_regs.gpr - SW_RESERVED_GPRS_SPILL - TARGET_FREE) as i64,
                quit_threshold: peak_gpr_count,
            },
        }
    }

    /// A register limit starts scheduling for pressure `TARGET_FREE`
    /// registers below the limit and gives up above it; spilling starts
    /// scheduling for pressure below the spill headroom and gives up above
    /// the unit's original peak.
    pub fn thresholds(&self, max_regs: PerRegFile<i32>, schedule_unit: &ScheduleUnit) -> (r: ScheduleThresholds)
        ensures
            r == self.spec_thresholds(max_regs, schedule_unit.peak_gpr_count),
    {
        match self {
            ScheduleType::RegLimit(gpr_target) => ScheduleThresholds {
                heuristic_threshold: *gpr_target as i64 - TARGET_FREE as i64,
                quit_threshold: *gpr_target as i64,
            },
            ScheduleType::Spill => ScheduleThresholds {
                heuristic_threshold: max_regs.gpr as i64 - SW_RESERVED_GPRS_SPILL as i64 - TARGET_FREE as i64,
                quit_threshold: schedule_unit.peak_gpr_count,
            },
        }
    }
}

/// A run of instructions of one block that are all reorderable or all
/// pinned.
pub struct ScheduleUnit {
    pub block_idx: usize,
    /// Position of the unit's first instruction in its block.
    pub first_ip: usize,
    pub can_reorder: bool,
    pub live_in_count: PerRegFile<i64>,
    pub live_out: Option<LiveSet>,
    pub instrs: Vec<Instr>,
    pub new_order: Option<InstructionOrder>,
    pub last_tried_schedule_type: Option<ScheduleType>,
    pub peak_gpr_count: i64,
}

impl ScheduleUnit {
    /// A new order, once found, keeps every dependency of the unit, and a
    /// live-out set, once known, is well formed.
    pub open spec fn wf(&self) -> bool {
        &&& self.new_order matches Some(o) ==> respects_dependencies(o.order@, self.instrs@)
        &&& self.live_out matches Some(lo) ==> lo.wf()
        &&& !self.can_reorder ==> self.new_order is None
    }

    /// Tries to schedule the unit under `schedule_type`; keeps the new
    /// order if one is found.
    pub fn schedule(
        &mut self,
        sm: &ShaderModel,
        max_regs: PerRegFile<i32>,
        schedule_type: ScheduleType,
        thresholds: ScheduleThresholds,
    )
        requires
            old(self).wf(),
            old(self).can_reorder,
            latencies_defined(old(self).instrs@),
        ensures
            final(self).wf(),
            final(self).instrs@ == old(self).instrs@,
            final(self).block_idx == old(self).block_idx,
            final(self).first_ip == old(self).first_ip,
            final(self).can_reorder == old(self).can_reorder,
            final(self).last_tried_schedule_type == Some(schedule_type),
            old(self).new_order is Some ==> final(self).new_order is Some,
            old(self).live_out is Some && thresholds.quit_threshold >= crate::score::PEAK_BOUND ==> final(self).new_order is Some,
    {
        self.last_tried_schedule_type = Some(schedule_type);
        let new_order = match &self.live_out {
            Some(live_out) => sched_buffer(sm, max_regs, &self.instrs, live_out, thresholds),
            None => None,
        };
        match new_order {
            Some(x) => {
                self.new_order = Some(x);
            },
            None => {},
        }
    }
}


/// No barrier lies among instructions `k..=j` of `s`.
pub open spec fn no_barrier_between(s: Seq<Instr>, k: int, j: int) -> bool {
    forall|p: int| k <= p <= j ==> !is_barrier(#[trigger] s[p])
}

/// The latency lookups that scheduling a block can make are defined: for
/// each value read, the entry for its last definition before the reader,
/// where no barrier lies between them (a schedule unit never holds one).
pub open spec fn block_latencies_defined(s: Seq<Instr>) -> bool {
    &&& forall|j: int, i: int, v: SSAValue, k: int, d: int|
        #[trigger] uses(s[j], i, v) && #[trigger] is_last_def(s, j, v, k, d) && no_barrier_between(s, k, j)
            ==> crate::latency::SM75Latency::spec_raw(s[k].op, d, s[j].op, i) is Some
                && crate::latency::SM75Latency::spec_needs_scoreboards(s[k].op) is Some
    &&& forall|j: int, v: SSAValue, k: int, d: int|
        #[trigger] guards(s[j], v) && #[trigger] is_last_def(s, j, v, k, d) && no_barrier_between(s, k, j)
            ==> crate::latency::SM75Latency::spec_paw(s[k].op, d) is Some
                && crate::latency::SM75Latency::spec_needs_scoreboards(s[k].op) is Some
}

/// The lookups of a block stay defined for a slice of it without barriers.
pub proof fn lemma_latencies_subrange(s: Seq<Instr>, a: int, b: int)
    requires
        0 <= a <= b <= s.len(),
        block_latencies_defined(s),
        forall|p: int| a <= p < b ==> !is_barrier(#[trigger] s[p]),
    ensures
        latencies_defined(s.subrange(a, b)),
{
    let t = s.subrange(a, b);
    assert forall|k: int| 0 <= k < t.len() implies #[trigger] t[k] == s[a + k] by {}
    assert forall|j: int, k: int, v: SSAValue, d: int|
        #[trigger] is_last_def(t, j, v, k, d) implies is_last_def(s, a + j, v, a + k, d) && no_barrier_between(s, a + k, a + j) by {
        assert(t[k] == s[a + k] && t[j] == s[a + j]);
        assert forall|k2: int, d2: int| a + k < k2 < a + j && #[trigger] crate::graph::defines(s[k2], d2, v) implies false by {
            assert(t[k2 - a] == s[k2]);
        }
        assert forall|p: int| a + k <= p <= a + j implies !is_barrier(#[trigger] s[p]) by {}
    }
    assert forall|j: int, i: int, v: SSAValue, k: int, d: int|
        #[trigger] uses(t[j], i, v) && #[trigger] is_last_def(t, j, v, k, d)
            implies crate::latency::SM75Latency::spec_raw(t[k].op, d, t[j].op, i) is Some
                && crate::latency::SM75Latency::spec_needs_scoreboards(t[k].op) is Some by {
        assert(is_last_def(s, a + j, v, a + k, d) && no_barrier_between(s, a + k, a + j));
        assert(uses(s[a + j], i, v));
    }
    assert forall|j: int, v: SSAValue, k: int, d: int|
        #[trigger] guards(t[j], v) && #[trigger] is_last_def(t, j, v, k, d)
            implies crate::latency::SM75Latency::spec_paw(t[k].op, d) is Some
                && crate::latency::SM75Latency::spec_needs_scoreboards(t[k].op) is Some by {
        assert(is_last_def(s, a + j, v, a + k, d) && no_barrier_between(s, a + k, a + j));
        assert(guards(s[a + j], v));
    }
}

/// A reorderable unit in place makes only defined lookups.
proof fn lemma_unit_latencies(orig: Seq<Seq<Instr>>, un: ScheduleUnit)
    requires
        unit_in_place(un, orig),
        block_latencies_defined(orig[un.block_idx as int]),
        un.can_reorder,
        forall|k: int| 0 <= k < un.instrs@.len() ==> (is_barrier(#[trigger] un.instrs@[k]) <==> !un.can_reorder),
    ensures
        latencies_defined(un.instrs@),
{
    let s = orig[un.block_idx as int];
    let f = un.first_ip as int;
    assert forall|p: int| f <= p < f + un.instrs@.len() implies !is_barrier(#[trigger] s[p]) by {
        assert(un.instrs@[p - f] == s[p]);
    }
    lemma_latencies_subrange(s, f, f + un.instrs@.len());
}

/// The unit holds, in order, instructions `first_ip..` of block
/// `block_idx` of `orig`.
pub open spec fn unit_in_place(u: ScheduleUnit, orig: Seq<Seq<Instr>>) -> bool {
    &&& u.block_idx < orig.len()
    &&& u.first_ip + u.instrs@.len() <= orig[u.block_idx as int].len()
    &&& u.instrs@ == orig[u.block_idx as int].subrange(u.first_ip as int, u.first_ip + u.instrs@.len())
}

/// The schedule units of a function, in block order.
pub struct ScheduleUnits(pub Vec<ScheduleUnit>);

impl ScheduleUnits {
    pub fn new() -> (r: ScheduleUnits)
        ensures
            r.0@.len() == 0,
    {
        ScheduleUnits(Vec::new())
    }

    pub open spec fn wf(&self) -> bool {
        forall|u: int| 0 <= u < self.0@.len() ==> (#[trigger] self.0@[u]).wf()
    }

    pub open spec fn continues(&self, block_idx: usize, can_reorder: bool) -> bool {
        self.0@.len() > 0 && self.0@.last().block_idx == block_idx && self.0@.last().can_reorder == can_reorder
    }

    /// Appends `instr`, the instruction at `ip` of block `block_idx`, to
    /// the last unit when that unit is of the same block and kind, else to
    /// a new unit; the unit that is left gets `live_before_instr` as its
    /// live-out set.
    pub fn push_instr(
        &mut self,
        instr: Instr,
        block_idx: usize,
        ip: usize,
        can_reorder: bool,
        live_before_instr: &LiveSet,
        max_regs: PerRegFile<i32>,
    )
        requires
            old(self).wf(),
            live_before_instr.wf(),
            old(self).0@.len() > 0 ==> old(self).0@.last().new_order is None,
        ensures
            final(self).wf(),
            final(self).0@.last().new_order is None,
            old(self).continues(block_idx, can_reorder) ==> {
                &&& final(self).0@.len() == old(self).0@.len()
                &&& final(self).0@.last().instrs@ == old(self).0@.last().instrs@.push(instr)
                &&& final(self).0@.last().block_idx == old(self).0@.last().block_idx
                &&& final(self).0@.last().first_ip == old(self).0@.last().first_ip
            },
            !old(self).continues(block_idx, can_reorder) ==> {
                &&& final(self).0@.len() == old(self).0@.len() + 1
                &&& final(self).0@.last().instrs@ == seq![instr]
                &&& final(self).0@.last().block_idx == block_idx
                &&& final(self).0@.last().first_ip == ip
                &&& final(self).0@.last().live_in_count == live_before_instr.spec_counts()
                &&& final(self).0@.last().peak_gpr_count == crate::score::used_gprs(live_before_instr.spec_counts(), max_regs)
                &&& final(self).0@.last().live_out is None
                &&& final(self).0@.last().last_tried_schedule_type is None
                // The unit left behind, if reorderable and still open, is
                // closed with the values live before `instr`.
                &&& old(self).0@.len() > 0 ==> final(self).0@[old(self).0@.len() - 1].live_out == if old(self).0@.last().can_reorder
                    && old(self).0@.last().live_out is None {
                    Some(LiveSet { vals: final(self).0@[old(self).0@.len() - 1].live_out->0.vals })
                } else {
                    old(self).0@.last().live_out
                }
                &&& old(self).0@.len() > 0 && old(self).0@.last().can_reorder && old(self).0@.last().live_out is None
                    ==> final(self).0@[old(self).0@.len() - 1].live_out->0.vals@ == live_before_instr.vals@
            },
            final(self).0@.last().can_reorder == can_reorder,
            forall|u: int| 0 <= u < final(self).0@.len() - 1 ==> {
                &&& (#[trigger] final(self).0@[u]).instrs@ == old(self).0@[u].instrs@
                &&& final(self).0@[u].block_idx == old(self).0@[u].block_idx
                &&& final(self).0@[u].first_ip == old(self).0@[u].first_ip
                &&& final(self).0@[u].can_reorder == old(self).0@[u].can_reorder
                &&& final(self).0@[u].new_order == old(self).0@[u].new_order
            },
    {
        let n = self.0.len();
        let current_usable = n > 0 && self.0[n - 1].block_idx == block_idx && self.0[n - 1].can_reorder == can_reorder;
        if !current_usable {
            if n > 0 {
                if self.0[n - 1].can_reorder && self.0[n - 1].live_out.is_none() {
                    self.0[n - 1].live_out = Some(LiveSet { vals: live_before_instr.vals.clone() });
                }
            }
            let live_count = live_before_instr.counts();
            self.0.push(ScheduleUnit {
                block_idx,
                first_ip: ip,
                can_reorder,
                live_in_count: live_count,
                live_out: None,
                instrs: Vec::new(),
                new_order: None,
                last_tried_schedule_type: None,
                peak_gpr_count: calc_used_gprs(live_count, max_regs),
            });
        }
        let l = self.0.len() - 1;
        self.0[l].instrs.push(instr);
        proof {
            assert forall|u: int| 0 <= u < self.0@.len() implies (#[trigger] self.0@[u]).wf() by {
                if u < n {
                    assert(old(self).0@[u].wf());
                }
            }
        }
    }

    /// Raises the last unit's peak GPR count to `count`.
    pub fn update_gpr_count(&mut self, count: i64)
        requires
            old(self).wf(),
        ensures
            final(self).wf(),
            final(self).0@.len() == old(self).0@.len(),
            final(self).0@.len() > 0 ==> final(self).0@.last().peak_gpr_count == if count > old(self).0@.last().peak_gpr_count {
                count
            } else {
                old(self).0@.last().peak_gpr_count
            },
            forall|u: int| 0 <= u < final(self).0@.len() ==> {
                &&& (#[trigger] final(self).0@[u]).instrs@ == old(self).0@[u].instrs@
                &&& final(self).0@[u].block_idx == old(self).0@[u].block_idx
                &&& final(self).0@[u].first_ip == old(self).0@[u].first_ip
                &&& final(self).0@[u].can_reorder == old(self).0@[u].can_reorder
                &&& final(self).0@[u].new_order == old(self).0@[u].new_order
            },
    {
        let n = self.0.len();
        if n > 0 {
            if count > self.0[n - 1].peak_gpr_count {
                self.0[n - 1].peak_gpr_count = count;
            }
        }
        proof {
            assert forall|u: int| 0 <= u < self.0@.len() implies (#[trigger] self.0@[u]).wf() by {
                assert(old(self).0@[u].wf());
            }
        }
    }

    /// Closes the last unit of block `block_idx`: a reorderable one gets
    /// `live_out` as its live-out set.
    pub fn finish_block(&mut self, block_idx: usize, live_out: &LiveSet)
        requires
            old(self).wf(),
            live_out.wf(),
        ensures
            final(self).wf(),
            final(self).0@.len() == old(self).0@.len(),
            final(self).0@.len() > 0 ==> {
                let l = old(self).0@.last();
                if l.can_reorder && l.block_idx == block_idx && l.live_out is None {
                    final(self).0@.last().live_out is Some && final(self).0@.last().live_out->0.vals@ == live_out.vals@
                } else {
                    final(self).0@.last().live_out == l.live_out
                }
            },
            forall|u: int| 0 <= u < final(self).0@.len() ==> {
                &&& (#[trigger] final(self).0@[u]).instrs@ == old(self).0@[u].instrs@
                &&& final(self).0@[u].block_idx == old(self).0@[u].block_idx
                &&& final(self).0@[u].first_ip == old(self).0@[u].first_ip
                &&& final(self).0@[u].can_reorder == old(self).0@[u].can_reorder
                &&& final(self).0@[u].new_order == old(self).0@[u].new_order
            },
    {
        let n = self.0.len();
        if n > 0 {
            if self.0[n - 1].can_reorder && self.0[n - 1].block_idx == block_idx && self.0[n - 1].live_out.is_none() {
                self.0[n - 1].live_out = Some(LiveSet { vals: live_out.vals.clone() });
            }
        }
        proof {
            assert forall|u: int| 0 <= u < self.0@.len() implies (#[trigger] self.0@[u]).wf() by {
                assert(old(self).0@[u].wf());
            }
        }
    }
}


/// A function: its blocks, in an order where each block's first
/// predecessor, if any, comes before it.
pub struct Function {
    pub blocks: Vec<BasicBlock>,
}

pub open spec fn block_instrs(blocks: Seq<BasicBlock>) -> Seq<Seq<Instr>> {
    Seq::new(blocks.len(), |b: int| blocks[b].instrs@)
}

pub open spec fn all_latencies_defined(blocks: Seq<BasicBlock>) -> bool {
    forall|b: int| 0 <= b < blocks.len() ==> block_latencies_defined(#[trigger] blocks[b].instrs@)
}

pub open spec fn units_in_place(units: Seq<ScheduleUnit>, orig: Seq<Seq<Instr>>) -> bool {
    forall|u: int| 0 <= u < units.len() ==> unit_in_place(#[trigger] units[u], orig)
}

/// The values of `set` that are live into the block of `bl`.
fn filter_live_in(set: &LiveSet, bl: &crate::liveness::BlockLiveness) -> (r: LiveSet)
    ensures
        r.wf(),
        forall|v: SSAValue| #[trigger] r.spec_contains(v) <==> (set.spec_contains(v) && bl.live_in.spec_contains(v)),
{
    let mut r = LiveSet::new();
    let mut k: usize = 0;
    while k < set.vals.len()
        invariant
            r.wf(),
            k <= set.vals@.len(),
            forall|v: SSAValue| #[trigger] r.spec_contains(v) <==> (set.vals@.subrange(0, k as int).contains(v)
                && bl.live_in.spec_contains(v)),
        decreases set.vals@.len() - k,
    {
        let v = set.vals[k];
        proof {
            assert(set.vals@.subrange(0, k as int + 1) =~= set.vals@.subrange(0, k as int).push(v));
            crate::live::lemma_push_contains(set.vals@.subrange(0, k as int), v);
        }
        if bl.is_live_in(&v) {
            r.insert(v);
        }
        k += 1;
    }
    proof {
        assert(set.vals@.subrange(0, k as int) =~= set.vals@);
    }
    r
}

/// Instructions placed by the first `u` units that belong to block `b`.
pub open spec fn filled_before(units: Seq<ScheduleUnit>, u: int, b: int) -> int
    decreases u,
{
    if u <= 0 {
        0
    } else {
        filled_before(units, u - 1, b) + if units[u - 1].block_idx == b { units[u - 1].instrs@.len() as int } else { 0 }
    }
}

/// Two units hold the same instructions at the same place.
pub open spec fn same_place(x: ScheduleUnit, y: ScheduleUnit) -> bool {
    &&& x.block_idx == y.block_idx
    &&& x.first_ip == y.first_ip
    &&& x.can_reorder == y.can_reorder
    &&& x.instrs@ == y.instrs@
}

proof fn lemma_filled_prefix(s: Seq<ScheduleUnit>, t: Seq<ScheduleUnit>, u: int, b: int)
    requires
        0 <= u <= s.len(),
        u <= t.len(),
        forall|w: int| 0 <= w < u ==> same_place(#[trigger] s[w], t[w]),
    ensures
        filled_before(s, u, b) == filled_before(t, u, b),
    decreases u,
{
    if u > 0 {
        lemma_filled_prefix(s, t, u - 1, b);
        assert(same_place(s[u - 1], t[u - 1]));
    }
}

/// Each unit starts where the earlier units of its block stopped.
pub open spec fn units_tiled(units: Seq<ScheduleUnit>) -> bool {
    forall|u: int| 0 <= u < units.len() ==> (#[trigger] units[u]).first_ip == filled_before(units, u, units[u].block_idx as int)
}

/// A unit is pinned exactly when its instructions are barriers.
pub open spec fn units_kinds(units: Seq<ScheduleUnit>) -> bool {
    forall|u: int, k: int|
        0 <= u < units.len() && 0 <= k < units[u].instrs@.len() ==> (is_barrier(#[trigger] units[u].instrs@[k])
            <==> !units[u].can_reorder)
}

impl Function {
    /// Pre-RA scheduling of every block of the function with register
    /// budget `max_regs`.
    ///
    /// A first pass splits each block into schedule units (runs of
    /// reorderable instructions, and runs of pinned ones), records each
    /// unit's live-in counts, live-out set and peak GPR count in the
    /// original order, and bounds the budget: at least what the pinned
    /// instructions need, at most what the original order needs.  A second
    /// pass tries each reorderable unit under each budget from the tightest
    /// up, dropping a budget for good when a unit fails it.  A third pass
    /// reschedules every unit that last tried another budget at the final
    /// one, and writes the units back into their blocks.  A unit with no
    /// new order keeps its instructions as they were.
    ///
    /// Every block ends up with the same instructions, rearranged so that
    /// each one still follows the last definition of every value it reads
    /// (source or guard), the memory ops keep their order, and barriers
    /// keep their positions.
    #[verifier::spinoff_prover]
    #[verifier::rlimit(100)]
    pub fn opt_instr_sched_prepass(&mut self, sm: &ShaderModel, max_regs: PerRegFile<i32>)
        requires
            all_latencies_defined(old(self).blocks@),
        ensures
            final(self).blocks@.len() == old(self).blocks@.len(),
            forall|b: int| 0 <= b < final(self).blocks@.len() ==> (#[trigger] final(self).blocks@[b]).preds@ == old(self).blocks@[b].preds@,
            forall|b: int| 0 <= b < final(self).blocks@.len() ==> is_rescheduling_of(
                (#[trigger] final(self).blocks@[b]).instrs@,
                old(self).blocks@[b].instrs@,
            ),
            // A GPR budget that no register limit expresses schedules
            // nothing.
            !(2 <= max_regs.gpr <= 256) ==> forall|b: int| 0 <= b < final(self).blocks@.len()
                ==> (#[trigger] final(self).blocks@[b]).instrs@ == old(self).blocks@[b].instrs@,
    {
        let nblocks = self.blocks.len();
        let ghost orig = block_instrs(self.blocks@);
        let liveness = SimpleLiveness::for_function(&self.blocks);
        let mut live_out_sets: Vec<LiveSet> = Vec::new();
        let reserved_gprs: i64 = SW_RESERVED_GPRS as i64 + sm.hw_reserved_gprs as i64;

        // First pass: split into units and gather register-pressure bounds.
        let mut min_gpr_target: i64 = 1;
        let mut max_gpr_target: i64 = 1;
        let mut schedule_units = ScheduleUnits::new();
        let mut block_idx: usize = 0;
        while block_idx < nblocks
            invariant
                nblocks == self.blocks@.len(),
                nblocks == orig.len(),
                block_idx <= nblocks,
                liveness.blocks@.len() == nblocks,
                liveness.wf(),
                forall|k: int| 0 <= k < live_out_sets@.len() ==> (#[trigger] live_out_sets@[k]).wf(),
                schedule_units.wf(),
                units_in_place(schedule_units.0@, orig),
                units_tiled(schedule_units.0@),
                units_kinds(schedule_units.0@),
                forall|u: int| 0 <= u < schedule_units.0@.len() ==> (#[trigger] schedule_units.0@[u]).block_idx < block_idx,
                forall|u: int| 0 <= u < schedule_units.0@.len() ==> (#[trigger] schedule_units.0@[u]).new_order is None,
                forall|b: int| 0 <= b < block_idx ==> filled_before(schedule_units.0@, schedule_units.0@.len() as int, b) == orig[b].len(),
                forall|b: int| block_idx <= b ==> filled_before(schedule_units.0@, schedule_units.0@.len() as int, b) == 0,
                forall|b: int| 0 <= b < block_idx ==> (#[trigger] self.blocks@[b]).instrs@.len() == 0,
                forall|b: int| 0 <= b < block_idx ==> (#[trigger] orig[b]).len() <= usize::MAX,
                forall|b: int| block_idx <= b < nblocks ==> (#[trigger] self.blocks@[b]).instrs@ == orig[b],
                forall|b: int| 0 <= b < nblocks ==> (#[trigger] self.blocks@[b]).preds@ == old(self).blocks@[b].preds@,
                -0x10_0000_0000 <= min_gpr_target <= 0x10_0000_0000,
                -0x10_0000_0000 <= max_gpr_target <= 0x10_0000_0000,
                0 <= reserved_gprs <= 0x1_0000_0002,
                all_latencies_defined(old(self).blocks@),
                orig == block_instrs(old(self).blocks@),
            decreases nblocks - block_idx,
        {
            let bl = &liveness.blocks[block_idx];
            let mut live_set = if self.blocks[block_idx].preds.len() > 0 {
                let p = self.blocks[block_idx].preds[0];
                if p < live_out_sets.len() {
                    filter_live_in(&live_out_sets[p], bl)
                } else {
                    LiveSet::new()
                }
            } else {
                LiveSet::new()
            };

            let mut taken: Vec<Instr> = Vec::new();
            std::mem::swap(&mut self.blocks[block_idx].instrs, &mut taken);
            let n = taken.len();
            let ghost block = taken@;
            assert(block == orig[block_idx as int]);
            let mut rev: Vec<Instr> = Vec::new();
            while taken.len() > 0
                invariant
                    taken@.len() + rev@.len() == n,
                    n == block.len(),
                    taken@ == block.subrange(0, taken@.len() as int),
                    forall|k: int| 0 <= k < rev@.len() ==> #[trigger] rev@[k] == block[n - 1 - k],
                decreases taken@.len(),
            {
                let x = taken.pop().unwrap();
                rev.push(x);
            }
            let mut ip: usize = 0;
            while ip < n
                invariant
                    nblocks == self.blocks@.len(),
                    nblocks == orig.len(),
                    block_idx < nblocks,
                    n == block.len(),
                    block == orig[block_idx as int],
                    ip <= n,
                    rev@.len() == n - ip,
                    forall|k: int| 0 <= k < rev@.len() ==> #[trigger] rev@[k] == block[n - 1 - k],
                    live_set.wf(),
                    schedule_units.wf(),
                    units_in_place(schedule_units.0@, orig),
                    units_tiled(schedule_units.0@),
                    units_kinds(schedule_units.0@),
                    forall|u: int| 0 <= u < schedule_units.0@.len() ==> (#[trigger] schedule_units.0@[u]).block_idx <= block_idx,
                    forall|u: int| 0 <= u < schedule_units.0@.len() ==> (#[trigger] schedule_units.0@[u]).new_order is None,
                    schedule_units.0@.len() > 0 && schedule_units.0@.last().block_idx == block_idx
                        ==> schedule_units.0@.last().first_ip + schedule_units.0@.last().instrs@.len() == ip,
                    forall|b: int| 0 <= b < block_idx ==> filled_before(schedule_units.0@, schedule_units.0@.len() as int, b) == orig[b].len(),
                    filled_before(schedule_units.0@, schedule_units.0@.len() as int, block_idx as int) == ip,
                    forall|b: int| block_idx < b ==> filled_before(schedule_units.0@, schedule_units.0@.len() as int, b) == 0,
                    -0x10_0000_0000 <= min_gpr_target <= 0x10_0000_0000,
                    -0x10_0000_0000 <= max_gpr_target <= 0x10_0000_0000,
                decreases n - ip,
            {
                let instr = rev.pop().unwrap();
                assert(instr == block[ip as int]);
                let can_reorder = match side_effect_type(&instr.op) {
                    SideEffect::NoEffect | SideEffect::Memory => true,
                    SideEffect::Barrier => false,
                };
                let live_before = LiveSet { vals: live_set.vals.clone() };
                let live_count = live_set.insert_instr_top_down(ip, &instr, bl);
                let ghost units0 = schedule_units.0@;
                let ghost instr_g = instr;
                schedule_units.push_instr(instr, block_idx, ip, can_reorder, &live_before, max_regs);
                proof {
                    let units1 = schedule_units.0@;
                    let l0 = units0.len() as int;
                    let l1 = units1.len() as int;
                    assert forall|w: int| 0 <= w < l1 - 1 implies same_place(#[trigger] units1[w], units0[w]) by {}
                    lemma_filled_prefix(units1, units0, l1 - 1, block_idx as int);
                    assert forall|b: int| true implies #[trigger] filled_before(units1, l1 - 1, b) == filled_before(units0, l1 - 1, b) by {
                        lemma_filled_prefix(units1, units0, l1 - 1, b);
                    }
                    if l1 == l0 {
                        assert(units0.last().block_idx == block_idx);
                    }
                    assert forall|b: int| true implies #[trigger] filled_before(units1, l1, b) == filled_before(units0, l0, b)
                        + if b == block_idx { 1int } else { 0int } by {
                        lemma_filled_prefix(units1, units0, l1 - 1, b);
                        if l1 == l0 {
                            assert(units1[l1 - 1].instrs@.len() == units0[l0 - 1].instrs@.len() + 1);
                        }
                    }
                    assert forall|u: int| 0 <= u < l1 implies unit_in_place(#[trigger] units1[u], orig) by {
                        if u < l1 - 1 {
                            assert(unit_in_place(units0[u], orig));
                        } else if l1 == l0 {
                            let lu = units0.last();
                            assert(unit_in_place(units0[l0 - 1], orig));
                            assert(units1[u].instrs@ =~= orig[block_idx as int].subrange(lu.first_ip as int, lu.first_ip + lu.instrs@.len() + 1));
                        } else {
                            assert(units1[u].instrs@ =~= orig[block_idx as int].subrange(ip as int, ip + 1));
                        }
                    }
                    assert forall|u: int| 0 <= u < l1 implies (#[trigger] units1[u]).first_ip == filled_before(units1, u, units1[u].block_idx as int) by {
                        if u < l1 - 1 {
                            lemma_filled_prefix(units1, units0, u, units1[u].block_idx as int);
                        } else if l1 == l0 {
                            lemma_filled_prefix(units1, units0, u, block_idx as int);
                        } else {
                            lemma_filled_prefix(units1, units0, l0, block_idx as int);
                        }
                    }
                    assert forall|u: int, k: int|
                        0 <= u < l1 && 0 <= k < units1[u].instrs@.len() implies (is_barrier(#[trigger] units1[u].instrs@[k])
                            <==> !units1[u].can_reorder) by {
                        if u < l1 - 1 {
                            assert(units1[u].instrs@[k] == units0[u].instrs@[k]);
                        } else if l1 == l0 && k < units0[u].instrs@.len() {
                            assert(units1[u].instrs@[k] == units0[u].instrs@[k]);
                        } else {
                            assert(units1[u].instrs@[k] == instr_g);
                        }
                    }
                }
                let used_gprs = calc_used_gprs(live_count, max_regs);
                let ghost units2 = schedule_units.0@;
                schedule_units.update_gpr_count(used_gprs);
                proof {
                    let units3 = schedule_units.0@;
                    assert forall|w: int| 0 <= w < units3.len() implies same_place(#[trigger] units3[w], units2[w]) by {}
                    assert forall|b: int, u: int| 0 <= u <= units3.len() implies #[trigger] filled_before(units3, u, b) == filled_before(units2, u, b) by {
                        lemma_filled_prefix(units3, units2, u, b);
                    }
                    assert forall|u: int| 0 <= u < units3.len() implies unit_in_place(#[trigger] units3[u], orig) by {
                        assert(unit_in_place(units2[u], orig));
                    }
                    assert forall|u: int| 0 <= u < units3.len() implies (#[trigger] units3[u]).first_ip == filled_before(units3, u, units3[u].block_idx as int) by {
                        assert(units2[u].first_ip == filled_before(units2, u, units2[u].block_idx as int));
                    }
                    assert forall|u: int, k: int|
                        0 <= u < units3.len() && 0 <= k < units3[u].instrs@.len() implies (is_barrier(#[trigger] units3[u].instrs@[k])
                            <==> !units3[u].can_reorder) by {
                        assert(units3[u].instrs@[k] == units2[u].instrs@[k]);
                    }
                }

                // The target is never worse than the original schedule.
                if used_gprs > max_gpr_target {
                    max_gpr_target = used_gprs;
                }
                if !can_reorder {
                    // A pinned instruction bounds how well rescheduling can do.
                    if used_gprs > min_gpr_target {
                        min_gpr_target = used_gprs;
                    }
                }
                ip += 1;
            }
            let ghost units4 = schedule_units.0@;
            schedule_units.finish_block(block_idx, &live_set);
            proof {
                let units5 = schedule_units.0@;
                assert forall|w: int| 0 <= w < units5.len() implies same_place(#[trigger] units5[w], units4[w]) by {}
                assert forall|b: int, u: int| 0 <= u <= units5.len() implies #[trigger] filled_before(units5, u, b) == filled_before(units4, u, b) by {
                    lemma_filled_prefix(units5, units4, u, b);
                }
                assert forall|u: int| 0 <= u < units5.len() implies unit_in_place(#[trigger] units5[u], orig) by {
                    assert(unit_in_place(units4[u], orig));
                }
                assert forall|u: int| 0 <= u < units5.len() implies (#[trigger] units5[u]).first_ip == filled_before(units5, u, units5[u].block_idx as int) by {
                    assert(units4[u].first_ip == filled_before(units4, u, units4[u].block_idx as int));
                }
                assert forall|u: int, k: int|
                    0 <= u < units5.len() && 0 <= k < units5[u].instrs@.len() implies (is_barrier(#[trigger] units5[u].instrs@[k])
                        <==> !units5[u].can_reorder) by {
                    assert(units5[u].instrs@[k] == units4[u].instrs@[k]);
                }
            }
            live_out_sets.push(live_set);
            block_idx += 1;
        }
        let ghost layout = schedule_units.0@;

        // Second pass: find a schedule for each unit.
        // A budget that no register limit can express (more than 255 GPRs,
        // or targets beyond the register file) is not scheduled for: every
        // unit keeps its order.
        let budget_ok = 0 <= min_gpr_target && min_gpr_target + reserved_gprs <= 65536 && 2 <= max_regs.gpr
            && max_regs.gpr <= 256 && max_regs.gpr as i64 + reserved_gprs <= 65536;
        let mut schedule_types: Vec<ScheduleType> = Vec::new();
        if budget_ok {
            let max_target: i32 = if max_gpr_target > 65536 { 65536 } else if max_gpr_target < -65536 { -65536 } else { max_gpr_target as i32 };
            let types = get_schedule_types(max_regs, min_gpr_target as i32, max_target, reserved_gprs as i32);
            // Most occupancy-friendly last, so that it is tried first.
            let mut k: usize = types.len();
            while k > 0
                invariant
                    k <= types@.len(),
                    schedule_types@.len() == types@.len() - k,
                decreases k,
            {
                k -= 1;
                schedule_types.push(types[k]);
            }
        }
        let nunits = schedule_units.0.len();
        let mut u: usize = 0;
        assert(!(2 <= max_regs.gpr <= 256) ==> schedule_types@.len() == 0);
        while u < nunits
            invariant
                schedule_types@.len() == 0 ==> forall|w: int| 0 <= w < nunits ==> (#[trigger] schedule_units.0@[w]).new_order is None,
                !(2 <= max_regs.gpr <= 256) ==> schedule_types@.len() == 0,
                nunits == schedule_units.0@.len(),
                nunits == layout.len(),
                u <= nunits,
                schedule_units.wf(),
                forall|w: int| 0 <= w < nunits ==> same_place(#[trigger] schedule_units.0@[w], layout[w]),
                units_in_place(layout, orig),
                units_kinds(layout),
                nblocks == orig.len(),
                nblocks == self.blocks@.len(),
                all_latencies_defined(old(self).blocks@),
                orig == block_instrs(old(self).blocks@),
            decreases nunits - u,
        {
            if schedule_units.0[u].can_reorder {
                let mut done = false;
                while !done && schedule_types.len() > 0
                    invariant
                        nunits == schedule_units.0@.len(),
                        nunits == layout.len(),
                        u < nunits,
                        schedule_units.wf(),
                        forall|w: int| 0 <= w < nunits ==> same_place(#[trigger] schedule_units.0@[w], layout[w]),
                        units_in_place(layout, orig),
                        units_kinds(layout),
                        schedule_units.0@[u as int].can_reorder,
                        schedule_types@.len() == 0 ==> forall|w: int| 0 <= w < nunits ==> (#[trigger] schedule_units.0@[w]).new_order is None,
                        !(2 <= max_regs.gpr <= 256) ==> schedule_types@.len() == 0,
                        all_latencies_defined(old(self).blocks@),
                        orig == block_instrs(old(self).blocks@),
                        nblocks == orig.len(),
                    decreases schedule_types@.len(), if done { 0int } else { 1int },
                {
                    let schedule_type = schedule_types[schedule_types.len() - 1];
                    let thresholds = schedule_type.thresholds(max_regs, &schedule_units.0[u]);
                    let ghost units0 = schedule_units.0@;
                    proof {
                        let un = units0[u as int];
                        assert(same_place(un, layout[u as int]));
                        assert(unit_in_place(layout[u as int], orig));
                        assert(block_latencies_defined(orig[un.block_idx as int]));
                        assert forall|k: int| 0 <= k < un.instrs@.len() implies (is_barrier(#[trigger] un.instrs@[k]) <==> !un.can_reorder) by {
                            assert(un.instrs@[k] == layout[u as int].instrs@[k]);
                        }
                        lemma_unit_latencies(orig, un);
                        assert(units0[u as int].wf());
                    }
                    schedule_units.0[u].schedule(sm, max_regs, schedule_type, thresholds);
                    proof {
                        assert forall|w: int| 0 <= w < nunits implies (#[trigger] schedule_units.0@[w]).wf() && same_place(schedule_units.0@[w], layout[w]) by {
                            if w != u {
                                assert(units0[w].wf() && same_place(units0[w], layout[w]));
                                assert(schedule_units.0@[w] == units0[w]);
                            }
                        }
                    }
                    if schedule_units.0[u].new_order.is_some() {
                        done = true;
                    } else if schedule_types.len() > 1 {
                        // This budget failed: move on to the next one,
                        // which has more GPRs.
                        schedule_types.pop();
                    } else {
                        // Nothing left to try: the original order stays.
                        done = true;
                    }
                }
            }
            u += 1;
        }

        // Third pass: apply the schedules.
        let final_type: Option<ScheduleType> = if schedule_types.len() > 0 {
            Some(schedule_types[schedule_types.len() - 1])
        } else {
            None
        };
        let ghost all = schedule_units.0@;
        proof {
            assert forall|b: int| 0 <= b < nblocks implies (#[trigger] self.blocks@[b]).instrs@ == orig[b].subrange(0, 0) by {
                assert(orig[b].subrange(0, 0) =~= Seq::<Instr>::empty());
                assert(self.blocks@[b].instrs@ =~= Seq::<Instr>::empty());
            }
        }
        proof {
            assert forall|b: int| 0 <= b < nblocks implies filled_before(all, all.len() as int, b) == orig[b].len() by {
                lemma_filled_prefix(all, layout, all.len() as int, b);
            }
            assert forall|w: int| 0 <= w < all.len() implies (#[trigger] all[w]).first_ip == filled_before(all, w, all[w].block_idx as int) by {
                lemma_filled_prefix(all, layout, w, all[w].block_idx as int);
                assert(same_place(all[w], layout[w]));
            }
        }
        let mut pending: Vec<ScheduleUnit> = Vec::new();
        let mut units = schedule_units.0;
        while units.len() > 0
            invariant
                units@ == all.subrange(0, units@.len() as int),
                pending@.len() + units@.len() == all.len(),
                forall|w: int| 0 <= w < pending@.len() ==> #[trigger] pending@[w] == all[all.len() - 1 - w],
            decreases units@.len(),
        {
            let x = units.pop().unwrap();
            pending.push(x);
        }
        let ghost mut sigmas: Seq<Seq<usize>> = Seq::new(nblocks as nat, |b: int| Seq::<usize>::empty());
        while pending.len() > 0
            invariant
                final_type is None ==> forall|w: int| 0 <= w < all.len() ==> (#[trigger] all[w]).new_order is None,
                final_type is None ==> forall|b: int| 0 <= b < nblocks ==> (#[trigger] self.blocks@[b]).instrs@
                    == orig[b].subrange(0, filled_before(all, all.len() - pending@.len(), b)),
                pending@.len() <= all.len(),
                forall|w: int| 0 <= w < pending@.len() ==> #[trigger] pending@[w] == all[all.len() - 1 - w],
                forall|w: int| 0 <= w < all.len() ==> (#[trigger] all[w]).wf() && same_place(all[w], layout[w]),
                forall|w: int| 0 <= w < all.len() ==> (#[trigger] all[w]).first_ip == filled_before(all, w, all[w].block_idx as int),
                forall|b: int| 0 <= b < nblocks ==> filled_before(all, all.len() as int, b) == orig[b].len(),
                units_in_place(layout, orig),
                units_kinds(layout),
                layout.len() == all.len(),
                nblocks == orig.len(),
                nblocks == self.blocks@.len(),
                sigmas.len() == nblocks,
                forall|b: int| 0 <= b < nblocks ==> (#[trigger] orig[b]).len() <= usize::MAX,
                forall|b: int| 0 <= b < nblocks ==> partial_rescheduled(
                    (#[trigger] self.blocks@[b]).instrs@,
                    orig[b],
                    sigmas[b],
                    filled_before(all, all.len() - pending@.len(), b),
                ),
                forall|b: int| 0 <= b < nblocks ==> (#[trigger] self.blocks@[b]).preds@ == old(self).blocks@[b].preds@,
                all_latencies_defined(old(self).blocks@),
                orig == block_instrs(old(self).blocks@),
            decreases pending@.len(),
        {
            let ghost u0 = all.len() - pending@.len();
            let mut unit = pending.pop().unwrap();
            let ghost un = all[u0];
            assert(unit == un);
            proof {
                assert(same_place(un, layout[u0]));
                assert(unit_in_place(layout[u0], orig));
            }
            match final_type {
                Some(st) => {
                    let retry = match unit.last_tried_schedule_type {
                        Some(t) => t != st,
                        None => true,
                    };
                    // If the global budget went up, schedule again with it.
                    if unit.can_reorder && retry {
                        proof {
                            assert(block_latencies_defined(orig[unit.block_idx as int]));
                            assert forall|k: int| 0 <= k < unit.instrs@.len() implies (is_barrier(#[trigger] unit.instrs@[k]) <==> !unit.can_reorder) by {
                                assert(unit.instrs@[k] == layout[u0].instrs@[k]);
                            }
                            lemma_unit_latencies(orig, unit);
                        }
                        let thresholds = st.thresholds(max_regs, &unit);
                        unit.schedule(sm, max_regs, st, thresholds);
                    }
                },
                None => {},
            }
            let ghost unit_g = unit;
            let ScheduleUnit { block_idx, new_order, instrs, .. } = unit;
            let ghost f = un.first_ip as int;
            let ghost len = un.instrs@.len() as int;
            let ghost b = block_idx as int;
            let ghost slice = orig[b].subrange(f, f + len);
            let ghost uorder: Seq<usize> = match unit_g.new_order {
                Some(o) => o.order@,
                None => identity_order(len),
            };
            let mut placed = match new_order {
                Some(order) => order.apply(instrs),
                None => instrs,
            };
            proof {
                assert(unit_g.instrs@ == slice);
                if uorder == identity_order(len) && unit_g.new_order is None {
                    lemma_identity_respects(slice);
                    assert forall|k: int| 0 <= k < placed@.len() implies #[trigger] placed@[k] == orig[b][f + uorder[k]] by {
                        assert(placed@[k] == slice[k]);
                    }
                } else {
                    assert forall|k: int| 0 <= k < placed@.len() implies #[trigger] placed@[k] == orig[b][f + uorder[k]] by {
                        assert(placed@[k] == slice[uorder[k] as int]);
                    }
                    assert forall|p: int| f <= p < f + len && is_barrier(#[trigger] orig[b][p]) implies forall|q: int|
                        0 <= q < uorder.len() ==> #[trigger] uorder[q] == q by {
                        assert(layout[u0].instrs@[p - f] == orig[b][p]);
                    }
                }
                if unit_g.new_order is None {
                    assert(uorder == identity_order(len));
                }
                assert forall|q1: int, q2: int| f <= q1 < f + len && f <= q2 < f + len implies (is_barrier(#[trigger] orig[b][q1])
                    <==> is_barrier(#[trigger] orig[b][q2])) by {
                    assert(layout[u0].instrs@[q1 - f] == orig[b][q1]);
                    assert(layout[u0].instrs@[q2 - f] == orig[b][q2]);
                }
                assert(f == filled_before(all, u0, b));
                lemma_partial_extend(self.blocks@[b].instrs@, orig[b], sigmas[b], f, uorder, placed@);
            }
            let ghost blocks0 = self.blocks@;
            let ghost placed0 = placed@;
            self.blocks[block_idx].instrs.append(&mut placed);
            proof {
                if final_type is None {
                    assert(placed0 == slice);
                    assert(self.blocks@[b].instrs@ =~= orig[b].subrange(0, f + len));
                    assert forall|c: int| 0 <= c < nblocks implies (#[trigger] self.blocks@[c]).instrs@
                        == orig[c].subrange(0, filled_before(all, u0 + 1, c)) by {
                        if c != b {
                            assert(self.blocks@[c] == blocks0[c]);
                        }
                    }
                }
                sigmas = sigmas.update(b, sigmas[b] + shifted(uorder, f));
                assert forall|c: int| 0 <= c < nblocks implies partial_rescheduled(
                    (#[trigger] self.blocks@[c]).instrs@,
                    orig[c],
                    sigmas[c],
                    filled_before(all, u0 + 1, c),
                ) by {
                    if c != b {
                        assert(self.blocks@[c] == blocks0[c]);
                    }
                }
            }
        }
        proof {
            assert forall|b: int| 0 <= b < nblocks implies is_rescheduling_of(
                (#[trigger] self.blocks@[b]).instrs@,
                old(self).blocks@[b].instrs@,
            ) by {
                assert(orig[b] == old(self).blocks@[b].instrs@);
                assert(filled_before(all, all.len() as int, b) == orig[b].len());
                if final_type is None {
                    assert(orig[b].subrange(0, orig[b].len() as int) =~= orig[b]);
                }
                lemma_partial_complete(self.blocks@[b].instrs@, orig[b], sigmas[b]);
                assert(block_rescheduled(self.blocks@[b].instrs@, old(self).blocks@[b].instrs@, sigmas[b]));
            }
            if !(2 <= max_regs.gpr <= 256) {
                assert forall|b: int| 0 <= b < nblocks implies (#[trigger] self.blocks@[b]).instrs@ == old(self).blocks@[b].instrs@ by {
                    assert(orig[b] == old(self).blocks@[b].instrs@);
                    assert(filled_before(all, all.len() as int, b) == orig[b].len());
                    assert(orig[b].subrange(0, orig[b].len() as int) =~= orig[b]);
                }
            }
        }
    }
}

/// Register counts of a GPU are far below `i32::MAX`; a larger count is
/// held at it.
pub open spec fn spec_reg_count(n: u32) -> i32 {
    if n > i32::MAX { i32::MAX } else { n as i32 }
}

fn reg_count_i32(n: u32) -> (r: i32)
    ensures
        r == spec_reg_count(n),
        n <= i32::MAX ==> r == n,
        r >= 0,
{
    if n > i32::MAX as u32 { i32::MAX } else { n as i32 }
}

/// The GPRs a thread may use so that a whole workgroup of the given size
/// fits on one SM: threads are allocated in groups of four warps, GPRs in
/// multiples of 8, and no thread uses more than 255.
pub open spec fn gpr_limit(x: int, y: int, z: int) -> int {
    let threads = x * y * z;
    let rounded = ((threads + 127) / 128) * 128;
    if rounded == 0 {
        255
    } else {
        let out = ((65536int / rounded) / 8) * 8;
        if out > 255 { 255 } else { out }
    }
}

pub fn gpr_limit_from_local_size(local_size: &[u16; 3]) -> (r: u32)
    ensures
        r == gpr_limit(local_size@[0] as int, local_size@[1] as int, local_size@[2] as int),
        r <= 255,
{
    let x = local_size[0] as u64;
    let y = local_size[1] as u64;
    let z = local_size[2] as u64;
    proof {
        assert(x * y <= 0xffff * 0xffff) by (nonlinear_arith)
            requires
                x <= 0xffff,
                y <= 0xffff,
        ;
        assert(x * y * z <= 0xffff * 0xffff * 0xffff) by (nonlinear_arith)
            requires
                x * y <= 0xffff * 0xffff,
                z <= 0xffff,
        ;
        assert(0 <= x * y * z) by (nonlinear_arith)
            requires
                0 <= x,
                0 <= y,
                0 <= z,
        ;
    }
    let threads: u64 = x * y * z;
    let rounded: u64 = ((threads + 127) / 128) * 128;
    if rounded == 0 {
        return 255;
    }
    let out: u64 = ((65536 / rounded) / 8) * 8;
    if out > 255 { 255 } else { out as u32 }
}

/// A compute shader's workgroup size.
#[derive(Clone, Copy, Debug)]
pub struct ComputeShaderInfo {
    pub local_size: [u16; 3],
}

#[derive(Clone, Copy, Debug)]
pub enum ShaderStageInfo {
    Compute(ComputeShaderInfo),
    Vertex,
    Fragment,
    Geometry,
    TessellationInit,
    Tessellation,
}

#[derive(Clone, Copy, Debug)]
pub struct ShaderInfo {
    pub stage: ShaderStageInfo,
}

/// A shader: its target, its stage and its functions.
pub struct Shader {
    pub sm: ShaderModel,
    pub info: ShaderInfo,
    pub functions: Vec<Function>,
}

/// Each block of `f` is the same block of `orig` rescheduled, with the same
/// predecessors.
pub open spec fn function_rescheduled(f: Function, orig: Function) -> bool {
    &&& f.blocks@.len() == orig.blocks@.len()
    &&& forall|b: int| 0 <= b < f.blocks@.len() ==> (#[trigger] f.blocks@[b]).preds@ == orig.blocks@[b].preds@
    &&& forall|b: int| 0 <= b < f.blocks@.len() ==> is_rescheduling_of((#[trigger] f.blocks@[b]).instrs@, orig.blocks@[b].instrs@)
}

pub open spec fn shader_latencies_defined(functions: Seq<Function>) -> bool {
    forall|f: int| 0 <= f < functions.len() ==> all_latencies_defined(#[trigger] functions[f].blocks@)
}

/// The GPRs a compute workgroup leaves each thread once the hardware has
/// taken its reserved ones (none when it takes them all).
pub open spec fn compute_gpr_limit(sm: ShaderModel, local_size: [u16; 3]) -> int {
    let limit = gpr_limit(local_size@[0] as int, local_size@[1] as int, local_size@[2] as int);
    if limit > sm.hw_reserved_gprs { limit - sm.hw_reserved_gprs } else { 0 }
}

/// The register budget of a shader's functions: what the hardware has,
/// with GPRs lowered for a compute shader to what its workgroup size
/// allows, less the software-reserved GPRs.
pub open spec fn spec_max_regs(sm: ShaderModel, stage: ShaderStageInfo) -> PerRegFile<i32> {
    let base = spec_reg_count(sm.num_regs.gpr);
    let gpr = match stage {
        ShaderStageInfo::Compute(cs) => if compute_gpr_limit(sm, cs.local_size) < base {
            compute_gpr_limit(sm, cs.local_size) as i32
        } else {
            base
        },
        _ => base,
    };
    PerRegFile {
        gpr: (gpr - SW_RESERVED_GPRS) as i32,
        ugpr: spec_reg_count(sm.num_regs.ugpr),
        pred: spec_reg_count(sm.num_regs.pred),
        upred: spec_reg_count(sm.num_regs.upred),
        carry: spec_reg_count(sm.num_regs.carry),
        bar: spec_reg_count(sm.num_regs.bar),
        mem: spec_reg_count(sm.num_regs.mem),
    }
}

impl Shader {
    /// The register budget handed to each function.
    pub fn max_regs(&self) -> (r: PerRegFile<i32>)
        ensures
            r == spec_max_regs(self.sm, self.info.stage),
    {
        let nr = self.sm.num_regs;
        let mut max_regs = PerRegFile {
            gpr: reg_count_i32(nr.gpr),
            ugpr: reg_count_i32(nr.ugpr),
            pred: reg_count_i32(nr.pred),
            upred: reg_count_i32(nr.upred),
            carry: reg_count_i32(nr.carry),
            bar: reg_count_i32(nr.bar),
            mem: reg_count_i32(nr.mem),
        };
        match &self.info.stage {
            ShaderStageInfo::Compute(cs_info) => {
                let limit = gpr_limit_from_local_size(&cs_info.local_size);
                let hw = self.sm.hw_reserved_gprs;
                let limit: i32 = if limit > hw { (limit - hw) as i32 } else { 0 };
                if limit < max_regs.gpr {
                    max_regs.gpr = limit;
                }
            },
            _ => {},
        }
        max_regs.gpr = max_regs.gpr - SW_RESERVED_GPRS;
        max_regs
    }


    /// Pre-RA instruction scheduling of every function.
    ///
    /// Priorities, in order: occupancy, then fewer spills to memory, then
    /// instruction-level parallelism.  An outer loop tries register limits
    /// from most to least occupancy; the inner scheduler follows the
    /// heuristic of Goodman and Hsu (ICS 1988), extended to several
    /// register files and to how NVIDIA hardware counts register pressure.
    ///
    /// The GPR budget is the hardware's, lowered for a compute shader to
    /// what its workgroup size allows beside the hardware-reserved GPRs,
    /// less the software-reserved GPRs.
    pub fn opt_instr_sched_prepass(&mut self)
        requires
            shader_latencies_defined(old(self).functions@),
        ensures
            final(self).functions@.len() == old(self).functions@.len(),
            forall|f: int| 0 <= f < final(self).functions@.len() ==> function_rescheduled(
                #[trigger] final(self).functions@[f],
                old(self).functions@[f],
            ),
            // Each function is scheduled for the budget `spec_max_regs`; one
            // that no register limit expresses leaves every function as it was.
            !(2 <= spec_max_regs(old(self).sm, old(self).info.stage).gpr <= 256) ==> forall|f: int, b: int|
                0 <= f < final(self).functions@.len() && 0 <= b < final(self).functions@[f].blocks@.len()
                    ==> (#[trigger] final(self).functions@[f].blocks@[b]).instrs@ == old(self).functions@[f].blocks@[b].instrs@,
    {
        let max_regs = self.max_regs();

        let sm = self.sm;
        let n = self.functions.len();
        let ghost orig = self.functions@;
        let mut i: usize = 0;
        while i < n
            invariant
                n == self.functions@.len(),
                n == orig.len(),
                orig == old(self).functions@,
                i <= n,
                forall|f: int| i <= f < n ==> #[trigger] self.functions@[f] == orig[f],
                forall|f: int| 0 <= f < i ==> function_rescheduled(#[trigger] self.functions@[f], orig[f]),
                shader_latencies_defined(orig),
                max_regs == spec_max_regs(old(self).sm, old(self).info.stage),
                !(2 <= max_regs.gpr <= 256) ==> forall|f: int, b: int| 0 <= f < i && 0 <= b < self.functions@[f].blocks@.len()
                    ==> (#[trigger] self.functions@[f].blocks@[b]).instrs@ == orig[f].blocks@[b].instrs@,
            decreases n - i,
        {
            let ghost fs0 = self.functions@;
            assert(all_latencies_defined(orig[i as int].blocks@));
            self.functions[i].opt_instr_sched_prepass(&sm, max_regs);
            proof {
                assert forall|f: int| i + 1 <= f < n implies #[trigger] self.functions@[f] == orig[f] by {
                    assert(self.functions@[f] == fs0[f]);
                }
                assert forall|f: int| 0 <= f < i + 1 implies function_rescheduled(#[trigger] self.functions@[f], orig[f]) by {
                    if f < i {
                        assert(self.functions@[f] == fs0[f]);
                    }
                }
                if !(2 <= max_regs.gpr <= 256) {
                    assert forall|f: int, b: int| 0 <= f < i + 1 && 0 <= b < self.functions@[f].blocks@.len()
                        implies (#[trigger] self.functions@[f].blocks@[b]).instrs@ == orig[f].blocks@[b].instrs@ by {
                        if f < i {
                            assert(self.functions@[f] == fs0[f]);
                        }
                    }
                }
            }
            i += 1;
        }
    }
}


pub open spec fn is_barrier(instr: Instr) -> bool {
    spec_side_effect(instr.op.opcode) == SideEffect::Barrier
}

/// `out` is `inp` rearranged by `order` (position `k` of `out` holds
/// instruction `order[k]` of `inp`), the order keeps every data, guard and
/// memory dependency of `inp`, and barriers stay where they were.
pub open spec fn block_rescheduled(out: Seq<Instr>, inp: Seq<Instr>, order: Seq<usize>) -> bool {
    &&& out.len() == inp.len()
    &&& respects_dependencies(order, inp)
    &&& forall|k: int| 0 <= k < out.len() ==> #[trigger] out[k] == inp[order[k] as int]
    &&& forall|p: int| 0 <= p < inp.len() && is_barrier(#[trigger] inp[p]) ==> order[p] == p
    &&& forall|p: int, k: int| 0 <= k < p < inp.len() && #[trigger] is_barrier(inp[p]) ==> #[trigger] order[k] < p
    &&& forall|p: int, k: int| 0 <= p < k < inp.len() && #[trigger] is_barrier(inp[p]) ==> #[trigger] order[k] > p
    &&& forall|k: int| 0 <= k < inp.len() ==> same_run(inp, k, #[trigger] order[k] as int)
}

/// `out` is `inp` rearranged by some order that keeps the dependencies
/// and the barriers.
pub open spec fn is_rescheduling_of(out: Seq<Instr>, inp: Seq<Instr>) -> bool {
    exists|order: Seq<usize>| block_rescheduled(out, inp, order)
}

/// `out` is the first `f` instructions of `inp` rearranged by `sigma`,
/// keeping the dependencies among them and the barriers in place.
pub open spec fn partial_rescheduled(out: Seq<Instr>, inp: Seq<Instr>, sigma: Seq<usize>, f: int) -> bool {
    &&& 0 <= f <= inp.len()
    &&& out.len() == f
    &&& is_permutation(sigma, f)
    &&& forall|k: int| 0 <= k < f ==> #[trigger] out[k] == inp[sigma[k] as int]
    &&& forall|j: int, i: int, v: SSAValue, k: int, d: int|
        j < f && #[trigger] uses(inp[j], i, v) && #[trigger] is_last_def(inp, j, v, k, d) ==> precedes(sigma, k, j)
    &&& forall|j: int, v: SSAValue, k: int, d: int|
        j < f && guards(inp[j], v) && #[trigger] is_last_def(inp, j, v, k, d) ==> precedes(sigma, k, j)
    &&& forall|a: int, b: int| b < f && #[trigger] next_memory(inp, a, b) ==> precedes(sigma, a, b)
    &&& forall|p: int| 0 <= p < f && is_barrier(#[trigger] inp[p]) ==> sigma[p] == p
    &&& forall|p: int, k: int| 0 <= k < p < f && #[trigger] is_barrier(inp[p]) ==> #[trigger] sigma[k] < p
    &&& forall|p: int, k: int| 0 <= p < k < f && #[trigger] is_barrier(inp[p]) ==> #[trigger] sigma[k] > p
    &&& forall|k: int| 0 <= k < f ==> same_run(inp, k, #[trigger] sigma[k] as int)
}

pub open spec fn identity_order(n: int) -> Seq<usize> {
    Seq::new(n as nat, |k: int| k as usize)
}

pub open spec fn shifted(order: Seq<usize>, f: int) -> Seq<usize> {
    Seq::new(order.len(), |k: int| (order[k] + f) as usize)
}

/// The original order keeps every dependency.
pub proof fn lemma_identity_respects(instrs: Seq<Instr>)
    requires
        instrs.len() <= usize::MAX,
    ensures
        respects_dependencies(identity_order(instrs.len() as int), instrs),
{
    let n = instrs.len() as int;
    let id = identity_order(n);
    assert forall|w: int| 0 <= w < n implies #[trigger] id.contains(w as usize) by {
        assert(id[w] == w as usize);
    }
    assert forall|k: int, j: int| 0 <= k < j < n implies precedes(id, k, j) by {
        assert(id[k] == k && id[j] == j);
    }
}

proof fn lemma_partial_complete(out: Seq<Instr>, inp: Seq<Instr>, sigma: Seq<usize>)
    requires
        partial_rescheduled(out, inp, sigma, inp.len() as int),
    ensures
        block_rescheduled(out, inp, sigma),
{
    assert forall|j: int, i: int, v: SSAValue, k: int, d: int|
        #[trigger] uses(inp[j], i, v) && #[trigger] is_last_def(inp, j, v, k, d) implies precedes(sigma, k, j) by {}
    assert forall|j: int, v: SSAValue, k: int, d: int|
        guards(inp[j], v) && #[trigger] is_last_def(inp, j, v, k, d) implies precedes(sigma, k, j) by {}
    assert forall|a: int, b: int| #[trigger] next_memory(inp, a, b) implies precedes(sigma, a, b) by {}
}

/// Appending the instructions `f..f + n` of `inp`, rearranged by an order
/// that keeps their dependencies and barriers, extends a partial
/// rescheduling.
proof fn lemma_partial_extend(
    out: Seq<Instr>,
    inp: Seq<Instr>,
    sigma: Seq<usize>,
    f: int,
    order: Seq<usize>,
    placed: Seq<Instr>,
)
    requires
        partial_rescheduled(out, inp, sigma, f),
        f + order.len() <= inp.len() <= usize::MAX,
        respects_dependencies(order, inp.subrange(f, f + order.len())),
        placed.len() == order.len(),
        forall|k: int| 0 <= k < placed.len() ==> #[trigger] placed[k] == inp[f + order[k]],
        forall|p: int| f <= p < f + order.len() && is_barrier(#[trigger] inp[p]) ==> forall|q: int|
            0 <= q < order.len() ==> #[trigger] order[q] == q,
        forall|q1: int, q2: int| f <= q1 < f + order.len() && f <= q2 < f + order.len() ==> (is_barrier(#[trigger] inp[q1])
            <==> is_barrier(#[trigger] inp[q2])),
    ensures
        partial_rescheduled(out + placed, inp, sigma + shifted(order, f), f + order.len()),
{
    let n = order.len() as int;
    let f2 = f + n;
    let sl = inp.subrange(f, f2);
    let sh = shifted(order, f);
    let s2 = sigma + sh;
    let out2 = out + placed;
    assert forall|k: int| 0 <= k < n implies #[trigger] sh[k] == order[k] + f && f <= sh[k] < f2 by {}
    assert forall|k: int| 0 <= k < f2 implies #[trigger] s2[k] == if k < f { sigma[k] } else { sh[k - f] } by {}
    // A permutation of 0..f2.
    assert forall|a: int, b: int| 0 <= a < f2 && 0 <= b < f2 && a != b implies s2[a] != s2[b] by {
        if a < f && b < f {
        } else if a >= f && b >= f {
            assert(order[a - f] != order[b - f]);
        } else if a < f {
            assert(sigma[a] < f);
        } else {
            assert(sigma[b] < f);
        }
    }
    assert(s2.no_duplicates());
    assert forall|w: int| 0 <= w < f2 implies #[trigger] s2.contains(w as usize) by {
        if w < f {
            assert(sigma.contains(w as usize));
            let a = choose|a: int| 0 <= a < sigma.len() && sigma[a] == w as usize;
            assert(s2[a] == w as usize);
        } else {
            assert(order.contains((w - f) as usize));
            let a = choose|a: int| 0 <= a < order.len() && order[a] == (w - f) as usize;
            assert(s2[f + a] == w as usize);
        }
    }
    assert forall|k: int| 0 <= k < f2 implies #[trigger] out2[k] == inp[s2[k] as int] by {
        if k >= f {
            assert(out2[k] == placed[k - f]);
        }
    }
    assert forall|k: int, j: int|
        0 <= k < j < f2 && (j < f ==> precedes(sigma, k, j)) && (f <= k ==> precedes(order, k - f, j - f))
            implies precedes(s2, k, j) by {
        if j < f {
            let (a, b) = choose|a: int, b: int| 0 <= a < b < sigma.len() && sigma[a] == k && sigma[b] == j;
            assert(s2[a] == k && s2[b] == j);
        } else if k < f {
            assert(sigma.contains(k as usize));
            let a = choose|a: int| 0 <= a < sigma.len() && sigma[a] == k as usize;
            assert(s2.contains(j as usize));
            let b = choose|b: int| 0 <= b < s2.len() && s2[b] == j as usize;
            if b < f {
                assert(sigma[b] < f);
            }
            assert(s2[a] == k);
        } else {
            let (a, b) = choose|a: int, b: int| 0 <= a < b < order.len() && order[a] == k - f && order[b] == j - f;
            assert(s2[f + a] == k && s2[f + b] == j);
        }
    }
    assert forall|j: int, i: int, v: SSAValue, k: int, d: int|
        j < f2 && #[trigger] uses(inp[j], i, v) && #[trigger] is_last_def(inp, j, v, k, d) implies precedes(s2, k, j) by {
        if f <= k {
            assert(sl[j - f] == inp[j] && sl[k - f] == inp[k]);
            assert forall|k2: int, d2: int| k - f < k2 < j - f && #[trigger] crate::graph::defines(sl[k2], d2, v) implies false by {
                assert(sl[k2] == inp[k2 + f]);
                assert(crate::graph::defines(inp[k2 + f], d2, v));
            }
            assert(is_last_def(sl, j - f, v, k - f, d));
            assert(uses(sl[j - f], i, v));
        }
    }
    assert forall|j: int, v: SSAValue, k: int, d: int|
        j < f2 && guards(inp[j], v) && #[trigger] is_last_def(inp, j, v, k, d) implies precedes(s2, k, j) by {
        if f <= k {
            assert(sl[j - f] == inp[j] && sl[k - f] == inp[k]);
            assert forall|k2: int, d2: int| k - f < k2 < j - f && #[trigger] crate::graph::defines(sl[k2], d2, v) implies false by {
                assert(sl[k2] == inp[k2 + f]);
                assert(crate::graph::defines(inp[k2 + f], d2, v));
            }
            assert(is_last_def(sl, j - f, v, k - f, d));
            assert(guards(sl[j - f], v));
        }
    }
    assert forall|a: int, b: int| b < f2 && #[trigger] next_memory(inp, a, b) implies precedes(s2, a, b) by {
        if f <= a {
            assert forall|c: int| a - f < c < b - f implies !#[trigger] crate::graph::is_memory(sl, c) by {
                assert(sl[c] == inp[c + f]);
                assert(!crate::graph::is_memory(inp, c + f));
            }
            assert(sl[a - f] == inp[a] && sl[b - f] == inp[b]);
            assert(next_memory(sl, a - f, b - f));
        }
    }
    assert forall|p: int| 0 <= p < f2 && is_barrier(#[trigger] inp[p]) implies s2[p] == p by {
        if p >= f {
            assert(order[p - f] == p - f);
        }
    }
    assert forall|p: int, k: int| 0 <= k < p < f2 && #[trigger] is_barrier(inp[p]) implies #[trigger] s2[k] < p by {
        if k < f {
            assert(sigma[k] < f);
            if p < f {
                assert(sigma[k] < p);
            }
        } else {
            assert(order[k - f] == k - f);
        }
    }
    assert forall|k: int| 0 <= k < f2 implies same_run(inp, k, #[trigger] s2[k] as int) by {
        if k >= f {
            assert forall|q: int| (k <= q <= s2[k] || s2[k] <= q <= k) implies (is_barrier(#[trigger] inp[q]) <==> is_barrier(inp[k])) by {}
        }
    }
    assert forall|p: int, k: int| 0 <= p < k < f2 && #[trigger] is_barrier(inp[p]) implies #[trigger] s2[k] > p by {
        if k >= f {
            if p >= f {
                assert(order[k - f] == k - f);
            }
        } else {
            assert(sigma[k] > p);
        }
    }
}


proof fn lemma_permuted_multiset(inp: Seq<Instr>, out: Seq<Instr>, sigma: Seq<usize>)
    requires
        inp.len() <= usize::MAX,
        is_permutation(sigma, inp.len() as int),
        out.len() == inp.len(),
        forall|k: int| 0 <= k < out.len() ==> #[trigger] out[k] == inp[sigma[k] as int],
    ensures
        out.to_multiset() =~= inp.to_multiset(),
    decreases inp.len(),
{
    broadcast use vstd::seq_lib::group_to_multiset_ensures;

    let n = inp.len() as int;
    if n == 0 {
        assert(out =~= Seq::<Instr>::empty());
        assert(inp =~= Seq::<Instr>::empty());
    } else {
        let last = n - 1;
        assert(sigma.contains(last as usize));
        let p = choose|p: int| 0 <= p < sigma.len() && sigma[p] == last as usize;
        let sigma2 = sigma.remove(p);
        let out2 = out.remove(p);
        let inp2 = inp.drop_last();
        assert forall|k: int| 0 <= k < sigma2.len() implies #[trigger] sigma2[k] == if k < p { sigma[k] } else { sigma[k + 1] } by {}
        assert forall|k: int| 0 <= k < sigma2.len() implies sigma2[k] < n - 1 by {
            let q = if k < p { k } else { k + 1 };
            assert(sigma[q] != sigma[p]);
        }
        assert forall|a: int, b: int| 0 <= a < sigma2.len() && 0 <= b < sigma2.len() && a != b implies sigma2[a] != sigma2[b] by {
            let qa = if a < p { a } else { a + 1 };
            let qb = if b < p { b } else { b + 1 };
            assert(sigma[qa] != sigma[qb]);
        }
        assert forall|w: int| 0 <= w < n - 1 implies #[trigger] sigma2.contains(w as usize) by {
            assert(sigma.contains(w as usize));
            let a = choose|a: int| 0 <= a < sigma.len() && sigma[a] == w as usize;
            if a < p {
                assert(sigma2[a] == w as usize);
            } else {
                assert(a != p);
                assert(sigma2[a - 1] == w as usize);
            }
        }
        assert forall|k: int| 0 <= k < out2.len() implies #[trigger] out2[k] == inp2[sigma2[k] as int] by {
            let q = if k < p { k } else { k + 1 };
            assert(out2[k] == out[q]);
        }
        lemma_permuted_multiset(inp2, out2, sigma2);
        assert(inp =~= inp2.push(inp[last]));
        assert(out[p] == inp[last]);
        assert(out.to_multiset().count(out[p]) > 0);
        assert(out.to_multiset() =~= out2.to_multiset().insert(out[p]));
    }
}

/// Rescheduling keeps a block's instructions: the same number of them,
/// and the same instructions as a multiset.
pub proof fn lemma_rescheduling_keeps_instructions(out: Seq<Instr>, inp: Seq<Instr>)
    requires
        inp.len() <= usize::MAX,
        is_rescheduling_of(out, inp),
    ensures
        out.len() == inp.len(),
        out.to_multiset() =~= inp.to_multiset(),
{
    let order = choose|order: Seq<usize>| block_rescheduled(out, inp, order);
    lemma_permuted_multiset(inp, out, order);
}

/// Rescheduling leaves every barrier where it was.
pub proof fn lemma_rescheduling_pins_barriers(out: Seq<Instr>, inp: Seq<Instr>, p: int)
    requires
        is_rescheduling_of(out, inp),
        0 <= p < inp.len(),
        is_barrier(inp[p]),
    ensures
        out[p] == inp[p],
{
    let order = choose|order: Seq<usize>| block_rescheduled(out, inp, order);
    assert(out[p] == inp[order[p] as int]);
}

/// Instructions `a` and `b` of `s` lie in one run of instructions that are
/// all barriers or all not: the same schedule unit.
pub open spec fn same_run(s: Seq<Instr>, a: int, b: int) -> bool {
    forall|q: int| (a <= q <= b || b <= q <= a) ==> (is_barrier(#[trigger] s[q]) <==> is_barrier(s[a]))
}

/// `x` is one of `s[lo..hi]`.
pub open spec fn occurs_in(s: Seq<Instr>, lo: int, hi: int, x: Instr) -> bool {
    exists|j: int| lo <= j < hi && s[j] == x
}

/// The reordering behind a rescheduling keeps each barrier in place and
/// moves nothing across it.
proof fn lemma_order_barrier_sides(out: Seq<Instr>, inp: Seq<Instr>, order: Seq<usize>, p: int)
    requires
        block_rescheduled(out, inp, order),
        0 <= p < inp.len(),
        is_barrier(inp[p]),
    ensures
        order[p] == p,
        forall|k: int| 0 <= k < p ==> #[trigger] order[k] < p,
        forall|k: int| p < k < order.len() ==> #[trigger] order[k] > p,
        forall|k: int| 0 <= k < out.len() ==> #[trigger] out[k] == inp[order[k] as int],
        forall|w: int| 0 <= w < inp.len() ==> #[trigger] order.contains(w as usize),
        order.len() == inp.len(),
{
}

/// Nothing crosses a barrier: the instructions before it after
/// rescheduling are those that were before it, and likewise after it.
pub proof fn lemma_rescheduling_keeps_barrier_sides(out: Seq<Instr>, inp: Seq<Instr>, p: int)
    requires
        inp.len() <= usize::MAX,
        is_rescheduling_of(out, inp),
        0 <= p < inp.len(),
        is_barrier(inp[p]),
    ensures
        forall|k: int| 0 <= k < p ==> occurs_in(inp, 0, p, #[trigger] out[k]),
        forall|j: int| 0 <= j < p ==> occurs_in(out, 0, p, #[trigger] inp[j]),
        forall|k: int| p < k < out.len() ==> occurs_in(inp, p + 1, inp.len() as int, #[trigger] out[k]),
        forall|j: int| p < j < inp.len() ==> occurs_in(out, p + 1, out.len() as int, #[trigger] inp[j]),
{
    let order = choose|order: Seq<usize>| block_rescheduled(out, inp, order);
    lemma_order_barrier_sides(out, inp, order, p);
    assert forall|k: int| 0 <= k < p implies occurs_in(inp, 0, p, #[trigger] out[k]) by {
        let j = order[k] as int;
        assert(out[k] == inp[j] && j < p);
    }
    assert forall|k: int| p < k < out.len() implies occurs_in(inp, p + 1, inp.len() as int, #[trigger] out[k]) by {
        let j = order[k] as int;
        assert(out[k] == inp[j] && j > p);
    }
    assert forall|j: int| 0 <= j < p implies occurs_in(out, 0, p, #[trigger] inp[j]) by {
        assert(order.contains(j as usize));
        let a = choose|a: int| 0 <= a < order.len() && order[a] == j as usize;
        if a > p {
            assert(order[a] > p);
        }
        assert(out[a] == inp[j]);
    }
    assert forall|j: int| p < j < inp.len() implies occurs_in(out, p + 1, out.len() as int, #[trigger] inp[j]) by {
        assert(order.contains(j as usize));
        let a = choose|a: int| 0 <= a < order.len() && order[a] == j as usize;
        if a < p {
            assert(order[a] < p);
        }
        assert(out[a] == inp[j]);
    }
}

/// Rescheduling keeps every value's last definition before each
/// instruction that reads it, as a source or as its guard: some copy of
/// the defining instruction comes before some copy of the reader, at the
/// positions the reordering moved them to.
pub proof fn lemma_rescheduling_keeps_definitions_first(
    out: Seq<Instr>,
    inp: Seq<Instr>,
    j: int,
    v: SSAValue,
    k: int,
    d: int,
)
    requires
        is_rescheduling_of(out, inp),
        is_last_def(inp, j, v, k, d),
        (exists|i: int| uses(inp[j], i, v)) || guards(inp[j], v),
    ensures
        exists|a: int, b: int| 0 <= a < b < out.len() && out[a] == inp[k] && out[b] == inp[j],
{
    let order = choose|order: Seq<usize>| block_rescheduled(out, inp, order);
    if guards(inp[j], v) {
        assert(precedes(order, k, j));
    } else {
        let i = choose|i: int| uses(inp[j], i, v);
        assert(precedes(order, k, j));
    }
    let (a, b) = choose|a: int, b: int| 0 <= a < b < order.len() && order[a] == k && order[b] == j;
    assert(out[a] == inp[k] && out[b] == inp[j]);
}

proof fn lemma_precedes_trans(order: Seq<usize>, a: int, b: int, c: int)
    requires
        order.no_duplicates(),
        precedes(order, a, b),
        precedes(order, b, c),
    ensures
        precedes(order, a, c),
{
    let (i, j) = choose|i: int, j: int| 0 <= i < j < order.len() && order[i] == a && order[j] == b;
    let (j2, k) = choose|j2: int, k: int| 0 <= j2 < k < order.len() && order[j2] == b && order[k] == c;
    assert(j == j2);
}

proof fn lemma_memory_pair(inp: Seq<Instr>, order: Seq<usize>, a: int, b: int)
    requires
        respects_dependencies(order, inp),
        0 <= a < b < inp.len(),
        crate::graph::is_memory(inp, a),
        crate::graph::is_memory(inp, b),
    ensures
        precedes(order, a, b),
    decreases b - a,
{
    if exists|c: int| a < c < b && #[trigger] crate::graph::is_memory(inp, c) {
        let c = choose|c: int| a < c < b && #[trigger] crate::graph::is_memory(inp, c);
        lemma_memory_pair(inp, order, a, c);
        lemma_memory_pair(inp, order, c, b);
        lemma_precedes_trans(order, a, c, b);
    } else {
        assert(next_memory(inp, a, b));
    }
}

/// Rescheduling keeps the memory ops in their original order: of any two
/// memory ops, the earlier one still comes first.
pub proof fn lemma_rescheduling_keeps_memory_order(out: Seq<Instr>, inp: Seq<Instr>, a: int, b: int)
    requires
        is_rescheduling_of(out, inp),
        0 <= a < b < inp.len(),
        crate::graph::is_memory(inp, a),
        crate::graph::is_memory(inp, b),
    ensures
        exists|x: int, y: int| 0 <= x < y < out.len() && out[x] == inp[a] && out[y] == inp[b],
{
    let order = choose|order: Seq<usize>| block_rescheduled(out, inp, order);
    lemma_memory_pair(inp, order, a, b);
    let (x, y) = choose|x: int, y: int| 0 <= x < y < order.len() && order[x] == a && order[y] == b;
    assert(out[x] == inp[a] && out[y] == inp[b]);
}

} // verus!
