//! Register-pressure model: spills cascade from small register files into
//! larger ones, and a candidate instruction is scored by what scheduling it
//! would cost in spills and stalls.

use vstd::prelude::*;
use crate::regs::PerRegFile;

verus! {

/// Software-reserved GPRs, taken off the budget.
pub const SW_RESERVED_GPRS: i32 = 2;

/// Extra headroom kept free when scheduling in spill mode.
pub const SW_RESERVED_GPRS_SPILL: i32 = 2;

/// Target number of free GPRs: the gap between the register count at which
/// scheduling switches to minimising pressure and the count at which it
/// gives up.
pub const TARGET_FREE: i32 = 4;

/// Cost, in cycles, of a spill and fill from each file into the next one.
pub const BAR_SPILL_COST: i64 = 12;
pub const PRED_SPILL_COST: i64 = 18;
pub const UPRED_SPILL_COST: i64 = 18;
pub const UGPR_SPILL_COST: i64 = 21;
pub const GPR_SPILL_COST: i64 = 64;

/// Register counts handed to the pressure model stay within this bound, so
/// that cascading and weighting them cannot overflow.
pub const PRESSURE_BOUND: i64 = 0x100_0000_0000;

pub open spec fn pressure_ok(p: PerRegFile<i64>) -> bool {
    &&& -PRESSURE_BOUND <= p.gpr <= PRESSURE_BOUND
    &&& -PRESSURE_BOUND <= p.ugpr <= PRESSURE_BOUND
    &&& -PRESSURE_BOUND <= p.pred <= PRESSURE_BOUND
    &&& -PRESSURE_BOUND <= p.upred <= PRESSURE_BOUND
    &&& -PRESSURE_BOUND <= p.carry <= PRESSURE_BOUND
    &&& -PRESSURE_BOUND <= p.bar <= PRESSURE_BOUND
    &&& -PRESSURE_BOUND <= p.mem <= PRESSURE_BOUND
}

/// No register count that the pressure model computes reaches this bound.
pub const PEAK_BOUND: i64 = 0x1000_0000_0000;

/// How far `used` goes over `max`, or 0.
pub open spec fn excess(used: int, max: int) -> int {
    if used > max { used - max } else { 0 }
}

/// Registers of `p[UGPR]` once uniform predicates that do not fit have
/// spilled into it.
pub open spec fn ugpr_after_spill(p: PerRegFile<i64>, m: PerRegFile<i32>) -> int {
    p.ugpr + excess(p.upred as int, m.upred as int)
}

/// GPRs in use once every smaller file has spilled what does not fit along
/// the ladder Bar → GPR, Pred → GPR, UPred → UGPR, UGPR → GPR (GPR itself
/// spills to memory, which does not change the GPR count).
pub open spec fn used_gprs(p: PerRegFile<i64>, m: PerRegFile<i32>) -> int {
    p.gpr + excess(p.bar as int, m.bar as int) + excess(p.pred as int, m.pred as int)
        + excess(ugpr_after_spill(p, m), m.ugpr as int)
}

/// Weighted spill cost of one step of the ladder, and weighted slack.
pub open spec fn step_badness(used: int, max: int, w: int) -> int {
    if used > max { (used - max) * w } else { 0 }
}

pub open spec fn step_goodness(used: int, max: int, w: int) -> int {
    if used > max { 0 } else { (max - used) * w }
}

pub open spec fn gpr_after_spill(p: PerRegFile<i64>, m: PerRegFile<i32>) -> int {
    used_gprs(p, m)
}

/// Total spill badness along the ladder.
pub open spec fn score_badness(p: PerRegFile<i64>, m: PerRegFile<i32>) -> int {
    step_badness(p.bar as int, m.bar as int, 12) + step_badness(p.pred as int, m.pred as int, 18)
        + step_badness(p.upred as int, m.upred as int, 18)
        + step_badness(ugpr_after_spill(p, m), m.ugpr as int, 21)
        + step_badness(gpr_after_spill(p, m), m.gpr as int, 64)
}

/// Total weighted slack along the ladder.
pub open spec fn score_goodness(p: PerRegFile<i64>, m: PerRegFile<i32>) -> int {
    step_goodness(p.bar as int, m.bar as int, 12) + step_goodness(p.pred as int, m.pred as int, 18)
        + step_goodness(p.upred as int, m.upred as int, 18)
        + step_goodness(ugpr_after_spill(p, m), m.ugpr as int, 21)
        + step_goodness(gpr_after_spill(p, m), m.gpr as int, 64)
}

fn spill_excess(used: i64, max: i32) -> (r: i64)
    requires
        -0x1000_0000_0000 <= used <= 0x1000_0000_0000,
    ensures
        r == excess(used as int, max as int),
{
    if used > max as i64 { used - max as i64 } else { 0 }
}

/// Models how many GPRs will be used after spilling other register files.
pub fn calc_used_gprs(p: PerRegFile<i64>, max_regs: PerRegFile<i32>) -> (r: i64)
    requires
        pressure_ok(p),
    ensures
        r == used_gprs(p, max_regs),
        r < PEAK_BOUND,
{
    let bar = spill_excess(p.bar, max_regs.bar);
    let pred = spill_excess(p.pred, max_regs.pred);
    let upred = spill_excess(p.upred, max_regs.upred);
    let ugpr = spill_excess(p.ugpr + upred, max_regs.ugpr);
    p.gpr + bar + pred + ugpr
}

fn spill_step(used: i64, max: i32, weight: i64) -> (r: (i64, i64))
    requires
        -0x1000_0000_0000 <= used <= 0x1000_0000_0000,
        0 <= weight <= 64,
    ensures
        r.0 == step_badness(used as int, max as int, weight as int),
        r.1 == step_goodness(used as int, max as int, weight as int),
        0 <= r.0 <= 0x8_0000_0000_0000,
        0 <= r.1 <= 0x8_0000_0000_0000,
{
    proof {
        lemma_step_bounds(used as int, max as int, weight as int);
    }
    if used > max as i64 {
        ((used - max as i64) * weight, 0)
    } else {
        (0, (max as i64 - used) * weight)
    }
}

/// Spill badness and slack goodness of pressure `p`, kept apart so that
/// free registers in one file never offset a spill in another.
pub fn calc_score_part(p: PerRegFile<i64>, max_regs: PerRegFile<i32>) -> (r: (i64, i64))
    requires
        pressure_ok(p),
    ensures
        r.0 == score_badness(p, max_regs),
        r.1 == score_goodness(p, max_regs),
        0 <= r.0 <= 0x28_0000_0000_0000,
        0 <= r.1 <= 0x28_0000_0000_0000,
{
    let (b1, g1) = spill_step(p.bar, max_regs.bar, BAR_SPILL_COST);
    let (b2, g2) = spill_step(p.pred, max_regs.pred, PRED_SPILL_COST);
    let (b3, g3) = spill_step(p.upred, max_regs.upred, UPRED_SPILL_COST);
    let ugpr = p.ugpr + spill_excess(p.upred, max_regs.upred);
    let (b4, g4) = spill_step(ugpr, max_regs.ugpr, UGPR_SPILL_COST);
    let gpr = calc_used_gprs(p, max_regs);
    let (b5, g5) = spill_step(gpr, max_regs.gpr, GPR_SPILL_COST);
    (b1 + b2 + b3 + b4 + b5, g1 + g2 + g3 + g4 + g5)
}

/// The register counts at which scheduling turns to minimising pressure,
/// and at which it gives up.
#[derive(Clone, Copy, Debug, PartialEq, Eq, Structural)]
pub struct ScheduleThresholds {
    pub heuristic_threshold: i64,
    pub quit_threshold: i64,
}

/// A candidate's score.  Usable candidates beat unusable ones, then lower
/// badness wins, then higher goodness.
#[derive(Clone, Copy, Debug, PartialEq, Eq, Structural)]
pub struct Score {
    pub usable: bool,
    pub badness: i64,
    pub goodness: i64,
}

pub open spec fn score_gt(a: Score, b: Score) -> bool {
    (a.usable && !b.usable) || (a.usable == b.usable && (a.badness < b.badness || (a.badness
        == b.badness && a.goodness > b.goodness)))
}

impl Score {
    pub fn gt(&self, other: &Score) -> (r: bool)
        ensures
            r == score_gt(*self, *other),
    {
        if self.usable != other.usable {
            return self.usable;
        }
        if self.badness != other.badness {
            return self.badness < other.badness;
        }
        self.goodness > other.goodness
    }
}

pub open spec fn peak_gprs(peak1: PerRegFile<i64>, peak2: PerRegFile<i64>, m: PerRegFile<i32>) -> int {
    let a = used_gprs(peak1, m);
    let b = used_gprs(peak2, m);
    if a > b { a } else { b }
}

pub open spec fn spec_calc_score(
    net: PerRegFile<i64>,
    peak1: PerRegFile<i64>,
    peak2: PerRegFile<i64>,
    m: PerRegFile<i32>,
    delay_cycles: u32,
    t: ScheduleThresholds,
) -> Score {
    if peak_gprs(peak1, peak2, m) > t.quit_threshold {
        Score { usable: false, badness: 0, goodness: 0 }
    } else {
        Score {
            usable: true,
            badness: (score_badness(net, m) + delay_cycles) as i64,
            goodness: score_goodness(net, m) as i64,
        }
    }
}

/// Scores scheduling an instruction whose pressure after it is `net`, whose
/// peaks during it are `peak1` and `peak2`, and which would stall for
/// `delay_cycles`.
pub fn calc_score(
    net: PerRegFile<i64>,
    peak1: PerRegFile<i64>,
    peak2: PerRegFile<i64>,
    max_regs: PerRegFile<i32>,
    delay_cycles: u32,
    thresholds: ScheduleThresholds,
) -> (r: Score)
    requires
        pressure_ok(net),
        pressure_ok(peak1),
        pressure_ok(peak2),
    ensures
        r == spec_calc_score(net, peak1, peak2, max_regs, delay_cycles, thresholds),
        r.usable ==> r.badness == score_badness(net, max_regs) + delay_cycles,
        r.usable ==> r.goodness == score_goodness(net, max_regs),
{
    let a = calc_used_gprs(peak1, max_regs);
    let b = calc_used_gprs(peak2, max_regs);
    let peak = if a > b { a } else { b };
    if peak > thresholds.quit_threshold {
        return Score { usable: false, badness: 0, goodness: 0 };
    }
    let (badness, goodness) = calc_score_part(net, max_regs);
    Score { usable: true, badness: badness + delay_cycles as i64, goodness }
}

/// Stalling longer never makes a candidate score better: with everything
/// else fixed, the score for a larger delay never ranks above the score for
/// a smaller one.
pub proof fn lemma_score_delay_monotone(
    net: PerRegFile<i64>,
    peak1: PerRegFile<i64>,
    peak2: PerRegFile<i64>,
    max_regs: PerRegFile<i32>,
    d1: u32,
    d2: u32,
    t: ScheduleThresholds,
)
    requires
        pressure_ok(net),
        d1 <= d2,
    ensures
        !score_gt(
            spec_calc_score(net, peak1, peak2, max_regs, d2, t),
            spec_calc_score(net, peak1, peak2, max_regs, d1, t),
        ),
{
    lemma_score_bounds(net, max_regs);
}

proof fn lemma_step_bounds(u: int, mx: int, w: int)
    requires
        -0x1000_0000_0000 <= u <= 0x1000_0000_0000,
        -0x8000_0000 <= mx <= 0x7fff_ffff,
        0 <= w <= 64,
    ensures
        0 <= step_badness(u, mx, w) <= 0x8_0000_0000_0000,
        0 <= step_goodness(u, mx, w) <= 0x8_0000_0000_0000,
{
    if u > mx {
        assert((u - mx) * w <= 0x2000_0000_0000 * 64) by (nonlinear_arith)
            requires
                0 < u - mx <= 0x2000_0000_0000,
                0 <= w <= 64,
        ;
        assert(0 <= (u - mx) * w) by (nonlinear_arith)
            requires
                0 < u - mx,
                0 <= w,
        ;
    } else {
        assert((mx - u) * w <= 0x2000_0000_0000 * 64) by (nonlinear_arith)
            requires
                0 <= mx - u <= 0x2000_0000_0000,
                0 <= w <= 64,
        ;
        assert(0 <= (mx - u) * w) by (nonlinear_arith)
            requires
                0 <= mx - u,
                0 <= w,
        ;
    }
}

proof fn lemma_score_bounds(p: PerRegFile<i64>, m: PerRegFile<i32>)
    requires
        pressure_ok(p),
    ensures
        0 <= score_badness(p, m) <= 0x28_0000_0000_0000,
        0 <= score_goodness(p, m) <= 0x28_0000_0000_0000,
{
    lemma_step_bounds(p.bar as int, m.bar as int, 12);
    lemma_step_bounds(p.pred as int, m.pred as int, 18);
    lemma_step_bounds(p.upred as int, m.upred as int, 18);
    lemma_step_bounds(ugpr_after_spill(p, m), m.ugpr as int, 21);
    lemma_step_bounds(gpr_after_spill(p, m), m.gpr as int, 64);
}

} // verus!
