//! Bottom-up list scheduling of one region, guided by register pressure.

use vstd::prelude::*;
use vstd::multiset::Multiset;
use crate::regs::{PerRegFile, RegFile};
use crate::ir::{Dst, Instr, SSAValue};
use crate::live::{LiveSet, capped_count};
use crate::net_live::NetLive;
use crate::graph::{
    in_count, head_count, lemma_in_count_update, lemma_in_count_pos, lemma_in_count_witness, lemma_head_count_from,
    DepGraph, Edge, Node, NodeLabel, ShaderModel, calc_statistics, edge_count, edge_of,
    generate_dep_graph, guards, has_dependency_edges, has_edge, has_edge_lat, heads_in_range, is_edge, is_last_def,
    is_permutation, is_topological_order, latencies_defined, lemma_edge_count_update, next_memory, precedes,
    uses,
};
use crate::score::{Score, ScheduleThresholds, calc_score, calc_used_gprs, pressure_ok, spec_calc_score, used_gprs};

verus! {

/// A candidate whose dependents have all been scheduled.  The best one is
/// the one on the longest path to the end, then the one latest in the
/// original order.
#[derive(Clone, Copy, Debug, PartialEq, Eq, Structural)]
pub struct ReadyInstr {
    pub cycles_to_end: u64,
    pub index: usize,
}

/// A candidate that becomes ready at `ready_cycle`.  The best one is the
/// one ready soonest, then the one latest in the original order.
#[derive(Clone, Copy, Debug, PartialEq, Eq, Structural)]
pub struct FutureReadyInstr {
    pub ready_cycle: u64,
    pub index: usize,
}

pub open spec fn ready_gt(a: ReadyInstr, b: ReadyInstr) -> bool {
    a.cycles_to_end > b.cycles_to_end || (a.cycles_to_end == b.cycles_to_end && a.index > b.index)
}

pub open spec fn future_gt(a: FutureReadyInstr, b: FutureReadyInstr) -> bool {
    a.ready_cycle < b.ready_cycle || (a.ready_cycle == b.ready_cycle && a.index > b.index)
}

impl ReadyInstr {
    pub fn new(g: &DepGraph, i: usize) -> (r: ReadyInstr)
        requires
            i < g.nodes@.len(),
        ensures
            r.index == i,
            r.cycles_to_end == g.nodes@[i as int].label.cycles_to_end,
    {
        ReadyInstr { cycles_to_end: g.nodes[i].label.cycles_to_end, index: i }
    }

    pub fn gt(&self, o: &ReadyInstr) -> (r: bool)
        ensures
            r == ready_gt(*self, *o),
    {
        self.cycles_to_end > o.cycles_to_end || (self.cycles_to_end == o.cycles_to_end && self.index > o.index)
    }
}

impl FutureReadyInstr {
    pub fn gt(&self, o: &FutureReadyInstr) -> (r: bool)
        ensures
            r == future_gt(*self, *o),
    {
        self.ready_cycle < o.ready_cycle || (self.ready_cycle == o.ready_cycle && self.index > o.index)
    }
}

pub open spec fn ready_idx(ready: Seq<ReadyInstr>) -> Seq<usize> {
    ready.map_values(|r: ReadyInstr| r.index)
}

pub open spec fn future_idx(future: Seq<FutureReadyInstr>) -> Seq<usize> {
    future.map_values(|f: FutureReadyInstr| f.index)
}

/// The instructions on the two candidate lists, with multiplicity.
pub open spec fn listed(ready: Seq<ReadyInstr>, future: Seq<FutureReadyInstr>) -> Multiset<usize> {
    ready_idx(ready).to_multiset().add(future_idx(future).to_multiset())
}

proof fn lemma_empty_multiset()
    ensures
        Seq::<usize>::empty().to_multiset() =~= Multiset::<usize>::empty(),
{
    broadcast use vstd::seq_lib::group_to_multiset_ensures;

    assert forall|x: usize| Seq::<usize>::empty().to_multiset().count(x) == 0 by {
        assert(!Seq::<usize>::empty().contains(x));
    }
}

proof fn lemma_ready_remove(ready: Seq<ReadyInstr>, b: int)
    requires
        0 <= b < ready.len(),
    ensures
        ready_idx(ready.remove(b)).to_multiset() =~= ready_idx(ready).to_multiset().remove(ready[b].index),
{
    broadcast use vstd::seq_lib::group_to_multiset_ensures;

    assert(ready_idx(ready.remove(b)) =~= ready_idx(ready).remove(b));
}

proof fn lemma_future_remove(future: Seq<FutureReadyInstr>, b: int)
    requires
        0 <= b < future.len(),
    ensures
        future_idx(future.remove(b)).to_multiset() =~= future_idx(future).to_multiset().remove(future[b].index),
{
    broadcast use vstd::seq_lib::group_to_multiset_ensures;

    assert(future_idx(future.remove(b)) =~= future_idx(future).remove(b));
}

proof fn lemma_future_push(future: Seq<FutureReadyInstr>, x: FutureReadyInstr)
    ensures
        future_idx(future.push(x)).to_multiset() =~= future_idx(future).to_multiset().insert(x.index),
{
    broadcast use vstd::seq_lib::group_to_multiset_ensures;

    assert(future_idx(future.push(x)) =~= future_idx(future).push(x.index));
}

proof fn lemma_take_ready(ready: Seq<ReadyInstr>, future: Seq<FutureReadyInstr>, b: int)
    requires
        0 <= b < ready.len(),
    ensures
        listed(ready.remove(b), future) =~= listed(ready, future).remove(ready[b].index),
        listed(ready, future).count(ready[b].index) >= 1,
{
    broadcast use vstd::seq_lib::group_to_multiset_ensures;

    lemma_ready_remove(ready, b);
    assert(ready_idx(ready)[b] == ready[b].index);
    assert(ready_idx(ready).contains(ready[b].index));
}

proof fn lemma_take_future(ready: Seq<ReadyInstr>, future: Seq<FutureReadyInstr>, b: int)
    requires
        0 <= b < future.len(),
    ensures
        listed(ready, future.remove(b)) =~= listed(ready, future).remove(future[b].index),
        listed(ready, future).count(future[b].index) >= 1,
{
    broadcast use vstd::seq_lib::group_to_multiset_ensures;

    lemma_future_remove(future, b);
    assert(future_idx(future)[b] == future[b].index);
    assert(future_idx(future).contains(future[b].index));
}

proof fn lemma_put_future(ready: Seq<ReadyInstr>, future: Seq<FutureReadyInstr>, x: FutureReadyInstr)
    ensures
        listed(ready, future.push(x)) =~= listed(ready, future).insert(x.index),
{
    lemma_future_push(future, x);
}

/// The ready-list key of node `u` of `g`.
pub open spec fn ready_key(g: Seq<Node>, u: int) -> ReadyInstr {
    ReadyInstr { cycles_to_end: g[u].label.cycles_to_end, index: u as usize }
}

/// `order` is strictly decreasing in the ready-list order.
pub open spec fn descending(order: Seq<usize>, g: Seq<Node>) -> bool {
    forall|a: int, b: int| 0 <= a < b < order.len() ==> ready_gt(ready_key(g, #[trigger] order[a] as int), ready_key(g, #[trigger] order[b] as int))
}

/// Entries of a list whose indices each occur at most once have distinct
/// indices.
proof fn lemma_ready_distinct(ready: Seq<ReadyInstr>, future: Seq<FutureReadyInstr>)
    requires
        forall|x: usize| #[trigger] listed(ready, future).count(x) <= 1,
    ensures
        forall|a: int, b: int| 0 <= a < ready.len() && 0 <= b < ready.len() && a != b ==> ready[a].index != ready[b].index,
{
    broadcast use vstd::seq_lib::group_to_multiset_ensures;

    let ri = ready_idx(ready);
    assert forall|x: usize| ri.to_multiset().contains(x) implies ri.to_multiset().count(x) == 1 by {
        assert(listed(ready, future).count(x) <= 1);
    }
    ri.lemma_multiset_has_no_duplicates_conv();
    assert forall|a: int, b: int| 0 <= a < ready.len() && 0 <= b < ready.len() && a != b implies ready[a].index != ready[b].index by {
        assert(ri[a] == ready[a].index && ri[b] == ready[b].index);
    }
}

/// Listing each of `0..n` once, and nothing else, is a permutation.
proof fn lemma_cover_is_permutation(order: Seq<usize>, n: int)
    requires
        0 <= n <= usize::MAX,
        order.no_duplicates(),
        forall|k: int| 0 <= k < order.len() ==> order[k] < n,
        forall|w: int| 0 <= w < n ==> #[trigger] order.contains(w as usize),
    ensures
        crate::graph::is_permutation(order, n),
{
    let id = Seq::new(n as nat, |k: int| k as usize);
    assert forall|a: int, b: int| 0 <= a < id.len() && 0 <= b < id.len() && a != b implies id[a] != id[b] by {}
    assert(id.no_duplicates());
    assert forall|x: usize| order.to_set().contains(x) <==> id.to_set().contains(x) by {
        if order.contains(x) {
            let k = choose|k: int| 0 <= k < order.len() && order[k] == x;
            assert(id[x as int] == x);
        }
        if id.contains(x) {
            assert(order.contains((x as int) as usize));
        }
    }
    assert(order.to_set() =~= id.to_set());
    order.unique_seq_to_set();
    id.unique_seq_to_set();
}

/// Scheduling state of node `u` while the loop runs: a node on a list or
/// already emitted has no edges left into it; any other node counts its
/// remaining dependents exactly and still has some; a node not yet emitted
/// keeps its edges, an emitted one has none left.
pub open spec fn node_ok(g: Seq<Node>, g0: Seq<Node>, l: Multiset<usize>, order: Seq<usize>, u: int) -> bool {
    let emitted = order.contains(u as usize);
    let queued = l.count(u as usize) > 0;
    &&& (queued || emitted ==> in_count(g, u) == 0)
    &&& (!queued && !emitted ==> g[u].label.num_uses == in_count(g, u) && in_count(g, u) > 0)
    &&& (!emitted ==> g[u].outgoing_edges@ == g0[u].outgoing_edges@)
    &&& (emitted ==> g[u].outgoing_edges@.len() == 0)
    &&& l.count(u as usize) <= 1
    &&& !(queued && emitted)
}

/// The same while the edges of `next`, already taken off the lists, are
/// being handed to its producers; `rest` are the edges still to hand over.
pub open spec fn node_ok_draining(
    g: Seq<Node>,
    g0: Seq<Node>,
    l: Multiset<usize>,
    order: Seq<usize>,
    next: int,
    rest: Seq<Edge>,
    u: int,
) -> bool {
    let emitted = order.contains(u as usize);
    let queued = l.count(u as usize) > 0;
    let busy = emitted || queued || u == next;
    &&& (busy ==> in_count(g, u) == 0 && head_count(rest, u) == 0)
    &&& (!busy ==> g[u].label.num_uses == in_count(g, u) + head_count(rest, u) && in_count(g, u) + head_count(rest, u) > 0)
    &&& (!emitted && u != next ==> g[u].outgoing_edges@ == g0[u].outgoing_edges@)
    &&& (emitted || u == next ==> g[u].outgoing_edges@.len() == 0)
    &&& l.count(u as usize) <= 1
    &&& !(queued && emitted)
    &&& !(queued && u == next)
}

/// With both lists empty, every node has been emitted: a node still
/// waiting would have a waiting dependent with a larger index.
proof fn lemma_all_emitted(g: Seq<Node>, g0: Seq<Node>, l: Multiset<usize>, order: Seq<usize>, n: int, m: int)
    requires
        g.len() == n,
        g0.len() == n,
        n <= usize::MAX,
        forall|x: usize| l.count(x) == 0,
        forall|u: int| 0 <= u < n ==> #[trigger] node_ok(g, g0, l, order, u),
        forall|v: int, e: int| 0 <= v < n && 0 <= e < g0[v].outgoing_edges@.len() ==> #[trigger] g0[v].outgoing_edges@[e].head_idx < v,
        0 <= m <= n,
    ensures
        forall|u: int| m <= u < n ==> #[trigger] order.contains(u as usize),
    decreases n - m,
{
    if m < n {
        lemma_all_emitted(g, g0, l, order, n, m + 1);
        if !order.contains(m as usize) {
            assert(node_ok(g, g0, l, order, m));
            assert(l.count(m as usize) == 0);
            let (v, e) = lemma_in_count_witness(g, m);
            assert(node_ok(g, g0, l, order, v));
            if order.contains(v as usize) {
            } else {
                assert(g0[v].outgoing_edges@[e].head_idx < v);
                assert(order.contains(v as usize));
            }
        }
    }
}

/// The position of the best entry of a non-empty ready list.
fn best_ready(ready: &Vec<ReadyInstr>) -> (r: usize)
    requires
        ready@.len() > 0,
    ensures
        r < ready@.len(),
        forall|k: int| 0 <= k < ready@.len() ==> !ready_gt(#[trigger] ready@[k], ready@[r as int]),
{
    let mut best: usize = 0;
    let mut k: usize = 1;
    while k < ready.len()
        invariant
            1 <= k <= ready@.len(),
            best < k,
            forall|j: int| 0 <= j < k ==> !ready_gt(#[trigger] ready@[j], ready@[best as int]),
        decreases ready@.len() - k,
    {
        if ready[k].gt(&ready[best]) {
            best = k;
        }
        k += 1;
    }
    best
}

/// Moves every entry of `future` that is ready by `cycle` into `ready`.
fn drain_ready(ready: &mut Vec<ReadyInstr>, future: &mut Vec<FutureReadyInstr>, cycle: u64, g: &DepGraph)
    requires
        forall|k: int| 0 <= k < old(ready)@.len() ==> #[trigger] old(ready)@[k].index < g.nodes@.len(),
        forall|k: int| 0 <= k < old(future)@.len() ==> #[trigger] old(future)@[k].index < g.nodes@.len(),
    ensures
        final(ready)@.len() + final(future)@.len() == old(ready)@.len() + old(future)@.len(),
        forall|k: int| 0 <= k < final(ready)@.len() ==> #[trigger] final(ready)@[k].index < g.nodes@.len(),
        forall|k: int| 0 <= k < final(future)@.len() ==> #[trigger] final(future)@[k].index < g.nodes@.len(),
        forall|k: int| 0 <= k < final(future)@.len() ==> #[trigger] final(future)@[k].ready_cycle > cycle,
        final(ready)@.len() >= old(ready)@.len(),
        (exists|k: int| 0 <= k < old(future)@.len() && #[trigger] old(future)@[k].ready_cycle <= cycle)
            ==> final(ready)@.len() > 0,
        listed(final(ready)@, final(future)@) == listed(old(ready)@, old(future)@),
        (forall|k: int| 0 <= k < old(ready)@.len() ==> (#[trigger] old(ready)@[k]).cycles_to_end == g.nodes@[old(ready)@[k].index as int].label.cycles_to_end)
            ==> forall|k: int| 0 <= k < final(ready)@.len() ==> (#[trigger] final(ready)@[k]).cycles_to_end == g.nodes@[final(ready)@[k].index as int].label.cycles_to_end,
        old(future)@.len() == 0 ==> final(ready)@ == old(ready)@ && final(future)@.len() == 0,
{
    let mut kept: Vec<FutureReadyInstr> = Vec::new();
    let mut k: usize = 0;
    proof {
        assert(future@.subrange(0, future@.len() as int) =~= future@);
        assert(future_idx(kept@) =~= Seq::<usize>::empty());
        lemma_empty_multiset();
    }
    while k < future.len()
        invariant
            k <= future@.len(),
            future@ == old(future)@,
            ready@.len() + kept@.len() == old(ready)@.len() + k,
            forall|j: int| 0 <= j < old(future)@.len() ==> #[trigger] old(future)@[j].index < g.nodes@.len(),
            forall|j: int| 0 <= j < ready@.len() ==> #[trigger] ready@[j].index < g.nodes@.len(),
            forall|j: int| 0 <= j < kept@.len() ==> #[trigger] kept@[j].index < g.nodes@.len(),
            forall|j: int| 0 <= j < kept@.len() ==> #[trigger] kept@[j].ready_cycle > cycle,
            ready@.len() >= old(ready)@.len(),
            (exists|j: int| 0 <= j < k && #[trigger] old(future)@[j].ready_cycle <= cycle) ==> ready@.len() > 0,
            ready_idx(ready@).to_multiset().add(future_idx(kept@).to_multiset()).add(
                future_idx(future@.subrange(k as int, future@.len() as int)).to_multiset(),
            ) =~= listed(old(ready)@, old(future)@),
            (forall|j: int| 0 <= j < old(ready)@.len() ==> (#[trigger] old(ready)@[j]).cycles_to_end == g.nodes@[old(ready)@[j].index as int].label.cycles_to_end)
                ==> forall|j: int| 0 <= j < ready@.len() ==> (#[trigger] ready@[j]).cycles_to_end == g.nodes@[ready@[j].index as int].label.cycles_to_end,
            old(future)@.len() == 0 ==> ready@ == old(ready)@ && kept@.len() == 0,
        decreases future@.len() - k,
    {
        let f = future[k];
        let ghost r0 = ready@;
        let ghost k0 = kept@;
        proof {
            broadcast use vstd::seq_lib::group_to_multiset_ensures;

            let rest = future_idx(future@.subrange(k as int, future@.len() as int));
            assert(rest.remove(0) =~= future_idx(future@.subrange(k as int + 1, future@.len() as int)));
            assert(rest[0] == f.index);
            assert(rest.to_multiset().count(f.index) > 0);
            assert(rest.to_multiset() =~= rest.remove(0).to_multiset().insert(f.index));
        }
        if f.ready_cycle <= cycle {
            ready.push(ReadyInstr::new(g, f.index));
            proof {
                broadcast use vstd::seq_lib::group_to_multiset_ensures;

                assert(ready_idx(ready@) =~= ready_idx(r0).push(f.index));
            }
        } else {
            kept.push(f);
            proof {
                broadcast use vstd::seq_lib::group_to_multiset_ensures;

                assert(future_idx(kept@) =~= future_idx(k0).push(f.index));
            }
        }
        k += 1;
    }
    proof {
        assert(future@.subrange(k as int, future@.len() as int) =~= Seq::<FutureReadyInstr>::empty());
        assert(future_idx(Seq::<FutureReadyInstr>::empty()) =~= Seq::<usize>::empty());
        lemma_empty_multiset();
    }
    *future = kept;
}

/// The soonest ready cycle of a non-empty future list.
fn soonest_cycle(future: &Vec<FutureReadyInstr>) -> (r: u64)
    requires
        future@.len() > 0,
    ensures
        exists|k: int| 0 <= k < future@.len() && #[trigger] future@[k].ready_cycle == r,
        forall|k: int| 0 <= k < future@.len() ==> r <= #[trigger] future@[k].ready_cycle,
{
    let mut c = future[0].ready_cycle;
    let mut k: usize = 1;
    while k < future.len()
        invariant
            1 <= k <= future@.len(),
            exists|j: int| 0 <= j < future@.len() && #[trigger] future@[j].ready_cycle == c,
            forall|j: int| 0 <= j < k ==> c <= #[trigger] future@[j].ready_cycle,
        decreases future@.len() - k,
    {
        if future[k].ready_cycle < c {
            c = future[k].ready_cycle;
        }
        k += 1;
    }
    c
}

/// Walks a region bottom-up, tracking which values are live below the
/// instructions not scheduled yet.
pub struct GenerateOrder {
    pub max_regs: PerRegFile<i32>,
    pub net_live: NetLive,
    pub live: LiveSet,
}

impl GenerateOrder {
    pub open spec fn wf(&self, n: int) -> bool {
        &&& self.net_live.wf(n)
        &&& self.live.wf()
    }

    pub fn new(max_regs: PerRegFile<i32>, instrs: &Vec<Instr>, live_out: &LiveSet) -> (r: GenerateOrder)
        requires
            live_out.wf(),
        ensures
            r.wf(instrs@.len() as int),
            r.max_regs == max_regs,
            r.live.vals@ == live_out.vals@,
            crate::net_live::records_readers(r.net_live.ssa_to_instr@, instrs@, live_out.vals@),
            forall|i: int| 0 <= i < instrs@.len() ==> #[trigger] r.net_live.counts@[i]
                == crate::net_live::spec_instr_count(instrs@[i], r.net_live.ssa_to_instr@, live_out.vals@),
    {
        let net_live = NetLive::new(instrs, live_out);
        let live = LiveSet { vals: live_out.vals.clone() };
        GenerateOrder { max_regs, net_live, live }
    }

    /// Live counts after applying the change `net`.
    pub fn new_used_regs(&self, net: PerRegFile<i32>) -> (r: PerRegFile<i64>)
        ensures
            pressure_ok(r),
            r == self.spec_new_used_regs(net),
            forall|f: RegFile| #[trigger] r.spec_get(f) == capped_count(self.live.spec_count(f)) + net.spec_get(f),
    {
        let c = self.live.counts();
        proof {
            assert forall|f: RegFile| #[trigger] c.spec_get(f) == capped_count(self.live.spec_count(f)) implies true by {}
            assert(c.gpr == c.spec_get(RegFile::GPR));
        }
        let r = PerRegFile {
            gpr: c.gpr + net.gpr as i64,
            ugpr: c.ugpr + net.ugpr as i64,
            pred: c.pred + net.pred as i64,
            upred: c.upred + net.upred as i64,
            carry: c.carry + net.carry as i64,
            bar: c.bar + net.bar as i64,
            mem: c.mem + net.mem as i64,
        };
        proof {
            assert forall|f: RegFile| #[trigger] r.spec_get(f) == capped_count(self.live.spec_count(f)) + net.spec_get(f) by {
                assert(c.spec_get(f) == capped_count(self.live.spec_count(f)));
            }
        }
        r
    }

    /// `net` applied to the live counts.
    pub open spec fn spec_new_used_regs(&self, net: PerRegFile<i32>) -> PerRegFile<i64> {
        let c = self.live.spec_counts();
        PerRegFile {
            gpr: (c.gpr + net.gpr) as i64,
            ugpr: (c.ugpr + net.ugpr) as i64,
            pred: (c.pred + net.pred) as i64,
            upred: (c.upred + net.upred) as i64,
            carry: (c.carry + net.carry) as i64,
            bar: (c.bar + net.bar) as i64,
            mem: (c.mem + net.mem) as i64,
        }
    }

    pub fn current_used_gprs(&self) -> (r: i64)
        ensures
            r == used_gprs(self.live.spec_counts(), self.max_regs),
            r < crate::score::PEAK_BOUND,
    {
        calc_used_gprs(self.live.counts(), self.max_regs)
    }

    pub fn new_used_gprs_net(&self, instr_index: usize) -> (r: i64)
        requires
            instr_index < self.net_live.counts@.len(),
        ensures
            r == used_gprs(self.spec_new_used_regs(self.net_live.counts@[instr_index as int].net), self.max_regs),
            r < crate::score::PEAK_BOUND,
    {
        calc_used_gprs(self.new_used_regs(self.net_live.counts[instr_index].net), self.max_regs)
    }

    pub fn new_used_gprs_peak1(&self, instr_index: usize) -> (r: i64)
        requires
            instr_index < self.net_live.counts@.len(),
        ensures
            r == used_gprs(self.spec_new_used_regs(self.net_live.counts@[instr_index as int].peak1), self.max_regs),
            r < crate::score::PEAK_BOUND,
    {
        calc_used_gprs(self.new_used_regs(self.net_live.counts[instr_index].peak1), self.max_regs)
    }

    pub fn new_used_gprs_peak2(&self, instr_index: usize) -> (r: i64)
        requires
            instr_index < self.net_live.counts@.len(),
        ensures
            r == used_gprs(self.spec_new_used_regs(self.net_live.counts@[instr_index as int].peak2), self.max_regs),
            r < crate::score::PEAK_BOUND,
    {
        calc_used_gprs(self.new_used_regs(self.net_live.counts[instr_index].peak2), self.max_regs)
    }

    pub fn new_score(&self, instr_index: usize, delay_cycles: u32, thresholds: ScheduleThresholds) -> (r: Score)
        requires
            instr_index < self.net_live.counts@.len(),
        ensures
            r == spec_calc_score(
                self.spec_new_used_regs(self.net_live.counts@[instr_index as int].net),
                self.spec_new_used_regs(self.net_live.counts@[instr_index as int].peak1),
                self.spec_new_used_regs(self.net_live.counts@[instr_index as int].peak2),
                self.max_regs,
                delay_cycles,
                thresholds,
            ),
    {
        let c = self.net_live.counts[instr_index];
        calc_score(
            self.new_used_regs(c.net),
            self.new_used_regs(c.peak1),
            self.new_used_regs(c.peak2),
            self.max_regs,
            delay_cycles,
            thresholds,
        )
    }

    /// Lists the region's instructions bottom-up.  While pressure is at or
    /// below the heuristic threshold the best ready instruction by the
    /// ready order is taken; above it every ready and future-ready
    /// candidate is scored (a future one with its stall), and time jumps
    /// forward when a future one wins.  Returns `None` as soon as the chosen
    /// candidate's peak pressure would exceed the quit threshold; otherwise
    /// the instructions in the order taken (last instruction first) and the
    /// live counts above the region.  Whether that order lists each
    /// instruction once and after its dependents is checked by
    /// `sched_buffer`, which uses it.
    #[verifier::loop_isolation(false)]
    #[verifier::spinoff_prover]
    #[verifier::rlimit(100)]
    pub fn generate_order(
        self,
        g: &mut DepGraph,
        init_ready_list: Vec<usize>,
        thresholds: ScheduleThresholds,
        instrs: &Vec<Instr>,
    ) -> (r: Option<(Vec<usize>, PerRegFile<i64>)>)
        requires
            self.wf(instrs@.len() as int),
            old(g).nodes@.len() == instrs@.len(),
            heads_in_range(*old(g)),
            forall|k: int| 0 <= k < init_ready_list@.len() ==> #[trigger] init_ready_list@[k] < instrs@.len(),
            init_ready_list@.no_duplicates(),
            forall|u: int| 0 <= u < instrs@.len() ==> (init_ready_list@.contains(u as usize)
                <==> (#[trigger] old(g).nodes@[u]).label.num_uses == 0),
            forall|u: int| 0 <= u < instrs@.len() ==> (#[trigger] old(g).nodes@[u]).label.num_uses == in_count(old(g).nodes@, u),
            forall|v: int, e: int| #[trigger] is_edge(*old(g), v, e) ==> edge_of(*old(g), v, e).head_idx < v,
        ensures
            final(g).nodes@.len() == old(g).nodes@.len(),
            r matches Some((order, _)) ==> forall|k: int| 0 <= k < order@.len() ==> #[trigger] order@[k] < instrs@.len(),
            r is Some ==> crate::graph::is_permutation(r->Some_0.0@, instrs@.len() as int),
            // Only a candidate's peak going over the quit threshold stops
            // the schedule, and no peak reaches `PEAK_BOUND`.
            thresholds.quit_threshold >= crate::score::PEAK_BOUND ==> r is Some,
            // Under low pressure throughout, with nothing to wait for, the
            // best ready instruction is taken each time.
            thresholds.heuristic_threshold >= crate::score::PEAK_BOUND && (forall|v: int, e: int| !#[trigger] is_edge(*old(g), v, e))
                && r is Some ==> descending(r->Some_0.0@, old(g).nodes@),
            r is Some ==> forall|v: int, e: int| #[trigger] is_edge(*old(g), v, e)
                ==> precedes(r->Some_0.0@, v, edge_of(*old(g), v, e).head_idx as int),
    {
        let mut s = self;
        let n = instrs.len();
        let mut ready: Vec<ReadyInstr> = Vec::new();
        let mut k: usize = 0;
        while k < init_ready_list.len()
            invariant
                n == instrs@.len(),
                g.nodes@.len() == n,
                k <= init_ready_list@.len(),
                forall|j: int| 0 <= j < init_ready_list@.len() ==> #[trigger] init_ready_list@[j] < n,
                forall|j: int| 0 <= j < ready@.len() ==> #[trigger] ready@[j].index < n,
                ready_idx(ready@) =~= init_ready_list@.subrange(0, k as int),
                forall|j: int| 0 <= j < ready@.len() ==> (#[trigger] ready@[j]).cycles_to_end == g.nodes@[ready@[j].index as int].label.cycles_to_end,
            decreases init_ready_list@.len() - k,
        {
            let ghost r0 = ready@;
            ready.push(ReadyInstr::new(g, init_ready_list[k]));
            proof {
                assert(ready_idx(ready@) =~= ready_idx(r0).push(init_ready_list@[k as int]));
                assert(init_ready_list@.subrange(0, k as int + 1) =~= init_ready_list@.subrange(0, k as int).push(init_ready_list@[k as int]));
            }
            k += 1;
        }
        proof {
            broadcast use vstd::seq_lib::group_to_multiset_ensures;

            assert(init_ready_list@.subrange(0, k as int) =~= init_ready_list@);
            assert(future_idx(Seq::<FutureReadyInstr>::empty()) =~= Seq::<usize>::empty());
            lemma_empty_multiset();
            init_ready_list@.lemma_multiset_has_no_duplicates();
            assert forall|u: int| 0 <= u < n implies #[trigger] node_ok(g.nodes@, old(g).nodes@, listed(ready@, Seq::<FutureReadyInstr>::empty()), Seq::<usize>::empty(), u) by {
                assert(listed(ready@, Seq::<FutureReadyInstr>::empty()) =~= init_ready_list@.to_multiset());
                assert(old(g).nodes@[u].label.num_uses == in_count(old(g).nodes@, u));
            }
        }
        let mut future: Vec<FutureReadyInstr> = Vec::new();
        let mut current_cycle: u64 = 0;
        let mut order: Vec<usize> = Vec::new();
        let ghost low_and_free = thresholds.heuristic_threshold >= crate::score::PEAK_BOUND
            && (forall|v: int, e: int| !#[trigger] is_edge(*old(g), v, e));
        loop
            invariant
                n == instrs@.len(),
                g.nodes@.len() == n,
                old(g).nodes@.len() == n,
                heads_in_range(*g),
                s.wf(n as int),
                forall|j: int| 0 <= j < ready@.len() ==> #[trigger] ready@[j].index < n,
                forall|j: int| 0 <= j < future@.len() ==> #[trigger] future@[j].index < n,
                forall|j: int| 0 <= j < order@.len() ==> #[trigger] order@[j] < n,
                order@.no_duplicates(),
                forall|u: int| 0 <= u < n ==> #[trigger] node_ok(g.nodes@, old(g).nodes@, listed(ready@, future@), order@, u),
                forall|v: int, e: int| #[trigger] is_edge(*old(g), v, e) ==> edge_of(*old(g), v, e).head_idx < v,
                forall|u: int| 0 <= u < n ==> (#[trigger] g.nodes@[u]).label.cycles_to_end == old(g).nodes@[u].label.cycles_to_end,
                forall|k: int| 0 <= k < ready@.len() ==> (#[trigger] ready@[k]).cycles_to_end == g.nodes@[ready@[k].index as int].label.cycles_to_end,
                low_and_free ==> future@.len() == 0,
                low_and_free ==> descending(order@, old(g).nodes@),
                low_and_free ==> forall|a: int, k: int| 0 <= a < order@.len() && 0 <= k < ready@.len()
                    ==> ready_gt(ready_key(old(g).nodes@, #[trigger] order@[a] as int), #[trigger] ready@[k]),
                forall|v: int, e: int| #[trigger] is_edge(*old(g), v, e) && order@.contains(edge_of(*old(g), v, e).head_idx)
                    ==> precedes(order@, v, edge_of(*old(g), v, e).head_idx as int),
                heads_in_range(*old(g)),
            decreases edge_count(g.nodes@) + ready@.len() + future@.len(),
        {
            let used_gprs = s.current_used_gprs();

            // Move the instructions that are ready by now to the ready list.
            drain_ready(&mut ready, &mut future, current_cycle, g);
            if ready.len() == 0 {
                if future.len() == 0 {
                    // Both lists are empty: every instruction is placed.
                    break;
                }
                // Fast-forward time to when the next instruction is ready.
                current_cycle = soonest_cycle(&future);
                drain_ready(&mut ready, &mut future, current_cycle, g);
            }
            let ghost m0 = edge_count(g.nodes@) + ready@.len() + future@.len();
            let ghost l0 = listed(ready@, future@);
            let ghost ready0 = ready@;
            let ghost future0 = future@;

            // Pick an instruction to schedule.
            let next_idx: usize;
            if used_gprs <= thresholds.heuristic_threshold {
                let b = best_ready(&ready);
                let ri = ready.remove(b);
                next_idx = ri.index;
                proof {
                    lemma_take_ready(ready0, future0, b as int);
                    if low_and_free {
                        assert forall|x: usize| #[trigger] listed(ready0, future0).count(x) <= 1 by {
                            if x < n {
                                assert(node_ok(g.nodes@, old(g).nodes@, listed(ready0, future0), order@, x as int));
                            } else {
                                broadcast use vstd::seq_lib::group_to_multiset_ensures;
                                if listed(ready0, future0).count(x) > 0 {
                                    assert(future_idx(future0) =~= Seq::<usize>::empty());
                                    lemma_empty_multiset();
                                    assert(ready_idx(ready0).contains(x));
                                    let q = choose|q: int| 0 <= q < ready_idx(ready0).len() && ready_idx(ready0)[q] == x;
                                    assert(ready0[q].index < n);
                                }
                            }
                        }
                        lemma_ready_distinct(ready0, future0);
                        assert(ready0[b as int] == ready_key(old(g).nodes@, next_idx as int));
                        assert forall|k: int| 0 <= k < ready@.len() implies ready_gt(ready_key(old(g).nodes@, next_idx as int), #[trigger] ready@[k]) by {
                            let q = if k < b { k } else { k + 1 };
                            assert(ready@[k] == ready0[q]);
                            assert(!ready_gt(ready0[q], ready0[b as int]));
                            assert(ready0[q].index != ready0[b as int].index);
                        }
                        assert forall|a: int| 0 <= a < order@.len() implies ready_gt(ready_key(old(g).nodes@, #[trigger] order@[a] as int),
                            ready_key(old(g).nodes@, next_idx as int)) by {
                            assert(ready_gt(ready_key(old(g).nodes@, order@[a] as int), ready0[b as int]));
                        }
                        assert forall|a: int, k: int| 0 <= a < order@.len() && 0 <= k < ready@.len()
                            implies ready_gt(ready_key(old(g).nodes@, #[trigger] order@[a] as int), #[trigger] ready@[k]) by {
                            let q = if k < b { k } else { k + 1 };
                            assert(ready@[k] == ready0[q]);
                        }
                    }
                }
            } else {
                assert(!low_and_free);
                let mut bi: usize = 0;
                let mut bs = s.new_score(ready[0].index, 0, thresholds);
                let mut k: usize = 1;
                while k < ready.len()
                    invariant
                        n == instrs@.len(),
                        s.wf(n as int),
                        bi < ready@.len(),
                        1 <= k <= ready@.len(),
                        forall|j: int| 0 <= j < ready@.len() ==> #[trigger] ready@[j].index < n,
                    decreases ready@.len() - k,
                {
                    let sc = s.new_score(ready[k].index, 0, thresholds);
                    if sc.gt(&bs) || (sc == bs && ready[k].gt(&ready[bi])) {
                        bi = k;
                        bs = sc;
                    }
                    k += 1;
                }
                let mut fbest: Option<(usize, Score)> = None;
                let mut k: usize = 0;
                while k < future.len()
                    invariant
                        n == instrs@.len(),
                        s.wf(n as int),
                        k <= future@.len(),
                        forall|j: int| 0 <= j < future@.len() ==> #[trigger] future@[j].index < n,
                        fbest matches Some((fk, _)) ==> fk < future@.len(),
                    decreases future@.len() - k,
                {
                    let f = future[k];
                    let delay: u64 = if f.ready_cycle > current_cycle { f.ready_cycle - current_cycle } else { 0 };
                    let delay32: u32 = if delay > u32::MAX as u64 { u32::MAX } else { delay as u32 };
                    let sc = s.new_score(f.index, delay32, thresholds);
                    if sc.gt(&bs) {
                        match fbest {
                            None => {
                                fbest = Some((k, sc));
                            },
                            Some((fk, fs)) => {
                                if sc.gt(&fs) || (sc == fs && f.gt(&future[fk])) {
                                    fbest = Some((k, sc));
                                }
                            },
                        }
                    }
                    k += 1;
                }
                match fbest {
                    Some((fk, _)) => {
                        let f = future.remove(fk);
                        // Fast-forward time to when this instruction is ready.
                        current_cycle = f.ready_cycle;
                        next_idx = f.index;
                        proof {
                            lemma_take_future(ready0, future0, fk as int);
                        }
                    },
                    None => {
                        let ri = ready.remove(bi);
                        next_idx = ri.index;
                        proof {
                            lemma_take_ready(ready0, future0, bi as int);
                        }
                    },
                }
            }

            // Give up if this instruction goes over budget.
            let peak1 = s.new_used_gprs_peak1(next_idx);
            let peak2 = s.new_used_gprs_peak2(next_idx);
            let peak = if peak1 > peak2 { peak1 } else { peak2 };
            if peak > thresholds.quit_threshold {
                return None;
            }

            // Its predecessors each lose one unscheduled dependent.
            let ghost g0 = *g;
            proof {
                if low_and_free {
                    assert(node_ok(g.nodes@, old(g).nodes@, l0, order@, next_idx as int));
                    if old(g).nodes@[next_idx as int].outgoing_edges@.len() > 0 {
                        assert(is_edge(*old(g), next_idx as int, 0));
                    }
                }
            }
            let mut edges: Vec<Edge> = Vec::new();
            std::mem::swap(&mut g.nodes[next_idx].outgoing_edges, &mut edges);
            proof {
                let x = Node { label: g0.nodes@[next_idx as int].label, outgoing_edges: g.nodes@[next_idx as int].outgoing_edges };
                assert(g.nodes@ =~= g0.nodes@.update(next_idx as int, x));
                lemma_edge_count_update(g0.nodes@, next_idx as int, x);
                assert forall|u: int, e: int| #[trigger] is_edge(*g, u, e) implies edge_of(*g, u, e).head_idx < g.nodes@.len() by {
                    assert(is_edge(g0, u, e));
                }
                assert(listed(ready@, future@) =~= l0.remove(next_idx));
                assert(node_ok(g0.nodes@, old(g).nodes@, l0, order@, next_idx as int));
                assert forall|u: int| 0 <= u < n implies #[trigger] node_ok_draining(g.nodes@, old(g).nodes@, listed(ready@, future@), order@,
                    next_idx as int, edges@.subrange(0, edges@.len() as int), u) by {
                    assert(edges@.subrange(0, edges@.len() as int) =~= edges@);
                    lemma_in_count_update(g0.nodes@, next_idx as int, x, u);
                    assert(node_ok(g0.nodes@, old(g).nodes@, l0, order@, u));
                    assert(x.outgoing_edges@.len() == 0);
                    assert(head_count(x.outgoing_edges@, u) == 0);
                    if u == next_idx {
                        assert forall|k: int| 0 <= k < edges@.len() implies (#[trigger] edges@[k]).head_idx != u by {
                            assert(is_edge(*old(g), next_idx as int, k));
                        }
                        crate::graph::lemma_head_count_zero(edges@, u);
                    }
                }
            }
            let mut e: usize = 0;
            while e < edges.len()
                invariant
                    n == instrs@.len(),
                    g.nodes@.len() == n,
                    heads_in_range(*g),
                    next_idx < n,
                    edges@ == g0.nodes@[next_idx as int].outgoing_edges@,
                    heads_in_range(g0),
                    g0.nodes@.len() == n,
                    e <= edges@.len(),
                    forall|j: int| 0 <= j < future@.len() ==> #[trigger] future@[j].index < n,
                    edge_count(g.nodes@) + ready@.len() + future@.len() + (edges@.len() - e) < m0,
                    forall|u: int| 0 <= u < n ==> #[trigger] node_ok_draining(g.nodes@, old(g).nodes@, listed(ready@, future@), order@,
                        next_idx as int, edges@.subrange(e as int, edges@.len() as int), u),
                    edges@ == old(g).nodes@[next_idx as int].outgoing_edges@,
                    forall|u: int| 0 <= u < n ==> (#[trigger] g.nodes@[u]).label.cycles_to_end == old(g).nodes@[u].label.cycles_to_end,
                    forall|k: int| 0 <= k < ready@.len() ==> (#[trigger] ready@[k]).cycles_to_end == g.nodes@[ready@[k].index as int].label.cycles_to_end,
                    low_and_free ==> edges@.len() == 0 && future@.len() == 0,
                decreases edges@.len() - e,
            {
                let edge = edges[e];
                assert(is_edge(g0, next_idx as int, e as int));
                assert(is_edge(*old(g), next_idx as int, e as int));
                let ghost rest = edges@.subrange(e as int, edges@.len() as int);
                let ghost rest2 = edges@.subrange(e as int + 1, edges@.len() as int);
                let ghost lst = listed(ready@, future@);
                proof {
                    assert forall|u: int| true implies #[trigger] head_count(rest, u) == (if edge.head_idx == u { 1nat } else { 0nat })
                        + head_count(rest2, u) by {
                        lemma_head_count_from(edges@, e as int, u);
                    }
                    assert(node_ok_draining(g.nodes@, old(g).nodes@, lst, order@, next_idx as int, rest, edge.head_idx as int));
                }
                let h = edge.head_idx;
                let lab = g.nodes[h].label;
                let t = current_cycle.saturating_add(edge.latency as u64);
                let rc = if lab.ready_cycle > t { lab.ready_cycle } else { t };
                let nu: usize = if lab.num_uses > 0 { lab.num_uses - 1 } else { 0 };
                let ghost g1 = *g;
                g.nodes[h].label = NodeLabel { cycles_to_end: lab.cycles_to_end, num_uses: nu, ready_cycle: rc };
                proof {
                    let x = Node { label: g.nodes@[h as int].label, outgoing_edges: g1.nodes@[h as int].outgoing_edges };
                    assert(g.nodes@ =~= g1.nodes@.update(h as int, x));
                    lemma_edge_count_update(g1.nodes@, h as int, x);
                    assert forall|u: int, ei: int| #[trigger] is_edge(*g, u, ei) implies edge_of(*g, u, ei).head_idx < g.nodes@.len() by {
                        assert(is_edge(g1, u, ei));
                    }
                }
                let ghost fut1 = future@;
                if nu == 0 {
                    future.push(FutureReadyInstr { ready_cycle: rc, index: h });
                    proof {
                        lemma_put_future(ready@, fut1, FutureReadyInstr { ready_cycle: rc, index: h });
                    }
                }
                proof {
                    let x = Node { label: g.nodes@[h as int].label, outgoing_edges: g1.nodes@[h as int].outgoing_edges };
                    assert forall|u: int| 0 <= u < n implies #[trigger] node_ok_draining(g.nodes@, old(g).nodes@, listed(ready@, future@), order@,
                        next_idx as int, rest2, u) by {
                        lemma_in_count_update(g1.nodes@, h as int, x, u);
                        assert(node_ok_draining(g1.nodes@, old(g).nodes@, lst, order@, next_idx as int, rest, u));
                        if u != h {
                            assert(g.nodes@[u] == g1.nodes@[u]);
                        }
                    }
                    assert(edges@.subrange(e as int + 1, edges@.len() as int) =~= rest2);
                }
                e += 1;
            }
            proof {
                assert(edges@.subrange(e as int, edges@.len() as int) =~= Seq::<Edge>::empty());
            }
            let ghost g_done = g.nodes@;
            let ghost l_done = listed(ready@, future@);

            // Walking backwards, the instruction's defs die and its sources
            // become live.
            let instr = &instrs[next_idx];
            let mut d: usize = 0;
            while d < instr.op.dsts.len()
                invariant
                    n == instrs@.len(),
                    s.wf(n as int),
                decreases instr.op.dsts@.len() - d,
            {
                match &instr.op.dsts[d] {
                    Dst::SSA(vals) => {
                        let mut j: usize = 0;
                        while j < vals.len()
                            invariant
                                n == instrs@.len(),
                                s.wf(n as int),
                            decreases vals@.len() - j,
                        {
                            s.live.remove(&vals[j]);
                            j += 1;
                        }
                    },
                    _ => {},
                }
                d += 1;
            }
            let mut i: usize = 0;
            while i < instr.op.srcs.len()
                invariant
                    n == instrs@.len(),
                    s.wf(n as int),
                decreases instr.op.srcs@.len() - i,
            {
                let vals = &instr.op.srcs[i].ssa;
                let mut j: usize = 0;
                while j < vals.len()
                    invariant
                        n == instrs@.len(),
                        s.wf(n as int),
                    decreases vals@.len() - j,
                {
                    let v = vals[j];
                    // A value already live here is read twice by this
                    // instruction, and stays live.
                    if s.net_live.remove(v) {
                        s.live.insert(v);
                    }
                    j += 1;
                }
                i += 1;
            }

            let ghost order0 = order@;
            order.push(next_idx);
            proof {
                assert forall|w: usize| order@.contains(w) <==> (order0.contains(w) || w == next_idx) by {
                    if order@.contains(w) {
                        let k = choose|k: int| 0 <= k < order@.len() && order@[k] == w;
                        if k < order0.len() {
                            assert(order0[k] == w);
                        }
                    }
                    if order0.contains(w) {
                        let k = choose|k: int| 0 <= k < order0.len() && order0[k] == w;
                        assert(order@[k] == w);
                    }
                    if w == next_idx {
                        assert(order@[order0.len() as int] == w);
                    }
                }
                assert(node_ok_draining(g_done, old(g).nodes@, l_done, order0, next_idx as int, Seq::<Edge>::empty(), next_idx as int));
                assert(!order0.contains(next_idx));
                assert forall|u: int| 0 <= u < n implies #[trigger] node_ok(g.nodes@, old(g).nodes@, listed(ready@, future@), order@, u) by {
                    assert(node_ok_draining(g_done, old(g).nodes@, l_done, order0, next_idx as int, Seq::<Edge>::empty(), u));
                }
                assert forall|v: int, e: int| #[trigger] is_edge(*old(g), v, e) && order@.contains(edge_of(*old(g), v, e).head_idx)
                    implies precedes(order@, v, edge_of(*old(g), v, e).head_idx as int) by {
                    let hd = edge_of(*old(g), v, e).head_idx;
                    if order0.contains(hd) {
                        let (a, b) = choose|a: int, b: int| 0 <= a < b < order0.len() && order0[a] == v && order0[b] == hd;
                        assert(order@[a] == v && order@[b] == hd);
                    } else {
                        assert(hd == next_idx);
                        assert(hd < v);
                        if !order0.contains(v as usize) {
                            assert(node_ok_draining(g_done, old(g).nodes@, l_done, order0, next_idx as int, Seq::<Edge>::empty(), v));
                            lemma_in_count_pos(g_done, v, e, next_idx as int);
                        }
                        let a = choose|a: int| 0 <= a < order0.len() && order0[a] == v as usize;
                        assert(order@[a] == v && order@[order0.len() as int] == hd);
                    }
                }
                if low_and_free {
                    assert forall|a: int, b: int| 0 <= a < b < order@.len() implies ready_gt(ready_key(old(g).nodes@, #[trigger] order@[a] as int),
                        ready_key(old(g).nodes@, #[trigger] order@[b] as int)) by {
                        assert(order@[a] == order0[a]);
                        if b < order0.len() {
                            assert(order@[b] == order0[b]);
                        } else {
                            assert(order@[b] == next_idx);
                            assert(ready_gt(ready_key(old(g).nodes@, order0[a] as int), ready_key(old(g).nodes@, next_idx as int)));
                        }
                    }
                    assert forall|a: int, k: int| 0 <= a < order@.len() && 0 <= k < ready@.len()
                        implies ready_gt(ready_key(old(g).nodes@, #[trigger] order@[a] as int), #[trigger] ready@[k]) by {
                        if a < order0.len() {
                            assert(order@[a] == order0[a]);
                        } else {
                            assert(order@[a] == next_idx);
                        }
                    }
                }
                assert forall|a: int, b: int| 0 <= a < order@.len() && 0 <= b < order@.len() && a != b implies order@[a] != order@[b] by {
                    if a < order0.len() && b < order0.len() {
                    } else if a < order0.len() {
                        assert(order0.contains(order0[a]));
                    } else if b < order0.len() {
                        assert(order0.contains(order0[b]));
                    }
                }
            }
            current_cycle = current_cycle.saturating_add(1);
        }
        proof {
            broadcast use vstd::seq_lib::group_to_multiset_ensures;

            assert(ready_idx(ready@) =~= Seq::<usize>::empty());
            assert(future_idx(future@) =~= Seq::<usize>::empty());
            lemma_empty_multiset();
            assert forall|v: int, e: int| 0 <= v < n && 0 <= e < old(g).nodes@[v].outgoing_edges@.len()
                implies #[trigger] old(g).nodes@[v].outgoing_edges@[e].head_idx < v by {
                assert(is_edge(*old(g), v, e));
            }
            lemma_all_emitted(g.nodes@, old(g).nodes@, listed(ready@, future@), order@, n as int, 0);
            lemma_cover_is_permutation(order@, n as int);
            assert forall|v: int, e: int| #[trigger] is_edge(*old(g), v, e)
                implies precedes(order@, v, edge_of(*old(g), v, e).head_idx as int) by {
                assert(heads_in_range(*old(g)));
                assert(order@.contains(((edge_of(*old(g), v, e).head_idx) as int) as usize));
            }
        }
        Some((order, s.live.counts()))
    }
}


/// `order` lists every instruction of `instrs` once, each after the last
/// definition of every value it reads (as a source or as its guard), and
/// with the memory ops in their original order.
pub open spec fn respects_dependencies(order: Seq<usize>, instrs: Seq<Instr>) -> bool {
    &&& is_permutation(order, instrs.len() as int)
    &&& forall|j: int, i: int, v: SSAValue, k: int, d: int|
        #[trigger] uses(instrs[j], i, v) && #[trigger] is_last_def(instrs, j, v, k, d) ==> precedes(order, k, j)
    &&& forall|j: int, v: SSAValue, k: int, d: int|
        guards(instrs[j], v) && #[trigger] is_last_def(instrs, j, v, k, d) ==> precedes(order, k, j)
    &&& forall|a: int, b: int| #[trigger] next_memory(instrs, a, b) ==> precedes(order, a, b)
}

proof fn lemma_topological_respects(order: Seq<usize>, g: DepGraph, instrs: Seq<Instr>)
    requires
        g.nodes@.len() == instrs.len(),
        is_topological_order(order, g),
        has_dependency_edges(g, instrs),
    ensures
        respects_dependencies(order, instrs),
{
    assert forall|u: int, v: int| has_edge(g, u, v) implies precedes(order, u, v) by {
        let e = choose|e: int| #[trigger] is_edge(g, u, e) && edge_of(g, u, e).head_idx == v;
    }
}

/// A new order for a schedule unit: position `k` takes the instruction that
/// was at `order[k]`.
#[derive(Clone, Debug)]
pub struct InstructionOrder {
    pub order: Vec<usize>,
}

impl InstructionOrder {
    /// Permutes `instrs` into this order.
    pub fn apply(&self, instrs: Vec<Instr>) -> (r: Vec<Instr>)
        requires
            is_permutation(self.order@, instrs@.len() as int),
        ensures
            r@.len() == instrs@.len(),
            forall|k: int| 0 <= k < r@.len() ==> #[trigger] r@[k] == instrs@[self.order@[k] as int],
    {
        let n = instrs.len();
        let ghost orig = instrs@;
        let mut rest = instrs;
        // slots[n - 1 - i] holds instruction i until it is taken.
        let mut slots: Vec<Option<Instr>> = Vec::new();
        while rest.len() > 0
            invariant
                rest@.len() + slots@.len() == n,
                n == orig.len(),
                rest@ == orig.subrange(0, rest@.len() as int),
                forall|j: int| 0 <= j < slots@.len() ==> #[trigger] slots@[j] == Some(orig[n - 1 - j]),
            decreases rest@.len(),
        {
            let x = rest.pop().unwrap();
            slots.push(Some(x));
        }
        let mut out: Vec<Instr> = Vec::new();
        let mut k: usize = 0;
        while k < n
            invariant
                k <= n,
                n == orig.len(),
                slots@.len() == n,
                is_permutation(self.order@, n as int),
                out@.len() == k,
                forall|j: int| 0 <= j < k ==> #[trigger] out@[j] == orig[self.order@[j] as int],
                forall|i: int|
                    0 <= i < n && !self.order@.subrange(0, k as int).contains(i as usize)
                        ==> #[trigger] slots@[n - 1 - i] == Some(orig[i]),
            decreases n - k,
        {
            let i = self.order[k];
            assert(!self.order@.subrange(0, k as int).contains(i)) by {
                if self.order@.subrange(0, k as int).contains(i) {
                    let j = choose|j: int| 0 <= j < k && self.order@.subrange(0, k as int)[j] == i;
                    assert(self.order@[j] == self.order@[k as int]);
                }
            }
            let x = slots[n - 1 - i].take();
            match x {
                Some(instr) => out.push(instr),
                None => unreached(),
            }
            proof {
                assert forall|i2: int|
                    0 <= i2 < n && !self.order@.subrange(0, k + 1).contains(i2 as usize)
                        implies #[trigger] slots@[n - 1 - i2] == Some(orig[i2]) by {
                    assert(self.order@.subrange(0, k + 1)[k as int] == i);
                    if self.order@.subrange(0, k as int).contains(i2 as usize) {
                        let j = choose|j: int| 0 <= j < k && self.order@.subrange(0, k as int)[j] == i2 as usize;
                        assert(self.order@.subrange(0, k + 1)[j] == i2 as usize);
                    }
                }
            }
            k += 1;
        }
        out
    }
}

fn reversed(v: &Vec<usize>) -> (r: Vec<usize>)
    ensures
        r@.len() == v@.len(),
        forall|k: int| 0 <= k < r@.len() ==> #[trigger] r@[k] == v@[v@.len() - 1 - k],
{
    let mut r: Vec<usize> = Vec::new();
    let mut k: usize = v.len();
    while k > 0
        invariant
            k <= v@.len(),
            r@.len() == v@.len() - k,
            forall|j: int| 0 <= j < r@.len() ==> #[trigger] r@[j] == v@[v@.len() - 1 - j],
        decreases k,
    {
        k -= 1;
        r.push(v[k]);
    }
    r
}

/// Schedules one region whose live-out set is `live_out`: builds its
/// dependency graph, schedules it bottom-up and returns the order top-down.
/// Returns `None` when the schedule goes over the quit threshold.  A new
/// order lists every instruction once and keeps every data, guard and
/// memory dependency of the region.
pub fn sched_buffer(
    sm: &ShaderModel,
    max_regs: PerRegFile<i32>,
    instrs: &Vec<Instr>,
    live_out: &LiveSet,
    thresholds: ScheduleThresholds,
) -> (r: Option<InstructionOrder>)
    requires
        latencies_defined(instrs@),
        live_out.wf(),
    ensures
        r matches Some(o) ==> respects_dependencies(o.order@, instrs@),
        thresholds.quit_threshold >= crate::score::PEAK_BOUND ==> r is Some,
{
    let mut g = generate_dep_graph(sm, instrs);
    let ghost g0 = g;
    let init_ready_list = calc_statistics(&mut g);
    proof {
        assert forall|u: int, e: int| #[trigger] is_edge(g, u, e) <==> is_edge(g0, u, e) by {}
        assert forall|u: int, e: int| is_edge(g, u, e) implies #[trigger] edge_of(g, u, e) == edge_of(g0, u, e) by {}
        assert forall|u: int, v: int| has_edge(g0, u, v) implies has_edge(g, u, v) by {
            let e = choose|e: int| #[trigger] is_edge(g0, u, e) && edge_of(g0, u, e).head_idx == v;
            assert(is_edge(g, u, e));
        }
        assert(has_dependency_edges(g, instrs@));
        assert forall|u: int, e: int| #[trigger] is_edge(g, u, e) implies edge_of(g, u, e).head_idx < g.nodes@.len() by {
            assert(is_edge(g0, u, e));
        }
        assert forall|u: int, e: int| #[trigger] is_edge(g, u, e) implies u < edge_of(g, u, e).head_idx < g.nodes@.len() by {
            assert(is_edge(g0, u, e));
        }
    }
    let mut rg = g.reverse();
    let ghost rg0 = rg;
    proof {
        assert forall|u: int| 0 <= u < instrs@.len() implies (init_ready_list@.contains(u as usize)
            <==> (#[trigger] rg.nodes@[u]).label.num_uses == 0) by {}
        assert forall|u: int| 0 <= u < instrs@.len() implies (#[trigger] rg.nodes@[u]).label.num_uses == in_count(rg.nodes@, u) by {}
    }
    let generated = GenerateOrder::new(max_regs, instrs, live_out).generate_order(
        &mut rg,
        init_ready_list,
        thresholds,
        instrs,
    );
    let (order, _live_in_counts) = match generated {
        Some(x) => x,
        None => return None,
    };
    let rev = reversed(&order);
    proof {
        let n = instrs@.len() as int;
        assert forall|a: int, b: int| 0 <= a < rev@.len() && 0 <= b < rev@.len() && a != b implies rev@[a] != rev@[b] by {
            assert(order@[n - 1 - a] != order@[n - 1 - b]);
        }
        assert forall|w: int| 0 <= w < n implies #[trigger] rev@.contains(w as usize) by {
            assert(order@.contains(w as usize));
            let k = choose|k: int| 0 <= k < order@.len() && order@[k] == w as usize;
            assert(rev@[n - 1 - k] == w as usize);
        }
        assert forall|u: int, e: int| #[trigger] is_edge(g, u, e) implies precedes(rev@, u, edge_of(g, u, e).head_idx as int) by {
            let v = edge_of(g, u, e).head_idx as int;
            assert(has_edge_lat(rg0, v, u, edge_of(g, u, e).latency));
            let e2 = choose|e2: int| #[trigger] is_edge(rg0, v, e2) && edge_of(rg0, v, e2).head_idx == u
                && edge_of(rg0, v, e2).latency == edge_of(g, u, e).latency;
            assert(precedes(order@, v, u));
            let (a, b) = choose|a: int, b: int| 0 <= a < b < order@.len() && order@[a] == v && order@[b] == u;
            assert(rev@[n - 1 - b] == u && rev@[n - 1 - a] == v);
        }
        assert(is_topological_order(rev@, g));
        lemma_topological_respects(rev@, g, instrs@);
    }
    Some(InstructionOrder { order: rev })
}

} // verus!
