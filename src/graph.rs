//! Dependency graphs over a straight-line region of instructions.

use vstd::prelude::*;
use crate::regs::PerRegFile;
use crate::ir::{Dst, Instr, Op, Opcode, SSAValue, dst_ssa};
use crate::latency::SM75Latency;

verus! {

/// How an op interacts with the rest of the program beyond its operands.
#[derive(Clone, Copy, Debug, PartialEq, Eq, Structural)]
pub enum SideEffect {
    /// Free to move.
    NoEffect,
    /// Touches memory: memory ops keep their mutual order.
    Memory,
    /// Pinned: nothing moves across it.
    Barrier,
}

pub open spec fn spec_side_effect(op: Opcode) -> SideEffect {
    match op {
        Opcode::Ld | Opcode::St | Opcode::Atom | Opcode::ALd | Opcode::ASt | Opcode::AL2P
        | Opcode::CCtl | Opcode::LdTram | Opcode::SuLd | Opcode::SuSt | Opcode::SuAtom => {
            SideEffect::Memory
        },
        Opcode::Bar | Opcode::MemBar | Opcode::BClear | Opcode::Bra | Opcode::BSSy | Opcode::BSync
        | Opcode::Kill | Opcode::Exit | Opcode::Out | Opcode::OutFinal | Opcode::S2R | Opcode::CS2R
        | Opcode::Isberd | Opcode::PixLd | Opcode::BMov => SideEffect::Barrier,
        _ => SideEffect::NoEffect,
    }
}

/// The side-effect class of an op.
pub fn side_effect_type(op: &Op) -> (r: SideEffect)
    ensures
        r == spec_side_effect(op.opcode),
{
    match op.opcode {
        Opcode::Ld | Opcode::St | Opcode::Atom | Opcode::ALd | Opcode::ASt | Opcode::AL2P
        | Opcode::CCtl | Opcode::LdTram | Opcode::SuLd | Opcode::SuSt | Opcode::SuAtom => {
            SideEffect::Memory
        },
        Opcode::Bar | Opcode::MemBar | Opcode::BClear | Opcode::Bra | Opcode::BSSy | Opcode::BSync
        | Opcode::Kill | Opcode::Exit | Opcode::Out | Opcode::OutFinal | Opcode::S2R | Opcode::CS2R
        | Opcode::Isberd | Opcode::PixLd | Opcode::BMov => SideEffect::Barrier,
        _ => SideEffect::NoEffect,
    }
}

/// Cycles that a variable-latency op is estimated to take: memory and
/// texture accesses are long, everything else is a mid-length pipeline.
pub open spec fn spec_variable_latency(op: Opcode) -> u32 {
    match op {
        Opcode::Ld | Opcode::Atom | Opcode::ALd | Opcode::LdTram | Opcode::SuLd | Opcode::SuAtom
        | Opcode::Tex | Opcode::Tld | Opcode::Tld4 | Opcode::Tmml | Opcode::Txd | Opcode::Txq
        | Opcode::Isberd | Opcode::PixLd => 32,
        _ => 15,
    }
}

pub fn estimate_variable_latency(op: &Op) -> (r: u32)
    ensures
        r == spec_variable_latency(op.opcode),
{
    match op.opcode {
        Opcode::Ld | Opcode::Atom | Opcode::ALd | Opcode::LdTram | Opcode::SuLd | Opcode::SuAtom
        | Opcode::Tex | Opcode::Tld | Opcode::Tld4 | Opcode::Tmml | Opcode::Txd | Opcode::Txq
        | Opcode::Isberd | Opcode::PixLd => 32,
        _ => 15,
    }
}

/// What the scheduler needs to know of the target.
#[derive(Clone, Copy, Debug)]
pub struct ShaderModel {
    pub sm: u8,
    pub num_regs: PerRegFile<u32>,
    pub hw_reserved_gprs: u32,
}

/// A latency-labelled edge to node `head_idx`.
#[derive(Clone, Copy, Debug, PartialEq, Eq, Structural)]
pub struct Edge {
    pub head_idx: usize,
    pub latency: u32,
}

/// Scheduling state of a node.
#[derive(Clone, Copy, Debug, PartialEq, Eq, Structural)]
pub struct NodeLabel {
    /// Longest latency-weighted path to a sink of the forward graph.
    pub cycles_to_end: u64,
    /// Dependents not yet scheduled.
    pub num_uses: usize,
    /// Earliest cycle at which the node may be scheduled.
    pub ready_cycle: u64,
}

#[derive(Clone, Debug)]
pub struct Node {
    pub label: NodeLabel,
    pub outgoing_edges: Vec<Edge>,
}

/// A graph over instruction positions `0..n`, with adjacency lists.
#[derive(Clone, Debug)]
pub struct DepGraph {
    pub nodes: Vec<Node>,
}

pub open spec fn edge_of(g: DepGraph, u: int, e: int) -> Edge {
    g.nodes@[u].outgoing_edges@[e]
}

pub open spec fn is_edge(g: DepGraph, u: int, e: int) -> bool {
    0 <= u < g.nodes@.len() && 0 <= e < g.nodes@[u].outgoing_edges@.len()
}

/// There is an edge from `u` to `v`.
pub open spec fn has_edge(g: DepGraph, u: int, v: int) -> bool {
    exists|e: int| #[trigger] is_edge(g, u, e) && edge_of(g, u, e).head_idx == v
}

/// There is an edge from `u` to `v` with latency `l`.
pub open spec fn has_edge_lat(g: DepGraph, u: int, v: int, l: u32) -> bool {
    exists|e: int| #[trigger] is_edge(g, u, e) && edge_of(g, u, e).head_idx == v && edge_of(g, u, e).latency == l
}

/// Every edge ends at a node of the graph.
pub open spec fn heads_in_range(g: DepGraph) -> bool {
    forall|u: int, e: int| #[trigger] is_edge(g, u, e) ==> edge_of(g, u, e).head_idx < g.nodes@.len()
}

/// Every edge goes forward in program order.
pub open spec fn edges_forward(g: DepGraph) -> bool {
    forall|u: int, e: int| #[trigger] is_edge(g, u, e) ==> u < edge_of(g, u, e).head_idx < g.nodes@.len()
}

/// Source `i` of `instr` reads `v`.
pub open spec fn uses(instr: Instr, i: int, v: SSAValue) -> bool {
    0 <= i < instr.op.srcs@.len() && instr.op.srcs@[i].ssa@.contains(v)
}

/// `instr` is guarded by predicate `v`.
pub open spec fn guards(instr: Instr, v: SSAValue) -> bool {
    instr.pred == Some(v)
}

/// Destination `d` of `instr` defines `v`.
pub open spec fn defines(instr: Instr, d: int, v: SSAValue) -> bool {
    0 <= d < instr.op.dsts@.len() && dst_ssa(instr.op.dsts@[d]).contains(v)
}

/// `(k, d)` is the last definition of `v` before instruction `j`: the
/// latest instruction, and within it the latest destination.
pub open spec fn is_last_def(instrs: Seq<Instr>, j: int, v: SSAValue, k: int, d: int) -> bool {
    &&& 0 <= k < j < instrs.len()
    &&& defines(instrs[k], d, v)
    &&& forall|k2: int, d2: int|
        k < k2 < j && #[trigger] defines(instrs[k2], d2, v) ==> false
    &&& forall|d2: int| d < d2 && #[trigger] defines(instrs[k], d2, v) ==> false
}

pub open spec fn is_memory(instrs: Seq<Instr>, a: int) -> bool {
    spec_side_effect(instrs[a].op.opcode) == SideEffect::Memory
}

/// `a` and `b` are consecutive memory ops of the region.
pub open spec fn next_memory(instrs: Seq<Instr>, a: int, b: int) -> bool {
    &&& 0 <= a < b < instrs.len()
    &&& is_memory(instrs, a)
    &&& is_memory(instrs, b)
    &&& forall|c: int| a < c < b ==> !#[trigger] is_memory(instrs, c)
}

/// Every latency lookup that building the graph of `instrs` makes is
/// defined: for the last definition of each value read, the RAW (or, for
/// a guard, PAW) entry, and whether the producer needs scoreboards.
pub open spec fn latencies_defined(instrs: Seq<Instr>) -> bool {
    &&& forall|j: int, i: int, v: SSAValue, k: int, d: int|
        #[trigger] uses(instrs[j], i, v) && #[trigger] is_last_def(instrs, j, v, k, d)
            ==> SM75Latency::spec_raw(instrs[k].op, d, instrs[j].op, i) is Some
                && SM75Latency::spec_needs_scoreboards(instrs[k].op) is Some
    &&& forall|j: int, v: SSAValue, k: int, d: int|
        #[trigger] guards(instrs[j], v) && #[trigger] is_last_def(instrs, j, v, k, d)
            ==> SM75Latency::spec_paw(instrs[k].op, d) is Some && SM75Latency::spec_needs_scoreboards(instrs[k].op) is Some
}

/// `l`, raised to the estimated latency when `producer` has no fixed
/// latency.
pub open spec fn widened(l: u32, producer: Op) -> u32 {
    if SM75Latency::spec_needs_scoreboards(producer) == Some(true) && spec_variable_latency(producer.opcode) > l {
        spec_variable_latency(producer.opcode)
    } else {
        l
    }
}

/// Latency of the edge from destination `d` of instruction `k` to source
/// `i` of instruction `j`.
pub open spec fn data_latency(instrs: Seq<Instr>, k: int, d: int, j: int, i: int) -> u32 {
    widened(SM75Latency::spec_raw(instrs[k].op, d, instrs[j].op, i)->0, instrs[k].op)
}

/// Latency of the edge from predicate destination `d` of instruction `k`
/// to an instruction it guards.
pub open spec fn guard_latency(instrs: Seq<Instr>, k: int, d: int) -> u32 {
    widened(SM75Latency::spec_paw(instrs[k].op, d)->0, instrs[k].op)
}

/// `x`, an edge leaving `u`, is a data edge, a guard edge or a memory-order
/// edge, with the latency that kind of edge has.
pub open spec fn justified_edge(instrs: Seq<Instr>, u: int, x: Edge) -> bool {
    let j = x.head_idx as int;
    ||| exists|i: int, v: SSAValue, d: int|
        #[trigger] uses(instrs[j], i, v) && #[trigger] is_last_def(instrs, j, v, u, d) && x.latency == data_latency(instrs, u, d, j, i)
    ||| exists|v: SSAValue, d: int|
        #[trigger] guards(instrs[j], v) && #[trigger] is_last_def(instrs, j, v, u, d) && x.latency == guard_latency(instrs, u, d)
    ||| next_memory(instrs, u, j) && x.latency == 0
}

/// The edges of `g` are exactly those of the dependency graph of `instrs`:
/// every data, guard and memory-order edge, with its latency, and no other.
pub open spec fn exact_dependency_edges(g: DepGraph, instrs: Seq<Instr>) -> bool {
    &&& forall|j: int, i: int, v: SSAValue, k: int, d: int|
        #[trigger] uses(instrs[j], i, v) && #[trigger] is_last_def(instrs, j, v, k, d)
            ==> has_edge_lat(g, k, j, data_latency(instrs, k, d, j, i))
    &&& forall|j: int, v: SSAValue, k: int, d: int|
        #[trigger] guards(instrs[j], v) && #[trigger] is_last_def(instrs, j, v, k, d)
            ==> has_edge_lat(g, k, j, guard_latency(instrs, k, d))
    &&& forall|a: int, b: int| #[trigger] next_memory(instrs, a, b) ==> has_edge_lat(g, a, b, 0)
    &&& forall|u: int, e: int| #[trigger] is_edge(g, u, e) ==> justified_edge(instrs, u, edge_of(g, u, e))
}

/// The edges that a dependency graph of `instrs` must have: from the last
/// definition of every value read (as a source or as the guard) to its
/// reader, and from each memory op to the next.
pub open spec fn has_dependency_edges(g: DepGraph, instrs: Seq<Instr>) -> bool {
    &&& forall|j: int, i: int, v: SSAValue, k: int, d: int|
        #[trigger] uses(instrs[j], i, v) && #[trigger] is_last_def(instrs, j, v, k, d) ==> has_edge(g, k, j)
    &&& forall|j: int, v: SSAValue, k: int, d: int|
        guards(instrs[j], v) && #[trigger] is_last_def(instrs, j, v, k, d) ==> has_edge(g, k, j)
    &&& forall|a: int, b: int| #[trigger] next_memory(instrs, a, b) ==> has_edge(g, a, b)
}

impl DepGraph {
    pub fn new(n: usize) -> (r: DepGraph)
        ensures
            r.nodes@.len() == n,
            forall|u: int| 0 <= u < n ==> (#[trigger] r.nodes@[u]).outgoing_edges@.len() == 0,
    {
        let mut nodes: Vec<Node> = Vec::new();
        let mut i: usize = 0;
        while i < n
            invariant
                i <= n,
                nodes@.len() == i,
                forall|u: int| 0 <= u < i ==> (#[trigger] nodes@[u]).outgoing_edges@.len() == 0,
            decreases n - i,
        {
            nodes.push(Node {
                label: NodeLabel { cycles_to_end: 0, num_uses: 0, ready_cycle: 0 },
                outgoing_edges: Vec::new(),
            });
            i += 1;
        }
        DepGraph { nodes }
    }

    pub fn add_edge(&mut self, u: usize, e: Edge)
        requires
            u < old(self).nodes@.len(),
        ensures
            forall|x: int, y: int| has_edge(*old(self), x, y) ==> has_edge(*final(self), x, y),
            has_edge(*final(self), u as int, e.head_idx as int),
            forall|x: int, y: int, l: u32| has_edge_lat(*old(self), x, y, l) ==> has_edge_lat(*final(self), x, y, l),
            has_edge_lat(*final(self), u as int, e.head_idx as int, e.latency),
            forall|x: int, ei: int| #[trigger] is_edge(*final(self), x, ei) ==> (is_edge(*old(self), x, ei)
                && edge_of(*final(self), x, ei) == edge_of(*old(self), x, ei)) || (x == u && edge_of(*final(self), x, ei) == e),
            final(self).nodes@.len() == old(self).nodes@.len(),
            final(self).nodes@[u as int].outgoing_edges@ == old(self).nodes@[u as int].outgoing_edges@.push(e),
            final(self).nodes@[u as int].label == old(self).nodes@[u as int].label,
            forall|w: int| 0 <= w < final(self).nodes@.len() && w != u ==> #[trigger] final(self).nodes@[w] == old(self).nodes@[w],
    {
        self.nodes[u].outgoing_edges.push(e);
        proof {
            assert forall|x: int, y: int| has_edge(*old(self), x, y) implies has_edge(*self, x, y) by {
                let ei = choose|ei: int| #[trigger] is_edge(*old(self), x, ei) && edge_of(*old(self), x, ei).head_idx == y;
                assert(is_edge(*self, x, ei));
            }
            assert forall|x: int, y: int, l: u32| has_edge_lat(*old(self), x, y, l) implies has_edge_lat(*self, x, y, l) by {
                let ei = choose|ei: int| #[trigger] is_edge(*old(self), x, ei) && edge_of(*old(self), x, ei).head_idx == y
                    && edge_of(*old(self), x, ei).latency == l;
                assert(is_edge(*self, x, ei));
            }
            let last = old(self).nodes@[u as int].outgoing_edges@.len() as int;
            assert(is_edge(*self, u as int, last));
        }
    }
}

fn vec_contains(vals: &Vec<SSAValue>, v: SSAValue) -> (r: bool)
    ensures
        r == vals@.contains(v),
{
    let mut i: usize = 0;
    while i < vals.len()
        invariant
            i <= vals@.len(),
            forall|j: int| 0 <= j < i ==> vals@[j] != v,
        decreases vals@.len() - i,
    {
        if vals[i] == v {
            return true;
        }
        i += 1;
    }
    false
}

fn dst_defines(dst: &Dst, v: SSAValue) -> (r: bool)
    ensures
        r == dst_ssa(*dst).contains(v),
{
    match dst {
        Dst::SSA(vals) => vec_contains(vals, v),
        _ => false,
    }
}

/// The last definition of `v` before instruction `ip`, if any.
fn find_def(instrs: &Vec<Instr>, ip: usize, v: SSAValue) -> (r: Option<(usize, usize)>)
    requires
        ip < instrs@.len(),
    ensures
        r matches Some((k, d)) ==> is_last_def(instrs@, ip as int, v, k as int, d as int),
        r is None ==> forall|k: int, d: int| 0 <= k < ip ==> !#[trigger] defines(instrs@[k], d, v),
{
    let mut k: usize = ip;
    while k > 0
        invariant
            k <= ip < instrs@.len(),
            forall|k2: int, d2: int| k <= k2 < ip && #[trigger] defines(instrs@[k2], d2, v) ==> false,
        decreases k,
    {
        k -= 1;
        let dsts = &instrs[k].op.dsts;
        let mut d: usize = dsts.len();
        while d > 0
            invariant
                k < ip < instrs@.len(),
                *dsts == instrs@[k as int].op.dsts,
                d <= dsts@.len(),
                forall|k2: int, d2: int| k < k2 < ip && #[trigger] defines(instrs@[k2], d2, v) ==> false,
                forall|d2: int| d <= d2 && #[trigger] defines(instrs@[k as int], d2, v) ==> false,
            decreases d,
        {
            d -= 1;
            if dst_defines(&dsts[d], v) {
                return Some((k, d));
            }
        }
    }
    None
}

/// Whether `op` has a fixed latency, so that delays alone cover it.
pub fn has_fixed_latency(sm: &ShaderModel, op: &Op) -> (r: bool)
    requires
        SM75Latency::spec_needs_scoreboards(*op) is Some,
    ensures
        r == !SM75Latency::spec_needs_scoreboards(*op)->0,
{
    !SM75Latency::needs_scoreboards(op)
}

pub open spec fn edges_bounded(g: DepGraph, b: int) -> bool {
    forall|u: int, e: int| #[trigger] is_edge(g, u, e) ==> u < edge_of(g, u, e).head_idx < b
}

pub open spec fn last_memory(instrs: Seq<Instr>, ip: int, m: Option<usize>) -> bool {
    match m {
        Some(a) => a < ip && is_memory(instrs, a as int) && forall|c: int| a < c < ip ==> !#[trigger] is_memory(instrs, c),
        None => forall|c: int| 0 <= c < ip ==> !#[trigger] is_memory(instrs, c),
    }
}

/// Builds the dependency graph of a region: an edge from the last
/// definition of each value an instruction reads to that instruction,
/// labelled with the RAW latency (PAW for a guard), widened to the
/// estimated latency when the producer has no fixed latency; and a
/// zero-latency edge from each memory op to the next.
pub fn generate_dep_graph(sm: &ShaderModel, instrs: &Vec<Instr>) -> (g: DepGraph)
    requires
        latencies_defined(instrs@),
    ensures
        g.nodes@.len() == instrs@.len(),
        edges_forward(g),
        has_dependency_edges(g, instrs@),
        exact_dependency_edges(g, instrs@),
{
    let n = instrs.len();
    let mut g = DepGraph::new(n);
    proof {
        assert forall|u: int, e: int| #[trigger] is_edge(g, u, e) implies false by {}
    }
    let mut last_memory_op: Option<usize> = None;
    let mut ip: usize = 0;
    while ip < n
        invariant
            n == instrs@.len(),
            ip <= n,
            g.nodes@.len() == n,
            latencies_defined(instrs@),
            edges_bounded(g, ip as int),
            last_memory(instrs@, ip as int, last_memory_op),
            forall|j: int, i: int, v: SSAValue, k: int, d: int|
                j < ip && #[trigger] uses(instrs@[j], i, v) && #[trigger] is_last_def(instrs@, j, v, k, d) ==> has_edge_lat(g, k, j, data_latency(instrs@, k, d, j, i)),
            forall|j: int, v: SSAValue, k: int, d: int|
                j < ip && #[trigger] guards(instrs@[j], v) && #[trigger] is_last_def(instrs@, j, v, k, d) ==> has_edge_lat(g, k, j, guard_latency(instrs@, k, d)),
            forall|a: int, b: int| b < ip && #[trigger] next_memory(instrs@, a, b) ==> has_edge_lat(g, a, b, 0),
            forall|u: int, e: int| #[trigger] is_edge(g, u, e) ==> justified_edge(instrs@, u, edge_of(g, u, e)),
        decreases n - ip,
    {
        let instr = &instrs[ip];
        let ghost g0 = g;
        if side_effect_type(&instr.op) == SideEffect::Memory {
            match last_memory_op {
                Some(mem_ip) => {
                    let ghost gm = g;
                    g.add_edge(mem_ip, Edge { head_idx: ip, latency: 0 });
                    proof {
                        assert(next_memory(instrs@, mem_ip as int, ip as int));
                        assert forall|u: int, e: int| #[trigger] is_edge(g, u, e) implies justified_edge(instrs@, u, edge_of(g, u, e)) by {
                            if is_edge(gm, u, e) && edge_of(g, u, e) == edge_of(gm, u, e) {
                            }
                        }
                    }
                },
                None => {},
            }
            last_memory_op = Some(ip);
        }
        proof {
            assert forall|a: int, b: int| b <= ip && #[trigger] next_memory(instrs@, a, b) implies has_edge_lat(g, a, b, 0) by {
                if b < ip {
                    assert(has_edge_lat(g0, a, b, 0));
                } else {
                    assert(is_memory(instrs@, a));
                }
            }
        }
        let ghost g1 = g;

        let mut i: usize = 0;
        while i < instr.op.srcs.len()
            invariant
                n == instrs@.len(),
                ip < n,
                *instr == instrs@[ip as int],
                i <= instr.op.srcs@.len(),
                g.nodes@.len() == n,
                latencies_defined(instrs@),
                edges_bounded(g, ip as int + 1),
                forall|x: int, y: int, l: u32| has_edge_lat(g1, x, y, l) ==> has_edge_lat(g, x, y, l),
                forall|u: int, e: int| #[trigger] is_edge(g, u, e) ==> justified_edge(instrs@, u, edge_of(g, u, e)),
                forall|i2: int, v: SSAValue, k: int, d: int|
                    i2 < i && #[trigger] uses(instrs@[ip as int], i2, v) && #[trigger] is_last_def(instrs@, ip as int, v, k, d) ==> has_edge_lat(g, k, ip as int, data_latency(instrs@, k, d, ip as int, i2)),
            decreases instr.op.srcs@.len() - i,
        {
            let src_ssa = &instr.op.srcs[i].ssa;
            let mut s: usize = 0;
            while s < src_ssa.len()
                invariant
                    n == instrs@.len(),
                    ip < n,
                    *instr == instrs@[ip as int],
                    i < instr.op.srcs@.len(),
                    *src_ssa == instr.op.srcs@[i as int].ssa,
                    s <= src_ssa@.len(),
                    g.nodes@.len() == n,
                    latencies_defined(instrs@),
                    edges_bounded(g, ip as int + 1),
                    forall|x: int, y: int, l: u32| has_edge_lat(g1, x, y, l) ==> has_edge_lat(g, x, y, l),
                forall|u: int, e: int| #[trigger] is_edge(g, u, e) ==> justified_edge(instrs@, u, edge_of(g, u, e)),
                    forall|i2: int, v: SSAValue, k: int, d: int|
                        i2 < i && #[trigger] uses(instrs@[ip as int], i2, v) && #[trigger] is_last_def(instrs@, ip as int, v, k, d) ==> has_edge_lat(g, k, ip as int, data_latency(instrs@, k, d, ip as int, i2)),
                    forall|s2: int, k: int, d: int|
                        0 <= s2 < s && #[trigger] is_last_def(instrs@, ip as int, src_ssa@[s2], k, d) ==> has_edge_lat(g, k, ip as int, data_latency(instrs@, k, d, ip as int, i as int)),
                decreases src_ssa@.len() - s,
            {
                let v = src_ssa[s];
                match find_def(instrs, ip, v) {
                    Some((def_ip, def_idx)) => {
                        assert(instr.op.srcs@[i as int].ssa@[s as int] == v);
                        assert(uses(instrs@[ip as int], i as int, v));
                        assert(defines(instrs@[def_ip as int], def_idx as int, v));
                        let def_instr = &instrs[def_ip];
                        let mut latency = SM75Latency::raw(&def_instr.op, def_idx, &instr.op, i);
                        assert(SM75Latency::spec_needs_scoreboards(instrs@[def_ip as int].op) is Some);
                        if !has_fixed_latency(sm, &def_instr.op) {
                            let est = estimate_variable_latency(&def_instr.op);
                            if est > latency {
                                latency = est;
                            }
                        }
                        let ghost ga = g;
                        g.add_edge(def_ip, Edge { head_idx: ip, latency });
                        proof {
                            assert(latency == data_latency(instrs@, def_ip as int, def_idx as int, ip as int, i as int));
                            assert forall|u: int, e: int| #[trigger] is_edge(g, u, e) implies justified_edge(instrs@, u, edge_of(g, u, e)) by {
                                if is_edge(ga, u, e) && edge_of(g, u, e) == edge_of(ga, u, e) {
                                } else {
                                    assert(uses(instrs@[ip as int], i as int, v) && is_last_def(instrs@, ip as int, v, def_ip as int, def_idx as int));
                                }
                            }
                        }
                    },
                    None => {},
                }
                proof {
                    assert forall|s2: int, k: int, d: int|
                        0 <= s2 < s + 1 && #[trigger] is_last_def(instrs@, ip as int, src_ssa@[s2], k, d) implies has_edge_lat(g, k, ip as int, data_latency(instrs@, k, d, ip as int, i as int)) by {
                        if s2 == s {
                            let w = src_ssa@[s2];
                            assert(defines(instrs@[k], d, w));
                        }
                    }
                }
                s += 1;
            }
            proof {
                assert forall|i2: int, v: SSAValue, k: int, d: int|
                    i2 < i + 1 && #[trigger] uses(instrs@[ip as int], i2, v) && #[trigger] is_last_def(instrs@, ip as int, v, k, d) implies has_edge_lat(g, k, ip as int, data_latency(instrs@, k, d, ip as int, i2)) by {
                    if i2 == i {
                        let s2 = choose|s2: int| 0 <= s2 < src_ssa@.len() && src_ssa@[s2] == v;
                        assert(is_last_def(instrs@, ip as int, src_ssa@[s2], k, d));
                    }
                }
            }
            i += 1;
        }

        match instr.pred {
            Some(p) => {
                match find_def(instrs, ip, p) {
                    Some((def_ip, def_idx)) => {
                        assert(guards(instrs@[ip as int], p));
                        assert(defines(instrs@[def_ip as int], def_idx as int, p));
                        let def_instr = &instrs[def_ip];
                        let mut latency = SM75Latency::paw(&def_instr.op, def_idx);
                        assert(SM75Latency::spec_needs_scoreboards(instrs@[def_ip as int].op) is Some);
                        if !has_fixed_latency(sm, &def_instr.op) {
                            let est = estimate_variable_latency(&def_instr.op);
                            if est > latency {
                                latency = est;
                            }
                        }
                        let ghost ga = g;
                        g.add_edge(def_ip, Edge { head_idx: ip, latency });
                        proof {
                            assert(latency == guard_latency(instrs@, def_ip as int, def_idx as int));
                            assert forall|u: int, e: int| #[trigger] is_edge(g, u, e) implies justified_edge(instrs@, u, edge_of(g, u, e)) by {
                                if is_edge(ga, u, e) && edge_of(g, u, e) == edge_of(ga, u, e) {
                                } else {
                                    assert(guards(instrs@[ip as int], p) && is_last_def(instrs@, ip as int, p, def_ip as int, def_idx as int));
                                }
                            }
                        }
                    },
                    None => {},
                }
            },
            None => {},
        }
        proof {
            assert forall|j: int, i2: int, v: SSAValue, k: int, d: int|
                j < ip + 1 && #[trigger] uses(instrs@[j], i2, v) && #[trigger] is_last_def(instrs@, j, v, k, d) implies has_edge_lat(g, k, j, data_latency(instrs@, k, d, j, i2)) by {
                if j < ip {
                    assert(has_edge_lat(g0, k, j, data_latency(instrs@, k, d, j, i2)));
                    assert(has_edge_lat(g1, k, j, data_latency(instrs@, k, d, j, i2)));
                }
            }
            assert forall|j: int, v: SSAValue, k: int, d: int|
                j < ip + 1 && #[trigger] guards(instrs@[j], v) && #[trigger] is_last_def(instrs@, j, v, k, d) implies has_edge_lat(g, k, j, guard_latency(instrs@, k, d)) by {
                if j < ip {
                    assert(has_edge_lat(g0, k, j, guard_latency(instrs@, k, d)));
                    assert(has_edge_lat(g1, k, j, guard_latency(instrs@, k, d)));
                } else {
                    assert(defines(instrs@[k], d, v));
                }
            }
            assert forall|a: int, b: int| b < ip + 1 && #[trigger] next_memory(instrs@, a, b) implies has_edge_lat(g, a, b, 0) by {
                assert(has_edge_lat(g1, a, b, 0));
            }
        }
        ip += 1;
    }
    proof {
        assert forall|j: int, i: int, v: SSAValue, k: int, d: int|
            #[trigger] uses(instrs@[j], i, v) && #[trigger] is_last_def(instrs@, j, v, k, d) implies has_edge(g, k, j) by {
            assert(has_edge_lat(g, k, j, data_latency(instrs@, k, d, j, i)));
        }
        assert forall|j: int, v: SSAValue, k: int, d: int|
            #[trigger] guards(instrs@[j], v) && #[trigger] is_last_def(instrs@, j, v, k, d) implies has_edge(g, k, j) by {
            assert(has_edge_lat(g, k, j, guard_latency(instrs@, k, d)));
        }
        assert forall|a: int, b: int| #[trigger] next_memory(instrs@, a, b) implies has_edge(g, a, b) by {
            assert(has_edge_lat(g, a, b, 0));
        }
    }
    g
}

/// Total number of edges in `nodes`.
pub open spec fn edge_count(nodes: Seq<Node>) -> nat
    decreases nodes.len(),
{
    if nodes.len() == 0 {
        0
    } else {
        edge_count(nodes.drop_last()) + nodes.last().outgoing_edges@.len()
    }
}

pub proof fn lemma_edge_count_update(nodes: Seq<Node>, i: int, x: Node)
    requires
        0 <= i < nodes.len(),
    ensures
        edge_count(nodes.update(i, x)) + nodes[i].outgoing_edges@.len() == edge_count(nodes) + x.outgoing_edges@.len(),
    decreases nodes.len(),
{
    if i == nodes.len() - 1 {
        assert(nodes.update(i, x).drop_last() =~= nodes.drop_last());
    } else {
        lemma_edge_count_update(nodes.drop_last(), i, x);
        assert(nodes.update(i, x).drop_last() =~= nodes.drop_last().update(i, x));
    }
}

/// `a + b`, held at `u64::MAX`.
pub open spec fn sat_add(a: u64, b: u64) -> u64 {
    if a + b > u64::MAX { u64::MAX } else { (a + b) as u64 }
}

/// The longest delay to the end through the first `m` of `edges`, given the
/// heads' own delays in `nodes`.
pub open spec fn max_edge_delay(nodes: Seq<Node>, edges: Seq<Edge>, m: int) -> u64
    decreases m,
{
    if m <= 0 {
        0
    } else {
        let prev = max_edge_delay(nodes, edges, m - 1);
        let d = sat_add(nodes[edges[m - 1].head_idx as int].label.cycles_to_end, edges[m - 1].latency as u64);
        if d > prev { d } else { prev }
    }
}

proof fn lemma_max_delay_frame(a: Seq<Node>, b: Seq<Node>, edges: Seq<Edge>, m: int)
    requires
        forall|k: int| 0 <= k < m && k < edges.len() ==> #[trigger] a[edges[k].head_idx as int].label.cycles_to_end
            == b[edges[k].head_idx as int].label.cycles_to_end,
        m <= edges.len(),
    ensures
        max_edge_delay(a, edges, m) == max_edge_delay(b, edges, m),
    decreases m,
{
    if m > 0 {
        lemma_max_delay_frame(a, b, edges, m - 1);
        assert(a[edges[m - 1].head_idx as int].label.cycles_to_end == b[edges[m - 1].head_idx as int].label.cycles_to_end);
    }
}

/// Computes, bottom-up, each node's longest latency-weighted path to a sink
/// and its number of dependents; returns the sinks, which are the
/// instructions that bottom-up scheduling may start with.
pub fn calc_statistics(g: &mut DepGraph) -> (r: Vec<usize>)
    requires
        heads_in_range(*old(g)),
        edges_forward(*old(g)),
    ensures
        forall|u: int| 0 <= u < final(g).nodes@.len() ==> (#[trigger] final(g).nodes@[u]).label.cycles_to_end
            == max_edge_delay(final(g).nodes@, final(g).nodes@[u].outgoing_edges@, final(g).nodes@[u].outgoing_edges@.len() as int),
        final(g).nodes@.len() == old(g).nodes@.len(),
        forall|u: int| 0 <= u < final(g).nodes@.len() ==> (#[trigger] final(g).nodes@[u]).outgoing_edges@ == old(g).nodes@[u].outgoing_edges@,
        forall|u: int| 0 <= u < final(g).nodes@.len() ==> (#[trigger] final(g).nodes@[u]).label.num_uses == final(g).nodes@[u].outgoing_edges@.len(),
        forall|u: int| 0 <= u < final(g).nodes@.len() ==> (#[trigger] final(g).nodes@[u]).label.ready_cycle == old(g).nodes@[u].label.ready_cycle,
        r@.no_duplicates(),
        forall|k: int| 0 <= k < r@.len() ==> r@[k] < final(g).nodes@.len(),
        forall|u: int| 0 <= u < final(g).nodes@.len() ==> (r@.contains(u as usize) <==> final(g).nodes@[u].outgoing_edges@.len() == 0),
{
    let n = g.nodes.len();
    let mut ready: Vec<usize> = Vec::new();
    let mut i: usize = n;
    while i > 0
        invariant
            i <= n,
            g.nodes@.len() == n,
            old(g).nodes@.len() == n,
            heads_in_range(*old(g)),
            edges_forward(*old(g)),
            forall|u: int| 0 <= u < n ==> (#[trigger] g.nodes@[u]).outgoing_edges@ == old(g).nodes@[u].outgoing_edges@,
            forall|u: int| 0 <= u < n ==> (#[trigger] g.nodes@[u]).label.ready_cycle == old(g).nodes@[u].label.ready_cycle,
            forall|u: int| i <= u < n ==> (#[trigger] g.nodes@[u]).label.num_uses == g.nodes@[u].outgoing_edges@.len(),
            forall|u: int| i <= u < n ==> (#[trigger] g.nodes@[u]).label.cycles_to_end
                == max_edge_delay(g.nodes@, g.nodes@[u].outgoing_edges@, g.nodes@[u].outgoing_edges@.len() as int),
            ready@.no_duplicates(),
            forall|k: int| 0 <= k < ready@.len() ==> i <= #[trigger] ready@[k] < n,
            forall|u: int| i <= u < n ==> (ready@.contains(u as usize) <==> g.nodes@[u].outgoing_edges@.len() == 0),
        decreases i,
    {
        i -= 1;
        let mut max_delay: u64 = 0;
        let mut e: usize = 0;
        let ne = g.nodes[i].outgoing_edges.len();
        while e < ne
            invariant
                i < n,
                g.nodes@.len() == n,
                heads_in_range(*old(g)),
                old(g).nodes@.len() == n,
                ne == g.nodes@[i as int].outgoing_edges@.len(),
                forall|u: int| 0 <= u < n ==> (#[trigger] g.nodes@[u]).outgoing_edges@ == old(g).nodes@[u].outgoing_edges@,
                e <= ne,
                max_delay == max_edge_delay(g.nodes@, g.nodes@[i as int].outgoing_edges@, e as int),
            decreases ne - e,
        {
            let edge = g.nodes[i].outgoing_edges[e];
            assert(is_edge(*old(g), i as int, e as int));
            let d = g.nodes[edge.head_idx].label.cycles_to_end.saturating_add(edge.latency as u64);
            if d > max_delay {
                max_delay = d;
            }
            e += 1;
        }
        let ready_cycle = g.nodes[i].label.ready_cycle;
        let ghost g0 = *g;
        g.nodes[i].label = NodeLabel { cycles_to_end: max_delay, num_uses: ne, ready_cycle };
        proof {
            assert forall|u: int| i <= u < n implies (#[trigger] g.nodes@[u]).label.cycles_to_end
                == max_edge_delay(g.nodes@, g.nodes@[u].outgoing_edges@, g.nodes@[u].outgoing_edges@.len() as int) by {
                let es = g.nodes@[u].outgoing_edges@;
                assert forall|k: int| 0 <= k < es.len() && k < es.len() implies #[trigger] g0.nodes@[es[k].head_idx as int].label.cycles_to_end
                    == g.nodes@[es[k].head_idx as int].label.cycles_to_end by {
                    assert(is_edge(*old(g), u, k));
                }
                lemma_max_delay_frame(g0.nodes@, g.nodes@, es, es.len() as int);
            }
        }
        if ne == 0 {
            let ghost r0 = ready@;
            ready.push(i);
            proof {
                assert forall|u: int| i <= u < n implies (ready@.contains(u as usize) <==> g.nodes@[u].outgoing_edges@.len() == 0) by {
                    if u > i {
                        if r0.contains(u as usize) {
                            let k = choose|k: int| 0 <= k < r0.len() && r0[k] == u as usize;
                            assert(ready@[k] == u as usize);
                        }
                        if ready@.contains(u as usize) {
                            let k = choose|k: int| 0 <= k < ready@.len() && ready@[k] == u as usize;
                            assert(k < r0.len());
                            assert(r0[k] == u as usize);
                        }
                    } else {
                        assert(ready@[ready@.len() - 1] == i);
                    }
                }
            }
        } else {
            proof {
                assert(!ready@.contains(i));
            }
        }
    }
    ready
}

impl DepGraph {
    /// The same nodes and labels with every edge turned around.
    pub fn reverse(&self) -> (r: DepGraph)
        requires
            heads_in_range(*self),
        ensures
            r.nodes@.len() == self.nodes@.len(),
            heads_in_range(r),
            forall|u: int| 0 <= u < r.nodes@.len() ==> (#[trigger] r.nodes@[u]).label == self.nodes@[u].label,
            forall|v: int, e: int| #[trigger] is_edge(r, v, e) ==> has_edge(*self, edge_of(r, v, e).head_idx as int, v),
            forall|v: int, e: int| #[trigger] is_edge(r, v, e) ==> has_edge_lat(*self, edge_of(r, v, e).head_idx as int, v, edge_of(r, v, e).latency),
            forall|u: int, e: int| #[trigger] is_edge(*self, u, e) ==> has_edge_lat(r, edge_of(*self, u, e).head_idx as int, u, edge_of(*self, u, e).latency),
            edges_forward(*self) ==> forall|v: int, e: int| #[trigger] is_edge(r, v, e) ==> edge_of(r, v, e).head_idx < v,
            forall|w: int| 0 <= w < r.nodes@.len() ==> #[trigger] in_count(r.nodes@, w) == self.nodes@[w].outgoing_edges@.len(),
    {
        let n = self.nodes.len();
        let mut r = DepGraph { nodes: Vec::new() };
        let mut i: usize = 0;
        while i < n
            invariant
                i <= n,
                n == self.nodes@.len(),
                r.nodes@.len() == i,
                forall|u: int| 0 <= u < i ==> (#[trigger] r.nodes@[u]).label == self.nodes@[u].label,
                forall|u: int| 0 <= u < i ==> (#[trigger] r.nodes@[u]).outgoing_edges@.len() == 0,
            decreases n - i,
        {
            r.nodes.push(Node { label: self.nodes[i].label, outgoing_edges: Vec::new() });
            i += 1;
        }
        proof {
            assert forall|v: int, e: int| #[trigger] is_edge(r, v, e) implies false by {}
            assert forall|w: int| true implies #[trigger] in_count(r.nodes@, w) == 0 by {
                lemma_in_count_empty(r.nodes@, w);
            }
        }
        let mut u: usize = 0;
        while u < n
            invariant
                u <= n,
                n == self.nodes@.len(),
                r.nodes@.len() == n,
                heads_in_range(*self),
                forall|w: int| 0 <= w < n ==> (#[trigger] r.nodes@[w]).label == self.nodes@[w].label,
                forall|v: int, e: int| #[trigger] is_edge(r, v, e) ==> edge_of(r, v, e).head_idx < n
                    && has_edge(*self, edge_of(r, v, e).head_idx as int, v)
                    && has_edge_lat(*self, edge_of(r, v, e).head_idx as int, v, edge_of(r, v, e).latency),
                forall|x: int, e: int| 0 <= x < u && #[trigger] is_edge(*self, x, e) ==> has_edge_lat(r, edge_of(*self, x, e).head_idx as int, x, edge_of(*self, x, e).latency),
                forall|w: int| #[trigger] in_count(r.nodes@, w) == if 0 <= w < u { self.nodes@[w].outgoing_edges@.len() } else { 0 },
            decreases n - u,
        {
            let ne = self.nodes[u].outgoing_edges.len();
            let mut e: usize = 0;
            while e < ne
                invariant
                    u < n,
                    n == self.nodes@.len(),
                    r.nodes@.len() == n,
                    heads_in_range(*self),
                    ne == self.nodes@[u as int].outgoing_edges@.len(),
                    e <= ne,
                    forall|w: int| 0 <= w < n ==> (#[trigger] r.nodes@[w]).label == self.nodes@[w].label,
                    forall|v: int, ei: int| #[trigger] is_edge(r, v, ei) ==> edge_of(r, v, ei).head_idx < n
                        && has_edge(*self, edge_of(r, v, ei).head_idx as int, v)
                        && has_edge_lat(*self, edge_of(r, v, ei).head_idx as int, v, edge_of(r, v, ei).latency),
                    forall|x: int, ei: int| 0 <= x < u && #[trigger] is_edge(*self, x, ei) ==> has_edge_lat(r, edge_of(*self, x, ei).head_idx as int, x, edge_of(*self, x, ei).latency),
                    forall|ei: int| 0 <= ei < e ==> #[trigger] has_edge_lat(r, edge_of(*self, u as int, ei).head_idx as int, u as int, edge_of(*self, u as int, ei).latency),
                    forall|w: int| #[trigger] in_count(r.nodes@, w) == if 0 <= w < u { self.nodes@[w].outgoing_edges@.len() as int } else if w == u { e as int } else { 0 },
                decreases ne - e,
            {
                let edge = self.nodes[u].outgoing_edges[e];
                assert(is_edge(*self, u as int, e as int));
                let ghost r0 = r;
                r.add_edge(edge.head_idx, Edge { head_idx: u, latency: edge.latency });
                proof {
                    let h = edge.head_idx as int;
                    let x = r.nodes@[h];
                    assert(r.nodes@ =~= r0.nodes@.update(h, x));
                    assert(x.outgoing_edges@.drop_last() =~= r0.nodes@[h].outgoing_edges@);
                    assert forall|w: int| true implies #[trigger] in_count(r.nodes@, w) == in_count(r0.nodes@, w) + if w == u { 1int } else { 0int } by {
                        lemma_in_count_update(r0.nodes@, h, x, w);
                    }
                }
                proof {
                    assert forall|v: int, ei: int| #[trigger] is_edge(r, v, ei) implies edge_of(r, v, ei).head_idx < n
                        && has_edge(*self, edge_of(r, v, ei).head_idx as int, v)
                        && has_edge_lat(*self, edge_of(r, v, ei).head_idx as int, v, edge_of(r, v, ei).latency) by {
                        if is_edge(r0, v, ei) && edge_of(r, v, ei) == edge_of(r0, v, ei) {
                        } else {
                            assert(has_edge(*self, u as int, edge.head_idx as int));
                            assert(has_edge_lat(*self, u as int, edge.head_idx as int, edge.latency));
                        }
                    }
                    assert forall|ei: int| 0 <= ei < e + 1 implies #[trigger] has_edge_lat(r, edge_of(*self, u as int, ei).head_idx as int, u as int, edge_of(*self, u as int, ei).latency) by {
                        if ei < e {
                            assert(has_edge_lat(r0, edge_of(*self, u as int, ei).head_idx as int, u as int, edge_of(*self, u as int, ei).latency));
                        }
                    }
                }
                e += 1;
            }
            proof {
                assert forall|w: int| true implies #[trigger] in_count(r.nodes@, w) == if 0 <= w < u + 1 { self.nodes@[w].outgoing_edges@.len() as int } else { 0 } by {}
                assert forall|x: int, ei: int| 0 <= x < u + 1 && #[trigger] is_edge(*self, x, ei) implies has_edge_lat(r, edge_of(*self, x, ei).head_idx as int, x, edge_of(*self, x, ei).latency) by {
                    if x == u {
                        assert(has_edge_lat(r, edge_of(*self, u as int, ei).head_idx as int, u as int, edge_of(*self, u as int, ei).latency));
                    }
                }
            }
            u += 1;
        }
        proof {
            if edges_forward(*self) {
                assert forall|v: int, e: int| #[trigger] is_edge(r, v, e) implies edge_of(r, v, e).head_idx < v by {
                    let h = edge_of(r, v, e).head_idx as int;
                    assert(has_edge(*self, h, v));
                    let e2 = choose|e2: int| #[trigger] is_edge(*self, h, e2) && edge_of(*self, h, e2).head_idx == v;
                }
            }
        }
        r
    }
}

/// `u` comes before `v` in `order`.
pub open spec fn precedes(order: Seq<usize>, u: int, v: int) -> bool {
    exists|a: int, b: int| 0 <= a < b < order.len() && order[a] == u && order[b] == v
}

/// `order` is a permutation of `0..n`.
pub open spec fn is_permutation(order: Seq<usize>, n: int) -> bool {
    &&& order.len() == n
    &&& order.no_duplicates()
    &&& forall|k: int| 0 <= k < order.len() ==> order[k] < n
    &&& forall|w: int| 0 <= w < n ==> #[trigger] order.contains(w as usize)
}

/// `order` lists every node of `g` once, each after all its predecessors.
pub open spec fn is_topological_order(order: Seq<usize>, g: DepGraph) -> bool {
    &&& is_permutation(order, g.nodes@.len() as int)
    &&& forall|u: int, e: int| #[trigger] is_edge(g, u, e) ==> precedes(order, u, edge_of(g, u, e).head_idx as int)
}

/// Edges of `edges` that end at `u`.
pub open spec fn head_count(edges: Seq<Edge>, u: int) -> nat
    decreases edges.len(),
{
    if edges.len() == 0 {
        0
    } else {
        head_count(edges.drop_last(), u) + if edges.last().head_idx == u { 1nat } else { 0nat }
    }
}

/// Edges of `nodes` that end at `u`.
pub open spec fn in_count(nodes: Seq<Node>, u: int) -> nat
    decreases nodes.len(),
{
    if nodes.len() == 0 {
        0
    } else {
        in_count(nodes.drop_last(), u) + head_count(nodes.last().outgoing_edges@, u)
    }
}

pub proof fn lemma_head_count_concat(a: Seq<Edge>, b: Seq<Edge>, u: int)
    ensures
        head_count(a + b, u) == head_count(a, u) + head_count(b, u),
    decreases b.len(),
{
    if b.len() == 0 {
        assert(a + b =~= a);
    } else {
        lemma_head_count_concat(a, b.drop_last(), u);
        assert((a + b).drop_last() =~= a + b.drop_last());
    }
}

/// The edges from position `k` on that end at `u`: the one at `k`, then
/// the rest.
pub proof fn lemma_head_count_from(edges: Seq<Edge>, k: int, u: int)
    requires
        0 <= k < edges.len(),
    ensures
        head_count(edges.subrange(k, edges.len() as int), u) == (if edges[k].head_idx == u { 1nat } else { 0nat })
            + head_count(edges.subrange(k + 1, edges.len() as int), u),
{
    let one = seq![edges[k]];
    assert(edges.subrange(k, edges.len() as int) =~= one + edges.subrange(k + 1, edges.len() as int));
    lemma_head_count_concat(one, edges.subrange(k + 1, edges.len() as int), u);
    assert(one.drop_last() =~= Seq::<Edge>::empty());
    assert(one.last() == edges[k]);
    assert(head_count(Seq::<Edge>::empty(), u) == 0);
    assert(head_count(one, u) == (if edges[k].head_idx == u { 1nat } else { 0nat }));
}

/// Edges none of which ends at `u` count none into it.
pub proof fn lemma_head_count_zero(edges: Seq<Edge>, u: int)
    requires
        forall|k: int| 0 <= k < edges.len() ==> (#[trigger] edges[k]).head_idx != u,
    ensures
        head_count(edges, u) == 0,
    decreases edges.len(),
{
    if edges.len() > 0 {
        lemma_head_count_zero(edges.drop_last(), u);
        assert(edges.last() == edges[edges.len() - 1]);
    }
}

pub proof fn lemma_in_count_update(nodes: Seq<Node>, i: int, x: Node, u: int)
    requires
        0 <= i < nodes.len(),
    ensures
        in_count(nodes.update(i, x), u) + head_count(nodes[i].outgoing_edges@, u) == in_count(nodes, u)
            + head_count(x.outgoing_edges@, u),
    decreases nodes.len(),
{
    if i == nodes.len() - 1 {
        assert(nodes.update(i, x).drop_last() =~= nodes.drop_last());
    } else {
        lemma_in_count_update(nodes.drop_last(), i, x, u);
        assert(nodes.update(i, x).drop_last() =~= nodes.drop_last().update(i, x));
    }
}

/// An edge into `u` is counted.
pub proof fn lemma_in_count_pos(nodes: Seq<Node>, v: int, e: int, u: int)
    requires
        0 <= v < nodes.len(),
        0 <= e < nodes[v].outgoing_edges@.len(),
        nodes[v].outgoing_edges@[e].head_idx == u,
    ensures
        in_count(nodes, u) >= 1,
    decreases nodes.len(),
{
    if v == nodes.len() - 1 {
        let es = nodes[v].outgoing_edges@;
        lemma_head_count_concat(es.subrange(0, e), es.subrange(e, es.len() as int), u);
        assert(es =~= es.subrange(0, e) + es.subrange(e, es.len() as int));
        lemma_head_count_from(es, e, u);
    } else {
        lemma_in_count_pos(nodes.drop_last(), v, e, u);
    }
}

/// A counted edge into `u` exists.
pub proof fn lemma_in_count_witness(nodes: Seq<Node>, u: int) -> (r: (int, int))
    requires
        in_count(nodes, u) > 0,
    ensures
        0 <= r.0 < nodes.len(),
        0 <= r.1 < nodes[r.0].outgoing_edges@.len(),
        nodes[r.0].outgoing_edges@[r.1].head_idx == u,
    decreases nodes.len(),
{
    let last = nodes.len() - 1;
    if in_count(nodes.drop_last(), u) > 0 {
        let (v, e) = lemma_in_count_witness(nodes.drop_last(), u);
        (v, e)
    } else {
        let es = nodes[last].outgoing_edges@;
        assert(nodes.last() == nodes[last]);
        if forall|k: int| 0 <= k < es.len() ==> (#[trigger] es[k]).head_idx != u {
            lemma_head_count_zero(es, u);
        }
        let e = choose|k: int| 0 <= k < es.len() && (#[trigger] es[k]).head_idx == u;
        (last, e)
    }
}

/// A graph with no edges counts none into any node.
pub proof fn lemma_in_count_empty(nodes: Seq<Node>, u: int)
    requires
        forall|w: int| 0 <= w < nodes.len() ==> (#[trigger] nodes[w]).outgoing_edges@.len() == 0,
    ensures
        in_count(nodes, u) == 0,
    decreases nodes.len(),
{
    if nodes.len() > 0 {
        lemma_in_count_empty(nodes.drop_last(), u);
        assert(nodes.last().outgoing_edges@ =~= Seq::<Edge>::empty());
    }
}

} // verus!
