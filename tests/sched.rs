use nak_sched::graph::{generate_dep_graph, ShaderModel};
use nak_sched::ir::{Dst, Instr, Op, Opcode, SSAValue, Src};
use nak_sched::live::LiveSet;
use nak_sched::liveness::BasicBlock;
use nak_sched::prepass::{
    get_schedule_types, gpr_limit_from_local_size, next_occupancy_cliff_with_reserved, ComputeShaderInfo, Function,
    ScheduleType, ScheduleUnit, Shader, ShaderInfo, ShaderStageInfo,
};
use nak_sched::regs::{next_occupancy_cliff, occupancy_in_warps_per_sm, PerRegFile, RegFile};
use nak_sched::score::{calc_score, calc_score_part, calc_used_gprs, ScheduleThresholds, PEAK_BOUND};
use nak_sched::sched::sched_buffer;

fn gpr(idx: u32) -> SSAValue {
    SSAValue { idx, file: RegFile::GPR }
}

fn instr(opcode: Opcode, dsts: &[SSAValue], srcs: &[&[SSAValue]]) -> Instr {
    Instr {
        op: Op {
            opcode,
            srcs: srcs.iter().map(|s| Src { ssa: s.to_vec(), bindless_cbuf: false }).collect(),
            dsts: dsts.iter().map(|d| Dst::SSA(vec![*d])).collect(),
        },
        pred: None,
    }
}

fn sm() -> ShaderModel {
    ShaderModel {
        sm: 75,
        num_regs: PerRegFile { gpr: 253, ugpr: 63, pred: 7, upred: 7, carry: 1, bar: 16, mem: 65536 },
        hw_reserved_gprs: 0,
    }
}

fn max_regs(gprs: i32) -> PerRegFile<i32> {
    PerRegFile { gpr: gprs, ugpr: 63, pred: 7, upred: 7, carry: 1, bar: 16, mem: 65536 }
}

/// A function whose first block defines `inputs` and whose second block,
/// reached from the first, is `body`; the second block's values are all
/// read by a final store so that nothing is dead.
fn two_blocks(inputs: &[SSAValue], body: Vec<Instr>) -> Function {
    let defs: Vec<Instr> = inputs.iter().map(|v| instr(Opcode::Mov, &[*v], &[&[]])).collect();
    Function {
        blocks: vec![BasicBlock { instrs: defs, preds: vec![] }, BasicBlock { instrs: body, preds: vec![0] }],
    }
}

fn position(block: &BasicBlock, opcode: Opcode, dst: Option<u32>) -> usize {
    block
        .instrs
        .iter()
        .position(|i| {
            i.op.opcode == opcode
                && match dst {
                    Some(d) => matches!(i.op.dsts.first(), Some(Dst::SSA(v)) if v[0].idx == d),
                    None => true,
                }
        })
        .unwrap()
}

fn dst_idx(i: &Instr) -> Option<u32> {
    match i.op.dsts.first() {
        Some(Dst::SSA(v)) => Some(v[0].idx),
        _ => None,
    }
}

#[test]
fn test_next_occupancy_cliff() {
    for x in 0..255 {
        let y = next_occupancy_cliff(x);
        assert!(y >= x);
        assert_eq!(occupancy_in_warps_per_sm(x), occupancy_in_warps_per_sm(y));
        assert!(occupancy_in_warps_per_sm(y) > occupancy_in_warps_per_sm(y + 1));
    }
}

#[test]
fn occupancy_values() {
    assert_eq!(occupancy_in_warps_per_sm(0), 48);
    assert_eq!(occupancy_in_warps_per_sm(40), 48);
    assert_eq!(occupancy_in_warps_per_sm(41), 40);
    assert_eq!(occupancy_in_warps_per_sm(64), 32);
    assert_eq!(occupancy_in_warps_per_sm(255), 8);
    assert_eq!(occupancy_in_warps_per_sm(3000), 0);
    assert_eq!(next_occupancy_cliff(0), 40);
    assert_eq!(next_occupancy_cliff(41), 48);
    assert_eq!(next_occupancy_cliff(255), 256);
    assert_eq!(next_occupancy_cliff(3000), 65536);
}

#[test]
fn dependent_chain_keeps_order() {
    let body = vec![instr(Opcode::IAdd3, &[gpr(1)], &[&[gpr(0)]]), instr(Opcode::IAdd3, &[gpr(2)], &[&[gpr(1)]])];
    let mut f = two_blocks(&[gpr(0)], body);
    f.opt_instr_sched_prepass(&sm(), max_regs(251));
    let b = &f.blocks[1];
    assert_eq!(b.instrs.len(), 2);
    assert_eq!(dst_idx(&b.instrs[0]), Some(1));
    assert_eq!(dst_idx(&b.instrs[1]), Some(2));
    assert_eq!(f.blocks[0].instrs.len(), 1);
}

#[test]
fn independent_ffmas_each_emitted_once() {
    let body = vec![
        instr(Opcode::FFma, &[gpr(10)], &[&[gpr(0)], &[gpr(1)], &[gpr(2)]]),
        instr(Opcode::FFma, &[gpr(11)], &[&[gpr(3)], &[gpr(4)], &[gpr(5)]]),
        instr(Opcode::FFma, &[gpr(12)], &[&[gpr(6)], &[gpr(7)], &[gpr(8)]]),
    ];
    let inputs: Vec<SSAValue> = (0..9).map(gpr).collect();
    let mut f = two_blocks(&inputs, body);
    f.opt_instr_sched_prepass(&sm(), max_regs(16));
    let b = &f.blocks[1];
    assert_eq!(b.instrs.len(), 3);
    let mut dsts: Vec<u32> = b.instrs.iter().map(|i| dst_idx(i).unwrap()).collect();
    dsts.sort();
    assert_eq!(dsts, vec![10, 11, 12]);
}

#[test]
fn memory_ops_keep_their_order() {
    // Ld a; IAdd3 b <- a; St b; IAdd3 c <- a
    let body = vec![
        instr(Opcode::Ld, &[gpr(1)], &[&[gpr(0)]]),
        instr(Opcode::IAdd3, &[gpr(2)], &[&[gpr(1)]]),
        instr(Opcode::St, &[], &[&[gpr(0)], &[gpr(2)]]),
        instr(Opcode::IAdd3, &[gpr(3)], &[&[gpr(1)]]),
    ];
    let mut f = two_blocks(&[gpr(0)], body);
    f.opt_instr_sched_prepass(&sm(), max_regs(251));
    let b = &f.blocks[1];
    assert_eq!(b.instrs.len(), 4);
    let ld = position(b, Opcode::Ld, None);
    let st = position(b, Opcode::St, None);
    let add_b = position(b, Opcode::IAdd3, Some(2));
    let add_c = position(b, Opcode::IAdd3, Some(3));
    assert!(ld < st);
    assert!(ld < add_b);
    assert!(add_b < st);
    assert!(ld < add_c);
}

#[test]
fn barrier_stays_in_place() {
    let body = vec![
        instr(Opcode::IAdd3, &[gpr(1)], &[&[gpr(0)]]),
        instr(Opcode::IAdd3, &[gpr(2)], &[&[gpr(0)]]),
        instr(Opcode::Bar, &[], &[]),
        instr(Opcode::IAdd3, &[gpr(3)], &[&[gpr(1)], &[gpr(2)]]),
    ];
    let mut f = two_blocks(&[gpr(0)], body);
    f.opt_instr_sched_prepass(&sm(), max_regs(251));
    let b = &f.blocks[1];
    assert_eq!(b.instrs.len(), 4);
    assert_eq!(b.instrs[2].op.opcode, Opcode::Bar);
    assert_eq!(dst_idx(&b.instrs[3]), Some(3));
}

#[test]
fn single_block_function_is_kept_whole() {
    let body = vec![
        instr(Opcode::Mov, &[gpr(0)], &[&[]]),
        instr(Opcode::Mov, &[gpr(1)], &[&[]]),
        instr(Opcode::IAdd3, &[gpr(2)], &[&[gpr(0)], &[gpr(1)]]),
        instr(Opcode::St, &[], &[&[gpr(2)], &[gpr(0)]]),
    ];
    let mut f = Function { blocks: vec![BasicBlock { instrs: body, preds: vec![] }] };
    f.opt_instr_sched_prepass(&sm(), max_regs(251));
    let b = &f.blocks[0];
    assert_eq!(b.instrs.len(), 4);
    let add = position(b, Opcode::IAdd3, None);
    let st = position(b, Opcode::St, None);
    assert!(position(b, Opcode::Mov, Some(0)) < add);
    assert!(position(b, Opcode::Mov, Some(1)) < add);
    assert!(add < st);
}

#[test]
fn schedule_types_walk_the_cliffs() {
    let types = get_schedule_types(max_regs(251), 1, 60, 2);
    assert_eq!(
        types,
        vec![ScheduleType::RegLimit(38), ScheduleType::RegLimit(46), ScheduleType::RegLimit(54), ScheduleType::RegLimit(62)]
    );
}

#[test]
fn schedule_types_end_with_spill_when_original_spilled() {
    let types = get_schedule_types(max_regs(100), 90, 120, 2);
    assert_eq!(types, vec![ScheduleType::RegLimit(94), ScheduleType::RegLimit(98), ScheduleType::Spill]);
    let types = get_schedule_types(max_regs(100), 90, 100, 2);
    assert_eq!(types, vec![ScheduleType::RegLimit(94), ScheduleType::RegLimit(98)]);
}

#[test]
fn cliff_with_reserved_registers() {
    assert_eq!(next_occupancy_cliff_with_reserved(1, 2), 38);
    assert_eq!(next_occupancy_cliff_with_reserved(39, 2), 46);
    assert_eq!(next_occupancy_cliff_with_reserved(0, 0), 40);
}

#[test]
fn thresholds_per_schedule_type() {
    let unit = ScheduleUnit {
        block_idx: 0,
        first_ip: 0,
        can_reorder: true,
        live_in_count: PerRegFile { gpr: 0, ugpr: 0, pred: 0, upred: 0, carry: 0, bar: 0, mem: 0 },
        live_out: None,
        instrs: vec![],
        new_order: None,
        last_tried_schedule_type: None,
        peak_gpr_count: 77,
    };
    let t = ScheduleType::RegLimit(40).thresholds(max_regs(251), &unit);
    assert_eq!(t, ScheduleThresholds { heuristic_threshold: 36, quit_threshold: 40 });
    let t = ScheduleType::Spill.thresholds(max_regs(100), &unit);
    assert_eq!(t, ScheduleThresholds { heuristic_threshold: 94, quit_threshold: 77 });
}

fn pressure(gpr: i64, ugpr: i64, pred: i64, upred: i64, bar: i64) -> PerRegFile<i64> {
    PerRegFile { gpr, ugpr, pred, upred, carry: 0, bar, mem: 0 }
}

#[test]
fn spills_cascade_into_gprs() {
    let m = PerRegFile { gpr: 32, ugpr: 4, pred: 7, upred: 7, carry: 1, bar: 16, mem: 1000 };
    assert_eq!(calc_used_gprs(pressure(10, 0, 0, 0, 0), m), 10);
    assert_eq!(calc_used_gprs(pressure(10, 0, 9, 0, 0), m), 12);
    // Two uniform predicates spill into UGPRs, which then overflow by 3.
    assert_eq!(calc_used_gprs(pressure(10, 5, 0, 9, 0), m), 13);
    assert_eq!(calc_used_gprs(pressure(10, 0, 0, 0, 20), m), 14);
}

#[test]
fn score_parts_weigh_spills_and_slack() {
    let m = PerRegFile { gpr: 32, ugpr: 4, pred: 7, upred: 7, carry: 1, bar: 16, mem: 1000 };
    // No spills: slack 16*12 + 7*18 + 7*18 + 4*21 + 22*64.
    assert_eq!(calc_score_part(pressure(10, 0, 0, 0, 0), m), (0, 192 + 126 + 126 + 84 + 1408));
    // Two predicates over: 2*18 badness, and two more GPRs used.
    assert_eq!(calc_score_part(pressure(10, 0, 9, 0, 0), m), (36, 192 + 126 + 84 + 20 * 64));
    // GPRs over budget spill to memory at 64 each.
    assert_eq!(calc_score_part(pressure(40, 4, 7, 7, 16), m).0, 8 * 64);
}

#[test]
fn score_penalises_delay_and_quits_over_budget() {
    let m = PerRegFile { gpr: 32, ugpr: 4, pred: 7, upred: 7, carry: 1, bar: 16, mem: 1000 };
    let t = ScheduleThresholds { heuristic_threshold: 20, quit_threshold: 24 };
    let p = pressure(10, 0, 0, 0, 0);
    let s0 = calc_score(p, p, p, m, 0, t);
    let s5 = calc_score(p, p, p, m, 5, t);
    assert!(s0.usable && s5.usable);
    assert_eq!(s5.badness, s0.badness + 5);
    assert_eq!(s5.goodness, s0.goodness);
    assert!(s0.gt(&s5));
    assert!(!s5.gt(&s0));
    let over = pressure(30, 0, 0, 0, 0);
    let s = calc_score(p, over, p, m, 0, t);
    assert!(!s.usable);
    assert!(s0.gt(&s));
}

#[test]
fn gpr_limit_from_workgroup_size() {
    assert_eq!(gpr_limit_from_local_size(&[256, 1, 1]), 255);
    assert_eq!(gpr_limit_from_local_size(&[1024, 1, 1]), 64);
    assert_eq!(gpr_limit_from_local_size(&[16, 16, 2]), 128);
    assert_eq!(gpr_limit_from_local_size(&[0, 1, 1]), 255);
}

#[test]
fn shader_schedules_every_function() {
    let body = vec![
        instr(Opcode::Ld, &[gpr(1)], &[&[gpr(0)]]),
        instr(Opcode::IAdd3, &[gpr(2)], &[&[gpr(1)]]),
        instr(Opcode::St, &[], &[&[gpr(0)], &[gpr(2)]]),
    ];
    let mut shader = Shader {
        sm: sm(),
        info: ShaderInfo { stage: ShaderStageInfo::Compute(ComputeShaderInfo { local_size: [1024, 1, 1] }) },
        functions: vec![two_blocks(&[gpr(0)], body)],
    };
    shader.opt_instr_sched_prepass();
    let b = &shader.functions[0].blocks[1];
    assert_eq!(b.instrs.len(), 3);
    assert_eq!(b.instrs[0].op.opcode, Opcode::Ld);
    assert_eq!(b.instrs[2].op.opcode, Opcode::St);
}

/// Forty-five values that are all read by one store: whatever the order,
/// 45 GPRs are live at the store.
fn wide_store_unit() -> ScheduleUnit {
    let mut instrs: Vec<Instr> = (0..45).map(|i| instr(Opcode::Mov, &[gpr(i)], &[&[]])).collect();
    let vals: Vec<SSAValue> = (0..45).map(gpr).collect();
    let srcs: Vec<&[SSAValue]> = vals.iter().map(std::slice::from_ref).collect();
    instrs.push(instr(Opcode::St, &[], &srcs));
    ScheduleUnit {
        block_idx: 0,
        first_ip: 0,
        can_reorder: true,
        live_in_count: PerRegFile { gpr: 0, ugpr: 0, pred: 0, upred: 0, carry: 0, bar: 0, mem: 0 },
        live_out: Some(LiveSet::new()),
        instrs,
        new_order: None,
        last_tried_schedule_type: None,
        peak_gpr_count: 45,
    }
}

#[test]
fn lowest_cliff_fails_and_next_succeeds() {
    let regs = max_regs(251);
    let types = get_schedule_types(regs, 1, 45, 2);
    assert_eq!(types, vec![ScheduleType::RegLimit(38), ScheduleType::RegLimit(46)]);

    let mut unit = wide_store_unit();
    let t38 = ScheduleType::RegLimit(38).thresholds(regs, &unit);
    unit.schedule(&sm(), regs, ScheduleType::RegLimit(38), t38);
    assert!(unit.new_order.is_none());
    assert_eq!(unit.last_tried_schedule_type, Some(ScheduleType::RegLimit(38)));

    let t46 = ScheduleType::RegLimit(46).thresholds(regs, &unit);
    unit.schedule(&sm(), regs, ScheduleType::RegLimit(46), t46);
    let order = unit.new_order.as_ref().unwrap().order.clone();
    assert_eq!(order.len(), 46);
    assert_eq!(*order.last().unwrap(), 45);
    let mut sorted = order.clone();
    sorted.sort();
    assert_eq!(sorted, (0..46).collect::<Vec<usize>>());
    let placed = unit.new_order.as_ref().unwrap().apply(unit.instrs.clone());
    assert_eq!(placed.len(), 46);
    assert_eq!(placed[45].op.opcode, Opcode::St);
}

#[test]
fn wide_store_function_keeps_store_last() {
    let unit = wide_store_unit();
    let mut f = Function { blocks: vec![BasicBlock { instrs: unit.instrs, preds: vec![] }] };
    f.opt_instr_sched_prepass(&sm(), max_regs(251));
    let b = &f.blocks[0];
    assert_eq!(b.instrs.len(), 46);
    assert_eq!(b.instrs[45].op.opcode, Opcode::St);
    let mut dsts: Vec<u32> = b.instrs[..45].iter().map(|i| dst_idx(i).unwrap()).collect();
    dsts.sort();
    assert_eq!(dsts, (0..45).collect::<Vec<u32>>());
}

#[test]
fn empty_function_and_empty_blocks() {
    let mut f = Function { blocks: vec![] };
    f.opt_instr_sched_prepass(&sm(), max_regs(251));
    assert!(f.blocks.is_empty());

    let body = vec![instr(Opcode::IAdd3, &[gpr(1)], &[&[gpr(0)]]), instr(Opcode::St, &[], &[&[gpr(0)], &[gpr(1)]])];
    let mut f = Function {
        blocks: vec![
            BasicBlock { instrs: vec![instr(Opcode::Mov, &[gpr(0)], &[&[]])], preds: vec![] },
            BasicBlock { instrs: vec![], preds: vec![0] },
            BasicBlock { instrs: body, preds: vec![1] },
        ],
    };
    f.opt_instr_sched_prepass(&sm(), max_regs(251));
    assert_eq!(f.blocks[0].instrs.len(), 1);
    assert!(f.blocks[1].instrs.is_empty());
    assert_eq!(f.blocks[2].instrs.len(), 2);
    assert_eq!(f.blocks[2].instrs[0].op.opcode, Opcode::IAdd3);
    assert_eq!(f.blocks[2].preds, vec![1]);
}

#[test]
fn guard_definition_stays_first() {
    let setp = Instr {
        op: Op {
            opcode: Opcode::ISetP,
            srcs: vec![Src { ssa: vec![gpr(0)], bindless_cbuf: false }, Src { ssa: vec![gpr(1)], bindless_cbuf: false }],
            dsts: vec![Dst::SSA(vec![SSAValue { idx: 50, file: RegFile::Pred }])],
        },
        pred: None,
    };
    let mut guarded = instr(Opcode::IAdd3, &[gpr(2)], &[&[gpr(0)]]);
    guarded.pred = Some(SSAValue { idx: 50, file: RegFile::Pred });
    let other = instr(Opcode::IAdd3, &[gpr(3)], &[&[gpr(1)]]);
    let store = instr(Opcode::St, &[], &[&[gpr(2)], &[gpr(3)]]);
    let mut f = two_blocks(&[gpr(0), gpr(1)], vec![setp, guarded, other, store]);
    f.opt_instr_sched_prepass(&sm(), max_regs(251));
    let b = &f.blocks[1];
    assert_eq!(b.instrs.len(), 4);
    let setp_at = position(b, Opcode::ISetP, None);
    let guarded_at = b.instrs.iter().position(|i| i.pred.is_some()).unwrap();
    assert!(setp_at < guarded_at);
    assert_eq!(b.instrs[3].op.opcode, Opcode::St);
}

#[test]
fn dep_graph_of_load_store_region() {
    // Ld a; IAdd3 b <- a; St b; IAdd3 c <- a
    let instrs = vec![
        instr(Opcode::Ld, &[gpr(1)], &[&[gpr(0)]]),
        instr(Opcode::IAdd3, &[gpr(2)], &[&[gpr(1)]]),
        instr(Opcode::St, &[], &[&[gpr(0)], &[gpr(2)]]),
        instr(Opcode::IAdd3, &[gpr(3)], &[&[gpr(1)]]),
    ];
    let g = generate_dep_graph(&sm(), &instrs);
    assert_eq!(g.nodes.len(), 4);
    let mut edges: Vec<(usize, usize, u32)> = Vec::new();
    for (u, n) in g.nodes.iter().enumerate() {
        for e in &n.outgoing_edges {
            edges.push((u, e.head_idx, e.latency));
        }
    }
    edges.sort();
    // Ld is variable-latency: its data edges take the memory estimate;
    // IAdd3 -> St reads as Decoupled after CoupledAlu: 6.
    assert_eq!(edges, vec![(0, 1, 32), (0, 2, 0), (0, 3, 32), (1, 2, 6)]);
}

#[test]
fn high_quit_threshold_always_schedules() {
    let unit = wide_store_unit();
    let t = ScheduleThresholds { heuristic_threshold: 0, quit_threshold: PEAK_BOUND };
    let o = sched_buffer(&sm(), max_regs(251), &unit.instrs, &LiveSet::new(), t).unwrap();
    let mut sorted = o.order.clone();
    sorted.sort();
    assert_eq!(sorted, (0..46).collect::<Vec<usize>>());
    assert_eq!(*o.order.last().unwrap(), 45);
}

#[test]
fn low_pressure_takes_best_ready_first() {
    // No dependencies and low pressure throughout: the latest instruction
    // is taken first bottom-up, so the original order comes back.
    let instrs = vec![
        instr(Opcode::FFma, &[gpr(10)], &[&[gpr(0)], &[gpr(1)], &[gpr(2)]]),
        instr(Opcode::FFma, &[gpr(11)], &[&[gpr(3)], &[gpr(4)], &[gpr(5)]]),
        instr(Opcode::FFma, &[gpr(12)], &[&[gpr(6)], &[gpr(7)], &[gpr(8)]]),
    ];
    let t = ScheduleThresholds { heuristic_threshold: PEAK_BOUND, quit_threshold: PEAK_BOUND };
    let o = sched_buffer(&sm(), max_regs(16), &instrs, &LiveSet::new(), t).unwrap();
    assert_eq!(o.order, vec![0, 1, 2]);
}

#[test]
fn shader_budget_follows_workgroup_size() {
    let mut shader = Shader {
        sm: sm(),
        info: ShaderInfo { stage: ShaderStageInfo::Compute(ComputeShaderInfo { local_size: [1024, 1, 1] }) },
        functions: vec![],
    };
    let m = shader.max_regs();
    assert_eq!(m.gpr, 62);
    assert_eq!(m.ugpr, 63);
    shader.info.stage = ShaderStageInfo::Fragment;
    assert_eq!(shader.max_regs().gpr, 251);
    shader.sm.hw_reserved_gprs = 4;
    shader.info.stage = ShaderStageInfo::Compute(ComputeShaderInfo { local_size: [1024, 1, 1] });
    assert_eq!(shader.max_regs().gpr, 58);
}
