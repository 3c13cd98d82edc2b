use regalloc::analysis::{run_analysis, Algorithm, AnalysisError};
use regalloc::func::{Block, Function, Inst, RealRegUniverse, RegClassInfo};
use regalloc::linear_scan::{run, LinearScanOptions, RegAllocError, StackmapRequestInfo};
use regalloc::construct::build_intervals;
use regalloc::intervals::RangeFragKind;
use regalloc::mentions::mentions_to_vec;
use regalloc::rewrite::{renumber, renumber_safepoints};
use regalloc::{InstPoint, RealReg, Reg, SpillSlot, VirtualReg};

fn rreg(index: u32) -> RealReg {
    RealReg { index, class: 0 }
}

fn vreg(index: u32) -> VirtualReg {
    VirtualReg { index, class: 0 }
}

fn v(index: u32) -> Reg {
    Reg::Virtual(vreg(index))
}

/// Class 0 with `n` allocatable registers r0.. and a scratch register after them.
fn universe(n: u32) -> RealRegUniverse {
    let regs: Vec<RealReg> = (0..=n).map(rreg).collect();
    let mut by_class = vec![None; 5];
    by_class[0] = Some(RegClassInfo {
        first: 0,
        last: n as usize,
        suggested_scratch: Some(n as usize),
    });
    RealRegUniverse { regs, allocable: n as usize + 1, allocable_by_class: by_class }
}

fn inst(uses: Vec<Reg>, mods: Vec<Reg>, defs: Vec<Reg>, is_ret: bool) -> Inst {
    Inst { uses, mods, defs, is_ret, in_clobbers: true, move_regs: None }
}

fn block(first: u32, len: u32, succs: Vec<u32>) -> Block {
    Block { first, len, succs }
}

fn func(blocks: Vec<Block>, insns: Vec<Inst>, nvregs: usize) -> Function {
    Function { blocks, insns, liveins: vec![], liveouts: vec![], vreg_classes: vec![0; nvregs] }
}

#[test]
fn identity_single_block() {
    // v0 = const 1; ret v0
    let f = func(
        vec![block(0, 2, vec![])],
        vec![inst(vec![], vec![], vec![v(0)], false), inst(vec![v(0)], vec![], vec![], true)],
        1,
    );
    let u = universe(2);
    let res = run(&f, &u, None, &LinearScanOptions::default()).ok().unwrap();
    assert_eq!(res.insns[0].defs, vec![(vreg(0), rreg(0))]);
    assert_eq!(res.insns[1].uses, vec![(vreg(0), rreg(0))]);
    assert_eq!(res.num_spill_slots, 0);
    assert!(res.insns.iter().all(|i| i.reloads_before.is_empty() && i.spills_after.is_empty()));
    assert_eq!(res.clobbered_registers, vec![rreg(0)]);
}

#[test]
fn simple_spill_three_live_two_registers() {
    // v0, v1, v2 defined, then all read by one instruction.
    let f = func(
        vec![block(0, 4, vec![])],
        vec![
            inst(vec![], vec![], vec![v(0)], false),
            inst(vec![], vec![], vec![v(1)], false),
            inst(vec![], vec![], vec![v(2)], false),
            inst(vec![v(0), v(1), v(2)], vec![], vec![], true),
        ],
        3,
    );
    let u = universe(2);
    let res = run(&f, &u, None, &LinearScanOptions::default()).ok().unwrap();
    assert_eq!(res.num_spill_slots, 1);
    let reloads: usize = res.insns.iter().map(|i| i.reloads_before.len()).sum();
    assert_eq!(reloads, 1);
    assert_eq!(res.insns[3].reloads_before, vec![(SpillSlot(0), rreg(2), vreg(2))]);
    assert_eq!(res.insns[2].spills_after, vec![(rreg(2), SpillSlot(0), vreg(2))]);
    assert_eq!(
        res.insns[3].uses,
        vec![(vreg(0), rreg(0)), (vreg(1), rreg(1)), (vreg(2), rreg(2))]
    );
}

#[test]
fn diamond_merge_single_register() {
    // b0: v0 = def; br b1, b2   b1: use v0   b2: use v0   b3: ret v0
    let f = func(
        vec![
            block(0, 1, vec![1, 2]),
            block(1, 1, vec![3]),
            block(2, 1, vec![3]),
            block(3, 1, vec![]),
        ],
        vec![
            inst(vec![], vec![], vec![v(0)], false),
            inst(vec![v(0)], vec![], vec![], false),
            inst(vec![v(0)], vec![], vec![], false),
            inst(vec![v(0)], vec![], vec![], true),
        ],
        1,
    );
    let u = universe(2);
    let info = run_analysis(&f, &u, Algorithm::LinearScan, false).ok().unwrap();
    let key = u.regs.len();
    assert_eq!(info.live_in[key], vec![false, true, true, true]);
    assert_eq!(info.live_out[key], vec![true, true, true, false]);
    let res = run(&f, &u, None, &LinearScanOptions::default()).ok().unwrap();
    assert_eq!(res.insns[0].defs, vec![(vreg(0), rreg(0))]);
    for i in 1..4 {
        assert_eq!(res.insns[i].uses, vec![(vreg(0), rreg(0))]);
    }
    assert!(res.insns.iter().all(|i| i.reloads_before.is_empty() && i.spills_after.is_empty()));
}

#[test]
fn safepoint_with_reftype_spills() {
    // v0 = def; safepoint; use v0
    let f = func(
        vec![block(0, 3, vec![])],
        vec![
            inst(vec![], vec![], vec![v(0)], false),
            inst(vec![], vec![], vec![], false),
            inst(vec![v(0)], vec![], vec![], true),
        ],
        1,
    );
    let u = universe(2);
    let req = StackmapRequestInfo { reftype_class: 0, reftyped_vregs: vec![vreg(0)], safepoint_insns: vec![1] };
    let res = run(&f, &u, Some(&req), &LinearScanOptions::default()).ok().unwrap();
    assert_eq!(res.num_spill_slots, 1);
    assert_eq!(res.insns[0].spills_after, vec![(rreg(2), SpillSlot(0), vreg(0))]);
    assert_eq!(res.insns[2].reloads_before, vec![(SpillSlot(0), rreg(2), vreg(0))]);
    assert_eq!(res.stackmaps, vec![vec![SpillSlot(0)]]);
}

#[test]
fn reftype_propagates_through_moves() {
    // v0 = def; v1 = move v0; safepoint; use v1
    let mut mv = inst(vec![v(0)], vec![], vec![v(1)], false);
    mv.move_regs = Some((v(1), v(0)));
    let f = func(
        vec![block(0, 4, vec![])],
        vec![
            inst(vec![], vec![], vec![v(0)], false),
            mv,
            inst(vec![], vec![], vec![], false),
            inst(vec![v(1)], vec![], vec![], true),
        ],
        2,
    );
    let u = universe(2);
    let req = StackmapRequestInfo { reftype_class: 0, reftyped_vregs: vec![vreg(0)], safepoint_insns: vec![2] };
    let res = run(&f, &u, Some(&req), &LinearScanOptions::default()).ok().unwrap();
    // v0 dies at the move; v1 spans the safepoint and goes to the stack.
    assert_eq!(res.insns[1].uses, vec![(vreg(0), rreg(0))]);
    assert_eq!(res.insns[1].defs, vec![(vreg(1), rreg(2))]);
    assert_eq!(res.stackmaps, vec![vec![SpillSlot(0)]]);
}

#[test]
fn mod_keeps_one_register() {
    // v0 = def; v0 += ..; ret v0
    let f = func(
        vec![block(0, 3, vec![])],
        vec![
            inst(vec![], vec![], vec![v(0)], false),
            inst(vec![], vec![v(0)], vec![], false),
            inst(vec![v(0)], vec![], vec![], true),
        ],
        1,
    );
    let u = universe(2);
    let res = run(&f, &u, None, &LinearScanOptions::default()).ok().unwrap();
    assert_eq!(res.insns[1].uses, res.insns[1].defs);
    assert_eq!(res.insns[1].uses, vec![(vreg(0), rreg(0))]);
}

#[test]
fn fixed_register_is_avoided() {
    // r0 = def; v0 = def; use r0; use v0
    let r0 = Reg::Real(rreg(0));
    let f = func(
        vec![block(0, 4, vec![])],
        vec![
            inst(vec![], vec![], vec![r0], false),
            inst(vec![], vec![], vec![v(0)], false),
            inst(vec![r0], vec![], vec![], false),
            inst(vec![v(0)], vec![], vec![], true),
        ],
        1,
    );
    let u = universe(2);
    let res = run(&f, &u, None, &LinearScanOptions::default()).ok().unwrap();
    assert_eq!(res.insns[1].defs, vec![(vreg(0), rreg(1))]);
}

#[test]
fn out_of_registers_for_class_without_registers() {
    let mut f = func(
        vec![block(0, 2, vec![])],
        vec![
            inst(vec![], vec![], vec![Reg::Virtual(VirtualReg { index: 0, class: 1 })], false),
            inst(vec![Reg::Virtual(VirtualReg { index: 0, class: 1 })], vec![], vec![], true),
        ],
        1,
    );
    f.vreg_classes = vec![1];
    let u = universe(2);
    match run(&f, &u, None, &LinearScanOptions::default()) {
        Err(RegAllocError::OutOfRegisters(c)) => assert_eq!(c, 1),
        _ => panic!("expected OutOfRegisters"),
    }
}

#[test]
fn missing_scratch_register() {
    let f = func(vec![block(0, 1, vec![])], vec![inst(vec![], vec![], vec![], true)], 0);
    let mut u = universe(2);
    u.allocable_by_class[0] = Some(RegClassInfo { first: 0, last: 2, suggested_scratch: None });
    match run(&f, &u, None, &LinearScanOptions::default()) {
        Err(RegAllocError::OutOfRegisters(c)) => assert_eq!(c, 0),
        _ => panic!("expected OutOfRegisters"),
    }
}

#[test]
fn class_with_one_register_is_refused() {
    let f = func(vec![block(0, 1, vec![])], vec![inst(vec![], vec![], vec![], true)], 0);
    let mut u = universe(2);
    u.allocable_by_class[0] = Some(RegClassInfo { first: 1, last: 1, suggested_scratch: Some(1) });
    match run(&f, &u, None, &LinearScanOptions::default()) {
        Err(RegAllocError::OutOfRegisters(c)) => assert_eq!(c, 0),
        _ => panic!("expected OutOfRegisters"),
    }
}

#[test]
fn analysis_error_is_passed_on() {
    let f = func(vec![block(0, 1, vec![]), block(1, 1, vec![])], vec![
        inst(vec![], vec![], vec![], true),
        inst(vec![], vec![], vec![], true),
    ], 0);
    let u = universe(2);
    match run(&f, &u, None, &LinearScanOptions::default()) {
        Err(RegAllocError::Analysis(AnalysisError::UnreachableBlocks)) => {}
        _ => panic!("expected UnreachableBlocks"),
    }
}

#[test]
fn default_options() {
    let o = LinearScanOptions::default();
    assert!(!o.partial_split && !o.partial_split_near_end && !o.stats && !o.large_stats);
    assert_eq!(o.split_strategy, regalloc::linear_scan::OptimalSplitStrategy::From);
}

#[test]
fn two_runs_agree() {
    let f = func(
        vec![block(0, 1, vec![1, 2]), block(1, 1, vec![3]), block(2, 1, vec![3]), block(3, 2, vec![])],
        vec![
            inst(vec![], vec![], vec![v(0), v(1), v(2)], false),
            inst(vec![v(0)], vec![v(1)], vec![], false),
            inst(vec![v(2)], vec![], vec![v(3)], false),
            inst(vec![v(1), v(2)], vec![], vec![], false),
            inst(vec![v(0)], vec![], vec![], true),
        ],
        4,
    );
    let u = universe(2);
    let a = run(&f, &u, None, &LinearScanOptions::default()).ok().unwrap();
    let b = run(&f, &u, None, &LinearScanOptions::default()).ok().unwrap();
    assert_eq!(a.insns.len(), b.insns.len());
    for (x, y) in a.insns.iter().zip(b.insns.iter()) {
        assert_eq!(x.uses, y.uses);
        assert_eq!(x.defs, y.defs);
        assert_eq!(x.reloads_before, y.reloads_before);
        assert_eq!(x.spills_after, y.spills_after);
    }
    assert_eq!(a.clobbered_registers, b.clobbered_registers);
    assert_eq!(a.num_spill_slots, b.num_spill_slots);
    // Every operand is mapped to a register of its class.
    for (i, x) in a.insns.iter().enumerate() {
        for (vr, rr) in x.uses.iter().chain(x.defs.iter()) {
            assert_eq!(vr.class, rr.class, "instruction {}", i);
        }
    }
    // The modified v1 is read and written in one register.
    assert_eq!(a.insns[1].defs.len(), 1);
    assert!(a.insns[1].uses.contains(&a.insns[1].defs[0]));
}

#[test]
fn intervals_span_mentions_and_boundaries() {
    let f = func(
        vec![
            block(0, 1, vec![1, 2]),
            block(1, 1, vec![3]),
            block(2, 1, vec![3]),
            block(3, 1, vec![]),
        ],
        vec![
            inst(vec![], vec![], vec![v(0)], false),
            inst(vec![v(0)], vec![], vec![], false),
            inst(vec![], vec![], vec![], false),
            inst(vec![v(0)], vec![], vec![], true),
        ],
        1,
    );
    let u = universe(2);
    let info = run_analysis(&f, &u, Algorithm::LinearScan, false).ok().unwrap();
    let ints = build_intervals(&f, &u, &info, &vec![], &vec![]);
    assert_eq!(ints.virtuals.len(), 1);
    let it = &ints.virtuals[0];
    assert_eq!(it.start, InstPoint::new_use(0));
    assert_eq!(it.end, InstPoint::new_def(3));
    assert_eq!(mentions_to_vec(&it.mentions), vec![(0, 4), (1, 1), (3, 1)]);
    assert_eq!(ints.fixeds.len(), 3);
    assert!(ints.fixeds.iter().all(|fi| fi.frags.is_empty()));
}

#[test]
fn fixed_fragments_per_block() {
    // b0: r0 = def -> b1; b1: use r0; ret
    let r0 = Reg::Real(rreg(0));
    let f = func(
        vec![block(0, 1, vec![1]), block(1, 1, vec![])],
        vec![inst(vec![], vec![], vec![r0], false), inst(vec![r0], vec![], vec![], true)],
        0,
    );
    let u = universe(2);
    let info = run_analysis(&f, &u, Algorithm::LinearScan, false).ok().unwrap();
    let ints = build_intervals(&f, &u, &info, &vec![], &vec![]);
    let frags = &ints.fixeds[0].frags;
    assert_eq!(frags.len(), 2);
    assert_eq!((frags[0].first, frags[0].last), (InstPoint::new_use(0), InstPoint::new_def(0)));
    assert_eq!(frags[0].kind, RangeFragKind::LiveOut);
    assert_eq!((frags[1].first, frags[1].last), (InstPoint::new_use(1), InstPoint::new_def(1)));
    assert_eq!(frags[1].kind, RangeFragKind::LiveIn);
    assert!(ints.fixeds[1].frags.is_empty());
}

#[test]
fn crowded_modified_register_runs_out() {
    // r0 and r1 are busy across the instruction that modifies v0: no register
    // of the class can carry v0 through it.
    let r0 = Reg::Real(rreg(0));
    let r1 = Reg::Real(rreg(1));
    let f = func(
        vec![block(0, 4, vec![])],
        vec![
            inst(vec![], vec![], vec![r0, r1, v(0)], false),
            inst(vec![], vec![v(0)], vec![], false),
            inst(vec![r0, r1], vec![], vec![], false),
            inst(vec![v(0)], vec![], vec![], true),
        ],
        1,
    );
    let u = universe(2);
    match run(&f, &u, None, &LinearScanOptions::default()) {
        Err(RegAllocError::OutOfRegisters(c)) => assert_eq!(c, 0),
        _ => panic!("expected OutOfRegisters"),
    }
}

#[test]
fn modified_register_with_one_free_register() {
    // Only r0 is busy across the modification: v0 takes r1.
    let r0 = Reg::Real(rreg(0));
    let f = func(
        vec![block(0, 4, vec![])],
        vec![
            inst(vec![], vec![], vec![r0, v(0)], false),
            inst(vec![], vec![v(0)], vec![], false),
            inst(vec![r0], vec![], vec![], false),
            inst(vec![v(0)], vec![], vec![], true),
        ],
        1,
    );
    let u = universe(2);
    let res = run(&f, &u, None, &LinearScanOptions::default()).ok().unwrap();
    assert_eq!(res.insns[1].uses, vec![(vreg(0), rreg(1))]);
    assert_eq!(res.insns[1].defs, vec![(vreg(0), rreg(1))]);
}

#[test]
fn two_runs_fail_alike() {
    let f = func(vec![block(0, 1, vec![]), block(1, 1, vec![])], vec![
        inst(vec![], vec![], vec![], true),
        inst(vec![], vec![], vec![], true),
    ], 0);
    let u = universe(2);
    let a = run(&f, &u, None, &LinearScanOptions::default());
    let b = run(&f, &u, None, &LinearScanOptions::default());
    assert!(matches!(a, Err(RegAllocError::Analysis(AnalysisError::UnreachableBlocks))));
    assert!(matches!(b, Err(RegAllocError::Analysis(AnalysisError::UnreachableBlocks))));
}

#[test]
fn renumbered_stream() {
    let f = func(
        vec![block(0, 4, vec![])],
        vec![
            inst(vec![], vec![], vec![v(0)], false),
            inst(vec![], vec![], vec![v(1)], false),
            inst(vec![], vec![], vec![v(2)], false),
            inst(vec![v(0), v(1), v(2)], vec![], vec![], true),
        ],
        3,
    );
    let u = universe(2);
    let res = run(&f, &u, None, &LinearScanOptions::default()).ok().unwrap();
    let (targets, origins) = renumber(&res.insns).unwrap();
    // v2 is spilled after instruction 2 and reloaded before instruction 3.
    assert_eq!(targets, vec![0, 1, 2, 5]);
    assert_eq!(origins, vec![Some(0), Some(1), Some(2), None, None, Some(3)]);
    assert_eq!(renumber_safepoints(&targets, &vec![3, 1]), Some(vec![5, 1]));
    assert_eq!(renumber_safepoints(&targets, &vec![4]), None);
}
