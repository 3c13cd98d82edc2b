use regalloc::analysis::{run_analysis, Algorithm, AnalysisError, DepthBasedFrequencies};
use regalloc::cfg::{loop_depths, pred_counts, reachable_blocks};
use regalloc::func::{Block, Function, Inst, RealRegUniverse, RegClassInfo};
use regalloc::reftypes::reftyped_vregs;
use regalloc::{RealReg, Reg, VirtualReg};

fn rreg(index: u32) -> RealReg {
    RealReg { index, class: 0 }
}

fn v(index: u32) -> Reg {
    Reg::Virtual(VirtualReg { index, class: 0 })
}

fn universe() -> RealRegUniverse {
    let regs: Vec<RealReg> = (0..4).map(rreg).collect();
    let mut by_class = vec![None; 5];
    by_class[0] = Some(RegClassInfo { first: 0, last: 2, suggested_scratch: Some(2) });
    RealRegUniverse { regs, allocable: 3, allocable_by_class: by_class }
}

fn plain(uses: Vec<Reg>, defs: Vec<Reg>) -> Inst {
    Inst { uses, mods: vec![], defs, is_ret: false, in_clobbers: true, move_regs: None }
}

fn ret(uses: Vec<Reg>) -> Inst {
    Inst { uses, mods: vec![], defs: vec![], is_ret: true, in_clobbers: true, move_regs: None }
}

fn block(first: u32, len: u32, succs: Vec<u32>) -> Block {
    Block { first, len, succs }
}

fn func(blocks: Vec<Block>, insns: Vec<Inst>, nvregs: usize) -> Function {
    Function { blocks, insns, liveins: vec![], liveouts: vec![], vreg_classes: vec![0; nvregs] }
}

/// b0 -> b1, b2; b1 -> b2: the edge b0 -> b2 is critical.
fn critical_shape(terminator_uses: Vec<Reg>) -> Function {
    let mut first = plain(terminator_uses, vec![]);
    first.is_ret = false;
    func(
        vec![block(0, 1, vec![1, 2]), block(1, 1, vec![2]), block(2, 1, vec![])],
        vec![first, plain(vec![], vec![]), ret(vec![])],
        1,
    )
}

#[test]
fn critical_edge_for_backtracking() {
    let f = critical_shape(vec![]);
    match run_analysis(&f, &universe(), Algorithm::Backtracking, false) {
        Err(AnalysisError::CriticalEdge { from, to }) => assert_eq!((from, to), (0, 2)),
        _ => panic!("expected CriticalEdge"),
    }
}

#[test]
fn linear_scan_tolerates_quiet_critical_edge() {
    let f = critical_shape(vec![]);
    assert!(run_analysis(&f, &universe(), Algorithm::LinearScan, false).is_ok());
}

#[test]
fn linear_scan_refuses_critical_edge_after_register_mention() {
    let mut f = critical_shape(vec![]);
    f.insns[0].defs = vec![v(0)];
    f.insns[2].uses = vec![v(0)];
    match run_analysis(&f, &universe(), Algorithm::LinearScan, false) {
        Err(AnalysisError::LsraCriticalEdge { block, inst }) => assert_eq!((block, inst), (0, 0)),
        _ => panic!("expected LsraCriticalEdge"),
    }
}

#[test]
fn unreachable_block() {
    let f = func(vec![block(0, 1, vec![]), block(1, 1, vec![])], vec![ret(vec![]), ret(vec![])], 0);
    assert!(matches!(
        run_analysis(&f, &universe(), Algorithm::LinearScan, false),
        Err(AnalysisError::UnreachableBlocks)
    ));
}

#[test]
fn illegal_real_register() {
    // r2 is the scratch register; r7 is not in the universe.
    let f = func(vec![block(0, 1, vec![])], vec![ret(vec![Reg::Real(rreg(2))])], 0);
    match run_analysis(&f, &universe(), Algorithm::LinearScan, false) {
        Err(AnalysisError::IllegalRealReg(r)) => assert_eq!(r, rreg(2)),
        _ => panic!("expected IllegalRealReg"),
    }
    let g = func(vec![block(0, 1, vec![])], vec![ret(vec![Reg::Real(rreg(7))])], 0);
    match run_analysis(&g, &universe(), Algorithm::LinearScan, false) {
        Err(AnalysisError::IllegalRealReg(r)) => assert_eq!(r, rreg(7)),
        _ => panic!("expected IllegalRealReg"),
    }
}

#[test]
fn undeclared_entry_liveins() {
    let f = func(vec![block(0, 1, vec![])], vec![ret(vec![v(0), Reg::Real(rreg(1))])], 1);
    match run_analysis(&f, &universe(), Algorithm::LinearScan, false) {
        Err(AnalysisError::EntryLiveinValues(regs)) => assert_eq!(regs, vec![Reg::Real(rreg(1)), v(0)]),
        _ => panic!("expected EntryLiveinValues"),
    }
    let mut g = func(vec![block(0, 1, vec![])], vec![ret(vec![Reg::Real(rreg(1))])], 0);
    g.liveins = vec![rreg(1)];
    assert!(run_analysis(&g, &universe(), Algorithm::LinearScan, false).is_ok());
}

#[test]
fn too_many_blocks() {
    let n: u32 = 1_000_001;
    let blocks: Vec<Block> = (0..n).map(|b| block(b, 1, if b + 1 < n { vec![b + 1] } else { vec![] })).collect();
    let insns: Vec<Inst> = (0..n).map(|_| plain(vec![], vec![])).collect();
    let f = func(blocks, insns, 0);
    assert!(matches!(
        run_analysis(&f, &universe(), Algorithm::LinearScan, false),
        Err(AnalysisError::ImplementationLimitsExceeded)
    ));
}

#[test]
fn liveness_through_loop_and_liveouts() {
    // b0: v0 = def -> b1; b1: use v0 -> b2; b2 -> b1, b3; b3: ret (liveout r0)
    let mut f = func(
        vec![block(0, 1, vec![1]), block(1, 1, vec![2]), block(2, 1, vec![1, 3]), block(3, 1, vec![])],
        vec![plain(vec![], vec![v(0)]), plain(vec![v(0)], vec![]), plain(vec![], vec![]), ret(vec![])],
        1,
    );
    f.liveouts = vec![rreg(0)];
    let u = universe();
    let info = run_analysis(&f, &u, Algorithm::LinearScan, false).ok().unwrap();
    let k = u.regs.len();
    assert_eq!(info.live_in[k], vec![false, true, true, false]);
    assert_eq!(info.live_out[k], vec![true, true, true, false]);
    assert_eq!(info.live_out[0], vec![false, false, false, true]);
    assert_eq!(info.inst_to_block, vec![0, 1, 2, 3]);
    assert_eq!(info.estimated_frequencies.values, vec![1, 10, 10, 1]);
}

#[test]
fn frequencies_from_depths() {
    let f = DepthBasedFrequencies::new(&vec![0, 1, 2, 3, 7]);
    assert_eq!(f.values, vec![1, 10, 100, 1000, 1000]);
    assert_eq!(f.len(), 5);
    assert_eq!(f.cost(3), 1000);
}

#[test]
fn loop_depth_of_nested_loops() {
    // b0 -> b1 -> b2 -> b2 (self loop), b2 -> b3 -> b1 (outer loop), b3 -> b4
    let f = func(
        vec![
            block(0, 1, vec![1]),
            block(1, 1, vec![2]),
            block(2, 1, vec![2, 3]),
            block(3, 1, vec![1, 4]),
            block(4, 1, vec![]),
        ],
        (0..5).map(|_| plain(vec![], vec![])).collect(),
        0,
    );
    assert_eq!(loop_depths(&f), vec![0, 1, 2, 1, 0]);
    assert_eq!(pred_counts(&f), vec![0, 2, 2, 1, 1]);
    assert_eq!(reachable_blocks(&f), vec![true; 5]);
}

#[test]
fn reference_types_close_over_moves() {
    let mut mv = plain(vec![v(0)], vec![v(1)]);
    mv.move_regs = Some((v(1), v(0)));
    let mut back = plain(vec![v(2)], vec![v(3)]);
    back.move_regs = Some((v(3), v(2)));
    let f = func(vec![block(0, 3, vec![])], vec![mv, back, ret(vec![])], 4);
    let roots = vec![VirtualReg { index: 0, class: 0 }, VirtualReg { index: 9, class: 0 }];
    assert_eq!(reftyped_vregs(&f, &roots), vec![true, true, false, false]);
}
