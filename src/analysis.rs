//! The analysis that every allocation starts with: control flow, operand
//! legality, liveness and block frequencies, bundled for the allocator.

use vstd::prelude::*;
use crate::cfg::{
    all_reachable, exceeds_limits, find_critical_edge, loop_depth, loop_depths, min_nat,
    pred_counts, reachable_blocks, refused_edge, MAX_BLOCKS, MAX_INSNS,
};
use crate::data::{RealReg, Reg, VirtualReg};
use crate::func::{all_legal, find_illegal_real_reg, inst_regs, Function, RealRegUniverse};
use crate::liveness::{
    keys_fit, lemma_block_in_range, live_in, live_in_blocks, live_out, nkeys, some_succ_marked,
};

verus! {

/// Problems with the function handed to the allocator.
#[derive(Clone, Debug)]
pub enum AnalysisError {
    /// An edge from a block with several successors to a block with several
    /// predecessors, which the caller should have split.
    CriticalEdge { from: u32, to: u32 },
    /// Registers live on entry to the function that it does not declare.
    EntryLiveinValues(Vec<Reg>),
    /// A real register outside the universe, or a scratch register.
    IllegalRealReg(RealReg),
    /// At least one block cannot be reached from the entry.
    UnreachableBlocks,
    /// More blocks or instructions than the allocator supports.
    ImplementationLimitsExceeded,
    /// For linear scan: a critical edge out of a block whose last
    /// instruction mentions a register.
    LsraCriticalEdge { block: u32, inst: u32 },
}

/// Which allocator the analysis prepares for.
#[derive(Clone, Copy, Debug, PartialEq, Eq, Structural)]
pub enum Algorithm {
    Backtracking,
    LinearScan,
}

pub open spec fn pow10(n: nat) -> nat
    decreases n,
{
    if n == 0 {
        1
    } else {
        10 * pow10((n - 1) as nat)
    }
}

/// Estimated execution frequency of each block: ten to the power of its loop
/// depth, the depth counted up to three.
pub struct DepthBasedFrequencies {
    pub values: Vec<u32>,
}

pub open spec fn depth_frequency(d: nat) -> nat {
    pow10(min_nat(d, 3))
}

impl DepthBasedFrequencies {
    pub fn new(depths: &Vec<u32>) -> (r: DepthBasedFrequencies)
        ensures
            r.values@.len() == depths@.len(),
            forall|b: int| 0 <= b < depths@.len() ==> r.values@[b] == depth_frequency(depths@[b] as nat),
    {
        let mut values: Vec<u32> = Vec::new();
        let mut b: usize = 0;
        while b < depths.len()
            invariant
                b <= depths@.len(),
                values@.len() == b,
                forall|b2: int| 0 <= b2 < b ==> values@[b2] == depth_frequency(depths@[b2] as nat),
            decreases depths@.len() - b,
        {
            let depth = if depths[b] < 3 {
                depths[b]
            } else {
                3
            };
            let mut estimated_frequency: u32 = 1;
            let mut i: u32 = 0;
            while i < depth
                invariant
                    i <= depth <= 3,
                    estimated_frequency == pow10(i as nat),
                    estimated_frequency <= 1000,
                decreases depth - i,
            {
                assert(pow10((i + 1) as nat) == 10 * pow10(i as nat));
                assert(i < 3 ==> estimated_frequency <= 100) by {
                    if i == 0 {
                        assert(pow10(0) == 1);
                    } else if i == 1 {
                        assert(pow10(1) == 10 * pow10(0));
                    } else if i == 2 {
                        assert(pow10(1) == 10 * pow10(0));
                        assert(pow10(2) == 10 * pow10(1));
                    }
                }
                estimated_frequency = estimated_frequency * 10;
                i += 1;
            }
            values.push(estimated_frequency);
            b += 1;
        }
        DepthBasedFrequencies { values }
    }

    pub fn len(&self) -> (r: usize)
        ensures
            r == self.values@.len(),
    {
        self.values.len()
    }

    pub fn cost(&self, b: usize) -> (r: u32)
        requires
            b < self.values@.len(),
        ensures
            r == self.values@[b as int],
    {
        self.values[b]
    }
}

/// What the allocator learns of a function. Liveness is indexed by register
/// key, then by block.
pub struct AnalysisInfo {
    pub live_in: Vec<Vec<bool>>,
    pub live_out: Vec<Vec<bool>>,
    pub estimated_frequencies: DepthBasedFrequencies,
    pub inst_to_block: Vec<u32>,
}

/// The register that has key `k`.
pub open spec fn reg_of_key(f: Function, u: RealRegUniverse, k: int) -> Reg {
    if k < u.regs@.len() {
        Reg::Real(u.regs@[k])
    } else {
        let v = k - u.regs@.len();
        Reg::Virtual(VirtualReg { index: v as u32, class: f.vreg_classes@[v] })
    }
}

/// Register `k` is declared live on entry to the function.
pub open spec fn declared_livein(f: Function, k: int) -> bool {
    exists|j: int| 0 <= j < f.liveins@.len() && #[trigger] f.liveins@[j].index == k
}

/// Keys below `n` live on entry to the entry block but not declared, in order.
pub open spec fn undeclared_upto(f: Function, u: RealRegUniverse, n: int) -> Seq<int>
    decreases n,
{
    if n <= 0 {
        Seq::empty()
    } else {
        let rest = undeclared_upto(f, u, n - 1);
        if live_in(f, u, n - 1, 0) && !declared_livein(f, n - 1) {
            rest.push(n - 1)
        } else {
            rest
        }
    }
}

pub open spec fn undeclared_liveins(f: Function, u: RealRegUniverse) -> Seq<Reg> {
    undeclared_upto(f, u, nkeys(f, u)).map_values(|k: int| reg_of_key(f, u, k))
}

/// The block of instruction `i`.
pub open spec fn in_block(f: Function, i: int, b: int) -> bool {
    0 <= b < f.nb() && f.blocks@[b].first <= i < f.blocks@[b].end()
}

/// Preconditions of the analysis on the function and the universe together.
pub open spec fn analysable(f: Function, u: RealRegUniverse) -> bool {
    &&& f.wf()
    &&& u.wf()
    &&& keys_fit(f, u)
    &&& forall|j: int| 0 <= j < f.liveins@.len() ==> #[trigger] f.liveins@[j].index < u.regs@.len()
    &&& forall|j: int|
        0 <= j < f.liveouts@.len() ==> #[trigger] f.liveouts@[j].index < u.regs@.len()
}

/// Linear scan accepts critical edges out of blocks whose last instruction
/// mentions no register.
pub open spec fn tolerates_critical(algorithm: Algorithm) -> bool {
    algorithm == Algorithm::LinearScan
}

/// The checks before liveness all pass.
pub open spec fn shape_ok(f: Function, u: RealRegUniverse, algorithm: Algorithm) -> bool {
    &&& !exceeds_limits(f)
    &&& forall|a: int, b: int| !#[trigger] refused_edge(f, a, b, tolerates_critical(algorithm))
    &&& all_reachable(f)
    &&& all_legal(f, u)
}

/// The analysis results agree with the liveness equations and the loop
/// depths of the blocks.
pub open spec fn info_exact(f: Function, u: RealRegUniverse, info: AnalysisInfo) -> bool {
    &&& info.live_in@.len() == nkeys(f, u)
    &&& info.live_out@.len() == nkeys(f, u)
    &&& forall|k: int|
        0 <= k < nkeys(f, u) ==> (#[trigger] info.live_in@[k])@.len() == f.nb() && forall|b: int|
            0 <= b < f.nb() ==> info.live_in@[k]@[b] == live_in(f, u, k, b)
    &&& forall|k: int|
        0 <= k < nkeys(f, u) ==> (#[trigger] info.live_out@[k])@.len() == f.nb() && forall|b: int|
            0 <= b < f.nb() ==> info.live_out@[k]@[b] == live_out(f, u, k, b)
    &&& info.estimated_frequencies.values@.len() == f.nb()
    &&& forall|b: int|
        0 <= b < f.nb() ==> #[trigger] info.estimated_frequencies.values@[b] == depth_frequency(
            min_nat(loop_depth(f, b), u32::MAX as nat),
        )
    &&& info.inst_to_block@.len() == f.insns@.len()
    &&& forall|i: int|
        0 <= i < f.insns@.len() ==> in_block(f, i, #[trigger] info.inst_to_block@[i] as int)
}

fn is_declared_livein(f: &Function, k: usize) -> (r: bool)
    ensures
        r == declared_livein(*f, k as int),
{
    let mut j: usize = 0;
    while j < f.liveins.len()
        invariant
            j <= f.liveins@.len(),
            forall|j2: int| 0 <= j2 < j ==> #[trigger] f.liveins@[j2].index != k,
        decreases f.liveins@.len() - j,
    {
        if f.liveins[j].index as usize == k {
            return true;
        }
        j += 1;
    }
    false
}

fn is_declared_liveout(f: &Function, k: usize) -> (r: bool)
    ensures
        r == exists|j: int| 0 <= j < f.liveouts@.len() && #[trigger] f.liveouts@[j].index == k,
{
    let mut j: usize = 0;
    while j < f.liveouts.len()
        invariant
            j <= f.liveouts@.len(),
            forall|j2: int| 0 <= j2 < j ==> #[trigger] f.liveouts@[j2].index != k,
        decreases f.liveouts@.len() - j,
    {
        if f.liveouts[j].index as usize == k {
            return true;
        }
        j += 1;
    }
    false
}

/// The blocks on exit from which register `k` is live, given those on entry.
fn live_out_blocks(f: &Function, u: &RealRegUniverse, k: usize, lin: &Vec<bool>) -> (r: Vec<bool>)
    requires
        f.wf(),
        lin@.len() == f.nb(),
        forall|b: int| 0 <= b < f.nb() ==> lin@[b] == live_in(*f, *u, k as int, b),
    ensures
        r@.len() == f.nb(),
        forall|b: int| 0 <= b < f.nb() ==> r@[b] == live_out(*f, *u, k as int, b),
{
    let is_out = is_declared_liveout(f, k);
    let mut out: Vec<bool> = Vec::new();
    let mut b: usize = 0;
    while b < f.blocks.len()
        invariant
            f.wf(),
            b <= f.nb(),
            lin@.len() == f.nb(),
            forall|b2: int| 0 <= b2 < f.nb() ==> lin@[b2] == live_in(*f, *u, k as int, b2),
            is_out == exists|j: int| 0 <= j < f.liveouts@.len() && #[trigger] f.liveouts@[j].index == k,
            out@.len() == b,
            forall|b2: int| 0 <= b2 < b ==> out@[b2] == live_out(*f, *u, k as int, b2),
        decreases f.nb() - b,
    {
        proof {
            lemma_block_in_range(*f, b as int);
        }
        let last = (f.blocks[b].first + f.blocks[b].len - 1) as usize;
        let via_succ = some_succ_marked(f, b, lin);
        assert(via_succ == exists|c: int| #[trigger] f.succ(b as int, c) && live_in(*f, *u, k as int, c))
            by {
            if via_succ {
                let c = choose|c: int| #[trigger] f.succ(b as int, c) && lin@[c];
                let j = choose|j: int|
                    0 <= j < f.blocks@[b as int].succs@.len() && #[trigger] f.blocks@[b as int].succs@[j] as int
                        == c;
                assert(f.blocks@[b as int].succs@[j] < f.nb());
            }
            if exists|c: int| #[trigger] f.succ(b as int, c) && live_in(*f, *u, k as int, c) {
                let c = choose|c: int| #[trigger] f.succ(b as int, c) && live_in(*f, *u, k as int, c);
                let j = choose|j: int|
                    0 <= j < f.blocks@[b as int].succs@.len() && #[trigger] f.blocks@[b as int].succs@[j] as int
                        == c;
                assert(f.blocks@[b as int].succs@[j] < f.nb());
                assert(lin@[c]);
            }
        }
        out.push(via_succ || (f.insns[last].is_ret && is_out));
        b += 1;
    }
    out
}

/// The register with key `k`.
fn reg_of_key_exec(f: &Function, u: &RealRegUniverse, k: usize) -> (r: Reg)
    requires
        f.wf(),
        k < nkeys(*f, *u),
    ensures
        r == reg_of_key(*f, *u, k as int),
{
    if k < u.regs.len() {
        Reg::Real(u.regs[k])
    } else {
        let v = k - u.regs.len();
        Reg::Virtual(VirtualReg { index: v as u32, class: f.vreg_classes[v] })
    }
}

/// The block of each instruction.
fn inst_to_block_map(f: &Function) -> (r: Vec<u32>)
    requires
        f.wf(),
        f.nb() <= MAX_BLOCKS,
    ensures
        r@.len() == f.insns@.len(),
        forall|i: int| 0 <= i < f.insns@.len() ==> in_block(*f, i, #[trigger] r@[i] as int),
{
    let mut map: Vec<u32> = Vec::new();
    let mut b: usize = 0;
    while b < f.blocks.len()
        invariant
            f.wf(),
            f.nb() <= MAX_BLOCKS,
            b <= f.nb(),
            map@.len() == if b == 0 {
                0
            } else {
                f.blocks@[b - 1].end()
            },
            forall|i: int| 0 <= i < map@.len() ==> in_block(*f, i, #[trigger] map@[i] as int),
        decreases f.nb() - b,
    {
        proof {
            lemma_block_in_range(*f, b as int);
            if b > 0 {
                let bb = b - 1;
                assert(f.blocks@[bb + 1].first == f.blocks@[bb].end());
            }
        }
        let n = f.blocks[b].len;
        let mut i: u32 = 0;
        while i < n
            invariant
                f.wf(),
                f.nb() <= MAX_BLOCKS,
                b < f.nb(),
                n == f.blocks@[b as int].len,
                i <= n,
                map@.len() == f.blocks@[b as int].first + i,
                forall|i2: int| 0 <= i2 < map@.len() ==> in_block(*f, i2, #[trigger] map@[i2] as int),
            decreases n - i,
        {
            map.push(b as u32);
            i += 1;
        }
        b += 1;
    }
    map
}

/// The error that analysis reports for a function. The checks come in a
/// fixed order, and each reports the first problem it finds: size limits,
/// then critical edges (by source block, then successor order), then
/// reachability, then real register legality (by instruction, then operand
/// order), then the registers live on entry.
pub open spec fn analysis_error(f: Function, u: RealRegUniverse, algorithm: Algorithm, e: AnalysisError) -> bool {
    let lsra = tolerates_critical(algorithm);
    match e {
        AnalysisError::ImplementationLimitsExceeded => exceeds_limits(f),
        AnalysisError::CriticalEdge { from, to } => !exceeds_limits(f) && !lsra && refused_edge(
            f,
            from as int,
            to as int,
            false,
        ) && crate::cfg::first_refused_successor(f, from as int, to as int, false) && forall|
            a: int,
            b: int,
        | a < from ==> !refused_edge(f, a, b, false),
        AnalysisError::LsraCriticalEdge { block, inst } => !exceeds_limits(f) && lsra && (exists|
            b: int,
        | refused_edge(f, block as int, b, true)) && inst == f.blocks@[block as int].end() - 1
            && forall|a: int, b: int| a < block ==> !refused_edge(f, a, b, true),
        AnalysisError::UnreachableBlocks => !exceeds_limits(f) && (forall|a: int, b: int|
            !#[trigger] refused_edge(f, a, b, lsra)) && !all_reachable(f),
        AnalysisError::IllegalRealReg(x) => !exceeds_limits(f) && (forall|a: int, b: int|
            !#[trigger] refused_edge(f, a, b, lsra)) && all_reachable(f) && !u.legal(x) && exists|
            i: int,
            k: int,
        |
            0 <= i < f.insns@.len() && 0 <= k < inst_regs(f.insns@[i]).len() && inst_regs(
                f.insns@[i],
            )[k] == Reg::Real(x) && crate::func::legal_before(f, u, i, k),
        AnalysisError::EntryLiveinValues(regs) => shape_ok(f, u, algorithm) && regs@
            == undeclared_liveins(f, u) && regs@.len() > 0,
    }
}

/// Runs control-flow and data-flow analysis on a function. The checks come
/// in a fixed order: size limits, critical edges, reachability, real
/// register legality, then the registers live on entry.
pub fn run_analysis(
    func: &Function,
    reg_universe: &RealRegUniverse,
    algorithm: Algorithm,
    client_wants_stackmaps: bool,
) -> (r: Result<AnalysisInfo, AnalysisError>)
    requires
        analysable(*func, *reg_universe),
        !(client_wants_stackmaps && algorithm == Algorithm::LinearScan),
    ensures
        r matches Ok(info) ==> shape_ok(*func, *reg_universe, algorithm) && undeclared_liveins(
            *func,
            *reg_universe,
        ).len() == 0 && info_exact(*func, *reg_universe, info),
        r matches Err(e) ==> analysis_error(*func, *reg_universe, algorithm, e),
{
    let f = func;
    let u = reg_universe;
    if f.blocks.len() > MAX_BLOCKS || f.insns.len() > MAX_INSNS {
        return Err(AnalysisError::ImplementationLimitsExceeded);
    }
    let npred = pred_counts(f);
    let lsra = algorithm == Algorithm::LinearScan;
    if let Some((a, b)) = find_critical_edge(f, &npred, lsra) {
        if lsra {
            proof {
                lemma_block_in_range(*f, a as int);
            }
            let inst = f.blocks[a as usize].first + f.blocks[a as usize].len - 1;
            return Err(AnalysisError::LsraCriticalEdge { block: a, inst });
        } else {
            return Err(AnalysisError::CriticalEdge { from: a, to: b });
        }
    }
    assert(lsra == tolerates_critical(algorithm));
    assert(forall|a: int, b: int| !#[trigger] refused_edge(*f, a, b, tolerates_critical(algorithm)));
    let reach = reachable_blocks(f);
    let mut b: usize = 0;
    while b < reach.len()
        invariant
            *f == *func,
            !exceeds_limits(*f),
            forall|a: int, b2: int| !#[trigger] refused_edge(*f, a, b2, tolerates_critical(algorithm)),
            reach@.len() == f.nb(),
            b <= reach@.len(),
            forall|b2: int| 0 <= b2 < f.nb() ==> reach@[b2] == crate::cfg::reachable(*f, b2),
            forall|b2: int| 0 <= b2 < b ==> reach@[b2],
        decreases reach@.len() - b,
    {
        if !reach[b] {
            assert(!crate::cfg::reachable(*f, b as int));
            return Err(AnalysisError::UnreachableBlocks);
        }
        b += 1;
    }
    if let Some(x) = find_illegal_real_reg(f, u) {
        return Err(AnalysisError::IllegalRealReg(x));
    }
    let nk = u.regs.len() + f.vreg_classes.len();
    let mut live_ins: Vec<Vec<bool>> = Vec::new();
    let mut live_outs: Vec<Vec<bool>> = Vec::new();
    let mut undeclared: Vec<Reg> = Vec::new();
    let mut k: usize = 0;
    while k < nk
        invariant
            *f == *func,
            *u == *reg_universe,
            analysable(*f, *u),
            shape_ok(*f, *u, algorithm),
            nk == nkeys(*f, *u),
            k <= nk,
            live_ins@.len() == k,
            live_outs@.len() == k,
            forall|k2: int|
                0 <= k2 < k ==> (#[trigger] live_ins@[k2])@.len() == f.nb() && forall|b2: int|
                    0 <= b2 < f.nb() ==> live_ins@[k2]@[b2] == live_in(*f, *u, k2, b2),
            forall|k2: int|
                0 <= k2 < k ==> (#[trigger] live_outs@[k2])@.len() == f.nb() && forall|b2: int|
                    0 <= b2 < f.nb() ==> live_outs@[k2]@[b2] == live_out(*f, *u, k2, b2),
            undeclared@ == undeclared_upto(*f, *u, k as int).map_values(
                |k2: int| reg_of_key(*f, *u, k2),
            ),
        decreases nk - k,
    {
        let lin = live_in_blocks(f, u, k);
        let lout = live_out_blocks(f, u, k, &lin);
        let ghost prev = undeclared_upto(*f, *u, k as int);
        if lin[0] && !is_declared_livein(f, k) {
            let r = reg_of_key_exec(f, u, k);
            undeclared.push(r);
            assert(undeclared_upto(*f, *u, k + 1) == prev.push(k as int));
            assert(prev.push(k as int).map_values(|k2: int| reg_of_key(*f, *u, k2))
                =~= prev.map_values(|k2: int| reg_of_key(*f, *u, k2)).push(r));
        }
        live_ins.push(lin);
        live_outs.push(lout);
        k += 1;
    }
    if undeclared.len() > 0 {
        return Err(AnalysisError::EntryLiveinValues(undeclared));
    }
    let depths = loop_depths(f);
    let estimated_frequencies = DepthBasedFrequencies::new(&depths);
    let inst_to_block = inst_to_block_map(f);
    Ok(AnalysisInfo { live_in: live_ins, live_out: live_outs, estimated_frequencies, inst_to_block })
}

} // verus!
