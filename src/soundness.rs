//! What an allocation guarantees, stated over the results of `run` and over
//! the intervals it assigns.

use vstd::prelude::*;
use crate::construct::{
    frag_span, busy, fixed_frags_exact, interval_of, intervals_built, lemma_vreg_flags, lemma_vreg_mentions,
    names_vreg, vreg_flags, vreg_mentioned, vreg_mentions,
};
use crate::data::{pos_of, InstPoint, Location, Point, RealReg, Reg, SpillSlot, VirtualReg};
use crate::func::{inst_regs, Function, RealRegUniverse};
use crate::intervals::{frag_holds, safepoint_entries, FixedInterval, Intervals, RangeFrag, VirtualInterval};
use crate::analysis::{analysis_error, tolerates_critical, Algorithm, AnalysisError};
use crate::cfg::refused_edge;
use crate::linear_scan::{
    RegAllocError, allocated, allocation_result, assigned_greedily, candidate, frag_overlaps, free_for,
    hits_fixed, overlaps, result_of, same_but_locations, scratches_of, scratches_ok,
    StackmapRequestInfo, RegAllocResult,
};
use crate::mentions::mention_entries;
use crate::rewrite::{
    lemma_def_map_entry, lemma_def_map_has, lemma_flag_at, lemma_use_map_entry,
    lemma_use_map_has, operand_reg, reads_at, writes_at,
};

verus! {

/// The interval of virtual register `v` in an assignment reads `v` where
/// the instruction reads it and writes `v` where the instruction writes it.
proof fn lemma_interval_of_operand(
    f: Function,
    u: RealRegUniverse,
    refs: Seq<bool>,
    sps: Seq<u32>,
    ints: Intervals,
    i: int,
    v: VirtualReg,
) -> (j: int)
    requires
        f.wf(),
        allocated(f, u, refs, sps, ints),
        0 <= i < f.insns@.len(),
        vreg_flags(f, i, v.index as int) != 0,
        v.index < f.vreg_classes@.len(),
        v.class == f.vreg_classes@[v.index as int],
    ensures
        0 <= j < ints.virtuals@.len(),
        ints.virtuals@[j].vreg == v,
        reads_at(ints.virtuals@[j], i) == (names_vreg(f.insns@[i].uses@, v.index as int) || names_vreg(
            f.insns@[i].mods@,
            v.index as int,
        )),
        writes_at(ints.virtuals@[j], i) == (names_vreg(f.insns@[i].mods@, v.index as int) || names_vreg(
            f.insns@[i].defs@,
            v.index as int,
        )),
{
    let pre = choose|pre: Intervals|
        intervals_built(f, u, refs, sps, pre) && #[trigger] same_but_locations(pre, ints) && forall|
            i2: int,
        | 0 <= i2 < ints.virtuals@.len() ==> assigned_greedily(u, ints, i2);
    let vi = v.index as int;
    assert(vreg_mentioned(f, vi));
    let j = choose|j: int| 0 <= j < pre.virtuals@.len() && pre.virtuals@[j].vreg.index == vi;
    assert(interval_of(f, u, pre.virtuals@[j].vreg.index as int, pre.virtuals@[j], refs, sps));
    let ms = mention_entries(ints.virtuals@[j].mentions);
    assert(ms == vreg_mentions(f, vi, f.insns@.len() as int));
    lemma_vreg_mentions(f, vi, f.insns@.len() as int);
    lemma_vreg_flags(f, i, vi);
    let k = choose|k: int| 0 <= k < ms.len() && ms[k].0 == i;
    assert(vreg_flags(f, ms[k].0 as int, vi) == ms[k].1);
    lemma_flag_at(ms, k);
    j
}

/// Every virtual register that an instruction reads has a real register
/// among the rewritten reads of that instruction, and every one that it
/// writes among the rewritten writes.
pub proof fn lemma_every_virtual_operand_mapped(
    f: Function,
    u: RealRegUniverse,
    req: Option<&StackmapRequestInfo>,
    res: RegAllocResult,
    i: int,
    k: int,
)
    requires
        f.wf(),
        allocation_result(f, u, req, res),
        0 <= i < f.insns@.len(),
        0 <= k < inst_regs(f.insns@[i]).len(),
        inst_regs(f.insns@[i])[k] is Virtual,
    ensures
        ({
            let v = inst_regs(f.insns@[i])[k]->Virtual_0;
            let nu = f.insns@[i].uses@.len();
            let nm = f.insns@[i].mods@.len();
            &&& k < nu + nm ==> exists|x: int|
                0 <= x < res.insns@[i].uses@.len() && res.insns@[i].uses@[x].0 == v
            &&& k >= nu ==> exists|x: int|
                0 <= x < res.insns@[i].defs@.len() && res.insns@[i].defs@[x].0 == v
        }),
{
    let (ints, scr) = choose|ints: Intervals, scr: Seq<Option<RealReg>>|
        allocated(f, u, crate::linear_scan::ref_marks(f, req), crate::linear_scan::request_safepoints(req), ints)
            && scratches_of(u, scr) && #[trigger] result_of(f, u, req, ints, scr, res);
    let inst = f.insns@[i];
    let all = inst_regs(inst);
    let v = all[k]->Virtual_0;
    let vi = v.index as int;
    let nu = inst.uses@.len() as int;
    let nm = inst.mods@.len() as int;
    assert(f.vreg_ok(all[k]));
    if k < nu {
        assert(all[k] == inst.uses@[k]);
        assert(names_vreg(inst.uses@, vi));
    } else if k < nu + nm {
        assert(all[k] == inst.mods@[k - nu]);
        assert(names_vreg(inst.mods@, vi));
    } else {
        assert(all[k] == inst.defs@[k - nu - nm]);
        assert(names_vreg(inst.defs@, vi));
    }
    lemma_vreg_flags(f, i, vi);
    let j = lemma_interval_of_operand(
        f,
        u,
        crate::linear_scan::ref_marks(f, req),
        crate::linear_scan::request_safepoints(req),
        ints,
        i,
        v,
    );
    let n = ints.virtuals@.len() as int;
    assert(crate::rewrite::rewrite_exact(ints.virtuals@, scr, i, res.insns@[i]));
    if k < nu + nm {
        assert(reads_at(ints.virtuals@[j], i));
        lemma_use_map_has(ints.virtuals@, scr, i, n, j);
        let m = crate::rewrite::use_map(ints.virtuals@, scr, i, n);
        let x = choose|x: int| 0 <= x < m.len() && m[x] == (ints.virtuals@[j].vreg, operand_reg(ints.virtuals@[j], scr));
        assert(res.insns@[i].uses@[x].0 == v);
    }
    if k >= nu {
        assert(writes_at(ints.virtuals@[j], i));
        lemma_def_map_has(ints.virtuals@, scr, i, n, j);
        let m = crate::rewrite::def_map(ints.virtuals@, scr, i, n);
        let x = choose|x: int| 0 <= x < m.len() && m[x] == (ints.virtuals@[j].vreg, operand_reg(ints.virtuals@[j], scr));
        assert(res.insns@[i].defs@[x].0 == v);
    }
}

/// Each virtual register that an assignment holds somewhere is held by
/// exactly one interval.
proof fn lemma_one_interval_per_vreg(
    f: Function,
    u: RealRegUniverse,
    refs: Seq<bool>,
    sps: Seq<u32>,
    ints: Intervals,
    j1: int,
    j2: int,
)
    requires
        allocated(f, u, refs, sps, ints),
        0 <= j1 < ints.virtuals@.len(),
        0 <= j2 < ints.virtuals@.len(),
        ints.virtuals@[j1].vreg.index == ints.virtuals@[j2].vreg.index,
    ensures
        j1 == j2,
{
    let pre = choose|pre: Intervals|
        intervals_built(f, u, refs, sps, pre) && #[trigger] same_but_locations(pre, ints) && forall|
            i2: int,
        | 0 <= i2 < ints.virtuals@.len() ==> assigned_greedily(u, ints, i2);
    assert(pre.virtuals@[j1].vreg == ints.virtuals@[j1].vreg);
    assert(pre.virtuals@[j2].vreg == ints.virtuals@[j2].vreg);
    if j1 < j2 {
        assert(pre.virtuals@[j1].vreg.index < pre.virtuals@[j2].vreg.index);
    } else if j2 < j1 {
        assert(pre.virtuals@[j2].vreg.index < pre.virtuals@[j1].vreg.index);
    }
}

/// A virtual register that an instruction both reads and writes, as with a
/// modification, is read and written in the same real register.
pub proof fn lemma_read_and_write_agree(
    f: Function,
    u: RealRegUniverse,
    req: Option<&StackmapRequestInfo>,
    res: RegAllocResult,
    i: int,
    x: int,
    y: int,
)
    requires
        allocation_result(f, u, req, res),
        0 <= i < f.insns@.len(),
        0 <= x < res.insns@[i].uses@.len(),
        0 <= y < res.insns@[i].defs@.len(),
        res.insns@[i].uses@[x].0 == res.insns@[i].defs@[y].0,
    ensures
        res.insns@[i].uses@[x].1 == res.insns@[i].defs@[y].1,
{
    let (ints, scr) = choose|ints: Intervals, scr: Seq<Option<RealReg>>|
        allocated(f, u, crate::linear_scan::ref_marks(f, req), crate::linear_scan::request_safepoints(req), ints)
            && scratches_of(u, scr) && #[trigger] result_of(f, u, req, ints, scr, res);
    let n = ints.virtuals@.len() as int;
    lemma_use_map_entry(ints.virtuals@, scr, i, n, x);
    lemma_def_map_entry(ints.virtuals@, scr, i, n, y);
    let j1 = choose|j: int|
        0 <= j < n && reads_at(ints.virtuals@[j], i) && crate::rewrite::use_map(ints.virtuals@, scr, i, n)[x] == (
            ints.virtuals@[j].vreg,
            operand_reg(ints.virtuals@[j], scr),
        );
    let j2 = choose|j: int|
        0 <= j < n && writes_at(ints.virtuals@[j], i) && crate::rewrite::def_map(ints.virtuals@, scr, i, n)[y] == (
            ints.virtuals@[j].vreg,
            operand_reg(ints.virtuals@[j], scr),
        );
    lemma_one_interval_per_vreg(
        f,
        u,
        crate::linear_scan::ref_marks(f, req),
        crate::linear_scan::request_safepoints(req),
        ints,
        j1,
        j2,
    );
}

/// The register through which an interval's value passes is of the
/// interval's class.
proof fn lemma_operand_class(
    u: RealRegUniverse,
    ints: Intervals,
    scr: Seq<Option<RealReg>>,
    j: int,
)
    requires
        u.wf(),
        scratches_ok(u),
        scratches_of(u, scr),
        crate::linear_scan::classes_available(u, ints),
        0 <= j < ints.virtuals@.len(),
        assigned_greedily(u, ints, j),
    ensures
        operand_reg(ints.virtuals@[j], scr).class == ints.virtuals@[j].vreg.class,
{
    let it = ints.virtuals@[j];
    let c = it.vreg.class;
    assert(c < crate::data::NUM_REG_CLASSES && u.allocable_by_class@[c as int] is Some);
    let info = u.allocable_by_class@[c as int]->Some_0;
    match it.location {
        Location::Reg(r) => {
            assert(candidate(u, c, r.index as int));
        },
        _ => {
            assert(!crate::linear_scan::class_short(u, c as int));
            assert(info.suggested_scratch is Some);
            assert(scr[c as int] == Some(u.regs@[info.suggested_scratch->Some_0 as int]));
        },
    }
}

/// Every real register in the rewrite of an instruction belongs to the class
/// of the virtual register it stands for.
pub proof fn lemma_class_safety(
    f: Function,
    u: RealRegUniverse,
    req: Option<&StackmapRequestInfo>,
    res: RegAllocResult,
    i: int,
)
    requires
        u.wf(),
        allocation_result(f, u, req, res),
        0 <= i < f.insns@.len(),
    ensures
        forall|x: int|
            0 <= x < res.insns@[i].uses@.len() ==> (#[trigger] res.insns@[i].uses@[x]).1.class
                == res.insns@[i].uses@[x].0.class,
        forall|y: int|
            0 <= y < res.insns@[i].defs@.len() ==> (#[trigger] res.insns@[i].defs@[y]).1.class
                == res.insns@[i].defs@[y].0.class,
{
    let (ints, scr) = choose|ints: Intervals, scr: Seq<Option<RealReg>>|
        allocated(f, u, crate::linear_scan::ref_marks(f, req), crate::linear_scan::request_safepoints(req), ints)
            && scratches_of(u, scr) && #[trigger] result_of(f, u, req, ints, scr, res);
    let n = ints.virtuals@.len() as int;
    let pre = choose|pre: Intervals|
        intervals_built(f, u, crate::linear_scan::ref_marks(f, req), crate::linear_scan::request_safepoints(req), pre)
            && #[trigger] same_but_locations(pre, ints) && forall|i2: int|
            0 <= i2 < ints.virtuals@.len() ==> assigned_greedily(u, ints, i2);
    assert forall|x: int| 0 <= x < res.insns@[i].uses@.len() implies (#[trigger] res.insns@[i].uses@[x]).1.class
        == res.insns@[i].uses@[x].0.class by {
        lemma_use_map_entry(ints.virtuals@, scr, i, n, x);
        let j = choose|j: int|
            0 <= j < n && reads_at(ints.virtuals@[j], i) && crate::rewrite::use_map(ints.virtuals@, scr, i, n)[x]
                == (ints.virtuals@[j].vreg, operand_reg(ints.virtuals@[j], scr));
        lemma_operand_class(u, ints, scr, j);
    }
    assert forall|y: int| 0 <= y < res.insns@[i].defs@.len() implies (#[trigger] res.insns@[i].defs@[y]).1.class
        == res.insns@[i].defs@[y].0.class by {
        lemma_def_map_entry(ints.virtuals@, scr, i, n, y);
        let j = choose|j: int|
            0 <= j < n && writes_at(ints.virtuals@[j], i) && crate::rewrite::def_map(ints.virtuals@, scr, i, n)[y]
                == (ints.virtuals@[j].vreg, operand_reg(ints.virtuals@[j], scr));
        lemma_operand_class(u, ints, scr, j);
    }
}

/// No interval is given a real register at a point where that register is
/// busy on its own: mentioned by an instruction or live across a block
/// boundary.
pub proof fn lemma_fixed_registers_respected(
    f: Function,
    u: RealRegUniverse,
    refs: Seq<bool>,
    sps: Seq<u32>,
    ints: Intervals,
    j: int,
    b: int,
    p: int,
)
    requires
        u.wf(),
        allocated(f, u, refs, sps, ints),
        0 <= j < ints.virtuals@.len(),
        ints.virtuals@[j].location is Reg,
        0 <= b < f.nb(),
        busy(f, u, ints.virtuals@[j].location->Reg_0.index as int, b, p),
    ensures
        !(ints.virtuals@[j].start.pos() <= p <= ints.virtuals@[j].end.pos()),
{
    let pre = choose|pre: Intervals|
        intervals_built(f, u, refs, sps, pre) && #[trigger] same_but_locations(pre, ints) && forall|
            i2: int,
        | 0 <= i2 < ints.virtuals@.len() ==> assigned_greedily(u, ints, i2);
    let it = ints.virtuals@[j];
    let r = it.location->Reg_0;
    let k = r.index as int;
    assert(assigned_greedily(u, ints, j));
    assert(candidate(u, it.vreg.class, k));
    let info = u.allocable_by_class@[it.vreg.class as int]->Some_0;
    assert(k < u.allocable);
    assert(fixed_frags_exact(f, u, k, pre.fixeds@[k].frags@));
    let fx = choose|x: int| 0 <= x < pre.fixeds@[k].frags@.len() && frag_holds(pre.fixeds@[k].frags@[x], p);
    if it.start.pos() <= p <= it.end.pos() {
        assert(frag_overlaps(it, ints.fixeds@[k].frags@[fx]));
        assert(hits_fixed(ints.fixeds@[k], it));
    }
}

/// Two intervals that share a point never hold the same real register.
pub proof fn lemma_no_shared_register(
    f: Function,
    u: RealRegUniverse,
    refs: Seq<bool>,
    sps: Seq<u32>,
    ints: Intervals,
    j1: int,
    j2: int,
)
    requires
        allocated(f, u, refs, sps, ints),
        0 <= j1 < j2 < ints.virtuals@.len(),
        ints.virtuals@[j1].location is Reg,
        ints.virtuals@[j1].location == ints.virtuals@[j2].location,
    ensures
        !overlaps(ints.virtuals@[j1], ints.virtuals@[j2]),
{
    assert(assigned_greedily(u, ints, j2));
    let r = ints.virtuals@[j2].location->Reg_0;
    assert(free_for(u, ints, j2, r.index as int));
    assert(ints.virtuals@[j1].location == Location::Reg(u.regs@[r.index as int]));
}

/// The stack map of a safepoint holds exactly the slots of the
/// reference-typed intervals on the stack whose span holds the safepoint's
/// `Use` point.
pub proof fn lemma_stackmap_exact(
    f: Function,
    u: RealRegUniverse,
    req: Option<&StackmapRequestInfo>,
    ints: Intervals,
    scr: Seq<Option<RealReg>>,
    res: RegAllocResult,
    s: int,
    slot: SpillSlot,
)
    requires
        allocated(f, u, crate::linear_scan::ref_marks(f, req), crate::linear_scan::request_safepoints(req), ints),
        result_of(f, u, req, ints, scr, res),
        req is Some,
        req->Some_0.safepoint_insns@.len() <= usize::MAX,
        0 <= s < res.stackmaps@.len(),
    ensures
        res.stackmaps@[s]@.contains(slot) <==> exists|j: int|
            0 <= j < ints.virtuals@.len() && (#[trigger] ints.virtuals@[j]).ref_typed
                && ints.virtuals@[j].location == Location::Stack(slot) && ints.virtuals@[j].start.pos()
                <= pos_of(req->Some_0.safepoint_insns@[s] as int, Point::Use)
                <= ints.virtuals@[j].end.pos(),
{
    let sps = req->Some_0.safepoint_insns@;
    let refs = crate::linear_scan::ref_marks(f, req);
    let pre = choose|pre: Intervals|
        intervals_built(f, u, refs, sps, pre) && #[trigger] same_but_locations(pre, ints) && forall|
            i2: int,
        | 0 <= i2 < ints.virtuals@.len() ==> assigned_greedily(u, ints, i2);
    let n = ints.virtuals@.len() as int;
    crate::rewrite::lemma_stackmap_slots(ints.virtuals@, s, n, slot);
    assert forall|j: int| 0 <= j < n implies crate::rewrite::has_safepoint(#[trigger] ints.virtuals@[j], s)
        == (ints.virtuals@[j].start.pos() <= pos_of(sps[s] as int, Point::Use) <= ints.virtuals@[j].end.pos()) by {
        let it = ints.virtuals@[j];
        assert(interval_of(f, u, pre.virtuals@[j].vreg.index as int, pre.virtuals@[j], refs, sps));
        crate::rewrite::lemma_covered_safepoints(sps, it.start.pos(), it.end.pos(), sps.len() as int, s);
    }
}

/// An interval that reads or writes at an instruction is for a virtual
/// register that the instruction mentions in that way.
proof fn lemma_access_is_mention(
    f: Function,
    u: RealRegUniverse,
    refs: Seq<bool>,
    sps: Seq<u32>,
    ints: Intervals,
    i: int,
    j: int,
)
    requires
        f.wf(),
        allocated(f, u, refs, sps, ints),
        0 <= i < f.insns@.len(),
        0 <= j < ints.virtuals@.len(),
    ensures
        ({
            let vi = ints.virtuals@[j].vreg.index as int;
            &&& reads_at(ints.virtuals@[j], i) ==> names_vreg(f.insns@[i].uses@, vi) || names_vreg(
                f.insns@[i].mods@,
                vi,
            )
            &&& writes_at(ints.virtuals@[j], i) ==> names_vreg(f.insns@[i].mods@, vi) || names_vreg(
                f.insns@[i].defs@,
                vi,
            )
        }),
{
    let pre = choose|pre: Intervals|
        intervals_built(f, u, refs, sps, pre) && #[trigger] same_but_locations(pre, ints) && forall|
            i2: int,
        | 0 <= i2 < ints.virtuals@.len() ==> assigned_greedily(u, ints, i2);
    let vi = ints.virtuals@[j].vreg.index as int;
    assert(interval_of(f, u, pre.virtuals@[j].vreg.index as int, pre.virtuals@[j], refs, sps));
    let ms = mention_entries(ints.virtuals@[j].mentions);
    assert(ms == vreg_mentions(f, vi, f.insns@.len() as int));
    lemma_vreg_mentions(f, vi, f.insns@.len() as int);
    lemma_vreg_flags(f, i, vi);
    if exists|k: int| 0 <= k < ms.len() && ms[k].0 == i {
        let k = choose|k: int| 0 <= k < ms.len() && ms[k].0 == i;
        assert(vreg_flags(f, ms[k].0 as int, vi) == ms[k].1);
    }
}

/// Every reload and every spill that the rewrite inserts sits next to an
/// instruction that reads or writes its virtual register: no data movement
/// is placed on a control-flow edge, so no edge ever needs splitting.
pub proof fn lemma_moves_stay_at_instructions(
    f: Function,
    u: RealRegUniverse,
    req: Option<&StackmapRequestInfo>,
    res: RegAllocResult,
    i: int,
)
    requires
        f.wf(),
        allocation_result(f, u, req, res),
        0 <= i < f.insns@.len(),
    ensures
        forall|x: int|
            0 <= x < res.insns@[i].reloads_before@.len() ==> names_vreg(
                f.insns@[i].uses@,
                (#[trigger] res.insns@[i].reloads_before@[x]).2.index as int,
            ) || names_vreg(f.insns@[i].mods@, res.insns@[i].reloads_before@[x].2.index as int),
        forall|y: int|
            0 <= y < res.insns@[i].spills_after@.len() ==> names_vreg(
                f.insns@[i].mods@,
                (#[trigger] res.insns@[i].spills_after@[y]).2.index as int,
            ) || names_vreg(f.insns@[i].defs@, res.insns@[i].spills_after@[y].2.index as int),
{
    let (ints, scr) = choose|ints: Intervals, scr: Seq<Option<RealReg>>|
        allocated(f, u, crate::linear_scan::ref_marks(f, req), crate::linear_scan::request_safepoints(req), ints)
            && scratches_of(u, scr) && #[trigger] result_of(f, u, req, ints, scr, res);
    let refs = crate::linear_scan::ref_marks(f, req);
    let sps = crate::linear_scan::request_safepoints(req);
    let n = ints.virtuals@.len() as int;
    assert(crate::rewrite::rewrite_exact(ints.virtuals@, scr, i, res.insns@[i]));
    assert forall|x: int| 0 <= x < res.insns@[i].reloads_before@.len() implies names_vreg(
        f.insns@[i].uses@,
        (#[trigger] res.insns@[i].reloads_before@[x]).2.index as int,
    ) || names_vreg(f.insns@[i].mods@, res.insns@[i].reloads_before@[x].2.index as int) by {
        crate::rewrite::lemma_reload_entry(ints.virtuals@, scr, i, n, x);
        let j = choose|j: int|
            0 <= j < n && reads_at(ints.virtuals@[j], i) && crate::rewrite::reload_list(ints.virtuals@, scr, i, n)[x].2
                == ints.virtuals@[j].vreg;
        lemma_access_is_mention(f, u, refs, sps, ints, i, j);
    }
    assert forall|y: int| 0 <= y < res.insns@[i].spills_after@.len() implies names_vreg(
        f.insns@[i].mods@,
        (#[trigger] res.insns@[i].spills_after@[y]).2.index as int,
    ) || names_vreg(f.insns@[i].defs@, res.insns@[i].spills_after@[y].2.index as int) by {
        crate::rewrite::lemma_spill_entry(ints.virtuals@, scr, i, n, y);
        let j = choose|j: int|
            0 <= j < n && writes_at(ints.virtuals@[j], i) && crate::rewrite::spill_list(ints.virtuals@, scr, i, n)[y].2
                == ints.virtuals@[j].vreg;
        lemma_access_is_mention(f, u, refs, sps, ints, i, j);
    }
}

/// The spans of the fragments of a fixed interval.
pub open spec fn spans_of(fi: FixedInterval) -> Seq<(int, int, crate::intervals::RangeFragKind)> {
    fi.frags@.map_values(|fr: RangeFrag| frag_span(fr))
}

/// Two intervals agree on all but their location.
pub open spec fn agree(x: VirtualInterval, y: VirtualInterval) -> bool {
    &&& x.vreg == y.vreg
    &&& x.start == y.start
    &&& x.end == y.end
    &&& x.ref_typed == y.ref_typed
    &&& mention_entries(x.mentions) == mention_entries(y.mentions)
    &&& safepoint_entries(x.safepoints) == safepoint_entries(y.safepoints)
}

/// Two sets of intervals agree on all that assignment and rewrite read,
/// locations aside.
pub open spec fn alike(a: Intervals, b: Intervals) -> bool {
    &&& a.virtuals@.len() == b.virtuals@.len()
    &&& a.fixeds@.len() == b.fixeds@.len()
    &&& forall|k: int| 0 <= k < a.fixeds@.len() ==> spans_of(#[trigger] a.fixeds@[k]) == spans_of(b.fixeds@[k])
    &&& forall|j: int| 0 <= j < a.virtuals@.len() ==> agree(#[trigger] a.virtuals@[j], b.virtuals@[j])
}

proof fn lemma_hits_fixed_alike(a: FixedInterval, b: FixedInterval, x: VirtualInterval, y: VirtualInterval)
    requires
        spans_of(a) == spans_of(b),
        x.start == y.start,
        x.end == y.end,
    ensures
        hits_fixed(a, x) == hits_fixed(b, y),
{
    assert(a.frags@.len() == spans_of(a).len());
    assert(b.frags@.len() == spans_of(b).len());
    if hits_fixed(a, x) {
        let j = choose|j: int| 0 <= j < a.frags@.len() && frag_overlaps(x, #[trigger] a.frags@[j]);
        assert(spans_of(a)[j] == spans_of(b)[j]);
        assert(frag_overlaps(y, b.frags@[j]));
    }
    if hits_fixed(b, y) {
        let j = choose|j: int| 0 <= j < b.frags@.len() && frag_overlaps(y, #[trigger] b.frags@[j]);
        assert(spans_of(a)[j] == spans_of(b)[j]);
        assert(frag_overlaps(x, a.frags@[j]));
    }
}

/// Greedy assignment leaves no choice: two assignments of the same
/// intervals that both follow it give every interval the same location.
pub proof fn lemma_assignment_deterministic(u: RealRegUniverse, a: Intervals, b: Intervals)
    requires
        u.wf(),
        a.fixeds@.len() == u.allocable,
        alike(a, b),
        forall|i: int| 0 <= i < a.virtuals@.len() ==> assigned_greedily(u, a, i),
        forall|i: int| 0 <= i < b.virtuals@.len() ==> assigned_greedily(u, b, i),
    ensures
        forall|i: int| 0 <= i < a.virtuals@.len() ==> (#[trigger] a.virtuals@[i]).location == b.virtuals@[i].location,
{
    lemma_assignment_prefix(u, a, b, a.virtuals@.len() as int);
}

proof fn lemma_assignment_prefix(u: RealRegUniverse, a: Intervals, b: Intervals, n: int)
    requires
        u.wf(),
        a.fixeds@.len() == u.allocable,
        0 <= n <= a.virtuals@.len(),
        alike(a, b),
        forall|i: int| 0 <= i < a.virtuals@.len() ==> assigned_greedily(u, a, i),
        forall|i: int| 0 <= i < b.virtuals@.len() ==> assigned_greedily(u, b, i),
    ensures
        forall|i: int| 0 <= i < n ==> (#[trigger] a.virtuals@[i]).location == b.virtuals@[i].location,
    decreases n,
{
    if n > 0 {
        let i = n - 1;
        lemma_assignment_prefix(u, a, b, i);
        crate::linear_scan::lemma_spills_before_same(a, b, i);
        let x = a.virtuals@[i];
        let y = b.virtuals@[i];
        assert(agree(x, y));
        assert forall|k: int| 0 <= k < a.fixeds@.len() implies #[trigger] free_for(u, a, i, k) == free_for(u, b, i, k) by {
            assert forall|j: int| 0 <= j < i implies overlaps(a.virtuals@[i], a.virtuals@[j]) == overlaps(
                b.virtuals@[i],
                b.virtuals@[j],
            ) by {
                assert(agree(a.virtuals@[j], b.virtuals@[j]));
            }
            lemma_hits_fixed_alike(a.fixeds@[k], b.fixeds@[k], x, y);
            if free_for(u, a, i, k) != free_for(u, b, i, k) {
                if free_for(u, a, i, k) {
                    let j = choose|j: int| 0 <= j < i && !((#[trigger] b.virtuals@[j]).location != crate::data::Location::Reg(u.regs@[k])
                        || !overlaps(b.virtuals@[i], b.virtuals@[j]));
                    assert(a.virtuals@[j].location == b.virtuals@[j].location);
                } else {
                    let j = choose|j: int| 0 <= j < i && !((#[trigger] a.virtuals@[j]).location != crate::data::Location::Reg(u.regs@[k])
                        || !overlaps(a.virtuals@[i], a.virtuals@[j]));
                    assert(a.virtuals@[j].location == b.virtuals@[j].location);
                }
            }
        }
        assert(assigned_greedily(u, a, i));
        assert(assigned_greedily(u, b, i));
        match (x.location, y.location) {
            (crate::data::Location::Reg(r1), crate::data::Location::Reg(r2)) => {
                let c = x.vreg.class;
                assert(candidate(u, c, r1.index as int));
                assert(candidate(u, c, r2.index as int));
                assert(r1.index as int <= u.allocable_by_class@[c as int]->Some_0.last);
                assert(free_for(u, a, i, r1.index as int));
                assert(free_for(u, b, i, r2.index as int));
                if r1.index < r2.index {
                    assert(free_for(u, b, i, r1.index as int));
                    assert(false);
                } else if r2.index < r1.index {
                    assert(free_for(u, a, i, r2.index as int));
                    assert(false);
                }
                assert(r1 == u.regs@[r1.index as int]);
                assert(r2 == u.regs@[r2.index as int]);
                assert(r1 == r2);
            },
            (crate::data::Location::Reg(r1), _) => {
                assert(candidate(u, x.vreg.class, r1.index as int));
                assert(!free_for(u, b, i, r1.index as int));
            },
            (_, crate::data::Location::Reg(r2)) => {
                assert(candidate(u, y.vreg.class, r2.index as int));
                assert(!free_for(u, a, i, r2.index as int));
            },
            (crate::data::Location::Stack(xs), crate::data::Location::Stack(ys)) => {
                assert(xs == ys);
            },
            _ => {},
        }
        assert(x.location == y.location);
    }
}

/// Two strictly increasing sequences that list exactly the values with a
/// property are the same sequence.
proof fn lemma_enumeration_unique(xs: Seq<int>, ys: Seq<int>, p: spec_fn(int) -> bool)
    requires
        forall|i: int, j: int| 0 <= i < j < xs.len() ==> xs[i] < xs[j],
        forall|i: int, j: int| 0 <= i < j < ys.len() ==> ys[i] < ys[j],
        forall|i: int| 0 <= i < xs.len() ==> p(#[trigger] xs[i]),
        forall|i: int| 0 <= i < ys.len() ==> p(#[trigger] ys[i]),
        forall|v: int| #[trigger] p(v) ==> exists|i: int| 0 <= i < xs.len() && xs[i] == v,
        forall|v: int| #[trigger] p(v) ==> exists|i: int| 0 <= i < ys.len() && ys[i] == v,
    ensures
        xs == ys,
{
    let m = if xs.len() < ys.len() { xs.len() as int } else { ys.len() as int };
    lemma_enumeration_prefix(xs, ys, p, m);
    if xs.len() < ys.len() {
        assert(p(ys[m]));
        let t = choose|i: int| 0 <= i < xs.len() && xs[i] == ys[m];
        assert(ys[t] < ys[m]);
    } else if ys.len() < xs.len() {
        assert(p(xs[m]));
        let t = choose|i: int| 0 <= i < ys.len() && ys[i] == xs[m];
        assert(xs[t] < xs[m]);
    }
    assert(xs =~= ys);
}

proof fn lemma_enumeration_prefix(xs: Seq<int>, ys: Seq<int>, p: spec_fn(int) -> bool, n: int)
    requires
        0 <= n <= xs.len(),
        n <= ys.len(),
        forall|i: int, j: int| 0 <= i < j < xs.len() ==> xs[i] < xs[j],
        forall|i: int, j: int| 0 <= i < j < ys.len() ==> ys[i] < ys[j],
        forall|i: int| 0 <= i < xs.len() ==> p(#[trigger] xs[i]),
        forall|i: int| 0 <= i < ys.len() ==> p(#[trigger] ys[i]),
        forall|v: int| #[trigger] p(v) ==> exists|i: int| 0 <= i < xs.len() && xs[i] == v,
        forall|v: int| #[trigger] p(v) ==> exists|i: int| 0 <= i < ys.len() && ys[i] == v,
    ensures
        forall|i: int| 0 <= i < n ==> xs[i] == ys[i],
    decreases n,
{
    if n > 0 {
        let j = n - 1;
        lemma_enumeration_prefix(xs, ys, p, j);
        if xs[j] < ys[j] {
            assert(p(xs[j]));
            let t = choose|i: int| 0 <= i < ys.len() && ys[i] == xs[j];
            if t < j {
                assert(xs[t] == ys[t]);
                assert(xs[t] < xs[j]);
            } else if t > j {
                assert(ys[j] < ys[t]);
            }
        } else if ys[j] < xs[j] {
            assert(p(ys[j]));
            let t = choose|i: int| 0 <= i < xs.len() && xs[i] == ys[j];
            if t < j {
                assert(xs[t] == ys[t]);
                assert(ys[t] < ys[j]);
            } else if t > j {
                assert(xs[j] < xs[t]);
            }
        }
    }
}

/// A position names one program point.
proof fn lemma_pos_injective(a: InstPoint, b: InstPoint)
    requires
        a.pos() == b.pos(),
    ensures
        a == b,
{
}

/// Interval construction leaves no choice: two sets of intervals built for
/// the same function agree on all but locations.
proof fn lemma_built_alike(
    f: Function,
    u: RealRegUniverse,
    refs: Seq<bool>,
    sps: Seq<u32>,
    p1: Intervals,
    p2: Intervals,
)
    requires
        intervals_built(f, u, refs, sps, p1),
        intervals_built(f, u, refs, sps, p2),
    ensures
        alike(p1, p2),
{
    let xs = p1.virtuals@.map_values(|it: VirtualInterval| it.vreg.index as int);
    let ys = p2.virtuals@.map_values(|it: VirtualInterval| it.vreg.index as int);
    let pr = |v: int| 0 <= v < f.vreg_classes@.len() && vreg_mentioned(f, v);
    assert forall|i: int| 0 <= i < xs.len() implies pr(#[trigger] xs[i]) by {
        assert(interval_of(f, u, p1.virtuals@[i].vreg.index as int, p1.virtuals@[i], refs, sps));
    }
    assert forall|i: int| 0 <= i < ys.len() implies pr(#[trigger] ys[i]) by {
        assert(interval_of(f, u, p2.virtuals@[i].vreg.index as int, p2.virtuals@[i], refs, sps));
    }
    assert forall|v: int| #[trigger] pr(v) implies exists|i: int| 0 <= i < xs.len() && xs[i] == v by {
        assert(vreg_mentioned(f, v));
        let i = choose|i: int| 0 <= i < p1.virtuals@.len() && p1.virtuals@[i].vreg.index == v;
        assert(xs[i] == v);
    }
    assert forall|v: int| #[trigger] pr(v) implies exists|i: int| 0 <= i < ys.len() && ys[i] == v by {
        assert(vreg_mentioned(f, v));
        let i = choose|i: int| 0 <= i < p2.virtuals@.len() && p2.virtuals@[i].vreg.index == v;
        assert(ys[i] == v);
    }
    lemma_enumeration_unique(xs, ys, pr);
    assert(p1.virtuals@.len() == xs.len());
    assert forall|j: int| 0 <= j < p1.virtuals@.len() implies agree(#[trigger] p1.virtuals@[j], p2.virtuals@[j]) by {
        let x = p1.virtuals@[j];
        let y = p2.virtuals@[j];
        assert(xs[j] == ys[j]);
        let v = x.vreg.index as int;
        assert(interval_of(f, u, v, x, refs, sps));
        assert(interval_of(f, u, y.vreg.index as int, y, refs, sps));
        assert(crate::construct::span_point(f, u, v, x.start.pos()));
        assert(crate::construct::span_point(f, u, v, y.start.pos()));
        assert(crate::construct::span_point(f, u, v, x.end.pos()));
        assert(crate::construct::span_point(f, u, v, y.end.pos()));
        lemma_pos_injective(x.start, y.start);
        lemma_pos_injective(x.end, y.end);
    }
    assert forall|k: int| 0 <= k < p1.fixeds@.len() implies spans_of(#[trigger] p1.fixeds@[k]) == spans_of(p2.fixeds@[k]) by {
        assert(fixed_frags_exact(f, u, k, p1.fixeds@[k].frags@));
        assert(fixed_frags_exact(f, u, k, p2.fixeds@[k].frags@));
    }
}

proof fn lemma_alike_of_same(a: Intervals, b: Intervals)
    requires
        same_but_locations(a, b),
    ensures
        alike(a, b),
{
    assert forall|j: int| 0 <= j < a.virtuals@.len() implies agree(#[trigger] a.virtuals@[j], b.virtuals@[j]) by {
        assert(a.virtuals@[j].mentions == b.virtuals@[j].mentions);
    }
}

proof fn lemma_alike_chain(a: Intervals, b: Intervals, c: Intervals, d: Intervals)
    requires
        alike(a, b),
        alike(b, c),
        alike(d, c),
    ensures
        alike(a, d),
{
    assert forall|j: int| 0 <= j < a.virtuals@.len() implies agree(#[trigger] a.virtuals@[j], d.virtuals@[j]) by {
        assert(agree(a.virtuals@[j], b.virtuals@[j]));
        assert(agree(b.virtuals@[j], c.virtuals@[j]));
        assert(agree(d.virtuals@[j], c.virtuals@[j]));
    }
    assert forall|k: int| 0 <= k < a.fixeds@.len() implies spans_of(#[trigger] a.fixeds@[k]) == spans_of(d.fixeds@[k]) by {
        assert(spans_of(a.fixeds@[k]) == spans_of(b.fixeds@[k]));
        assert(spans_of(b.fixeds@[k]) == spans_of(c.fixeds@[k]));
        assert(spans_of(d.fixeds@[k]) == spans_of(c.fixeds@[k]));
    }
}

/// Intervals that agree and sit in the same locations.
pub open spec fn twins(a: Seq<VirtualInterval>, b: Seq<VirtualInterval>) -> bool {
    &&& a.len() == b.len()
    &&& forall|j: int| 0 <= j < a.len() ==> agree(#[trigger] a[j], b[j]) && a[j].location == b[j].location
}

proof fn lemma_twins_rewrite(a: Seq<VirtualInterval>, b: Seq<VirtualInterval>, scr: Seq<Option<RealReg>>, i: int, n: int)
    requires
        twins(a, b),
        0 <= n <= a.len(),
    ensures
        crate::rewrite::use_map(a, scr, i, n) == crate::rewrite::use_map(b, scr, i, n),
        crate::rewrite::def_map(a, scr, i, n) == crate::rewrite::def_map(b, scr, i, n),
        crate::rewrite::reload_list(a, scr, i, n) == crate::rewrite::reload_list(b, scr, i, n),
        crate::rewrite::spill_list(a, scr, i, n) == crate::rewrite::spill_list(b, scr, i, n),
        forall|s: int| crate::rewrite::stackmap_slots(a, s, n) == #[trigger] crate::rewrite::stackmap_slots(b, s, n),
    decreases n,
{
    if n > 0 {
        lemma_twins_rewrite(a, b, scr, i, n - 1);
        assert(agree(a[n - 1], b[n - 1]));
        assert forall|s: int| crate::rewrite::stackmap_slots(a, s, n) == #[trigger] crate::rewrite::stackmap_slots(b, s, n) by {
            assert(crate::rewrite::stackmap_slots(a, s, n - 1) == crate::rewrite::stackmap_slots(b, s, n - 1));
        }
    }
}

/// The registers that a rewrite clobbers, listed in index order, are the
/// same list for twin intervals.
proof fn lemma_twins_clobbered(
    f: Function,
    u: RealRegUniverse,
    a: Seq<VirtualInterval>,
    b: Seq<VirtualInterval>,
    c1: Seq<RealReg>,
    c2: Seq<RealReg>,
)
    requires
        twins(a, b),
        forall|x: int| 0 <= x < c1.len() ==> crate::rewrite::clobbered(f, u, a, (#[trigger] c1[x]).index as int)
            && c1[x] == u.regs@[c1[x].index as int],
        forall|k: int| #[trigger] crate::rewrite::clobbered(f, u, a, k) ==> exists|x: int| 0 <= x < c1.len() && c1[x].index == k,
        forall|x: int, y: int| 0 <= x < y < c1.len() ==> c1[x].index < c1[y].index,
        forall|x: int| 0 <= x < c2.len() ==> crate::rewrite::clobbered(f, u, b, (#[trigger] c2[x]).index as int)
            && c2[x] == u.regs@[c2[x].index as int],
        forall|k: int| #[trigger] crate::rewrite::clobbered(f, u, b, k) ==> exists|x: int| 0 <= x < c2.len() && c2[x].index == k,
        forall|x: int, y: int| 0 <= x < y < c2.len() ==> c2[x].index < c2[y].index,
    ensures
        c1 == c2,
{
    assert forall|k: int| #[trigger] crate::rewrite::clobbered(f, u, a, k) == crate::rewrite::clobbered(f, u, b, k) by {
        assert forall|i: int| #[trigger] crate::rewrite::clobbers_at(f, a, i, k) == crate::rewrite::clobbers_at(f, b, i, k) by {
            if crate::rewrite::clobbers_at(f, a, i, k) {
                let j = choose|j: int| 0 <= j < a.len() && (#[trigger] a[j]).location is Reg && a[j].location->Reg_0.index == k && writes_at(a[j], i);
                assert(agree(a[j], b[j]));
            }
            if crate::rewrite::clobbers_at(f, b, i, k) {
                let j = choose|j: int| 0 <= j < b.len() && (#[trigger] b[j]).location is Reg && b[j].location->Reg_0.index == k && writes_at(b[j], i);
                assert(agree(a[j], b[j]));
            }
        }
        if crate::rewrite::clobbered(f, u, a, k) {
            let i = choose|i: int| 0 <= i < f.insns@.len() && #[trigger] crate::rewrite::clobbers_at(f, a, i, k);
            assert(crate::rewrite::clobbers_at(f, b, i, k));
        }
        if crate::rewrite::clobbered(f, u, b, k) {
            let i = choose|i: int| 0 <= i < f.insns@.len() && #[trigger] crate::rewrite::clobbers_at(f, b, i, k);
            assert(crate::rewrite::clobbers_at(f, a, i, k));
        }
    }
    let xs = c1.map_values(|r: RealReg| r.index as int);
    let ys = c2.map_values(|r: RealReg| r.index as int);
    let pr = |k: int| crate::rewrite::clobbered(f, u, a, k);
    assert forall|v: int| #[trigger] pr(v) implies exists|i: int| 0 <= i < xs.len() && xs[i] == v by {
        let x = choose|x: int| 0 <= x < c1.len() && c1[x].index == v;
        assert(xs[x] == v);
    }
    assert forall|v: int| #[trigger] pr(v) implies exists|i: int| 0 <= i < ys.len() && ys[i] == v by {
        assert(crate::rewrite::clobbered(f, u, b, v));
        let x = choose|x: int| 0 <= x < c2.len() && c2[x].index == v;
        assert(ys[x] == v);
    }
    assert forall|i: int| 0 <= i < ys.len() implies pr(#[trigger] ys[i]) by {
        assert(crate::rewrite::clobbered(f, u, b, c2[i].index as int));
    }
    lemma_enumeration_unique(xs, ys, pr);
    assert forall|x: int| 0 <= x < c1.len() implies c1[x] == c2[x] by {
        assert(xs[x] == ys[x]);
    }
    assert(c1 =~= c2);
}

/// Allocation is deterministic: two results of `run` for the same function,
/// universe and request rewrite every instruction alike, clobber the same
/// registers, use as many spill slots and record the same stack maps.
pub proof fn lemma_run_deterministic(
    f: Function,
    u: RealRegUniverse,
    req: Option<&StackmapRequestInfo>,
    r1: RegAllocResult,
    r2: RegAllocResult,
)
    requires
        u.wf(),
        allocation_result(f, u, req, r1),
        allocation_result(f, u, req, r2),
    ensures
        r1.insns@.len() == r2.insns@.len(),
        forall|i: int|
            0 <= i < r1.insns@.len() ==> (#[trigger] r1.insns@[i]).uses@ == r2.insns@[i].uses@
                && r1.insns@[i].defs@ == r2.insns@[i].defs@ && r1.insns@[i].reloads_before@
                == r2.insns@[i].reloads_before@ && r1.insns@[i].spills_after@ == r2.insns@[i].spills_after@,
        r1.clobbered_registers@ == r2.clobbered_registers@,
        r1.num_spill_slots == r2.num_spill_slots,
        r1.stackmaps@.len() == r2.stackmaps@.len(),
        forall|s: int| 0 <= s < r1.stackmaps@.len() ==> (#[trigger] r1.stackmaps@[s])@ == r2.stackmaps@[s]@,
{
    let refs = crate::linear_scan::ref_marks(f, req);
    let sps = crate::linear_scan::request_safepoints(req);
    let (a, sa) = choose|ints: Intervals, scr: Seq<Option<RealReg>>|
        allocated(f, u, refs, sps, ints) && scratches_of(u, scr) && #[trigger] result_of(f, u, req, ints, scr, r1);
    let (b, sb) = choose|ints: Intervals, scr: Seq<Option<RealReg>>|
        allocated(f, u, refs, sps, ints) && scratches_of(u, scr) && #[trigger] result_of(f, u, req, ints, scr, r2);
    let pa = choose|pre: Intervals|
        intervals_built(f, u, refs, sps, pre) && #[trigger] same_but_locations(pre, a) && forall|i2: int|
            0 <= i2 < a.virtuals@.len() ==> assigned_greedily(u, a, i2);
    let pb = choose|pre: Intervals|
        intervals_built(f, u, refs, sps, pre) && #[trigger] same_but_locations(pre, b) && forall|i2: int|
            0 <= i2 < b.virtuals@.len() ==> assigned_greedily(u, b, i2);
    assert(sa =~= sb);
    lemma_built_alike(f, u, refs, sps, pa, pb);
    lemma_alike_of_same(pa, a);
    lemma_alike_of_same(pb, b);
    lemma_alike_of_same(a, pa);
    lemma_alike_chain(a, pa, pb, b);
    lemma_assignment_deterministic(u, a, b);
    assert(twins(a.virtuals@, b.virtuals@)) by {
        assert forall|j: int| 0 <= j < a.virtuals@.len() implies agree(#[trigger] a.virtuals@[j], b.virtuals@[j])
            && a.virtuals@[j].location == b.virtuals@[j].location by {
            assert(agree(a.virtuals@[j], b.virtuals@[j]));
        }
    }
    let n = a.virtuals@.len() as int;
    assert forall|i: int| 0 <= i < r1.insns@.len() implies (#[trigger] r1.insns@[i]).uses@ == r2.insns@[i].uses@
        && r1.insns@[i].defs@ == r2.insns@[i].defs@ && r1.insns@[i].reloads_before@
        == r2.insns@[i].reloads_before@ && r1.insns@[i].spills_after@ == r2.insns@[i].spills_after@ by {
        assert(crate::rewrite::rewrite_exact(a.virtuals@, sa, i, r1.insns@[i]));
        assert(crate::rewrite::rewrite_exact(b.virtuals@, sb, i, r2.insns@[i]));
        lemma_twins_rewrite(a.virtuals@, b.virtuals@, sa, i, n);
    }
    lemma_twins_rewrite(a.virtuals@, b.virtuals@, sa, 0, n);
    assert forall|s: int| 0 <= s < r1.stackmaps@.len() implies (#[trigger] r1.stackmaps@[s])@ == r2.stackmaps@[s]@ by {
        assert(crate::rewrite::stackmap_slots(a.virtuals@, s, n) == crate::rewrite::stackmap_slots(b.virtuals@, s, n));
        lemma_sorted_set_unique(r1.stackmaps@[s]@, r2.stackmaps@[s]@, crate::rewrite::stackmap_slots(a.virtuals@, s, n));
    }
    lemma_twins_clobbered(f, u, a.virtuals@, b.virtuals@, r1.clobbered_registers@, r2.clobbered_registers@);
    crate::linear_scan::lemma_spills_before_same(a, b, n);
}

/// Wherever a virtual register is mentioned or live across a block
/// boundary, its interval spans the point, and if the interval holds a real
/// register, that register holds nothing else there: no other interval in
/// it spans the point, and the function does not use it directly there.
pub proof fn lemma_register_held_exclusively(
    f: Function,
    u: RealRegUniverse,
    refs: Seq<bool>,
    sps: Seq<u32>,
    ints: Intervals,
    j: int,
    p: int,
)
    requires
        u.wf(),
        allocated(f, u, refs, sps, ints),
        0 <= j < ints.virtuals@.len(),
        crate::construct::span_point(f, u, ints.virtuals@[j].vreg.index as int, p),
    ensures
        ints.virtuals@[j].start.pos() <= p <= ints.virtuals@[j].end.pos(),
        ints.virtuals@[j].location is Reg ==> forall|j2: int|
            0 <= j2 < ints.virtuals@.len() && j2 != j && (#[trigger] ints.virtuals@[j2]).location
                == ints.virtuals@[j].location ==> !(ints.virtuals@[j2].start.pos() <= p
                <= ints.virtuals@[j2].end.pos()),
        ints.virtuals@[j].location is Reg ==> forall|b: int|
            0 <= b < f.nb() ==> !#[trigger] busy(f, u, ints.virtuals@[j].location->Reg_0.index as int, b, p),
{
    let pre = choose|pre: Intervals|
        intervals_built(f, u, refs, sps, pre) && #[trigger] same_but_locations(pre, ints) && forall|
            i2: int,
        | 0 <= i2 < ints.virtuals@.len() ==> assigned_greedily(u, ints, i2);
    assert(interval_of(f, u, pre.virtuals@[j].vreg.index as int, pre.virtuals@[j], refs, sps));
    if ints.virtuals@[j].location is Reg {
        assert forall|j2: int|
            0 <= j2 < ints.virtuals@.len() && j2 != j && (#[trigger] ints.virtuals@[j2]).location
                == ints.virtuals@[j].location implies !(ints.virtuals@[j2].start.pos() <= p
                <= ints.virtuals@[j2].end.pos()) by {
            if j < j2 {
                lemma_no_shared_register(f, u, refs, sps, ints, j, j2);
            } else {
                lemma_no_shared_register(f, u, refs, sps, ints, j2, j);
            }
        }
        assert forall|b: int| 0 <= b < f.nb() implies !#[trigger] busy(
            f,
            u,
            ints.virtuals@[j].location->Reg_0.index as int,
            b,
            p,
        ) by {
            if busy(f, u, ints.virtuals@[j].location->Reg_0.index as int, b, p) {
                lemma_fixed_registers_respected(f, u, refs, sps, ints, j, b, p);
            }
        }
    }
}

/// A set of slots has one listing in increasing order.
proof fn lemma_sorted_set_unique(v1: Seq<SpillSlot>, v2: Seq<SpillSlot>, src: Seq<SpillSlot>)
    requires
        crate::rewrite::sorted_set_of(v1, src),
        crate::rewrite::sorted_set_of(v2, src),
    ensures
        v1 == v2,
{
    let xs = v1.map_values(|x: SpillSlot| x.0 as int);
    let ys = v2.map_values(|x: SpillSlot| x.0 as int);
    let pr = |n: int| src.contains(SpillSlot(n as u32)) && 0 <= n <= u32::MAX;
    assert forall|i: int| 0 <= i < xs.len() implies pr(#[trigger] xs[i]) by {
        assert(v1.contains(v1[i]));
    }
    assert forall|i: int| 0 <= i < ys.len() implies pr(#[trigger] ys[i]) by {
        assert(v2.contains(v2[i]));
    }
    assert forall|n: int| #[trigger] pr(n) implies exists|i: int| 0 <= i < xs.len() && xs[i] == n by {
        assert(v1.contains(SpillSlot(n as u32)));
        let i = choose|i: int| 0 <= i < v1.len() && v1[i] == SpillSlot(n as u32);
        assert(xs[i] == n);
    }
    assert forall|n: int| #[trigger] pr(n) implies exists|i: int| 0 <= i < ys.len() && ys[i] == n by {
        assert(v2.contains(SpillSlot(n as u32)));
        let i = choose|i: int| 0 <= i < v2.len() && v2[i] == SpillSlot(n as u32);
        assert(ys[i] == n);
    }
    lemma_enumeration_unique(xs, ys, pr);
    assert(v1.len() == xs.len() && xs.len() == ys.len() && ys.len() == v2.len());
    assert forall|i: int| 0 <= i < v1.len() implies v1[i] == v2[i] by {
        assert(xs[i] == ys[i]);
    }
    assert(v1 =~= v2);
}

/// Two errors that say the same: equal, with lists of registers and
/// messages compared by content.
pub open spec fn same_error(e1: RegAllocError, e2: RegAllocError) -> bool {
    match (e1, e2) {
        (
            RegAllocError::Analysis(AnalysisError::EntryLiveinValues(a)),
            RegAllocError::Analysis(AnalysisError::EntryLiveinValues(b)),
        ) => a@ == b@,
        (RegAllocError::Other(a), RegAllocError::Other(b)) => a@ == b@,
        _ => e1 == e2,
    }
}

/// Analysis reports one error for a function.
proof fn lemma_analysis_error_unique(
    f: Function,
    u: RealRegUniverse,
    alg: Algorithm,
    e1: AnalysisError,
    e2: AnalysisError,
)
    requires
        f.wf(),
        analysis_error(f, u, alg, e1),
        analysis_error(f, u, alg, e2),
    ensures
        same_error(RegAllocError::Analysis(e1), RegAllocError::Analysis(e2)),
{
    match (e1, e2) {
        (AnalysisError::CriticalEdge { from: a1, to: b1 }, AnalysisError::CriticalEdge { from: a2, to: b2 }) => {
            if a1 < a2 {
                assert(refused_edge(f, a1 as int, b1 as int, false));
            } else if a2 < a1 {
                assert(refused_edge(f, a2 as int, b2 as int, false));
            } else {
                let a = a1 as int;
                let j1 = choose|j: int|
                    0 <= j < f.blocks@[a].succs@.len() && f.blocks@[a].succs@[j] as int == b1 as int
                        && forall|k: int| 0 <= k < j ==> !refused_edge(f, a, #[trigger] f.blocks@[a].succs@[k] as int, false);
                let j2 = choose|j: int|
                    0 <= j < f.blocks@[a].succs@.len() && f.blocks@[a].succs@[j] as int == b2 as int
                        && forall|k: int| 0 <= k < j ==> !refused_edge(f, a, #[trigger] f.blocks@[a].succs@[k] as int, false);
                if j1 < j2 {
                    assert(!refused_edge(f, a, f.blocks@[a].succs@[j1] as int, false));
                } else if j2 < j1 {
                    assert(!refused_edge(f, a, f.blocks@[a].succs@[j2] as int, false));
                }
            }
        },
        (AnalysisError::LsraCriticalEdge { block: a1, .. }, AnalysisError::LsraCriticalEdge { block: a2, .. }) => {
            if a1 < a2 {
                let b = choose|b: int| refused_edge(f, a1 as int, b, true);
            } else if a2 < a1 {
                let b = choose|b: int| refused_edge(f, a2 as int, b, true);
            }
        },
        (AnalysisError::IllegalRealReg(x1), AnalysisError::IllegalRealReg(x2)) => {
            let (i1, k1) = choose|i: int, k: int|
                0 <= i < f.insns@.len() && 0 <= k < inst_regs(f.insns@[i]).len() && inst_regs(f.insns@[i])[k]
                    == Reg::Real(x1) && crate::func::legal_before(f, u, i, k);
            let (i2, k2) = choose|i: int, k: int|
                0 <= i < f.insns@.len() && 0 <= k < inst_regs(f.insns@[i]).len() && inst_regs(f.insns@[i])[k]
                    == Reg::Real(x2) && crate::func::legal_before(f, u, i, k);
            if i1 < i2 || (i1 == i2 && k1 < k2) {
                assert(u.legal(inst_regs(f.insns@[i1])[k1]->Real_0));
            } else if i2 < i1 || (i1 == i2 && k2 < k1) {
                assert(u.legal(inst_regs(f.insns@[i2])[k2]->Real_0));
            }
        },
        (AnalysisError::CriticalEdge { from, to }, AnalysisError::UnreachableBlocks) => {
            assert(!refused_edge(f, from as int, to as int, tolerates_critical(alg)));
        },
        (AnalysisError::UnreachableBlocks, AnalysisError::CriticalEdge { from, to }) => {
            assert(!refused_edge(f, from as int, to as int, tolerates_critical(alg)));
        },
        (AnalysisError::CriticalEdge { from, to }, AnalysisError::IllegalRealReg(_)) => {
            assert(!refused_edge(f, from as int, to as int, tolerates_critical(alg)));
        },
        (AnalysisError::IllegalRealReg(_), AnalysisError::CriticalEdge { from, to }) => {
            assert(!refused_edge(f, from as int, to as int, tolerates_critical(alg)));
        },
        (AnalysisError::CriticalEdge { from, to }, AnalysisError::EntryLiveinValues(_)) => {
            assert(!refused_edge(f, from as int, to as int, tolerates_critical(alg)));
        },
        (AnalysisError::EntryLiveinValues(_), AnalysisError::CriticalEdge { from, to }) => {
            assert(!refused_edge(f, from as int, to as int, tolerates_critical(alg)));
        },
        (AnalysisError::LsraCriticalEdge { block, .. }, AnalysisError::UnreachableBlocks) => {
            let b = choose|b: int| refused_edge(f, block as int, b, true);
            assert(!refused_edge(f, block as int, b, tolerates_critical(alg)));
        },
        (AnalysisError::UnreachableBlocks, AnalysisError::LsraCriticalEdge { block, .. }) => {
            let b = choose|b: int| refused_edge(f, block as int, b, true);
            assert(!refused_edge(f, block as int, b, tolerates_critical(alg)));
        },
        (AnalysisError::LsraCriticalEdge { block, .. }, AnalysisError::IllegalRealReg(_)) => {
            let b = choose|b: int| refused_edge(f, block as int, b, true);
            assert(!refused_edge(f, block as int, b, tolerates_critical(alg)));
        },
        (AnalysisError::IllegalRealReg(_), AnalysisError::LsraCriticalEdge { block, .. }) => {
            let b = choose|b: int| refused_edge(f, block as int, b, true);
            assert(!refused_edge(f, block as int, b, tolerates_critical(alg)));
        },
        (AnalysisError::LsraCriticalEdge { block, .. }, AnalysisError::EntryLiveinValues(_)) => {
            let b = choose|b: int| refused_edge(f, block as int, b, true);
            assert(!refused_edge(f, block as int, b, tolerates_critical(alg)));
        },
        (AnalysisError::EntryLiveinValues(_), AnalysisError::LsraCriticalEdge { block, .. }) => {
            let b = choose|b: int| refused_edge(f, block as int, b, true);
            assert(!refused_edge(f, block as int, b, tolerates_critical(alg)));
        },
        (AnalysisError::IllegalRealReg(x), AnalysisError::EntryLiveinValues(_)) => {
            let (i, k) = choose|i: int, k: int|
                0 <= i < f.insns@.len() && 0 <= k < inst_regs(f.insns@[i]).len() && inst_regs(f.insns@[i])[k]
                    == Reg::Real(x) && crate::func::legal_before(f, u, i, k);
            assert(crate::func::all_legal(f, u));
            assert(u.legal(inst_regs(f.insns@[i])[k]->Real_0));
        },
        (AnalysisError::EntryLiveinValues(_), AnalysisError::IllegalRealReg(x)) => {
            let (i, k) = choose|i: int, k: int|
                0 <= i < f.insns@.len() && 0 <= k < inst_regs(f.insns@[i]).len() && inst_regs(f.insns@[i])[k]
                    == Reg::Real(x) && crate::func::legal_before(f, u, i, k);
            assert(crate::func::all_legal(f, u));
            assert(u.legal(inst_regs(f.insns@[i])[k]->Real_0));
        },
        _ => {},
    }
}

/// What `run` promises of its result.
pub open spec fn run_outcome(
    f: Function,
    u: RealRegUniverse,
    req: Option<&StackmapRequestInfo>,
    r: Result<RegAllocResult, RegAllocError>,
) -> bool {
    match r {
        Ok(res) => crate::linear_scan::analysis_passes(f, u) && scratches_ok(u) && allocation_result(
            f,
            u,
            req,
            res,
        ),
        Err(e) => crate::linear_scan::run_error(f, u, req, e),
    }
}

proof fn lemma_first_unavailable_unique(
    u: RealRegUniverse,
    p1: Intervals,
    p2: Intervals,
    e1: RegAllocError,
    e2: RegAllocError,
)
    requires
        alike(p1, p2),
        crate::linear_scan::first_unavailable(u, p1, e1),
        crate::linear_scan::first_unavailable(u, p2, e2),
    ensures
        e1 == e2,
{
    let i1 = choose|i: int|
        0 <= i < p1.virtuals@.len() && !crate::linear_scan::class_available(u, (#[trigger] p1.virtuals@[i]).vreg.class)
            && (forall|j: int| 0 <= j < i ==> crate::linear_scan::class_available(u, #[trigger] p1.virtuals@[j].vreg.class))
            && e1 == RegAllocError::OutOfRegisters(p1.virtuals@[i].vreg.class);
    let i2 = choose|i: int|
        0 <= i < p2.virtuals@.len() && !crate::linear_scan::class_available(u, (#[trigger] p2.virtuals@[i]).vreg.class)
            && (forall|j: int| 0 <= j < i ==> crate::linear_scan::class_available(u, #[trigger] p2.virtuals@[j].vreg.class))
            && e2 == RegAllocError::OutOfRegisters(p2.virtuals@[i].vreg.class);
    assert(agree(p1.virtuals@[i1], p2.virtuals@[i1]));
    assert(agree(p1.virtuals@[i2], p2.virtuals@[i2]));
    if i1 < i2 {
        assert(crate::linear_scan::class_available(u, p2.virtuals@[i1].vreg.class));
    } else if i2 < i1 {
        assert(crate::linear_scan::class_available(u, p1.virtuals@[i2].vreg.class));
    }
}

proof fn lemma_available_excludes_first_unavailable(
    u: RealRegUniverse,
    p1: Intervals,
    p2: Intervals,
    ints: Intervals,
    e: RegAllocError,
)
    requires
        alike(p1, p2),
        same_but_locations(p1, ints),
        crate::linear_scan::classes_available(u, ints),
    ensures
        !crate::linear_scan::first_unavailable(u, p2, e),
{
    if crate::linear_scan::first_unavailable(u, p2, e) {
        let i = choose|i: int|
            0 <= i < p2.virtuals@.len() && !crate::linear_scan::class_available(u, (#[trigger] p2.virtuals@[i]).vreg.class)
                && (forall|j: int| 0 <= j < i ==> crate::linear_scan::class_available(u, #[trigger] p2.virtuals@[j].vreg.class))
                && e == RegAllocError::OutOfRegisters(p2.virtuals@[i].vreg.class);
        assert(agree(p1.virtuals@[i], p2.virtuals@[i]));
        assert(p1.virtuals@[i].vreg == ints.virtuals@[i].vreg);
        assert(crate::linear_scan::class_available(u, ints.virtuals@[i].vreg.class));
    }
}

/// Allocation is deterministic in its outcome too: two results that `run`
/// may give for the same function, universe and request either both
/// succeed, with the same rewrite (see `lemma_run_deterministic`), or both
/// fail with the same error.
pub proof fn lemma_run_outcome_deterministic(
    f: Function,
    u: RealRegUniverse,
    req: Option<&StackmapRequestInfo>,
    r1: Result<RegAllocResult, RegAllocError>,
    r2: Result<RegAllocResult, RegAllocError>,
)
    requires
        f.wf(),
        u.wf(),
        run_outcome(f, u, req, r1),
        run_outcome(f, u, req, r2),
    ensures
        (r1 is Ok) == (r2 is Ok),
        r1 is Err ==> same_error(r1->Err_0, r2->Err_0),
{
    let refs = crate::linear_scan::ref_marks(f, req);
    let sps = crate::linear_scan::request_safepoints(req);
    match (r1, r2) {
        (Err(e1), Err(e2)) => {
            match (e1, e2) {
                (RegAllocError::Analysis(a1), RegAllocError::Analysis(a2)) => {
                    lemma_analysis_error_unique(f, u, Algorithm::LinearScan, a1, a2);
                },
                (RegAllocError::Analysis(_), _) => {},
                (_, RegAllocError::Analysis(_)) => {},
                _ => {
                    if !scratches_ok(u) {
                        let c1 = choose|c: int|
                            0 <= c < crate::data::NUM_REG_CLASSES && #[trigger] crate::linear_scan::class_short(u, c)
                                && (forall|d: int| 0 <= d < c ==> !#[trigger] crate::linear_scan::class_short(u, d))
                                && e1 == RegAllocError::OutOfRegisters(c as u8);
                        let c2 = choose|c: int|
                            0 <= c < crate::data::NUM_REG_CLASSES && #[trigger] crate::linear_scan::class_short(u, c)
                                && (forall|d: int| 0 <= d < c ==> !#[trigger] crate::linear_scan::class_short(u, d))
                                && e2 == RegAllocError::OutOfRegisters(c as u8);
                        assert(c1 == c2);
                    } else {
                        let p1 = choose|pre: Intervals|
                            intervals_built(f, u, refs, sps, pre) && #[trigger] crate::linear_scan::interval_error(u, pre, e1);
                        let p2 = choose|pre: Intervals|
                            intervals_built(f, u, refs, sps, pre) && #[trigger] crate::linear_scan::interval_error(u, pre, e2);
                        lemma_built_alike(f, u, refs, sps, p1, p2);
                        lemma_interval_error_unique(u, p1, p2, e1, e2);
                    }
                },
            }
        },
        (Ok(res), Err(e)) => {
            lemma_ok_excludes_error(f, u, req, res, e);
        },
        (Err(e), Ok(res)) => {
            lemma_ok_excludes_error(f, u, req, res, e);
        },
        _ => {},
    }
}

proof fn lemma_ok_excludes_error(
    f: Function,
    u: RealRegUniverse,
    req: Option<&StackmapRequestInfo>,
    res: RegAllocResult,
    e: RegAllocError,
)
    requires
        u.wf(),
        crate::linear_scan::analysis_passes(f, u),
        allocation_result(f, u, req, res),
    ensures
        !crate::linear_scan::run_error(f, u, req, e),
{
    let refs = crate::linear_scan::ref_marks(f, req);
    let sps = crate::linear_scan::request_safepoints(req);
    if crate::linear_scan::run_error(f, u, req, e) && !(e is Analysis) {
        assert(scratches_ok(u));
        let p2 = choose|pre: Intervals|
            intervals_built(f, u, refs, sps, pre) && #[trigger] crate::linear_scan::interval_error(u, pre, e);
        let (ints, scr) = choose|ints: Intervals, scr: Seq<Option<RealReg>>|
            allocated(f, u, refs, sps, ints) && scratches_of(u, scr) && #[trigger] result_of(f, u, req, ints, scr, res);
        let p1 = choose|pre: Intervals|
            intervals_built(f, u, refs, sps, pre) && #[trigger] same_but_locations(pre, ints) && forall|i2: int|
                0 <= i2 < ints.virtuals@.len() ==> assigned_greedily(u, ints, i2);
        lemma_built_alike(f, u, refs, sps, p1, p2);
        lemma_interval_error_excluded(u, p1, p2, ints, e);
    }
}

proof fn lemma_point_busy_alike(a: FixedInterval, b: FixedInterval, p: int)
    requires
        spans_of(a) == spans_of(b),
    ensures
        crate::linear_scan::point_busy(a, p) == crate::linear_scan::point_busy(b, p),
{
    assert(a.frags@.len() == spans_of(a).len());
    assert(b.frags@.len() == spans_of(b).len());
    if crate::linear_scan::point_busy(a, p) {
        let j = choose|j: int| 0 <= j < a.frags@.len() && frag_holds(#[trigger] a.frags@[j], p);
        assert(spans_of(a)[j] == spans_of(b)[j]);
        assert(frag_holds(b.frags@[j], p));
    }
    if crate::linear_scan::point_busy(b, p) {
        let j = choose|j: int| 0 <= j < b.frags@.len() && frag_holds(#[trigger] b.frags@[j], p);
        assert(spans_of(a)[j] == spans_of(b)[j]);
        assert(frag_holds(a.frags@[j], p));
    }
}

proof fn lemma_crowded_alike(u: RealRegUniverse, a: Intervals, b: Intervals)
    requires
        u.wf(),
        a.fixeds@.len() == u.allocable,
        alike(a, b),
    ensures
        forall|j: int| 0 <= j < a.virtuals@.len() ==> #[trigger] crate::linear_scan::crowded(u, a, j)
            == crate::linear_scan::crowded(u, b, j),
{
    assert forall|j: int| 0 <= j < a.virtuals@.len() implies #[trigger] crate::linear_scan::crowded(u, a, j)
        == crate::linear_scan::crowded(u, b, j) by {
        assert(agree(a.virtuals@[j], b.virtuals@[j]));
        assert forall|x: int| crate::linear_scan::crowded_at(u, a, j, x) == crate::linear_scan::crowded_at(u, b, j, x) by {
            let ms = mention_entries(a.virtuals@[j].mentions);
            if 0 <= x < ms.len() {
                let c = a.virtuals@[j].vreg.class;
                assert forall|k: int| #[trigger] candidate(u, c, k) implies k < a.fixeds@.len() by {}
                assert forall|k: int| #[trigger] candidate(u, c, k) implies
                    crate::linear_scan::point_busy(a.fixeds@[k], pos_of(ms[x].0 as int, Point::Use))
                        == crate::linear_scan::point_busy(b.fixeds@[k], pos_of(ms[x].0 as int, Point::Use))
                    && crate::linear_scan::point_busy(a.fixeds@[k], pos_of(ms[x].0 as int, Point::Def))
                        == crate::linear_scan::point_busy(b.fixeds@[k], pos_of(ms[x].0 as int, Point::Def)) by {
                    lemma_point_busy_alike(a.fixeds@[k], b.fixeds@[k], pos_of(ms[x].0 as int, Point::Use));
                    lemma_point_busy_alike(a.fixeds@[k], b.fixeds@[k], pos_of(ms[x].0 as int, Point::Def));
                }
            }
        }
        if crate::linear_scan::crowded(u, a, j) {
            let x = choose|x: int| crate::linear_scan::crowded_at(u, a, j, x);
        }
        if crate::linear_scan::crowded(u, b, j) {
            let x = choose|x: int| crate::linear_scan::crowded_at(u, b, j, x);
        }
    }
}

proof fn lemma_crowded_same(u: RealRegUniverse, a: Intervals, b: Intervals, j: int)
    requires
        same_but_locations(a, b),
        0 <= j < a.virtuals@.len(),
    ensures
        crate::linear_scan::crowded(u, a, j) == crate::linear_scan::crowded(u, b, j),
{
    assert(a.virtuals@[j].mentions == b.virtuals@[j].mentions);
    assert(a.virtuals@[j].vreg == b.virtuals@[j].vreg);
    if crate::linear_scan::crowded(u, a, j) {
        let x = choose|x: int| crate::linear_scan::crowded_at(u, a, j, x);
        assert(crate::linear_scan::crowded_at(u, b, j, x));
    }
    if crate::linear_scan::crowded(u, b, j) {
        let x = choose|x: int| crate::linear_scan::crowded_at(u, b, j, x);
        assert(crate::linear_scan::crowded_at(u, a, j, x));
    }
}

proof fn lemma_interval_error_unique(u: RealRegUniverse, p1: Intervals, p2: Intervals, e1: RegAllocError, e2: RegAllocError)
    requires
        u.wf(),
        p1.fixeds@.len() == u.allocable,
        alike(p1, p2),
        crate::linear_scan::interval_error(u, p1, e1),
        crate::linear_scan::interval_error(u, p2, e2),
    ensures
        e1 == e2,
{
    lemma_crowded_alike(u, p1, p2);
    if crate::linear_scan::crowded_error(u, p1, e1) {
        let j1 = choose|j: int|
            0 <= j < p1.virtuals@.len() && #[trigger] crate::linear_scan::crowded(u, p1, j) && (forall|j2: int|
                0 <= j2 < j ==> !#[trigger] crate::linear_scan::crowded(u, p1, j2)) && e1 == RegAllocError::OutOfRegisters(
                p1.virtuals@[j].vreg.class,
            );
        assert(crate::linear_scan::crowded(u, p2, j1));
        assert(!crate::linear_scan::none_crowded(u, p2));
        let j2 = choose|j: int|
            0 <= j < p2.virtuals@.len() && #[trigger] crate::linear_scan::crowded(u, p2, j) && (forall|j3: int|
                0 <= j3 < j ==> !#[trigger] crate::linear_scan::crowded(u, p2, j3)) && e2 == RegAllocError::OutOfRegisters(
                p2.virtuals@[j].vreg.class,
            );
        if j1 < j2 {
        } else if j2 < j1 {
            assert(crate::linear_scan::crowded(u, p1, j2));
        }
        assert(agree(p1.virtuals@[j1], p2.virtuals@[j1]));
    } else {
        if crate::linear_scan::crowded_error(u, p2, e2) {
            let j2 = choose|j: int|
                0 <= j < p2.virtuals@.len() && #[trigger] crate::linear_scan::crowded(u, p2, j) && (forall|j3: int|
                    0 <= j3 < j ==> !#[trigger] crate::linear_scan::crowded(u, p2, j3)) && e2 == RegAllocError::OutOfRegisters(
                    p2.virtuals@[j].vreg.class,
                );
            assert(crate::linear_scan::crowded(u, p1, j2));
        }
        lemma_first_unavailable_unique(u, p1, p2, e1, e2);
    }
}

proof fn lemma_interval_error_excluded(u: RealRegUniverse, p1: Intervals, p2: Intervals, ints: Intervals, e: RegAllocError)
    requires
        u.wf(),
        p1.fixeds@.len() == u.allocable,
        alike(p1, p2),
        same_but_locations(p1, ints),
        crate::linear_scan::classes_available(u, ints),
        crate::linear_scan::none_crowded(u, ints),
    ensures
        !crate::linear_scan::interval_error(u, p2, e),
{
    lemma_available_excludes_first_unavailable(u, p1, p2, ints, e);
    lemma_crowded_alike(u, p1, p2);
    assert forall|j: int| 0 <= j < p1.virtuals@.len() implies !#[trigger] crate::linear_scan::crowded(u, p1, j) by {
        lemma_crowded_same(u, p1, ints, j);
        assert(!crate::linear_scan::crowded(u, ints, j));
    }
    if crate::linear_scan::crowded_error(u, p2, e) {
        let j = choose|j: int|
            0 <= j < p2.virtuals@.len() && #[trigger] crate::linear_scan::crowded(u, p2, j) && (forall|j2: int|
                0 <= j2 < j ==> !#[trigger] crate::linear_scan::crowded(u, p2, j2)) && e == RegAllocError::OutOfRegisters(
                p2.virtuals@[j].vreg.class,
            );
        assert(crate::linear_scan::crowded(u, p1, j));
    }
}

} // verus!
