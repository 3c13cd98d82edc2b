//! Applying an assignment: the real register that each virtual operand
//! becomes, the reloads and spills around instructions whose operands live on
//! the stack, the clobbered registers and the stack maps at safepoints.

use vstd::prelude::*;
use crate::data::{Location, Mention, RealReg, SpillSlot, VirtualReg, NUM_REG_CLASSES};
use crate::intervals::{safepoint_entries, safepoints_get, safepoints_len, VirtualInterval};
use crate::mentions::{mention_at, mention_entries, mentions_wf};
use crate::func::{Function, RealRegUniverse};

verus! {

/// What the rewrite does at one instruction: the real register of each
/// virtual register it reads and writes, the reloads to place before it and
/// the spills to place after it.
pub struct InstRewrite {
    pub uses: Vec<(VirtualReg, RealReg)>,
    pub defs: Vec<(VirtualReg, RealReg)>,
    pub reloads_before: Vec<(SpillSlot, RealReg, VirtualReg)>,
    pub spills_after: Vec<(RealReg, SpillSlot, VirtualReg)>,
}

/// The flags that a mention list holds for instruction `i`, if any.
pub open spec fn flag_at(ms: Seq<(u32, u8)>, i: int) -> Option<u8> {
    if exists|k: int| 0 <= k < ms.len() && ms[k].0 == i {
        Some(ms[choose|k: int| 0 <= k < ms.len() && ms[k].0 == i].1)
    } else {
        None
    }
}

pub proof fn lemma_flag_at(ms: Seq<(u32, u8)>, k: int)
    requires
        mentions_wf(ms),
        0 <= k < ms.len(),
    ensures
        flag_at(ms, ms[k].0 as int) == Some(ms[k].1),
{
    let k2 = choose|k2: int| 0 <= k2 < ms.len() && ms[k2].0 == ms[k].0;
    if k2 < k {
        assert(ms[k2].0 < ms[k].0);
    } else if k < k2 {
        assert(ms[k].0 < ms[k2].0);
    }
}

/// The register through which an interval's value passes at its mentions:
/// its own register, or the scratch register of its class when it lives on
/// the stack.
pub open spec fn operand_reg(it: VirtualInterval, scratches: Seq<Option<RealReg>>) -> RealReg {
    match it.location {
        Location::Reg(r) => r,
        _ => scratches[it.vreg.class as int]->Some_0,
    }
}

pub open spec fn reads_at(it: VirtualInterval, i: int) -> bool {
    flag_at(mention_entries(it.mentions), i) matches Some(x) && (Mention(x).has_use() || Mention(
        x,
    ).has_mod())
}

pub open spec fn writes_at(it: VirtualInterval, i: int) -> bool {
    flag_at(mention_entries(it.mentions), i) matches Some(x) && (Mention(x).has_mod() || Mention(
        x,
    ).has_def())
}

/// The operands that instruction `i` reads, over the first `n` intervals.
pub open spec fn use_map(ints: Seq<VirtualInterval>, scr: Seq<Option<RealReg>>, i: int, n: int) -> Seq<
    (VirtualReg, RealReg),
>
    decreases n,
{
    if n <= 0 {
        Seq::empty()
    } else {
        let rest = use_map(ints, scr, i, n - 1);
        if reads_at(ints[n - 1], i) {
            rest.push((ints[n - 1].vreg, operand_reg(ints[n - 1], scr)))
        } else {
            rest
        }
    }
}

/// The operands that instruction `i` writes, over the first `n` intervals.
pub open spec fn def_map(ints: Seq<VirtualInterval>, scr: Seq<Option<RealReg>>, i: int, n: int) -> Seq<
    (VirtualReg, RealReg),
>
    decreases n,
{
    if n <= 0 {
        Seq::empty()
    } else {
        let rest = def_map(ints, scr, i, n - 1);
        if writes_at(ints[n - 1], i) {
            rest.push((ints[n - 1].vreg, operand_reg(ints[n - 1], scr)))
        } else {
            rest
        }
    }
}

/// Reloads before instruction `i`, over the first `n` intervals.
pub open spec fn reload_list(ints: Seq<VirtualInterval>, scr: Seq<Option<RealReg>>, i: int, n: int) -> Seq<
    (SpillSlot, RealReg, VirtualReg),
>
    decreases n,
{
    if n <= 0 {
        Seq::empty()
    } else {
        let rest = reload_list(ints, scr, i, n - 1);
        let it = ints[n - 1];
        if reads_at(it, i) && it.location is Stack {
            rest.push((it.location->Stack_0, operand_reg(it, scr), it.vreg))
        } else {
            rest
        }
    }
}

/// Spills after instruction `i`, over the first `n` intervals.
pub open spec fn spill_list(ints: Seq<VirtualInterval>, scr: Seq<Option<RealReg>>, i: int, n: int) -> Seq<
    (RealReg, SpillSlot, VirtualReg),
>
    decreases n,
{
    if n <= 0 {
        Seq::empty()
    } else {
        let rest = spill_list(ints, scr, i, n - 1);
        let it = ints[n - 1];
        if writes_at(it, i) && it.location is Stack {
            rest.push((operand_reg(it, scr), it.location->Stack_0, it.vreg))
        } else {
            rest
        }
    }
}

/// Every interval has a location, sorted mentions, and a scratch register
/// for its class when it lives on the stack.
pub open spec fn rewritable(ints: Seq<VirtualInterval>, scr: Seq<Option<RealReg>>) -> bool {
    &&& scr.len() == NUM_REG_CLASSES
    &&& forall|j: int|
        0 <= j < ints.len() ==> {
            let it = #[trigger] ints[j];
            &&& !(it.location is Unassigned)
            &&& mentions_wf(mention_entries(it.mentions))
            &&& it.vreg.class < NUM_REG_CLASSES
            &&& (it.location is Stack ==> scr[it.vreg.class as int] is Some)
        }
}

pub open spec fn rewrite_exact(
    ints: Seq<VirtualInterval>,
    scr: Seq<Option<RealReg>>,
    i: int,
    rw: InstRewrite,
) -> bool {
    &&& rw.uses@ == use_map(ints, scr, i, ints.len() as int)
    &&& rw.defs@ == def_map(ints, scr, i, ints.len() as int)
    &&& rw.reloads_before@ == reload_list(ints, scr, i, ints.len() as int)
    &&& rw.spills_after@ == spill_list(ints, scr, i, ints.len() as int)
}

fn operand_reg_exec(it: &VirtualInterval, scratches: &Vec<Option<RealReg>>) -> (r: RealReg)
    requires
        !(it.location is Unassigned),
        it.vreg.class < NUM_REG_CLASSES,
        scratches@.len() == NUM_REG_CLASSES,
        it.location is Stack ==> scratches@[it.vreg.class as int] is Some,
    ensures
        r == operand_reg(*it, scratches@),
{
    match it.location {
        Location::Reg(r) => r,
        _ => scratches[it.vreg.class as usize].unwrap(),
    }
}

/// The rewrite of one instruction.
pub fn rewrite_inst(virtuals: &Vec<VirtualInterval>, scratches: &Vec<Option<RealReg>>, i: u32) -> (r:
    InstRewrite)
    requires
        rewritable(virtuals@, scratches@),
    ensures
        rewrite_exact(virtuals@, scratches@, i as int, r),
{
    let ghost ints = virtuals@;
    let ghost scr = scratches@;
    let mut uses: Vec<(VirtualReg, RealReg)> = Vec::new();
    let mut defs: Vec<(VirtualReg, RealReg)> = Vec::new();
    let mut reloads: Vec<(SpillSlot, RealReg, VirtualReg)> = Vec::new();
    let mut spills: Vec<(RealReg, SpillSlot, VirtualReg)> = Vec::new();
    let mut j: usize = 0;
    while j < virtuals.len()
        invariant
            rewritable(ints, scr),
            ints == virtuals@,
            scr == scratches@,
            j <= ints.len(),
            uses@ == use_map(ints, scr, i as int, j as int),
            defs@ == def_map(ints, scr, i as int, j as int),
            reloads@ == reload_list(ints, scr, i as int, j as int),
            spills@ == spill_list(ints, scr, i as int, j as int),
        decreases ints.len() - j,
    {
        let it = &virtuals[j];
        assert(mentions_wf(mention_entries(ints[j as int].mentions)));
        let ghost ms = mention_entries(it.mentions);
        match mention_at(&it.mentions, i) {
            Some(x) => {
                proof {
                    let k = choose|k: int| 0 <= k < ms.len() && ms[k] == (i, x);
                    lemma_flag_at(ms, k);
                }
                let m = Mention(x);
                let reg = operand_reg_exec(it, scratches);
                if m.is_use_or_mod() {
                    uses.push((it.vreg, reg));
                    if let Location::Stack(slot) = it.location {
                        reloads.push((slot, reg, it.vreg));
                    }
                }
                if m.is_mod_or_def() {
                    defs.push((it.vreg, reg));
                    if let Location::Stack(slot) = it.location {
                        spills.push((reg, slot, it.vreg));
                    }
                }
            },
            None => {
                assert(flag_at(ms, i as int) is None);
            },
        }
        j += 1;
    }
    InstRewrite { uses, defs, reloads_before: reloads, spills_after: spills }
}

/// Instruction `i` writes the register with index `k` through an interval
/// that holds it.
pub open spec fn clobbers_at(f: Function, ints: Seq<VirtualInterval>, i: int, k: int) -> bool {
    f.insns@[i].in_clobbers && exists|j: int|
        0 <= j < ints.len() && (#[trigger] ints[j]).location is Reg && ints[j].location->Reg_0.index
            == k && writes_at(ints[j], i)
}

/// A register that the rewritten function writes: allocatable, and written
/// at an instruction whose writes count as clobbers.
pub open spec fn clobbered(f: Function, u: RealRegUniverse, ints: Seq<VirtualInterval>, k: int) -> bool {
    0 <= k < u.allocable && exists|i: int| 0 <= i < f.insns@.len() && #[trigger] clobbers_at(f, ints, i, k)
}

fn clobbers_at_exec(f: &Function, virtuals: &Vec<VirtualInterval>, i: usize, k: u32) -> (r: bool)
    requires
        i < f.insns@.len(),
        f.insns@.len() <= u32::MAX,
        forall|j: int| 0 <= j < virtuals@.len() ==> mentions_wf(mention_entries((#[trigger] virtuals@[j]).mentions)),
    ensures
        r == clobbers_at(*f, virtuals@, i as int, k as int),
{
    if !f.insns[i].in_clobbers {
        return false;
    }
    let mut j: usize = 0;
    while j < virtuals.len()
        invariant
            i < f.insns@.len(),
            f.insns@.len() <= u32::MAX,
            f.insns@[i as int].in_clobbers,
            forall|j2: int| 0 <= j2 < virtuals@.len() ==> mentions_wf(mention_entries((#[trigger] virtuals@[j2]).mentions)),
            j <= virtuals@.len(),
            forall|j2: int|
                0 <= j2 < j ==> !((#[trigger] virtuals@[j2]).location is Reg && virtuals@[j2].location->Reg_0.index
                    == k && writes_at(virtuals@[j2], i as int)),
        decreases virtuals@.len() - j,
    {
        let it = &virtuals[j];
        if let Location::Reg(r) = it.location {
            if r.index == k {
                assert(mentions_wf(mention_entries(virtuals@[j as int].mentions)));
                let ghost ms = mention_entries(it.mentions);
                match mention_at(&it.mentions, i as u32) {
                    Some(x) => {
                        proof {
                            let kk = choose|kk: int| 0 <= kk < ms.len() && ms[kk] == (i as u32, x);
                            lemma_flag_at(ms, kk);
                        }
                        if Mention(x).is_mod_or_def() {
                            assert(writes_at(virtuals@[j as int], i as int));
                            return true;
                        }
                    },
                    None => {},
                }
            }
        }
        j += 1;
    }
    false
}

/// The registers that the rewritten function clobbers, in index order.
pub fn clobbered_registers(f: &Function, u: &RealRegUniverse, virtuals: &Vec<VirtualInterval>) -> (r: Vec<RealReg>)
    requires
        u.wf(),
        f.insns@.len() <= u32::MAX,
        forall|j: int| 0 <= j < virtuals@.len() ==> mentions_wf(mention_entries((#[trigger] virtuals@[j]).mentions)),
    ensures
        forall|x: int| 0 <= x < r@.len() ==> clobbered(*f, *u, virtuals@, (#[trigger] r@[x]).index as int)
            && r@[x] == u.regs@[r@[x].index as int],
        forall|k: int| #[trigger] clobbered(*f, *u, virtuals@, k) ==> exists|x: int| 0 <= x < r@.len() && r@[x].index == k,
        forall|x: int, y: int| 0 <= x < y < r@.len() ==> r@[x].index < r@[y].index,
{
    let mut out: Vec<RealReg> = Vec::new();
    let mut k: usize = 0;
    while k < u.allocable
        invariant
            u.wf(),
            f.insns@.len() <= u32::MAX,
            forall|j: int| 0 <= j < virtuals@.len() ==> mentions_wf(mention_entries((#[trigger] virtuals@[j]).mentions)),
            k <= u.allocable,
            forall|x: int| 0 <= x < out@.len() ==> clobbered(*f, *u, virtuals@, (#[trigger] out@[x]).index as int)
                && out@[x] == u.regs@[out@[x].index as int] && out@[x].index < k,
            forall|k2: int| 0 <= k2 < k && #[trigger] clobbered(*f, *u, virtuals@, k2) ==> exists|x: int| 0 <= x < out@.len() && out@[x].index == k2,
            forall|x: int, y: int| 0 <= x < y < out@.len() ==> out@[x].index < out@[y].index,
        decreases u.allocable - k,
    {
        assert(u.regs@[k as int].index == k);
        let mut found = false;
        let mut i: usize = 0;
        while i < f.insns.len() && !found
            invariant
                f.insns@.len() <= u32::MAX,
                forall|j: int| 0 <= j < virtuals@.len() ==> mentions_wf(mention_entries((#[trigger] virtuals@[j]).mentions)),
                k < u.allocable,
                k <= u32::MAX,
                i <= f.insns@.len(),
                found ==> exists|i2: int| 0 <= i2 < f.insns@.len() && #[trigger] clobbers_at(*f, virtuals@, i2, k as int),
                !found ==> forall|i2: int| 0 <= i2 < i ==> !#[trigger] clobbers_at(*f, virtuals@, i2, k as int),
            decreases f.insns@.len() - i, if found { 0int } else { 1int },
        {
            if clobbers_at_exec(f, virtuals, i, k as u32) {
                found = true;
            } else {
                i += 1;
            }
        }
        if found {
            let ghost prev = out@;
            out.push(u.regs[k]);
            assert forall|k2: int| 0 <= k2 < k + 1 && #[trigger] clobbered(*f, *u, virtuals@, k2) implies exists|x: int| 0 <= x < out@.len() && out@[x].index == k2 by {
                if k2 < k {
                    let x = choose|x: int| 0 <= x < prev.len() && prev[x].index == k2;
                    assert(out@[x] == prev[x]);
                } else {
                    assert(out@[prev.len() as int].index == k2);
                }
            }
        }
        k += 1;
    }
    out
}

/// Rewrites every instruction of the function under the assignment, and
/// lists the registers that the rewritten function clobbers.
pub fn set_registers(
    f: &Function,
    u: &RealRegUniverse,
    virtuals: &Vec<VirtualInterval>,
    scratches: &Vec<Option<RealReg>>,
) -> (r: (Vec<InstRewrite>, Vec<RealReg>))
    requires
        u.wf(),
        f.insns@.len() <= u32::MAX,
        rewritable(virtuals@, scratches@),
    ensures
        r.0@.len() == f.insns@.len(),
        forall|i: int| 0 <= i < f.insns@.len() ==> rewrite_exact(virtuals@, scratches@, i, #[trigger] r.0@[i]),
        forall|x: int| 0 <= x < r.1@.len() ==> clobbered(*f, *u, virtuals@, (#[trigger] r.1@[x]).index as int)
            && r.1@[x] == u.regs@[r.1@[x].index as int],
        forall|k: int| #[trigger] clobbered(*f, *u, virtuals@, k) ==> exists|x: int| 0 <= x < r.1@.len() && r.1@[x].index == k,
        forall|x: int, y: int| 0 <= x < y < r.1@.len() ==> r.1@[x].index < r.1@[y].index,
{
    let mut insns: Vec<InstRewrite> = Vec::new();
    let mut i: usize = 0;
    while i < f.insns.len()
        invariant
            f.insns@.len() <= u32::MAX,
            rewritable(virtuals@, scratches@),
            i <= f.insns@.len(),
            insns@.len() == i,
            forall|i2: int| 0 <= i2 < i ==> rewrite_exact(virtuals@, scratches@, i2, #[trigger] insns@[i2]),
        decreases f.insns@.len() - i,
    {
        insns.push(rewrite_inst(virtuals, scratches, i as u32));
        i += 1;
    }
    assert forall|j: int| 0 <= j < virtuals@.len() implies mentions_wf(mention_entries((#[trigger] virtuals@[j]).mentions)) by {
        assert(rewritable(virtuals@, scratches@));
    }
    let clobbered_list = clobbered_registers(f, u, virtuals);
    let r = (insns, clobbered_list);
    assert forall|k: int| #[trigger] clobbered(*f, *u, virtuals@, k) implies exists|x: int|
        0 <= x < r.1@.len() && r.1@[x].index == k by {
        let x = choose|x: int| 0 <= x < clobbered_list@.len() && clobbered_list@[x].index == k;
        assert(r.1@[x].index == k);
    }
    r
}

/// The safepoint list of the interval holds safepoint number `s`.
pub open spec fn has_safepoint(it: VirtualInterval, s: int) -> bool {
    exists|k: int|
        0 <= k < safepoint_entries(it.safepoints).len() && (#[trigger] safepoint_entries(
            it.safepoints,
        )[k]).1 == s
}

/// The slots that safepoint `s` records, over the first `n` intervals: one
/// for each reference-typed interval on the stack that spans it.
pub open spec fn stackmap_slots(ints: Seq<VirtualInterval>, s: int, n: int) -> Seq<SpillSlot>
    decreases n,
{
    if n <= 0 {
        Seq::empty()
    } else {
        let rest = stackmap_slots(ints, s, n - 1);
        let it = ints[n - 1];
        if it.ref_typed && it.location is Stack && has_safepoint(it, s) {
            rest.push(it.location->Stack_0)
        } else {
            rest
        }
    }
}

fn has_safepoint_exec(it: &VirtualInterval, s: usize) -> (r: bool)
    ensures
        r == has_safepoint(*it, s as int),
{
    let n = safepoints_len(&it.safepoints);
    let mut k: usize = 0;
    while k < n
        invariant
            n == safepoint_entries(it.safepoints).len(),
            k <= n,
            forall|k2: int| 0 <= k2 < k ==> (#[trigger] safepoint_entries(it.safepoints)[k2]).1 != s,
        decreases n - k,
    {
        if safepoints_get(&it.safepoints, k).1 == s {
            return true;
        }
        k += 1;
    }
    false
}

/// Slots in strictly increasing order.
pub open spec fn slots_sorted(v: Seq<SpillSlot>) -> bool {
    forall|i: int, j: int| 0 <= i < j < v.len() ==> v[i].0 < v[j].0
}

/// `v` lists the slots of `src` once each, in increasing order.
pub open spec fn sorted_set_of(v: Seq<SpillSlot>, src: Seq<SpillSlot>) -> bool {
    &&& slots_sorted(v)
    &&& forall|x: SpillSlot| v.contains(x) <==> src.contains(x)
}

/// Adds a slot to a list of slots in increasing order, keeping it so.
#[verifier::rlimit(30)]
fn insert_slot(v: &mut Vec<SpillSlot>, x: SpillSlot)
    requires
        slots_sorted(old(v)@),
    ensures
        slots_sorted(final(v)@),
        forall|y: SpillSlot| final(v)@.contains(y) <==> (old(v)@.contains(y) || y == x),
{
    let ghost o = v@;
    let mut pos: usize = 0;
    while pos < v.len() && v[pos].0 < x.0
        invariant
            v@ == o,
            pos <= o.len(),
            slots_sorted(o),
            forall|k: int| 0 <= k < pos ==> o[k].0 < x.0,
        decreases o.len() - pos,
    {
        pos += 1;
    }
    if pos < v.len() && v[pos].0 == x.0 {
        assert(v@[pos as int] == x);
        assert forall|y: SpillSlot| v@.contains(y) <==> (old(v)@.contains(y) || y == x) by {
            if y == x {
                assert(v@[pos as int] == y);
            }
        }
        return;
    }
    v.insert(pos, x);
    assert(v@ == o.insert(pos as int, x));
    assert forall|i: int, j: int| 0 <= i < j < v@.len() implies v@[i].0 < v@[j].0 by {
        if j < pos {
        } else if j == pos {
        } else if i < pos {
            assert(o[i].0 < x.0);
            assert(x.0 < o[j - 1].0 || x.0 <= o[pos as int].0);
            if pos as int <= j - 1 {
                assert(o[pos as int].0 <= o[j - 1].0);
            }
        } else if i == pos {
            assert(x.0 <= o[pos as int].0);
            if pos as int <= j - 1 {
                assert(o[pos as int].0 <= o[j - 1].0);
            }
        } else {
        }
    }
    assert(o == old(v)@);
    assert forall|y: SpillSlot| #[trigger] v@.contains(y) <==> (old(v)@.contains(y) || y == x) by {
        if v@.contains(y) {
            let k = choose|k: int| 0 <= k < v@.len() && v@[k] == y;
            if k < pos {
                assert(o[k] == y);
            } else if k > pos {
                assert(o[k - 1] == y);
            }
        }
        if o.contains(y) {
            let k = choose|k: int| 0 <= k < o.len() && o[k] == y;
            if k < pos {
                assert(v@[k] == y);
            } else {
                assert(v@[k + 1] == y);
            }
        }
        if y == x {
            assert(v@[pos as int] == y);
        }
    }
}

/// The stack map of each of `num_safepoints` safepoints: the slots of the
/// reference-typed intervals on the stack that span it, in increasing order
/// and each once.
pub fn compute_stackmaps(intervals: &Vec<VirtualInterval>, num_safepoints: usize) -> (r: Vec<Vec<SpillSlot>>)
    ensures
        r@.len() == num_safepoints,
        forall|s: int|
            0 <= s < num_safepoints ==> sorted_set_of(
                (#[trigger] r@[s])@,
                stackmap_slots(intervals@, s, intervals@.len() as int),
            ),
{
    let mut maps: Vec<Vec<SpillSlot>> = Vec::new();
    let mut s: usize = 0;
    while s < num_safepoints
        invariant
            s <= num_safepoints,
            maps@.len() == s,
            forall|t: int|
                0 <= t < s ==> sorted_set_of(
                    (#[trigger] maps@[t])@,
                    stackmap_slots(intervals@, t, intervals@.len() as int),
                ),
        decreases num_safepoints - s,
    {
        let mut slots: Vec<SpillSlot> = Vec::new();
        let mut j: usize = 0;
        while j < intervals.len()
            invariant
                j <= intervals@.len(),
                sorted_set_of(slots@, stackmap_slots(intervals@, s as int, j as int)),
            decreases intervals@.len() - j,
        {
            let it = &intervals[j];
            let ghost before = stackmap_slots(intervals@, s as int, j as int);
            if it.ref_typed {
                if let Location::Stack(slot) = it.location {
                    if has_safepoint_exec(it, s) {
                        insert_slot(&mut slots, slot);
                        assert forall|y: SpillSlot| slots@.contains(y) <==> stackmap_slots(
                            intervals@,
                            s as int,
                            j + 1,
                        ).contains(y) by {
                            let after = before.push(slot);
                            assert(stackmap_slots(intervals@, s as int, j + 1) == after);
                            if after.contains(y) && y != slot {
                                let k = choose|k: int| 0 <= k < after.len() && after[k] == y;
                                assert(before[k] == y);
                            }
                            if before.contains(y) {
                                let k = choose|k: int| 0 <= k < before.len() && before[k] == y;
                                assert(after[k] == y);
                            }
                            if y == slot {
                                assert(after[before.len() as int] == y);
                            }
                        }
                    }
                }
            }
            j += 1;
        }
        maps.push(slots);
        s += 1;
    }
    maps
}

/// Each read entry of an instruction comes from an interval that reads there.
pub proof fn lemma_use_map_entry(ints: Seq<VirtualInterval>, scr: Seq<Option<RealReg>>, i: int, n: int, x: int)
    requires
        0 <= n <= ints.len(),
        0 <= x < use_map(ints, scr, i, n).len(),
    ensures
        exists|j: int|
            0 <= j < n && reads_at(ints[j], i) && use_map(ints, scr, i, n)[x] == (
                ints[j].vreg,
                operand_reg(ints[j], scr),
            ),
    decreases n,
{
    if n > 0 {
        let rest = use_map(ints, scr, i, n - 1);
        if x < rest.len() {
            lemma_use_map_entry(ints, scr, i, n - 1, x);
            let j = choose|j: int|
                0 <= j < n - 1 && reads_at(ints[j], i) && rest[x] == (ints[j].vreg, operand_reg(ints[j], scr));
            assert(use_map(ints, scr, i, n)[x] == rest[x]);
        } else {
            assert(reads_at(ints[n - 1], i));
        }
    }
}

/// Each interval that reads at an instruction has a read entry there.
pub proof fn lemma_use_map_has(ints: Seq<VirtualInterval>, scr: Seq<Option<RealReg>>, i: int, n: int, j: int)
    requires
        0 <= j < n <= ints.len(),
        reads_at(ints[j], i),
    ensures
        exists|x: int|
            0 <= x < use_map(ints, scr, i, n).len() && use_map(ints, scr, i, n)[x] == (
                ints[j].vreg,
                operand_reg(ints[j], scr),
            ),
    decreases n,
{
    let m = use_map(ints, scr, i, n);
    if j < n - 1 {
        lemma_use_map_has(ints, scr, i, n - 1, j);
        let rest = use_map(ints, scr, i, n - 1);
        let x = choose|x: int| 0 <= x < rest.len() && rest[x] == (ints[j].vreg, operand_reg(ints[j], scr));
        assert(m[x] == rest[x]);
    } else {
        let rest = use_map(ints, scr, i, n - 1);
        assert(m[rest.len() as int] == (ints[j].vreg, operand_reg(ints[j], scr)));
    }
}

/// Each write entry of an instruction comes from an interval that writes there.
pub proof fn lemma_def_map_entry(ints: Seq<VirtualInterval>, scr: Seq<Option<RealReg>>, i: int, n: int, x: int)
    requires
        0 <= n <= ints.len(),
        0 <= x < def_map(ints, scr, i, n).len(),
    ensures
        exists|j: int|
            0 <= j < n && writes_at(ints[j], i) && def_map(ints, scr, i, n)[x] == (
                ints[j].vreg,
                operand_reg(ints[j], scr),
            ),
    decreases n,
{
    if n > 0 {
        let rest = def_map(ints, scr, i, n - 1);
        if x < rest.len() {
            lemma_def_map_entry(ints, scr, i, n - 1, x);
            let j = choose|j: int|
                0 <= j < n - 1 && writes_at(ints[j], i) && rest[x] == (ints[j].vreg, operand_reg(ints[j], scr));
            assert(def_map(ints, scr, i, n)[x] == rest[x]);
        } else {
            assert(writes_at(ints[n - 1], i));
        }
    }
}

/// Each interval that writes at an instruction has a write entry there.
pub proof fn lemma_def_map_has(ints: Seq<VirtualInterval>, scr: Seq<Option<RealReg>>, i: int, n: int, j: int)
    requires
        0 <= j < n <= ints.len(),
        writes_at(ints[j], i),
    ensures
        exists|x: int|
            0 <= x < def_map(ints, scr, i, n).len() && def_map(ints, scr, i, n)[x] == (
                ints[j].vreg,
                operand_reg(ints[j], scr),
            ),
    decreases n,
{
    let m = def_map(ints, scr, i, n);
    if j < n - 1 {
        lemma_def_map_has(ints, scr, i, n - 1, j);
        let rest = def_map(ints, scr, i, n - 1);
        let x = choose|x: int| 0 <= x < rest.len() && rest[x] == (ints[j].vreg, operand_reg(ints[j], scr));
        assert(m[x] == rest[x]);
    } else {
        let rest = def_map(ints, scr, i, n - 1);
        assert(m[rest.len() as int] == (ints[j].vreg, operand_reg(ints[j], scr)));
    }
}

/// Safepoint `s` is listed for an interval spanning `[lo, hi]` exactly when
/// its `Use` point lies in that span.
pub proof fn lemma_covered_safepoints(sps: Seq<u32>, lo: int, hi: int, n: int, s: int)
    requires
        0 <= n <= sps.len(),
        sps.len() <= usize::MAX,
    ensures
        (exists|k: int|
            0 <= k < crate::construct::covered_safepoints(sps, lo, hi, n).len()
                && (#[trigger] crate::construct::covered_safepoints(sps, lo, hi, n)[k]).1 == s)
            <==> (0 <= s < n && lo <= crate::data::pos_of(sps[s] as int, crate::data::Point::Use)
            <= hi),
    decreases n,
{
    if n > 0 {
        lemma_covered_safepoints(sps, lo, hi, n - 1, s);
        let rest = crate::construct::covered_safepoints(sps, lo, hi, n - 1);
        let all = crate::construct::covered_safepoints(sps, lo, hi, n);
        if exists|k: int| 0 <= k < rest.len() && (#[trigger] rest[k]).1 == s {
            let k = choose|k: int| 0 <= k < rest.len() && (#[trigger] rest[k]).1 == s;
            assert(all[k] == rest[k]);
        }
        if exists|k: int| 0 <= k < all.len() && (#[trigger] all[k]).1 == s {
            let k = choose|k: int| 0 <= k < all.len() && (#[trigger] all[k]).1 == s;
            if k < rest.len() {
                assert(all[k] == rest[k]);
            }
        }
        if s == n - 1 && lo <= crate::data::pos_of(sps[s] as int, crate::data::Point::Use) <= hi {
            assert(all[rest.len() as int].1 == s);
        }
    }
}

/// The slots of a stack map are those of the intervals it lists.
pub proof fn lemma_stackmap_slots(ints: Seq<VirtualInterval>, s: int, n: int, slot: SpillSlot)
    requires
        0 <= n <= ints.len(),
    ensures
        stackmap_slots(ints, s, n).contains(slot) <==> exists|j: int|
            0 <= j < n && (#[trigger] ints[j]).ref_typed && ints[j].location == Location::Stack(slot)
                && has_safepoint(ints[j], s),
    decreases n,
{
    if n > 0 {
        lemma_stackmap_slots(ints, s, n - 1, slot);
        let rest = stackmap_slots(ints, s, n - 1);
        let all = stackmap_slots(ints, s, n);
        if rest.contains(slot) {
            let x = choose|x: int| 0 <= x < rest.len() && rest[x] == slot;
            assert(all[x] == slot);
        }
        if all.contains(slot) {
            let x = choose|x: int| 0 <= x < all.len() && all[x] == slot;
            if x < rest.len() {
                assert(rest[x] == slot);
            }
        }
        let it = ints[n - 1];
        if it.ref_typed && it.location == Location::Stack(slot) && has_safepoint(it, s) {
            assert(all[rest.len() as int] == slot);
        }
    }
}

/// Each reload before an instruction is for an interval that reads there.
pub proof fn lemma_reload_entry(ints: Seq<VirtualInterval>, scr: Seq<Option<RealReg>>, i: int, n: int, x: int)
    requires
        0 <= n <= ints.len(),
        0 <= x < reload_list(ints, scr, i, n).len(),
    ensures
        exists|j: int| 0 <= j < n && reads_at(ints[j], i) && reload_list(ints, scr, i, n)[x].2 == ints[j].vreg,
    decreases n,
{
    if n > 0 {
        let rest = reload_list(ints, scr, i, n - 1);
        if x < rest.len() {
            lemma_reload_entry(ints, scr, i, n - 1, x);
            let j = choose|j: int| 0 <= j < n - 1 && reads_at(ints[j], i) && rest[x].2 == ints[j].vreg;
            assert(reload_list(ints, scr, i, n)[x] == rest[x]);
        }
    }
}

/// Each spill after an instruction is for an interval that writes there.
pub proof fn lemma_spill_entry(ints: Seq<VirtualInterval>, scr: Seq<Option<RealReg>>, i: int, n: int, x: int)
    requires
        0 <= n <= ints.len(),
        0 <= x < spill_list(ints, scr, i, n).len(),
    ensures
        exists|j: int| 0 <= j < n && writes_at(ints[j], i) && spill_list(ints, scr, i, n)[x].2 == ints[j].vreg,
    decreases n,
{
    if n > 0 {
        let rest = spill_list(ints, scr, i, n - 1);
        if x < rest.len() {
            lemma_spill_entry(ints, scr, i, n - 1, x);
            let j = choose|j: int| 0 <= j < n - 1 && writes_at(ints[j], i) && rest[x].2 == ints[j].vreg;
            assert(spill_list(ints, scr, i, n)[x] == rest[x]);
        }
    }
}

/// Instructions that the rewrite inserts before instruction `i`: the
/// reloads and spills of all earlier instructions.
pub open spec fn inserted_before(insns: Seq<InstRewrite>, i: int) -> nat
    decreases i,
{
    if i <= 0 {
        0
    } else {
        inserted_before(insns, i - 1) + insns[i - 1].reloads_before@.len() + insns[i - 1].spills_after@.len()
    }
}

/// Where instruction `i` lands in the rewritten stream: after everything
/// inserted before it and after its own reloads.
pub open spec fn new_index(insns: Seq<InstRewrite>, i: int) -> int {
    i + inserted_before(insns, i) + insns[i].reloads_before@.len()
}

/// The length of the rewritten stream.
pub open spec fn new_len(insns: Seq<InstRewrite>) -> int {
    (insns.len() + inserted_before(insns, insns.len() as int)) as int
}

/// For each position of the rewritten stream over the first `n`
/// instructions, the instruction it comes from, or `None` for an inserted
/// reload or spill.
pub open spec fn origin_map(insns: Seq<InstRewrite>, n: int) -> Seq<Option<usize>>
    decreases n,
{
    if n <= 0 {
        Seq::empty()
    } else {
        origin_map(insns, n - 1) + Seq::new(insns[n - 1].reloads_before@.len(), |k: int| None::<usize>)
            + seq![Some((n - 1) as usize)] + Seq::new(insns[n - 1].spills_after@.len(), |k: int| None::<usize>)
    }
}

proof fn lemma_inserted_monotone(insns: Seq<InstRewrite>, i: int, j: int)
    requires
        0 <= i <= j <= insns.len(),
    ensures
        inserted_before(insns, i) + (j - i) <= inserted_before(insns, j) + (j - i),
        i + inserted_before(insns, i) <= j + inserted_before(insns, j),
    decreases j - i,
{
    if i < j {
        lemma_inserted_monotone(insns, i, j - 1);
    }
}

proof fn lemma_origin_len(insns: Seq<InstRewrite>, n: int)
    requires
        0 <= n <= insns.len(),
    ensures
        origin_map(insns, n).len() == n + inserted_before(insns, n),
    decreases n,
{
    if n > 0 {
        lemma_origin_len(insns, n - 1);
    }
}

/// The positions of the original instructions in the rewritten stream, and
/// the origin of each position of it; `None` when the stream would be
/// longer than `usize` can count.
pub fn renumber(insns: &Vec<InstRewrite>) -> (r: Option<(Vec<usize>, Vec<Option<usize>>)>)
    ensures
        r is None <==> new_len(insns@) > usize::MAX,
        r matches Some(m) ==> m.0@.len() == insns@.len() && (forall|i: int|
            0 <= i < insns@.len() ==> m.0@[i] == new_index(insns@, i)) && m.1@ == origin_map(
            insns@,
            insns@.len() as int,
        ),
{
    let ghost v = insns@;
    let mut targets: Vec<usize> = Vec::new();
    let mut origins: Vec<Option<usize>> = Vec::new();
    let mut i: usize = 0;
    while i < insns.len()
        invariant
            v == insns@,
            i <= v.len(),
            targets@.len() == i,
            forall|i2: int| 0 <= i2 < i ==> targets@[i2] == new_index(v, i2),
            origins@ == origin_map(v, i as int),
            origins@.len() == i + inserted_before(v, i as int),
        decreases v.len() - i,
    {
        let nr = insns[i].reloads_before.len();
        let ns = insns[i].spills_after.len();
        let here = origins.len();
        proof {
            lemma_inserted_monotone(v, i + 1, v.len() as int);
        }
        if nr > usize::MAX - here || ns > usize::MAX - here - nr || here + nr == usize::MAX || ns > usize::MAX
            - here - nr - 1 {
            assert(new_len(v) > usize::MAX) by {
                assert(inserted_before(v, i + 1) == inserted_before(v, i as int) + nr + ns);
            }
            return None;
        }
        let ghost before = origins@;
        let mut k: usize = 0;
        while k < nr
            invariant
                origins@ == before + Seq::new(k as nat, |x: int| None::<usize>),
                k <= nr,
                here == before.len(),
                here + nr < usize::MAX,
            decreases nr - k,
        {
            origins.push(None);
            assert(before + Seq::new((k + 1) as nat, |x: int| None::<usize>) =~= (before + Seq::new(
                k as nat,
                |x: int| None::<usize>,
            )).push(None));
            k += 1;
        }
        targets.push(here + nr);
        origins.push(Some(i));
        let ghost mid = origins@;
        let mut k: usize = 0;
        while k < ns
            invariant
                origins@ == mid + Seq::new(k as nat, |x: int| None::<usize>),
                k <= ns,
            decreases ns - k,
        {
            origins.push(None);
            assert(mid + Seq::new((k + 1) as nat, |x: int| None::<usize>) =~= (mid + Seq::new(
                k as nat,
                |x: int| None::<usize>,
            )).push(None));
            k += 1;
        }
        assert(origins@ =~= origin_map(v, i + 1)) by {
            assert(Seq::new(nr as nat, |x: int| None::<usize>) =~= Seq::new(
                v[i as int].reloads_before@.len(),
                |x: int| None::<usize>,
            ));
            assert(Seq::new(ns as nat, |x: int| None::<usize>) =~= Seq::new(
                v[i as int].spills_after@.len(),
                |x: int| None::<usize>,
            ));
        }
        i += 1;
    }
    let total = origins.len();
    assert(total as int == new_len(v));
    Some((targets, origins))
}

/// The positions of the safepoint instructions in the rewritten stream,
/// given the positions of all instructions; `None` when a safepoint names no
/// instruction.
pub fn renumber_safepoints(targets: &Vec<usize>, safepoint_insns: &Vec<u32>) -> (r: Option<Vec<usize>>)
    ensures
        r is None <==> exists|s: int| 0 <= s < safepoint_insns@.len() && safepoint_insns@[s] >= targets@.len(),
        r matches Some(v) ==> v@.len() == safepoint_insns@.len() && forall|s: int|
            0 <= s < v@.len() ==> v@[s] == targets@[safepoint_insns@[s] as int],
{
    let mut out: Vec<usize> = Vec::new();
    let mut s: usize = 0;
    while s < safepoint_insns.len()
        invariant
            s <= safepoint_insns@.len(),
            out@.len() == s,
            forall|t: int| 0 <= t < s ==> (#[trigger] safepoint_insns@[t]) < targets@.len() && out@[t] == targets@[safepoint_insns@[t] as int],
        decreases safepoint_insns@.len() - s,
    {
        let i = safepoint_insns[s] as usize;
        if i >= targets.len() {
            assert(safepoint_insns@[s as int] >= targets@.len());
            return None;
        }
        let ghost prev = out@;
        out.push(targets[i]);
        assert forall|t: int| 0 <= t < s + 1 implies (#[trigger] safepoint_insns@[t]) < targets@.len() && out@[t] == targets@[safepoint_insns@[t] as int] by {
            if t < s {
                assert(out@[t] == prev[t]);
            }
        }
        s += 1;
    }
    assert(!exists|t: int| 0 <= t < safepoint_insns@.len() && safepoint_insns@[t] >= targets@.len());
    Some(out)
}

} // verus!
