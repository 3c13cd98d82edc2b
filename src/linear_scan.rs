//! Register assignment over live intervals, and the options and errors of
//! the allocator.

use vstd::prelude::*;
use crate::analysis::{
    analysable, run_analysis, shape_ok, undeclared_liveins, Algorithm, AnalysisError,
};
use crate::construct::{build_intervals, intervals_built, interval_of};
use crate::data::VirtualReg;
use crate::func::Function;
use crate::rewrite::{
    clobbered, compute_stackmaps, rewrite_exact, stackmap_slots, InstRewrite,
};
use crate::data::{Location, RealReg, SpillSlot, NUM_REG_CLASSES};
use crate::func::RealRegUniverse;
use crate::intervals::{
    safepoint_entries, safepoints_len, FixedInterval, Intervals, RangeFrag, VirtualInterval,
};

verus! {

/// Why allocation failed.
#[derive(Debug)]
pub enum RegAllocError {
    /// The function failed analysis.
    Analysis(AnalysisError),
    /// A class has too few registers: none to allocate for the virtual
    /// registers that use it, fewer than two, or no scratch register.
    OutOfRegisters(u8),
    /// A class has allocatable registers but no scratch register. `run`
    /// reports that case as running out of registers in the class.
    MissingSuggestedScratchReg(u8),
    /// Any other problem, described in words.
    Other(String),
}

/// Where a split lands between the two ends of the range it may fall in.
#[derive(Clone, Copy, Debug, PartialEq, Eq, Structural)]
pub enum OptimalSplitStrategy {
    From,
    To,
    NextFrom,
    NextNextFrom,
    PrevTo,
    PrevPrevTo,
    Mid,
}

/// Settings of the linear-scan allocator.
#[derive(Clone, Debug)]
pub struct LinearScanOptions {
    pub split_strategy: OptimalSplitStrategy,
    pub partial_split: bool,
    pub partial_split_near_end: bool,
    pub stats: bool,
    pub large_stats: bool,
}

impl Default for LinearScanOptions {
    fn default() -> (r: Self)
        ensures
            r.split_strategy == OptimalSplitStrategy::From,
            !r.partial_split,
            !r.partial_split_near_end,
            !r.stats,
            !r.large_stats,
    {
        LinearScanOptions {
            split_strategy: OptimalSplitStrategy::From,
            partial_split: false,
            partial_split_near_end: false,
            stats: false,
            large_stats: false,
        }
    }
}

/// Class `c` has allocatable registers but fewer than two, or no scratch
/// register among them.
pub open spec fn class_short(u: RealRegUniverse, c: int) -> bool {
    u.allocable_by_class@[c] is Some && {
        let info = u.allocable_by_class@[c]->Some_0;
        info.first == info.last || info.suggested_scratch is None
    }
}

/// Every class that has allocatable registers has at least two and a scratch.
pub open spec fn scratches_ok(u: RealRegUniverse) -> bool {
    forall|c: int| 0 <= c < NUM_REG_CLASSES ==> !#[trigger] class_short(u, c)
}

/// The error for a universe whose classes are not all usable: running out
/// of registers in the first class that is short.
pub open spec fn scratch_error(u: RealRegUniverse, e: RegAllocError) -> bool {
    exists|c: int|
        0 <= c < NUM_REG_CLASSES && #[trigger] class_short(u, c) && (forall|d: int|
            0 <= d < c ==> !#[trigger] class_short(u, d)) && e == RegAllocError::OutOfRegisters(c as u8)
}

/// The scratch register of each class, where the class has registers.
pub open spec fn scratches_of(u: RealRegUniverse, s: Seq<Option<RealReg>>) -> bool {
    &&& s.len() == NUM_REG_CLASSES
    &&& forall|c: int|
        0 <= c < NUM_REG_CLASSES ==> (#[trigger] s[c]) == match u.allocable_by_class@[c] {
            Some(info) => Some(u.regs@[info.suggested_scratch->Some_0 as int]),
            None => None,
        }
}

/// Checks that each register class with allocatable registers has at least
/// two and a scratch register, and lists the scratch register of each class.
/// A class that falls short makes the allocator run out of registers in it:
/// the first such class is reported as `OutOfRegisters`.
pub fn compute_scratches(reg_universe: &RealRegUniverse) -> (r: Result<
    Vec<Option<RealReg>>,
    RegAllocError,
>)
    requires
        reg_universe.wf(),
    ensures
        r is Ok <==> scratches_ok(*reg_universe),
        r matches Ok(s) ==> scratches_of(*reg_universe, s@),
        r matches Err(e) ==> scratch_error(*reg_universe, e),
{
    let u = reg_universe;
    let mut scratches: Vec<Option<RealReg>> = Vec::new();
    let mut i: usize = 0;
    while i < NUM_REG_CLASSES
        invariant
            *u == *reg_universe,
            u.wf(),
            i <= NUM_REG_CLASSES,
            scratches@.len() == i,
            forall|c: int| 0 <= c < i ==> !#[trigger] class_short(*u, c),
            forall|c: int|
                0 <= c < i ==> (#[trigger] scratches@[c]) == match u.allocable_by_class@[c] {
                    Some(info) => Some(u.regs@[info.suggested_scratch->Some_0 as int]),
                    None => None,
                },
        decreases NUM_REG_CLASSES - i,
    {
        match &u.allocable_by_class[i] {
            Some(info) => {
                if info.first == info.last {
                    assert(class_short(*u, i as int));
                    return Err(RegAllocError::OutOfRegisters(i as u8));
                }
                match info.suggested_scratch {
                    Some(s) => {
                        assert(info.first <= s <= info.last < u.allocable);
                        scratches.push(Some(u.regs[s]));
                    },
                    None => {
                        assert(class_short(*u, i as int));
                        return Err(RegAllocError::OutOfRegisters(i as u8));
                    },
                }
            },
            None => {
                scratches.push(None);
            },
        }
        i += 1;
    }
    Ok(scratches)
}

/// Two intervals share a program point.
pub open spec fn overlaps(a: VirtualInterval, b: VirtualInterval) -> bool {
    a.start.pos() <= b.end.pos() && b.start.pos() <= a.end.pos()
}

pub open spec fn frag_overlaps(it: VirtualInterval, fr: RangeFrag) -> bool {
    it.start.pos() <= fr.last.pos() && fr.first.pos() <= it.end.pos()
}

/// The interval shares a point with a fragment of the fixed interval.
pub open spec fn hits_fixed(fi: FixedInterval, it: VirtualInterval) -> bool {
    exists|j: int| 0 <= j < fi.frags@.len() && frag_overlaps(it, #[trigger] fi.frags@[j])
}

/// Register `k` of the universe may hold values of class `c`: it is one of
/// the class's allocatable registers and not its scratch.
pub open spec fn candidate(u: RealRegUniverse, c: u8, k: int) -> bool {
    &&& c < NUM_REG_CLASSES
    &&& u.allocable_by_class@[c as int] is Some
    &&& u.allocable_by_class@[c as int]->Some_0.first <= k <= u.allocable_by_class@[c as int]->Some_0.last
    &&& u.allocable_by_class@[c as int]->Some_0.suggested_scratch != Some(k as usize)
}

/// Register `k` is free for interval `i`: no fixed use of `k` and no
/// earlier interval that holds `k` shares a point with it.
pub open spec fn free_for(u: RealRegUniverse, ints: Intervals, i: int, k: int) -> bool {
    &&& !hits_fixed(ints.fixeds@[k], ints.virtuals@[i])
    &&& forall|j: int|
        0 <= j < i ==> (#[trigger] ints.virtuals@[j]).location != Location::Reg(u.regs@[k])
            || !overlaps(ints.virtuals@[i], ints.virtuals@[j])
}

/// A reference-typed interval that spans a safepoint lives on the stack.
pub open spec fn must_spill(it: VirtualInterval) -> bool {
    it.ref_typed && safepoint_entries(it.safepoints).len() > 0
}

/// The number of intervals before `n` that were spilled.
pub open spec fn spills_before(ints: Intervals, n: int) -> nat
    decreases n,
{
    if n <= 0 {
        0
    } else {
        spills_before(ints, n - 1) + if ints.virtuals@[n - 1].location is Stack {
            1nat
        } else {
            0nat
        }
    }
}

/// Interval `i` got what greedy assignment in interval order gives it: the
/// lowest free candidate register, or else the next spill slot.
pub open spec fn assigned_greedily(u: RealRegUniverse, ints: Intervals, i: int) -> bool {
    let it = ints.virtuals@[i];
    let c = it.vreg.class;
    match it.location {
        Location::Reg(r) => {
            &&& !must_spill(it)
            &&& candidate(u, c, r.index as int)
            &&& r == u.regs@[r.index as int]
            &&& free_for(u, ints, i, r.index as int)
            &&& forall|k: int| 0 <= k < r.index && candidate(u, c, k) ==> !free_for(u, ints, i, k)
        },
        Location::Stack(s) => {
            &&& (must_spill(it) || forall|k: int| candidate(u, c, k) ==> !free_for(u, ints, i, k))
            &&& s.0 == spills_before(ints, i)
        },
        Location::Unassigned => false,
    }
}

/// Class `c` has allocatable registers.
pub open spec fn class_available(u: RealRegUniverse, c: u8) -> bool {
    c < NUM_REG_CLASSES && u.allocable_by_class@[c as int] is Some
}

/// The error for intervals whose classes are not all available: running out
/// of registers in the class of the first interval whose class has none.
pub open spec fn first_unavailable(u: RealRegUniverse, ints: Intervals, e: RegAllocError) -> bool {
    exists|i: int|
        0 <= i < ints.virtuals@.len() && !class_available(u, (#[trigger] ints.virtuals@[i]).vreg.class)
            && (forall|j: int| 0 <= j < i ==> class_available(u, #[trigger] ints.virtuals@[j].vreg.class))
            && e == RegAllocError::OutOfRegisters(ints.virtuals@[i].vreg.class)
}

/// Each interval's class has allocatable registers.
pub open spec fn classes_available(u: RealRegUniverse, ints: Intervals) -> bool {
    forall|i: int|
        0 <= i < ints.virtuals@.len() ==> {
            let c = (#[trigger] ints.virtuals@[i]).vreg.class;
            c < NUM_REG_CLASSES && u.allocable_by_class@[c as int] is Some
        }
}

/// Two sets of intervals that differ in locations at most.
pub open spec fn same_but_locations(a: Intervals, b: Intervals) -> bool {
    &&& a.fixeds == b.fixeds
    &&& a.virtuals@.len() == b.virtuals@.len()
    &&& forall|i: int|
        0 <= i < a.virtuals@.len() ==> {
            let x = #[trigger] a.virtuals@[i];
            let y = b.virtuals@[i];
            x.id == y.id && x.vreg == y.vreg && x.ref_typed == y.ref_typed && x.parent == y.parent
                && x.ancestor == y.ancestor && x.child == y.child && x.mentions == y.mentions
                && x.safepoints == y.safepoints && x.start == y.start && x.end == y.end
        }
}

fn fixed_conflict(fi: &FixedInterval, it: &VirtualInterval) -> (r: bool)
    ensures
        r == hits_fixed(*fi, *it),
{
    let mut j: usize = 0;
    while j < fi.frags.len()
        invariant
            j <= fi.frags@.len(),
            forall|j2: int| 0 <= j2 < j ==> !frag_overlaps(*it, #[trigger] fi.frags@[j2]),
        decreases fi.frags@.len() - j,
    {
        let fr = &fi.frags[j];
        if it.start.le(&fr.last) && fr.first.le(&it.end) {
            return true;
        }
        j += 1;
    }
    false
}

fn overlaps_exec(a: &VirtualInterval, b: &VirtualInterval) -> (r: bool)
    ensures
        r == overlaps(*a, *b),
{
    a.start.le(&b.end) && b.start.le(&a.end)
}

/// Whether register `k` is free for interval `i`.
fn is_free(u: &RealRegUniverse, ints: &Intervals, i: usize, k: usize) -> (r: bool)
    requires
        i < ints.virtuals@.len(),
        k < ints.fixeds@.len(),
        k < u.regs@.len(),
    ensures
        r == free_for(*u, *ints, i as int, k as int),
{
    let it = &ints.virtuals[i];
    if fixed_conflict(&ints.fixeds[k], it) {
        return false;
    }
    let reg = u.regs[k];
    let mut j: usize = 0;
    while j < i
        invariant
            i < ints.virtuals@.len(),
            *it == ints.virtuals@[i as int],
            reg == u.regs@[k as int],
            j <= i,
            forall|j2: int|
                0 <= j2 < j ==> (#[trigger] ints.virtuals@[j2]).location != Location::Reg(reg)
                    || !overlaps(ints.virtuals@[i as int], ints.virtuals@[j2]),
        decreases i - j,
    {
        let other = &ints.virtuals[j];
        if other.location == Location::Reg(reg) && overlaps_exec(it, other) {
            return false;
        }
        j += 1;
    }
    true
}

proof fn lemma_spills_before_frame(a: Intervals, b: Intervals, n: int)
    requires
        0 <= n <= a.virtuals@.len(),
        a.virtuals@.len() == b.virtuals@.len(),
        forall|j: int| 0 <= j < n ==> (#[trigger] a.virtuals@[j]).location == b.virtuals@[j].location,
    ensures
        spills_before(a, n) == spills_before(b, n),
    decreases n,
{
    if n > 0 {
        lemma_spills_before_frame(a, b, n - 1);
    }
}

/// Some fragment of the fixed interval holds position `p`.
pub open spec fn point_busy(fi: FixedInterval, p: int) -> bool {
    exists|j: int| 0 <= j < fi.frags@.len() && crate::intervals::frag_holds(#[trigger] fi.frags@[j], p)
}

/// Mention `x` of interval `j` modifies its register at an instruction where
/// fixed uses hold every candidate register of its class, at the `Use` or the
/// `Def` point: no register can carry the value through the instruction.
pub open spec fn crowded_at(u: RealRegUniverse, ints: Intervals, j: int, x: int) -> bool {
    let it = ints.virtuals@[j];
    let ms = crate::mentions::mention_entries(it.mentions);
    &&& 0 <= x < ms.len()
    &&& crate::data::Mention(ms[x].1).has_mod()
    &&& forall|k: int|
        #[trigger] candidate(u, it.vreg.class, k) ==> point_busy(
            ints.fixeds@[k],
            crate::data::pos_of(ms[x].0 as int, crate::data::Point::Use),
        ) || point_busy(ints.fixeds@[k], crate::data::pos_of(ms[x].0 as int, crate::data::Point::Def))
}

pub open spec fn crowded(u: RealRegUniverse, ints: Intervals, j: int) -> bool {
    exists|x: int| crowded_at(u, ints, j, x)
}

/// No interval is crowded.
pub open spec fn none_crowded(u: RealRegUniverse, ints: Intervals) -> bool {
    forall|j: int| 0 <= j < ints.virtuals@.len() ==> !#[trigger] crowded(u, ints, j)
}

/// The error for crowded intervals: running out of registers in the class
/// of the first crowded interval.
pub open spec fn crowded_error(u: RealRegUniverse, ints: Intervals, e: RegAllocError) -> bool {
    exists|j: int|
        0 <= j < ints.virtuals@.len() && #[trigger] crowded(u, ints, j) && (forall|j2: int|
            0 <= j2 < j ==> !#[trigger] crowded(u, ints, j2)) && e == RegAllocError::OutOfRegisters(
            ints.virtuals@[j].vreg.class,
        )
}

fn busy_at(fi: &FixedInterval, p: crate::data::InstPoint) -> (r: bool)
    ensures
        r == point_busy(*fi, p.pos()),
{
    let mut j: usize = 0;
    while j < fi.frags.len()
        invariant
            j <= fi.frags@.len(),
            forall|j2: int| 0 <= j2 < j ==> !crate::intervals::frag_holds(#[trigger] fi.frags@[j2], p.pos()),
        decreases fi.frags@.len() - j,
    {
        if fi.frags[j].first.le(&p) && p.le(&fi.frags[j].last) {
            return true;
        }
        j += 1;
    }
    false
}

/// Whether every candidate register of class `c` is busy at instruction `iix`.
fn all_candidates_busy(u: &RealRegUniverse, ints: &Intervals, c: u8, iix: u32) -> (r: bool)
    requires
        u.wf(),
        ints.fixeds@.len() == u.allocable,
    ensures
        r == forall|k: int|
            #[trigger] candidate(*u, c, k) ==> point_busy(
                ints.fixeds@[k],
                crate::data::pos_of(iix as int, crate::data::Point::Use),
            ) || point_busy(ints.fixeds@[k], crate::data::pos_of(iix as int, crate::data::Point::Def)),
{
    if c as usize >= NUM_REG_CLASSES {
        return true;
    }
    let info = match &u.allocable_by_class[c as usize] {
        Some(info) => *info,
        None => {
            return true;
        },
    };
    let pu = crate::data::InstPoint::new_use(iix);
    let pd = crate::data::InstPoint::new_def(iix);
    let mut k: usize = info.first;
    while k <= info.last
        invariant
            u.wf(),
            ints.fixeds@.len() == u.allocable,
            c < NUM_REG_CLASSES,
            u.allocable_by_class@[c as int] == Some(info),
            info.first <= k <= info.last + 1,
            info.last < u.allocable,
            pu.pos() == crate::data::pos_of(iix as int, crate::data::Point::Use),
            pd.pos() == crate::data::pos_of(iix as int, crate::data::Point::Def),
            forall|k2: int|
                0 <= k2 < k && #[trigger] candidate(*u, c, k2) ==> point_busy(ints.fixeds@[k2], pu.pos())
                    || point_busy(ints.fixeds@[k2], pd.pos()),
        decreases info.last + 1 - k,
    {
        if info.suggested_scratch != Some(k) {
            if !busy_at(&ints.fixeds[k], pu) && !busy_at(&ints.fixeds[k], pd) {
                assert(candidate(*u, c, k as int));
                return false;
            }
        }
        k += 1;
    }
    true
}

/// Finds the first interval that modifies its register where fixed uses hold
/// every candidate register of its class, and reports its class.
pub fn find_crowded(u: &RealRegUniverse, ints: &Intervals) -> (r: Option<u8>)
    requires
        u.wf(),
        ints.fixeds@.len() == u.allocable,
    ensures
        r is None <==> none_crowded(*u, *ints),
        r matches Some(c) ==> crowded_error(*u, *ints, RegAllocError::OutOfRegisters(c)),
{
    let mut j: usize = 0;
    while j < ints.virtuals.len()
        invariant
            u.wf(),
            ints.fixeds@.len() == u.allocable,
            j <= ints.virtuals@.len(),
            forall|j2: int| 0 <= j2 < j ==> !#[trigger] crowded(*u, *ints, j2),
        decreases ints.virtuals@.len() - j,
    {
        let it = &ints.virtuals[j];
        let ghost ms = crate::mentions::mention_entries(it.mentions);
        let n = crate::mentions::mentions_len(&it.mentions);
        let mut x: usize = 0;
        while x < n
            invariant
                u.wf(),
                ints.fixeds@.len() == u.allocable,
                j < ints.virtuals@.len(),
                *it == ints.virtuals@[j as int],
                ms == crate::mentions::mention_entries(it.mentions),
                n == ms.len(),
                x <= n,
                forall|j2: int| 0 <= j2 < j ==> !#[trigger] crowded(*u, *ints, j2),
                forall|x2: int| 0 <= x2 < x ==> !#[trigger] crowded_at(*u, *ints, j as int, x2),
            decreases n - x,
        {
            let e = crate::mentions::mentions_get(&it.mentions, x);
            if crate::data::Mention(e.1).is_mod() && all_candidates_busy(u, ints, it.vreg.class, e.0) {
                assert(crowded_at(*u, *ints, j as int, x as int));
                assert(crowded(*u, *ints, j as int));
                return Some(it.vreg.class);
            }
            x += 1;
        }
        assert(!crowded(*u, *ints, j as int));
        j += 1;
    }
    None
}

/// Two sets of intervals whose first `n` locations agree spilled as many of
/// them.
pub proof fn lemma_spills_before_same(a: Intervals, b: Intervals, n: int)
    requires
        0 <= n <= a.virtuals@.len(),
        a.virtuals@.len() == b.virtuals@.len(),
        forall|j: int| 0 <= j < n ==> (#[trigger] a.virtuals@[j]).location == b.virtuals@[j].location,
    ensures
        spills_before(a, n) == spills_before(b, n),
{
    lemma_spills_before_frame(a, b, n);
}

/// Gives every interval a register or a spill slot, in interval order: the
/// lowest candidate register of its class that no fixed use and no earlier
/// overlapping interval holds, or else the next spill slot. Returns the
/// number of spill slots used.
pub fn assign_registers(
    reg_universe: &RealRegUniverse,
    intervals: &mut Intervals,
) -> (r: Result<u32, RegAllocError>)
    requires
        reg_universe.wf(),
        old(intervals).fixeds@.len() == reg_universe.allocable,
        old(intervals).virtuals@.len() <= u32::MAX,
        forall|i: int|
            0 <= i < old(intervals).virtuals@.len() ==> (#[trigger] old(intervals).virtuals@[i]).location is Unassigned,
    ensures
        same_but_locations(*old(intervals), *final(intervals)),
        r is Ok <==> classes_available(*reg_universe, *old(intervals)),
        r matches Ok(n) ==> n == spills_before(*final(intervals), final(intervals).virtuals@.len() as int)
            && forall|i: int|
            0 <= i < final(intervals).virtuals@.len() ==> assigned_greedily(
                *reg_universe,
                *final(intervals),
                i,
            ),
        r matches Err(e) ==> first_unavailable(*reg_universe, *old(intervals), e),
{
    let u = reg_universe;
    let ghost orig = *intervals;
    let n = intervals.virtuals.len();
    let mut num_slots: u32 = 0;
    let mut i: usize = 0;
    while i < n
        invariant
            *u == *reg_universe,
            orig == *old(intervals),
            u.wf(),
            n == intervals.virtuals@.len(),
            intervals.fixeds@.len() == u.allocable,
            same_but_locations(orig, *intervals),
            orig.fixeds@.len() == u.allocable,
            i <= n,
            n <= u32::MAX,
            num_slots <= i,
            forall|i2: int| i <= i2 < n ==> (#[trigger] intervals.virtuals@[i2]).location is Unassigned,
            forall|i2: int| 0 <= i2 < i ==> {
                let c = (#[trigger] orig.virtuals@[i2]).vreg.class;
                c < NUM_REG_CLASSES && u.allocable_by_class@[c as int] is Some
            },
            num_slots == spills_before(*intervals, i as int),
            forall|i2: int| 0 <= i2 < i ==> assigned_greedily(*u, *intervals, i2),
        decreases n - i,
    {
        let c = intervals.virtuals[i].vreg.class;
        assert(orig.virtuals@[i as int].vreg.class == c);
        assert(forall|j: int| 0 <= j < i ==> class_available(*u, #[trigger] orig.virtuals@[j].vreg.class));
        if c as usize >= NUM_REG_CLASSES {
            assert(!classes_available(*u, orig));
            return Err(RegAllocError::OutOfRegisters(c));
        }
        let info = match &u.allocable_by_class[c as usize] {
            Some(info) => *info,
            None => {
                assert(!classes_available(*u, orig));
                return Err(RegAllocError::OutOfRegisters(c));
            },
        };
        let forced = intervals.virtuals[i].ref_typed && safepoints_len(
            &intervals.virtuals[i].safepoints,
        ) > 0;
        let mut chosen: Option<usize> = None;
        if !forced {
            let mut k: usize = info.first;
            while k <= info.last && chosen.is_none()
                invariant
                    u.wf(),
                    n == intervals.virtuals@.len(),
                    i < n,
                    intervals.fixeds@.len() == u.allocable,
                    c == intervals.virtuals@[i as int].vreg.class,
                    c < NUM_REG_CLASSES,
                    u.allocable_by_class@[c as int] == Some(info),
                    info.first <= k,
                    info.last < u.allocable,
                    k <= info.last + 1,
                    chosen matches Some(x) ==> candidate(*u, c, x as int) && free_for(*u, *intervals, i as int, x as int)
                        && forall|k2: int| 0 <= k2 < x && candidate(*u, c, k2) ==> !free_for(*u, *intervals, i as int, k2),
                    chosen is None ==> forall|k2: int| 0 <= k2 < k && candidate(*u, c, k2) ==> !free_for(*u, *intervals, i as int, k2),
                decreases info.last + 1 - k, if chosen is None { 1int } else { 0int },
            {
                if info.suggested_scratch != Some(k) && is_free(u, intervals, i, k) {
                    chosen = Some(k);
                } else {
                    k += 1;
                }
            }
        }
        let ghost before = *intervals;
        match chosen {
            Some(k) => {
                let reg = u.regs[k];
                intervals.set_reg(i, reg);
                proof {
                    lemma_spills_before_frame(before, *intervals, i as int);
                    assert(reg.index == k);
                    assert forall|k2: int| candidate(*u, c, k2) implies free_for(*u, *intervals, i as int, k2) == free_for(*u, before, i as int, k2) by {
                        assert forall|j: int| 0 <= j < i implies intervals.virtuals@[j] == before.virtuals@[j] by {}
                    }
                    assert forall|i2: int| 0 <= i2 < i implies assigned_greedily(*u, *intervals, i2) by {
                        assert(assigned_greedily(*u, before, i2));
                        lemma_spills_before_frame(before, *intervals, i2);
                        assert forall|k2: int| candidate(*u, intervals.virtuals@[i2].vreg.class, k2) implies free_for(*u, *intervals, i2, k2) == free_for(*u, before, i2, k2) by {
                            assert forall|j: int| 0 <= j < i2 implies intervals.virtuals@[j] == before.virtuals@[j] by {}
                        }
                        assert forall|k2: int| 0 <= k2 < intervals.fixeds@.len() implies free_for(*u, *intervals, i2, k2) == free_for(*u, before, i2, k2) by {
                            assert forall|j: int| 0 <= j < i2 implies intervals.virtuals@[j] == before.virtuals@[j] by {}
                        }
                    }
                    assert(spills_before(*intervals, i + 1) == spills_before(*intervals, i as int));
                }
            },
            None => {
                intervals.set_spill(i, SpillSlot(num_slots));
                proof {
                    lemma_spills_before_frame(before, *intervals, i as int);
                    assert forall|k2: int| candidate(*u, c, k2) implies free_for(*u, *intervals, i as int, k2) == free_for(*u, before, i as int, k2) by {
                        assert forall|j: int| 0 <= j < i implies intervals.virtuals@[j] == before.virtuals@[j] by {}
                    }
                    assert forall|i2: int| 0 <= i2 < i implies assigned_greedily(*u, *intervals, i2) by {
                        assert(assigned_greedily(*u, before, i2));
                        lemma_spills_before_frame(before, *intervals, i2);
                        assert forall|k2: int| 0 <= k2 < intervals.fixeds@.len() implies free_for(*u, *intervals, i2, k2) == free_for(*u, before, i2, k2) by {
                            assert forall|j: int| 0 <= j < i2 implies intervals.virtuals@[j] == before.virtuals@[j] by {}
                        }
                    }
                }
                num_slots = num_slots + 1;
            },
        }
        i += 1;
    }
    Ok(num_slots)
}

/// What the caller asks of stack maps: the reference-typed virtual
/// registers and the instructions at which the runtime inspects the stack.
pub struct StackmapRequestInfo {
    pub reftype_class: u8,
    pub reftyped_vregs: Vec<VirtualReg>,
    pub safepoint_insns: Vec<u32>,
}

/// The outcome of allocation: the rewrite of each instruction, the real
/// registers clobbered, the number of spill slots and one stack map per
/// safepoint.
pub struct RegAllocResult {
    pub insns: Vec<InstRewrite>,
    pub clobbered_registers: Vec<RealReg>,
    pub num_spill_slots: u32,
    pub stackmaps: Vec<Vec<SpillSlot>>,
}

/// The analysis for linear scan accepts the function.
pub open spec fn analysis_passes(f: Function, u: RealRegUniverse) -> bool {
    shape_ok(f, u, Algorithm::LinearScan) && undeclared_liveins(f, u).len() == 0
}

/// Which virtual registers hold references: those that the request's
/// roots reach through moves, and none without a request.
pub open spec fn ref_marks(f: Function, req: Option<&StackmapRequestInfo>) -> Seq<bool> {
    match req {
        Some(r) => Seq::new(
            f.vreg_classes@.len(),
            |v: int| crate::reftypes::reffy(f, r.reftyped_vregs@, v),
        ),
        None => Seq::empty(),
    }
}

pub open spec fn request_safepoints(req: Option<&StackmapRequestInfo>) -> Seq<u32> {
    match req {
        Some(r) => r.safepoint_insns@,
        None => Seq::empty(),
    }
}

/// `ints` is the outcome of greedy assignment on the intervals of the
/// function.
pub open spec fn allocated(
    f: Function,
    u: RealRegUniverse,
    refs: Seq<bool>,
    sps: Seq<u32>,
    ints: Intervals,
) -> bool {
    &&& classes_available(u, ints)
    &&& none_crowded(u, ints)
    &&& exists|pre: Intervals|
        intervals_built(f, u, refs, sps, pre) && #[trigger] same_but_locations(pre, ints)
            && forall|i: int| 0 <= i < ints.virtuals@.len() ==> assigned_greedily(u, ints, i)
}

/// The result is the rewrite of the function under the located intervals
/// `ints`.
pub open spec fn rewritten_under(
    f: Function,
    u: RealRegUniverse,
    req: Option<&StackmapRequestInfo>,
    ints: Seq<VirtualInterval>,
    scr: Seq<Option<RealReg>>,
    res: RegAllocResult,
) -> bool {
    &&& res.insns@.len() == f.insns@.len()
    &&& forall|i: int| 0 <= i < f.insns@.len() ==> rewrite_exact(ints, scr, i, #[trigger] res.insns@[i])
    &&& forall|x: int| 0 <= x < res.clobbered_registers@.len() ==> clobbered(f, u, ints, (#[trigger] res.clobbered_registers@[x]).index as int)
            && res.clobbered_registers@[x] == u.regs@[res.clobbered_registers@[x].index as int]
    &&& forall|k: int| #[trigger] clobbered(f, u, ints, k) ==> exists|x: int| 0 <= x < res.clobbered_registers@.len() && res.clobbered_registers@[x].index == k
    &&& forall|x: int, y: int| 0 <= x < y < res.clobbered_registers@.len() ==> res.clobbered_registers@[x].index < res.clobbered_registers@[y].index
    &&& res.stackmaps@.len() == request_safepoints(req).len()
    &&& forall|s: int|
        0 <= s < res.stackmaps@.len() ==> crate::rewrite::sorted_set_of(
            (#[trigger] res.stackmaps@[s])@,
            stackmap_slots(ints, s, ints.len() as int),
        )
}

/// The result is the rewrite of the function under the assignment `ints`.
pub open spec fn result_of(
    f: Function,
    u: RealRegUniverse,
    req: Option<&StackmapRequestInfo>,
    ints: Intervals,
    scr: Seq<Option<RealReg>>,
    res: RegAllocResult,
) -> bool {
    &&& rewritten_under(f, u, req, ints.virtuals@, scr, res)
    &&& res.num_spill_slots == spills_before(ints, ints.virtuals@.len() as int)
}

/// Applies an assignment: rewrites the instructions, lists the clobbered
/// registers and computes the stack maps that the request asks for.
pub fn apply_registers(
    func: &Function,
    virtuals: &Vec<VirtualInterval>,
    reg_universe: &RealRegUniverse,
    scratches: &Vec<Option<RealReg>>,
    num_spill_slots: u32,
    stackmap_request: Option<&StackmapRequestInfo>,
) -> (r: RegAllocResult)
    requires
        reg_universe.wf(),
        func.insns@.len() <= u32::MAX,
        crate::rewrite::rewritable(virtuals@, scratches@),
    ensures
        rewritten_under(*func, *reg_universe, stackmap_request, virtuals@, scratches@, r),
        r.num_spill_slots == num_spill_slots,
{
    let stackmaps = match stackmap_request {
        Some(req) => compute_stackmaps(virtuals, req.safepoint_insns.len()),
        None => Vec::new(),
    };
    let (insns, clobbered_list) = crate::rewrite::set_registers(func, reg_universe, virtuals, scratches);
    let res = RegAllocResult { insns, clobbered_registers: clobbered_list, num_spill_slots, stackmaps };
    assert forall|k: int| #[trigger] clobbered(*func, *reg_universe, virtuals@, k) implies exists|x: int|
        0 <= x < res.clobbered_registers@.len() && res.clobbered_registers@[x].index == k by {
        let x = choose|x: int| 0 <= x < clobbered_list@.len() && clobbered_list@[x].index == k;
        assert(res.clobbered_registers@[x].index == k);
    }
    res
}

/// The result is the rewrite of the function under greedy assignment of its
/// intervals, with the scratch registers of the universe.
pub open spec fn allocation_result(
    f: Function,
    u: RealRegUniverse,
    req: Option<&StackmapRequestInfo>,
    res: RegAllocResult,
) -> bool {
    &&& scratches_ok(u)
    &&& exists|ints: Intervals, scr: Seq<Option<RealReg>>|
        allocated(f, u, ref_marks(f, req), request_safepoints(req), ints) && scratches_of(u, scr)
            && #[trigger] result_of(f, u, req, ints, scr, res)
}

proof fn lemma_vreg_index_bound(ints: Seq<VirtualInterval>, j: int)
    requires
        0 <= j < ints.len(),
        forall|j1: int, j2: int| 0 <= j1 < j2 < ints.len() ==> ints[j1].vreg.index < ints[j2].vreg.index,
    ensures
        ints[j].vreg.index >= j,
    decreases j,
{
    if j > 0 {
        lemma_vreg_index_bound(ints, j - 1);
    }
}

/// The error for intervals that cannot all be assigned: running out of
/// registers in the class of the first crowded interval if any, else in the
/// class of the first interval whose class has no allocatable registers.
pub open spec fn interval_error(u: RealRegUniverse, ints: Intervals, e: RegAllocError) -> bool {
    crowded_error(u, ints, e) || (none_crowded(u, ints) && first_unavailable(u, ints, e))
}

/// The error that `run` reports: the analysis error when analysis fails;
/// otherwise running out of registers in the first class that is short of
/// registers or of a scratch; otherwise the error of the intervals.
pub open spec fn run_error(
    f: Function,
    u: RealRegUniverse,
    req: Option<&StackmapRequestInfo>,
    e: RegAllocError,
) -> bool {
    match e {
        RegAllocError::Analysis(ae) => !analysis_passes(f, u) && crate::analysis::analysis_error(
            f,
            u,
            Algorithm::LinearScan,
            ae,
        ),
        _ => analysis_passes(f, u) && if !scratches_ok(u) {
            scratch_error(u, e)
        } else {
            exists|pre: Intervals|
                intervals_built(f, u, ref_marks(f, req), request_safepoints(req), pre)
                    && #[trigger] interval_error(u, pre, e)
        },
    }
}

/// Allocates registers for a function with linear scan: analysis, interval
/// construction, assignment in interval order, then the rewrite. The
/// function's virtual operands are mapped to real registers in the result.
/// Intervals are never split, so the split settings in `opts` do not change
/// the outcome. An interval that finds no free register is spilled. Registers
/// run out in a class that has none to allocate, or too few, or no scratch
/// register, and where a register is modified across an instruction at which
/// fixed uses hold every candidate register of its class: a modification
/// needs one register on both sides of the instruction.
pub fn run(
    func: &Function,
    reg_universe: &RealRegUniverse,
    stackmap_request: Option<&StackmapRequestInfo>,
    opts: &LinearScanOptions,
) -> (r: Result<RegAllocResult, RegAllocError>)
    requires
        analysable(*func, *reg_universe),
    ensures
        r matches Err(e) ==> run_error(*func, *reg_universe, stackmap_request, e),
        r is Ok ==> analysis_passes(*func, *reg_universe) && scratches_ok(*reg_universe),
        analysis_passes(*func, *reg_universe) && scratches_ok(*reg_universe) && (forall|pre: Intervals|
            #[trigger] intervals_built(*func, *reg_universe, ref_marks(*func, stackmap_request), request_safepoints(stackmap_request), pre)
                ==> classes_available(*reg_universe, pre) && none_crowded(*reg_universe, pre)) ==> r is Ok,
        r matches Ok(res) ==> allocation_result(*func, *reg_universe, stackmap_request, res),
{
    let f = func;
    let u = reg_universe;
    let info = match run_analysis(f, u, Algorithm::LinearScan, false) {
        Ok(info) => info,
        Err(e) => {
            return Err(RegAllocError::Analysis(e));
        },
    };
    let scratches = match compute_scratches(u) {
        Ok(s) => s,
        Err(e) => {
            return Err(e);
        },
    };
    let no_safepoints: Vec<u32> = Vec::new();
    let reftyped: Vec<bool> = match stackmap_request {
        Some(req) => crate::reftypes::reftyped_vregs(f, &req.reftyped_vregs),
        None => Vec::new(),
    };
    let sps = match stackmap_request {
        Some(req) => &req.safepoint_insns,
        None => &no_safepoints,
    };
    assert(reftyped@ =~= ref_marks(*func, stackmap_request));
    assert(sps@ == request_safepoints(stackmap_request));
    let mut intervals = build_intervals(f, u, &info, &reftyped, sps);
    let ghost pre = intervals;
    proof {
        if intervals.virtuals@.len() > 0 {
            let last = intervals.virtuals@.len() - 1;
            lemma_vreg_index_bound(intervals.virtuals@, last);
            assert(interval_of(*f, *u, intervals.virtuals@[last].vreg.index as int, intervals.virtuals@[last], reftyped@, sps@));
        }
    }
    if let Some(c) = find_crowded(u, &intervals) {
        assert(interval_error(*u, intervals, RegAllocError::OutOfRegisters(c)));
        return Err(RegAllocError::OutOfRegisters(c));
    }
    let num_spill_slots = match assign_registers(u, &mut intervals) {
        Ok(n) => n,
        Err(e) => {
            assert(interval_error(*u, pre, e));
            assert(intervals_built(*func, *reg_universe, ref_marks(*func, stackmap_request), request_safepoints(stackmap_request), pre));
            return Err(e);
        },
    };
    assert(allocated(*f, *u, reftyped@, sps@, intervals)) by {
        assert(same_but_locations(pre, intervals));
        assert forall|j: int| 0 <= j < intervals.virtuals@.len() implies !#[trigger] crowded(*u, intervals, j) by {
            assert(!crowded(*u, pre, j));
            assert(pre.virtuals@[j].mentions == intervals.virtuals@[j].mentions);
            assert(pre.virtuals@[j].vreg == intervals.virtuals@[j].vreg);
            if crowded(*u, intervals, j) {
                let x = choose|x: int| crowded_at(*u, intervals, j, x);
                assert(crowded_at(*u, pre, j, x));
            }
        }
        assert forall|i: int| 0 <= i < intervals.virtuals@.len() implies {
            let c = (#[trigger] intervals.virtuals@[i]).vreg.class;
            c < NUM_REG_CLASSES && u.allocable_by_class@[c as int] is Some
        } by {
            assert(pre.virtuals@[i].vreg == intervals.virtuals@[i].vreg);
        }
    }
    let virtuals = &intervals.virtuals;
    proof {
        assert forall|j: int| 0 <= j < virtuals@.len() implies crate::mentions::mentions_wf(
            crate::mentions::mention_entries((#[trigger] virtuals@[j]).mentions),
        ) by {
            assert(interval_of(*f, *u, pre.virtuals@[j].vreg.index as int, pre.virtuals@[j], reftyped@, sps@));
            crate::construct::lemma_vreg_mentions(*f, pre.virtuals@[j].vreg.index as int, f.insns@.len() as int);
        }
        assert(classes_available(*u, pre));
        assert forall|j: int| 0 <= j < virtuals@.len() implies {
            let it = #[trigger] virtuals@[j];
            &&& !(it.location is Unassigned)
            &&& crate::mentions::mentions_wf(crate::mentions::mention_entries(it.mentions))
            &&& it.vreg.class < NUM_REG_CLASSES
            &&& (it.location is Stack ==> scratches@[it.vreg.class as int] is Some)
        } by {
            assert(assigned_greedily(*u, intervals, j));
            assert(pre.virtuals@[j].vreg == virtuals@[j].vreg);
        }
        assert(crate::rewrite::rewritable(virtuals@, scratches@));
    }
    let res = apply_registers(f, virtuals, u, &scratches, num_spill_slots, stackmap_request);
    assert(result_of(*func, *reg_universe, stackmap_request, intervals, scratches@, res));
    assert(allocation_result(*func, *reg_universe, stackmap_request, res));
    Ok(res)
}

} // verus!
