//! Live intervals: the fragments of real registers that allocation must
//! avoid, and the intervals of virtual registers with their split tree.

use vstd::prelude::*;
use smallvec::SmallVec;
use crate::data::{InstPoint, Location, RealReg, SpillSlot, VirtualReg};
use crate::mentions::MentionMap;

verus! {

/// Safepoints inside an interval, as (instruction index, safepoint number),
/// held in a small inline vector.
#[verifier::external_body]
pub struct SafepointList {
    inner: SmallVec<[(u32, usize); 8]>,
}

/// The items that a safepoint list holds, in order.
pub uninterp spec fn safepoint_entries(s: SafepointList) -> Seq<(u32, usize)>;

/// Relies on `SmallVec::new`: the new vector holds nothing.
#[verifier::external_body]
pub(crate) fn safepoints_new() -> (r: SafepointList)
    ensures
        safepoint_entries(r) == Seq::<(u32, usize)>::empty(),
{
    SafepointList { inner: SmallVec::new() }
}

/// Relies on `SmallVec::push`: the item is appended after the others.
#[verifier::external_body]
pub(crate) fn safepoints_push(s: &mut SafepointList, x: (u32, usize))
    requires
        safepoint_entries(*old(s)).len() < usize::MAX,
    ensures
        safepoint_entries(*final(s)) == safepoint_entries(*old(s)).push(x),
{
    s.inner.push(x)
}

/// Relies on `SmallVec::len`: the number of items held.
#[verifier::external_body]
pub(crate) fn safepoints_len(s: &SafepointList) -> (r: usize)
    ensures
        r == safepoint_entries(*s).len(),
{
    s.inner.len()
}

/// Relies on indexing a `SmallVec` through its slice: the item at `i`.
#[verifier::external_body]
pub(crate) fn safepoints_get(s: &SafepointList, i: usize) -> (r: (u32, usize))
    requires
        i < safepoint_entries(*s).len(),
    ensures
        r == safepoint_entries(*s)[i as int],
{
    s.inner[i]
}

/// A safepoint list holding the given items, in order.
pub fn safepoints_from(items: &Vec<(u32, usize)>) -> (r: SafepointList)
    ensures
        safepoint_entries(r) == items@,
{
    let mut s = safepoints_new();
    let mut i: usize = 0;
    while i < items.len()
        invariant
            i <= items@.len(),
            safepoint_entries(s) == items@.subrange(0, i as int),
        decreases items@.len() - i,
    {
        safepoints_push(&mut s, items[i]);
        assert(items@.subrange(0, i + 1) == items@.subrange(0, i as int).push(items@[i as int]));
        i += 1;
    }
    assert(items@.subrange(0, items@.len() as int) == items@);
    s
}

/// The items of a safepoint list, in order.
pub fn safepoints_to_vec(s: &SafepointList) -> (r: Vec<(u32, usize)>)
    ensures
        r@ == safepoint_entries(*s),
{
    let n = safepoints_len(s);
    let mut out: Vec<(u32, usize)> = Vec::new();
    let mut i: usize = 0;
    while i < n
        invariant
            n == safepoint_entries(*s).len(),
            i <= n,
            out@ == safepoint_entries(*s).subrange(0, i as int),
        decreases n - i,
    {
        out.push(safepoints_get(s, i));
        assert(safepoint_entries(*s).subrange(0, i + 1) == safepoint_entries(*s).subrange(0, i as int).push(
            safepoint_entries(*s)[i as int],
        ));
        i += 1;
    }
    assert(safepoint_entries(*s).subrange(0, n as int) == safepoint_entries(*s));
    out
}

/// How a fragment sits in its block: born and dead inside it, entering it,
/// leaving it, or passing through.
#[derive(Clone, Copy, Debug, PartialEq, Eq, Structural)]
pub enum RangeFragKind {
    Local,
    LiveIn,
    LiveOut,
    Thru,
}

/// The kind of a fragment, from whether its register is live on entry to and
/// on exit from its block.
pub open spec fn frag_kind(live_in: bool, live_out: bool) -> RangeFragKind {
    if live_in && live_out {
        RangeFragKind::Thru
    } else if live_in {
        RangeFragKind::LiveIn
    } else if live_out {
        RangeFragKind::LiveOut
    } else {
        RangeFragKind::Local
    }
}

pub fn kind_of(live_in: bool, live_out: bool) -> (r: RangeFragKind)
    ensures
        r == frag_kind(live_in, live_out),
{
    if live_in && live_out {
        RangeFragKind::Thru
    } else if live_in {
        RangeFragKind::LiveIn
    } else if live_out {
        RangeFragKind::LiveOut
    } else {
        RangeFragKind::Local
    }
}

/// A stretch `[first, last]` of program points inside one block.
#[derive(Clone, Copy, Debug)]
pub struct RangeFrag {
    pub first: InstPoint,
    pub last: InstPoint,
    pub kind: RangeFragKind,
    pub ref_typed: bool,
}

/// The points at which a real register is busy, as fragments in increasing
/// order.
pub struct FixedInterval {
    pub reg: RealReg,
    pub frags: Vec<RangeFrag>,
}

/// Fragments are ordered, each non-empty and each strictly before the next.
pub open spec fn frags_wf(frags: Seq<RangeFrag>) -> bool {
    &&& forall|i: int| 0 <= i < frags.len() ==> (#[trigger] frags[i]).first.pos() <= frags[i].last.pos()
    &&& forall|i: int, j: int| 0 <= i < j < frags.len() ==> frags[i].last.pos() < frags[j].first.pos()
}

pub open spec fn frag_holds(fr: RangeFrag, p: int) -> bool {
    fr.first.pos() <= p <= fr.last.pos()
}

impl FixedInterval {
    /// Finds the fragment that holds point `pt`.
    pub fn find_frag(&self, pt: InstPoint) -> (r: usize)
        requires
            frags_wf(self.frags@),
            exists|i: int| 0 <= i < self.frags@.len() && frag_holds(self.frags@[i], pt.pos()),
        ensures
            r < self.frags@.len(),
            frag_holds(self.frags@[r as int], pt.pos()),
    {
        let ghost w = choose|i: int| 0 <= i < self.frags@.len() && frag_holds(self.frags@[i], pt.pos());
        let mut lo: usize = 0;
        let mut hi: usize = self.frags.len();
        while lo < hi
            invariant
                frags_wf(self.frags@),
                0 <= w < self.frags@.len(),
                frag_holds(self.frags@[w], pt.pos()),
                lo <= w < hi <= self.frags@.len(),
            decreases hi - lo,
        {
            let mid = lo + (hi - lo) / 2;
            let fr = self.frags[mid];
            if pt.lt(&fr.first) {
                proof {
                    let m = mid as int;
                    if w > m {
                        assert(self.frags@[m].last.pos() < self.frags@[w].first.pos());
                    }
                }
                hi = mid;
            } else if pt.le(&fr.last) {
                proof {
                    let m = mid as int;
                    if m < w {
                        assert(self.frags@[m].last.pos() < self.frags@[w].first.pos());
                    } else if w < m {
                        assert(self.frags@[w].last.pos() < self.frags@[m].first.pos());
                    }
                }
                return mid;
            } else {
                proof {
                    let m = mid as int;
                    if w < m {
                        assert(self.frags@[w].last.pos() < self.frags@[m].first.pos());
                    }
                }
                lo = mid + 1;
            }
        }
        lo
    }
}

/// The live interval of a virtual register, or of a piece of one after a
/// split.
pub struct VirtualInterval {
    pub id: usize,
    pub vreg: VirtualReg,
    pub ref_typed: bool,
    pub parent: Option<usize>,
    pub ancestor: Option<usize>,
    pub child: Option<usize>,
    pub location: Location,
    pub mentions: MentionMap,
    pub safepoints: SafepointList,
    pub start: InstPoint,
    pub end: InstPoint,
}

impl VirtualInterval {
    pub fn new(
        id: usize,
        vreg: VirtualReg,
        start: InstPoint,
        end: InstPoint,
        mentions: MentionMap,
        ref_typed: bool,
        safepoints: SafepointList,
    ) -> (r: VirtualInterval)
        ensures
            r.id == id,
            r.vreg == vreg,
            r.start == start,
            r.end == end,
            r.mentions == mentions,
            r.ref_typed == ref_typed,
            r.safepoints == safepoints,
            r.parent is None,
            r.ancestor is None,
            r.child is None,
            r.location is Unassigned,
    {
        VirtualInterval {
            id,
            vreg,
            ref_typed,
            parent: None,
            ancestor: None,
            child: None,
            location: Location::Unassigned,
            mentions,
            safepoints,
            start,
            end,
        }
    }

    pub fn mentions(&self) -> (r: &MentionMap)
        ensures
            *r == self.mentions,
    {
        &self.mentions
    }

    pub fn safepoints(&self) -> (r: &SafepointList)
        ensures
            *r == self.safepoints,
    {
        &self.safepoints
    }

    pub open spec fn covers_spec(self, p: int) -> bool {
        self.start.pos() <= p <= self.end.pos()
    }

    pub fn covers(&self, pos: InstPoint) -> (r: bool)
        ensures
            r == self.covers_spec(pos.pos()),
    {
        self.start.le(&pos) && pos.le(&self.end)
    }
}

/// All intervals of an allocation: the virtual ones, indexed by their id,
/// and the fixed ones of real registers.
pub struct Intervals {
    pub virtuals: Vec<VirtualInterval>,
    pub fixeds: Vec<FixedInterval>,
}

impl Intervals {
    /// Each virtual interval sits at the index of its id.
    pub open spec fn ids_wf(self) -> bool {
        forall|i: int| 0 <= i < self.virtuals@.len() ==> (#[trigger] self.virtuals@[i]).id == i
    }

    pub fn num_virtual_intervals(&self) -> (r: usize)
        ensures
            r == self.virtuals@.len(),
    {
        self.virtuals.len()
    }

    pub fn get(&self, int_id: usize) -> (r: &VirtualInterval)
        requires
            int_id < self.virtuals@.len(),
        ensures
            *r == self.virtuals@[int_id as int],
    {
        &self.virtuals[int_id]
    }

    fn set_location(&mut self, int_id: usize, loc: Location)
        requires
            int_id < old(self).virtuals@.len(),
        ensures
            final(self).fixeds == old(self).fixeds,
            final(self).virtuals@.len() == old(self).virtuals@.len(),
            forall|i: int|
                0 <= i < old(self).virtuals@.len() && i != int_id ==> final(self).virtuals@[i]
                    == old(self).virtuals@[i],
            ({
                let a = old(self).virtuals@[int_id as int];
                let b = final(self).virtuals@[int_id as int];
                b.location == loc && b.id == a.id && b.vreg == a.vreg && b.ref_typed == a.ref_typed
                    && b.parent == a.parent && b.ancestor == a.ancestor && b.child == a.child
                    && b.mentions == a.mentions && b.safepoints == a.safepoints && b.start
                    == a.start && b.end == a.end
            }),
    {
        let mut it = self.virtuals.remove(int_id);
        it.location = loc;
        self.virtuals.insert(int_id, it);
    }

    /// Assigns a real register to an interval that has no location yet.
    pub fn set_reg(&mut self, int_id: usize, reg: RealReg)
        requires
            int_id < old(self).virtuals@.len(),
            old(self).virtuals@[int_id as int].location is Unassigned,
        ensures
            final(self).fixeds == old(self).fixeds,
            final(self).virtuals@.len() == old(self).virtuals@.len(),
            forall|i: int|
                0 <= i < old(self).virtuals@.len() && i != int_id ==> final(self).virtuals@[i]
                    == old(self).virtuals@[i],
            final(self).virtuals@[int_id as int].location == Location::Reg(reg),
            final(self).virtuals@[int_id as int].id == old(self).virtuals@[int_id as int].id,
            final(self).virtuals@[int_id as int].vreg == old(self).virtuals@[int_id as int].vreg,
            final(self).virtuals@[int_id as int].start == old(self).virtuals@[int_id as int].start,
            final(self).virtuals@[int_id as int].end == old(self).virtuals@[int_id as int].end,
            final(self).virtuals@[int_id as int].mentions == old(self).virtuals@[int_id as int].mentions,
            final(self).virtuals@[int_id as int].safepoints == old(self).virtuals@[int_id as int].safepoints,
            final(self).virtuals@[int_id as int].ref_typed == old(self).virtuals@[int_id as int].ref_typed,
            final(self).virtuals@[int_id as int].parent == old(self).virtuals@[int_id as int].parent,
            final(self).virtuals@[int_id as int].ancestor == old(self).virtuals@[int_id as int].ancestor,
            final(self).virtuals@[int_id as int].child == old(self).virtuals@[int_id as int].child,
    {
        self.set_location(int_id, Location::Reg(reg));
    }

    /// Assigns a spill slot to an interval that is not on the stack yet.
    pub fn set_spill(&mut self, int_id: usize, slot: SpillSlot)
        requires
            int_id < old(self).virtuals@.len(),
            !(old(self).virtuals@[int_id as int].location is Stack),
        ensures
            final(self).fixeds == old(self).fixeds,
            final(self).virtuals@.len() == old(self).virtuals@.len(),
            forall|i: int|
                0 <= i < old(self).virtuals@.len() && i != int_id ==> final(self).virtuals@[i]
                    == old(self).virtuals@[i],
            final(self).virtuals@[int_id as int].location == Location::Stack(slot),
            final(self).virtuals@[int_id as int].id == old(self).virtuals@[int_id as int].id,
            final(self).virtuals@[int_id as int].vreg == old(self).virtuals@[int_id as int].vreg,
            final(self).virtuals@[int_id as int].start == old(self).virtuals@[int_id as int].start,
            final(self).virtuals@[int_id as int].end == old(self).virtuals@[int_id as int].end,
            final(self).virtuals@[int_id as int].mentions == old(self).virtuals@[int_id as int].mentions,
            final(self).virtuals@[int_id as int].safepoints == old(self).virtuals@[int_id as int].safepoints,
            final(self).virtuals@[int_id as int].ref_typed == old(self).virtuals@[int_id as int].ref_typed,
            final(self).virtuals@[int_id as int].parent == old(self).virtuals@[int_id as int].parent,
            final(self).virtuals@[int_id as int].ancestor == old(self).virtuals@[int_id as int].ancestor,
            final(self).virtuals@[int_id as int].child == old(self).virtuals@[int_id as int].child,
    {
        self.set_location(int_id, Location::Stack(slot));
    }

    /// Appends an interval whose id is the next free one.
    pub fn push_interval(&mut self, interval: VirtualInterval)
        requires
            interval.id == old(self).virtuals@.len(),
        ensures
            final(self).virtuals@ == old(self).virtuals@.push(interval),
            final(self).fixeds == old(self).fixeds,
    {
        self.virtuals.push(interval);
    }

    fn put_child(&mut self, idx: usize, child: Option<usize>)
        requires
            idx < old(self).virtuals@.len(),
        ensures
            final(self).fixeds == old(self).fixeds,
            final(self).virtuals@ == old(self).virtuals@.update(
                idx as int,
                VirtualInterval { child, ..old(self).virtuals@[idx as int] },
            ),
    {
        let mut it = self.virtuals.remove(idx);
        it.child = child;
        self.virtuals.insert(idx, it);
        assert(self.virtuals@ =~= old(self).virtuals@.update(
            idx as int,
            VirtualInterval { child, ..old(self).virtuals@[idx as int] },
        ));
    }

    fn put_parent(&mut self, idx: usize, parent: Option<usize>)
        requires
            idx < old(self).virtuals@.len(),
        ensures
            final(self).fixeds == old(self).fixeds,
            final(self).virtuals@ == old(self).virtuals@.update(
                idx as int,
                VirtualInterval { parent, ..old(self).virtuals@[idx as int] },
            ),
    {
        let mut it = self.virtuals.remove(idx);
        it.parent = parent;
        self.virtuals.insert(idx, it);
        assert(self.virtuals@ =~= old(self).virtuals@.update(
            idx as int,
            VirtualInterval { parent, ..old(self).virtuals@[idx as int] },
        ));
    }

    /// Makes `child_id` the child of `int_id` in the split tree; a previous
    /// child of `int_id` becomes the child of `child_id`, with `child_id` as
    /// its parent. Nothing else changes.
    pub fn set_child(&mut self, int_id: usize, child_id: usize)
        requires
            int_id < old(self).virtuals@.len(),
            child_id < old(self).virtuals@.len(),
            old(self).virtuals@[int_id as int].child matches Some(p) ==> p < old(self).virtuals@.len(),
        ensures
            final(self).fixeds == old(self).fixeds,
            final(self).virtuals@ == after_set_child(old(self).virtuals@, int_id as int, child_id as int),
    {
        if let Some(prev_child) = self.virtuals[int_id].child {
            self.put_child(child_id, Some(prev_child));
            self.put_parent(prev_child, Some(child_id));
        }
        self.put_child(int_id, Some(child_id));
    }
}

/// The intervals after `set_child(int_id, child_id)`.
pub open spec fn after_set_child(v: Seq<VirtualInterval>, int_id: int, child_id: int) -> Seq<VirtualInterval> {
    let spliced = match v[int_id].child {
        Some(p) => {
            let w = v.update(child_id, VirtualInterval { child: Some(p), ..v[child_id] });
            w.update(p as int, VirtualInterval { parent: Some(child_id as usize), ..w[p as int] })
        },
        None => v,
    };
    spliced.update(int_id, VirtualInterval { child: Some(child_id as usize), ..spliced[int_id] })
}


} // verus!
