//! Control-flow analysis: predecessor counts, critical edges, reachability
//! from the entry block and a loop-depth estimate.

use vstd::prelude::*;
use crate::func::Function;
use crate::marks::{lemma_mark_one, lemma_marked_bound, marked};

verus! {

/// The largest number of blocks the allocator accepts.
pub const MAX_BLOCKS: usize = 1000000;

/// The largest number of instructions the allocator accepts.
pub const MAX_INSNS: usize = 16000000;

pub open spec fn exceeds_limits(f: Function) -> bool {
    f.nb() > MAX_BLOCKS || f.insns@.len() > MAX_INSNS
}

/// Number of blocks among the first `n` that have `h` as a successor.
pub open spec fn preds_upto(f: Function, h: int, n: int) -> nat
    decreases n,
{
    if n <= 0 {
        0
    } else {
        preds_upto(f, h, n - 1) + if f.succ(n - 1, h) {
            1nat
        } else {
            0nat
        }
    }
}

/// Block `h` is among the first `j` entries of a successor list.
pub open spec fn in_prefix(s: Seq<u32>, j: int, h: int) -> bool {
    exists|k: int| 0 <= k < j && s[k] as int == h
}

pub open spec fn npreds(f: Function, h: int) -> nat {
    preds_upto(f, h, f.nb())
}

/// An edge from a block with several successors to a block with several
/// predecessors.
pub open spec fn critical(f: Function, a: int, b: int) -> bool {
    &&& 0 <= a < f.nb()
    &&& f.succ(a, b)
    &&& f.blocks@[a].succs@.len() >= 2
    &&& npreds(f, b) >= 2
}

/// The last instruction of block `a` mentions a register.
pub open spec fn terminator_mentions(f: Function, a: int) -> bool {
    crate::func::inst_regs(f.insns@[f.blocks@[a].end() - 1]).len() > 0
}

/// A critical edge that the chosen check refuses: every one, or, when
/// `only_mentioning`, those whose source block ends in an instruction that
/// mentions a register.
pub open spec fn refused_edge(f: Function, a: int, b: int, only_mentioning: bool) -> bool {
    critical(f, a, b) && (!only_mentioning || terminator_mentions(f, a))
}

/// Block `b` is the first successor of `a`, in list order, along a refused
/// edge.
pub open spec fn first_refused_successor(f: Function, a: int, b: int, only_mentioning: bool) -> bool {
    exists|j: int|
        0 <= j < f.blocks@[a].succs@.len() && f.blocks@[a].succs@[j] as int == b && forall|k: int|
            0 <= k < j ==> !refused_edge(f, a, #[trigger] f.blocks@[a].succs@[k] as int, only_mentioning)
}

/// A set of blocks that control cannot leave.
pub open spec fn closed(f: Function, s: Set<int>) -> bool {
    forall|a: int, b: int| 0 <= a < f.nb() && s.contains(a) && #[trigger] f.succ(a, b) ==> s.contains(b)
}

/// Block `b` can be reached from the entry: it lies in every set that holds
/// the entry and that control cannot leave.
pub open spec fn reachable(f: Function, b: int) -> bool {
    forall|s: Set<int>| s.contains(0) && #[trigger] closed(f, s) ==> s.contains(b)
}

pub open spec fn all_reachable(f: Function) -> bool {
    forall|b: int| 0 <= b < f.nb() ==> #[trigger] reachable(f, b)
}

proof fn lemma_preds_bound(f: Function, h: int, n: int)
    requires
        n >= 0,
    ensures
        preds_upto(f, h, n) <= n,
    decreases n,
{
    if n > 0 {
        lemma_preds_bound(f, h, n - 1);
    }
}

/// The number of predecessors of each block.
pub fn pred_counts(f: &Function) -> (r: Vec<usize>)
    requires
        f.wf(),
        !exceeds_limits(*f),
    ensures
        r@.len() == f.nb(),
        forall|h: int| 0 <= h < f.nb() ==> r@[h] == npreds(*f, h),
{
    let nb = f.blocks.len();
    let mut counts: Vec<usize> = Vec::new();
    let mut i: usize = 0;
    while i < nb
        invariant
            i <= nb,
            counts@.len() == i,
            forall|h: int| 0 <= h < i ==> counts@[h] == 0,
        decreases nb - i,
    {
        counts.push(0);
        i += 1;
    }
    let mut b: usize = 0;
    while b < nb
        invariant
            f.wf(),
            nb == f.nb(),
            nb <= MAX_BLOCKS,
            b <= nb,
            counts@.len() == nb,
            forall|h: int| 0 <= h < nb ==> counts@[h] == preds_upto(*f, h, b as int),
        decreases nb - b,
    {
        let succs = &f.blocks[b].succs;
        let mut j: usize = 0;
        while j < succs.len()
            invariant
                f.wf(),
                nb == f.nb(),
                nb <= MAX_BLOCKS,
                b < nb,
                *succs == f.blocks@[b as int].succs,
                j <= succs@.len(),
                counts@.len() == nb,
                forall|h: int|
                    0 <= h < nb ==> counts@[h] == preds_upto(*f, h, b as int) + if in_prefix(
                        succs@,
                        j as int,
                        h,
                    ) {
                        1nat
                    } else {
                        0nat
                    },
            decreases succs@.len() - j,
        {
            let s = succs[j] as usize;
            assert(f.blocks@[b as int].succs@[j as int] < nb);
            assert(!in_prefix(succs@, j as int, s as int)) by {
                if in_prefix(succs@, j as int, s as int) {
                    assert(f.blocks@[b as int].succs@.no_duplicates());
                    let k = choose|k: int| 0 <= k < j && succs@[k] as int == s as int;
                    assert(succs@[k] == succs@[j as int]);
                }
            }
            proof {
                lemma_preds_bound(*f, s as int, b as int);
            }
            counts.set(s, counts[s] + 1);
            assert forall|h: int| 0 <= h < nb implies counts@[h] == preds_upto(*f, h, b as int)
                + if in_prefix(succs@, j + 1, h) {
                1nat
            } else {
                0nat
            } by {
                if in_prefix(succs@, j + 1, h) && h != s as int {
                    let k = choose|k: int| 0 <= k < j + 1 && succs@[k] as int == h;
                    assert(in_prefix(succs@, j as int, h));
                }
                if in_prefix(succs@, j as int, h) {
                    let k = choose|k: int| 0 <= k < j && succs@[k] as int == h;
                    assert(in_prefix(succs@, j + 1, h));
                }
                if h == s as int {
                    assert(in_prefix(succs@, j + 1, h));
                }
            }
            j += 1;
        }
        assert forall|h: int| 0 <= h < nb implies counts@[h] == preds_upto(*f, h, b + 1) by {
            if in_prefix(succs@, succs@.len() as int, h) {
                let k = choose|k: int| 0 <= k < succs@.len() && succs@[k] as int == h;
                assert(f.succ(b as int, h));
            }
            if f.succ(b as int, h) {
                let k = choose|k: int| 0 <= k < succs@.len() && succs@[k] as int == h;
                assert(in_prefix(succs@, succs@.len() as int, h));
            }
        }
        b += 1;
    }
    counts
}

/// Finds the first refused critical edge, by source block and then successor
/// order.
pub fn find_critical_edge(f: &Function, npred: &Vec<usize>, only_mentioning: bool) -> (r: Option<
    (u32, u32),
>)
    requires
        f.wf(),
        !exceeds_limits(*f),
        npred@.len() == f.nb(),
        forall|h: int| 0 <= h < f.nb() ==> npred@[h] == npreds(*f, h),
    ensures
        r is None <==> forall|a: int, b: int| !refused_edge(*f, a, b, only_mentioning),
        r matches Some(e) ==> refused_edge(*f, e.0 as int, e.1 as int, only_mentioning)
            && forall|a: int, b: int| a < e.0 ==> !refused_edge(*f, a, b, only_mentioning),
        r matches Some(e) ==> first_refused_successor(*f, e.0 as int, e.1 as int, only_mentioning),
{
    let nb = f.blocks.len();
    let mut a: usize = 0;
    while a < nb
        invariant
            f.wf(),
            nb == f.nb(),
            a <= nb,
            nb <= MAX_BLOCKS,
            npred@.len() == nb,
            forall|h: int| 0 <= h < nb ==> npred@[h] == npreds(*f, h),
            forall|a2: int, b: int| a2 < a ==> !refused_edge(*f, a2, b, only_mentioning),
        decreases nb - a,
    {
        let succs = &f.blocks[a].succs;
        let considered = if only_mentioning {
            proof {
                crate::liveness::lemma_block_in_range(*f, a as int);
            }
            let last = (f.blocks[a].first + f.blocks[a].len - 1) as usize;
            assert(f.insns@[last as int] == f.insns@[f.blocks@[a as int].end() - 1]);
            crate::func::inst_reg_count(&f.insns[last]) > 0
        } else {
            true
        };
        if succs.len() >= 2 && considered {
            let mut j: usize = 0;
            while j < succs.len()
                invariant
                    f.wf(),
                    nb == f.nb(),
                    a < nb,
                    nb <= MAX_BLOCKS,
                    *succs == f.blocks@[a as int].succs,
                    succs@.len() >= 2,
                    considered == (!only_mentioning || terminator_mentions(*f, a as int)),
                    considered,
                    j <= succs@.len(),
                    npred@.len() == nb,
                    forall|h: int| 0 <= h < nb ==> npred@[h] == npreds(*f, h),
                    forall|a2: int, b: int| a2 < a ==> !refused_edge(*f, a2, b, only_mentioning),
                    forall|k: int| 0 <= k < j ==> npreds(*f, succs@[k] as int) < 2,
                decreases succs@.len() - j,
            {
                let s = succs[j];
                assert(f.blocks@[a as int].succs@[j as int] < nb);
                if npred[s as usize] >= 2 {
                    assert(f.succ(a as int, s as int));
                    assert(critical(*f, a as int, s as int));
                    assert(refused_edge(*f, a as int, s as int, only_mentioning));
                    assert forall|k: int| 0 <= k < j implies !refused_edge(*f, a as int, succs@[k] as int, only_mentioning) by {
                        assert(npreds(*f, succs@[k] as int) < 2);
                    }
                    assert(first_refused_successor(*f, a as int, s as int, only_mentioning));
                    return Some((a as u32, s));
                }
                j += 1;
            }
            assert forall|b: int| !refused_edge(*f, a as int, b, only_mentioning) by {
                if critical(*f, a as int, b) {
                    let k = choose|k: int| 0 <= k < succs@.len() && succs@[k] as int == b;
                    assert(npreds(*f, succs@[k] as int) < 2);
                }
            }
        }
        a += 1;
    }
    None
}

/// Marks every block that can be reached from the entry.
pub fn reachable_blocks(f: &Function) -> (r: Vec<bool>)
    requires
        f.wf(),
    ensures
        r@.len() == f.nb(),
        forall|b: int| 0 <= b < f.nb() ==> r@[b] == reachable(*f, b),
{
    let nb = f.blocks.len();
    let mut m: Vec<bool> = Vec::new();
    let mut i: usize = 0;
    while i < nb
        invariant
            i <= nb,
            m@.len() == i,
            forall|h: int| 0 <= h < i ==> !m@[h],
        decreases nb - i,
    {
        m.push(false);
        i += 1;
    }
    assert(reachable(*f, 0));
    m.set(0, true);
    proof {
        lemma_marked_bound(m@);
    }
    let mut changed = true;
    while changed
        invariant
            f.wf(),
            nb == f.nb(),
            m@.len() == nb,
            m@[0],
            forall|b: int| 0 <= b < nb && m@[b] ==> reachable(*f, b),
            !changed ==> forall|a: int, b: int| 0 <= a < nb && m@[a] && f.succ(a, b) ==> m@[b],
            marked(m@).len() <= nb,
        decreases nb - marked(m@).len() + if changed {
            1int
        } else {
            0int
        },
    {
        let ghost before = marked(m@).len();
        changed = false;
        let mut a: usize = 0;
        while a < nb
            invariant
                f.wf(),
                nb == f.nb(),
                a <= nb,
                m@.len() == nb,
                m@[0],
                forall|b: int| 0 <= b < nb && m@[b] ==> reachable(*f, b),
                !changed ==> forall|a2: int, b: int|
                    0 <= a2 < a && m@[a2] && f.succ(a2, b) ==> m@[b],
                !changed ==> marked(m@).len() == before,
                changed ==> marked(m@).len() > before,
                marked(m@).len() <= nb,
            decreases nb - a,
        {
            if m[a] {
                let succs = &f.blocks[a].succs;
                let mut j: usize = 0;
                while j < succs.len()
                    invariant
                        f.wf(),
                        nb == f.nb(),
                        a < nb,
                        m@[a as int],
                        *succs == f.blocks@[a as int].succs,
                        j <= succs@.len(),
                        m@.len() == nb,
                        m@[0],
                        forall|b: int| 0 <= b < nb && m@[b] ==> reachable(*f, b),
                        !changed ==> forall|a2: int, b: int|
                            0 <= a2 < a && m@[a2] && f.succ(a2, b) ==> m@[b],
                        forall|k: int| 0 <= k < j ==> m@[succs@[k] as int],
                        !changed ==> marked(m@).len() == before,
                        changed ==> marked(m@).len() > before,
                        marked(m@).len() <= nb,
                    decreases succs@.len() - j,
                {
                    let s = succs[j] as usize;
                    assert(f.blocks@[a as int].succs@[j as int] < nb);
                    if !m[s] {
                        assert(f.succ(a as int, s as int));
                        assert(reachable(*f, s as int)) by {
                            assert forall|st: Set<int>| st.contains(0) && #[trigger] closed(
                                *f,
                                st,
                            ) implies st.contains(s as int) by {
                                assert(reachable(*f, a as int));
                            }
                        }
                        proof {
                            lemma_mark_one(m@, s as int);
                            lemma_marked_bound(m@.update(s as int, true));
                        }
                        m.set(s, true);
                        changed = true;
                    }
                    j += 1;
                }
                assert forall|b: int| f.succ(a as int, b) implies m@[b] by {
                    let k = choose|k: int| 0 <= k < succs@.len() && succs@[k] as int == b;
                }
            }
            a += 1;
        }
    }
    let ghost st = Set::new(|b: int| 0 <= b < nb && m@[b]);
    assert(closed(*f, st));
    assert forall|b: int| 0 <= b < nb implies m@[b] == reachable(*f, b) by {
        if reachable(*f, b) {
            assert(st.contains(0));
        }
    }
    m
}

} // verus!

verus! {

/// Edge `j` of block `t` goes back (to `t` or an earlier block `h`) and the
/// blocks `h..=t` that it spans hold `b`.
pub open spec fn back_edge_over(f: Function, t: int, j: int, b: int) -> bool {
    let h = f.blocks@[t].succs@[j] as int;
    h <= t && h <= b && b <= t
}

/// Back edges among the first `n` edges of block `t` that span block `b`.
pub open spec fn over_in(f: Function, t: int, b: int, n: int) -> nat
    decreases n,
{
    if n <= 0 {
        0
    } else {
        over_in(f, t, b, n - 1) + if back_edge_over(f, t, n - 1, b) {
            1nat
        } else {
            0nat
        }
    }
}

/// Back edges out of the first `n` blocks that span block `b`.
pub open spec fn over_upto(f: Function, b: int, n: int) -> nat
    decreases n,
{
    if n <= 0 {
        0
    } else {
        over_upto(f, b, n - 1) + over_in(f, n - 1, b, f.blocks@[n - 1].succs@.len() as int)
    }
}

/// The loop depth of block `b`: the number of back edges, in block order,
/// whose span holds it.
pub open spec fn loop_depth(f: Function, b: int) -> nat {
    over_upto(f, b, f.nb())
}

pub open spec fn min_nat(a: nat, b: nat) -> nat {
    if a <= b {
        a
    } else {
        b
    }
}

/// The loop depth of each block, saturated at `u32::MAX`.
pub fn loop_depths(f: &Function) -> (r: Vec<u32>)
    requires
        f.wf(),
    ensures
        r@.len() == f.nb(),
        forall|b: int| 0 <= b < f.nb() ==> r@[b] == min_nat(loop_depth(*f, b), u32::MAX as nat),
{
    let nb = f.blocks.len();
    let mut out: Vec<u32> = Vec::new();
    let mut b: usize = 0;
    while b < nb
        invariant
            f.wf(),
            nb == f.nb(),
            b <= nb,
            out@.len() == b,
            forall|b2: int|
                0 <= b2 < b ==> out@[b2] == min_nat(loop_depth(*f, b2), u32::MAX as nat),
        decreases nb - b,
    {
        let mut d: u32 = 0;
        let mut t: usize = 0;
        while t < nb
            invariant
                f.wf(),
                nb == f.nb(),
                b < nb,
                t <= nb,
                d == min_nat(over_upto(*f, b as int, t as int), u32::MAX as nat),
            decreases nb - t,
        {
            let succs = &f.blocks[t].succs;
            let mut j: usize = 0;
            while j < succs.len()
                invariant
                    f.wf(),
                    nb == f.nb(),
                    b < nb,
                    t < nb,
                    *succs == f.blocks@[t as int].succs,
                    j <= succs@.len(),
                    d == min_nat(
                        over_upto(*f, b as int, t as int) + over_in(*f, t as int, b as int, j as int),
                        u32::MAX as nat,
                    ),
                decreases succs@.len() - j,
            {
                let h = succs[j] as usize;
                if h <= t && h <= b && b <= t {
                    if d < u32::MAX {
                        d = d + 1;
                    }
                }
                j += 1;
            }
            t += 1;
        }
        out.push(d);
        b += 1;
    }
    out
}

} // verus!
