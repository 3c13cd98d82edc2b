//! Reference-type propagation: the virtual registers that hold references
//! are the declared ones and those that moves copy them into.

use vstd::prelude::*;
use crate::data::{Reg, VirtualReg};
use crate::func::Function;
use crate::marks::{lemma_mark_one, lemma_marked_bound, marked};

verus! {

/// Instruction `i` moves virtual register `src` into virtual register `dst`.
pub open spec fn moves_into(f: Function, i: int, dst: int, src: int) -> bool {
    f.insns@[i].move_regs matches Some(m) && m.0 is Virtual && m.1 is Virtual && m.0->Virtual_0.index
        == dst && m.1->Virtual_0.index == src
}

/// A set of virtual registers that holds the roots and everything that a
/// move copies a member into.
pub open spec fn ref_closed(f: Function, roots: Seq<VirtualReg>, s: Set<int>) -> bool {
    &&& forall|j: int| 0 <= j < roots.len() ==> s.contains((#[trigger] roots[j]).index as int)
    &&& forall|i: int, d: int, c: int|
        0 <= i < f.insns@.len() && #[trigger] moves_into(f, i, d, c) && s.contains(c) ==> s.contains(d)
}

/// Virtual register `v` holds references: it lies in every closed set.
pub open spec fn reffy(f: Function, roots: Seq<VirtualReg>, v: int) -> bool {
    forall|s: Set<int>| #[trigger] ref_closed(f, roots, s) ==> s.contains(v)
}

/// Marks the virtual registers that hold references, given the declared
/// roots; roots outside the function's registers mark nothing.
pub fn reftyped_vregs(f: &Function, roots: &Vec<VirtualReg>) -> (r: Vec<bool>)
    requires
        f.wf(),
    ensures
        r@.len() == f.vreg_classes@.len(),
        forall|v: int| 0 <= v < r@.len() ==> r@[v] == reffy(*f, roots@, v),
{
    let nv = f.vreg_classes.len();
    let mut m: Vec<bool> = Vec::new();
    let mut i: usize = 0;
    while i < nv
        invariant
            i <= nv,
            m@.len() == i,
            forall|h: int| 0 <= h < i ==> !m@[h],
        decreases nv - i,
    {
        m.push(false);
        i += 1;
    }
    let mut j: usize = 0;
    while j < roots.len()
        invariant
            nv == f.vreg_classes@.len(),
            m@.len() == nv,
            j <= roots@.len(),
            forall|j2: int| 0 <= j2 < j && (#[trigger] roots@[j2]).index < nv ==> m@[roots@[j2].index as int],
            forall|v: int| 0 <= v < nv && m@[v] ==> reffy(*f, roots@, v),
        decreases roots@.len() - j,
    {
        let v = roots[j].index as usize;
        if v < nv {
            assert(reffy(*f, roots@, v as int)) by {
                assert forall|s: Set<int>| #[trigger] ref_closed(*f, roots@, s) implies s.contains(
                    v as int,
                ) by {
                    assert(s.contains(roots@[j as int].index as int));
                }
            }
            m.set(v, true);
        }
        j += 1;
    }
    proof {
        lemma_marked_bound(m@);
    }
    let mut changed = true;
    while changed
        invariant
            f.wf(),
            nv == f.vreg_classes@.len(),
            m@.len() == nv,
            forall|j2: int| 0 <= j2 < roots@.len() && (#[trigger] roots@[j2]).index < nv ==> m@[roots@[j2].index as int],
            forall|v: int| 0 <= v < nv && m@[v] ==> reffy(*f, roots@, v),
            !changed ==> forall|i2: int, d: int, c: int|
                0 <= i2 < f.insns@.len() && #[trigger] moves_into(*f, i2, d, c) && 0 <= c < nv && m@[c]
                    ==> 0 <= d < nv && m@[d],
            marked(m@).len() <= nv,
        decreases nv - marked(m@).len() + if changed {
            1int
        } else {
            0int
        },
    {
        let ghost before = marked(m@).len();
        changed = false;
        let mut i: usize = 0;
        while i < f.insns.len()
            invariant
                f.wf(),
                nv == f.vreg_classes@.len(),
                m@.len() == nv,
                i <= f.insns@.len(),
                forall|j2: int| 0 <= j2 < roots@.len() && (#[trigger] roots@[j2]).index < nv ==> m@[roots@[j2].index as int],
                forall|v: int| 0 <= v < nv && m@[v] ==> reffy(*f, roots@, v),
                !changed ==> forall|i2: int, d: int, c: int|
                    0 <= i2 < i && #[trigger] moves_into(*f, i2, d, c) && 0 <= c < nv && m@[c]
                        ==> 0 <= d < nv && m@[d],
                !changed ==> marked(m@).len() == before,
                changed ==> marked(m@).len() > before,
                marked(m@).len() <= nv,
            decreases f.insns@.len() - i,
        {
            if let Some((Reg::Virtual(d), Reg::Virtual(c))) = f.insns[i].move_regs {
                let dv = d.index as usize;
                let cv = c.index as usize;
                assert(f.insns@[i as int].move_regs is Some);
                if cv < nv && dv < nv && m[cv] && !m[dv] {
                    assert(reffy(*f, roots@, dv as int)) by {
                        assert forall|s: Set<int>| #[trigger] ref_closed(*f, roots@, s) implies s.contains(dv as int) by {
                            assert(reffy(*f, roots@, cv as int));
                            assert(moves_into(*f, i as int, dv as int, cv as int));
                        }
                    }
                    proof {
                        lemma_mark_one(m@, dv as int);
                        lemma_marked_bound(m@.update(dv as int, true));
                    }
                    m.set(dv, true);
                    changed = true;
                }
            }
            i += 1;
        }
    }
    let ghost st = Set::new(|v: int| (0 <= v < nv && m@[v]) || v >= nv);
    assert(ref_closed(*f, roots@, st));
    m
}

} // verus!
