//! Data-flow analysis: which registers each block reads before writing, which
//! it writes, and the registers live on entry to and on exit from each block.

use vstd::prelude::*;
use crate::data::Reg;
use crate::func::{Function, RealRegUniverse};
use crate::marks::{lemma_mark_one, lemma_marked_bound, marked};

verus! {

/// The list mentions a register that liveness follows, under key `k`.
pub open spec fn list_has_key(u: RealRegUniverse, s: Seq<Reg>, k: int) -> bool {
    exists|j: int| 0 <= j < s.len() && u.followed(s[j]) && #[trigger] u.key(s[j]) == k
}

/// Instruction `i` reads register `k` (a modification reads).
pub open spec fn reads(f: Function, u: RealRegUniverse, i: int, k: int) -> bool {
    list_has_key(u, f.insns@[i].uses@, k) || list_has_key(u, f.insns@[i].mods@, k)
}

/// Instruction `i` writes register `k` (a modification writes).
pub open spec fn writes(f: Function, u: RealRegUniverse, i: int, k: int) -> bool {
    list_has_key(u, f.insns@[i].mods@, k) || list_has_key(u, f.insns@[i].defs@, k)
}

/// One of the first `n` instructions of block `b` writes `k`.
pub open spec fn writes_upto(f: Function, u: RealRegUniverse, b: int, k: int, n: int) -> bool
    decreases n,
{
    n > 0 && (writes_upto(f, u, b, k, n - 1) || writes(f, u, f.blocks@[b].first + n - 1, k))
}

/// One of the first `n` instructions of block `b` reads `k` before any
/// instruction of the block has written it.
pub open spec fn reads_upto(f: Function, u: RealRegUniverse, b: int, k: int, n: int) -> bool
    decreases n,
{
    n > 0 && (reads_upto(f, u, b, k, n - 1) || (reads(f, u, f.blocks@[b].first + n - 1, k)
        && !writes_upto(f, u, b, k, n - 1)))
}

/// Block `b` reads `k` before writing it.
pub open spec fn upward_exposed(f: Function, u: RealRegUniverse, b: int, k: int) -> bool {
    reads_upto(f, u, b, k, f.blocks@[b].len as int)
}

/// Block `b` writes `k`.
pub open spec fn block_writes(f: Function, u: RealRegUniverse, b: int, k: int) -> bool {
    writes_upto(f, u, b, k, f.blocks@[b].len as int)
}

/// A set of blocks closed under the live-in equation of register `k`:
/// it holds each block that reads `k` first, and each block that does not
/// write `k` and flows into a block of the set.
pub open spec fn live_closed(f: Function, u: RealRegUniverse, k: int, s: Set<int>) -> bool {
    &&& forall|b: int| 0 <= b < f.nb() && #[trigger] upward_exposed(f, u, b, k) ==> s.contains(b)
    &&& forall|b: int, c: int|
        0 <= b < f.nb() && #[trigger] f.succ(b, c) && !block_writes(f, u, b, k) && s.contains(c)
            ==> s.contains(b)
}

/// Register `k` is live on entry to block `b`: `b` lies in the least set
/// closed under the live-in equation.
pub open spec fn live_in(f: Function, u: RealRegUniverse, k: int, b: int) -> bool {
    forall|s: Set<int>| #[trigger] live_closed(f, u, k, s) ==> s.contains(b)
}

/// Register `k` is live on exit from block `b`: live on entry to a successor,
/// or a register live out of the function and `b` ends in a return.
pub open spec fn live_out(f: Function, u: RealRegUniverse, k: int, b: int) -> bool {
    (exists|c: int| #[trigger] f.succ(b, c) && live_in(f, u, k, c)) || (f.insns@[f.blocks@[b].end()
        - 1].is_ret && exists|j: int|
        0 <= j < f.liveouts@.len() && #[trigger] f.liveouts@[j].index == k)
}

/// The registers of the function and the universe have dense keys that fit.
pub open spec fn keys_fit(f: Function, u: RealRegUniverse) -> bool {
    u.regs@.len() + f.vreg_classes@.len() <= usize::MAX
}

pub open spec fn nkeys(f: Function, u: RealRegUniverse) -> int {
    (u.regs@.len() + f.vreg_classes@.len()) as int
}

/// The dense key of a register.
pub fn key_of(f: &Function, u: &RealRegUniverse, r: Reg) -> (k: usize)
    requires
        keys_fit(*f, *u),
        f.vreg_ok(r),
        r is Real ==> r->Real_0.index < u.regs@.len(),
    ensures
        k == u.key(r),
        k < nkeys(*f, *u),
{
    match r {
        Reg::Real(x) => x.index as usize,
        Reg::Virtual(v) => u.regs.len() + v.index as usize,
    }
}

/// Whether liveness follows a register.
pub fn is_followed(u: &RealRegUniverse, r: Reg) -> (b: bool)
    ensures
        b == u.followed(r),
{
    match r {
        Reg::Real(x) => (x.index as usize) < u.allocable,
        Reg::Virtual(_) => true,
    }
}

/// Operands of the function are known to the universe and have keys.
pub open spec fn operands_known(f: Function, u: RealRegUniverse) -> bool {
    forall|i: int, j: int|
        0 <= i < f.insns@.len() && 0 <= j < crate::func::inst_regs(f.insns@[i]).len() && (
        #[trigger] crate::func::inst_regs(f.insns@[i])[j]) is Real ==> crate::func::inst_regs(
            f.insns@[i],
        )[j]->Real_0.index < u.regs@.len()
}

fn list_has(f: &Function, u: &RealRegUniverse, list: &Vec<Reg>, k: usize) -> (r: bool)
    requires
        keys_fit(*f, *u),
        u.allocable <= u.regs@.len(),
        forall|j: int| 0 <= j < list@.len() ==> f.vreg_ok(#[trigger] list@[j]),
    ensures
        r == list_has_key(*u, list@, k as int),
{
    let mut j: usize = 0;
    while j < list.len()
        invariant
            keys_fit(*f, *u),
            u.allocable <= u.regs@.len(),
            forall|j2: int| 0 <= j2 < list@.len() ==> f.vreg_ok(#[trigger] list@[j2]),
            j <= list@.len(),
            forall|j2: int|
                0 <= j2 < j ==> !(u.followed(list@[j2]) && #[trigger] u.key(list@[j2]) == k),
        decreases list@.len() - j,
    {
        let r = list[j];
        assert(f.vreg_ok(list@[j as int]));
        if is_followed(u, r) {
            if key_of(f, u, r) == k {
                return true;
            }
        }
        j += 1;
    }
    false
}

proof fn lemma_inst_lists_ok(f: Function, i: int)
    requires
        f.wf(),
        0 <= i < f.insns@.len(),
    ensures
        forall|j: int|
            0 <= j < f.insns@[i].uses@.len() ==> f.vreg_ok(#[trigger] f.insns@[i].uses@[j]),
        forall|j: int|
            0 <= j < f.insns@[i].mods@.len() ==> f.vreg_ok(#[trigger] f.insns@[i].mods@[j]),
        forall|j: int|
            0 <= j < f.insns@[i].defs@.len() ==> f.vreg_ok(#[trigger] f.insns@[i].defs@[j]),
{
    let all = crate::func::inst_regs(f.insns@[i]);
    let nu = f.insns@[i].uses@.len() as int;
    let nm = f.insns@[i].mods@.len() as int;
    assert forall|j: int| 0 <= j < f.insns@[i].uses@.len() implies f.vreg_ok(
        #[trigger] f.insns@[i].uses@[j],
    ) by {
        assert(all[j] == f.insns@[i].uses@[j]);
    }
    assert forall|j: int| 0 <= j < f.insns@[i].mods@.len() implies f.vreg_ok(
        #[trigger] f.insns@[i].mods@[j],
    ) by {
        assert(all[nu + j] == f.insns@[i].mods@[j]);
    }
    assert forall|j: int| 0 <= j < f.insns@[i].defs@.len() implies f.vreg_ok(
        #[trigger] f.insns@[i].defs@[j],
    ) by {
        assert(all[nu + nm + j] == f.insns@[i].defs@[j]);
    }
}

pub proof fn lemma_block_in_range(f: Function, b: int)
    requires
        f.wf(),
        0 <= b < f.nb(),
    ensures
        0 <= f.blocks@[b].first,
        f.blocks@[b].end() <= f.insns@.len(),
    decreases f.nb() - b,
{
    if b < f.nb() - 1 {
        lemma_block_in_range(f, b + 1);
        assert(f.blocks@[b + 1].first == f.blocks@[b].end());
        assert(f.blocks@[b + 1].len >= 1);
    }
}

/// Whether block `b` reads `k` before writing it, and whether it writes it.
pub fn block_summary(f: &Function, u: &RealRegUniverse, b: usize, k: usize) -> (r: (bool, bool))
    requires
        f.wf(),
        keys_fit(*f, *u),
        u.allocable <= u.regs@.len(),
        b < f.nb(),
    ensures
        r.0 == upward_exposed(*f, *u, b as int, k as int),
        r.1 == block_writes(*f, *u, b as int, k as int),
{
    proof {
        lemma_block_in_range(*f, b as int);
    }
    let first = f.blocks[b].first as usize;
    let len = f.blocks[b].len as usize;
    let mut ue = false;
    let mut wr = false;
    let mut n: usize = 0;
    while n < len
        invariant
            f.wf(),
            keys_fit(*f, *u),
            u.allocable <= u.regs@.len(),
            b < f.nb(),
            first == f.blocks@[b as int].first,
            len == f.blocks@[b as int].len,
            first + len <= f.insns@.len(),
            n <= len,
            ue == reads_upto(*f, *u, b as int, k as int, n as int),
            wr == writes_upto(*f, *u, b as int, k as int, n as int),
        decreases len - n,
    {
        let inst = &f.insns[first + n];
        proof {
            lemma_inst_lists_ok(*f, (first + n) as int);
        }
        let rd = list_has(f, u, &inst.uses, k) || list_has(f, u, &inst.mods, k);
        let wt = list_has(f, u, &inst.mods, k) || list_has(f, u, &inst.defs, k);
        ue = ue || (rd && !wr);
        wr = wr || wt;
        n += 1;
    }
    (ue, wr)
}

/// Whether some successor of block `b` is marked.
pub fn some_succ_marked(f: &Function, b: usize, m: &Vec<bool>) -> (r: bool)
    requires
        f.wf(),
        b < f.nb(),
        m@.len() == f.nb(),
    ensures
        r == exists|c: int| #[trigger] f.succ(b as int, c) && m@[c],
{
    let succs = &f.blocks[b].succs;
    let mut j: usize = 0;
    while j < succs.len()
        invariant
            f.wf(),
            b < f.nb(),
            m@.len() == f.nb(),
            *succs == f.blocks@[b as int].succs,
            j <= succs@.len(),
            forall|j2: int| 0 <= j2 < j ==> !m@[succs@[j2] as int],
        decreases succs@.len() - j,
    {
        assert(f.blocks@[b as int].succs@[j as int] < f.nb());
        if m[succs[j] as usize] {
            assert(f.succ(b as int, succs@[j as int] as int));
            return true;
        }
        j += 1;
    }
    assert forall|c: int| #[trigger] f.succ(b as int, c) implies !m@[c] by {
        let j2 = choose|j2: int| 0 <= j2 < succs@.len() && succs@[j2] as int == c;
    }
    false
}

/// The blocks on entry to which register `k` is live.
pub fn live_in_blocks(f: &Function, u: &RealRegUniverse, k: usize) -> (r: Vec<bool>)
    requires
        f.wf(),
        keys_fit(*f, *u),
        u.allocable <= u.regs@.len(),
    ensures
        r@.len() == f.nb(),
        forall|b: int| 0 <= b < f.nb() ==> r@[b] == live_in(*f, *u, k as int, b),
{
    let nb = f.blocks.len();
    let mut ue: Vec<bool> = Vec::new();
    let mut wr: Vec<bool> = Vec::new();
    let mut m: Vec<bool> = Vec::new();
    let mut i: usize = 0;
    while i < nb
        invariant
            f.wf(),
            keys_fit(*f, *u),
            u.allocable <= u.regs@.len(),
            nb == f.nb(),
            i <= nb,
            ue@.len() == i,
            wr@.len() == i,
            m@.len() == i,
            forall|h: int| 0 <= h < i ==> !m@[h],
            forall|h: int| 0 <= h < i ==> ue@[h] == upward_exposed(*f, *u, h, k as int),
            forall|h: int| 0 <= h < i ==> wr@[h] == block_writes(*f, *u, h, k as int),
        decreases nb - i,
    {
        let s = block_summary(f, u, i, k);
        ue.push(s.0);
        wr.push(s.1);
        m.push(false);
        i += 1;
    }
    proof {
        lemma_marked_bound(m@);
    }
    let mut changed = true;
    while changed
        invariant
            f.wf(),
            nb == f.nb(),
            m@.len() == nb,
            ue@.len() == nb,
            wr@.len() == nb,
            forall|h: int| 0 <= h < nb ==> ue@[h] == upward_exposed(*f, *u, h, k as int),
            forall|h: int| 0 <= h < nb ==> wr@[h] == block_writes(*f, *u, h, k as int),
            forall|b: int| 0 <= b < nb && m@[b] ==> live_in(*f, *u, k as int, b),
            !changed ==> forall|b: int|
                0 <= b < nb && !m@[b] ==> !ue@[b] && (wr@[b] || forall|c: int|
                    #[trigger] f.succ(b, c) ==> !m@[c]),
            marked(m@).len() <= nb,
        decreases nb - marked(m@).len() + if changed {
            1int
        } else {
            0int
        },
    {
        let ghost before = marked(m@).len();
        changed = false;
        let mut b: usize = 0;
        while b < nb
            invariant
                f.wf(),
                nb == f.nb(),
                b <= nb,
                m@.len() == nb,
                ue@.len() == nb,
                wr@.len() == nb,
                forall|h: int| 0 <= h < nb ==> ue@[h] == upward_exposed(*f, *u, h, k as int),
                forall|h: int| 0 <= h < nb ==> wr@[h] == block_writes(*f, *u, h, k as int),
                forall|b2: int| 0 <= b2 < nb && m@[b2] ==> live_in(*f, *u, k as int, b2),
                !changed ==> forall|b2: int|
                    0 <= b2 < b && !m@[b2] ==> !ue@[b2] && (wr@[b2] || forall|c: int|
                        #[trigger] f.succ(b2, c) ==> !m@[c]),
                !changed ==> marked(m@).len() == before,
                changed ==> marked(m@).len() > before,
                marked(m@).len() <= nb,
            decreases nb - b,
        {
            if !m[b] {
                let add = ue[b] || (!wr[b] && some_succ_marked(f, b, &m));
                if add {
                    assert(live_in(*f, *u, k as int, b as int)) by {
                        assert forall|s: Set<int>| #[trigger] live_closed(
                            *f,
                            *u,
                            k as int,
                            s,
                        ) implies s.contains(b as int) by {
                            if !ue@[b as int] {
                                let c = choose|c: int| #[trigger] f.succ(b as int, c) && m@[c];
                                assert(f.blocks@[b as int].succs@.len() >= 0);
                                let j = choose|j: int|
                                    0 <= j < f.blocks@[b as int].succs@.len()
                                        && #[trigger] f.blocks@[b as int].succs@[j] as int == c;
                                assert(0 <= c < nb);
                                assert(live_in(*f, *u, k as int, c));
                            }
                        }
                    }
                    proof {
                        lemma_mark_one(m@, b as int);
                        lemma_marked_bound(m@.update(b as int, true));
                    }
                    m.set(b, true);
                    changed = true;
                }
            }
            b += 1;
        }
    }
    let ghost st = Set::new(|b: int| 0 <= b < nb && m@[b]);
    assert(live_closed(*f, *u, k as int, st)) by {
        assert forall|b: int, c: int|
            0 <= b < f.nb() && #[trigger] f.succ(b, c) && !block_writes(*f, *u, b, k as int)
                && st.contains(c) implies st.contains(b) by {
            if !m@[b] {
                assert(!m@[c]);
            }
        }
    }
    assert forall|b: int| 0 <= b < nb implies m@[b] == live_in(*f, *u, k as int, b) by {
    }
    m
}

} // verus!
