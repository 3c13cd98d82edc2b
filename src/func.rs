//! The function being allocated, as blocks of instructions with their register
//! mentions, and the universe of real registers it is allocated against.

use vstd::prelude::*;
use crate::data::{RealReg, Reg, NUM_REG_CLASSES};

verus! {

/// One basic block: the contiguous instructions `[first, first + len)` and
/// the blocks control may pass to after it.
pub struct Block {
    pub first: u32,
    pub len: u32,
    pub succs: Vec<u32>,
}

/// The register operands of one instruction, and what the rewrite needs to
/// know of it.
pub struct Inst {
    pub uses: Vec<Reg>,
    pub mods: Vec<Reg>,
    pub defs: Vec<Reg>,
    /// The instruction returns from the function.
    pub is_ret: bool,
    /// The registers it writes count as clobbered.
    pub in_clobbers: bool,
    /// For a register-to-register move: its destination and its source.
    pub move_regs: Option<(Reg, Reg)>,
}

/// A function: its blocks (the entry first), its instructions, the real
/// registers live on entry and on return, and the class of each virtual
/// register.
pub struct Function {
    pub blocks: Vec<Block>,
    pub insns: Vec<Inst>,
    pub liveins: Vec<RealReg>,
    pub liveouts: Vec<RealReg>,
    pub vreg_classes: Vec<u8>,
}

/// The registers of one class that the allocator may hand out: the universe
/// entries `first..=last`, and the one kept aside for moves and reloads.
#[derive(Clone, Copy, Debug)]
pub struct RegClassInfo {
    pub first: usize,
    pub last: usize,
    pub suggested_scratch: Option<usize>,
}

/// All real registers. Entries below `allocable` may be allocated; the others
/// are reserved.
pub struct RealRegUniverse {
    pub regs: Vec<RealReg>,
    pub allocable: usize,
    pub allocable_by_class: Vec<Option<RegClassInfo>>,
}

pub open spec fn inst_regs(i: Inst) -> Seq<Reg> {
    i.uses@ + i.mods@ + i.defs@
}

impl Block {
    pub open spec fn end(self) -> int {
        self.first + self.len
    }
}

impl Function {
    pub open spec fn nb(self) -> int {
        self.blocks@.len() as int
    }

    /// Block `s` is among the successors of block `b`.
    pub open spec fn succ(self, b: int, s: int) -> bool {
        exists|j: int|
            0 <= j < self.blocks@[b].succs@.len() && #[trigger] self.blocks@[b].succs@[j] as int == s
    }

    pub open spec fn vreg_ok(self, r: Reg) -> bool {
        r is Virtual ==> {
            let v = r->Virtual_0;
            v.index < self.vreg_classes@.len() && self.vreg_classes@[v.index as int] == v.class
        }
    }

    /// Blocks cover the instructions in order, each at least one long;
    /// successors are blocks, listed once; virtual registers have the class
    /// the function gives them.
    pub open spec fn wf(self) -> bool {
        let nb = self.nb();
        &&& nb >= 1
        &&& self.insns@.len() <= u32::MAX
        &&& self.vreg_classes@.len() <= u32::MAX
        &&& self.blocks@[0].first == 0
        &&& self.blocks@[nb - 1].end() == self.insns@.len()
        &&& forall|b: int| 0 <= b < nb ==> #[trigger] self.blocks@[b].len >= 1
        &&& forall|b: int|
            0 <= b < nb - 1 ==> #[trigger] self.blocks@[b + 1].first == self.blocks@[b].end()
        &&& forall|b: int, j: int|
            0 <= b < nb && 0 <= j < self.blocks@[b].succs@.len() ==> #[trigger] self.blocks@[b].succs@[j]
                < nb
        &&& forall|b: int| 0 <= b < nb ==> #[trigger] self.blocks@[b].succs@.no_duplicates()
        &&& forall|i: int|
            0 <= i < self.insns@.len() ==> #[trigger] inst_regs(self.insns@[i]).len() <= u32::MAX
        &&& forall|i: int|
            0 <= i < self.insns@.len() && (#[trigger] self.insns@[i]).move_regs is Some ==> self.vreg_ok(
                self.insns@[i].move_regs->Some_0.0,
            ) && self.vreg_ok(self.insns@[i].move_regs->Some_0.1)
        &&& forall|i: int, k: int|
            0 <= i < self.insns@.len() && 0 <= k < inst_regs(self.insns@[i]).len() ==> self.vreg_ok(
                #[trigger] inst_regs(self.insns@[i])[k],
            )
    }
}

impl RealRegUniverse {
    pub open spec fn is_scratch(self, ix: int) -> bool {
        exists|c: int|
            0 <= c < NUM_REG_CLASSES && (#[trigger] self.allocable_by_class@[c]) is Some
                && self.allocable_by_class@[c]->Some_0.suggested_scratch == Some(ix as usize)
    }

    /// Register `i` sits at index `i`; each class's allocatable registers are
    /// a run of that class below `allocable`, its scratch among them.
    pub open spec fn wf(self) -> bool {
        &&& self.allocable <= self.regs@.len()
        &&& self.allocable_by_class@.len() == NUM_REG_CLASSES
        &&& forall|i: int| 0 <= i < self.regs@.len() ==> #[trigger] self.regs@[i].index == i
        &&& forall|i: int|
            0 <= i < self.regs@.len() ==> (#[trigger] self.regs@[i]).class < NUM_REG_CLASSES
        &&& forall|c: int|
            0 <= c < NUM_REG_CLASSES && (#[trigger] self.allocable_by_class@[c]) is Some ==> {
                let info = self.allocable_by_class@[c]->Some_0;
                &&& info.first <= info.last < self.allocable
                &&& forall|i: int| info.first <= i <= info.last ==> self.regs@[i].class == c
                &&& info.suggested_scratch is Some ==> info.first
                    <= info.suggested_scratch->Some_0 <= info.last
            }
    }

    /// A real register that the function may mention: one of the universe,
    /// and not a scratch register.
    pub open spec fn legal(self, r: RealReg) -> bool {
        &&& r.index < self.regs@.len()
        &&& self.regs@[r.index as int] == r
        &&& !self.is_scratch(r.index as int)
    }

    /// Liveness tracks virtual registers and allocatable real ones.
    pub open spec fn followed(self, r: Reg) -> bool {
        match r {
            Reg::Real(x) => x.index < self.allocable,
            Reg::Virtual(_) => true,
        }
    }

    /// Dense index of a register: real ones first, then virtual ones.
    pub open spec fn key(self, r: Reg) -> int {
        match r {
            Reg::Real(x) => x.index as int,
            Reg::Virtual(v) => self.regs@.len() + v.index,
        }
    }

    pub fn is_scratch_index(&self, ix: usize) -> (r: bool)
        requires
            self.wf(),
        ensures
            r == self.is_scratch(ix as int),
    {
        let mut c: usize = 0;
        while c < NUM_REG_CLASSES
            invariant
                self.wf(),
                c <= NUM_REG_CLASSES,
                forall|d: int|
                    0 <= d < c ==> !((#[trigger] self.allocable_by_class@[d]) is Some
                        && self.allocable_by_class@[d]->Some_0.suggested_scratch == Some(ix)),
            decreases NUM_REG_CLASSES - c,
        {
            if let Some(info) = &self.allocable_by_class[c] {
                if let Some(s) = info.suggested_scratch {
                    if s == ix {
                        return true;
                    }
                }
            }
            c += 1;
        }
        false
    }

    pub fn is_legal(&self, r: RealReg) -> (b: bool)
        requires
            self.wf(),
        ensures
            b == self.legal(r),
    {
        let ix = r.index as usize;
        if ix >= self.regs.len() {
            return false;
        }
        if self.regs[ix] != r {
            return false;
        }
        !self.is_scratch_index(ix)
    }
}

/// Every real register mentioned by the function is legal.
pub open spec fn all_legal(f: Function, u: RealRegUniverse) -> bool {
    forall|i: int, k: int|
        0 <= i < f.insns@.len() && 0 <= k < inst_regs(f.insns@[i]).len() && (#[trigger] inst_regs(
            f.insns@[i],
        )[k]) is Real ==> u.legal(inst_regs(f.insns@[i])[k]->Real_0)
}

/// The number of register operands of an instruction.
pub fn inst_reg_count(inst: &Inst) -> (n: usize)
    requires
        inst_regs(*inst).len() <= u32::MAX,
    ensures
        n == inst_regs(*inst).len(),
{
    inst.uses.len() + inst.mods.len() + inst.defs.len()
}

/// Operand `k` of an instruction: its uses, then its modifications, then its
/// definitions.
pub fn inst_reg_at(inst: &Inst, k: usize) -> (r: Reg)
    requires
        k < inst_regs(*inst).len(),
    ensures
        r == inst_regs(*inst)[k as int],
{
    let nu = inst.uses.len();
    let nm = inst.mods.len();
    if k < nu {
        inst.uses[k]
    } else if k - nu < nm {
        inst.mods[k - nu]
    } else {
        inst.defs[k - nu - nm]
    }
}

/// Every real register operand before operand `k` of instruction `i`, in
/// instruction and operand order, is legal.
pub open spec fn legal_before(f: Function, u: RealRegUniverse, i: int, k: int) -> bool {
    forall|i2: int, k2: int|
        0 <= i2 < f.insns@.len() && 0 <= k2 < inst_regs(f.insns@[i2]).len() && (i2 < i || (i2 == i
            && k2 < k)) && (#[trigger] inst_regs(f.insns@[i2])[k2]) is Real ==> u.legal(
            inst_regs(f.insns@[i2])[k2]->Real_0,
        )
}

/// Finds the first real register mention that the universe does not allow,
/// if any.
pub fn find_illegal_real_reg(f: &Function, u: &RealRegUniverse) -> (r: Option<RealReg>)
    requires
        u.wf(),
        f.wf(),
    ensures
        r is None <==> all_legal(*f, *u),
        r matches Some(x) ==> !u.legal(x) && exists|i: int, k: int|
            0 <= i < f.insns@.len() && 0 <= k < inst_regs(f.insns@[i]).len() && inst_regs(
                f.insns@[i],
            )[k] == Reg::Real(x) && legal_before(*f, *u, i, k),
{
    let mut i: usize = 0;
    while i < f.insns.len()
        invariant
            u.wf(),
            f.wf(),
            i <= f.insns@.len(),
            forall|i2: int, k: int|
                0 <= i2 < i && 0 <= k < inst_regs(f.insns@[i2]).len() && (#[trigger] inst_regs(
                    f.insns@[i2],
                )[k]) is Real ==> u.legal(inst_regs(f.insns@[i2])[k]->Real_0),
        decreases f.insns@.len() - i,
    {
        let inst = &f.insns[i];
        let n = inst_reg_count(inst);
        let mut k: usize = 0;
        while k < n
            invariant
                u.wf(),
                i < f.insns@.len(),
                *inst == f.insns@[i as int],
                forall|i2: int, k2: int|
                    0 <= i2 < i && 0 <= k2 < inst_regs(f.insns@[i2]).len() && (#[trigger] inst_regs(
                        f.insns@[i2],
                    )[k2]) is Real ==> u.legal(inst_regs(f.insns@[i2])[k2]->Real_0),
                n == inst_regs(*inst).len(),
                k <= n,
                forall|k2: int|
                    0 <= k2 < k && (#[trigger] inst_regs(*inst)[k2]) is Real ==> u.legal(
                        inst_regs(*inst)[k2]->Real_0,
                    ),
            decreases n - k,
        {
            if let Reg::Real(x) = inst_reg_at(inst, k) {
                if !u.is_legal(x) {
                    assert(legal_before(*f, *u, i as int, k as int));
                    return Some(x);
                }
            }
            k += 1;
        }
        i += 1;
    }
    None
}

} // verus!
