//! Identifiers, program points, register mentions and locations.

use vstd::prelude::*;

verus! {

/// Number of register classes known to the allocator.
pub const NUM_REG_CLASSES: usize = 5;

/// A hardware register: its dense index in the register universe and its class.
#[derive(Clone, Copy, Debug, PartialEq, Eq, Structural)]
pub struct RealReg {
    pub index: u32,
    pub class: u8,
}

/// A virtual register: its dense index and its class.
#[derive(Clone, Copy, Debug, PartialEq, Eq, Structural)]
pub struct VirtualReg {
    pub index: u32,
    pub class: u8,
}

/// A register mention in an instruction.
#[derive(Clone, Copy, Debug, PartialEq, Eq, Structural)]
pub enum Reg {
    Real(RealReg),
    Virtual(VirtualReg),
}

impl Reg {
    pub open spec fn class_spec(self) -> u8 {
        match self {
            Reg::Real(r) => r.class,
            Reg::Virtual(v) => v.class,
        }
    }

    pub fn is_real(&self) -> (r: bool)
        ensures
            r == (self is Real),
    {
        match self {
            Reg::Real(_) => true,
            Reg::Virtual(_) => false,
        }
    }

    pub fn class(&self) -> (r: u8)
        ensures
            r == self.class_spec(),
    {
        match self {
            Reg::Real(r) => r.class,
            Reg::Virtual(v) => v.class,
        }
    }
}

/// A stack slot that holds a spilled value.
#[derive(Clone, Copy, Debug, PartialEq, Eq, Structural)]
pub struct SpillSlot(pub u32);

/// The two points of an instruction: reads happen at `Use`, writes at `Def`.
#[derive(Clone, Copy, Debug, PartialEq, Eq, Structural)]
pub enum Point {
    Use,
    Def,
}

/// A program point: an instruction index and a side of it.
#[derive(Clone, Copy, Debug, PartialEq, Eq, Structural)]
pub struct InstPoint {
    pub iix: u32,
    pub pt: Point,
}

/// The position of a point on the line of all points: `Use` of an instruction
/// comes right before its `Def`, which comes right before the next `Use`.
pub open spec fn pos_of(iix: int, pt: Point) -> int {
    2 * iix + if pt is Def { 1int } else { 0int }
}

impl InstPoint {
    pub open spec fn pos(self) -> int {
        pos_of(self.iix as int, self.pt)
    }

    pub fn new_use(iix: u32) -> (r: InstPoint)
        ensures
            r.iix == iix,
            r.pt == Point::Use,
    {
        InstPoint { iix, pt: Point::Use }
    }

    pub fn new_def(iix: u32) -> (r: InstPoint)
        ensures
            r.iix == iix,
            r.pt == Point::Def,
    {
        InstPoint { iix, pt: Point::Def }
    }

    /// Strict order of program points.
    pub fn lt(&self, other: &InstPoint) -> (r: bool)
        ensures
            r == (self.pos() < other.pos()),
    {
        self.iix < other.iix || (self.iix == other.iix && self.pt == Point::Use && other.pt
            == Point::Def)
    }

    /// Order of program points.
    pub fn le(&self, other: &InstPoint) -> (r: bool)
        ensures
            r == (self.pos() <= other.pos()),
    {
        !other.lt(self)
    }
}

/// The set of ways an instruction mentions a register, as three flags:
/// bit 0 for a use, bit 1 for a modification, bit 2 for a definition.
#[derive(Clone, Copy, Debug, PartialEq, Eq, Hash, PartialOrd, Ord)]
pub struct Mention(pub u8);

impl Mention {
    pub open spec fn has_use(self) -> bool {
        self.0 & 1 != 0
    }

    pub open spec fn has_mod(self) -> bool {
        self.0 & 2 != 0
    }

    pub open spec fn has_def(self) -> bool {
        self.0 & 4 != 0
    }

    /// A mention that mentions something, and nothing beyond the three flags.
    pub open spec fn wf(self) -> bool {
        self.0 != 0 && self.0 < 8
    }

    pub fn new() -> (r: Mention)
        ensures
            !r.has_use() && !r.has_mod() && !r.has_def(),
            r.0 == 0,
    {
        assert(0u8 & 1 == 0 && 0u8 & 2 == 0 && 0u8 & 4 == 0) by (bit_vector);
        Mention(0)
    }

    pub fn add_use(&mut self)
        ensures
            final(self).has_use(),
            final(self).has_mod() == old(self).has_mod(),
            final(self).has_def() == old(self).has_def(),
            old(self).0 < 8 ==> final(self).wf(),
    {
        let x = self.0;
        assert((x | 1) & 1 != 0 && ((x | 1) & 2 != 0) == (x & 2 != 0) && ((x | 1) & 4 != 0) == (
        x & 4 != 0) && (x < 8 ==> (x | 1) < 8) && (x | 1) != 0) by (bit_vector);
        self.0 = x | 1;
    }

    pub fn add_mod(&mut self)
        ensures
            final(self).has_mod(),
            final(self).has_use() == old(self).has_use(),
            final(self).has_def() == old(self).has_def(),
            old(self).0 < 8 ==> final(self).wf(),
    {
        let x = self.0;
        assert((x | 2) & 2 != 0 && ((x | 2) & 1 != 0) == (x & 1 != 0) && ((x | 2) & 4 != 0) == (
        x & 4 != 0) && (x < 8 ==> (x | 2) < 8) && (x | 2) != 0) by (bit_vector);
        self.0 = x | 2;
    }

    pub fn add_def(&mut self)
        ensures
            final(self).has_def(),
            final(self).has_use() == old(self).has_use(),
            final(self).has_mod() == old(self).has_mod(),
            old(self).0 < 8 ==> final(self).wf(),
    {
        let x = self.0;
        assert((x | 4) & 4 != 0 && ((x | 4) & 1 != 0) == (x & 1 != 0) && ((x | 4) & 2 != 0) == (
        x & 2 != 0) && (x < 8 ==> (x | 4) < 8) && (x | 4) != 0) by (bit_vector);
        self.0 = x | 4;
    }

    pub fn is_use(&self) -> (r: bool)
        ensures
            r == self.has_use(),
    {
        (self.0 & 1) != 0
    }

    pub fn is_mod(&self) -> (r: bool)
        ensures
            r == self.has_mod(),
    {
        (self.0 & 2) != 0
    }

    pub fn is_def(&self) -> (r: bool)
        ensures
            r == self.has_def(),
    {
        (self.0 & 4) != 0
    }

    pub fn is_use_or_mod(&self) -> (r: bool)
        ensures
            r == (self.has_use() || self.has_mod()),
    {
        let x = self.0;
        assert(((x & 3) != 0) == ((x & 1) != 0 || (x & 2) != 0)) by (bit_vector);
        (x & 3) != 0
    }

    pub fn is_mod_or_def(&self) -> (r: bool)
        ensures
            r == (self.has_mod() || self.has_def()),
    {
        let x = self.0;
        assert(((x & 6) != 0) == ((x & 2) != 0 || (x & 4) != 0)) by (bit_vector);
        (x & 6) != 0
    }
}

/// Where a live interval lives once it has been allocated.
#[derive(Clone, Copy, Debug, PartialEq, Eq, Structural)]
pub enum Location {
    Unassigned,
    Reg(RealReg),
    Stack(SpillSlot),
}

impl Location {
    pub fn reg(&self) -> (r: Option<RealReg>)
        ensures
            r == (match *self {
                Location::Reg(x) => Some(x),
                _ => None,
            }),
    {
        match self {
            Location::Reg(reg) => Some(*reg),
            _ => None,
        }
    }

    pub fn spill(&self) -> (r: Option<SpillSlot>)
        ensures
            r == (match *self {
                Location::Stack(s) => Some(s),
                _ => None,
            }),
    {
        match self {
            Location::Stack(slot) => Some(*slot),
            _ => None,
        }
    }

    pub fn is_none(&self) -> (r: bool)
        ensures
            r == (*self is Unassigned),
    {
        match self {
            Location::Unassigned => true,
            _ => false,
        }
    }
}

} // verus!
