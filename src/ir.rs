//! Value labels of the intermediate representation: debug names attached to
//! values, kept through register allocation.

use vstd::prelude::*;

verus! {

/// A position in the source program.
#[derive(Clone, Copy, Debug, PartialEq, Eq, Structural)]
pub struct SourceLoc(pub u32);

/// A value of the intermediate representation.
#[derive(Clone, Copy, Debug, PartialEq, Eq, Structural)]
pub struct Value(pub u32);

/// A label that marks a value.
#[derive(Clone, Copy, Debug, PartialEq, Eq, Hash, Structural)]
pub struct ValueLabel(pub u32);

impl ValueLabel {
    pub fn new(index: usize) -> (r: ValueLabel)
        requires
            index < u32::MAX,
        ensures
            r.0 == index,
    {
        ValueLabel(index as u32)
    }

    pub fn index(&self) -> (r: usize)
        ensures
            r == self.0,
    {
        self.0 as usize
    }
}

/// A label of a value, in effect from a source location on.
#[derive(Clone, Copy, Debug)]
pub struct ValueLabelStart {
    pub from: SourceLoc,
    pub label: ValueLabel,
}

/// What a value carries: the labels that start at it, or an alias of
/// another value.
#[derive(Clone, Debug)]
pub enum ValueLabelAssignments {
    Starts(Vec<ValueLabelStart>),
    Alias { from: SourceLoc, value: Value },
}

} // verus!
