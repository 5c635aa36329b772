//! The parts of a MIR body that the analysis reads, as plain values: basic
//! blocks, locations, locals, projection elements, mutability, borrow kinds
//! and region variables.
use vstd::prelude::*;

verus! {

/// A basic block of a MIR body, by index.
#[derive(Clone, Copy, Debug, PartialEq, Eq, Structural, Hash, PartialOrd, Ord)]
pub struct BasicBlock(pub usize);

/// The first block of every body.
pub fn start_block() -> (b: BasicBlock)
    ensures
        b.0 == 0,
{
    BasicBlock(0)
}

impl BasicBlock {
    /// The block with the given index.
    pub fn new(index: usize) -> (b: BasicBlock)
        ensures
            b.0 == index,
    {
        BasicBlock(index)
    }

    /// The index of the block.
    pub fn index(self) -> (i: usize)
        ensures
            i == self.0,
    {
        self.0
    }
}

/// A program point: a statement (or the terminator) of a block.
#[derive(Clone, Copy, Debug, PartialEq, Eq, Structural, Hash, PartialOrd, Ord)]
pub struct Location {
    pub block: BasicBlock,
    pub statement_index: usize,
}

/// A local variable of a MIR body, by index. Local 0 is the return place and
/// the arguments follow it.
#[derive(Clone, Copy, Debug, PartialEq, Eq, Structural, Hash, PartialOrd, Ord)]
pub struct Local(pub usize);

/// The local that holds a function's result.
pub fn return_place() -> (l: Local)
    ensures
        l.0 == 0,
{
    Local(0)
}

impl Local {
    /// The local with the given index.
    pub fn from_usize(index: usize) -> (l: Local)
        ensures
            l.0 == index,
    {
        Local(index)
    }

    /// The index of the local.
    pub fn index(self) -> (i: usize)
        ensures
            i == self.0,
    {
        self.0
    }
}

/// A projection from a place to a part of it.
#[derive(Clone, Copy, Debug, PartialEq, Eq, Structural, Hash)]
pub enum PlaceElem {
    Deref,
    Field(usize),
    Index(Local),
    ConstantIndex { offset: u64, min_length: u64, from_end: bool },
    Subslice { from: u64, to: u64, from_end: bool },
    Downcast(usize),
    OpaqueCast,
    Subtype,
}

/// Whether a reference or borrow permits mutation.
#[derive(Clone, Copy, Debug, PartialEq, Eq, Structural, Hash)]
pub enum Mutability {
    Not,
    Mut,
}

impl Mutability {
    /// Whether this is `Mut`.
    pub fn is_mut(self) -> (b: bool)
        ensures
            b == (self == Mutability::Mut),
    {
        match self {
            Mutability::Mut => true,
            Mutability::Not => false,
        }
    }

    /// Whether this is `Not`.
    pub fn is_not(self) -> (b: bool)
        ensures
            b == (self == Mutability::Not),
    {
        match self {
            Mutability::Mut => false,
            Mutability::Not => true,
        }
    }
}

/// The kind of a borrow in the MIR.
#[derive(Clone, Copy, Debug, PartialEq, Eq, Structural, Hash)]
pub enum BorrowKind {
    Shared,
    Fake,
    Mut { two_phase: bool },
}

/// The mutability that a borrow of this kind grants.
pub open spec fn borrow_kind_mutability(k: BorrowKind) -> Mutability {
    match k {
        BorrowKind::Mut { .. } => Mutability::Mut,
        _ => Mutability::Not,
    }
}

impl BorrowKind {
    /// The mutability that a borrow of this kind grants.
    pub fn mutability(self) -> (m: Mutability)
        ensures
            m == borrow_kind_mutability(self),
    {
        match self {
            BorrowKind::Mut { .. } => Mutability::Mut,
            _ => Mutability::Not,
        }
    }

    /// Whether this is a two-phase mutable borrow.
    pub fn is_two_phase_borrow(self) -> (b: bool)
        ensures
            b == (self matches BorrowKind::Mut { two_phase: true }),
    {
        match self {
            BorrowKind::Mut { two_phase } => two_phase,
            _ => false,
        }
    }
}

/// A region variable of the borrow checker.
#[derive(Clone, Copy, Debug, PartialEq, Eq, Structural, Hash, PartialOrd, Ord)]
pub struct RegionVid(pub u32);

/// A program point at which a place or lifetime projection was labelled.
#[derive(Clone, Copy, Debug, PartialEq, Eq, Structural, Hash)]
pub enum SnapshotLocation {
    /// Before the statement at the location.
    Before(Location),
    /// After the statement at the location.
    After(Location),
    /// At the head of the loop with this head block.
    Loop(BasicBlock),
    /// Just before the join at this block.
    BeforeJoin(BasicBlock),
}

} // verus!
