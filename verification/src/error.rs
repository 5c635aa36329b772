//! The errors of the analysis: internal errors, the constructs it does not
//! support, and the errors of coupling abstraction edges and of making
//! function shapes.
use vstd::prelude::*;
use crate::region::PcgRegion;

verus! {

/// An error that indicates a bug in the analysis.
#[derive(Debug, Clone, PartialEq, Eq)]
pub struct PcgInternalError(pub String);

impl PcgInternalError {
    /// The internal error with message `msg`.
    pub fn new(msg: String) -> (e: Self)
        ensures
            e.0 == msg,
    {
        PcgInternalError(msg)
    }
}

/// The inputs of a coupling could not be made.
#[derive(Clone, Copy, Debug, PartialEq, Eq, Structural)]
pub struct CoupleInputError;

/// A construct that the analysis does not support.
#[derive(Clone, Copy, Debug, PartialEq, Eq, Structural)]
pub enum PcgUnsupportedError {
    AssignBorrowToNonReferenceType,
    ExpansionOfAliasType,
    IndexingNonIndexableType,
    InlineAssembly,
    MaxNodesExceeded,
    Coupling(CoupleInputError),
    DerefUnsafePtr,
}

/// What went wrong.
#[derive(Debug, Clone, PartialEq, Eq)]
pub enum PcgErrorKind {
    Unsupported(PcgUnsupportedError),
    Internal(PcgInternalError),
}

/// An error of the analysis, with the context in which it arose.
#[derive(Debug, Clone, PartialEq, Eq)]
pub struct PcgError {
    pub kind: PcgErrorKind,
    pub context: Vec<String>,
}

impl PcgError {
    /// The error of kind `kind` in `context`.
    pub fn new(kind: PcgErrorKind, context: Vec<String>) -> (e: Self)
        ensures
            e.kind == kind,
            e.context == context,
    {
        PcgError { kind, context }
    }

    /// The internal error with message `msg`, without context.
    pub fn internal(msg: String) -> (e: Self)
        ensures
            e.kind == PcgErrorKind::Internal(PcgInternalError(msg)),
            e.context@.len() == 0,
    {
        PcgError { kind: PcgErrorKind::Internal(PcgInternalError::new(msg)), context: Vec::new() }
    }

    /// The error for an unsupported construct, without context.
    pub fn unsupported(err: PcgUnsupportedError) -> (e: Self)
        ensures
            e.kind == PcgErrorKind::Unsupported(err),
            e.context@.len() == 0,
    {
        PcgError { kind: PcgErrorKind::Unsupported(err), context: Vec::new() }
    }

    /// The error for an internal error, without context.
    pub fn from_internal(err: PcgInternalError) -> (e: Self)
        ensures
            e.kind == PcgErrorKind::Internal(err),
            e.context@.len() == 0,
    {
        PcgError { kind: PcgErrorKind::Internal(err), context: Vec::new() }
    }
}

/// Two regions whose outlives relation could not be decided.
#[derive(Clone, Copy, Debug, PartialEq, Eq, Structural)]
pub enum CheckOutlivesError {
    CannotCompareRegions { sup: PcgRegion, sub: PcgRegion },
}

/// Why the shape of a function could not be made.
#[derive(Clone, Copy, Debug, PartialEq, Eq, Structural)]
pub enum MakeFunctionShapeError {
    ContainsAliasType,
    UnsupportedRustVersion,
    NoFunctionData,
    CheckOutlivesError(CheckOutlivesError),
}

/// Why abstraction edges could not be coupled.
#[derive(Clone, Copy, Debug, PartialEq, Eq, Structural)]
pub enum CoupleAbstractionError {
    CoupleInput(CoupleInputError),
    MakeFunctionShape(MakeFunctionShapeError),
}

/// The kind of a coupling error.
#[derive(Clone, Copy, Debug, PartialEq, Eq, Structural, Hash)]
pub enum CouplingErrorType {
    CannotConstructShape,
}

/// A coupling that failed, with the data it was made from.
#[derive(Clone, Debug, PartialEq, Eq, Hash)]
pub struct CouplingError<SourceData> {
    pub source_data: SourceData,
    pub error_type: CouplingErrorType,
}

impl<SourceData> CouplingError<SourceData> {
    /// The coupling error of kind `error_type` on `source_data`.
    pub fn new(source_data: SourceData, error_type: CouplingErrorType) -> (e: Self)
        ensures
            e.source_data == source_data,
            e.error_type == error_type,
    {
        CouplingError { source_data, error_type }
    }

    /// The same error on the data that `f` makes of its data.
    pub fn map_source_data<T, F: FnOnce(SourceData) -> T>(self, f: F) -> (e: CouplingError<T>)
        requires
            f.requires((self.source_data,)),
        ensures
            f.ensures((self.source_data,), e.source_data),
            e.error_type == self.error_type,
    {
        CouplingError { source_data: f(self.source_data), error_type: self.error_type }
    }
}

} // verus!
