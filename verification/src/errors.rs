//! The error taxonomy of the pipeline.
//!
//! `ReferenceError` covers pointer resolution, `TypeError` covers native
//! type inference, and `ExtractionError` covers the per-operation checks of
//! the entrypoint extractor. Errors raised while processing a single
//! parameter or response are recorded as diagnostics and the item is
//! dropped; a missing operation id skips the whole operation; nothing in
//! this crate aborts a whole extraction run.

use vstd::prelude::*;

verus! {

/// Failure of resolving a `$ref` pointer against a registry.
#[derive(Debug)]
pub enum ReferenceError {
    /// The lookup key (the trailing name segment of the pointer) is not
    /// registered. Carries the key.
    NotFound(String),
    /// The pointer has no `/` separator before the final name segment.
    InvalidPointer,
    /// The registered target is itself a reference; a chain is never
    /// followed further.
    RecursiveReference,
    /// A reference was used where no registry exists.
    NotConcrete,
}

/// Ghost model of a `ReferenceError`: the carried key is reduced to its
/// character sequence.
pub enum RefErrorModel {
    NotFound(Seq<char>),
    InvalidPointer,
    RecursiveReference,
    NotConcrete,
}

impl View for ReferenceError {
    type V = RefErrorModel;

    open spec fn view(&self) -> RefErrorModel {
        match self {
            ReferenceError::NotFound(k) => RefErrorModel::NotFound(k@),
            ReferenceError::InvalidPointer => RefErrorModel::InvalidPointer,
            ReferenceError::RecursiveReference => RefErrorModel::RecursiveReference,
            ReferenceError::NotConcrete => RefErrorModel::NotConcrete,
        }
    }
}

/// Failure of inferring a native type from a schema.
#[derive(Clone, Copy, Debug, PartialEq, Eq, Structural)]
pub enum TypeError {
    /// The schema carries more than one type tag.
    AmbiguousTypeArray,
    /// An array schema carries no item schemas.
    MissingItems,
    /// `null` is not a standalone representable type.
    NullTypeUnsupported,
    /// The schema's format does not agree with its declared type.
    FormatTypeMismatch,
    /// The schema carries a format but no type tag to check it against.
    NoTypeSpecified,
}

/// Failure of extracting an entrypoint from one operation, or one of its
/// responses.
#[derive(Clone, Copy, Debug, PartialEq, Eq, Structural)]
pub enum ExtractionError {
    /// The operation carries no `operationId`; without one the operation
    /// has no identity and is skipped as a whole.
    MissingOperationId,
    /// The response declares a content table but the table holds no entry
    /// to select a (content type, media) pair from.
    EmptyContentMap,
    /// The selected media entry carries no schema to infer a type from.
    MissingMediaSchema,
}

/// Any failure recorded while processing one parameter, response or
/// operation.
#[derive(Debug)]
pub enum Error {
    Reference(ReferenceError),
    Type(TypeError),
    Extraction(ExtractionError),
}

/// Ghost model of an `Error`.
pub enum ErrorModel {
    Reference(RefErrorModel),
    Type(TypeError),
    Extraction(ExtractionError),
}

impl View for Error {
    type V = ErrorModel;

    open spec fn view(&self) -> ErrorModel {
        match self {
            Error::Reference(e) => ErrorModel::Reference(e@),
            Error::Type(e) => ErrorModel::Type(*e),
            Error::Extraction(e) => ErrorModel::Extraction(*e),
        }
    }
}

} // verus!
