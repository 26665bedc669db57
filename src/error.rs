use vstd::prelude::*;

verus! {

/// The error payload of the build pipeline.
pub enum PutkiError {
    /// The loader knows no record under `path`.
    LoadMissing { path: String },
    /// The record under `path` carries the tag `found` where `expected` was asked for.
    /// Reported as a diagnostic; the record is still parsed as the expected kind.
    TypeMismatch { path: String, expected: String, found: String },
    /// A builder, described by `builder`, failed on the object under `path`.
    BuilderFailed { path: String, builder: String, message: String },
    /// A broken internal invariant, such as a temporary pointer without a path.
    InternalInvariant { message: String },
}

impl PutkiError {
    /// True for the error kind that reports a missing record.
    pub fn is_load_missing(&self) -> (r: bool)
        ensures
            r == (self is LoadMissing),
    {
        match self {
            PutkiError::LoadMissing { .. } => true,
            _ => false,
        }
    }

    /// True for the diagnostic that reports a tag mismatch.
    pub fn is_type_mismatch(&self) -> (r: bool)
        ensures
            r == (self is TypeMismatch),
    {
        match self {
            PutkiError::TypeMismatch { .. } => true,
            _ => false,
        }
    }

    /// True for the error kind that reports a failed builder.
    pub fn is_builder_failed(&self) -> (r: bool)
        ensures
            r == (self is BuilderFailed),
    {
        match self {
            PutkiError::BuilderFailed { .. } => true,
            _ => false,
        }
    }
}

} // verus!
