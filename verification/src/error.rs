//! Error values shared by the map catalog and the server core.

use vstd::prelude::*;

verus! {

/// What went wrong. Every failure the library reports carries one of
/// these kinds.
#[derive(Clone, Debug)]
pub enum ErrorKind {
    /// A required field is missing (or has the wrong shape); the payload
    /// names the field.
    FieldNotExists(String),
    /// A map file format other than JSON was requested.
    FormatNotSupported,
    /// A version string could not be parsed as a semantic version.
    VersionNotParsed,
}

/// An error of the library, wrapping an [`ErrorKind`].
#[derive(Clone, Debug)]
pub struct Error {
    kind: ErrorKind,
}

impl Error {
    /// Wraps a kind in an [`Error`].
    pub fn new(kind: ErrorKind) -> (r: Error)
        ensures
            r.spec_kind() == kind,
    {
        Error { kind }
    }

    /// Error for a missing field named `field`.
    pub fn new_field_not_exists(field: String) -> (r: Error)
        ensures
            r.spec_kind() matches ErrorKind::FieldNotExists(f) && f@ == field@,
    {
        Error { kind: ErrorKind::FieldNotExists(field) }
    }

    /// The kind of this error.
    pub fn kind(&self) -> (r: &ErrorKind)
        ensures
            r == self.spec_kind(),
    {
        &self.kind
    }

    /// Spec view of the kind.
    pub closed spec fn spec_kind(&self) -> ErrorKind {
        self.kind
    }
}

} // verus!
