//! Failures reported by endpoint resolution and request assembly.
use vstd::prelude::*;
use crate::endpoint::MatrixVersion;

verus! {

/// Why an operation of this crate did not produce a value.
#[derive(Clone, Debug)]
pub enum ApiError {
    /// The requested protocol version is older than every version the
    /// endpoint declares.
    UnsupportedVersion { requested: MatrixVersion, minimum: MatrixVersion },
    /// The declared fields do not match the path template's placeholders, or
    /// the version history is empty or out of order.
    SchemaMismatch,
    /// A query or header value could not be read; names the field.
    FieldDecode { field: String },
    /// A content URI without a well-formed server name or media id.
    MalformedUri,
}

} // verus!
