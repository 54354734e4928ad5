//! Schema layer for the media thumbnail endpoint of a federated chat protocol:
//! open enumerations, versioned path templates, content URIs and request assembly.
pub mod text;
pub mod error;
pub mod string_enum;
pub mod verification;
pub mod endpoint;
pub mod mxc;
pub mod query;
pub mod thumbnail;
