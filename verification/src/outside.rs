//! Error types of the standard library and of serde_json, carried but never looked into.
use vstd::prelude::*;

verus! {

/// `std::io::Error`: what went wrong with the file system.
#[verifier::external_type_specification]
#[verifier::external_body]
pub struct ExIoError(std::io::Error);

/// `serde_json::Error`: what went wrong with the journal's text.
#[verifier::external_type_specification]
#[verifier::external_body]
pub struct ExJsonError(serde_json::Error);

} // verus!
