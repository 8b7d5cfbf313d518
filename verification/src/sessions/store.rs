//! Typed errors for session snapshot persistence.

use vstd::prelude::*;

verus! {

/// std's I/O error, held opaquely.
#[verifier::external_type_specification]
#[verifier::external_body]
pub struct ExIoError(std::io::Error);

#[derive(Debug)]
pub enum StoreError {
    Encrypt,
    Decrypt,
    Integrity,
    RecoveryBlocked,
    Io(std::io::Error),
    Session(String),
}

} // verus!
