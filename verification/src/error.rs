//! The ways in which a credential entry can fail to be usable.

use vstd::prelude::*;

verus! {

/// A fault in the stored data, as opposed to a password that does not match.
#[derive(Debug, Clone, Copy, PartialEq, Eq, Structural)]
pub enum HtpasswdError {
    /// A hash string opens with the APR1 marker but is too short to hold the
    /// salt and the separator that follow it.
    MalformedHash,
    /// A delegated primitive could not process the stored hash or the
    /// password, so the password was neither accepted nor refused.
    VerificationError,
}

impl HtpasswdError {
    /// A short description of the fault.
    pub fn message(&self) -> (text: &'static str)
        ensures
            text@ == match *self {
                HtpasswdError::MalformedHash => "malformed hash"@,
                HtpasswdError::VerificationError => "verification error"@,
            },
    {
        match self {
            HtpasswdError::MalformedHash => "malformed hash",
            HtpasswdError::VerificationError => "verification error",
        }
    }
}

} // verus!
