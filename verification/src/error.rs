//! The reasons for which an operation is refused.

use vstd::prelude::*;

verus! {

/// The six kinds of failure that a caller can see.
#[derive(Clone, Copy, Debug, PartialEq, Eq, Structural)]
pub enum ErrorKind {
    /// Malformed bounds, a malformed value, or a registration that exists already.
    InvalidConfiguration,
    /// A bounded collection would hold more than its capacity.
    CapacityExceeded,
    /// A bad signature, or an attestation that is invalid or missing.
    AuthorizationFailure,
    /// A snapshot number that is not the next one, or a nonce that does not match.
    SequenceViolation,
    /// An account, trading pair, asset or enclave that is not registered.
    NotFound,
    /// The operation is not valid in the enclave's current state.
    StateConflict,
}

/// Why an operation was refused. A refused operation changes nothing.
#[derive(Clone, Copy, Debug, PartialEq, Eq, Structural)]
pub enum Error {
    /// The main account is registered already.
    AlreadyExists,
    /// Some minimum of a trading pair is above its maximum.
    InvalidBounds,
    /// The trading pair is open already.
    DuplicatePair,
    /// The amount is zero.
    InvalidAmount,
    /// The bytes are not the encoding of a value.
    Malformed,
    /// A bounded collection is full, or a balance would pass the largest amount.
    CapacityExceeded,
    /// The attestation report has the wrong size, or was not verified.
    AttestationInvalid,
    /// The signature does not verify against the registered key.
    BadSignature,
    /// The snapshot number is not the current number plus one.
    SequenceViolation,
    /// The nonce is below the account's nonce.
    StaleNonce,
    /// The nonce is above the account's nonce.
    OutOfOrder,
    /// The account, trading pair or asset is not registered.
    NotFound,
    /// The enclave is not in a state that admits the operation.
    StateConflict,
}

impl Error {
    /// The kind of failure that this reason belongs to.
    pub open spec fn kind_of(self) -> ErrorKind {
        match self {
            Error::AlreadyExists | Error::InvalidBounds | Error::DuplicatePair
            | Error::InvalidAmount | Error::Malformed => ErrorKind::InvalidConfiguration,
            Error::CapacityExceeded => ErrorKind::CapacityExceeded,
            Error::AttestationInvalid | Error::BadSignature => ErrorKind::AuthorizationFailure,
            Error::SequenceViolation | Error::StaleNonce | Error::OutOfOrder =>
                ErrorKind::SequenceViolation,
            Error::NotFound => ErrorKind::NotFound,
            Error::StateConflict => ErrorKind::StateConflict,
        }
    }

    /// Computes `self.kind_of()`.
    pub fn kind(&self) -> (kind: ErrorKind)
        ensures
            kind == self.kind_of(),
    {
        match self {
            Error::AlreadyExists | Error::InvalidBounds | Error::DuplicatePair
            | Error::InvalidAmount | Error::Malformed => ErrorKind::InvalidConfiguration,
            Error::CapacityExceeded => ErrorKind::CapacityExceeded,
            Error::AttestationInvalid | Error::BadSignature => ErrorKind::AuthorizationFailure,
            Error::SequenceViolation | Error::StaleNonce | Error::OutOfOrder =>
                ErrorKind::SequenceViolation,
            Error::NotFound => ErrorKind::NotFound,
            Error::StateConflict => ErrorKind::StateConflict,
        }
    }
}

} // verus!
