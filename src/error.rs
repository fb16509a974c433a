//! Errors of the race processor.
use vstd::prelude::*;

verus! {

/// Every way in which an invocation can fail. A failed invocation leaves the
/// account's bytes as they were.
#[derive(Clone, Copy, Debug, PartialEq, Eq, Structural)]
pub enum RaceError {
    /// The joining player's address is already on the roster.
    PlayerFoundError,
    /// The joining player's slot is already taken.
    SlotNotAvailableError,
    /// The instruction bytes name no known variant or do not decode.
    MalformedInstruction,
    /// No target account was supplied.
    MissingAccount,
    /// The target account is not owned by this program.
    UnauthorizedOwner,
    /// The account's bytes do not decode as a race record.
    RecordDecodeFailure,
    /// The updated record does not fit in the account's bytes.
    StorageCapacityExceeded,
}

impl RaceError {
    /// A short human-readable description of the error.
    pub fn message(&self) -> (r: String)
        ensures
            r@ == match self {
                RaceError::PlayerFoundError => "Player Already exists!"@,
                RaceError::SlotNotAvailableError => "Slot not available!"@,
                RaceError::MalformedInstruction => "Malformed instruction"@,
                RaceError::MissingAccount => "Missing account"@,
                RaceError::UnauthorizedOwner => "Account is not owned by the program"@,
                RaceError::RecordDecodeFailure => "Account data is not a race record"@,
                RaceError::StorageCapacityExceeded => "Account data is too small for the record"@,
            },
    {
        let s: &str = match self {
            RaceError::PlayerFoundError => "Player Already exists!",
            RaceError::SlotNotAvailableError => "Slot not available!",
            RaceError::MalformedInstruction => "Malformed instruction",
            RaceError::MissingAccount => "Missing account",
            RaceError::UnauthorizedOwner => "Account is not owned by the program",
            RaceError::RecordDecodeFailure => "Account data is not a race record",
            RaceError::StorageCapacityExceeded => "Account data is too small for the record",
        };
        s.to_owned()
    }
}

} // verus!
