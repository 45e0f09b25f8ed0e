//! Error kinds returned by the engine. Every failure is scoped to the one
//! requested operation; validation errors are detected before any mutation.

use vstd::prelude::*;

verus! {

/// Why an engine operation was refused. Each variant is produced by exactly
/// the conditions its name describes; the operations' contracts say, per
/// input, which variant comes back.
#[derive(Clone, Copy, Debug, PartialEq, Eq, Structural)]
pub enum LadderError {
    /// No active tournament exists for the requested channel and mode.
    NotInitialized,
    /// An active tournament already exists for the requested channel and mode.
    AlreadyExists,
    /// The player is already on the roster.
    AlreadyRegistered,
    /// The player is not on the roster, or is not an active entry.
    NotRegistered,
    /// A player tried to challenge themself.
    SelfChallenge,
    /// An open challenge already exists for the pair, or a party is at its
    /// outgoing or incoming challenge cap.
    DuplicateChallenge,
    /// A party has a live timeout.
    Timeout,
    /// The requester is not a party to any open challenge.
    NoOpenChallenge,
    /// A second, conflicting result report for a recently resolved match.
    ResultConflict,
    /// The reported outcome is not one a party may report.
    InvalidOutcome,
    /// The player still has an open challenge and removal was not forced.
    OpenChallengeExists,
    /// A ladder position outside `1..=N`.
    OutOfRange,
    /// A `set` key that is not recognized at the given level.
    UnknownKey,
    /// A `set` value that cannot be parsed for its key's type.
    InvalidValue,
    /// The caller lacks the admin capability the operation demands.
    NotAuthorized,
    /// The durable write for a mutation could not be completed.
    PersistenceUnavailable,
}

impl LadderError {
    /// A short stable name for the error, for the transport layer to show.
    pub fn name(&self) -> (r: &'static str)
        ensures
            r@.len() > 0,
    {
        let r = match self {
            LadderError::NotInitialized => "not initialized",
            LadderError::AlreadyExists => "already exists",
            LadderError::AlreadyRegistered => "already registered",
            LadderError::NotRegistered => "not registered",
            LadderError::SelfChallenge => "self challenge",
            LadderError::DuplicateChallenge => "duplicate challenge",
            LadderError::Timeout => "timeout",
            LadderError::NoOpenChallenge => "no open challenge",
            LadderError::ResultConflict => "result conflict",
            LadderError::InvalidOutcome => "invalid outcome",
            LadderError::OpenChallengeExists => "open challenge exists",
            LadderError::OutOfRange => "out of range",
            LadderError::UnknownKey => "unknown key",
            LadderError::InvalidValue => "invalid value",
            LadderError::NotAuthorized => "not authorized",
            LadderError::PersistenceUnavailable => "persistence unavailable",
        };
        proof {
            reveal_strlit("not initialized");
            reveal_strlit("already exists");
            reveal_strlit("already registered");
            reveal_strlit("not registered");
            reveal_strlit("self challenge");
            reveal_strlit("duplicate challenge");
            reveal_strlit("timeout");
            reveal_strlit("no open challenge");
            reveal_strlit("result conflict");
            reveal_strlit("invalid outcome");
            reveal_strlit("open challenge exists");
            reveal_strlit("out of range");
            reveal_strlit("unknown key");
            reveal_strlit("invalid value");
            reveal_strlit("not authorized");
            reveal_strlit("persistence unavailable");
        }
        r
    }
}

} // verus!
