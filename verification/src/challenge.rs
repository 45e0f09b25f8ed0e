//! The challenge lifecycle. A challenge starts `Proposed` (there is no
//! explicit accept step, so `Proposed` is the whole open phase) and ends in
//! exactly one of the terminal states `Resolved`, `Cancelled` or
//! `Forfeited`. The ladder keeps only open challenges in memory; a
//! terminal transition removes the challenge and leaves one history record.

use vstd::prelude::*;

verus! {

/// How a challenge ended, stored from the challenger's perspective for
/// played matches: `Won` means the challenger won, `Lost` that the
/// defender did. `Forfeited` and `Cancelled` name the administrative
/// endings; for `Forfeited` the forfeiting side is the record's reporter.
#[derive(Clone, Copy, Debug, PartialEq, Eq, Structural)]
pub enum Outcome {
    Won,
    Lost,
    Forfeited,
    Cancelled,
}

/// Lifecycle state of a challenge. `Proposed` is the only open state.
#[derive(Clone, Copy, Debug, PartialEq, Eq, Structural)]
pub enum ChallengeState {
    Proposed,
    Resolved,
    Cancelled,
    Forfeited,
}

/// One match request between two distinct registered players.
#[derive(Clone, Copy, Debug, PartialEq, Eq)]
pub struct Challenge {
    pub challenger: u64,
    pub defender: u64,
    pub state: ChallengeState,
    pub created_at: u64,
    pub resolved_at: Option<u64>,
    pub outcome: Option<Outcome>,
}

/// The same played outcome seen from the other party's side.
pub open spec fn spec_flip(o: Outcome) -> Outcome
    recommends
        o is Won || o is Lost,
{
    if o is Won {
        Outcome::Lost
    } else {
        Outcome::Won
    }
}

/// The same played outcome seen from the other party's side.
pub fn flip_outcome(o: Outcome) -> (r: Outcome)
    requires
        o is Won || o is Lost,
    ensures
        r == spec_flip(o),
{
    match o {
        Outcome::Won => Outcome::Lost,
        _ => Outcome::Won,
    }
}

impl Challenge {
    /// A challenge is open while it has not reached a terminal state.
    pub open spec fn is_open(self) -> bool {
        self.state is Proposed
    }

    /// Whether `p` is a party to the challenge.
    pub open spec fn involves(self, p: u64) -> bool {
        self.challenger == p || self.defender == p
    }

    /// The other party, seen from `p`.
    pub open spec fn opponent_of(self, p: u64) -> u64 {
        if self.challenger == p {
            self.defender
        } else {
            self.challenger
        }
    }

    /// The newly proposed challenge `challenger` issues against `defender`.
    pub open spec fn spec_proposed(challenger: u64, defender: u64, now: u64) -> Challenge {
        Challenge {
            challenger,
            defender,
            state: ChallengeState::Proposed,
            created_at: now,
            resolved_at: None,
            outcome: None,
        }
    }

    /// The challenge `self` closed in terminal state `state` with
    /// `outcome`, at time `now`.
    pub open spec fn spec_closed(self, state: ChallengeState, outcome: Outcome, now: u64) -> Challenge {
        Challenge { state, resolved_at: Some(now), outcome: Some(outcome), ..self }
    }

    /// Propose a challenge.
    pub fn proposed(challenger: u64, defender: u64, now: u64) -> (r: Challenge)
        ensures
            r == Self::spec_proposed(challenger, defender, now),
    {
        Challenge {
            challenger,
            defender,
            state: ChallengeState::Proposed,
            created_at: now,
            resolved_at: None,
            outcome: None,
        }
    }

    /// Close an open challenge as played out: `Won` or `Lost`, from the
    /// challenger's perspective.
    pub fn resolved(self, outcome: Outcome, now: u64) -> (r: Challenge)
        requires
            self.is_open(),
            outcome is Won || outcome is Lost,
        ensures
            r == self.spec_closed(ChallengeState::Resolved, outcome, now),
    {
        Challenge {
            state: ChallengeState::Resolved,
            resolved_at: Some(now),
            outcome: Some(outcome),
            ..self
        }
    }

    /// Close an open challenge as cancelled: no ranking effect.
    pub fn cancelled(self, now: u64) -> (r: Challenge)
        requires
            self.is_open(),
        ensures
            r == self.spec_closed(ChallengeState::Cancelled, Outcome::Cancelled, now),
    {
        Challenge {
            state: ChallengeState::Cancelled,
            resolved_at: Some(now),
            outcome: Some(Outcome::Cancelled),
            ..self
        }
    }

    /// Close an open challenge as forfeited by one side.
    pub fn forfeited(self, now: u64) -> (r: Challenge)
        requires
            self.is_open(),
        ensures
            r == self.spec_closed(ChallengeState::Forfeited, Outcome::Forfeited, now),
    {
        Challenge {
            state: ChallengeState::Forfeited,
            resolved_at: Some(now),
            outcome: Some(Outcome::Forfeited),
            ..self
        }
    }
}

} // verus!
