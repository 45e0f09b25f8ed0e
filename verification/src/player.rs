//! Roster entries. A player's ladder position is not stored on the entry:
//! the roster is kept in rank order, so the entry at index `i` holds
//! position `i + 1`. That makes the dense-permutation invariant (positions
//! are exactly `1..=N`, no gaps, no duplicates) structural.

use vstd::prelude::*;

verus! {

/// Standing of a roster entry. A removed player has no entry at all: the
/// `Removed` state is the absence of the entry, reached by `unregister`,
/// which also compacts the positions behind it.
#[derive(Clone, Copy, Debug, PartialEq, Eq, Structural)]
pub enum PlayerStatus {
    Active,
    Suspended,
}

/// One registered participant of one tournament.
#[derive(Debug)]
pub struct PlayerEntry {
    /// Caller-supplied identity (for instance a chat user id).
    pub id: u64,
    pub status: PlayerStatus,
    /// Free-form notes, editable through `set`.
    pub notes: String,
    /// If `Some(t)`, the player may not enter challenges until time `t`.
    pub timeout_until: Option<u64>,
    /// Admin capability within this tournament.
    pub admin: bool,
}

/// The mathematical value of a roster entry: the same fields with the
/// notes as a sequence of characters.
pub struct PlayerEntryView {
    pub id: u64,
    pub status: PlayerStatus,
    pub notes: Seq<char>,
    pub timeout_until: Option<u64>,
    pub admin: bool,
}

impl View for PlayerEntry {
    type V = PlayerEntryView;

    open spec fn view(&self) -> PlayerEntryView {
        PlayerEntryView {
            id: self.id,
            status: self.status,
            notes: self.notes@,
            timeout_until: self.timeout_until,
            admin: self.admin,
        }
    }
}

impl PlayerEntryView {
    /// A freshly registered entry: active, no notes, no timeout, no admin.
    pub open spec fn fresh(id: u64) -> PlayerEntryView {
        PlayerEntryView {
            id,
            status: PlayerStatus::Active,
            notes: Seq::empty(),
            timeout_until: None,
            admin: false,
        }
    }

    /// Whether the player is barred from challenges at time `now`.
    pub open spec fn timed_out(self, now: u64) -> bool {
        match self.timeout_until {
            Some(t) => t > now,
            None => false,
        }
    }
}

impl PlayerEntry {
    /// A freshly registered entry.
    pub fn fresh(id: u64) -> (r: PlayerEntry)
        ensures
            r@ == PlayerEntryView::fresh(id),
    {
        PlayerEntry {
            id,
            status: PlayerStatus::Active,
            notes: String::new(),
            timeout_until: None,
            admin: false,
        }
    }

    /// An exact copy of the entry.
    pub fn duplicate(&self) -> (r: PlayerEntry)
        ensures
            r@ == self@,
    {
        PlayerEntry {
            id: self.id,
            status: self.status,
            notes: self.notes.clone(),
            timeout_until: self.timeout_until,
            admin: self.admin,
        }
    }

    /// Whether the player is barred from challenges at time `now`.
    pub fn is_timed_out(&self, now: u64) -> (r: bool)
        ensures
            r == self@.timed_out(now),
    {
        match self.timeout_until {
            Some(t) => t > now,
            None => false,
        }
    }
}

} // verus!
