//! The process-wide registry of tournaments: one `LadderState` per
//! (channel, mode) key, created by `init`, soft-deleted by `delete`, and
//! installed from a validated snapshot on load. The registry is the unit
//! the caller shares: one mutator at a time per registry (or per state,
//! if the caller shards), loads of the same key coalescing on the entry
//! that is already present.

use crate::errors::LadderError;
use crate::ladder::LadderState;
use crate::ladder::LadderView;
use crate::ladder::Mode;
use crate::ladder::Tournament;
use crate::ladder::TournamentStatus;
use vstd::prelude::*;

verus! {

/// The registry's mathematical value: the states it holds, in insertion
/// order, keys pairwise distinct.
pub open spec fn reg_view(states: Seq<LadderState>) -> Seq<LadderView> {
    states.map_values(|s: LadderState| s@)
}

/// Whether entry `i` carries the key (`channel`, `mode`).
pub open spec fn key_is(v: LadderView, channel: u64, mode: Mode) -> bool {
    v.tournament.channel == channel && v.tournament.mode == mode
}

/// Registry well-formedness: every state well formed, every key held by
/// at most one entry.
pub open spec fn reg_wf(r: Seq<LadderView>) -> bool {
    &&& forall|i: int| 0 <= i < r.len() ==> (#[trigger] r[i]).wf()
    &&& forall|i: int, j: int|
        0 <= i < j < r.len() ==> !((#[trigger] r[i]).tournament.channel == (
        #[trigger] r[j]).tournament.channel && r[i].tournament.mode == r[j].tournament.mode)
}

/// Whether some entry carries the key.
pub open spec fn has_key(r: Seq<LadderView>, channel: u64, mode: Mode) -> bool {
    exists|i: int| 0 <= i < r.len() && key_is(#[trigger] r[i], channel, mode)
}

/// The index of the key's entry (meaningful only when `has_key`).
pub open spec fn key_idx(r: Seq<LadderView>, channel: u64, mode: Mode) -> int {
    choose|i: int| 0 <= i < r.len() && key_is(#[trigger] r[i], channel, mode)
}

/// Whether an active tournament exists for the key.
pub open spec fn has_active(r: Seq<LadderView>, channel: u64, mode: Mode) -> bool {
    has_key(r, channel, mode) && r[key_idx(r, channel, mode)].tournament.status
        is Active
}

/// The fresh value `init` gives a tournament.
pub open spec fn spec_fresh(channel: u64, mode: Mode, now: u64, grace_secs: u64) -> LadderView {
    LadderView {
        roster: Seq::empty(),
        challenges: Seq::empty(),
        log: Seq::empty(),
        tournament: Tournament { channel, mode, status: TournamentStatus::Active, created_at: now },
        grace_secs,
    }
}

/// Transition of `create`: refuse over an active tournament; over a
/// deleted one start fresh but keep the history; otherwise append.
pub open spec fn spec_create(r: Seq<LadderView>, channel: u64, mode: Mode, now: u64, grace_secs: u64) -> (
    Seq<LadderView>,
    Result<(), LadderError>,
) {
    if has_key(r, channel, mode) {
        let i = key_idx(r, channel, mode);
        if r[i].tournament.status is Active {
            (r, Err(LadderError::AlreadyExists))
        } else {
            (r.update(i, LadderView { log: r[i].log, ..spec_fresh(channel, mode, now, grace_secs) }), Ok(()))
        }
    } else {
        (r.push(spec_fresh(channel, mode, now, grace_secs)), Ok(()))
    }
}

/// Transition of `delete`: flip an active tournament to `Deleted`; a
/// missing or already deleted one is `NotInitialized`.
pub open spec fn spec_delete(r: Seq<LadderView>, channel: u64, mode: Mode) -> (
    Seq<LadderView>,
    Result<(), LadderError>,
) {
    if has_active(r, channel, mode) {
        let i = key_idx(r, channel, mode);
        (
            r.update(
                i,
                LadderView {
                    tournament: Tournament { status: TournamentStatus::Deleted, ..r[i].tournament },
                    ..r[i]
                },
            ),
            Ok(()),
        )
    } else {
        (r, Err(LadderError::NotInitialized))
    }
}

/// The registry. The `states` vector is owned exclusively; callers
/// serialize mutating access to it.
#[derive(Debug)]
pub struct TournamentRegistry {
    pub states: Vec<LadderState>,
}

impl View for TournamentRegistry {
    type V = Seq<LadderView>;

    open spec fn view(&self) -> Seq<LadderView> {
        reg_view(self.states@)
    }
}

impl TournamentRegistry {
    /// An empty registry.
    pub fn new() -> (r: TournamentRegistry)
        ensures
            r@ == Seq::<LadderView>::empty(),
            reg_wf(r@),
    {
        let r = TournamentRegistry { states: Vec::new() };
        proof {
            assert(r@ =~= Seq::<LadderView>::empty());
        }
        r
    }

    /// The index of the key's entry, if present.
    pub fn find_key(&self, channel: u64, mode: Mode) -> (r: Option<usize>)
        requires
            reg_wf(self@),
        ensures
            match r {
                Some(i) => i < self@.len() && has_key(self@, channel, mode) && key_idx(
                    self@,
                    channel,
                    mode,
                ) == i as int,
                None => !has_key(self@, channel, mode),
            },
    {
        let mut i: usize = 0;
        while i < self.states.len()
            invariant
                i <= self@.len(),
                forall|j: int| 0 <= j < i ==> !key_is(#[trigger] self@[j], channel, mode),
            decreases self@.len() - i,
        {
            let same_mode = match (self.states[i].tournament.mode, mode) {
                (Mode::Ladder1v1, Mode::Ladder1v1) => true,
            };
            if self.states[i].tournament.channel == channel && same_mode {
                proof {
                    assert(key_is(self@[i as int], channel, mode));
                    let w = key_idx(self@, channel, mode);
                    assert(key_is(self@[w], channel, mode));
                    assert(w == i as int);
                }
                return Some(i);
            }
            i = i + 1;
        }
        None
    }

    /// The index of the key's entry when its tournament is active.
    pub fn find_active(&self, channel: u64, mode: Mode) -> (r: Option<usize>)
        requires
            reg_wf(self@),
        ensures
            match r {
                Some(i) => i < self@.len() && has_active(self@, channel, mode) && key_idx(
                    self@,
                    channel,
                    mode,
                ) == i as int,
                None => !has_active(self@, channel, mode),
            },
    {
        match self.find_key(channel, mode) {
            None => None,
            Some(i) => {
                let is_active = match self.states[i].tournament.status {
                    TournamentStatus::Active => true,
                    TournamentStatus::Deleted => false,
                };
                if is_active {
                    Some(i)
                } else {
                    None
                }
            },
        }
    }

    /// Create the tournament for the key: `AlreadyExists` over an active
    /// one; over a deleted one a fresh state that keeps the history.
    pub fn create(&mut self, channel: u64, mode: Mode, now: u64, grace_secs: u64) -> (r: Result<
        (),
        LadderError,
    >)
        requires
            reg_wf(old(self)@),
        ensures
            reg_wf(final(self)@),
            (final(self)@, r) == spec_create(old(self)@, channel, mode, now, grace_secs),
    {
        let ghost pre = self@;
        match self.find_key(channel, mode) {
            Some(i) => {
                let is_active = match self.states[i].tournament.status {
                    TournamentStatus::Active => true,
                    TournamentStatus::Deleted => false,
                };
                if is_active {
                    return Err(LadderError::AlreadyExists);
                }
                let old_state = self.states.remove(i);
                let mut fresh = LadderState::new(channel, mode, now, grace_secs);
                fresh.log = old_state.log;
                self.states.insert(i, fresh);
                proof {
                    assert(self@ =~~= spec_create(pre, channel, mode, now, grace_secs).0);
                    assert(forall|k: int|
                        0 <= k < self@.len() && k != i as int ==> self@[k] == pre[k]);
                    assert(self@[i as int].wf());
                    assert(reg_wf(self@));
                }
                Ok(())
            },
            None => {
                let fresh = LadderState::new(channel, mode, now, grace_secs);
                self.states.push(fresh);
                proof {
                    assert(self@ =~~= spec_create(pre, channel, mode, now, grace_secs).0);
                    let n = pre.len() as int;
                    assert(forall|k: int| 0 <= k < n ==> self@[k] == pre[k]);
                    assert(key_is(self@[n], channel, mode));
                    assert(forall|k: int| 0 <= k < n ==> !key_is(#[trigger] pre[k], channel, mode));
                    assert(reg_wf(self@));
                }
                Ok(())
            },
        }
    }

    /// Soft-delete the tournament for the key; its history stays until a
    /// re-`create` and is carried over even then.
    pub fn delete(&mut self, channel: u64, mode: Mode) -> (r: Result<(), LadderError>)
        requires
            reg_wf(old(self)@),
        ensures
            reg_wf(final(self)@),
            (final(self)@, r) == spec_delete(old(self)@, channel, mode),
    {
        let ghost pre = self@;
        match self.find_key(channel, mode) {
            None => Err(LadderError::NotInitialized),
            Some(i) => {
                let is_active = match self.states[i].tournament.status {
                    TournamentStatus::Active => true,
                    TournamentStatus::Deleted => false,
                };
                if !is_active {
                    return Err(LadderError::NotInitialized);
                }
                let mut state = self.states.remove(i);
                state.tournament.status = TournamentStatus::Deleted;
                self.states.insert(i, state);
                proof {
                    assert(self@ =~~= spec_delete(pre, channel, mode).0);
                    assert(forall|k: int|
                        0 <= k < self@.len() && k != i as int ==> self@[k] == pre[k]);
                    assert(self@[i as int].wf()) by {
                        assert(pre[i as int].wf());
                    }
                    assert(reg_wf(self@));
                }
                Ok(())
            },
        }
    }

    /// Install a state loaded from the durable store. A concurrent load
    /// of a key that is already present coalesces: the registry keeps the
    /// entry it has and reports success, so no duplicate state for one
    /// tournament can exist.
    pub fn install(&mut self, state: LadderState) -> (r: Result<(), LadderError>)
        requires
            reg_wf(old(self)@),
            state@.wf(),
        ensures
            reg_wf(final(self)@),
            r is Ok,
            final(self)@ == if has_key(
                old(self)@,
                state@.tournament.channel,
                state@.tournament.mode,
            ) {
                old(self)@
            } else {
                old(self)@.push(state@)
            },
    {
        let ghost pre = self@;
        match self.find_key(state.tournament.channel, state.tournament.mode) {
            Some(_) => Ok(()),
            None => {
                let ghost sv = state@;
                self.states.push(state);
                proof {
                    assert(self@ =~~= pre.push(sv));
                    let n = pre.len() as int;
                    assert(forall|k: int| 0 <= k < n ==> self@[k] == pre[k]);
                    assert(forall|k: int|
                        0 <= k < n ==> !key_is(#[trigger] pre[k], sv.tournament.channel, sv.tournament.mode));
                    assert(reg_wf(self@));
                }
                Ok(())
            },
        }
    }
}

} // verus!
