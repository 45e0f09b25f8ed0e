//! The in-memory state of one tournament: the roster in rank order, the
//! open challenges, the append-only history, and the tournament metadata.
//!
//! Every mutating operation has a total transition function in spec land
//! (`spec_*`): given the state's mathematical value and the arguments it
//! yields the next value and the exact result, error or not. The
//! executable operation is proved to realize that function and to keep the
//! state well formed. Validation always precedes mutation: an error means
//! the state did not change.
//!
//! Serialization of mutations and durable writes belong to the caller: it
//! is expected to run one mutator at a time per tournament (the registry
//! documents the discipline), take a `duplicate` before the mutation, and
//! `restore` it if the durable write fails.

use crate::challenge::flip_outcome;
use crate::challenge::spec_flip;
use crate::challenge::Challenge;
use crate::challenge::ChallengeState;
use crate::challenge::Outcome;
use crate::errors::LadderError;
use crate::history::HistoryLog;
use crate::history::HistoryRecord;
use crate::player::PlayerEntry;
use crate::player::PlayerEntryView;
use crate::player::PlayerStatus;
use crate::ranking::distinct_ids;
use crate::ranking::roster_view;
use crate::ranking::seq_move;
use vstd::prelude::*;

verus! {

/// Ladder discipline of a tournament. Only 1v1 ladders exist today; the
/// enum leaves room for more.
#[derive(Clone, Copy, Debug, PartialEq, Eq, Structural)]
pub enum Mode {
    Ladder1v1,
}

/// Lifecycle of a tournament: `delete` flips it to `Deleted` (soft), the
/// history is retained.
#[derive(Clone, Copy, Debug, PartialEq, Eq, Structural)]
pub enum TournamentStatus {
    Active,
    Deleted,
}

/// Metadata of one tournament, one per (channel, mode).
#[derive(Clone, Copy, Debug, PartialEq, Eq, Structural)]
pub struct Tournament {
    pub channel: u64,
    pub mode: Mode,
    pub status: TournamentStatus,
    pub created_at: u64,
}

/// How long after a resolution a conflicting report from the other party
/// is flagged as `ResultConflict` rather than `NoOpenChallenge`.
pub const DEFAULT_GRACE_SECS: u64 = 600;

/// Filtering keeps one step of the recursion visible: filtering a pushed
/// sequence filters the prefix and keeps or drops the new last element.
proof fn lemma_filter_push<A>(t: Seq<A>, x: A, pred: spec_fn(A) -> bool)
    ensures
        t.push(x).filter(pred) == if pred(x) {
            t.filter(pred).push(x)
        } else {
            t.filter(pred)
        },
{
    reveal(Seq::filter);
    assert(t.push(x).drop_last() =~= t);
    assert(t.push(x).last() == x);
}

/// Replacing one entry of a roster vector, the others untouched, is an
/// update of its mathematical value.
proof fn lemma_replace_entry_view(v: Seq<PlayerEntry>, w: Seq<PlayerEntry>, idx: int)
    requires
        0 <= idx < v.len(),
        w.len() == v.len(),
        forall|k: int| 0 <= k < v.len() && k != idx ==> w[k] == v[k],
    ensures
        roster_view(w) == roster_view(v).update(idx, w[idx]@),
{
    assert(roster_view(w) =~= roster_view(v).update(idx, w[idx]@));
}

/// A pairwise fact about the elements of a sequence survives filtering.
pub proof fn lemma_filter_pairwise<A>(s: Seq<A>, pred: spec_fn(A) -> bool, rel: spec_fn(A, A) -> bool)
    requires
        forall|i: int, j: int| 0 <= i < j < s.len() ==> #[trigger] rel(s[i], s[j]),
    ensures
        forall|i: int, j: int|
            0 <= i < j < s.filter(pred).len() ==> #[trigger] rel(s.filter(pred)[i], s.filter(pred)[j]),
    decreases s.len(),
{
    reveal(Seq::filter);
    if s.len() > 0 {
        let t = s.drop_last();
        lemma_filter_pairwise(t, pred, rel);
        let f = s.filter(pred);
        let tf = t.filter(pred);
        if pred(s.last()) {
            assert(f == tf.push(s.last()));
            assert forall|i: int, j: int| 0 <= i < j < f.len() implies #[trigger] rel(f[i], f[j]) by {
                if j == f.len() - 1 {
                    assert(tf.contains(tf[i]));
                    t.lemma_filter_contains_rev(pred, tf[i]);
                    let k = choose|k: int| 0 <= k < t.len() && t[k] == tf[i];
                    assert(rel(s[k], s[s.len() - 1]));
                } else {
                    assert(rel(tf[i], tf[j]));
                }
            }
        }
    }
}

/// One row of the standings view: the entry at position `position`.
#[derive(Clone, Copy, Debug, PartialEq, Eq, Structural)]
pub struct StandingsRow {
    pub position: u64,
    pub player: u64,
    pub status: PlayerStatus,
    pub admin: bool,
}

/// In-memory state of one tournament. The roster is kept in rank order:
/// the entry at index `i` holds ladder position `i + 1`, so the positions
/// are a dense permutation of `1..=N` by construction.
#[derive(Debug)]
pub struct LadderState {
    pub roster: Vec<PlayerEntry>,
    pub challenges: Vec<Challenge>,
    pub log: HistoryLog,
    pub tournament: Tournament,
    pub grace_secs: u64,
}

/// The mathematical value of a `LadderState`.
#[verifier::ext_equal]
pub struct LadderView {
    pub roster: Seq<PlayerEntryView>,
    pub challenges: Seq<Challenge>,
    pub log: Seq<HistoryRecord>,
    pub tournament: Tournament,
    pub grace_secs: u64,
}

impl View for LadderState {
    type V = LadderView;

    open spec fn view(&self) -> LadderView {
        LadderView {
            roster: roster_view(self.roster@),
            challenges: self.challenges@,
            log: self.log@,
            tournament: self.tournament,
            grace_secs: self.grace_secs,
        }
    }
}

impl LadderView {
    /// Whether `id` has a roster entry.
    pub open spec fn has_player(self, id: u64) -> bool {
        crate::ranking::has_id(self.roster, id)
    }

    /// The roster index of `id` (meaningful only when `has_player`).
    pub open spec fn idx_of(self, id: u64) -> int {
        choose|i: int| 0 <= i < self.roster.len() && (#[trigger] self.roster[i]).id == id
    }

    /// The 1-based ladder position of `id`.
    pub open spec fn pos_of(self, id: u64) -> u64 {
        (self.idx_of(id) + 1) as u64
    }

    /// Whether `id` is a roster entry in `Active` standing.
    pub open spec fn active_player(self, id: u64) -> bool {
        self.has_player(id) && self.roster[self.idx_of(id)].status is Active
    }

    /// Whether any open challenge has `p` as a party.
    pub open spec fn open_involving(self, p: u64) -> bool {
        exists|i: int| 0 <= i < self.challenges.len() && (#[trigger] self.challenges[i]).involves(p)
    }

    /// Whether `p` holds an open outgoing challenge.
    pub open spec fn has_open_out(self, p: u64) -> bool {
        exists|i: int|
            0 <= i < self.challenges.len() && (#[trigger] self.challenges[i]).challenger == p
    }

    /// Whether `p` faces an open incoming challenge.
    pub open spec fn has_open_in(self, p: u64) -> bool {
        exists|i: int|
            0 <= i < self.challenges.len() && (#[trigger] self.challenges[i]).defender == p
    }

    /// Whether an open challenge exists for the unordered pair `{a, b}`.
    pub open spec fn pair_open(self, a: u64, b: u64) -> bool {
        exists|i: int|
            0 <= i < self.challenges.len() && {
                let c = #[trigger] self.challenges[i];
                (c.challenger == a && c.defender == b) || (c.challenger == b && c.defender == a)
            }
    }

    /// The index of the open challenge a report from `p` addresses: the
    /// outgoing one when `p` holds one, else the incoming one.
    pub open spec fn report_target(self, p: u64) -> Option<int> {
        if self.has_open_out(p) {
            Some(choose|i: int|
                0 <= i < self.challenges.len() && (#[trigger] self.challenges[i]).challenger == p)
        } else if self.has_open_in(p) {
            Some(choose|i: int|
                0 <= i < self.challenges.len() && (#[trigger] self.challenges[i]).defender == p)
        } else {
            None
        }
    }

    /// Well-formedness: the permutation invariant on identities, and the
    /// open-challenge discipline — only open states, no self-challenges,
    /// both parties on the roster, at most one outgoing and one incoming
    /// challenge per player, at most one open challenge per unordered
    /// pair.
    pub open spec fn wf(self) -> bool {
        &&& distinct_ids(self.roster)
        &&& self.roster.len() < u64::MAX
        &&& forall|i: int|
            0 <= i < self.challenges.len() ==> (#[trigger] self.challenges[i]).is_open()
        &&& forall|i: int|
            0 <= i < self.challenges.len() ==> (#[trigger] self.challenges[i]).challenger
                != self.challenges[i].defender
        &&& forall|i: int|
            0 <= i < self.challenges.len() ==> self.has_player(
                (#[trigger] self.challenges[i]).challenger,
            ) && self.has_player(self.challenges[i].defender)
        &&& forall|i: int, j: int|
            0 <= i < j < self.challenges.len() ==> (#[trigger] self.challenges[i]).challenger != (
            #[trigger] self.challenges[j]).challenger
        &&& forall|i: int, j: int|
            0 <= i < j < self.challenges.len() ==> (#[trigger] self.challenges[i]).defender != (
            #[trigger] self.challenges[j]).defender
        &&& forall|i: int, j: int|
            0 <= i < j < self.challenges.len() ==> !((#[trigger] self.challenges[i]).challenger == (
            #[trigger] self.challenges[j]).defender && self.challenges[i].defender
                == self.challenges[j].challenger)
    }

    /// With distinct identities, an index holding `id` is the index
    /// `idx_of` names.
    pub proof fn lemma_idx_unique(self, id: u64, i: int)
        requires
            distinct_ids(self.roster),
            0 <= i < self.roster.len(),
            self.roster[i].id == id,
        ensures
            self.has_player(id),
            self.idx_of(id) == i,
    {
        assert(crate::ranking::has_id(self.roster, id));
        let w = self.idx_of(id);
        assert(self.roster[w].id == id);
    }

    /// Updating one roster entry without touching its identity keeps the
    /// state well formed.
    pub proof fn lemma_wf_update(self, idx: int, ev: PlayerEntryView)
        requires
            self.wf(),
            0 <= idx < self.roster.len(),
            ev.id == self.roster[idx].id,
        ensures
            (LadderView { roster: self.roster.update(idx, ev), ..self }).wf(),
    {
        let post = LadderView { roster: self.roster.update(idx, ev), ..self };
        assert forall|p: u64|
            crate::ranking::has_id(self.roster, p) implies crate::ranking::has_id(
            post.roster,
            p,
        ) by {
            let k = choose|k: int| 0 <= k < self.roster.len() && (#[trigger] self.roster[k]).id == p;
            assert(post.roster[k].id == p);
        }
        assert(distinct_ids(post.roster)) by {
            assert(forall|k: int| 0 <= k < post.roster.len() ==> (#[trigger] post.roster[k]).id
                == self.roster[k].id);
        }
    }

    /// The state with the entry at `idx` replaced by `ev`.
    pub open spec fn spec_with_entry(self, idx: int, ev: PlayerEntryView) -> LadderView {
        LadderView { roster: self.roster.update(idx, ev), ..self }
    }

    /// Transition of `set`: a recognized (level, key) pair mutates one
    /// field; an unrecognized pair is `UnknownKey`, a value that does not
    /// parse for the key's type `InvalidValue`. User-level keys edit the
    /// caller's own entry; system-level keys demand the admin capability.
    /// A timeout of `0` clears the timeout.
    pub open spec fn spec_set(
        self,
        caller: u64,
        is_admin: bool,
        level: Seq<char>,
        key: Seq<char>,
        value: Seq<char>,
    ) -> (LadderView, Result<(), LadderError>) {
        if level == "user"@ {
            if key == "notes"@ {
                if !self.has_player(caller) {
                    (self, Err(LadderError::NotRegistered))
                } else {
                    let i = self.idx_of(caller);
                    (
                        self.spec_with_entry(i, PlayerEntryView { notes: value, ..self.roster[i] }),
                        Ok(()),
                    )
                }
            } else if key == "status"@ {
                if !self.has_player(caller) {
                    (self, Err(LadderError::NotRegistered))
                } else if value == "active"@ {
                    let i = self.idx_of(caller);
                    (
                        self.spec_with_entry(
                            i,
                            PlayerEntryView { status: PlayerStatus::Active, ..self.roster[i] },
                        ),
                        Ok(()),
                    )
                } else if value == "suspended"@ {
                    let i = self.idx_of(caller);
                    (
                        self.spec_with_entry(
                            i,
                            PlayerEntryView { status: PlayerStatus::Suspended, ..self.roster[i] },
                        ),
                        Ok(()),
                    )
                } else {
                    (self, Err(LadderError::InvalidValue))
                }
            } else if key == "timeout"@ {
                if !self.has_player(caller) {
                    (self, Err(LadderError::NotRegistered))
                } else {
                    match crate::text::parse_u64_spec(value) {
                        None => (self, Err(LadderError::InvalidValue)),
                        Some(t) => {
                            let i = self.idx_of(caller);
                            (
                                self.spec_with_entry(
                                    i,
                                    PlayerEntryView {
                                        timeout_until: if t == 0 {
                                            None
                                        } else {
                                            Some(t)
                                        },
                                        ..self.roster[i]
                                    },
                                ),
                                Ok(()),
                            )
                        },
                    }
                }
            } else {
                (self, Err(LadderError::UnknownKey))
            }
        } else if level == "system"@ {
            if !is_admin {
                (self, Err(LadderError::NotAuthorized))
            } else if key == "mode"@ {
                if value == "ladder1v1"@ {
                    (
                        LadderView {
                            tournament: Tournament { mode: Mode::Ladder1v1, ..self.tournament },
                            ..self
                        },
                        Ok(()),
                    )
                } else {
                    (self, Err(LadderError::InvalidValue))
                }
            } else if key == "admin_add"@ || key == "admin_remove"@ {
                match crate::text::parse_u64_spec(value) {
                    None => (self, Err(LadderError::InvalidValue)),
                    Some(pid) => {
                        if !self.has_player(pid) {
                            (self, Err(LadderError::NotRegistered))
                        } else {
                            let i = self.idx_of(pid);
                            (
                                self.spec_with_entry(
                                    i,
                                    PlayerEntryView {
                                        admin: key == "admin_add"@,
                                        ..self.roster[i]
                                    },
                                ),
                                Ok(()),
                            )
                        }
                    },
                }
            } else {
                (self, Err(LadderError::UnknownKey))
            }
        } else {
            (self, Err(LadderError::UnknownKey))
        }
    }

    /// The standings read view: one row per roster entry, in rank order.
    pub open spec fn spec_standings(self) -> Seq<StandingsRow> {
        Seq::new(
            self.roster.len(),
            |i: int|
                StandingsRow {
                    position: (i + 1) as u64,
                    player: self.roster[i].id,
                    status: self.roster[i].status,
                    admin: self.roster[i].admin,
                },
        )
    }

    /// Transition of `register`: append at position N+1, or refuse. A
    /// roster already at the machine's position limit refuses with
    /// `OutOfRange` (unreachable in practice).
    pub open spec fn spec_register(self, id: u64) -> (LadderView, Result<u64, LadderError>) {
        if self.has_player(id) {
            (self, Err(LadderError::AlreadyRegistered))
        } else if self.roster.len() + 1 >= u64::MAX {
            (self, Err(LadderError::OutOfRange))
        } else {
            (
                LadderView { roster: self.roster.push(PlayerEntryView::fresh(id)), ..self },
                Ok((self.roster.len() + 1) as u64),
            )
        }
    }

    /// Transition of the admin `move`: relocate `id` to position
    /// `new_pos`, shifting the players in between by one.
    pub open spec fn spec_move_player(self, id: u64, new_pos: u64, is_admin: bool) -> (
        LadderView,
        Result<(), LadderError>,
    ) {
        if !is_admin {
            (self, Err(LadderError::NotAuthorized))
        } else if !self.has_player(id) {
            (self, Err(LadderError::NotRegistered))
        } else if !(1 <= new_pos && new_pos <= self.roster.len()) {
            (self, Err(LadderError::OutOfRange))
        } else {
            (
                LadderView {
                    roster: seq_move(self.roster, self.idx_of(id), new_pos - 1),
                    ..self
                },
                Ok(()),
            )
        }
    }

    /// The `Cancelled` records a forced removal of `id` leaves: one per
    /// open challenge involving the player, in the order of the open set.
    pub open spec fn spec_cancel_records(self, id: u64, requester: u64, now: u64) -> Seq<
        HistoryRecord,
    > {
        self.challenges.filter(|c: Challenge| c.involves(id)).map_values(
            |c: Challenge| self.spec_static_record(c, requester, Outcome::Cancelled, now),
        )
    }

    /// Transition of `unregister`: the entry leaves the roster and the
    /// positions behind it compact. With open challenges the removal is
    /// refused unless forced; a forced removal cancels them, one record
    /// each.
    pub open spec fn spec_unregister(self, id: u64, requester: u64, force: bool, now: u64) -> (
        LadderView,
        Result<(), LadderError>,
    ) {
        if !self.has_player(id) {
            (self, Err(LadderError::NotRegistered))
        } else if !force && self.open_involving(id) {
            (self, Err(LadderError::OpenChallengeExists))
        } else {
            (
                LadderView {
                    roster: self.roster.remove(self.idx_of(id)),
                    challenges: self.challenges.filter(|c: Challenge| !c.involves(id)),
                    log: self.log + self.spec_cancel_records(id, requester, now),
                    ..self
                },
                Ok(()),
            )
        }
    }

    /// The record left by a terminal transition that moves nobody:
    /// positions after equal positions before.
    pub open spec fn spec_static_record(
        self,
        c: Challenge,
        reporter: u64,
        outcome: Outcome,
        now: u64,
    ) -> HistoryRecord {
        HistoryRecord {
            channel: self.tournament.channel,
            timestamp: now,
            challenger: c.challenger,
            defender: c.defender,
            reporter,
            challenger_pos_before: self.pos_of(c.challenger),
            defender_pos_before: self.pos_of(c.defender),
            challenger_pos_after: self.pos_of(c.challenger),
            defender_pos_after: self.pos_of(c.defender),
            outcome,
        }
    }

    /// The record left by a resolution that went through the ranking
    /// engine. `ranked` is the played outcome handed to the engine
    /// (challenger's perspective); `stored` is what the record shows —
    /// the same for a reported result, `Forfeited` for a forfeit.
    pub open spec fn spec_ranked_record(
        self,
        c: Challenge,
        reporter: u64,
        stored: Outcome,
        ranked: Outcome,
        now: u64,
    ) -> HistoryRecord {
        let after = crate::ranking::spec_apply(ranked, self.pos_of(c.challenger), self.pos_of(c.defender));
        HistoryRecord {
            channel: self.tournament.channel,
            timestamp: now,
            challenger: c.challenger,
            defender: c.defender,
            reporter,
            challenger_pos_before: self.pos_of(c.challenger),
            defender_pos_before: self.pos_of(c.defender),
            challenger_pos_after: after.0,
            defender_pos_after: after.1,
            outcome: stored,
        }
    }

    /// Transition of a ranked resolution of the open challenge at index
    /// `i`: the ladder-climb applies, the challenge leaves the open set,
    /// exactly one record is appended.
    pub open spec fn spec_resolve(
        self,
        i: int,
        reporter: u64,
        stored: Outcome,
        ranked: Outcome,
        now: u64,
    ) -> LadderView {
        let c = self.challenges[i];
        let ci = self.idx_of(c.challenger);
        let di = self.idx_of(c.defender);
        let wi = if ranked is Won {
            ci
        } else {
            di
        };
        let li = if ranked is Won {
            di
        } else {
            ci
        };
        LadderView {
            roster: if wi < li {
                self.roster
            } else {
                seq_move(self.roster, wi, li)
            },
            challenges: self.challenges.remove(i),
            log: self.log.push(self.spec_ranked_record(c, reporter, stored, ranked, now)),
            ..self
        }
    }

    /// Whether a report of `outcome` by `reporter` at `now` contradicts a
    /// recent resolution the reporter was a party to but did not report:
    /// the first report won, this one is flagged.
    pub open spec fn spec_conflict(self, reporter: u64, outcome: Outcome, now: u64) -> bool {
        exists|k: int|
            0 <= k < self.log.len() && {
                let r = #[trigger] self.log[k];
                &&& (r.challenger == reporter || r.defender == reporter)
                &&& r.reporter != reporter
                &&& (r.outcome is Won || r.outcome is Lost)
                &&& r.timestamp + self.grace_secs >= now
                &&& (if reporter == r.challenger {
                    outcome
                } else {
                    spec_flip(outcome)
                }) != r.outcome
            }
    }

    /// Transition of `result`: only `Won` and `Lost` may be reported;
    /// the report addresses the reporter's open challenge (outgoing
    /// first); with none open, a conflicting recent resolution is
    /// `ResultConflict`, anything else `NoOpenChallenge`.
    pub open spec fn spec_report(self, reporter: u64, outcome: Outcome, now: u64) -> (
        LadderView,
        Result<(), LadderError>,
    ) {
        if !(outcome is Won || outcome is Lost) {
            (self, Err(LadderError::InvalidOutcome))
        } else {
            match self.report_target(reporter) {
                Some(i) => {
                    let c = self.challenges[i];
                    let canonical = if reporter == c.challenger {
                        outcome
                    } else {
                        spec_flip(outcome)
                    };
                    (self.spec_resolve(i, reporter, canonical, canonical, now), Ok(()))
                },
                None => if self.spec_conflict(reporter, outcome, now) {
                    (self, Err(LadderError::ResultConflict))
                } else {
                    (self, Err(LadderError::NoOpenChallenge))
                },
            }
        }
    }

    /// Transition of `cancel`: the requester's open challenge closes with
    /// no ranking effect, leaving one `Cancelled` record.
    pub open spec fn spec_cancel(self, requester: u64, now: u64) -> (
        LadderView,
        Result<(), LadderError>,
    ) {
        match self.report_target(requester) {
            None => (self, Err(LadderError::NoOpenChallenge)),
            Some(i) => {
                let c = self.challenges[i];
                (
                    LadderView {
                        challenges: self.challenges.remove(i),
                        log: self.log.push(
                            self.spec_static_record(c, requester, Outcome::Cancelled, now),
                        ),
                        ..self
                    },
                    Ok(()),
                )
            },
        }
    }

    /// Transition of `forfeit`: the requester's side loses, the ranking
    /// applies as for a normal win of the opponent, the record shows
    /// `Forfeited` with the requester as reporter.
    pub open spec fn spec_forfeit(self, requester: u64, now: u64) -> (
        LadderView,
        Result<(), LadderError>,
    ) {
        match self.report_target(requester) {
            None => (self, Err(LadderError::NoOpenChallenge)),
            Some(i) => {
                let c = self.challenges[i];
                let ranked = if requester == c.challenger {
                    Outcome::Lost
                } else {
                    Outcome::Won
                };
                (self.spec_resolve(i, requester, Outcome::Forfeited, ranked, now), Ok(()))
            },
        }
    }

    /// Transition of `challenge`: propose a match, or refuse in the
    /// documented order — self-challenge, unregistered or inactive party,
    /// duplicate pair or a party at its challenge cap, live timeout.
    pub open spec fn spec_challenge(self, challenger: u64, defender: u64, now: u64) -> (
        LadderView,
        Result<(), LadderError>,
    ) {
        if challenger == defender {
            (self, Err(LadderError::SelfChallenge))
        } else if !self.active_player(challenger) || !self.active_player(defender) {
            (self, Err(LadderError::NotRegistered))
        } else if self.pair_open(challenger, defender) || self.has_open_out(challenger)
            || self.has_open_in(defender) {
            (self, Err(LadderError::DuplicateChallenge))
        } else if self.roster[self.idx_of(challenger)].timed_out(now) || self.roster[self.idx_of(
            defender,
        )].timed_out(now) {
            (self, Err(LadderError::Timeout))
        } else {
            (
                LadderView {
                    challenges: self.challenges.push(
                        Challenge::spec_proposed(challenger, defender, now),
                    ),
                    ..self
                },
                Ok(()),
            )
        }
    }
}

impl LadderState {
    /// A fresh, empty tournament created at `now`.
    pub fn new(channel: u64, mode: Mode, now: u64, grace_secs: u64) -> (r: LadderState)
        ensures
            r@.wf(),
            r@.roster == Seq::<PlayerEntryView>::empty(),
            r@.challenges == Seq::<Challenge>::empty(),
            r@.log == Seq::<HistoryRecord>::empty(),
            r@.tournament == (Tournament {
                channel,
                mode,
                status: TournamentStatus::Active,
                created_at: now,
            }),
            r@.grace_secs == grace_secs,
    {
        let r = LadderState {
            roster: Vec::new(),
            challenges: Vec::new(),
            log: HistoryLog::empty(),
            tournament: Tournament { channel, mode, status: TournamentStatus::Active, created_at: now },
            grace_secs,
        };
        proof {
            assert(r@.roster =~= Seq::<PlayerEntryView>::empty());
        }
        r
    }

    /// The roster index of `id`, if registered.
    pub fn find_player(&self, id: u64) -> (r: Option<usize>)
        ensures
            match r {
                Some(i) => i < self@.roster.len() && self@.roster[i as int].id == id,
                None => !self@.has_player(id),
            },
    {
        let mut i: usize = 0;
        while i < self.roster.len()
            invariant
                i <= self@.roster.len(),
                forall|j: int| 0 <= j < i ==> (#[trigger] self@.roster[j]).id != id,
            decreases self@.roster.len() - i,
        {
            if self.roster[i].id == id {
                return Some(i);
            }
            i = i + 1;
        }
        None
    }

    /// Register `id`: appended at the bottom of the ladder. Returns the
    /// new 1-based position.
    pub fn register(&mut self, id: u64) -> (r: Result<u64, LadderError>)
        requires
            old(self)@.wf(),
        ensures
            final(self)@.wf(),
            (final(self)@, r) == old(self)@.spec_register(id),
    {
        let ghost pre = self@;
        match self.find_player(id) {
            Some(_) => Err(LadderError::AlreadyRegistered),
            None => {
                if self.roster.len() as u64 >= u64::MAX - 1 {
                    return Err(LadderError::OutOfRange);
                }
                let pos = self.roster.len() as u64 + 1;
                self.roster.push(PlayerEntry::fresh(id));
                proof {
                    assert(self@.roster =~= pre.roster.push(PlayerEntryView::fresh(id)));
                    assert(self@ =~= pre.spec_register(id).0);
                    let post = self@;
                    assert forall|p: u64| pre.has_player(p) implies post.has_player(p) by {
                        let w = pre.idx_of(p);
                        assert(post.roster[w].id == p);
                    }
                    let n = pre.roster.len() as int;
                    assert forall|i: int, j: int| 0 <= i < j < post.roster.len() implies post.roster[i].id
                        != post.roster[j].id by {
                        if j == n {
                            assert(post.roster[i] == pre.roster[i]);
                            if pre.roster[i].id == id {
                                assert(pre.has_player(id));
                            }
                        }
                    }
                    assert(post.wf());
                }
                Ok(pos)
            },
        }
    }

    /// Remove `id` from the roster, compacting the positions behind it.
    /// With open challenges the removal is refused unless `force` (an
    /// admin removal), which cancels them first, one record each with
    /// `requester` as the reporter.
    pub fn unregister(&mut self, id: u64, requester: u64, force: bool, now: u64) -> (r: Result<
        (),
        LadderError,
    >)
        requires
            old(self)@.wf(),
        ensures
            final(self)@.wf(),
            (final(self)@, r) == old(self)@.spec_unregister(id, requester, force, now),
    {
        let ghost pre = self@;
        let idx = match self.find_player(id) {
            None => {
                return Err(LadderError::NotRegistered);
            },
            Some(i) => i,
        };
        proof {
            pre.lemma_idx_unique(id, idx as int);
        }
        let mut any = false;
        let mut i: usize = 0;
        while i < self.challenges.len()
            invariant
                i <= pre.challenges.len(),
                any <==> exists|j: int| 0 <= j < i && (#[trigger] pre.challenges[j]).involves(id),
            decreases pre.challenges.len() - i,
        {
            let c = &self.challenges[i];
            if c.challenger == id || c.defender == id {
                any = true;
            }
            i = i + 1;
        }
        if !force && any {
            proof {
                assert(pre.open_involving(id));
            }
            return Err(LadderError::OpenChallengeExists);
        }
        proof {
            if !force {
                assert(!pre.open_involving(id));
            }
        }
        let ghost inv = |c: Challenge| c.involves(id);
        let ghost keepf = |c: Challenge| !c.involves(id);
        let ghost recf = |c: Challenge| pre.spec_static_record(c, requester, Outcome::Cancelled, now);
        let mut kept: Vec<Challenge> = Vec::new();
        let mut n: usize = 0;
        while n < self.challenges.len()
            invariant
                n <= pre.challenges.len(),
                roster_view(self.roster@) == pre.roster,
                self.challenges@ == pre.challenges,
                self.tournament == pre.tournament,
                self.grace_secs == pre.grace_secs,
                self.log@ == pre.log + pre.challenges.take(n as int).filter(inv).map_values(recf),
                kept@ == pre.challenges.take(n as int).filter(keepf),
            decreases pre.challenges.len() - n,
        {
            let c = self.challenges[n];
            proof {
                assert(pre.challenges.take(n as int + 1) =~= pre.challenges.take(n as int).push(c));
                lemma_filter_push(pre.challenges.take(n as int), c, inv);
                lemma_filter_push(pre.challenges.take(n as int), c, keepf);
            }
            if c.challenger == id || c.defender == id {
                let ci = match self.find_player(c.challenger) {
                    Some(x) => x,
                    None => vstd::pervasive::unreached(),
                };
                let di = match self.find_player(c.defender) {
                    Some(x) => x,
                    None => vstd::pervasive::unreached(),
                };
                proof {
                    pre.lemma_idx_unique(c.challenger, ci as int);
                    pre.lemma_idx_unique(c.defender, di as int);
                }
                let cpos = ci as u64 + 1;
                let dpos = di as u64 + 1;
                let rec = HistoryRecord {
                    channel: self.tournament.channel,
                    timestamp: now,
                    challenger: c.challenger,
                    defender: c.defender,
                    reporter: requester,
                    challenger_pos_before: cpos,
                    defender_pos_before: dpos,
                    challenger_pos_after: cpos,
                    defender_pos_after: dpos,
                    outcome: Outcome::Cancelled,
                };
                proof {
                    assert(rec == recf(c));
                    let taken = pre.challenges.take(n as int).filter(inv);
                    assert(taken.push(c).map_values(recf) =~= taken.map_values(recf).push(rec));
                    assert(pre.log + taken.map_values(recf).push(rec) =~= (pre.log
                        + taken.map_values(recf)).push(rec));
                }
                self.log.append(rec);
            } else {
                kept.push(c);
            }
            n = n + 1;
        }
        proof {
            assert(pre.challenges.take(pre.challenges.len() as int) =~= pre.challenges);
        }
        self.challenges = kept;
        let ghost orig = self.roster@;
        let _removed = self.roster.remove(idx);
        proof {
            let post = self@;
            orig.remove_ensures(idx as int);
            pre.roster.remove_ensures(idx as int);
            assert(roster_view(orig.remove(idx as int)) =~= pre.roster.remove(idx as int));
            assert(post =~= pre.spec_unregister(id, requester, force, now).0);
            assert forall|p: u64|
                crate::ranking::has_id(pre.roster, p) && p != id implies crate::ranking::has_id(
                post.roster,
                p,
            ) by {
                let k = choose|k: int|
                    0 <= k < pre.roster.len() && (#[trigger] pre.roster[k]).id == p;
                if k < idx as int {
                    assert(post.roster[k].id == p);
                } else {
                    assert(k != idx as int);
                    assert(post.roster[k - 1].id == p);
                }
            }
            let f = pre.challenges.filter(keepf);
            assert forall|m: int| 0 <= m < f.len() implies {
                &&& (#[trigger] f[m]).is_open()
                &&& f[m].challenger != f[m].defender
                &&& post.has_player(f[m].challenger)
                &&& post.has_player(f[m].defender)
            } by {
                pre.challenges.lemma_filter_pred(keepf, m);
                assert(f.contains(f[m]));
                pre.challenges.lemma_filter_contains_rev(keepf, f[m]);
                let k = choose|k: int|
                    0 <= k < pre.challenges.len() && pre.challenges[k] == f[m];
                assert(pre.challenges[k].is_open());
                assert(pre.has_player(pre.challenges[k].challenger));
                assert(pre.has_player(pre.challenges[k].defender));
                assert(f[m].challenger != id && f[m].defender != id);
            }
            assert(distinct_ids(post.roster)) by {
                assert forall|a: int, b: int|
                    0 <= a < b < post.roster.len() implies post.roster[a].id != post.roster[b].id by {
                    let a2 = if a < idx as int {
                        a
                    } else {
                        a + 1
                    };
                    let b2 = if b < idx as int {
                        b
                    } else {
                        b + 1
                    };
                    assert(post.roster[a] == pre.roster[a2]);
                    assert(post.roster[b] == pre.roster[b2]);
                }
            }
            let ghost r1 = |a: Challenge, b: Challenge| a.challenger != b.challenger;
            let ghost r2 = |a: Challenge, b: Challenge| a.defender != b.defender;
            let ghost r3 = |a: Challenge, b: Challenge|
                !(a.challenger == b.defender && a.defender == b.challenger);
            assert forall|a: int, b: int|
                0 <= a < b < pre.challenges.len() implies #[trigger] r1(
                pre.challenges[a],
                pre.challenges[b],
            ) && #[trigger] r2(pre.challenges[a], pre.challenges[b]) && #[trigger] r3(
                pre.challenges[a],
                pre.challenges[b],
            ) by {}
            lemma_filter_pairwise(pre.challenges, keepf, r1);
            lemma_filter_pairwise(pre.challenges, keepf, r2);
            lemma_filter_pairwise(pre.challenges, keepf, r3);
            assert forall|a: int, b: int| 0 <= a < b < f.len() implies {
                &&& f[a].challenger != f[b].challenger
                &&& f[a].defender != f[b].defender
                &&& !(f[a].challenger == f[b].defender && f[a].defender == f[b].challenger)
            } by {
                assert(r1(f[a], f[b]));
                assert(r2(f[a], f[b]));
                assert(r3(f[a], f[b]));
            }
            assert(post.wf());
        }
        Ok(())
    }

    /// Admin-only relocation of `id` to `new_pos`, the players in between
    /// shifting by one. No history record: only challenge resolutions are
    /// recorded.
    pub fn move_player(&mut self, id: u64, new_pos: u64, is_admin: bool) -> (r: Result<
        (),
        LadderError,
    >)
        requires
            old(self)@.wf(),
        ensures
            final(self)@.wf(),
            (final(self)@, r) == old(self)@.spec_move_player(id, new_pos, is_admin),
    {
        let ghost pre = self@;
        if !is_admin {
            return Err(LadderError::NotAuthorized);
        }
        let idx = match self.find_player(id) {
            None => {
                return Err(LadderError::NotRegistered);
            },
            Some(i) => i,
        };
        if !(1 <= new_pos && new_pos <= self.roster.len() as u64) {
            return Err(LadderError::OutOfRange);
        }
        let to = (new_pos - 1) as usize;
        proof {
            assert(pre.idx_of(id) == idx as int) by {
                let w = pre.idx_of(id);
                assert(pre.roster[w].id == id);
                assert(pre.roster[idx as int].id == id);
            }
        }
        crate::ranking::relocate(&mut self.roster, idx, to);
        proof {
            let post = self@;
            assert(post =~= pre.spec_move_player(id, new_pos, is_admin).0);
            crate::ranking::lemma_seq_move_distinct(pre.roster, idx as int, to as int);
            crate::ranking::lemma_seq_move_index(pre.roster, idx as int, to as int);
            crate::ranking::lemma_seq_move_keeps_ids(pre.roster, idx as int, to as int);
            assert(post.wf());
        }
        Ok(())
    }

    /// Propose a challenge from `challenger` against `defender` at `now`.
    pub fn challenge(&mut self, challenger: u64, defender: u64, now: u64) -> (r: Result<
        (),
        LadderError,
    >)
        requires
            old(self)@.wf(),
        ensures
            final(self)@.wf(),
            (final(self)@, r) == old(self)@.spec_challenge(challenger, defender, now),
    {
        let ghost pre = self@;
        if challenger == defender {
            return Err(LadderError::SelfChallenge);
        }
        let ci = match self.find_player(challenger) {
            None => {
                return Err(LadderError::NotRegistered);
            },
            Some(i) => i,
        };
        let di = match self.find_player(defender) {
            None => {
                return Err(LadderError::NotRegistered);
            },
            Some(i) => i,
        };
        proof {
            assert(pre.idx_of(challenger) == ci as int) by {
                let w = pre.idx_of(challenger);
                assert(pre.roster[w].id == challenger);
            }
            assert(pre.idx_of(defender) == di as int) by {
                let w = pre.idx_of(defender);
                assert(pre.roster[w].id == defender);
            }
        }
        let c_active = match self.roster[ci].status {
            PlayerStatus::Active => true,
            PlayerStatus::Suspended => false,
        };
        let d_active = match self.roster[di].status {
            PlayerStatus::Active => true,
            PlayerStatus::Suspended => false,
        };
        if !c_active || !d_active {
            return Err(LadderError::NotRegistered);
        }
        let mut i: usize = 0;
        let mut dup = false;
        while i < self.challenges.len()
            invariant
                i <= pre.challenges.len(),
                dup <==> exists|j: int|
                    0 <= j < i && {
                        let c = #[trigger] pre.challenges[j];
                        ||| (c.challenger == challenger && c.defender == defender)
                        ||| (c.challenger == defender && c.defender == challenger)
                        ||| c.challenger == challenger
                        ||| c.defender == defender
                    },
            decreases pre.challenges.len() - i,
        {
            let c = &self.challenges[i];
            if (c.challenger == challenger && c.defender == defender) || (c.challenger == defender
                && c.defender == challenger) || c.challenger == challenger || c.defender
                == defender {
                dup = true;
            }
            i = i + 1;
        }
        if dup {
            proof {
                assert(pre.pair_open(challenger, defender) || pre.has_open_out(challenger)
                    || pre.has_open_in(defender));
            }
            return Err(LadderError::DuplicateChallenge);
        }
        proof {
            assert(!(pre.pair_open(challenger, defender) || pre.has_open_out(challenger)
                || pre.has_open_in(defender)));
        }
        if self.roster[ci].is_timed_out(now) || self.roster[di].is_timed_out(now) {
            return Err(LadderError::Timeout);
        }
        self.challenges.push(Challenge::proposed(challenger, defender, now));
        proof {
            let post = self@;
            assert(post =~= pre.spec_challenge(challenger, defender, now).0);
            assert(post.wf()) by {
                assert(forall|p: u64| pre.has_player(p) ==> post.has_player(p));
                let n = pre.challenges.len() as int;
                assert(post.challenges[n].challenger == challenger);
                assert(pre.has_player(challenger) && pre.has_player(defender));
            }
        }
        Ok(())
    }

    /// The standings: one row per player, in rank order, position
    /// `i + 1` at index `i`. A read view: the state is untouched.
    pub fn standings(&self) -> (r: Vec<StandingsRow>)
        requires
            self@.wf(),
        ensures
            r@ == self@.spec_standings(),
    {
        let mut out: Vec<StandingsRow> = Vec::new();
        let mut i: usize = 0;
        while i < self.roster.len()
            invariant
                i <= self@.roster.len(),
                out@.len() == i as int,
                forall|j: int| 0 <= j < i ==> out@[j] == self@.spec_standings()[j],
            decreases self@.roster.len() - i,
        {
            let e = &self.roster[i];
            out.push(
                StandingsRow { position: i as u64 + 1, player: e.id, status: e.status, admin: e.admin },
            );
            i = i + 1;
        }
        proof {
            assert(out@ =~= self@.spec_standings());
        }
        out
    }

    /// An exact copy of the whole state: the snapshot the caller persists
    /// before a mutation and restores if the durable write fails, and the
    /// raw dump behind the `printraw` view.
    pub fn duplicate(&self) -> (r: LadderState)
        ensures
            r@ == self@,
    {
        let mut roster: Vec<PlayerEntry> = Vec::new();
        let mut i: usize = 0;
        while i < self.roster.len()
            invariant
                i <= self@.roster.len(),
                roster@.len() == i as int,
                forall|j: int| 0 <= j < i ==> roster@[j]@ == self@.roster[j],
            decreases self@.roster.len() - i,
        {
            let e = self.roster[i].duplicate();
            roster.push(e);
            i = i + 1;
        }
        let mut challenges: Vec<Challenge> = Vec::new();
        let mut k: usize = 0;
        while k < self.challenges.len()
            invariant
                k <= self@.challenges.len(),
                challenges@ == self@.challenges.take(k as int),
            decreases self@.challenges.len() - k,
        {
            challenges.push(self.challenges[k]);
            proof {
                assert(challenges@ =~= self@.challenges.take(k as int + 1));
            }
            k = k + 1;
        }
        let r = LadderState {
            roster,
            challenges,
            log: self.log.duplicate(),
            tournament: self.tournament,
            grace_secs: self.grace_secs,
        };
        proof {
            assert(r@.roster =~= self@.roster);
            assert(r@.challenges =~= self@.challenges);
            assert(r@ =~= self@);
        }
        r
    }

    /// Replace the state with a previously taken copy: the rollback a
    /// caller performs when the durable write of a mutation fails, so
    /// that the mutation is never observable.
    pub fn restore(&mut self, backup: LadderState)
        ensures
            final(self)@ == backup@,
    {
        *self = backup;
    }

    /// Rebuild a state from its stored parts, admitting it only when the
    /// well-formedness invariant holds: the validation behind loading a
    /// snapshot from the durable store.
    pub fn from_parts(
        roster: Vec<PlayerEntry>,
        challenges: Vec<Challenge>,
        log: HistoryLog,
        tournament: Tournament,
        grace_secs: u64,
    ) -> (r: Result<LadderState, LadderError>)
        ensures
            ({
                let v = LadderView {
                    roster: roster_view(roster@),
                    challenges: challenges@,
                    log: log@,
                    tournament,
                    grace_secs,
                };
                match r {
                    Ok(s) => v.wf() && s@ == v,
                    Err(e) => e == LadderError::InvalidValue && !v.wf(),
                }
            }),
    {
        let ghost v = LadderView {
            roster: roster_view(roster@),
            challenges: challenges@,
            log: log@,
            tournament,
            grace_secs,
        };
        if roster.len() as u64 == u64::MAX {
            return Err(LadderError::InvalidValue);
        }
        let mut i: usize = 0;
        while i < roster.len()
            invariant
                i <= v.roster.len(),
                forall|a: int, b: int|
                    0 <= a < b < v.roster.len() && a < i ==> v.roster[a].id != v.roster[b].id,
            decreases v.roster.len() - i,
        {
            let mut j: usize = i + 1;
            while j < roster.len()
                invariant
                    i < j <= v.roster.len(),
                    forall|b: int| i < b < j ==> v.roster[i as int].id != v.roster[b].id,
                decreases v.roster.len() - j,
            {
                if roster[i].id == roster[j].id {
                    proof {
                        assert(v.roster[i as int].id == v.roster[j as int].id);
                        assert(!distinct_ids(v.roster));
                        assert(!v.wf());
                    }
                    return Err(LadderError::InvalidValue);
                }
                j = j + 1;
            }
            i = i + 1;
        }
        let state = LadderState { roster, challenges, log, tournament, grace_secs };
        let mut k: usize = 0;
        while k < state.challenges.len()
            invariant
                k <= v.challenges.len(),
                state@ == v,
                forall|a: int|
                    0 <= a < k ==> {
                        let c = #[trigger] v.challenges[a];
                        &&& c.is_open()
                        &&& c.challenger != c.defender
                        &&& v.has_player(c.challenger)
                        &&& v.has_player(c.defender)
                    },
                forall|a: int, b: int|
                    0 <= a < b < v.challenges.len() && a < k ==> {
                        let ca = #[trigger] v.challenges[a];
                        let cb = #[trigger] v.challenges[b];
                        &&& ca.challenger != cb.challenger
                        &&& ca.defender != cb.defender
                        &&& !(ca.challenger == cb.defender && ca.defender == cb.challenger)
                    },
            decreases v.challenges.len() - k,
        {
            let c = state.challenges[k];
            let is_open = match c.state {
                ChallengeState::Proposed => true,
                _ => false,
            };
            if !is_open || c.challenger == c.defender {
                return Err(LadderError::InvalidValue);
            }
            if state.find_player(c.challenger).is_none() || state.find_player(c.defender).is_none() {
                return Err(LadderError::InvalidValue);
            }
            let mut m: usize = k + 1;
            while m < state.challenges.len()
                invariant
                    k < m <= v.challenges.len(),
                    state@ == v,
                    forall|b: int|
                        k < b < m ==> {
                            let ca = v.challenges[k as int];
                            let cb = #[trigger] v.challenges[b];
                            &&& ca.challenger != cb.challenger
                            &&& ca.defender != cb.defender
                            &&& !(ca.challenger == cb.defender && ca.defender == cb.challenger)
                        },
                decreases v.challenges.len() - m,
            {
                let d = state.challenges[m];
                if c.challenger == d.challenger || c.defender == d.defender || (c.challenger
                    == d.defender && c.defender == d.challenger) {
                    return Err(LadderError::InvalidValue);
                }
                m = m + 1;
            }
            k = k + 1;
        }
        proof {
            assert(v.wf());
        }
        Ok(state)
    }

    /// The open challenge a report or cancellation from `p` addresses:
    /// the outgoing one when `p` holds one, else the incoming one.
    pub fn open_idx_for(&self, p: u64) -> (r: Option<usize>)
        requires
            self@.wf(),
        ensures
            match r {
                Some(i) => i < self@.challenges.len() && self@.report_target(p) == Some(i as int),
                None => self@.report_target(p) is None,
            },
    {
        let mut i: usize = 0;
        while i < self.challenges.len()
            invariant
                i <= self@.challenges.len(),
                forall|j: int| 0 <= j < i ==> (#[trigger] self@.challenges[j]).challenger != p,
            decreases self@.challenges.len() - i,
        {
            if self.challenges[i].challenger == p {
                proof {
                    assert(self@.has_open_out(p));
                    let w = choose|k: int|
                        0 <= k < self@.challenges.len() && (#[trigger] self@.challenges[k]).challenger
                            == p;
                    assert(self@.challenges[w].challenger == p);
                    assert(w == i as int);
                }
                return Some(i);
            }
            i = i + 1;
        }
        proof {
            assert(!self@.has_open_out(p));
        }
        let mut k: usize = 0;
        while k < self.challenges.len()
            invariant
                k <= self@.challenges.len(),
                forall|j: int| 0 <= j < k ==> (#[trigger] self@.challenges[j]).defender != p,
            decreases self@.challenges.len() - k,
        {
            if self.challenges[k].defender == p {
                proof {
                    assert(self@.has_open_in(p));
                    let w = choose|j: int|
                        0 <= j < self@.challenges.len() && (#[trigger] self@.challenges[j]).defender
                            == p;
                    assert(self@.challenges[w].defender == p);
                    assert(w == k as int);
                }
                return Some(k);
            }
            k = k + 1;
        }
        proof {
            assert(!self@.has_open_in(p));
        }
        None
    }

    /// Close the open challenge at index `i` through the ranking engine.
    /// `ranked` is the played outcome from the challenger's perspective;
    /// `stored` is what the history record shows.
    fn resolve_at(&mut self, i: usize, reporter: u64, stored: Outcome, ranked: Outcome, now: u64)
        requires
            old(self)@.wf(),
            i < old(self)@.challenges.len(),
            ranked is Won || ranked is Lost,
        ensures
            final(self)@.wf(),
            final(self)@ == old(self)@.spec_resolve(i as int, reporter, stored, ranked, now),
    {
        let ghost pre = self@;
        let c = self.challenges[i];
        let ci = match self.find_player(c.challenger) {
            Some(x) => x,
            None => vstd::pervasive::unreached(),
        };
        let di = match self.find_player(c.defender) {
            Some(x) => x,
            None => vstd::pervasive::unreached(),
        };
        proof {
            pre.lemma_idx_unique(c.challenger, ci as int);
            pre.lemma_idx_unique(c.defender, di as int);
            assert(c.challenger != c.defender);
        }
        let cpos = ci as u64 + 1;
        let dpos = di as u64 + 1;
        let after = crate::ranking::apply(ranked, cpos, dpos);
        let rec = HistoryRecord {
            channel: self.tournament.channel,
            timestamp: now,
            challenger: c.challenger,
            defender: c.defender,
            reporter,
            challenger_pos_before: cpos,
            defender_pos_before: dpos,
            challenger_pos_after: after.0,
            defender_pos_after: after.1,
            outcome: stored,
        };
        let ranked_won = match ranked {
            Outcome::Won => true,
            _ => false,
        };
        let wi = if ranked_won {
            ci
        } else {
            di
        };
        let li = if ranked_won {
            di
        } else {
            ci
        };
        if wi > li {
            crate::ranking::relocate(&mut self.roster, wi, li);
            proof {
                crate::ranking::lemma_seq_move_distinct(pre.roster, wi as int, li as int);
                crate::ranking::lemma_seq_move_keeps_ids(pre.roster, wi as int, li as int);
            }
        }
        self.challenges.remove(i);
        self.log.append(rec);
        proof {
            let post = self@;
            pre.challenges.remove_ensures(i as int);
            assert(post =~= pre.spec_resolve(i as int, reporter, stored, ranked, now));
            assert(post.wf()) by {
                assert(forall|p: u64| pre.has_player(p) ==> post.has_player(p));
            }
        }
    }

    /// Report the result of the reporter's open challenge: `Won` or
    /// `Lost`, from the reporter's own perspective. First report wins; a
    /// conflicting report from the other party within the grace window is
    /// refused with `ResultConflict` and left to an admin.
    pub fn report_result(&mut self, reporter: u64, outcome: Outcome, now: u64) -> (r: Result<
        (),
        LadderError,
    >)
        requires
            old(self)@.wf(),
        ensures
            final(self)@.wf(),
            (final(self)@, r) == old(self)@.spec_report(reporter, outcome, now),
    {
        let ghost pre = self@;
        let played = match outcome {
            Outcome::Won => true,
            Outcome::Lost => true,
            _ => false,
        };
        if !played {
            return Err(LadderError::InvalidOutcome);
        }
        match self.open_idx_for(reporter) {
            Some(i) => {
                let c = self.challenges[i];
                let canonical = if reporter == c.challenger {
                    outcome
                } else {
                    flip_outcome(outcome)
                };
                self.resolve_at(i, reporter, canonical, canonical, now);
                Ok(())
            },
            None => {
                let mut k: usize = 0;
                let mut found = false;
                while k < self.log.records.len()
                    invariant
                        k <= pre.log.len(),
                        found <==> exists|j: int|
                            0 <= j < k && {
                                let rr = #[trigger] pre.log[j];
                                &&& (rr.challenger == reporter || rr.defender == reporter)
                                &&& rr.reporter != reporter
                                &&& (rr.outcome is Won || rr.outcome is Lost)
                                &&& rr.timestamp + pre.grace_secs >= now
                                &&& (if reporter == rr.challenger {
                                    outcome
                                } else {
                                    spec_flip(outcome)
                                }) != rr.outcome
                            },
                    decreases pre.log.len() - k,
                {
                    let rr = self.log.records[k];
                    let involves = rr.challenger == reporter || rr.defender == reporter;
                    let other_party = rr.reporter != reporter;
                    let played_rec = match rr.outcome {
                        Outcome::Won => true,
                        Outcome::Lost => true,
                        _ => false,
                    };
                    let within = if rr.timestamp >= now {
                        true
                    } else {
                        now - rr.timestamp <= self.grace_secs
                    };
                    let claim = if reporter == rr.challenger {
                        outcome
                    } else {
                        flip_outcome(outcome)
                    };
                    if involves && other_party && played_rec && within && claim != rr.outcome {
                        found = true;
                    }
                    k = k + 1;
                }
                if found {
                    Err(LadderError::ResultConflict)
                } else {
                    proof {
                        assert(!pre.spec_conflict(reporter, outcome, now));
                    }
                    Err(LadderError::NoOpenChallenge)
                }
            },
        }
    }

    /// Cancel the requester's open challenge: no ranking effect, one
    /// `Cancelled` record.
    pub fn cancel(&mut self, requester: u64, now: u64) -> (r: Result<(), LadderError>)
        requires
            old(self)@.wf(),
        ensures
            final(self)@.wf(),
            (final(self)@, r) == old(self)@.spec_cancel(requester, now),
    {
        let ghost pre = self@;
        match self.open_idx_for(requester) {
            None => Err(LadderError::NoOpenChallenge),
            Some(i) => {
                let c = self.challenges[i];
                let ci = match self.find_player(c.challenger) {
                    Some(x) => x,
                    None => vstd::pervasive::unreached(),
                };
                let di = match self.find_player(c.defender) {
                    Some(x) => x,
                    None => vstd::pervasive::unreached(),
                };
                proof {
                    pre.lemma_idx_unique(c.challenger, ci as int);
                    pre.lemma_idx_unique(c.defender, di as int);
                }
                let cpos = ci as u64 + 1;
                let dpos = di as u64 + 1;
                let rec = HistoryRecord {
                    channel: self.tournament.channel,
                    timestamp: now,
                    challenger: c.challenger,
                    defender: c.defender,
                    reporter: requester,
                    challenger_pos_before: cpos,
                    defender_pos_before: dpos,
                    challenger_pos_after: cpos,
                    defender_pos_after: dpos,
                    outcome: Outcome::Cancelled,
                };
                self.challenges.remove(i);
                self.log.append(rec);
                proof {
                    let post = self@;
                    pre.challenges.remove_ensures(i as int);
                    assert(post =~= pre.spec_cancel(requester, now).0);
                    assert(post.wf());
                }
                Ok(())
            },
        }
    }

    /// The `set` command: mutate one recognized field. User-level keys
    /// (`notes`, `status`, `timeout`) edit the caller's own entry;
    /// system-level keys (`mode`, `admin_add`, `admin_remove`) demand the
    /// admin capability. Unrecognized pairs are `UnknownKey`; values that
    /// do not parse for their key are `InvalidValue`.
    pub fn set_field(
        &mut self,
        caller: u64,
        is_admin: bool,
        level: &str,
        key: &str,
        value: &str,
    ) -> (r: Result<(), LadderError>)
        requires
            old(self)@.wf(),
        ensures
            final(self)@.wf(),
            (final(self)@, r) == old(self)@.spec_set(caller, is_admin, level@, key@, value@),
    {
        let ghost pre = self@;
        if crate::text::str_is(level, "user") {
            if crate::text::str_is(key, "notes") {
                let i = match self.find_player(caller) {
                    None => {
                        return Err(LadderError::NotRegistered);
                    },
                    Some(i) => i,
                };
                proof {
                    pre.lemma_idx_unique(caller, i as int);
                }
                let ghost orig = self.roster@;
                let mut e = self.roster.remove(i);
                e.notes = value.to_owned();
                self.roster.insert(i, e);
                proof {
                    self.finish_entry_update(pre, orig, i as int);
                }
                Ok(())
            } else if crate::text::str_is(key, "status") {
                let i = match self.find_player(caller) {
                    None => {
                        return Err(LadderError::NotRegistered);
                    },
                    Some(i) => i,
                };
                proof {
                    pre.lemma_idx_unique(caller, i as int);
                }
                let active = crate::text::str_is(value, "active");
                let suspended = crate::text::str_is(value, "suspended");
                if !active && !suspended {
                    return Err(LadderError::InvalidValue);
                }
                let ghost orig = self.roster@;
                let mut e = self.roster.remove(i);
                e.status = if active {
                    PlayerStatus::Active
                } else {
                    PlayerStatus::Suspended
                };
                self.roster.insert(i, e);
                proof {
                    self.finish_entry_update(pre, orig, i as int);
                }
                Ok(())
            } else if crate::text::str_is(key, "timeout") {
                let i = match self.find_player(caller) {
                    None => {
                        return Err(LadderError::NotRegistered);
                    },
                    Some(i) => i,
                };
                proof {
                    pre.lemma_idx_unique(caller, i as int);
                }
                let t = match crate::text::parse_u64(value) {
                    None => {
                        return Err(LadderError::InvalidValue);
                    },
                    Some(t) => t,
                };
                let ghost orig = self.roster@;
                let mut e = self.roster.remove(i);
                e.timeout_until = if t == 0 {
                    None
                } else {
                    Some(t)
                };
                self.roster.insert(i, e);
                proof {
                    self.finish_entry_update(pre, orig, i as int);
                }
                Ok(())
            } else {
                Err(LadderError::UnknownKey)
            }
        } else if crate::text::str_is(level, "system") {
            if !is_admin {
                return Err(LadderError::NotAuthorized);
            }
            if crate::text::str_is(key, "mode") {
                if crate::text::str_is(value, "ladder1v1") {
                    self.tournament.mode = Mode::Ladder1v1;
                    proof {
                        assert(self@ =~= pre.spec_set(caller, is_admin, level@, key@, value@).0);
                    }
                    Ok(())
                } else {
                    Err(LadderError::InvalidValue)
                }
            } else if crate::text::str_is(key, "admin_add") || crate::text::str_is(
                key,
                "admin_remove",
            ) {
                let t = match crate::text::parse_u64(value) {
                    None => {
                        return Err(LadderError::InvalidValue);
                    },
                    Some(t) => t,
                };
                let i = match self.find_player(t) {
                    None => {
                        return Err(LadderError::NotRegistered);
                    },
                    Some(i) => i,
                };
                proof {
                    pre.lemma_idx_unique(t, i as int);
                }
                let grant = crate::text::str_is(key, "admin_add");
                let ghost orig = self.roster@;
                let mut e = self.roster.remove(i);
                e.admin = grant;
                self.roster.insert(i, e);
                proof {
                    self.finish_entry_update(pre, orig, i as int);
                }
                Ok(())
            } else {
                Err(LadderError::UnknownKey)
            }
        } else {
            Err(LadderError::UnknownKey)
        }
    }

    /// After a remove-mutate-insert of the entry at `i`, the state is the
    /// old one with that entry updated, and still well formed.
    proof fn finish_entry_update(&self, pre: LadderView, orig: Seq<PlayerEntry>, i: int)
        requires
            pre.wf(),
            roster_view(orig) == pre.roster,
            0 <= i < orig.len(),
            self.roster@.len() == orig.len(),
            forall|k: int| 0 <= k < orig.len() && k != i ==> self.roster@[k] == orig[k],
            self@.challenges == pre.challenges,
            self@.log == pre.log,
            self@.tournament == pre.tournament,
            self@.grace_secs == pre.grace_secs,
            self.roster@[i]@.id == pre.roster[i].id,
        ensures
            self@.wf(),
            self@ == pre.spec_with_entry(i, self.roster@[i]@),
    {
        lemma_replace_entry_view(orig, self.roster@, i);
        pre.lemma_wf_update(i, self.roster@[i]@);
        assert(self@ =~= pre.spec_with_entry(i, self.roster@[i]@));
    }

    /// Forfeit the requester's side of their open challenge: counts as a
    /// loss for the requester, one `Forfeited` record.
    pub fn forfeit(&mut self, requester: u64, now: u64) -> (r: Result<(), LadderError>)
        requires
            old(self)@.wf(),
        ensures
            final(self)@.wf(),
            (final(self)@, r) == old(self)@.spec_forfeit(requester, now),
    {
        match self.open_idx_for(requester) {
            None => Err(LadderError::NoOpenChallenge),
            Some(i) => {
                let c = self.challenges[i];
                let ranked = if requester == c.challenger {
                    Outcome::Lost
                } else {
                    Outcome::Won
                };
                self.resolve_at(i, requester, Outcome::Forfeited, ranked, now);
                Ok(())
            },
        }
    }
}

} // verus!
