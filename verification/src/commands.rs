//! The command surface: an explicit tagged-union command type and one
//! dispatch function mapping each variant to its engine operation. The
//! transport collaborator parses chat input into a `Command`, resolves
//! the caller's identity and admin capability, and hands both here
//! together with the channel, the deployment's mode, and the time.

use crate::challenge::Outcome;
use crate::errors::LadderError;
use crate::history::HistoryRecord;
use crate::ladder::LadderState;
use crate::ladder::LadderView;
use crate::ladder::Mode;
use crate::ladder::StandingsRow;
use crate::ladder::DEFAULT_GRACE_SECS;
use crate::registry::has_active;
use crate::registry::key_idx;
use crate::registry::reg_wf;
use crate::registry::spec_create;
use crate::registry::spec_delete;
use crate::registry::TournamentRegistry;
use vstd::prelude::*;

verus! {

/// How many history records the `history` view shows when the caller
/// names no length.
pub const DEFAULT_HISTORY_LEN: u64 = 10;

/// One chat command, already parsed and identity-resolved.
#[derive(Debug)]
pub enum Command {
    /// Initialize the tournament for the channel and mode.
    Init,
    /// Soft-delete the tournament; history is retained.
    DeleteTournament,
    /// Register the caller, or (admin only) the named player.
    Register { target: Option<u64> },
    /// Unregister the caller, or (admin only) the named player; an admin
    /// removal is forced, auto-cancelling the player's open challenges.
    Unregister { target: Option<u64> },
    /// Challenge the named player.
    Challenge { defender: u64 },
    /// Report the caller's open challenge as won or lost, from the
    /// caller's own perspective.
    ReportResult { outcome: Outcome },
    /// Cancel the caller's open challenge.
    Cancel,
    /// Forfeit the caller's side of their open challenge.
    Forfeit,
    /// Move a player to a position (admin only).
    MovePlayer { player: u64, position: u64 },
    /// Read the standings.
    Standings,
    /// Read the most recent history records.
    History { limit: Option<u64> },
    /// Read a raw copy of the whole tournament state.
    PrintRaw,
    /// Set one recognized field at level `user` or `system`.
    SetField { level: String, key: String, value: String },
}

/// What a successful command hands back to the transport.
#[derive(Debug)]
pub enum Reply {
    /// The mutation completed.
    Done,
    /// The position a newly registered player received.
    Position(u64),
    /// The standings rows, in rank order.
    Standings(Vec<StandingsRow>),
    /// History records, newest first.
    History(Vec<HistoryRecord>),
    /// A copy of the full tournament state.
    Raw(LadderState),
}

/// The state the key holds (meaningful only under `has_active`).
pub open spec fn state_at(r: Seq<LadderView>, channel: u64, mode: Mode) -> LadderView {
    r[key_idx(r, channel, mode)]
}

/// The registry with the key's state replaced.
pub open spec fn with_state(r: Seq<LadderView>, channel: u64, mode: Mode, s: LadderView) -> Seq<
    LadderView,
> {
    r.update(key_idx(r, channel, mode), s)
}

/// Replacing one entry without touching its key keeps the registry well
/// formed.
proof fn lemma_reg_update(pre: Seq<LadderView>, post: Seq<LadderView>, i: int)
    requires
        reg_wf(pre),
        0 <= i < pre.len(),
        post.len() == pre.len(),
        forall|k: int| 0 <= k < pre.len() && k != i ==> post[k] == pre[k],
        post[i].wf(),
        post[i].tournament.channel == pre[i].tournament.channel,
        post[i].tournament.mode == pre[i].tournament.mode,
    ensures
        reg_wf(post),
{
}

/// Route one command to its engine operation. Every command but `Init`
/// demands an active tournament for the key and fails with
/// `NotInitialized` otherwise; reads leave the registry untouched. After
/// a mutating command the caller persists the key's state (taking a
/// `duplicate` beforehand and `restore`-ing it if the write fails).
#[verifier::rlimit(100)]
pub fn dispatch(
    reg: &mut TournamentRegistry,
    channel: u64,
    mode: Mode,
    caller: u64,
    is_admin: bool,
    now: u64,
    cmd: Command,
) -> (r: Result<Reply, LadderError>)
    requires
        reg_wf(old(reg)@),
    ensures
        reg_wf(final(reg)@),
        match cmd {
            Command::Init => {
                let (r2, res) = spec_create(old(reg)@, channel, mode, now, DEFAULT_GRACE_SECS);
                &&& final(reg)@ == r2
                &&& (r matches Ok(Reply::Done) <==> res is Ok)
                &&& (res matches Err(e) ==> r == Err::<Reply, LadderError>(e))
            },
            Command::DeleteTournament => {
                let (r2, res) = spec_delete(old(reg)@, channel, mode);
                &&& final(reg)@ == r2
                &&& (r matches Ok(Reply::Done) <==> res is Ok)
                &&& (res matches Err(e) ==> r == Err::<Reply, LadderError>(e))
            },
            _ => {
                if !has_active(old(reg)@, channel, mode) {
                    final(reg)@ == old(reg)@ && r == Err::<Reply, LadderError>(
                        LadderError::NotInitialized,
                    )
                } else {
                    let s = state_at(old(reg)@, channel, mode);
                    match cmd {
                        Command::Register { target } => {
                            if target is Some && !is_admin {
                                final(reg)@ == old(reg)@ && r == Err::<Reply, LadderError>(
                                    LadderError::NotAuthorized,
                                )
                            } else {
                                let who = if target is Some {
                                    target.unwrap()
                                } else {
                                    caller
                                };
                                let (s2, res) = s.spec_register(who);
                                &&& final(reg)@ == with_state(old(reg)@, channel, mode, s2)
                                &&& (match res {
                                    Ok(p) => r == Ok::<Reply, LadderError>(Reply::Position(p)),
                                    Err(e) => r == Err::<Reply, LadderError>(e),
                                })
                            }
                        },
                        Command::Unregister { target } => {
                            if target is Some && !is_admin {
                                final(reg)@ == old(reg)@ && r == Err::<Reply, LadderError>(
                                    LadderError::NotAuthorized,
                                )
                            } else {
                                let who = if target is Some {
                                    target.unwrap()
                                } else {
                                    caller
                                };
                                let (s2, res) = s.spec_unregister(who, caller, is_admin, now);
                                &&& final(reg)@ == with_state(old(reg)@, channel, mode, s2)
                                &&& (match res {
                                    Ok(u) => r == Ok::<Reply, LadderError>(Reply::Done),
                                    Err(e) => r == Err::<Reply, LadderError>(e),
                                })
                            }
                        },
                        Command::Challenge { defender } => {
                            let (s2, res) = s.spec_challenge(caller, defender, now);
                            &&& final(reg)@ == with_state(old(reg)@, channel, mode, s2)
                            &&& (match res {
                                Ok(u) => r == Ok::<Reply, LadderError>(Reply::Done),
                                Err(e) => r == Err::<Reply, LadderError>(e),
                            })
                        },
                        Command::ReportResult { outcome } => {
                            let (s2, res) = s.spec_report(caller, outcome, now);
                            &&& final(reg)@ == with_state(old(reg)@, channel, mode, s2)
                            &&& (match res {
                                Ok(u) => r == Ok::<Reply, LadderError>(Reply::Done),
                                Err(e) => r == Err::<Reply, LadderError>(e),
                            })
                        },
                        Command::Cancel => {
                            let (s2, res) = s.spec_cancel(caller, now);
                            &&& final(reg)@ == with_state(old(reg)@, channel, mode, s2)
                            &&& (match res {
                                Ok(u) => r == Ok::<Reply, LadderError>(Reply::Done),
                                Err(e) => r == Err::<Reply, LadderError>(e),
                            })
                        },
                        Command::Forfeit => {
                            let (s2, res) = s.spec_forfeit(caller, now);
                            &&& final(reg)@ == with_state(old(reg)@, channel, mode, s2)
                            &&& (match res {
                                Ok(u) => r == Ok::<Reply, LadderError>(Reply::Done),
                                Err(e) => r == Err::<Reply, LadderError>(e),
                            })
                        },
                        Command::MovePlayer { player, position } => {
                            let (s2, res) = s.spec_move_player(player, position, is_admin);
                            &&& final(reg)@ == with_state(old(reg)@, channel, mode, s2)
                            &&& (match res {
                                Ok(u) => r == Ok::<Reply, LadderError>(Reply::Done),
                                Err(e) => r == Err::<Reply, LadderError>(e),
                            })
                        },
                        Command::SetField { level, key, value } => {
                            let (s2, res) = s.spec_set(caller, is_admin, level@, key@, value@);
                            &&& final(reg)@ == with_state(old(reg)@, channel, mode, s2)
                            &&& (match res {
                                Ok(u) => r == Ok::<Reply, LadderError>(Reply::Done),
                                Err(e) => r == Err::<Reply, LadderError>(e),
                            })
                        },
                        Command::Standings => {
                            &&& final(reg)@ == old(reg)@
                            &&& (match r {
                                Ok(Reply::Standings(rows)) => rows@ == s.spec_standings(),
                                _ => false,
                            })
                        },
                        Command::History { limit } => {
                            let want = if limit is Some {
                                limit.unwrap()
                            } else {
                                DEFAULT_HISTORY_LEN
                            };
                            &&& final(reg)@ == old(reg)@
                            &&& (match r {
                                Ok(Reply::History(rows)) => {
                                    &&& rows@.len() == if want <= s.log.len() {
                                        want as int
                                    } else {
                                        s.log.len() as int
                                    }
                                    &&& forall|i: int|
                                        0 <= i < rows@.len() ==> rows@[i] == s.log[s.log.len() - 1
                                            - i]
                                },
                                _ => false,
                            })
                        },
                        Command::PrintRaw => {
                            &&& final(reg)@ == old(reg)@
                            &&& (match r {
                                Ok(Reply::Raw(st)) => st@ == s,
                                _ => false,
                            })
                        },
                        _ => true,
                    }
                }
            },
        },
{
    let ghost pre = reg@;
    match cmd {
        Command::Init => {
            match reg.create(channel, mode, now, DEFAULT_GRACE_SECS) {
                Ok(u) => Ok(Reply::Done),
                Err(e) => Err(e),
            }
        },
        Command::DeleteTournament => {
            match reg.delete(channel, mode) {
                Ok(u) => Ok(Reply::Done),
                Err(e) => Err(e),
            }
        },
        Command::Register { target } => {
            let i = match reg.find_active(channel, mode) {
                None => {
                    return Err(LadderError::NotInitialized);
                },
                Some(i) => i,
            };
            if target.is_some() && !is_admin {
                return Err(LadderError::NotAuthorized);
            }
            let who = match target {
                Some(t) => t,
                None => caller,
            };
            let mut st = reg.states.remove(i);
            let res = st.register(who);
            let ghost stv = st@;
            reg.states.insert(i, st);
            proof {
                assert(reg@ =~~= with_state(pre, channel, mode, stv));
                lemma_reg_update(pre, reg@, i as int);
            }
            match res {
                Ok(p) => Ok(Reply::Position(p)),
                Err(e) => Err(e),
            }
        },
        Command::Unregister { target } => {
            let i = match reg.find_active(channel, mode) {
                None => {
                    return Err(LadderError::NotInitialized);
                },
                Some(i) => i,
            };
            if target.is_some() && !is_admin {
                return Err(LadderError::NotAuthorized);
            }
            let who = match target {
                Some(t) => t,
                None => caller,
            };
            let mut st = reg.states.remove(i);
            let res = st.unregister(who, caller, is_admin, now);
            let ghost stv = st@;
            reg.states.insert(i, st);
            proof {
                assert(reg@ =~~= with_state(pre, channel, mode, stv));
                lemma_reg_update(pre, reg@, i as int);
            }
            match res {
                Ok(u) => Ok(Reply::Done),
                Err(e) => Err(e),
            }
        },
        Command::Challenge { defender } => {
            let i = match reg.find_active(channel, mode) {
                None => {
                    return Err(LadderError::NotInitialized);
                },
                Some(i) => i,
            };
            let mut st = reg.states.remove(i);
            let res = st.challenge(caller, defender, now);
            let ghost stv = st@;
            reg.states.insert(i, st);
            proof {
                assert(reg@ =~~= with_state(pre, channel, mode, stv));
                lemma_reg_update(pre, reg@, i as int);
            }
            match res {
                Ok(u) => Ok(Reply::Done),
                Err(e) => Err(e),
            }
        },
        Command::ReportResult { outcome } => {
            let i = match reg.find_active(channel, mode) {
                None => {
                    return Err(LadderError::NotInitialized);
                },
                Some(i) => i,
            };
            let mut st = reg.states.remove(i);
            let res = st.report_result(caller, outcome, now);
            let ghost stv = st@;
            reg.states.insert(i, st);
            proof {
                assert(reg@ =~~= with_state(pre, channel, mode, stv));
                lemma_reg_update(pre, reg@, i as int);
            }
            match res {
                Ok(u) => Ok(Reply::Done),
                Err(e) => Err(e),
            }
        },
        Command::Cancel => {
            let i = match reg.find_active(channel, mode) {
                None => {
                    return Err(LadderError::NotInitialized);
                },
                Some(i) => i,
            };
            let mut st = reg.states.remove(i);
            let res = st.cancel(caller, now);
            let ghost stv = st@;
            reg.states.insert(i, st);
            proof {
                assert(reg@ =~~= with_state(pre, channel, mode, stv));
                lemma_reg_update(pre, reg@, i as int);
            }
            match res {
                Ok(u) => Ok(Reply::Done),
                Err(e) => Err(e),
            }
        },
        Command::Forfeit => {
            let i = match reg.find_active(channel, mode) {
                None => {
                    return Err(LadderError::NotInitialized);
                },
                Some(i) => i,
            };
            let mut st = reg.states.remove(i);
            let res = st.forfeit(caller, now);
            let ghost stv = st@;
            reg.states.insert(i, st);
            proof {
                assert(reg@ =~~= with_state(pre, channel, mode, stv));
                lemma_reg_update(pre, reg@, i as int);
            }
            match res {
                Ok(u) => Ok(Reply::Done),
                Err(e) => Err(e),
            }
        },
        Command::MovePlayer { player, position } => {
            let i = match reg.find_active(channel, mode) {
                None => {
                    return Err(LadderError::NotInitialized);
                },
                Some(i) => i,
            };
            let mut st = reg.states.remove(i);
            let res = st.move_player(player, position, is_admin);
            let ghost stv = st@;
            reg.states.insert(i, st);
            proof {
                assert(reg@ =~~= with_state(pre, channel, mode, stv));
                lemma_reg_update(pre, reg@, i as int);
            }
            match res {
                Ok(u) => Ok(Reply::Done),
                Err(e) => Err(e),
            }
        },
        Command::SetField { level, key, value } => {
            let i = match reg.find_active(channel, mode) {
                None => {
                    return Err(LadderError::NotInitialized);
                },
                Some(i) => i,
            };
            let mut st = reg.states.remove(i);
            let res = st.set_field(caller, is_admin, level.as_str(), key.as_str(), value.as_str());
            let ghost stv = st@;
            reg.states.insert(i, st);
            proof {
                assert(reg@ =~~= with_state(pre, channel, mode, stv));
                lemma_reg_update(pre, reg@, i as int);
            }
            match res {
                Ok(u) => Ok(Reply::Done),
                Err(e) => Err(e),
            }
        },
        Command::Standings => {
            let i = match reg.find_active(channel, mode) {
                None => {
                    return Err(LadderError::NotInitialized);
                },
                Some(i) => i,
            };
            let rows = reg.states[i].standings();
            Ok(Reply::Standings(rows))
        },
        Command::History { limit } => {
            let i = match reg.find_active(channel, mode) {
                None => {
                    return Err(LadderError::NotInitialized);
                },
                Some(i) => i,
            };
            let want: u64 = match limit {
                Some(l) => l,
                None => DEFAULT_HISTORY_LEN,
            };
            let len = reg.states[i].log.len();
            let cap: usize = if want > len as u64 {
                len
            } else {
                want as usize
            };
            let rows = reg.states[i].log.recent(cap);
            Ok(Reply::History(rows))
        },
        Command::PrintRaw => {
            let i = match reg.find_active(channel, mode) {
                None => {
                    return Err(LadderError::NotInitialized);
                },
                Some(i) => i,
            };
            let copy = reg.states[i].duplicate();
            Ok(Reply::Raw(copy))
        },
    }
}

} // verus!
