//! End-to-end exercises of the ladder engine: the documented scenarios,
//! the edge cases around each error kind, and the read views.

use ladder_engine::challenge::Outcome;
use ladder_engine::commands::{dispatch, Command, Reply};
use ladder_engine::errors::LadderError;
use ladder_engine::ladder::{LadderState, Mode, StandingsRow, TournamentStatus};
use ladder_engine::player::PlayerStatus;
use ladder_engine::registry::TournamentRegistry;
use ladder_engine::text::parse_u64;

fn fresh() -> LadderState {
    LadderState::new(7, Mode::Ladder1v1, 1_000, 600)
}

fn positions(s: &LadderState) -> Vec<(u64, u64)> {
    s.standings().iter().map(|r| (r.player, r.position)).collect()
}

#[test]
fn register_assigns_dense_positions() {
    let mut s = fresh();
    assert_eq!(s.register(10), Ok(1));
    assert_eq!(s.register(20), Ok(2));
    assert_eq!(s.register(30), Ok(3));
    assert_eq!(positions(&s), vec![(10, 1), (20, 2), (30, 3)]);
}

#[test]
fn register_twice_is_refused() {
    let mut s = fresh();
    assert_eq!(s.register(10), Ok(1));
    assert_eq!(s.register(10), Err(LadderError::AlreadyRegistered));
    assert_eq!(s.standings().len(), 1);
}

#[test]
fn unregister_compacts_positions() {
    let mut s = fresh();
    s.register(10).unwrap();
    s.register(20).unwrap();
    s.register(30).unwrap();
    assert_eq!(s.unregister(20, 20, false, 1_001), Ok(()));
    assert_eq!(positions(&s), vec![(10, 1), (30, 2)]);
    assert_eq!(s.unregister(20, 20, false, 1_002), Err(LadderError::NotRegistered));
}

#[test]
fn unregister_with_open_challenge_needs_force() {
    let mut s = fresh();
    s.register(10).unwrap();
    s.register(20).unwrap();
    s.challenge(20, 10, 1_001).unwrap();
    assert_eq!(s.unregister(20, 20, false, 1_002), Err(LadderError::OpenChallengeExists));
    // A forced (admin) removal auto-cancels and records the cancellation.
    assert_eq!(s.unregister(20, 99, true, 1_003), Ok(()));
    assert_eq!(positions(&s), vec![(10, 1)]);
    let recent = s.log.recent(10);
    assert_eq!(recent.len(), 1);
    assert_eq!(recent[0].outcome, Outcome::Cancelled);
    assert_eq!(recent[0].challenger, 20);
    assert_eq!(recent[0].defender, 10);
}

#[test]
fn self_challenge_is_refused() {
    let mut s = fresh();
    s.register(10).unwrap();
    assert_eq!(s.challenge(10, 10, 1_001), Err(LadderError::SelfChallenge));
}

#[test]
fn challenge_needs_active_players() {
    let mut s = fresh();
    s.register(10).unwrap();
    assert_eq!(s.challenge(10, 20, 1_001), Err(LadderError::NotRegistered));
    s.register(20).unwrap();
    s.set_field(20, false, "user", "status", "suspended").unwrap();
    assert_eq!(s.challenge(10, 20, 1_002), Err(LadderError::NotRegistered));
}

#[test]
fn challenge_caps_are_enforced() {
    let mut s = fresh();
    s.register(10).unwrap();
    s.register(20).unwrap();
    s.register(30).unwrap();
    s.register(40).unwrap();
    s.challenge(10, 20, 1_001).unwrap();
    // Same pair, either direction.
    assert_eq!(s.challenge(10, 20, 1_002), Err(LadderError::DuplicateChallenge));
    assert_eq!(s.challenge(20, 10, 1_002), Err(LadderError::DuplicateChallenge));
    // Challenger already has an outgoing challenge.
    assert_eq!(s.challenge(10, 30, 1_003), Err(LadderError::DuplicateChallenge));
    // Defender already faces an incoming challenge.
    assert_eq!(s.challenge(30, 20, 1_004), Err(LadderError::DuplicateChallenge));
    // An unrelated pair is fine.
    assert_eq!(s.challenge(30, 40, 1_005), Ok(()));
}

#[test]
fn timeout_blocks_challenges() {
    let mut s = fresh();
    s.register(10).unwrap();
    s.register(20).unwrap();
    s.set_field(10, false, "user", "timeout", "2000").unwrap();
    assert_eq!(s.challenge(10, 20, 1_500), Err(LadderError::Timeout));
    // After the timeout has passed the challenge goes through.
    assert_eq!(s.challenge(10, 20, 2_500), Ok(()));
}

#[test]
fn timeout_zero_clears() {
    let mut s = fresh();
    s.register(10).unwrap();
    s.register(20).unwrap();
    s.set_field(10, false, "user", "timeout", "2000").unwrap();
    s.set_field(10, false, "user", "timeout", "0").unwrap();
    assert_eq!(s.challenge(10, 20, 1_500), Ok(()));
}

#[test]
fn ladder_climb_example() {
    // Positions [A:1, B:2, C:3]; B challenges A and wins -> [B:1, A:2, C:3];
    // C challenges A (now at 2) and loses -> unchanged.
    let a = 1u64;
    let b = 2u64;
    let c = 3u64;
    let mut s = fresh();
    s.register(a).unwrap();
    s.register(b).unwrap();
    s.register(c).unwrap();
    s.challenge(b, a, 1_001).unwrap();
    assert_eq!(s.report_result(b, Outcome::Won, 1_002), Ok(()));
    assert_eq!(positions(&s), vec![(b, 1), (a, 2), (c, 3)]);
    s.challenge(c, a, 2_001).unwrap();
    assert_eq!(s.report_result(c, Outcome::Lost, 2_002), Ok(()));
    assert_eq!(positions(&s), vec![(b, 1), (a, 2), (c, 3)]);
}

#[test]
fn defending_champion_holds() {
    let mut s = fresh();
    s.register(10).unwrap();
    s.register(20).unwrap();
    s.challenge(20, 10, 1_001).unwrap();
    // The defender (higher-ranked) reports their own win.
    assert_eq!(s.report_result(10, Outcome::Won, 1_002), Ok(()));
    assert_eq!(positions(&s), vec![(10, 1), (20, 2)]);
}

#[test]
fn forfeit_counts_as_loss_for_forfeiter() {
    let mut s = fresh();
    s.register(10).unwrap();
    s.register(20).unwrap();
    s.challenge(20, 10, 1_001).unwrap();
    // The higher-ranked defender forfeits: the challenger climbs.
    assert_eq!(s.forfeit(10, 1_002), Ok(()));
    assert_eq!(positions(&s), vec![(20, 1), (10, 2)]);
    let recent = s.log.recent(1);
    assert_eq!(recent[0].outcome, Outcome::Forfeited);
    assert_eq!(recent[0].reporter, 10);
}

#[test]
fn cancel_has_no_ranking_effect() {
    let mut s = fresh();
    s.register(10).unwrap();
    s.register(20).unwrap();
    s.challenge(20, 10, 1_001).unwrap();
    assert_eq!(s.cancel(20, 1_002), Ok(()));
    assert_eq!(positions(&s), vec![(10, 1), (20, 2)]);
    let recent = s.log.recent(1);
    assert_eq!(recent[0].outcome, Outcome::Cancelled);
    assert_eq!(recent[0].challenger_pos_before, recent[0].challenger_pos_after);
}

#[test]
fn terminal_transition_is_idempotent() {
    let mut s = fresh();
    s.register(10).unwrap();
    s.register(20).unwrap();
    s.challenge(20, 10, 1_001).unwrap();
    s.cancel(20, 1_002).unwrap();
    let before = positions(&s);
    let log_len = s.log.len();
    assert_eq!(s.cancel(20, 1_003), Err(LadderError::NoOpenChallenge));
    assert_eq!(s.forfeit(20, 1_003), Err(LadderError::NoOpenChallenge));
    assert_eq!(s.report_result(20, Outcome::Won, 1_003), Err(LadderError::NoOpenChallenge));
    assert_eq!(positions(&s), before);
    assert_eq!(s.log.len(), log_len);
}

#[test]
fn invalid_outcome_is_refused() {
    let mut s = fresh();
    s.register(10).unwrap();
    s.register(20).unwrap();
    s.challenge(20, 10, 1_001).unwrap();
    assert_eq!(s.report_result(20, Outcome::Cancelled, 1_002), Err(LadderError::InvalidOutcome));
    assert_eq!(s.report_result(20, Outcome::Forfeited, 1_002), Err(LadderError::InvalidOutcome));
    assert_eq!(s.report_result(20, Outcome::Won, 1_003), Ok(()));
}

#[test]
fn conflicting_second_report_is_flagged() {
    let mut s = fresh();
    s.register(10).unwrap();
    s.register(20).unwrap();
    s.challenge(20, 10, 1_001).unwrap();
    // First report wins: the challenger claims a win.
    assert_eq!(s.report_result(20, Outcome::Won, 1_002), Ok(()));
    let after_first = positions(&s);
    // Within the grace window the other party's contradicting claim is a
    // conflict; the state does not change again.
    assert_eq!(s.report_result(10, Outcome::Won, 1_100), Err(LadderError::ResultConflict));
    assert_eq!(positions(&s), after_first);
    // An agreeing report is merely late: no open challenge.
    assert_eq!(s.report_result(10, Outcome::Lost, 1_100), Err(LadderError::NoOpenChallenge));
    // Outside the grace window the conflict is no longer flagged.
    assert_eq!(s.report_result(10, Outcome::Won, 999_999), Err(LadderError::NoOpenChallenge));
}

#[test]
fn move_player_shifts_between() {
    let mut s = fresh();
    for p in [10, 20, 30, 40] {
        s.register(p).unwrap();
    }
    assert_eq!(s.move_player(40, 2, true), Ok(()));
    assert_eq!(positions(&s), vec![(10, 1), (40, 2), (20, 3), (30, 4)]);
    assert_eq!(s.move_player(10, 4, true), Ok(()));
    assert_eq!(positions(&s), vec![(40, 1), (20, 2), (30, 3), (10, 4)]);
}

#[test]
fn move_player_requires_admin_and_range() {
    let mut s = fresh();
    s.register(10).unwrap();
    s.register(20).unwrap();
    assert_eq!(s.move_player(10, 2, false), Err(LadderError::NotAuthorized));
    assert_eq!(s.move_player(10, 0, true), Err(LadderError::OutOfRange));
    assert_eq!(s.move_player(10, 3, true), Err(LadderError::OutOfRange));
    assert_eq!(s.move_player(99, 1, true), Err(LadderError::NotRegistered));
}

#[test]
fn history_is_newest_first() {
    let mut s = fresh();
    s.register(10).unwrap();
    s.register(20).unwrap();
    s.register(30).unwrap();
    s.challenge(20, 10, 1_001).unwrap();
    s.report_result(20, Outcome::Won, 1_002).unwrap();
    s.challenge(30, 20, 2_001).unwrap();
    s.cancel(30, 2_002).unwrap();
    assert_eq!(s.log.len(), 2);
    let recent = s.log.recent(10);
    assert_eq!(recent.len(), 2);
    assert_eq!(recent[0].timestamp, 2_002);
    assert_eq!(recent[1].timestamp, 1_002);
    let one = s.log.recent(1);
    assert_eq!(one.len(), 1);
    assert_eq!(one[0].timestamp, 2_002);
}

#[test]
fn set_notes_and_admin_and_unknown_keys() {
    let mut s = fresh();
    s.register(10).unwrap();
    assert_eq!(s.set_field(10, false, "user", "notes", "plays at dawn"), Ok(()));
    assert_eq!(s.set_field(99, false, "user", "notes", "x"), Err(LadderError::NotRegistered));
    assert_eq!(s.set_field(10, false, "user", "color", "red"), Err(LadderError::UnknownKey));
    assert_eq!(s.set_field(10, false, "guild", "notes", "x"), Err(LadderError::UnknownKey));
    assert_eq!(s.set_field(10, false, "system", "mode", "ladder1v1"), Err(LadderError::NotAuthorized));
    assert_eq!(s.set_field(10, true, "system", "mode", "ladder1v1"), Ok(()));
    assert_eq!(s.set_field(10, true, "system", "mode", "ladder2v2"), Err(LadderError::InvalidValue));
    assert_eq!(s.set_field(10, true, "system", "admin_add", "10"), Ok(()));
    assert_eq!(s.standings()[0].admin, true);
    assert_eq!(s.set_field(10, true, "system", "admin_remove", "10"), Ok(()));
    assert_eq!(s.standings()[0].admin, false);
    assert_eq!(s.set_field(10, true, "system", "admin_add", "99"), Err(LadderError::NotRegistered));
    assert_eq!(s.set_field(10, true, "system", "admin_add", "ten"), Err(LadderError::InvalidValue));
    assert_eq!(s.set_field(10, false, "user", "timeout", "later"), Err(LadderError::InvalidValue));
    assert_eq!(s.set_field(10, false, "user", "status", "zombie"), Err(LadderError::InvalidValue));
}

#[test]
fn set_status_round_trip() {
    let mut s = fresh();
    s.register(10).unwrap();
    s.set_field(10, false, "user", "status", "suspended").unwrap();
    assert_eq!(s.standings()[0].status, PlayerStatus::Suspended);
    s.set_field(10, false, "user", "status", "active").unwrap();
    assert_eq!(s.standings()[0].status, PlayerStatus::Active);
}

#[test]
fn parse_u64_exact() {
    assert_eq!(parse_u64("0"), Some(0));
    assert_eq!(parse_u64("42"), Some(42));
    assert_eq!(parse_u64("18446744073709551615"), Some(u64::MAX));
    assert_eq!(parse_u64("18446744073709551616"), None);
    assert_eq!(parse_u64(""), None);
    assert_eq!(parse_u64("4x2"), None);
    assert_eq!(parse_u64("-1"), None);
    assert_eq!(parse_u64("九九九"), None);
}

#[test]
fn rollback_leaves_no_trace() {
    // The write-through discipline: copy, mutate, and when the durable
    // write fails, restore — a later read shows no trace of the mutation.
    let mut s = fresh();
    s.register(10).unwrap();
    s.register(20).unwrap();
    let backup = s.duplicate();
    let before = positions(&s);
    s.challenge(20, 10, 1_001).unwrap();
    // The durable write failed: roll back.
    s.restore(backup);
    assert_eq!(positions(&s), before);
    assert_eq!(s.challenges.len(), 0);
    assert_eq!(s.cancel(20, 1_002), Err(LadderError::NoOpenChallenge));
}

#[test]
fn snapshot_round_trip_through_parts() {
    let mut s = fresh();
    s.register(10).unwrap();
    s.register(20).unwrap();
    s.challenge(20, 10, 1_001).unwrap();
    let copy = s.duplicate();
    let rebuilt = LadderState::from_parts(
        copy.roster,
        copy.challenges,
        copy.log,
        copy.tournament,
        copy.grace_secs,
    )
    .unwrap();
    assert_eq!(positions(&rebuilt), positions(&s));
    assert_eq!(rebuilt.challenges.len(), 1);
}

#[test]
fn from_parts_refuses_corrupt_snapshots() {
    let mut s = fresh();
    s.register(10).unwrap();
    let mut roster = s.duplicate().roster;
    let dup = roster[0].duplicate();
    roster.push(dup);
    let r = LadderState::from_parts(
        roster,
        Vec::new(),
        ladder_engine::history::HistoryLog::empty(),
        s.tournament,
        s.grace_secs,
    );
    assert_eq!(r.err(), Some(LadderError::InvalidValue));
}

#[test]
fn registry_init_delete_lifecycle() {
    let mut reg = TournamentRegistry::new();
    assert_eq!(reg.create(7, Mode::Ladder1v1, 1_000, 600), Ok(()));
    assert_eq!(reg.create(7, Mode::Ladder1v1, 1_001, 600), Err(LadderError::AlreadyExists));
    // A different channel is independent.
    assert_eq!(reg.create(8, Mode::Ladder1v1, 1_002, 600), Ok(()));
    assert_eq!(reg.delete(7, Mode::Ladder1v1), Ok(()));
    assert_eq!(reg.delete(7, Mode::Ladder1v1), Err(LadderError::NotInitialized));
    assert_eq!(reg.states[0].tournament.status, TournamentStatus::Deleted);
    // Re-init over the deleted tournament succeeds and stays one entry.
    assert_eq!(reg.create(7, Mode::Ladder1v1, 2_000, 600), Ok(()));
    assert_eq!(reg.states.len(), 2);
}

#[test]
fn reinit_keeps_history() {
    let mut reg = TournamentRegistry::new();
    reg.create(7, Mode::Ladder1v1, 1_000, 600).unwrap();
    let st = &mut reg.states[0];
    st.register(10).unwrap();
    st.register(20).unwrap();
    st.challenge(20, 10, 1_001).unwrap();
    st.cancel(20, 1_002).unwrap();
    assert_eq!(st.log.len(), 1);
    reg.delete(7, Mode::Ladder1v1).unwrap();
    reg.create(7, Mode::Ladder1v1, 2_000, 600).unwrap();
    assert_eq!(reg.states[0].log.len(), 1);
    assert_eq!(reg.states[0].standings().len(), 0);
}

#[test]
fn registry_install_coalesces() {
    let mut reg = TournamentRegistry::new();
    reg.create(7, Mode::Ladder1v1, 1_000, 600).unwrap();
    reg.states[0].register(10).unwrap();
    let loaded = LadderState::new(7, Mode::Ladder1v1, 5_000, 600);
    // A concurrent load of the same key keeps the entry already present.
    assert_eq!(reg.install(loaded), Ok(()));
    assert_eq!(reg.states.len(), 1);
    assert_eq!(reg.states[0].standings().len(), 1);
    // A load of a new key is installed.
    let other = LadderState::new(9, Mode::Ladder1v1, 5_000, 600);
    assert_eq!(reg.install(other), Ok(()));
    assert_eq!(reg.states.len(), 2);
}

#[test]
fn dispatch_routes_commands() {
    let mut reg = TournamentRegistry::new();
    let ch = 7u64;
    let m = Mode::Ladder1v1;
    assert_eq!(
        dispatch(&mut reg, ch, m, 10, false, 900, Command::Standings).err(),
        Some(LadderError::NotInitialized)
    );
    assert!(matches!(
        dispatch(&mut reg, ch, m, 10, true, 1_000, Command::Init),
        Ok(Reply::Done)
    ));
    assert!(matches!(
        dispatch(&mut reg, ch, m, 10, false, 1_001, Command::Register { target: None }),
        Ok(Reply::Position(1))
    ));
    // Registering someone else needs the admin capability.
    assert_eq!(
        dispatch(&mut reg, ch, m, 10, false, 1_002, Command::Register { target: Some(20) }).err(),
        Some(LadderError::NotAuthorized)
    );
    assert!(matches!(
        dispatch(&mut reg, ch, m, 99, true, 1_003, Command::Register { target: Some(20) }),
        Ok(Reply::Position(2))
    ));
    assert!(matches!(
        dispatch(&mut reg, ch, m, 20, false, 1_004, Command::Challenge { defender: 10 }),
        Ok(Reply::Done)
    ));
    assert!(matches!(
        dispatch(
            &mut reg,
            ch,
            m,
            20,
            false,
            1_005,
            Command::ReportResult { outcome: Outcome::Won }
        ),
        Ok(Reply::Done)
    ));
    match dispatch(&mut reg, ch, m, 10, false, 1_006, Command::Standings) {
        Ok(Reply::Standings(rows)) => {
            let got: Vec<StandingsRow> = rows;
            assert_eq!(got[0].player, 20);
            assert_eq!(got[1].player, 10);
        }
        other => panic!("unexpected reply: {:?}", other),
    }
    match dispatch(&mut reg, ch, m, 10, false, 1_007, Command::History { limit: Some(5) }) {
        Ok(Reply::History(rows)) => {
            assert_eq!(rows.len(), 1);
            assert_eq!(rows[0].outcome, Outcome::Won);
        }
        other => panic!("unexpected reply: {:?}", other),
    }
    match dispatch(&mut reg, ch, m, 10, false, 1_008, Command::PrintRaw) {
        Ok(Reply::Raw(copy)) => {
            assert_eq!(copy.standings().len(), 2);
        }
        other => panic!("unexpected reply: {:?}", other),
    }
    assert!(matches!(
        dispatch(
            &mut reg,
            ch,
            m,
            10,
            false,
            1_009,
            Command::SetField {
                level: String::from("user"),
                key: String::from("notes"),
                value: String::from("rematch soon"),
            }
        ),
        Ok(Reply::Done)
    ));
    assert!(matches!(
        dispatch(&mut reg, ch, m, 10, true, 1_010, Command::DeleteTournament),
        Ok(Reply::Done)
    ));
    assert_eq!(
        dispatch(&mut reg, ch, m, 10, false, 1_011, Command::Standings).err(),
        Some(LadderError::NotInitialized)
    );
}

#[test]
fn report_prefers_own_outgoing_challenge() {
    let mut s = fresh();
    s.register(10).unwrap();
    s.register(20).unwrap();
    s.register(30).unwrap();
    s.challenge(20, 30, 1_001).unwrap(); // 20's outgoing
    s.challenge(10, 20, 1_002).unwrap(); // 20's incoming
    // 20 reports: the outgoing challenge against 30 is resolved.
    assert_eq!(s.report_result(20, Outcome::Won, 1_003), Ok(()));
    let rec = s.log.recent(1)[0];
    assert_eq!((rec.challenger, rec.defender), (20, 30));
    // The incoming challenge from 10 is still open.
    assert_eq!(s.cancel(10, 1_004), Ok(()));
}

#[test]
fn forced_removal_cancels_both_sides() {
    let mut s = fresh();
    s.register(10).unwrap();
    s.register(20).unwrap();
    s.register(30).unwrap();
    s.challenge(20, 30, 1_001).unwrap(); // 20's outgoing
    s.challenge(10, 20, 1_002).unwrap(); // 20's incoming
    assert_eq!(s.unregister(20, 99, true, 1_003), Ok(()));
    assert_eq!(s.log.len(), 2);
    assert_eq!(s.challenges.len(), 0);
    assert_eq!(positions(&s), vec![(10, 1), (30, 2)]);
    // The other parties are free to challenge again at once.
    assert_eq!(s.challenge(10, 30, 1_004), Ok(()));
}

#[test]
fn mixed_sequence_keeps_permutation() {
    let mut s = fresh();
    let check = |s: &LadderState| {
        let rows = s.standings();
        for (i, r) in rows.iter().enumerate() {
            assert_eq!(r.position, i as u64 + 1);
        }
        let mut players: Vec<u64> = rows.iter().map(|r| r.player).collect();
        players.sort_unstable();
        players.dedup();
        assert_eq!(players.len(), rows.len());
    };
    for p in 1..=6u64 {
        s.register(p).unwrap();
        check(&s);
    }
    s.challenge(5, 2, 1_001).unwrap();
    s.report_result(5, Outcome::Won, 1_002).unwrap();
    check(&s);
    assert_eq!(positions(&s)[1], (5, 2));
    s.move_player(6, 1, true).unwrap();
    check(&s);
    s.unregister(3, 3, false, 1_003).unwrap();
    check(&s);
    s.challenge(1, 4, 1_004).unwrap();
    s.forfeit(4, 1_005).unwrap();
    check(&s);
    s.challenge(2, 6, 1_006).unwrap();
    s.cancel(6, 1_007).unwrap();
    check(&s);
    s.unregister(6, 99, true, 1_008).unwrap();
    check(&s);
    assert_eq!(s.standings().len(), 4);
}

#[test]
fn error_names_are_short_and_stable() {
    assert_eq!(LadderError::NotInitialized.name(), "not initialized");
    assert_eq!(LadderError::PersistenceUnavailable.name(), "persistence unavailable");
}
