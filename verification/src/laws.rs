//! The engine's global laws, stated once over the mathematical values and
//! proved from the transition functions the operations are verified
//! against. Each operation's own contract says it preserves
//! well-formedness; these lemmas say what well-formedness and the
//! transitions give the caller.

use crate::challenge::spec_flip;
use crate::challenge::Outcome;
use crate::errors::LadderError;
use crate::ladder::LadderView;
use vstd::prelude::*;

verus! {

/// How many open challenges `p` holds as challenger.
pub open spec fn count_outgoing(v: LadderView, p: u64) -> nat {
    v.challenges.filter(|c: crate::challenge::Challenge| c.challenger == p).len()
}

/// How many open challenges `p` faces as defender.
pub open spec fn count_incoming(v: LadderView, p: u64) -> nat {
    v.challenges.filter(|c: crate::challenge::Challenge| c.defender == p).len()
}

/// Permutation invariant: in a well-formed state the standings hold every
/// position `1..=N` exactly once — position `i + 1` at row `i`, no gaps,
/// no duplicates — and no player appears on two rows. Every mutating
/// operation ensures well-formedness is preserved, so this holds after
/// any sequence of operations.
pub proof fn lemma_permutation_invariant(v: LadderView)
    requires
        v.wf(),
    ensures
        v.spec_standings().len() == v.roster.len(),
        forall|i: int|
            0 <= i < v.roster.len() ==> (#[trigger] v.spec_standings()[i]).position == i + 1,
        forall|i: int, j: int|
            0 <= i < j < v.roster.len() ==> v.spec_standings()[i].player
                != v.spec_standings()[j].player,
{
}

/// Challenge cap: in a well-formed state a player holds at most one open
/// outgoing and faces at most one open incoming challenge.
pub proof fn lemma_challenge_caps(v: LadderView, p: u64)
    requires
        v.wf(),
    ensures
        count_outgoing(v, p) <= 1,
        count_incoming(v, p) <= 1,
{
    let outf = |c: crate::challenge::Challenge| c.challenger == p;
    let inf = |c: crate::challenge::Challenge| c.defender == p;
    let fo = v.challenges.filter(outf);
    let fi = v.challenges.filter(inf);
    let ro = |a: crate::challenge::Challenge, b: crate::challenge::Challenge|
        a.challenger != b.challenger;
    let ri = |a: crate::challenge::Challenge, b: crate::challenge::Challenge|
        a.defender != b.defender;
    if fo.len() > 1 {
        assert forall|i: int, j: int|
            0 <= i < j < v.challenges.len() implies #[trigger] ro(
            v.challenges[i],
            v.challenges[j],
        ) by {}
        crate::ladder::lemma_filter_pairwise(v.challenges, outf, ro);
        v.challenges.lemma_filter_pred(outf, 0);
        v.challenges.lemma_filter_pred(outf, 1);
        assert(outf(fo[0]) && outf(fo[1]));
        assert(ro(fo[0], fo[1]));
        assert(false);
    }
    if fi.len() > 1 {
        assert forall|i: int, j: int|
            0 <= i < j < v.challenges.len() implies #[trigger] ri(
            v.challenges[i],
            v.challenges[j],
        ) by {}
        crate::ladder::lemma_filter_pairwise(v.challenges, inf, ri);
        v.challenges.lemma_filter_pred(inf, 0);
        v.challenges.lemma_filter_pred(inf, 1);
        assert(inf(fi[0]) && inf(fi[1]));
        assert(ri(fi[0], fi[1]));
        assert(false);
    }
}

/// Idempotent terminal transition: once a player is party to no open
/// challenge — in particular right after one of theirs reached a terminal
/// state — `cancel` and `forfeit` fail with `NoOpenChallenge` and change
/// nothing, and a played-result report changes nothing either, failing
/// with `ResultConflict` when it contradicts a recent resolution and
/// `NoOpenChallenge` otherwise.
pub proof fn lemma_terminal_idempotent(v: LadderView, p: u64, o: Outcome, now: u64)
    requires
        v.wf(),
        v.report_target(p) is None,
        o is Won || o is Lost,
    ensures
        v.spec_cancel(p, now) == (v, Err::<(), LadderError>(LadderError::NoOpenChallenge)),
        v.spec_forfeit(p, now) == (v, Err::<(), LadderError>(LadderError::NoOpenChallenge)),
        v.spec_report(p, o, now).0 == v,
        v.spec_report(p, o, now).1 == if v.spec_conflict(p, o, now) {
            Err::<(), LadderError>(LadderError::ResultConflict)
        } else {
            Err::<(), LadderError>(LadderError::NoOpenChallenge)
        },
{
}

/// History completeness: a terminal transition that succeeds appends
/// exactly one record to the log and removes exactly one challenge from
/// the open set; nothing else ever writes the log. The `recent` read
/// returns the newest records first, as its own contract states.
pub proof fn lemma_history_complete(v: LadderView, p: u64, o: Outcome, now: u64)
    requires
        v.wf(),
        v.report_target(p) is Some,
        o is Won || o is Lost,
    ensures
        v.spec_report(p, o, now).1 is Ok,
        v.spec_report(p, o, now).0.log.len() == v.log.len() + 1,
        v.spec_report(p, o, now).0.challenges.len() == v.challenges.len() - 1,
        v.spec_cancel(p, now).1 is Ok,
        v.spec_cancel(p, now).0.log.len() == v.log.len() + 1,
        v.spec_cancel(p, now).0.challenges.len() == v.challenges.len() - 1,
        v.spec_forfeit(p, now).1 is Ok,
        v.spec_forfeit(p, now).0.log.len() == v.log.len() + 1,
        v.spec_forfeit(p, now).0.challenges.len() == v.challenges.len() - 1,
{
    let i = v.report_target(p).unwrap();
    assert(0 <= i < v.challenges.len()) by {
        if v.has_open_out(p) {
            let w = choose|k: int|
                0 <= k < v.challenges.len() && (#[trigger] v.challenges[k]).challenger == p;
            assert(v.challenges[w].challenger == p);
        } else {
            let w = choose|k: int|
                0 <= k < v.challenges.len() && (#[trigger] v.challenges[k]).defender == p;
            assert(v.challenges[w].defender == p);
        }
    }
    v.challenges.remove_ensures(i);
}

/// Ranking correctness: a resolution's history record tells the truth.
/// The positions it shows before the match are the parties' ladder
/// positions in the old state; the positions it shows after — the
/// ladder-climb rule applied to the pair — are exactly where the two
/// players stand on the new ladder. The higher-ranked winner holds; a
/// lower-ranked winner takes the loser's position and the loser slips
/// one.
pub proof fn lemma_ranking_correct(
    v: LadderView,
    i: int,
    reporter: u64,
    stored: Outcome,
    ranked: Outcome,
    now: u64,
)
    requires
        v.wf(),
        0 <= i < v.challenges.len(),
        ranked is Won || ranked is Lost,
    ensures
        ({
            let c = v.challenges[i];
            let v2 = v.spec_resolve(i, reporter, stored, ranked, now);
            let rec = v2.log.last();
            &&& rec.challenger_pos_before == v.pos_of(c.challenger)
            &&& rec.defender_pos_before == v.pos_of(c.defender)
            &&& v2.pos_of(c.challenger) == rec.challenger_pos_after
            &&& v2.pos_of(c.defender) == rec.defender_pos_after
        }),
{
    let c = v.challenges[i];
    let v2 = v.spec_resolve(i, reporter, stored, ranked, now);
    let ci = v.idx_of(c.challenger);
    let di = v.idx_of(c.defender);
    assert(v.has_player(c.challenger) && v.has_player(c.defender));
    assert(0 <= ci < v.roster.len() && v.roster[ci].id == c.challenger) by {
        assert(crate::ranking::has_id(v.roster, c.challenger));
    }
    assert(0 <= di < v.roster.len() && v.roster[di].id == c.defender) by {
        assert(crate::ranking::has_id(v.roster, c.defender));
    }
    assert(c.challenger != c.defender);
    assert(ci != di);
    let wi = if ranked is Won {
        ci
    } else {
        di
    };
    let li = if ranked is Won {
        di
    } else {
        ci
    };
    if wi < li {
        v2.lemma_idx_unique(c.challenger, ci);
        v2.lemma_idx_unique(c.defender, di);
    } else {
        crate::ranking::lemma_seq_move_index(v.roster, wi, li);
        crate::ranking::lemma_seq_move_distinct(v.roster, wi, li);
        assert(v2.roster[li] == v.roster[wi]);
        assert(crate::ranking::seq_move_src(wi, li, li + 1) == li);
        assert(v2.roster[li + 1] == v.roster[li]);
        if ranked is Won {
            v2.lemma_idx_unique(c.challenger, li);
            v2.lemma_idx_unique(c.defender, li + 1);
        } else {
            v2.lemma_idx_unique(c.defender, li);
            v2.lemma_idx_unique(c.challenger, li + 1);
        }
    }
}

/// A resolution moves players but neither adds nor removes any: the new
/// roster holds exactly the identities the old one held, so the
/// positions stay a dense permutation over the same players.
pub proof fn lemma_resolution_keeps_players(
    v: LadderView,
    i: int,
    reporter: u64,
    stored: Outcome,
    ranked: Outcome,
    now: u64,
)
    requires
        v.wf(),
        0 <= i < v.challenges.len(),
        ranked is Won || ranked is Lost,
    ensures
        forall|p: u64|
            v.spec_resolve(i, reporter, stored, ranked, now).has_player(p) <==> v.has_player(p),
        v.spec_resolve(i, reporter, stored, ranked, now).roster.len() == v.roster.len(),
{
    let c = v.challenges[i];
    let ci = v.idx_of(c.challenger);
    let di = v.idx_of(c.defender);
    assert(0 <= ci < v.roster.len()) by {
        assert(v.has_player(c.challenger));
        assert(crate::ranking::has_id(v.roster, c.challenger));
    }
    assert(0 <= di < v.roster.len()) by {
        assert(v.has_player(c.defender));
        assert(crate::ranking::has_id(v.roster, c.defender));
    }
    let wi = if ranked is Won {
        ci
    } else {
        di
    };
    let li = if ranked is Won {
        di
    } else {
        ci
    };
    if !(wi < li) {
        crate::ranking::lemma_seq_move_same_ids(v.roster, wi, li);
        crate::ranking::lemma_seq_move_index(v.roster, wi, li);
    }
}

/// Serialization of conflicting reports: with one open challenge from
/// `a` against `b`, a report by `a` commits, and the immediate opposite
/// claim by `b` is refused with `ResultConflict` and changes nothing —
/// exactly one committed outcome, one flagged conflict.
pub proof fn lemma_result_conflict_serialized(v: LadderView, o: Outcome, now: u64)
    requires
        v.wf(),
        o is Won || o is Lost,
        v.challenges.len() == 1,
    ensures
        ({
            let a = v.challenges[0].challenger;
            let b = v.challenges[0].defender;
            let first = v.spec_report(a, o, now);
            let second = first.0.spec_report(b, o, now);
            &&& first.1 is Ok
            &&& second.1 == Err::<(), LadderError>(LadderError::ResultConflict)
            &&& second.0 == first.0
        }),
{
    let a = v.challenges[0].challenger;
    let b = v.challenges[0].defender;
    assert(v.has_open_out(a)) by {
        assert(v.challenges[0].challenger == a);
    }
    let w = choose|k: int| 0 <= k < v.challenges.len() && (#[trigger] v.challenges[k]).challenger == a;
    assert(w == 0);
    assert(v.report_target(a) == Some(0int));
    let first = v.spec_report(a, o, now);
    let v1 = first.0;
    assert(v1.challenges.len() == 0) by {
        v.challenges.remove_ensures(0);
    }
    assert(v1.report_target(b) is None);
    let rec = v1.log.last();
    assert(rec.challenger == a && rec.defender == b && rec.reporter == a && rec.outcome == o
        && rec.timestamp == now);
    assert(a != b);
    assert(v1.spec_conflict(b, o, now)) by {
        assert(spec_flip(o) != o);
        assert(v1.log[v1.log.len() - 1] == rec);
        assert(rec.timestamp + v1.grace_secs >= now);
    }
}

/// The standings only mention the roster: two states with the same
/// roster show the same standings. With `duplicate` and `restore`, whose
/// contracts make a restored backup equal the pre-mutation state value,
/// this is why a rolled-back mutation leaves no observable trace.
pub proof fn lemma_standings_from_roster(v1: LadderView, v2: LadderView)
    requires
        v1.roster == v2.roster,
    ensures
        v1.spec_standings() == v2.spec_standings(),
{
    assert(v1.spec_standings() =~= v2.spec_standings());
}

} // verus!
