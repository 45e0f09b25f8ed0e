//! The ranking engine: the classic ladder-climb rule. If the
//! higher-ranked (lower-numbered) player wins, nothing moves. If the
//! lower-ranked player wins, the winner takes the loser's position and
//! everyone from there up to the winner's old position shifts down one,
//! so the positions stay a dense permutation. Forfeits use the same rule
//! with the forfeiting side as the loser.
//!
//! Positions are 1-based; the roster vector stores players in rank order,
//! so moving a player is removing at one index and inserting at another.

use crate::challenge::Outcome;
use crate::player::PlayerEntry;
use crate::player::PlayerEntryView;
use vstd::prelude::*;

verus! {

/// The roster as its mathematical value.
pub open spec fn roster_view(s: Seq<PlayerEntry>) -> Seq<PlayerEntryView> {
    s.map_values(|e: PlayerEntry| e@)
}

/// No two entries share a player identity.
pub open spec fn distinct_ids(s: Seq<PlayerEntryView>) -> bool {
    forall|i: int, j: int| 0 <= i < j < s.len() ==> s[i].id != s[j].id
}

/// Whether some entry carries identity `id`.
pub open spec fn has_id(s: Seq<PlayerEntryView>, id: u64) -> bool {
    exists|i: int| 0 <= i < s.len() && (#[trigger] s[i]).id == id
}

/// The sequence with the element at `from` relocated to index `to`,
/// everything between shifted by one.
pub open spec fn seq_move<A>(s: Seq<A>, from: int, to: int) -> Seq<A> {
    s.remove(from).insert(to, s[from])
}

/// Where element `i` of `seq_move(s, from, to)` came from in `s`.
pub open spec fn seq_move_src(from: int, to: int, i: int) -> int {
    if i == to {
        from
    } else if to <= from {
        if i < to {
            i
        } else if i <= from {
            i - 1
        } else {
            i
        }
    } else {
        if i < from {
            i
        } else if i < to {
            i + 1
        } else {
            i
        }
    }
}

/// `seq_move` permutes the sequence: every slot of the result holds the
/// source element `seq_move_src` names, and that map is a bijection on
/// the indices.
pub proof fn lemma_seq_move_index<A>(s: Seq<A>, from: int, to: int)
    requires
        0 <= from < s.len(),
        0 <= to < s.len(),
    ensures
        seq_move(s, from, to).len() == s.len(),
        forall|i: int|
            0 <= i < s.len() ==> {
                &&& 0 <= #[trigger] seq_move_src(from, to, i) < s.len()
                &&& seq_move(s, from, to)[i] == s[seq_move_src(from, to, i)]
            },
        forall|i: int, j: int|
            0 <= i < s.len() && 0 <= j < s.len() && i != j ==> #[trigger] seq_move_src(from, to, i)
                != #[trigger] seq_move_src(from, to, j),
{
    let r = s.remove(from);
    s.remove_ensures(from);
    r.insert_ensures(to, s[from]);
    assert forall|i: int| 0 <= i < s.len() implies {
        &&& 0 <= #[trigger] seq_move_src(from, to, i) < s.len()
        &&& seq_move(s, from, to)[i] == s[seq_move_src(from, to, i)]
    } by {
        if i != to {
            if i < to {
                assert(seq_move(s, from, to)[i] == r[i]);
            } else {
                assert(seq_move(s, from, to)[i] == r[i - 1]);
            }
        }
    }
}

/// Relocating an entry keeps the player identities distinct.
pub proof fn lemma_seq_move_distinct(s: Seq<PlayerEntryView>, from: int, to: int)
    requires
        0 <= from < s.len(),
        0 <= to < s.len(),
        distinct_ids(s),
    ensures
        distinct_ids(seq_move(s, from, to)),
{
    lemma_seq_move_index(s, from, to);
    let m = seq_move(s, from, to);
    assert forall|i: int, j: int| 0 <= i < j < m.len() implies m[i].id != m[j].id by {
        let si = seq_move_src(from, to, i);
        let sj = seq_move_src(from, to, j);
        assert(si != sj);
        assert(m[i] == s[si] && m[j] == s[sj]);
    }
}

/// Relocating keeps the set of entries: each old element is still there.
pub proof fn lemma_seq_move_contains<A>(s: Seq<A>, from: int, to: int)
    requires
        0 <= from < s.len(),
        0 <= to < s.len(),
    ensures
        forall|k: int| 0 <= k < s.len() ==> seq_move(s, from, to).contains(#[trigger] s[k]),
{
    lemma_seq_move_index(s, from, to);
    let m = seq_move(s, from, to);
    assert forall|k: int| 0 <= k < s.len() implies m.contains(#[trigger] s[k]) by {
        let i = choose|i: int| 0 <= i < s.len() && seq_move_src(from, to, i) == k;
        assert(exists|i: int| 0 <= i < s.len() && #[trigger] seq_move_src(from, to, i) == k) by {
            if k == from {
                assert(seq_move_src(from, to, to) == k);
            } else if to <= from {
                if k < to || k > from {
                    assert(seq_move_src(from, to, k) == k);
                } else {
                    assert(seq_move_src(from, to, k + 1) == k);
                }
            } else {
                if k < from || k > to {
                    assert(seq_move_src(from, to, k) == k);
                } else {
                    assert(seq_move_src(from, to, k - 1) == k);
                }
            }
        }
        assert(m[i] == s[k]);
    }
}

/// Relocating an entry keeps every player identity present.
pub proof fn lemma_seq_move_keeps_ids(s: Seq<PlayerEntryView>, from: int, to: int)
    requires
        0 <= from < s.len(),
        0 <= to < s.len(),
    ensures
        forall|p: u64| has_id(s, p) ==> has_id(seq_move(s, from, to), p),
{
    lemma_seq_move_contains(s, from, to);
    let m = seq_move(s, from, to);
    assert forall|p: u64| has_id(s, p) implies has_id(m, p) by {
        let w = choose|i: int| 0 <= i < s.len() && (#[trigger] s[i]).id == p;
        assert(m.contains(s[w]));
        let w2 = choose|k: int| 0 <= k < m.len() && m[k] == s[w];
        assert(m[w2].id == p);
    }
}

/// Relocating an entry neither adds nor removes a player identity.
pub proof fn lemma_seq_move_same_ids(s: Seq<PlayerEntryView>, from: int, to: int)
    requires
        0 <= from < s.len(),
        0 <= to < s.len(),
    ensures
        forall|p: u64| has_id(seq_move(s, from, to), p) <==> has_id(s, p),
{
    lemma_seq_move_keeps_ids(s, from, to);
    lemma_seq_move_index(s, from, to);
    let m = seq_move(s, from, to);
    assert forall|p: u64| has_id(m, p) implies has_id(s, p) by {
        let k = choose|k: int| 0 <= k < m.len() && (#[trigger] m[k]).id == p;
        assert(s[seq_move_src(from, to, k)].id == p);
    }
}

/// The pure position-exchange rule of §ladder-climb, on a pair of 1-based
/// positions. Returns the new `(challenger, defender)` positions.
pub open spec fn spec_apply(outcome: Outcome, challenger_pos: u64, defender_pos: u64) -> (u64, u64)
    recommends
        outcome is Won || outcome is Lost || outcome is Forfeited,
        challenger_pos != defender_pos,
{
    let challenger_won = outcome is Won;
    let winner_pos = if challenger_won {
        challenger_pos
    } else {
        defender_pos
    };
    let loser_pos = if challenger_won {
        defender_pos
    } else {
        challenger_pos
    };
    if winner_pos < loser_pos {
        (challenger_pos, defender_pos)
    } else {
        if challenger_won {
            (loser_pos, (loser_pos + 1) as u64)
        } else {
            ((loser_pos + 1) as u64, loser_pos)
        }
    }
}

/// Pure position-exchange: deterministic, no I/O. `Won` means the
/// challenger won; `Lost` and `Forfeited` count for the defender when the
/// challenger forfeits is decided by the caller mapping the forfeiting
/// side to the losing side before calling.
pub fn apply(outcome: Outcome, challenger_pos: u64, defender_pos: u64) -> (r: (u64, u64))
    requires
        outcome is Won || outcome is Lost,
        1 <= challenger_pos,
        1 <= defender_pos,
        challenger_pos != defender_pos,
        challenger_pos < u64::MAX,
        defender_pos < u64::MAX,
    ensures
        r == spec_apply(outcome, challenger_pos, defender_pos),
{
    let challenger_won = match outcome {
        Outcome::Won => true,
        _ => false,
    };
    let winner_pos = if challenger_won {
        challenger_pos
    } else {
        defender_pos
    };
    let loser_pos = if challenger_won {
        defender_pos
    } else {
        challenger_pos
    };
    if winner_pos < loser_pos {
        (challenger_pos, defender_pos)
    } else {
        if challenger_won {
            (loser_pos, loser_pos + 1)
        } else {
            (loser_pos + 1, loser_pos)
        }
    }
}

/// Relocate the roster entry at index `from` to index `to`, shifting the
/// entries between them by one. This is the executable form of
/// `seq_move`, used both by the climb rule and by the admin move.
pub fn relocate(roster: &mut Vec<PlayerEntry>, from: usize, to: usize)
    requires
        from < old(roster)@.len(),
        to < old(roster)@.len(),
    ensures
        roster_view(final(roster)@) == seq_move(roster_view(old(roster)@), from as int, to as int),
        final(roster)@.len() == old(roster)@.len(),
{
    let ghost orig = roster@;
    let e = roster.remove(from);
    roster.insert(to, e);
    proof {
        let ov = roster_view(orig);
        assert(roster_view(roster@) =~= seq_move(ov, from as int, to as int)) by {
            orig.remove_ensures(from as int);
            ov.remove_ensures(from as int);
            orig.remove(from as int).insert_ensures(to as int, orig[from as int]);
            ov.remove(from as int).insert_ensures(to as int, ov[from as int]);
            assert(roster_view(orig.remove(from as int)) =~= ov.remove(from as int));
            assert(roster_view(orig.remove(from as int).insert(to as int, orig[from as int]))
                =~= ov.remove(from as int).insert(to as int, ov[from as int]));
        }
    }
}

} // verus!
