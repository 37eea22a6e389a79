//! Properties that hold across several operations on a store.
use crate::model::MatchView;
use crate::tournament::{lemma_filter_removes_one, other_than, TournamentView};
use vstd::prelude::*;

verus! {

/// Deleting the player that was just created leaves no player under its
/// identifier, the other players as they were, and every match untouched:
/// deletion never reaches into matches.
pub proof fn lemma_delete_after_create(t: TournamentView, name: Seq<char>)
    requires
        t.wf(),
        t.next_player < u32::MAX,
    ensures
        ({
            let id = t.next_player as u32;
            let after = t.with_player(name).without_player(id);
            &&& after.player(id) is None
            &&& after.players == t.players
            &&& after.matches == t.matches
        }),
{
    let id = t.next_player as u32;
    let s = t.with_player(name).players;
    assert forall|i: int| 0 <= i < s.len() && i != s.len() - 1 implies (other_than(id))(s[i]) by {
        assert(s[i] == t.players[i]);
    }
    lemma_filter_removes_one(s, other_than(id), s.len() - 1);
    assert(s.remove(s.len() - 1) =~= t.players);
    let after = t.with_player(name).without_player(id);
    assert(after.players == t.players);
    assert(!after.has_player(id));
}

/// The match `m` of `t` is the one at index `i`, and stays so in a store
/// whose matches carry the same identifiers.
proof fn lemma_match_at(t: TournamentView, u: TournamentView, m: u32, i: int)
    requires
        t.wf(),
        0 <= i < t.matches.len(),
        t.matches[i].id == m,
        u.matches.len() == t.matches.len(),
        forall|j: int| 0 <= j < t.matches.len() ==> u.matches[j].id == t.matches[j].id,
    ensures
        t.get_match(m) == Some(t.matches[i]),
        u.get_match(m) == Some(u.matches[i]),
{
    assert(t.has_match(m));
    assert(u.matches[i].id == m);
    assert(u.has_match(m));
}

/// Letting the same player join the same match twice has the effect of
/// letting it join once, and then it takes part exactly once.
pub proof fn lemma_add_component_idempotent(t: TournamentView, m: u32, p: u32)
    requires
        t.wf(),
    ensures
        t.with_component(m, p).with_component(m, p) == t.with_component(m, p),
        t.get_match(m) is Some ==> (t.with_component(m, p).get_match(m) matches Some(mv) && (
        exists|i: int|
            0 <= i < mv.components.len() && mv.components[i] == p && (forall|j: int|
                0 <= j < mv.components.len() && mv.components[j] == p ==> j == i))),
{
    let once = t.with_component(m, p);
    let twice = once.with_component(m, p);
    assert forall|k: int| 0 <= k < once.matches.len() implies #[trigger] once.matches[k].id == m
        ==> once.matches[k].components.contains(p) by {
        if t.matches[k].id == m && !t.matches[k].components.contains(p) {
            assert(once.matches[k].components[t.matches[k].components.len() as int] == p);
        }
    }
    assert(twice.matches =~= once.matches);
    if t.get_match(m) is Some {
        let i = choose|i: int| 0 <= i < t.matches.len() && t.matches[i].id == m;
        lemma_match_at(t, once, m, i);
        let mv = once.matches[i];
        let before = t.matches[i];
        assert(before.wf());
        assert(mv.components.contains(p));
        let k = choose|k: int| 0 <= k < mv.components.len() && mv.components[k] == p;
        if before.components.contains(p) {
            assert(mv == before);
        } else {
            crate::model::lemma_join_keeps_wf(before, p);
            assert(mv == MatchView { components: before.components.push(p), ..before });
        }
        assert(mv.components.no_duplicates());
        assert(forall|j: int| 0 <= j < mv.components.len() && mv.components[j] == p ==> j == k);
    }
}

/// Once `p` has been declared the winner of an open match it takes part in,
/// the match is decided with `p` as its winner, and declaring any winner
/// again changes nothing.
pub proof fn lemma_winner_is_permanent(t: TournamentView, m: u32, p: u32, p2: u32)
    requires
        t.wf(),
        t.get_match(m) matches Some(mv) && !mv.is_decided() && mv.components.contains(p),
    ensures
        ({
            let decided = t.with_winner(m, p);
            &&& decided.get_match(m) matches Some(mv) && mv.is_decided() && mv.winner == Some(p)
            &&& decided.with_winner(m, p2) == decided
        }),
{
    let once = t.with_winner(m, p);
    let twice = once.with_winner(m, p2);
    let i = choose|i: int| 0 <= i < t.matches.len() && t.matches[i].id == m;
    lemma_match_at(t, once, m, i);
    assert(once.matches[i].winner == Some(p));
    assert forall|k: int| 0 <= k < once.matches.len() implies #[trigger] once.matches[k].id == m
        ==> once.matches[k].winner is Some by {
        if once.matches[k].id == m {
            assert(t.matches[k].id == t.matches[i].id);
        }
    }
    assert(twice.matches =~= once.matches);
}

} // verus!
