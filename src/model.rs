//! Players, matches and the participation records that tie them together.
use crate::ident::{IdentGenerator, Ident, MatchKind, PlayerKind};
use std::cmp::Ordering;
use vstd::prelude::*;

verus! {

/// Identifier of a player.
pub type PlayerIdent = Ident<PlayerKind>;

/// Identifier of a match.
pub type MatchIdent = Ident<MatchKind>;

/// A player: an identifier and a display name. Names may repeat; only the
/// identifier tells players apart, and players are equal and ordered as
/// their identifiers are.
#[derive(Debug)]
pub struct Player {
    pub ident: PlayerIdent,
    pub name: String,
}

/// What a player is, as plain values.
pub struct PlayerView {
    pub id: u32,
    pub name: Seq<char>,
}

impl View for Player {
    type V = PlayerView;

    open spec fn view(&self) -> PlayerView {
        PlayerView { id: self.ident@, name: self.name@ }
    }
}

impl Player {
    /// A player with a fresh identifier from `generator` and the given name.
    pub fn new(generator: &mut IdentGenerator<PlayerKind>, player_name: &str) -> (r: Player)
        requires
            old(generator).can_issue(),
        ensures
            r@ == (PlayerView { id: old(generator)@ as u32, name: player_name@ }),
            final(generator)@ == old(generator)@ + 1,
    {
        Player { ident: generator.next_ident(), name: player_name.to_owned() }
    }
}

impl Clone for Player {
    fn clone(&self) -> (r: Player)
        ensures
            r@ == self@,
    {
        Player { ident: self.ident, name: self.name.clone() }
    }
}

impl PartialEq for Player {
    fn eq(&self, other: &Player) -> (r: bool) {
        self.ident.same(&other.ident)
    }
}

impl vstd::std_specs::cmp::PartialEqSpecImpl for Player {
    open spec fn obeys_eq_spec() -> bool {
        true
    }

    open spec fn eq_spec(&self, other: &Player) -> bool {
        self.ident@ == other.ident@
    }
}

impl Eq for Player {
}

impl PartialOrd for Player {
    fn partial_cmp(&self, other: &Player) -> (r: Option<Ordering>) {
        self.ident.partial_cmp(&other.ident)
    }
}

impl vstd::std_specs::cmp::PartialOrdSpecImpl for Player {
    open spec fn obeys_partial_cmp_spec() -> bool {
        true
    }

    open spec fn partial_cmp_spec(&self, other: &Player) -> Option<Ordering> {
        if self.ident@ < other.ident@ {
            Some(Ordering::Less)
        } else if self.ident@ == other.ident@ {
            Some(Ordering::Equal)
        } else {
            Some(Ordering::Greater)
        }
    }
}

/// A participation record: this player takes part in the match that holds it.
#[derive(Debug)]
pub struct MatchComponent {
    pub player: PlayerIdent,
}

impl View for MatchComponent {
    type V = u32;

    open spec fn view(&self) -> u32 {
        self.player@
    }
}

impl MatchComponent {
    /// The record of `player` taking part.
    pub fn new(player: PlayerIdent) -> (r: MatchComponent)
        ensures
            r@ == player@,
    {
        MatchComponent { player }
    }
}

impl Clone for MatchComponent {
    fn clone(&self) -> (r: MatchComponent)
        ensures
            r@ == self@,
    {
        MatchComponent { player: self.player }
    }
}

/// A match: its participants in the order they joined and, once decided,
/// its winner.
#[derive(Debug)]
pub struct Match {
    pub ident: MatchIdent,
    pub components: Vec<MatchComponent>,
    pub winner: Option<PlayerIdent>,
}

/// What a match is, as plain values.
pub struct MatchView {
    pub id: u32,
    pub components: Seq<u32>,
    pub winner: Option<u32>,
}

/// The numbers of a sequence of participation records.
pub open spec fn component_players(components: Seq<MatchComponent>) -> Seq<u32> {
    components.map_values(|c: MatchComponent| c@)
}

/// The number of an optional player identifier.
pub open spec fn opt_player(p: Option<PlayerIdent>) -> Option<u32> {
    match p {
        Some(w) => Some(w@),
        None => None,
    }
}

impl View for Match {
    type V = MatchView;

    open spec fn view(&self) -> MatchView {
        MatchView {
            id: self.ident@,
            components: component_players(self.components@),
            winner: opt_player(self.winner),
        }
    }
}

impl MatchView {
    /// No player takes part twice, and a winner is one of the participants.
    pub open spec fn wf(self) -> bool {
        &&& self.components.no_duplicates()
        &&& (self.winner matches Some(w) ==> self.components.contains(w))
    }

    /// Whether the winner has been declared.
    pub open spec fn is_decided(self) -> bool {
        self.winner is Some
    }
}

/// A player who does not take part yet can join without breaking well-formedness.
pub proof fn lemma_join_keeps_wf(mv: MatchView, p: u32)
    requires
        mv.wf(),
        !mv.components.contains(p),
    ensures
        (MatchView { components: mv.components.push(p), ..mv }).wf(),
{
    let c = mv.components.push(p);
    assert forall|x: int, y: int| 0 <= x < c.len() && 0 <= y < c.len() && x != y implies c[x]
        != c[y] by {
        if x == c.len() - 1 {
            assert(mv.components[y] == c[y]);
        } else if y == c.len() - 1 {
            assert(mv.components[x] == c[x]);
        }
    }
    if let Some(w) = mv.winner {
        let k = choose|k: int| 0 <= k < mv.components.len() && mv.components[k] == w;
        assert(c[k] == w);
    }
}

impl Match {
    /// An open match with a fresh identifier from `generator` and no participants.
    pub fn new(generator: &mut IdentGenerator<MatchKind>) -> (r: Match)
        requires
            old(generator).can_issue(),
        ensures
            r@ == (MatchView { id: old(generator)@ as u32, components: Seq::empty(), winner: None }),
            final(generator)@ == old(generator)@ + 1,
    {
        let ident = generator.next_ident();
        let r = Match { ident, components: Vec::new(), winner: None };
        assert(r@.components =~= Seq::<u32>::empty());
        r
    }
}

/// Whether `player` already has a participation record among `components`.
pub fn repeat_component(components: &[MatchComponent], player: PlayerIdent) -> (r: bool)
    ensures
        r == component_players(components@).contains(player@),
{
    let mut i: usize = 0;
    while i < components.len()
        invariant
            i <= components@.len(),
            forall|j: int| 0 <= j < i ==> components@[j]@ != player@,
        decreases components@.len() - i,
    {
        if components[i].player.same(&player) {
            assert(component_players(components@)[i as int] == player@);
            return true;
        }
        i = i + 1;
    }
    assert forall|j: int| 0 <= j < component_players(components@).len()
        implies component_players(components@)[j] != player@ by {
        assert(components@[j]@ != player@);
    }
    false
}

} // verus!
