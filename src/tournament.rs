//! The store of players and matches, and the operations on it.
use crate::ident::{IdentGenerator, MatchKind, PlayerKind};
use crate::codec::{
    entry_count, get_player_by_name, lemma_entry_count_prefix, read_entries, takes_lead,
    ImportState,
};
use crate::model::{
    lemma_join_keeps_wf, repeat_component, Match, MatchComponent, MatchIdent, MatchView, Player, PlayerIdent,
    PlayerView,
};
use vstd::prelude::*;

verus! {

/// Why an operation on the store was refused.
#[derive(Debug, Clone, Copy, PartialEq, Eq, Structural)]
pub enum TournamentError {
    /// A match needs at least one player to exist.
    NoPlayers,
    /// No match has the identifier given.
    UnknownMatch,
    /// The match already has a winner; winners are never replaced.
    AlreadyDecided,
    /// The player given does not take part in the match.
    NotParticipant,
    /// Too few identifiers are left for what was to be read.
    OutOfIdentifiers,
}

/// The players and matches of one session, with the generators that name them.
/// Both lists are kept in ascending order of identifier.
pub struct Tournament {
    players: Vec<Player>,
    matches: Vec<Match>,
    player_ids: IdentGenerator<PlayerKind>,
    match_ids: IdentGenerator<MatchKind>,
}

/// What a store holds, as plain values.
pub struct TournamentView {
    pub players: Seq<PlayerView>,
    pub matches: Seq<MatchView>,
    /// How many player identifiers were handed out.
    pub next_player: nat,
    /// How many match identifiers were handed out.
    pub next_match: nat,
}

impl View for Tournament {
    type V = TournamentView;

    closed spec fn view(&self) -> TournamentView {
        TournamentView {
            players: self.players@.map_values(|p: Player| p@),
            matches: self.matches@.map_values(|m: Match| m@),
            next_player: self.player_ids@,
            next_match: self.match_ids@,
        }
    }
}

impl TournamentView {
    /// Identifiers strictly ascending, every one of them already handed out,
    /// and every match well formed.
    pub open spec fn wf(self) -> bool {
        &&& forall|i: int, j: int|
            0 <= i < j < self.players.len() ==> self.players[i].id < self.players[j].id
        &&& forall|i: int| 0 <= i < self.players.len() ==> self.players[i].id < self.next_player
        &&& forall|i: int, j: int|
            0 <= i < j < self.matches.len() ==> self.matches[i].id < self.matches[j].id
        &&& forall|i: int| 0 <= i < self.matches.len() ==> self.matches[i].id < self.next_match
        &&& forall|i: int| 0 <= i < self.matches.len() ==> (#[trigger] self.matches[i]).wf()
    }

    /// Whether a player with this identifier is in the store.
    pub open spec fn has_player(self, id: u32) -> bool {
        exists|i: int| 0 <= i < self.players.len() && self.players[i].id == id
    }

    /// The player with this identifier, if the store holds one.
    pub open spec fn player(self, id: u32) -> Option<PlayerView> {
        if self.has_player(id) {
            Some(
                self.players[choose|i: int| 0 <= i < self.players.len() && self.players[i].id == id],
            )
        } else {
            None
        }
    }

    /// Whether a match with this identifier is in the store.
    pub open spec fn has_match(self, id: u32) -> bool {
        exists|i: int| 0 <= i < self.matches.len() && self.matches[i].id == id
    }

    /// The match with this identifier, if the store holds one.
    pub open spec fn get_match(self, id: u32) -> Option<MatchView> {
        if self.has_match(id) {
            Some(
                self.matches[choose|i: int| 0 <= i < self.matches.len() && self.matches[i].id == id],
            )
        } else {
            None
        }
    }

    /// The store after a player named `name` joins under the next identifier.
    pub open spec fn with_player(self, name: Seq<char>) -> TournamentView {
        TournamentView {
            players: self.players.push(PlayerView { id: self.next_player as u32, name }),
            next_player: self.next_player + 1,
            ..self
        }
    }

    /// The store without the player `id`; matches are left as they are.
    pub open spec fn without_player(self, id: u32) -> TournamentView {
        TournamentView { players: self.players.filter(other_than(id)), ..self }
    }

    /// The store after an open match with no participants is added under the
    /// next identifier.
    pub open spec fn with_match(self) -> TournamentView {
        TournamentView {
            matches: self.matches.push(
                MatchView { id: self.next_match as u32, components: Seq::empty(), winner: None },
            ),
            next_match: self.next_match + 1,
            ..self
        }
    }

    /// The store after player `p` joins match `m`; unchanged where `p`
    /// already takes part.
    pub open spec fn with_component(self, m: u32, p: u32) -> TournamentView {
        TournamentView {
            matches: self.matches.map_values(
                |mv: MatchView|
                    if mv.id == m && !mv.components.contains(p) {
                        MatchView { components: mv.components.push(p), ..mv }
                    } else {
                        mv
                    },
            ),
            ..self
        }
    }

    /// The store after `p` is declared winner of `m`; unchanged where `m`
    /// is decided already or `p` does not take part in it.
    pub open spec fn with_winner(self, m: u32, p: u32) -> TournamentView {
        TournamentView {
            matches: self.matches.map_values(
                |mv: MatchView|
                    if mv.id == m && mv.winner is None && mv.components.contains(p) {
                        MatchView { winner: Some(p), ..mv }
                    } else {
                        mv
                    },
            ),
            ..self
        }
    }
}

/// The test that a player is not `id`.
pub open spec fn other_than(id: u32) -> spec_fn(PlayerView) -> bool {
    |p: PlayerView| p.id != id
}

/// Every element passes the test, so filtering keeps all of them.
proof fn lemma_filter_keeps_all<A>(s: Seq<A>, pred: spec_fn(A) -> bool)
    requires
        forall|i: int| 0 <= i < s.len() ==> pred(s[i]),
    ensures
        s.filter(pred) == s,
    decreases s.len(),
{
    if s.len() > 0 {
        lemma_filter_keeps_all(s.drop_last(), pred);
        s.drop_last().lemma_filter_push(s.last(), pred);
        assert(s.drop_last().push(s.last()) =~= s);
    }
}

/// Only the element at `k` fails the test, so filtering removes just that one.
pub(crate) proof fn lemma_filter_removes_one<A>(s: Seq<A>, pred: spec_fn(A) -> bool, k: int)
    requires
        0 <= k < s.len(),
        !pred(s[k]),
        forall|i: int| 0 <= i < s.len() && i != k ==> pred(s[i]),
    ensures
        s.filter(pred) == s.remove(k),
{
    let a = s.subrange(0, k);
    let b = s.subrange(k + 1, s.len() as int);
    assert(s =~= a + seq![s[k]] + b);
    assert(s.remove(k) =~= a + b);
    lemma_filter_keeps_all(a, pred);
    lemma_filter_keeps_all(b, pred);
    Seq::filter_distributes_over_add(a + seq![s[k]], b, pred);
    Seq::filter_distributes_over_add(a, seq![s[k]], pred);
    lemma_filter_keeps_all(Seq::<A>::empty(), pred);
    Seq::<A>::empty().lemma_filter_push(s[k], pred);
    assert(seq![s[k]] =~= Seq::<A>::empty().push(s[k]));
    assert(a + Seq::<A>::empty() =~= a);
}

impl Tournament {
    /// An empty store that names players and matches with the given generators.
    pub fn new(player_ids: IdentGenerator<PlayerKind>, match_ids: IdentGenerator<MatchKind>) -> (r:
        Tournament)
        ensures
            r@.wf(),
            r@.players == Seq::<PlayerView>::empty(),
            r@.matches == Seq::<MatchView>::empty(),
            r@.next_player == player_ids@,
            r@.next_match == match_ids@,
    {
        let r = Tournament { players: Vec::new(), matches: Vec::new(), player_ids, match_ids };
        assert(r@.players =~= Seq::<PlayerView>::empty());
        assert(r@.matches =~= Seq::<MatchView>::empty());
        r
    }

    /// Adds a player named `name` under a fresh identifier and returns it.
    /// Another player of the same name is no obstacle.
    pub fn create_player(&mut self, name: &str) -> (r: PlayerIdent)
        requires
            old(self)@.wf(),
            name@.len() > 0,
            old(self)@.next_player < u32::MAX,
        ensures
            final(self)@ == old(self)@.with_player(name@),
            r@ == old(self)@.next_player,
            final(self)@.wf(),
    {
        let player = Player::new(&mut self.player_ids, name);
        let ident = player.ident;
        self.players.push(player);
        assert(self@.players =~= old(self)@.players.push(player@));
        ident
    }

    /// Removes the player `id`, if present. Matches that name the player
    /// keep doing so.
    pub fn delete_player(&mut self, id: PlayerIdent)
        requires
            old(self)@.wf(),
        ensures
            final(self)@ == old(self)@.without_player(id@),
            final(self)@.wf(),
    {
        let ghost pred = other_than(id@);
        let mut i: usize = 0;
        while i < self.players.len()
            invariant
                i <= self.players@.len(),
                *self == *old(self),
                self@.wf(),
                pred == other_than(id@),
                forall|j: int| 0 <= j < i ==> self@.players[j].id != id@,
            decreases self.players@.len() - i,
        {
            assert(self@.players[i as int] == self.players@[i as int]@);
            if self.players[i].ident.same(&id) {
                proof {
                    lemma_filter_removes_one(self@.players, pred, i as int);
                }
                let ghost before = self@;
                self.players.remove(i);
                assert(self@.players =~= before.players.remove(i as int));
                return;
            }
            i = i + 1;
        }
        proof {
            lemma_filter_keeps_all(self@.players, pred);
        }
    }

    /// The player `id`, if the store holds it.
    pub fn lookup_player(&self, id: PlayerIdent) -> (r: Option<&Player>)
        requires
            self@.wf(),
        ensures
            match r {
                Some(p) => self@.player(id@) == Some(p@),
                None => self@.player(id@) is None,
            },
    {
        let mut i: usize = 0;
        while i < self.players.len()
            invariant
                i <= self.players@.len(),
                self@.wf(),
                forall|j: int| 0 <= j < i ==> self@.players[j].id != id@,
            decreases self.players@.len() - i,
        {
            assert(self@.players[i as int] == self.players@[i as int]@);
            if self.players[i].ident.same(&id) {
                assert(self@.has_player(id@));
                return Some(&self.players[i]);
            }
            i = i + 1;
        }
        None
    }
}

impl Tournament {
    /// The index of match `m` in the list, if the store holds it.
    pub(crate) fn match_index(&self, m: MatchIdent) -> (r: Option<usize>)
        requires
            self@.wf(),
        ensures
            match r {
                Some(i) => i < self@.matches.len() && self@.matches[i as int].id == m@
                    && self@.get_match(m@) == Some(self@.matches[i as int]),
                None => !self@.has_match(m@) && self@.get_match(m@) is None,
            },
    {
        let mut i: usize = 0;
        while i < self.matches.len()
            invariant
                i <= self.matches@.len(),
                self@.wf(),
                forall|j: int| 0 <= j < i ==> self@.matches[j].id != m@,
            decreases self.matches@.len() - i,
        {
            assert(self@.matches[i as int] == self.matches@[i as int]@);
            if self.matches[i].ident.same(&m) {
                assert(self@.has_match(m@));
                return Some(i);
            }
            i = i + 1;
        }
        None
    }

    /// The match `m`, if the store holds it.
    pub fn lookup_match(&self, m: MatchIdent) -> (r: Option<&Match>)
        requires
            self@.wf(),
        ensures
            match r {
                Some(x) => self@.get_match(m@) == Some(x@),
                None => self@.get_match(m@) is None,
            },
    {
        match self.match_index(m) {
            Some(i) => {
                assert(self@.matches[i as int] == self.matches@[i as int]@);
                Some(&self.matches[i])
            },
            None => None,
        }
    }

    /// Adds an open match with no participants under a fresh identifier and
    /// returns it; refused while there are no players.
    pub fn create_match(&mut self) -> (r: Result<MatchIdent, TournamentError>)
        requires
            old(self)@.wf(),
            old(self)@.players.len() > 0 ==> old(self)@.next_match < u32::MAX,
        ensures
            final(self)@.wf(),
            old(self)@.players.len() == 0 ==> r == Err::<MatchIdent, TournamentError>(
                TournamentError::NoPlayers,
            ) && final(self)@ == old(self)@,
            old(self)@.players.len() > 0 ==> (r matches Ok(id) && id@ == old(self)@.next_match
                && final(self)@ == old(self)@.with_match()),
    {
        if self.players.len() == 0 {
            return Err(TournamentError::NoPlayers);
        }
        let new_match = Match::new(&mut self.match_ids);
        let ident = new_match.ident;
        self.matches.push(new_match);
        assert(self@.matches =~= old(self)@.matches.push(new_match@));
        Ok(ident)
    }

    /// Whether player `p` takes part in match `m`; false where there is no such match.
    pub fn has_component(&self, m: MatchIdent, p: PlayerIdent) -> (r: bool)
        requires
            self@.wf(),
        ensures
            r == (self@.get_match(m@) matches Some(mv) && mv.components.contains(p@)),
    {
        match self.match_index(m) {
            Some(i) => repeat_component(self.matches[i].components.as_slice(), p),
            None => false,
        }
    }

    /// Lets player `p` join match `m`. Returns whether it did: nothing
    /// changes where there is no such match or `p` takes part already.
    pub fn add_component(&mut self, m: MatchIdent, p: PlayerIdent) -> (r: bool)
        requires
            old(self)@.wf(),
        ensures
            r == (old(self)@.get_match(m@) matches Some(mv) && !mv.components.contains(p@)),
            final(self)@ == old(self)@.with_component(m@, p@),
            final(self)@.wf(),
    {
        let ghost target = old(self)@.with_component(m@, p@);
        match self.match_index(m) {
            Some(i) => {
                if repeat_component(self.matches[i].components.as_slice(), p) {
                    assert(self@.matches =~= target.matches);
                    false
                } else {
                    self.matches[i].components.push(MatchComponent::new(p));
                    let ghost before = old(self)@.matches[i as int];
                    assert(self@.matches[i as int].components =~= before.components.push(p@));
                    proof {
                        lemma_join_keeps_wf(before, p@);
                    }
                    assert(self@.matches =~= target.matches);
                    true
                }
            },
            None => {
                assert(self@.matches =~= target.matches);
                false
            },
        }
    }

    /// Declares player `p` the winner of match `m`. A winner is never
    /// replaced: a decided match refuses, as do an unknown match and a player
    /// who does not take part; nothing changes then.
    pub fn declare_winner(&mut self, m: MatchIdent, p: PlayerIdent) -> (r: Result<(), TournamentError>)
        requires
            old(self)@.wf(),
        ensures
            final(self)@ == old(self)@.with_winner(m@, p@),
            final(self)@.wf(),
            match old(self)@.get_match(m@) {
                None => r == Err::<(), TournamentError>(TournamentError::UnknownMatch),
                Some(mv) => if mv.is_decided() {
                    r == Err::<(), TournamentError>(TournamentError::AlreadyDecided)
                } else if !mv.components.contains(p@) {
                    r == Err::<(), TournamentError>(TournamentError::NotParticipant)
                } else {
                    r == Ok::<(), TournamentError>(())
                },
            },
    {
        let ghost target = old(self)@.with_winner(m@, p@);
        match self.match_index(m) {
            Some(i) => {
                if self.matches[i].winner.is_some() {
                    assert(self@.matches =~= target.matches);
                    Err(TournamentError::AlreadyDecided)
                } else if !repeat_component(self.matches[i].components.as_slice(), p) {
                    assert(self@.matches =~= target.matches);
                    Err(TournamentError::NotParticipant)
                } else {
                    self.matches[i].winner = Some(p);
                    assert(self@.matches =~= target.matches);
                    Ok(())
                }
            },
            None => {
                assert(self@.matches =~= target.matches);
                Err(TournamentError::UnknownMatch)
            },
        }
    }

    /// The players in ascending order of identifier, which is the order they
    /// were created in.
    pub fn ordered_players(&self) -> (r: &[Player])
        ensures
            r@.map_values(|p: Player| p@) == self@.players,
    {
        self.players.as_slice()
    }

    /// The matches in ascending order of identifier.
    pub fn ordered_matches(&self) -> (r: &[Match])
        ensures
            r@.map_values(|m: Match| m@) == self@.matches,
    {
        self.matches.as_slice()
    }

    /// How many player identifiers were handed out.
    pub fn players_issued(&self) -> (r: u32)
        ensures
            r as nat == self@.next_player,
    {
        self.player_ids.issued()
    }

    /// How many match identifiers were handed out.
    pub fn matches_issued(&self) -> (r: u32)
        ensures
            r as nat == self@.next_match,
    {
        self.match_ids.issued()
    }
}

impl Tournament {
    /// The first player named `name`, or else a new player of that name.
    fn resolve_name(&mut self, name: &str) -> (r: PlayerIdent)
        requires
            old(self)@.wf(),
            old(self)@.next_player < u32::MAX,
        ensures
            (final(self)@, r@) == old(self)@.resolve_name(name@),
            final(self)@.wf(),
    {
        match get_player_by_name(self.players.as_slice(), name) {
            Some(id) => id,
            None => {
                let player = Player::new(&mut self.player_ids, name);
                let ident = player.ident;
                self.players.push(player);
                assert(self@.players =~= old(self)@.players.push(player@));
                ident
            },
        }
    }

    /// Reads one section into a new match.
    fn import_section(&mut self, section: &Vec<(String, u32)>)
        requires
            old(self)@.wf(),
            old(self)@.next_match < u32::MAX,
            old(self)@.next_player + section@.len() <= u32::MAX,
        ensures
            final(self)@ == old(self)@.with_section(section.deep_view()),
            final(self)@.wf(),
            final(self)@.next_player <= old(self)@.next_player + section@.len(),
            final(self)@.next_match == old(self)@.next_match + 1,
            final(self)@.matches.len() == old(self)@.matches.len() + 1,
            final(self)@.matches.drop_last() == old(self)@.matches,
            section@.len() > 0 ==> final(self)@.matches.last().winner is Some,
    {
        let ghost entries = section.deep_view();
        let mut new_match = Match::new(&mut self.match_ids);
        let ghost start = ImportState {
            store: self@,
            components: Seq::empty(),
            winner: None,
            best: None,
        };
        assert(start.store == TournamentView { next_match: old(self)@.next_match + 1, ..old(self)@ });
        let mut best: Option<u32> = None;
        let mut k: usize = 0;
        assert(entries.take(0) =~= Seq::<(Seq<char>, u32)>::empty());
        while k < section.len()
            invariant
                k <= section@.len(),
                entries == section.deep_view(),
                self@.wf(),
                self@.matches == old(self)@.matches,
                self@.next_match == old(self)@.next_match + 1,
                self@.next_player <= old(self)@.next_player + k,
                old(self)@.next_player + section@.len() <= u32::MAX,
                old(self)@.wf(),
                new_match@.id == old(self)@.next_match,
                new_match@.wf(),
                k > 0 ==> new_match@.winner is Some,
                (k == 0) == (best is None),
                read_entries(start, entries.take(k as int)) == (ImportState {
                    store: self@,
                    components: new_match@.components,
                    winner: new_match@.winner,
                    best,
                }),
            decreases section@.len() - k,
        {
            let entry = &section[k];
            assert(entries[k as int] == (entry.0@, entry.1));
            assert(entries.take(k + 1).drop_last() =~= entries.take(k as int));
            let ghost st = read_entries(start, entries.take(k as int));
            let id = self.resolve_name(entry.0.as_str());
            let ghost mv = new_match@;
            if !repeat_component(new_match.components.as_slice(), id) {
                new_match.components.push(MatchComponent::new(id));
                assert(new_match@.components =~= mv.components.push(id@));
                proof {
                    lemma_join_keeps_wf(mv, id@);
                }
            }
            assert(new_match@.components.contains(id@)) by {
                if mv.components.contains(id@) {
                } else {
                    assert(new_match@.components[mv.components.len() as int] == id@);
                }
            }
            if takes_lead(entry.1, best) {
                best = Some(entry.1);
                new_match.winner = Some(id);
            }
            k = k + 1;
        }
        assert(entries.take(k as int) =~= entries);
        let ghost mv = new_match@;
        self.matches.push(new_match);
        assert(self@.matches =~= old(self)@.matches.push(mv));
        assert(self@.matches.drop_last() =~= old(self)@.matches);
    }

    /// Reads `sections` into new matches, in order, each entry a name and a
    /// score given as the bit pattern of a single-precision number. Each
    /// name is resolved to the first player of that name, or a new player;
    /// a player joins a match once; the winner is the first participant
    /// read with the greatest score (see `score_leads` for NaN), so every
    /// section with entries gives a match with a winner. Refused, with nothing changed, where
    /// too few identifiers are left to be sure of finishing.
    pub fn import_records(&mut self, sections: &Vec<Vec<(String, u32)>>) -> (r: Result<
        (),
        TournamentError,
    >)
        requires
            old(self)@.wf(),
        ensures
            final(self)@.wf(),
            old(self)@.room_for(sections.deep_view()) ==> r == Ok::<(), TournamentError>(())
                && final(self)@ == old(self)@.with_sections(sections.deep_view()),
            old(self)@.room_for(sections.deep_view()) ==> final(self)@.matches.len()
                == old(self)@.matches.len() + sections@.len(),
            old(self)@.room_for(sections.deep_view()) ==> forall|i: int|
                0 <= i < sections@.len() && sections@[i]@.len() > 0
                    ==> (#[trigger] final(self)@.matches[old(self)@.matches.len() + i]).winner is Some,
            !old(self)@.room_for(sections.deep_view()) ==> r == Err::<(), TournamentError>(
                TournamentError::OutOfIdentifiers,
            ) && final(self)@ == old(self)@,
    {
        let ghost all = sections.deep_view();
        let matches_left: u32 = u32::MAX - self.match_ids.issued();
        if sections.len() > matches_left as usize {
            return Err(TournamentError::OutOfIdentifiers);
        }
        let players_left: u32 = u32::MAX - self.player_ids.issued();
        let mut total: usize = 0;
        let mut i: usize = 0;
        assert(all.take(0) =~= Seq::<Seq<(Seq<char>, u32)>>::empty());
        while i < sections.len()
            invariant
                i <= sections@.len(),
                all == sections.deep_view(),
                total == entry_count(all.take(i as int)),
                total <= players_left,
                self@.wf(),
                self@ == old(self)@,
                players_left == u32::MAX - self@.next_player,
            decreases sections@.len() - i,
        {
            assert(all.take(i + 1).drop_last() =~= all.take(i as int));
            assert(all[i as int].len() == sections@[i as int]@.len());
            if sections[i].len() > (players_left as usize) - total {
                proof {
                    lemma_entry_count_prefix(all, i + 1);
                }
                return Err(TournamentError::OutOfIdentifiers);
            }
            total = total + sections[i].len();
            i = i + 1;
        }
        assert(all.take(i as int) =~= all);
        let mut i: usize = 0;
        assert(all.take(0) =~= Seq::<Seq<(Seq<char>, u32)>>::empty());
        while i < sections.len()
            invariant
                i <= sections@.len(),
                all == sections.deep_view(),
                old(self)@.room_for(all),
                self@.wf(),
                self@ == old(self)@.with_sections(all.take(i as int)),
                self@.next_match == old(self)@.next_match + i,
                self@.next_player <= old(self)@.next_player + entry_count(all.take(i as int)),
                self@.matches.len() == old(self)@.matches.len() + i,
                forall|j: int|
                    0 <= j < i && sections@[j]@.len() > 0
                        ==> (#[trigger] self@.matches[old(self)@.matches.len() + j]).winner is Some,
            decreases sections@.len() - i,
        {
            assert(all.take(i + 1).drop_last() =~= all.take(i as int));
            assert(all[i as int].len() == sections@[i as int]@.len());
            proof {
                lemma_entry_count_prefix(all, i + 1);
            }
            let ghost before = self@.matches;
            self.import_section(&sections[i]);
            assert forall|j: int|
                0 <= j < i + 1 && sections@[j]@.len() > 0 implies (#[trigger] self@.matches[old(
                self,
            )@.matches.len() + j]).winner is Some by {
                if j < i {
                    assert(self@.matches[old(self)@.matches.len() + j] == self@.matches.drop_last()[
                        old(self)@.matches.len() + j]);
                }
            }
            i = i + 1;
        }
        assert(all.take(i as int) =~= all);
        Ok(())
    }
}

} // verus!
