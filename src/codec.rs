//! The match file as plain records. Each match is written as its
//! participants' current names, each with whether that participant won; a
//! match is read back from names and scores, a score being the bit pattern of
//! an IEEE-754 single-precision number. The text encoding itself is done by
//! the caller.
use crate::model::{Match, MatchView, Player, PlayerIdent, PlayerView};
use crate::tournament::{Tournament, TournamentView};
use vstd::prelude::*;

verus! {

/// The magnitude bits of a single-precision bit pattern.
pub open spec fn magnitude(bits: u32) -> int {
    (bits % 0x8000_0000) as int
}

/// Whether a single-precision bit pattern is a NaN.
pub open spec fn is_nan_bits(bits: u32) -> bool {
    magnitude(bits) > 0x7F80_0000
}

/// A key that orders bit patterns that are not NaN as the numbers they encode
/// (both zeros give 0).
pub open spec fn score_key(bits: u32) -> int {
    if bits >= 0x8000_0000 {
        -magnitude(bits)
    } else {
        magnitude(bits)
    }
}

/// `a > b` on the numbers the bit patterns encode: false where either is NaN.
pub open spec fn score_gt(a: u32, b: u32) -> bool {
    !is_nan_bits(a) && !is_nan_bits(b) && score_key(a) > score_key(b)
}

/// Whether score `a` is greater than score `b`, both given as bit patterns.
pub fn score_greater(a: u32, b: u32) -> (r: bool)
    ensures
        r == score_gt(a, b),
{
    let ma = a % 0x8000_0000;
    let mb = b % 0x8000_0000;
    if ma > 0x7F80_0000 || mb > 0x7F80_0000 {
        return false;
    }
    let a_negative = a >= 0x8000_0000;
    let b_negative = b >= 0x8000_0000;
    if !a_negative && !b_negative {
        ma > mb
    } else if a_negative && b_negative {
        ma < mb
    } else if !a_negative {
        ma > 0 || mb > 0
    } else {
        false
    }
}

/// Whether a participant scoring `score` takes the lead from `best`, the
/// score of the one leading so far: the first one read always does; after
/// that a greater score does, and any score does from a NaN. So a match
/// with participants always has a winner, and a NaN keeps the lead only
/// where nothing after it is a number.
pub open spec fn score_leads(score: u32, best: Option<u32>) -> bool {
    match best {
        None => true,
        Some(b) => is_nan_bits(b) || score_gt(score, b),
    }
}

/// Whether a participant scoring `score` takes the lead from `best`.
pub fn takes_lead(score: u32, best: Option<u32>) -> (r: bool)
    ensures
        r == score_leads(score, best),
{
    match best {
        None => true,
        Some(b) => b % 0x8000_0000 > 0x7F80_0000 || score_greater(score, b),
    }
}

/// The first player in `players` with this name.
pub open spec fn first_named(players: Seq<PlayerView>, name: Seq<char>) -> Option<u32>
    decreases players.len(),
{
    if players.len() == 0 {
        None
    } else if players[0].name == name {
        Some(players[0].id)
    } else {
        first_named(players.drop_first(), name)
    }
}

/// The first of `players` named `search`, if any.
pub fn get_player_by_name(players: &[Player], search: &str) -> (r: Option<PlayerIdent>)
    ensures
        match r {
            Some(id) => first_named(players@.map_values(|p: Player| p@), search@) == Some(id@),
            None => first_named(players@.map_values(|p: Player| p@), search@) is None,
        },
{
    let ghost all = players@.map_values(|p: Player| p@);
    let target = search.to_owned();
    let mut i: usize = 0;
    assert(all.subrange(0, all.len() as int) =~= all);
    while i < players.len()
        invariant
            i <= players@.len(),
            all == players@.map_values(|p: Player| p@),
            target@ == search@,
            first_named(all, search@) == first_named(all.subrange(i as int, all.len() as int), search@),
        decreases players@.len() - i,
    {
        let ghost rest = all.subrange(i as int, all.len() as int);
        assert(rest[0] == players@[i as int]@);
        if players[i].name == target {
            return Some(players[i].ident);
        }
        assert(rest.drop_first() =~= all.subrange(i + 1, all.len() as int));
        i = i + 1;
    }
    assert(all.subrange(i as int, all.len() as int) =~= Seq::<PlayerView>::empty());
    None
}

impl TournamentView {
    /// The record of `mv`: each participant's name, with whether it won.
    pub open spec fn match_record(self, mv: MatchView) -> Seq<(Seq<char>, bool)> {
        mv.components.map_values(|p: u32| (self.display_name(p), mv.winner == Some(p)))
    }

    /// The records of all matches, in ascending order of identifier.
    pub open spec fn records(self) -> Seq<Seq<(Seq<char>, bool)>> {
        self.matches.map_values(|mv: MatchView| self.match_record(mv))
    }
}

impl Tournament {
    /// One record per match, in ascending order of identifier: for each
    /// participant in the order they joined, the current name (or the
    /// marker of a deleted player) and whether it is the winner.
    pub fn export_records(&self) -> (r: Vec<Vec<(String, bool)>>)
        requires
            self@.wf(),
        ensures
            r.deep_view() == self@.records(),
    {
        let all = self.ordered_matches();
        let mut out: Vec<Vec<(String, bool)>> = Vec::new();
        let mut i: usize = 0;
        while i < all.len()
            invariant
                self@.wf(),
                i <= all@.len(),
                all@.map_values(|m: Match| m@) == self@.matches,
                out.deep_view() =~= self@.records().take(i as int),
            decreases all@.len() - i,
        {
            let mat = &all[i];
            let ghost mv = mat@;
            assert(mv == self@.matches[i as int]);
            let mut record: Vec<(String, bool)> = Vec::new();
            let mut k: usize = 0;
            while k < mat.components.len()
                invariant
                    self@.wf(),
                    k <= mat.components@.len(),
                    mv == mat@,
                    record.deep_view() =~= self@.match_record(mv).take(k as int),
                decreases mat.components@.len() - k,
            {
                let player = mat.components[k].player;
                assert(mv.components[k as int] == player@);
                let name = self.render_participant_name(player);
                let won = match mat.winner {
                    Some(w) => w.same(&player),
                    None => false,
                };
                let ghost before = record.deep_view();
                record.push((name, won));
                assert(record.deep_view() =~= before.push((name@, won)));
                assert(self@.match_record(mv).take(k + 1) =~= self@.match_record(mv).take(
                    k as int,
                ).push(self@.match_record(mv)[k as int]));
                k = k + 1;
            }
            assert(self@.match_record(mv).take(k as int) =~= self@.match_record(mv));
            let ghost before = out.deep_view();
            out.push(record);
            assert(out.deep_view() =~= before.push(self@.match_record(mv)));
            assert(self@.records().take(i + 1) =~= self@.records().take(i as int).push(
                self@.records()[i as int],
            ));
            i = i + 1;
        }
        assert(self@.records().take(i as int) =~= self@.records());
        out
    }
}

/// Where reading one match has got to: the store, the participants read so
/// far, the one leading and the score it leads with (none before the first
/// entry).
pub struct ImportState {
    pub store: TournamentView,
    pub components: Seq<u32>,
    pub winner: Option<u32>,
    pub best: Option<u32>,
}

impl TournamentView {
    /// The first player named `name`, or else a new player of that name
    /// under the next identifier; with the store that results.
    pub open spec fn resolve_name(self, name: Seq<char>) -> (TournamentView, u32) {
        match first_named(self.players, name) {
            Some(id) => (self, id),
            None => (self.with_player(name), self.next_player as u32),
        }
    }
}

/// Reads one name and score: the player joins unless it has already, and
/// takes the lead as `score_leads` says (so among equal scores the first one
/// read leads).
pub open spec fn read_entry(st: ImportState, entry: (Seq<char>, u32)) -> ImportState {
    let (store, id) = st.store.resolve_name(entry.0);
    let leads = score_leads(entry.1, st.best);
    ImportState {
        store,
        components: if st.components.contains(id) {
            st.components
        } else {
            st.components.push(id)
        },
        winner: if leads {
            Some(id)
        } else {
            st.winner
        },
        best: if leads {
            Some(entry.1)
        } else {
            st.best
        },
    }
}

/// Reads the entries in order.
pub open spec fn read_entries(st: ImportState, entries: Seq<(Seq<char>, u32)>) -> ImportState
    decreases entries.len(),
{
    if entries.len() == 0 {
        st
    } else {
        read_entry(read_entries(st, entries.drop_last()), entries.last())
    }
}

/// How many entries the sections hold together.
pub open spec fn entry_count(sections: Seq<Seq<(Seq<char>, u32)>>) -> nat
    decreases sections.len(),
{
    if sections.len() == 0 {
        0
    } else {
        entry_count(sections.drop_last()) + sections.last().len()
    }
}

impl TournamentView {
    /// The store after one section is read into a new match: the match takes
    /// the next identifier, then its players are found or created in the
    /// order of the entries.
    pub open spec fn with_section(self, section: Seq<(Seq<char>, u32)>) -> TournamentView {
        let start = ImportState {
            store: TournamentView { next_match: self.next_match + 1, ..self },
            components: Seq::empty(),
            winner: None,
            best: None,
        };
        let end = read_entries(start, section);
        TournamentView {
            matches: end.store.matches.push(
                MatchView { id: self.next_match as u32, components: end.components, winner: end.winner },
            ),
            ..end.store
        }
    }

    /// The store after the sections are read, in order.
    pub open spec fn with_sections(self, sections: Seq<Seq<(Seq<char>, u32)>>) -> TournamentView
        decreases sections.len(),
    {
        if sections.len() == 0 {
            self
        } else {
            self.with_sections(sections.drop_last()).with_section(sections.last())
        }
    }

    /// Whether enough identifiers are left to read the sections: one per
    /// match, and one per entry in case every name is new.
    pub open spec fn room_for(self, sections: Seq<Seq<(Seq<char>, u32)>>) -> bool {
        &&& self.next_match + sections.len() <= u32::MAX
        &&& self.next_player + entry_count(sections) <= u32::MAX
    }
}

/// A prefix holds no more entries than the whole.
pub proof fn lemma_entry_count_prefix(sections: Seq<Seq<(Seq<char>, u32)>>, j: int)
    requires
        0 <= j <= sections.len(),
    ensures
        entry_count(sections.take(j)) <= entry_count(sections),
    decreases sections.len(),
{
    if j < sections.len() {
        assert(sections.take(j) =~= sections.drop_last().take(j));
        lemma_entry_count_prefix(sections.drop_last(), j);
    } else {
        assert(sections.take(j) =~= sections);
    }
}

} // verus!
