//! The text shown for participants and matches. A player who was deleted
//! still shows, as a marker in place of the name.
use crate::model::{MatchIdent, MatchView, PlayerIdent};
use crate::tournament::{Tournament, TournamentView};
use vstd::prelude::*;
use vstd::string::StringExecFns;

verus! {

/// `names` with " vs " between each two.
pub open spec fn join_versus(names: Seq<Seq<char>>) -> Seq<char>
    decreases names.len(),
{
    if names.len() == 0 {
        Seq::empty()
    } else if names.len() == 1 {
        names[0]
    } else {
        join_versus(names.drop_last()) + " vs "@ + names.last()
    }
}

impl TournamentView {
    /// The name of player `id`, or the marker for a deleted player.
    pub open spec fn display_name(self, id: u32) -> Seq<char> {
        match self.player(id) {
            Some(p) => p.name,
            None => "<DELETED>"@,
        }
    }

    /// The names of the participants of `mv`, in the order they joined.
    pub open spec fn participant_names(self, mv: MatchView) -> Seq<Seq<char>> {
        mv.components.map_values(|p: u32| self.display_name(p))
    }

    /// The line that names the winner of `mv`, once there is one.
    pub open spec fn winner_text(self, mv: MatchView) -> Option<Seq<char>> {
        match mv.winner {
            None => None,
            Some(w) => Some(
                match self.player(w) {
                    Some(p) => p.name + " won!"@,
                    None => "This match concluded."@,
                },
            ),
        }
    }
}

impl Tournament {
    /// The name of player `id`, or "<DELETED>" where the store no longer holds it.
    pub fn render_participant_name(&self, id: PlayerIdent) -> (r: String)
        requires
            self@.wf(),
        ensures
            r@ == self@.display_name(id@),
    {
        match self.lookup_player(id) {
            Some(p) => p.name.clone(),
            None => "<DELETED>".to_owned(),
        }
    }

    /// The participants of match `m`, as "A vs B vs C"; None where there is
    /// no such match.
    pub fn versus_line(&self, m: MatchIdent) -> (r: Option<String>)
        requires
            self@.wf(),
        ensures
            match self@.get_match(m@) {
                None => r is None,
                Some(mv) => r matches Some(s) && s@ == join_versus(self@.participant_names(mv)),
            },
    {
        match self.match_index(m) {
            None => None,
            Some(i) => {
                let all = self.ordered_matches();
                let components = &all[i].components;
                let ghost names = self@.participant_names(self@.matches[i as int]);
                assert(self@.matches[i as int] == all@[i as int]@);
                let mut line = String::new();
                let mut k: usize = 0;
                while k < components.len()
                    invariant
                        self@.wf(),
                        k <= components@.len(),
                        names.len() == components@.len(),
                        forall|j: int| 0 <= j < components@.len() ==> names[j] == self@.display_name(#[trigger] components@[j]@),
                        line@ == join_versus(names.take(k as int)),
                    decreases components@.len() - k,
                {
                    let ghost before = line@;
                    if k > 0 {
                        line.append(" vs ");
                    }
                    let name = self.render_participant_name(components[k].player);
                    assert(names[k as int] == self@.display_name(components@[k as int]@));
                    line.append(name.as_str());
                    assert(names.take(k + 1).drop_last() =~= names.take(k as int));
                    assert(names.take(k + 1).last() == names[k as int]);
                    if k == 0 {
                        assert(line@ =~= name@);
                        assert(names.take(1)[0] == names[0]);
                    } else {
                        assert(line@ =~= before + " vs "@ + names[k as int]);
                    }
                    k = k + 1;
                }
                assert(names.take(k as int) =~= names);
                Some(line)
            },
        }
    }

    /// "<name> won!" for a decided match whose winner is still in the store,
    /// "This match concluded." where the winner was deleted; None for an open
    /// match or where there is no such match.
    pub fn winner_line(&self, m: MatchIdent) -> (r: Option<String>)
        requires
            self@.wf(),
        ensures
            match self@.get_match(m@) {
                None => r is None,
                Some(mv) => match self@.winner_text(mv) {
                    None => r is None,
                    Some(t) => r matches Some(s) && s@ == t,
                },
            },
    {
        match self.match_index(m) {
            None => None,
            Some(i) => {
                let all = self.ordered_matches();
                let mat = &all[i];
                assert(self@.matches[i as int] == all@[i as int]@);
                match mat.winner {
                    None => None,
                    Some(w) => match self.lookup_player(w) {
                        Some(p) => {
                            let line = p.name.clone();
                            Some(line.concat(" won!"))
                        },
                        None => Some("This match concluded.".to_owned()),
                    },
                }
            },
        }
    }
}

} // verus!
