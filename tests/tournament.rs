use compete::codec::{get_player_by_name, score_greater, takes_lead};
use compete::ident::{IdentGenerator, MatchKind, PlayerKind};
use compete::model::{repeat_component, MatchComponent, Player};
use compete::tournament::{Tournament, TournamentError};
use std::collections::BTreeMap;

fn fresh() -> Tournament {
    Tournament::new(IdentGenerator::new(), IdentGenerator::new())
}

#[test]
fn generator_counts_up_from_zero() {
    let mut generator: IdentGenerator<PlayerKind> = IdentGenerator::new();
    let values: Vec<u32> = (0..5).map(|_| generator.next_ident().value()).collect();
    assert_eq!(values, vec![0, 1, 2, 3, 4]);
    assert_eq!(generator.issued(), 5);
}

#[test]
fn player_and_match_identifiers_are_counted_apart() {
    let mut t = fresh();
    let ann = t.create_player("Ann");
    let m = t.create_match().unwrap();
    // Both are 0 underneath, yet they are of different types.
    assert_eq!(ann.value(), 0);
    assert_eq!(m.value(), 0);
    let bo = t.create_player("Bo");
    assert_eq!(bo.value(), 1);
    assert!(!bo.same(&ann));
}

#[test]
fn delete_player_does_not_cascade() {
    let mut t = fresh();
    let alice = t.create_player("Alice");
    let m = t.create_match().unwrap();
    assert!(t.add_component(m, alice));
    t.delete_player(alice);
    assert!(t.lookup_player(alice).is_none());
    assert!(t.has_component(m, alice));
    assert_eq!(t.ordered_matches()[0].components.len(), 1);
    assert_eq!(t.render_participant_name(alice), "<DELETED>");
}

#[test]
fn delete_missing_player_is_a_no_op() {
    let mut t = fresh();
    let a = t.create_player("A");
    t.delete_player(a);
    t.delete_player(a);
    assert_eq!(t.ordered_players().len(), 0);
}

#[test]
fn add_component_twice_keeps_one() {
    let mut t = fresh();
    let p = t.create_player("P");
    let m = t.create_match().unwrap();
    assert!(t.add_component(m, p));
    assert!(!t.add_component(m, p));
    assert_eq!(t.ordered_matches()[0].components.len(), 1);
}

#[test]
fn second_winner_is_refused() {
    let mut t = fresh();
    let p = t.create_player("P");
    let p2 = t.create_player("Q");
    let m = t.create_match().unwrap();
    t.add_component(m, p);
    t.add_component(m, p2);
    assert_eq!(t.declare_winner(m, p), Ok(()));
    assert_eq!(t.declare_winner(m, p2), Err(TournamentError::AlreadyDecided));
    assert!(t.ordered_matches()[0].winner.unwrap().same(&p));
}

#[test]
fn winner_must_take_part() {
    let mut t = fresh();
    let p = t.create_player("P");
    let outsider = t.create_player("O");
    let m = t.create_match().unwrap();
    t.add_component(m, p);
    assert_eq!(t.declare_winner(m, outsider), Err(TournamentError::NotParticipant));
    assert!(t.ordered_matches()[0].winner.is_none());
}

#[test]
fn winner_of_unknown_match_is_refused() {
    let mut other = fresh();
    other.create_player("X");
    let m = other.create_match().unwrap();
    let mut t = fresh();
    let p = t.create_player("P");
    assert_eq!(t.declare_winner(m, p), Err(TournamentError::UnknownMatch));
    assert!(!t.add_component(m, p));
    assert!(t.versus_line(m).is_none());
}

#[test]
fn create_match_needs_a_player() {
    let mut t = fresh();
    assert_eq!(t.create_match().err(), Some(TournamentError::NoPlayers));
    assert_eq!(t.ordered_matches().len(), 0);
    t.create_player("A");
    assert!(t.create_match().is_ok());
}

#[test]
fn players_listed_in_creation_order() {
    let mut t = fresh();
    let c = t.create_player("C");
    let a = t.create_player("A");
    let b = t.create_player("B");
    t.delete_player(a);
    let names: Vec<&str> = t.ordered_players().iter().map(|p| p.name.as_str()).collect();
    assert_eq!(names, vec!["C", "B"]);
    assert!(t.ordered_players()[0].ident.same(&c));
    assert!(t.ordered_players()[1].ident.same(&b));
}

#[test]
fn names_may_repeat() {
    let mut t = fresh();
    let a1 = t.create_player("Ann");
    let a2 = t.create_player("Ann");
    assert!(!a1.same(&a2));
    assert_eq!(t.lookup_player(a2).unwrap().name, "Ann");
    assert!(get_player_by_name(t.ordered_players(), "Ann").unwrap().same(&a1));
    assert!(get_player_by_name(t.ordered_players(), "Bo").is_none());
}

fn three_way(t: &mut Tournament) -> (compete::model::MatchIdent, compete::model::PlayerIdent) {
    let a = t.create_player("A");
    let b = t.create_player("B");
    let c = t.create_player("C");
    let m = t.create_match().unwrap();
    t.add_component(m, a);
    t.add_component(m, b);
    t.add_component(m, c);
    t.declare_winner(m, b).unwrap();
    (m, c)
}

#[test]
fn summary_of_decided_match() {
    let mut t = fresh();
    let (m, _) = three_way(&mut t);
    assert_eq!(t.versus_line(m).unwrap(), "A vs B vs C");
    assert_eq!(t.winner_line(m).unwrap(), "B won!");
}

#[test]
fn summary_after_participant_deleted() {
    let mut t = fresh();
    let (m, c) = three_way(&mut t);
    t.delete_player(c);
    assert_eq!(t.versus_line(m).unwrap(), "A vs B vs <DELETED>");
    assert_eq!(t.winner_line(m).unwrap(), "B won!");
}

#[test]
fn summary_after_winner_deleted() {
    let mut t = fresh();
    let a = t.create_player("A");
    let m = t.create_match().unwrap();
    t.add_component(m, a);
    assert!(t.winner_line(m).is_none());
    t.declare_winner(m, a).unwrap();
    t.delete_player(a);
    assert_eq!(t.winner_line(m).unwrap(), "This match concluded.");
    assert_eq!(t.versus_line(m).unwrap(), "<DELETED>");
}

#[test]
fn versus_line_of_empty_match() {
    let mut t = fresh();
    t.create_player("A");
    let m = t.create_match().unwrap();
    assert_eq!(t.versus_line(m).unwrap(), "");
}

#[test]
fn scores_compare_as_floats() {
    let one = 1.0f32.to_bits();
    let zero = 0.0f32.to_bits();
    let minus_zero = (-0.0f32).to_bits();
    let half = 0.5f32.to_bits();
    let nan = f32::NAN.to_bits();
    assert!(score_greater(one, zero));
    assert!(!score_greater(zero, one));
    assert!(score_greater(one, half));
    assert!(!score_greater(zero, minus_zero));
    assert!(!score_greater(minus_zero, zero));
    assert!(score_greater((-1.0f32).to_bits(), (-2.0f32).to_bits()));
    assert!(!score_greater((-2.0f32).to_bits(), (-1.0f32).to_bits()));
    assert!(!score_greater(nan, zero));
    assert!(!score_greater(zero, nan));
}

#[test]
fn lead_goes_to_first_then_greater() {
    let one = 1.0f32.to_bits();
    let zero = 0.0f32.to_bits();
    let nan = f32::NAN.to_bits();
    assert!(takes_lead((-5.0f32).to_bits(), None));
    assert!(takes_lead(nan, None));
    assert!(takes_lead(one, Some(zero)));
    assert!(!takes_lead(zero, Some(zero)));
    assert!(!takes_lead(zero, Some(one)));
    assert!(takes_lead(zero, Some(nan)));
    assert!(!takes_lead(nan, Some(zero)));
}

#[test]
fn import_low_scores_still_give_a_winner() {
    let mut t = fresh();
    t.import_records(&vec![vec![("X".to_string(), (-2.0f32).to_bits())]]).unwrap();
    let mat = &t.ordered_matches()[0];
    assert_eq!(t.render_participant_name(mat.winner.unwrap()), "X");
    let sections = vec![vec![
        ("P".to_string(), (-3.0f32).to_bits()),
        ("Q".to_string(), (-1.5f32).to_bits()),
    ]];
    t.import_records(&sections).unwrap();
    let mat = &t.ordered_matches()[1];
    assert_eq!(t.render_participant_name(mat.winner.unwrap()), "Q");
}

#[test]
fn import_number_beats_leading_nan() {
    let mut t = fresh();
    let sections = vec![vec![
        ("N".to_string(), f32::NAN.to_bits()),
        ("M".to_string(), 0.0f32.to_bits()),
    ]];
    t.import_records(&sections).unwrap();
    let mat = &t.ordered_matches()[0];
    assert_eq!(t.render_participant_name(mat.winner.unwrap()), "M");
}

#[test]
fn lookup_match_finds_by_identifier() {
    let mut t = fresh();
    let a = t.create_player("A");
    let m0 = t.create_match().unwrap();
    let m1 = t.create_match().unwrap();
    t.add_component(m1, a);
    assert_eq!(t.lookup_match(m0).unwrap().components.len(), 0);
    assert_eq!(t.lookup_match(m1).unwrap().components.len(), 1);
    assert!(t.lookup_match(m1).unwrap().ident == m1);
    let mut other = fresh();
    other.create_player("X");
    other.create_match().unwrap();
    other.create_match().unwrap();
    let unknown = other.create_match().unwrap();
    assert!(t.lookup_match(unknown).is_none());
}

#[test]
fn identifiers_and_players_compare_by_number() {
    let mut t = fresh();
    let a = t.create_player("Same");
    let b = t.create_player("Same");
    assert!(a == a);
    assert!(a != b);
    assert!(a < b);
    assert!(b > a);
    assert!(a <= a);
    assert_eq!(a.cmp(&b), std::cmp::Ordering::Less);
    let pa = t.lookup_player(a).unwrap().clone();
    let pb = t.lookup_player(b).unwrap().clone();
    assert!(pa != pb);
    assert!(pa < pb);
    let renamed = Player { ident: a, name: "Other".to_string() };
    assert!(pa == renamed);
}

fn to_json(records: &[Vec<(String, bool)>]) -> String {
    let content: Vec<BTreeMap<String, f32>> = records
        .iter()
        .map(|r| r.iter().map(|(n, w)| (n.clone(), if *w { 1.0 } else { 0.0 })).collect())
        .collect();
    serde_json::to_string_pretty(&content).unwrap()
}

fn from_json(text: &str) -> Vec<Vec<(String, u32)>> {
    let content: Vec<BTreeMap<String, f32>> = serde_json::from_str(text).unwrap();
    content
        .into_iter()
        .map(|s| s.into_iter().map(|(n, v)| (n, v.to_bits())).collect())
        .collect()
}

#[test]
fn export_marks_the_winner() {
    let mut t = fresh();
    let (_, c) = three_way(&mut t);
    t.delete_player(c);
    let records = t.export_records();
    assert_eq!(
        records,
        vec![vec![
            ("A".to_string(), false),
            ("B".to_string(), true),
            ("<DELETED>".to_string(), false)
        ]]
    );
}

#[test]
fn export_of_open_match_is_all_zero() {
    let mut t = fresh();
    let a = t.create_player("A");
    let m = t.create_match().unwrap();
    t.add_component(m, a);
    let json = to_json(&t.export_records());
    let back = from_json(&json);
    assert_eq!(back, vec![vec![("A".to_string(), 0.0f32.to_bits())]]);
}

#[test]
fn round_trip_through_json() {
    let mut t = fresh();
    let ann = t.create_player("Ann");
    let bo = t.create_player("Bo");
    let m = t.create_match().unwrap();
    t.add_component(m, ann);
    t.add_component(m, bo);
    t.declare_winner(m, ann).unwrap();
    let json = to_json(&t.export_records());

    let mut loaded = fresh();
    assert_eq!(loaded.import_records(&from_json(&json)), Ok(()));
    assert_eq!(loaded.ordered_matches().len(), 1);
    let mat = &loaded.ordered_matches()[0];
    let mut names: Vec<String> =
        mat.components.iter().map(|c| loaded.render_participant_name(c.player)).collect();
    names.sort();
    assert_eq!(names, vec!["Ann".to_string(), "Bo".to_string()]);
    let winner = mat.winner.unwrap();
    assert_eq!(loaded.render_participant_name(winner), "Ann");
}

#[test]
fn import_reuses_existing_names() {
    let mut t = fresh();
    let ann = t.create_player("Ann");
    let sections = vec![vec![
        ("Ann".to_string(), 0.0f32.to_bits()),
        ("Cy".to_string(), 1.0f32.to_bits()),
    ]];
    assert_eq!(t.import_records(&sections), Ok(()));
    assert_eq!(t.ordered_players().len(), 2);
    let mat = &t.ordered_matches()[0];
    assert!(mat.components[0].player.same(&ann));
    assert_eq!(t.render_participant_name(mat.winner.unwrap()), "Cy");
}

#[test]
fn import_tie_goes_to_first_read() {
    let mut t = fresh();
    let sections = vec![vec![
        ("X".to_string(), 1.0f32.to_bits()),
        ("Y".to_string(), 1.0f32.to_bits()),
    ]];
    t.import_records(&sections).unwrap();
    let mat = &t.ordered_matches()[0];
    assert_eq!(t.render_participant_name(mat.winner.unwrap()), "X");
}

#[test]
fn import_repeated_name_joins_once() {
    let mut t = fresh();
    let sections = vec![vec![
        ("X".to_string(), 0.0f32.to_bits()),
        ("X".to_string(), 1.0f32.to_bits()),
    ]];
    t.import_records(&sections).unwrap();
    assert_eq!(t.ordered_players().len(), 1);
    let mat = &t.ordered_matches()[0];
    assert_eq!(mat.components.len(), 1);
    assert!(mat.winner.is_some());
}

#[test]
fn import_empty_section_gives_empty_match() {
    let mut t = fresh();
    t.import_records(&vec![vec![], vec![("Z".to_string(), 0.0f32.to_bits())]]).unwrap();
    let matches = t.ordered_matches();
    assert_eq!(matches.len(), 2);
    assert!(matches[0].components.is_empty());
    assert!(matches[0].winner.is_none());
    assert_eq!(matches[1].ident.value(), 1);
    assert!(matches[1].winner.is_some());
}

#[test]
fn component_lookup() {
    let mut generator: IdentGenerator<PlayerKind> = IdentGenerator::new();
    let p = Player::new(&mut generator, "P");
    let q = Player::new(&mut generator, "Q");
    let components = vec![MatchComponent::new(p.ident)];
    assert!(repeat_component(&components, p.ident));
    assert!(!repeat_component(&components, q.ident));
    assert!(!repeat_component(&[], p.ident));
}

#[test]
fn match_generator_is_independent() {
    let mut players: IdentGenerator<PlayerKind> = IdentGenerator::new();
    let mut matches: IdentGenerator<MatchKind> = IdentGenerator::new();
    players.next_ident();
    players.next_ident();
    assert_eq!(matches.next_ident().value(), 0);
    let mut t = Tournament::new(players, matches);
    assert_eq!(t.create_player("A").value(), 2);
    assert_eq!(t.create_match().unwrap().value(), 1);
}
