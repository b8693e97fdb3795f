use my_little_cardgame::library::game_state::EncounterRecord;
use my_little_cardgame::library::metrics::{compute_discipline_metrics, compute_resource_flow, compute_session_metrics, ResourceFlow};
use my_little_cardgame::library::token_map::TokenMap;
use my_little_cardgame::library::types::{Discipline, EncounterOutcome, Token, TokenType};

fn record(d: Discipline, o: EncounterOutcome, rounds: u64, start: &[(TokenType, i64)], end: &[(TokenType, i64)]) -> EncounterRecord {
    EncounterRecord { discipline: d, outcome: o, rounds, tokens_at_start: start.to_vec(), tokens_at_end: end.to_vec() }
}

fn records() -> Vec<EncounterRecord> {
    vec![
        record(
            Discipline::Combat,
            EncounterOutcome::PlayerWon,
            4,
            &[(TokenType::Health, 20), (TokenType::Ore, 5)],
            &[(TokenType::Health, 12), (TokenType::Ore, 9)],
        ),
        record(
            Discipline::Combat,
            EncounterOutcome::PlayerLost,
            6,
            &[(TokenType::Health, 12), (TokenType::Ore, 9)],
            &[(TokenType::Health, 0), (TokenType::Ore, 2)],
        ),
        record(Discipline::Rest, EncounterOutcome::PlayerWon, 1, &[(TokenType::Stamina, 3)], &[(TokenType::Stamina, 8)]),
    ]
}

#[test]
fn discipline_tallies_count_wins_losses_and_snapshots() {
    let t = compute_discipline_metrics(Discipline::Combat, &records());
    assert_eq!((t.wins, t.losses, t.total, t.rounds_sum), (1, 1, 2, 10));
    assert_eq!(t.token_tallies.len(), 1);
    let h = t.token_tallies[0];
    assert_eq!(h.token_type, TokenType::Health);
    assert_eq!((h.start_count, h.start_sum, h.min_start, h.max_start), (2, 32, 12, 20));
    assert_eq!((h.end_count, h.end_sum, h.min_end, h.max_end), (2, 12, 0, 12));
    let none = compute_discipline_metrics(Discipline::Fishing, &records());
    assert_eq!((none.wins, none.losses, none.total), (0, 0, 0));
    assert!(none.token_tallies.is_empty());
}

#[test]
fn a_later_snapshot_entry_of_a_type_counts() {
    let r = vec![record(
        Discipline::Mining,
        EncounterOutcome::PlayerWon,
        2,
        &[(TokenType::Stamina, 1), (TokenType::Stamina, 7)],
        &[],
    )];
    let t = compute_discipline_metrics(Discipline::Mining, &r);
    assert_eq!(t.token_tallies.len(), 1);
    assert_eq!(t.token_tallies[0].start_sum, 7);
    assert_eq!(t.token_tallies[0].end_count, 0);
}

#[test]
fn resource_flow_splits_rises_and_falls() {
    let f = compute_resource_flow(&records(), TokenType::Ore);
    assert_eq!(f, Some(ResourceFlow { total_gained: 4, total_spent: 7, net: -3 }));
    let none = compute_resource_flow(&records(), TokenType::Fish);
    assert_eq!(none, Some(ResourceFlow { total_gained: 0, total_spent: 0, net: 0 }));
    let huge = vec![
        record(Discipline::Combat, EncounterOutcome::PlayerWon, 1, &[(TokenType::Ore, i64::MIN)], &[(TokenType::Ore, i64::MAX)]),
    ];
    assert_eq!(compute_resource_flow(&huge, TokenType::Ore), None);
}

#[test]
fn session_metrics_list_played_disciplines_and_deaths() {
    let mut balances = TokenMap::new();
    balances.insert(Token::persistent(TokenType::PlayerDeaths), 2);
    let s = compute_session_metrics(&records(), &balances).expect("in range");
    assert_eq!(s.total_encounters, 3);
    assert_eq!(s.total_deaths, 2);
    assert_eq!(s.per_discipline.len(), 2);
    assert_eq!(s.per_discipline[0].discipline, Discipline::Combat);
    assert_eq!(s.per_discipline[1].discipline, Discipline::Rest);
    assert_eq!(s.resource_flow.len(), 4);
    assert_eq!(s.resource_flow[0], (TokenType::Ore, ResourceFlow { total_gained: 4, total_spent: 7, net: -3 }));
    let mut negative = TokenMap::new();
    negative.insert(Token::persistent(TokenType::PlayerDeaths), -5);
    assert_eq!(compute_session_metrics(&vec![], &negative).expect("in range").total_deaths, 0);
}
