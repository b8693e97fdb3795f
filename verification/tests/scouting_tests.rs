use my_little_cardgame::area_deck::scouting::ScoutingParams;
use my_little_cardgame::area_deck::AreaDeck;

#[test]
fn test_scouting_params_creation() {
    let params = ScoutingParams::new(3);
    assert_eq!(params.preview_count, 3);
    assert!(params.affix_bias.is_none());
    assert!(params.pool_modifier.is_none());
}

#[test]
fn test_deterministic_seed_modification() {
    let params1 = ScoutingParams::new(3).with_affix_bias(vec!["fire".to_string(), "poison".to_string()]);
    let params2 = ScoutingParams::new(3).with_affix_bias(vec!["fire".to_string(), "poison".to_string()]);

    let base_seed = 12345u64;
    assert_eq!(params1.apply_to_seed(base_seed), params2.apply_to_seed(base_seed));
}

#[test]
fn apply_to_seed_exact_values() {
    // no bias, no modifier: seed + preview count
    assert_eq!(ScoutingParams::new(3).apply_to_seed(10), 13);
    // a modifier: seed * 17 + its length, then + preview count
    let p = ScoutingParams::new(1).with_pool_modifier("ab".to_string());
    assert_eq!(p.apply_to_seed(2), 2 * 17 + 2 + 1);
    // wrapping arithmetic at the top of the range
    assert_eq!(ScoutingParams::new(1).apply_to_seed(u64::MAX), 0);
}

#[test]
fn area_deck_pick_and_recycle_round_trip() {
    let mut area = AreaDeck::new("forest".to_string());
    area.add_encounter(4);
    area.add_encounter(9);
    area.draw_to_hand(1);
    assert_eq!(area.hand.len(), 1);
    let picked = area.hand[0];
    assert!(area.pick_encounter(picked));
    assert!(!area.hand.contains(&picked));
    assert!(area.recycle_encounter(picked));
    // back in the deck: not pickable, still one of the area's encounters
    assert!(!area.contains(picked));
    assert!(area.encounter_card_ids().contains(&picked));
    assert_eq!(area.encounter_card_ids().len(), 2);
    assert!(!area.pick_encounter(77));
}

#[test]
fn area_deck_moves_keep_the_encounter_ids() {
    let mut area = AreaDeck::new("marsh".to_string());
    for id in [3, 5, 5, 8] {
        area.add_encounter(id);
    }
    let mut before = area.encounter_card_ids();
    before.sort();
    area.draw_to_hand(3);
    let picked = area.hand[0];
    assert!(area.pick_encounter(picked));
    assert!(area.recycle_encounter(picked));
    let mut after = area.encounter_card_ids();
    after.sort();
    assert_eq!(before, after);
}
