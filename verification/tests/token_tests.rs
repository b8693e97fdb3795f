use my_little_cardgame::library::token_map::TokenMap;
use my_little_cardgame::library::types::{token_entry_by_type, Token, TokenType};

#[test]
fn all_token_types_lists_every_variant_once() {
    let all = TokenType::all();
    assert_eq!(all.len(), 45);
    assert!(all.contains(&TokenType::MiningPower));
    assert!(all.contains(&TokenType::Durability));
    for (i, a) in all.iter().enumerate() {
        for b in all.iter().skip(i + 1) {
            assert_ne!(a, b);
        }
    }
}

#[test]
fn token_entry_by_type_returns_first_existing_entry() {
    let mut map = TokenMap::new();
    map.insert(Token::dodge(), 5);
    let (key, amount) = token_entry_by_type(&mut map, &TokenType::Dodge);
    assert_eq!(amount, 5);
    assert!(key.equals(&Token::dodge()));
    assert_eq!(map.len(), 1);
}

#[test]
fn token_entry_by_type_inserts_a_zero_counter_when_absent() {
    let mut map = TokenMap::new();
    map.insert(Token::persistent(TokenType::Health), 7);
    let (key, amount) = token_entry_by_type(&mut map, &TokenType::Stamina);
    assert_eq!(amount, 0);
    assert!(key.equals(&Token::persistent(TokenType::Stamina)));
    assert_eq!(map.len(), 2);
    assert_eq!(map.get(&Token::persistent(TokenType::Stamina)), Some(0));
}
