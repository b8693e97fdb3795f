use my_little_cardgame::deck::card::CardType;
use my_little_cardgame::deck::{CardState, CardStateCounts, Deck, DeckCard};
use rand::{RngCore, SeedableRng};
use rand_pcg::Lcg64Xsh32;

fn counts(pairs: Vec<(CardState, u32)>) -> CardStateCounts {
    CardStateCounts::from_pairs(pairs)
}

#[test]
fn change_card_state_nonexistent_card_returns_error() {
    let mut deck = Deck { cards: vec![], id: 42, contains_card_types: vec![] };
    assert!(deck.change_card_state(99, CardState::Hand, CardState::Deck).is_err());
}

#[test]
fn change_card_state_missing_state_returns_error() {
    let mut deck = Deck {
        cards: vec![DeckCard { id: 1, state: counts(vec![(CardState::Deck, 1)]) }],
        id: 1,
        contains_card_types: vec![],
    };
    assert!(deck.change_card_state(1, CardState::Hand, CardState::Discard).is_err());
}

#[test]
fn change_random_cards_state_calls_change_card_state_error_when_old_state_missing() {
    let mut deck = Deck {
        cards: vec![DeckCard { id: 7, state: counts(vec![(CardState::Deck, 1)]) }],
        id: 3,
        contains_card_types: vec![],
    };
    let mut rng = Lcg64Xsh32::from_seed([0u8; 16]);
    // old_state Discard does not exist, so the move is refused
    assert!(deck.change_random_cards_state(1, CardState::Hand, CardState::Discard, &mut rng).is_err());
}

#[test]
fn draw_cards_moves_to_hand() {
    let mut deck = Deck {
        cards: vec![
            DeckCard { id: 1, state: counts(vec![(CardState::Deck, 2)]) },
            DeckCard { id: 2, state: counts(vec![(CardState::Deck, 2)]) },
        ],
        id: 4,
        contains_card_types: vec![],
    };
    let mut rng = Lcg64Xsh32::from_seed([1u8; 16]);
    let _ = deck.draw_cards(1, &mut rng);
    let has_hand = deck.cards.iter().any(|c| c.state.contains_key(CardState::Hand));
    assert!(has_hand);
}

#[test]
fn change_random_cards_state_on_empty_deck_returns_error() {
    let mut deck = Deck { cards: vec![], id: 99, contains_card_types: vec![] };
    let mut rng = Lcg64Xsh32::from_seed([0u8; 16]);
    assert!(deck.change_random_cards_state(1, CardState::Hand, CardState::Deck, &mut rng).is_err());
}

#[test]
fn change_card_state_zero_count_returns_error() {
    let mut deck = Deck {
        cards: vec![DeckCard { id: 5, state: counts(vec![(CardState::Hand, 0u32), (CardState::Deck, 1u32)]) }],
        id: 7,
        contains_card_types: vec![],
    };
    assert!(deck.change_card_state(5, CardState::Discard, CardState::Hand).is_err());
}

#[test]
fn create_deck_unused_id_empty_and_nonempty_behaviour() {
    // empty decks -> unused id should be 0
    let decks_empty: Vec<Deck> = vec![];
    let unused_empty = decks_empty.iter().map(|d| d.id).max().map(|id| id + 1).unwrap_or(0);
    assert_eq!(unused_empty, 0);

    // existing decks -> unused id is max + 1
    let decks = [
        Deck { cards: vec![], id: 0, contains_card_types: vec![] },
        Deck { cards: vec![], id: 2, contains_card_types: vec![] },
    ];
    let unused = decks.iter().map(|d| d.id).max().map(|id| id + 1).unwrap_or(0);
    assert_eq!(unused, 3);
}

#[test]
fn test_change_card_state_success_and_failure() {
    // Successful state change
    let mut deck = Deck {
        cards: vec![DeckCard { id: 5, state: counts(vec![(CardState::Deck, 1)]) }],
        id: 1,
        contains_card_types: vec![CardType::Defence],
    };
    let ok = deck.change_card_state(5, CardState::Hand, CardState::Deck);
    assert!(ok.is_ok());
    let card = deck.cards.iter().find(|c| c.id == 5).expect("card exists");
    assert_eq!(card.state.get(CardState::Hand).unwrap_or(0), 1);

    // Failure when card not present
    let mut other = Deck { cards: vec![], id: 2, contains_card_types: vec![CardType::Attack] };
    let err = other.change_card_state(99, CardState::Hand, CardState::Deck);
    assert!(err.is_err());
}

#[test]
fn test_draw_and_change_random_cards_state_runs() {
    let mut deck = Deck {
        cards: vec![
            DeckCard { id: 1, state: counts(vec![(CardState::Deck, 2)]) },
            DeckCard { id: 2, state: counts(vec![(CardState::Deck, 2)]) },
        ],
        id: 3,
        contains_card_types: vec![CardType::Attack],
    };
    let mut rng = Lcg64Xsh32::from_seed([2u8; 16]);
    // draw one card (should move one Deck -> Hand)
    let _ = deck.draw_cards(1, &mut rng);
    let has_hand = deck.cards.iter().any(|c| c.state.get(CardState::Hand).is_some());
    assert!(has_hand);
}

#[test]
fn change_card_state_moves_one_copy() {
    let mut deck = Deck {
        cards: vec![DeckCard { id: 3, state: counts(vec![(CardState::Deck, 2), (CardState::Hand, 1)]) }],
        id: 1,
        contains_card_types: vec![],
    };
    assert!(deck.change_card_state(3, CardState::Discard, CardState::Deck).is_ok());
    assert_eq!(deck.cards[0].state.get(CardState::Deck), Some(1));
    assert_eq!(deck.cards[0].state.get(CardState::Discard), Some(1));
    assert_eq!(deck.cards[0].state.get(CardState::Hand), Some(1));
}

#[test]
fn change_random_cards_state_keeps_total() {
    let mut deck = Deck {
        cards: vec![DeckCard { id: 1, state: counts(vec![(CardState::Deck, 3)]) }],
        id: 5,
        contains_card_types: vec![],
    };
    let mut rng = Lcg64Xsh32::from_seed([7u8; 16]);
    assert!(deck.change_random_cards_state(3, CardState::Hand, CardState::Deck, &mut rng).is_ok());
    assert_eq!(deck.cards[0].state.get(CardState::Hand), Some(3));
    assert_eq!(deck.cards[0].state.get(CardState::Deck), Some(0));
    // no copy left in the deck: the next move is refused
    assert!(deck.change_random_cards_state(1, CardState::Hand, CardState::Deck, &mut rng).is_err());
}

#[test]
fn a_full_deck_always_draws() {
    let mut deck = Deck {
        cards: vec![
            DeckCard { id: 1, state: counts(vec![(CardState::Deck, 3)]) },
            DeckCard { id: 2, state: counts(vec![(CardState::Deck, 3)]) },
        ],
        id: 5,
        contains_card_types: vec![],
    };
    let mut rng = Lcg64Xsh32::from_seed([2u8; 16]);
    // every card holds three copies in the deck: three draws cannot fail
    assert!(deck.draw_cards(3, &mut rng).is_ok());
    let hand: u32 = deck.cards.iter().map(|c| c.state.get(CardState::Hand).unwrap_or(0)).sum();
    let left: u32 = deck.cards.iter().map(|c| c.state.get(CardState::Deck).unwrap_or(0)).sum();
    assert_eq!(hand, 3);
    assert_eq!(left, 3);
}

#[test]
fn an_empty_deck_leaves_the_generator_alone() {
    let mut deck = Deck { cards: vec![], id: 6, contains_card_types: vec![] };
    let mut rng = Lcg64Xsh32::from_seed([0u8; 16]);
    assert!(deck.draw_cards(1, &mut rng).is_err());
    let mut fresh = Lcg64Xsh32::from_seed([0u8; 16]);
    assert_eq!(rng.next_u64(), fresh.next_u64());
}
