use blackjack::cards::{Card, CardSuit, CardValue};
use blackjack::shoe::{draw_card, new_shuffled_horn, SHOE_SIZE};
use fastrand::Rng;

fn unshuffled() -> Vec<Card> {
    let mut cards = Vec::new();
    for _ in 0..7 {
        for suit in CardSuit::suits() {
            for value in CardValue::values() {
                cards.push(Card { value, suit });
            }
        }
    }
    cards
}

#[test]
fn fresh_shoe_holds_seven_decks() {
    let rng = Rng::with_seed(7);
    let horn = new_shuffled_horn(&rng);
    assert_eq!(horn.len(), 364);
    assert_eq!(SHOE_SIZE, 364);
    for value in CardValue::values() {
        for suit in CardSuit::suits() {
            let n = horn.iter().filter(|c| c.value == value && c.suit == suit).count();
            assert_eq!(n, 7);
        }
    }
}

#[test]
fn fresh_shoe_is_shuffled() {
    let rng = Rng::with_seed(42);
    let horn = new_shuffled_horn(&rng);
    assert_ne!(horn, unshuffled());
}

#[test]
fn draw_from_empty_shoe_refills_it() {
    let rng = Rng::with_seed(3);
    let mut horn: Vec<Card> = Vec::new();
    let card = draw_card(&mut horn, &rng);
    assert_eq!(horn.len(), 363);
    let mut all = horn.clone();
    all.push(card);
    for value in CardValue::values() {
        let n = all.iter().filter(|c| c.value == value).count();
        assert_eq!(n, 28);
    }
}

#[test]
fn draw_takes_the_last_card() {
    let rng = Rng::with_seed(3);
    let a = Card { value: CardValue::Two, suit: CardSuit::Club };
    let b = Card { value: CardValue::King, suit: CardSuit::Heart };
    let mut horn = vec![a, b];
    assert_eq!(draw_card(&mut horn, &rng), b);
    assert_eq!(horn, vec![a]);
    assert_eq!(draw_card(&mut horn, &rng), a);
    assert!(horn.is_empty());
}

#[test]
fn four_draws_take_four_cards() {
    let rng = Rng::with_seed(11);
    let mut horn = new_shuffled_horn(&rng);
    let before = horn.clone();
    for k in 0..4 {
        let c = draw_card(&mut horn, &rng);
        assert_eq!(c, before[before.len() - 1 - k]);
    }
    assert_eq!(horn.len(), before.len() - 4);
}
