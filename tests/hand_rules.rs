use blackjack::cards::{Card, CardSuit, CardValue};
use blackjack::hand::{Hand, HandResult};

fn card(value: CardValue) -> Card {
    Card { value, suit: CardSuit::Spade }
}

fn hand(values: &[CardValue]) -> Hand {
    Hand { cards: values.iter().map(|v| card(*v)).collect() }
}

use CardValue::{Ace, Eight, Five, Four, Jack, King, Nine, Queen, Seven, Six, Ten, Three, Two};

#[test]
fn points_count_each_ace_low_or_high() {
    assert_eq!(hand(&[Ace, King]).points(), vec![11, 21]);
    assert_eq!(hand(&[Ace, Ace]).points(), vec![2, 12, 22]);
    assert_eq!(hand(&[Five, Jack, Queen]).points(), vec![25]);
    assert_eq!(hand(&[]).points(), vec![0]);
}

#[test]
fn points_hold_the_all_low_sum_and_steps_of_ten() {
    let pts = hand(&[Ace, Six, Ace]).points();
    assert!(pts.contains(&8));
    assert!(pts.contains(&18));
    assert!(pts.contains(&28));
    assert_eq!(pts.len(), 3);
}

#[test]
fn blackjack_needs_two_cards_making_21() {
    assert!(hand(&[Ace, King]).is_blackjack());
    assert!(hand(&[Ten, Ace]).is_blackjack());
    assert!(!hand(&[Seven, Seven, Seven]).is_blackjack());
    assert!(!hand(&[Ace, Nine]).is_blackjack());
}

#[test]
fn bust_when_every_total_exceeds_21() {
    assert!(hand(&[King, Queen, Two]).is_bust());
    assert!(!hand(&[King, Queen, Ace]).is_bust());
    assert!(!hand(&[Ace, Ace, King, Nine]).is_bust());
    assert!(hand(&[Ace, Ace, King, Queen]).is_bust());
}

#[test]
fn max_points_picks_best_total_or_low_sum() {
    assert_eq!(hand(&[Ace, Six]).max_points(), 17);
    assert_eq!(hand(&[Ace, Six, King]).max_points(), 17);
    assert_eq!(hand(&[Ace, Ace, Nine]).max_points(), 21);
    assert_eq!(hand(&[King, Queen, Five]).max_points(), 25);
}

#[test]
fn dealer_stands_on_soft_seventeen() {
    assert!(!hand(&[Six, Ace]).dealer_must_hit());
    assert!(hand(&[Five, Ace]).dealer_must_hit());
    assert!(hand(&[Six, Ten]).dealer_must_hit());
    assert!(!hand(&[Seven, Ten]).dealer_must_hit());
    assert!(hand(&[King, Queen, Five]).dealer_must_hit());
}

#[test]
fn split_needs_two_split_equal_cards() {
    assert!(hand(&[Eight, Eight]).can_split());
    assert!(hand(&[King, Ten]).can_split());
    assert!(!hand(&[King, Ace]).can_split());
    assert!(!hand(&[Eight, Eight, Eight]).can_split());
}

#[test]
fn double_down_needs_ten_or_eleven() {
    assert!(hand(&[Five, Six]).can_double_down());
    assert!(hand(&[Four, Six]).can_double_down());
    assert!(hand(&[Ace, Nine]).can_double_down());
    assert!(!hand(&[Four, Five]).can_double_down());
    assert!(!hand(&[Five, Three, Two]).can_double_down());
}

#[test]
fn dealer_up_card_is_the_second() {
    assert!(hand(&[King, Ace]).dealer_showing_ace());
    assert!(!hand(&[Ace, King]).dealer_showing_ace());
}

#[test]
fn showdown_blackjack_against_nineteen() {
    let player = hand(&[Ace, King]);
    let dealer = hand(&[Ten, Nine]);
    assert_eq!(player.showdown_result(Some(&dealer)), HandResult::BlackJack);
    assert_eq!(player.showdown_result(None), HandResult::BlackJack);
}

#[test]
fn showdown_compares_best_totals() {
    let dealer = hand(&[Ten, Eight]);
    assert_eq!(hand(&[Ten, Nine]).showdown_result(Some(&dealer)), HandResult::Win);
    assert_eq!(hand(&[Ten, Seven]).showdown_result(Some(&dealer)), HandResult::Lose);
    assert_eq!(hand(&[Ace, Seven]).showdown_result(Some(&dealer)), HandResult::Push);
    assert_eq!(hand(&[King, Queen, Five]).showdown_result(Some(&dealer)), HandResult::Lose);
}

#[test]
fn showdown_against_a_bust_dealer() {
    let dealer = hand(&[Ten, Six, Nine]);
    assert_eq!(hand(&[Ten, Two]).showdown_result(Some(&dealer)), HandResult::Win);
    assert_eq!(hand(&[Seven, Seven, Seven]).showdown_result(Some(&dealer)), HandResult::BlackJack);
}

#[test]
fn showdown_two_blackjacks_push() {
    let dealer = hand(&[Ace, Queen]);
    assert_eq!(hand(&[King, Ace]).showdown_result(Some(&dealer)), HandResult::Push);
    assert_eq!(hand(&[Ten, Ace, Queen]).showdown_result(Some(&dealer)), HandResult::Push);
    assert_eq!(hand(&[Ten, Nine]).showdown_result(Some(&dealer)), HandResult::Lose);
}

#[test]
fn card_values_and_suits_in_order() {
    let values = CardValue::values();
    assert_eq!(values.len(), 13);
    assert_eq!(values[0], Ace);
    assert_eq!(values[12], King);
    assert_eq!(CardSuit::suits(), [CardSuit::Club, CardSuit::Diamond, CardSuit::Heart, CardSuit::Spade]);
    assert!(Jack.equal_to(&Queen));
    assert!(Two.equal_to(&Two));
    assert!(!Two.equal_to(&Three));
    assert_eq!(Ten.symbol(), 'T');
    assert_eq!(Ace.symbol(), 'A');
    assert_eq!(Queen.low_value(), 10);
    assert_eq!(Ace.low_value(), 1);
    assert!(CardSuit::Heart.is_red());
    assert!(!CardSuit::Club.is_red());
}
