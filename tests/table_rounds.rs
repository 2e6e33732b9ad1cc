use blackjack::cards::{Card, CardSuit, CardValue};
use blackjack::game::{BlackJack, BlackJackState, EndState, PlayingState};
use blackjack::hand::{Hand, HandResult};
use blackjack::model::{Inputs, Model};
use blackjack::PlayerState;

use CardValue::{Ace, Eight, Five, Four, King, Nine, Queen, Seven, Six, Ten, Three, Two};

fn idle() -> Inputs {
    Inputs {
        press_x: false,
        press_z: false,
        press_left: false,
        press_right: false,
        press_up: false,
        press_down: false,
        tap_x: false,
        tap_z: false,
        tap_left: false,
        tap_right: false,
        tap_up: false,
        tap_down: false,
    }
}

fn tap_x() -> Inputs {
    Inputs { tap_x: true, press_x: true, ..idle() }
}

fn tap_z() -> Inputs {
    Inputs { tap_z: true, press_z: true, ..idle() }
}

fn tap_up() -> Inputs {
    Inputs { tap_up: true, press_up: true, ..idle() }
}

fn tap_down() -> Inputs {
    Inputs { tap_down: true, press_down: true, ..idle() }
}

fn tap_right() -> Inputs {
    Inputs { tap_right: true, press_right: true, ..idle() }
}

fn tick(game: &mut BlackJack, i: Inputs) -> Option<PlayerState> {
    game.update([i, idle(), idle(), idle()])
}

fn card(value: CardValue) -> Card {
    Card { value, suit: CardSuit::Heart }
}

fn hand(values: &[CardValue]) -> Hand {
    Hand { cards: values.iter().map(|v| card(*v)).collect() }
}

/// A table with `bank` chips whose shoe deals the dealer `d1`, `d2` and the player
/// `p1`, `p2`, after `rest` (drawn last).
fn table(bank: u32, d1: CardValue, p1: CardValue, d2: CardValue, p2: CardValue, rest: &[CardValue]) -> BlackJack {
    let mut game = BlackJack::new(5);
    game.share_state(PlayerState { bank });
    let mut horn: Vec<Card> = rest.iter().rev().map(|v| card(*v)).collect();
    horn.push(card(p2));
    horn.push(card(d2));
    horn.push(card(p1));
    horn.push(card(d1));
    game.horn = horn;
    game
}

fn deal(game: &mut BlackJack) {
    for _ in 0..50 {
        assert_eq!(tick(game, idle()), None);
    }
}

#[test]
fn bet_steps_up_by_ten() {
    let mut game = BlackJack::new(1);
    game.share_state(PlayerState { bank: 100 });
    for _ in 0..5 {
        tick(&mut game, tap_up());
    }
    assert_eq!(game.player_bet, 50);
    for _ in 0..10 {
        tick(&mut game, tap_up());
    }
    assert_eq!(game.player_bet, 100);
    for _ in 0..20 {
        tick(&mut game, tap_down());
    }
    assert_eq!(game.player_bet, 10);
}

#[test]
fn bet_is_capped_by_a_small_bank() {
    let mut game = BlackJack::new(1);
    game.share_state(PlayerState { bank: 30 });
    for _ in 0..5 {
        tick(&mut game, tap_up());
    }
    assert_eq!(game.player_bet, 30);
}

#[test]
fn bank_below_minimum_refuses_bet() {
    let mut game = BlackJack::new(1);
    game.share_state(PlayerState { bank: 5 });
    tick(&mut game, tap_x());
    assert!(game.error_cue);
    assert!(matches!(game.state, BlackJackState::Betting));
    assert_eq!(game.player_bank, 5);
    tick(&mut game, idle());
    assert!(!game.error_cue);
}

#[test]
fn leaving_from_betting_returns_bank() {
    let mut game = BlackJack::new(1);
    game.share_state(PlayerState { bank: 70 });
    assert_eq!(tick(&mut game, tap_z()), Some(PlayerState { bank: 70 }));
}

#[test]
fn opening_deal_takes_four_cards() {
    let mut game = BlackJack::new(9);
    game.share_state(PlayerState { bank: 100 });
    let before = game.horn.len();
    tick(&mut game, tap_x());
    assert_eq!(game.player_bank, 90);
    assert_eq!(game.total_bet, 10);
    for _ in 0..40 {
        tick(&mut game, idle());
    }
    assert_eq!(game.horn.len(), before - 4);
    match &game.state {
        BlackJackState::Dealing(d) => {
            assert_eq!(d.dealer_hand.cards.len(), 2);
            assert_eq!(d.player_hand.cards.len(), 2);
        }
        _ => panic!("still dealing"),
    }
}

#[test]
fn ace_up_card_offers_insurance_declined() {
    let mut game = table(100, Five, Five, Ace, Six, &[]);
    tick(&mut game, tap_x());
    deal(&mut game);
    assert!(matches!(game.state, BlackJackState::Insurance(_)));
    tick(&mut game, tap_z());
    assert_eq!(game.player_bank, 90);
    assert!(matches!(game.state, BlackJackState::Playing(_)));
}

#[test]
fn ace_up_card_offers_insurance_accepted() {
    let mut game = table(100, Seven, Five, Ace, Six, &[]);
    for _ in 0..3 {
        tick(&mut game, tap_up());
    }
    tick(&mut game, tap_x());
    assert_eq!(game.player_bet, 30);
    assert_eq!(game.player_bank, 70);
    deal(&mut game);
    assert!(matches!(game.state, BlackJackState::Insurance(_)));
    tick(&mut game, tap_x());
    assert_eq!(game.player_bank, 55);
    assert!(matches!(game.state, BlackJackState::Playing(_)));
}

#[test]
fn insured_dealer_blackjack_pays_insurance() {
    let mut game = table(100, King, Five, Ace, Six, &[]);
    tick(&mut game, tap_x());
    deal(&mut game);
    tick(&mut game, tap_x());
    assert_eq!(game.player_bank, 85);
    match &game.state {
        BlackJackState::End(e) => {
            assert!(e.bought_insurance);
            assert_eq!(e.player_hands.len(), 1);
            assert_eq!(e.player_hands[0].1, HandResult::Lose);
        }
        _ => panic!("round ends on a dealer blackjack"),
    }
    tick(&mut game, idle());
    assert_eq!(game.player_bank, 100);
    assert_eq!(game.player_bet, 0);
    assert_eq!(game.total_bet, 0);
}

#[test]
fn player_blackjack_pays_six_to_five_plus_stake() {
    let mut game = table(100, Ten, Ace, Nine, King, &[]);
    tick(&mut game, tap_x());
    assert_eq!(game.player_bank, 90);
    deal(&mut game);
    assert!(matches!(game.state, BlackJackState::Playing(_)));
    tick(&mut game, idle());
    tick(&mut game, idle());
    match &game.state {
        BlackJackState::End(e) => assert_eq!(e.player_hands[0].1, HandResult::BlackJack),
        _ => panic!("round ends without the dealer"),
    }
    tick(&mut game, idle());
    assert_eq!(game.player_bank, 90 + 10 * 6 / 5 + 10);
    tick(&mut game, tap_x());
    assert!(matches!(game.state, BlackJackState::Betting));
}

#[test]
fn split_eights_makes_two_hands() {
    let mut game = table(100, Ten, Eight, Seven, Eight, &[Three, Two]);
    tick(&mut game, tap_x());
    deal(&mut game);
    let before = game.horn.len();
    tick(&mut game, tap_down());
    tick(&mut game, tap_x());
    assert_eq!(game.total_bet, 20);
    assert_eq!(game.horn.len(), before - 2);
    match &game.state {
        BlackJackState::Playing(p) => {
            assert_eq!(p.player_hands.len(), 2);
            assert_eq!(p.player_hands[0].cards, vec![card(Eight), card(Three)]);
            assert_eq!(p.player_hands[1].cards, vec![card(Eight), card(Two)]);
            assert_eq!(p.player_hand_index, 0);
        }
        _ => panic!("still playing"),
    }
}

#[test]
fn disabled_split_is_refused() {
    let mut game = table(100, Ten, Eight, Seven, Nine, &[]);
    tick(&mut game, tap_x());
    deal(&mut game);
    tick(&mut game, tap_down());
    tick(&mut game, tap_x());
    assert!(game.error_cue);
    assert_eq!(game.total_bet, 10);
}

#[test]
fn double_down_draws_once_and_moves_on() {
    let mut game = table(100, Ten, Five, Seven, Six, &[Nine]);
    tick(&mut game, tap_x());
    deal(&mut game);
    tick(&mut game, tap_down());
    tick(&mut game, tap_right());
    tick(&mut game, tap_x());
    assert_eq!(game.total_bet, 20);
    match &game.state {
        BlackJackState::Playing(p) => {
            assert_eq!(p.player_hands[0].cards.len(), 3);
            assert_eq!(p.player_hand_index, 1);
        }
        _ => panic!("still playing"),
    }
}

#[test]
fn stand_then_dealer_draws_and_settles() {
    let mut game = table(100, Ten, Ten, Six, Nine, &[Five]);
    tick(&mut game, tap_x());
    deal(&mut game);
    tick(&mut game, tap_right());
    tick(&mut game, tap_x());
    tick(&mut game, idle());
    assert!(matches!(game.state, BlackJackState::DealerResolving(_)));
    for _ in 0..30 {
        tick(&mut game, idle());
    }
    match &game.state {
        BlackJackState::DealerResolving(r) => assert_eq!(r.dealer_hand.cards.len(), 3),
        _ => panic!("dealer still playing"),
    }
    tick(&mut game, idle());
    match &game.state {
        BlackJackState::End(e) => assert_eq!(e.player_hands[0].1, HandResult::Lose),
        _ => panic!("dealer stands on 21"),
    }
    let r = tick(&mut game, tap_z());
    assert_eq!(r, Some(PlayerState { bank: 90 }));
}

#[test]
fn hit_to_bust_loses() {
    let mut game = table(100, Ten, Ten, Seven, Six, &[King]);
    tick(&mut game, tap_x());
    deal(&mut game);
    tick(&mut game, tap_x());
    match &game.state {
        BlackJackState::Playing(p) => assert_eq!(p.player_hands[0].cards.len(), 3),
        _ => panic!("still playing"),
    }
    tick(&mut game, tap_x());
    tick(&mut game, idle());
    match &game.state {
        BlackJackState::End(e) => assert_eq!(e.player_hands[0].1, HandResult::Lose),
        _ => panic!("a bust hand needs no dealer"),
    }
    tick(&mut game, idle());
    assert_eq!(game.player_bank, 90);
}

#[test]
fn push_returns_the_bet() {
    let mut game = BlackJack::new(2);
    game.share_state(PlayerState { bank: 50 });
    game.player_bet = 10;
    game.state = BlackJackState::Playing(PlayingState::new(hand(&[Ten, Eight]), hand(&[Nine, Nine])));
    tick(&mut game, tap_right());
    tick(&mut game, tap_x());
    tick(&mut game, idle());
    tick(&mut game, idle());
    match &game.state {
        BlackJackState::End(e) => assert_eq!(e.player_hands[0].1, HandResult::Push),
        _ => panic!("dealer stands on 18"),
    }
    tick(&mut game, idle());
    assert_eq!(game.player_bank, 60);
}

#[test]
fn model_trait_drives_the_table() {
    let mut game = BlackJack::new(4);
    Model::share_state(&mut game, PlayerState { bank: 40 });
    let r = Model::update(&mut game, [tap_z(), idle(), idle(), idle()]);
    assert_eq!(r, Some(PlayerState { bank: 40 }));
}

#[test]
fn uninsured_dealer_blackjack_pays_each_hand() {
    let mut game = BlackJack::new(6);
    game.share_state(PlayerState { bank: 90 });
    game.player_bet = 10;
    game.total_bet = 10;
    game.state = BlackJackState::End(EndState {
        dealer_hand: hand(&[Ace, King]),
        player_hands: vec![(hand(&[Ace, Queen]), HandResult::BlackJack)],
        bought_insurance: false,
    });
    tick(&mut game, idle());
    assert_eq!(game.player_bank, 112);
    assert_eq!(game.player_bet, 0);
    assert_eq!(game.total_bet, 0);
}

#[test]
fn hidden_ace_dealer_blackjack_settles_by_result() {
    let mut game = table(100, Ace, Ten, King, Nine, &[]);
    tick(&mut game, tap_x());
    deal(&mut game);
    assert!(matches!(game.state, BlackJackState::Playing(_)));
    tick(&mut game, tap_right());
    tick(&mut game, tap_x());
    tick(&mut game, idle());
    tick(&mut game, idle());
    match &game.state {
        BlackJackState::End(e) => {
            assert!(!e.bought_insurance);
            assert_eq!(e.player_hands[0].1, HandResult::Lose);
        }
        _ => panic!("dealer stands on 21"),
    }
    tick(&mut game, idle());
    assert_eq!(game.player_bank, 90);
}

#[test]
fn menu_moves_are_clamped_to_the_grid() {
    let mut game = BlackJack::new(8);
    game.share_state(PlayerState { bank: 100 });
    game.player_bet = 10;
    game.state = BlackJackState::Playing(PlayingState::new(hand(&[Ten, Eight]), hand(&[Five, Four])));
    let both = Inputs { tap_left: true, tap_right: true, tap_up: true, tap_down: true, ..idle() };
    tick(&mut game, tap_down());
    tick(&mut game, tap_down());
    tick(&mut game, tap_right());
    tick(&mut game, tap_right());
    match &game.state {
        BlackJackState::Playing(p) => assert_eq!(p.button_index, 3),
        _ => panic!("still playing"),
    }
    tick(&mut game, both);
    match &game.state {
        BlackJackState::Playing(p) => assert_eq!(p.button_index, 0),
        _ => panic!("still playing"),
    }
}
