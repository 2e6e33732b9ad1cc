use blackjack::model::{Inputs, User, BUTTON_1, BUTTON_2, BUTTON_UP};
use blackjack::session::{GameKind, MainGame};
use blackjack::PlayerState;

fn idle() -> Inputs {
    User::One.get_inputs([0; 4], [0; 4])
}

#[test]
fn taps_are_new_presses() {
    let pads = [BUTTON_1 | BUTTON_UP, 0, BUTTON_2, 0];
    let prev = [BUTTON_UP, 0, 0, 0];
    let one = User::One.get_inputs(pads, prev);
    assert!(one.press_x && one.tap_x);
    assert!(one.press_up && !one.tap_up);
    assert!(!one.press_z && !one.tap_z);
    let three = User::Three.get_inputs(pads, prev);
    assert!(three.tap_z && three.press_z);
    assert!(!three.tap_x);
    let two = User::Two.get_inputs(pads, prev);
    assert_eq!(two, idle());
}

#[test]
fn init_sets_menu_and_bank_once() {
    let mut shell = MainGame::new();
    shell.init();
    assert_eq!(shell.player_state, PlayerState { bank: 100 });
    assert_eq!(shell.num_games, 1);
    shell.player_state = PlayerState { bank: 7 };
    shell.init();
    assert_eq!(shell.player_state.bank, 7);
    assert_eq!(GameKind::Blackjack.name(), "Blackjack");
}

#[test]
fn starting_and_leaving_a_game_carries_the_bank() {
    let mut shell = MainGame::new();
    shell.init();
    let x = Inputs { tap_x: true, ..idle() };
    let z = Inputs { tap_z: true, ..idle() };
    shell.update([x, idle(), idle(), idle()], 3);
    assert_eq!(shell.frame_count, 1);
    let game = shell.current_game.as_ref().expect("game started");
    assert_eq!(game.player_bank, 100);
    shell.update([z, idle(), idle(), idle()], 3);
    assert!(shell.current_game.is_none());
    assert_eq!(shell.player_state.bank, 100);
}

#[test]
fn menu_wraps_around() {
    let mut shell = MainGame::new();
    shell.init();
    let up = Inputs { tap_up: true, ..idle() };
    let down = Inputs { tap_down: true, ..idle() };
    shell.update([up, idle(), idle(), idle()], 0);
    assert_eq!(shell.current_index, 0);
    shell.update([down, idle(), idle(), idle()], 0);
    assert_eq!(shell.current_index, 0);
    assert!(shell.current_game.is_none());
}
