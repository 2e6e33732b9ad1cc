use vstd::prelude::*;

verus! {

/// Bits of a gamepad byte: the two action buttons and the four directions.
pub const BUTTON_1: u8 = 1;
pub const BUTTON_2: u8 = 2;
pub const BUTTON_LEFT: u8 = 16;
pub const BUTTON_RIGHT: u8 = 32;
pub const BUTTON_UP: u8 = 64;
pub const BUTTON_DOWN: u8 = 128;

/// One participant's buttons on one tick: `press_*` while held, `tap_*` on the
/// tick it went down.
#[derive(Copy, Clone, Debug, PartialEq, Eq, Structural)]
pub struct Inputs {
    pub press_x: bool,
    pub press_z: bool,
    pub press_left: bool,
    pub press_right: bool,
    pub press_up: bool,
    pub press_down: bool,
    pub tap_x: bool,
    pub tap_z: bool,
    pub tap_left: bool,
    pub tap_right: bool,
    pub tap_up: bool,
    pub tap_down: bool,
}

#[derive(Copy, Clone, Debug, PartialEq, Eq, Structural)]
pub enum User {
    One,
    Two,
    Three,
    Four,
}

pub open spec fn held(pad: u8, button: u8) -> bool {
    pad & button != 0
}

/// Held on this tick and not on the one before.
pub open spec fn tapped(pad: u8, prev: u8, button: u8) -> bool {
    held(pad, button) && !held(prev, button)
}

pub open spec fn inputs_of(pad: u8, prev: u8) -> Inputs {
    Inputs {
        press_x: held(pad, BUTTON_1),
        press_z: held(pad, BUTTON_2),
        press_left: held(pad, BUTTON_LEFT),
        press_right: held(pad, BUTTON_RIGHT),
        press_up: held(pad, BUTTON_UP),
        press_down: held(pad, BUTTON_DOWN),
        tap_x: tapped(pad, prev, BUTTON_1),
        tap_z: tapped(pad, prev, BUTTON_2),
        tap_left: tapped(pad, prev, BUTTON_LEFT),
        tap_right: tapped(pad, prev, BUTTON_RIGHT),
        tap_up: tapped(pad, prev, BUTTON_UP),
        tap_down: tapped(pad, prev, BUTTON_DOWN),
    }
}

proof fn lemma_tap_bits(pad: u8, prev: u8)
    ensures
        forall|b: u8|
            b == 1u8 || b == 2u8 || b == 16u8 || b == 32u8 || b == 64u8 || b == 128u8 ==> (
            #[trigger] ((pad & (pad ^ prev)) & b) != 0) == (pad & b != 0 && prev & b == 0),
{
    assert(forall|b: u8|
        b == 1u8 || b == 2u8 || b == 16u8 || b == 32u8 || b == 64u8 || b == 128u8 ==> (
        #[trigger] ((pad & (pad ^ prev)) & b) != 0) == (pad & b != 0 && prev & b == 0))
        by (bit_vector);
}

impl User {
    pub open spec fn index(self) -> int {
        match self {
            User::One => 0,
            User::Two => 1,
            User::Three => 2,
            User::Four => 3,
        }
    }

    /// This participant's buttons, from each gamepad's byte on this tick and on the tick before.
    pub fn get_inputs(&self, gamepads: [u8; 4], previous: [u8; 4]) -> (r: Inputs)
        ensures
            r == inputs_of(gamepads@[self.index()], previous@[self.index()]),
    {
        let i: usize = match self {
            User::One => 0,
            User::Two => 1,
            User::Three => 2,
            User::Four => 3,
        };
        let gamepad = gamepads[i];
        let prev = previous[i];
        let pressed_this_frame = gamepad & (gamepad ^ prev);
        proof {
            lemma_tap_bits(gamepad, prev);
        }
        Inputs {
            press_x: gamepad & BUTTON_1 != 0,
            press_z: gamepad & BUTTON_2 != 0,
            press_left: gamepad & BUTTON_LEFT != 0,
            press_right: gamepad & BUTTON_RIGHT != 0,
            press_up: gamepad & BUTTON_UP != 0,
            press_down: gamepad & BUTTON_DOWN != 0,
            tap_x: pressed_this_frame & BUTTON_1 != 0,
            tap_z: pressed_this_frame & BUTTON_2 != 0,
            tap_left: pressed_this_frame & BUTTON_LEFT != 0,
            tap_right: pressed_this_frame & BUTTON_RIGHT != 0,
            tap_up: pressed_this_frame & BUTTON_UP != 0,
            tap_down: pressed_this_frame & BUTTON_DOWN != 0,
        }
    }
}

} // verus!

verus! {

/// A game that the host drives: one `update` per tick with every participant's
/// buttons, and the bankroll handed in when the game starts.
pub trait Model<State> {
    /// The game's own invariant, kept by every call.
    spec fn ready(&self) -> bool;

    /// Advances one tick; returns the bankroll when the player leaves the game.
    fn update(&mut self, inputs: [Inputs; 4]) -> (r: Option<State>)
        requires
            old(self).ready(),
        ensures
            final(self).ready(),
    ;

    fn share_state(&mut self, state: State)
        requires
            old(self).ready(),
        ensures
            final(self).ready(),
    ;
}

} // verus!
