use vstd::prelude::*;
use crate::PlayerState;
use crate::game::{BlackJack, TableView, PhaseView, table_step};
use crate::model::Inputs;

verus! {

/// The games on offer in the menu.
#[derive(Copy, Clone, Debug, PartialEq, Eq, Structural)]
pub enum GameKind {
    Blackjack,
}

impl GameKind {
    /// The name the menu shows.
    pub fn name(&self) -> (r: &'static str)
        ensures
            r@ == "Blackjack"@,
    {
        "Blackjack"
    }

    /// A fresh game of this kind, seeded with `seed`.
    pub fn start(&self, seed: u64) -> (r: BlackJack)
        ensures
            r.wf(),
            r@.bank == 0,
            r@.bet == 0,
            r@.total_bet == 0,
            r@.phase == PhaseView::Betting,
    {
        BlackJack::new(seed)
    }
}

/// The bankroll a session starts with.
pub const STARTING_BANK: u32 = 100;

/// The host's shell: a menu of games, the game being played, and the bankroll that
/// passes from one game to the next.
pub struct MainGame {
    pub frame_count: u64,
    pub games: Option<[GameKind; 1]>,
    pub num_games: usize,
    pub current_index: usize,
    pub current_game: Option<BlackJack>,
    pub player_state: PlayerState,
}

/// The menu selection after one tick: down moves to the next game and up to the
/// previous one, around the `n` games of the menu.
pub open spec fn menu_index(index: int, n: int, i: Inputs) -> int {
    let down = if i.tap_down { 1int } else { 0int };
    let up = if i.tap_up { 1int } else { 0int };
    (index + down - up) % n
}

impl MainGame {
    pub open spec fn wf(&self) -> bool {
        &&& self.games.is_none() ==> self.current_index == 0
        &&& self.games.is_some() ==> self.num_games == 1 && self.current_index < self.num_games
        &&& self.current_game matches Some(g) ==> g.wf()
    }

    /// The shell before `init`: no menu, no game, an empty bankroll.
    pub fn new() -> (r: Self)
        ensures
            r.wf(),
            r.frame_count == 0,
            r.games.is_none(),
            r.num_games == 0,
            r.current_index == 0,
            r.current_game.is_none(),
            r.player_state.bank == 0,
    {
        MainGame {
            frame_count: 0,
            games: None,
            num_games: 0,
            current_index: 0,
            current_game: None,
            player_state: PlayerState { bank: 0 },
        }
    }

    /// Takes back the bankroll that a game handed over.
    pub fn share_state(&mut self, state: PlayerState)
        ensures
            *final(self) == (MainGame { player_state: state, ..*old(self) }),
    {
        self.player_state = state;
    }

    /// Sets up the menu and the starting bankroll, once; later calls change nothing.
    pub fn init(&mut self)
        requires
            old(self).wf(),
        ensures
            final(self).wf(),
            final(self).games.is_some(),
            old(self).games.is_none() ==> final(self).games == Some([GameKind::Blackjack])
                && final(self).num_games == 1 && final(self).player_state.bank == STARTING_BANK
                && final(self).frame_count == old(self).frame_count && final(self).current_index
                == old(self).current_index && final(self).current_game == old(self).current_game,
            old(self).games.is_some() ==> *final(self) == *old(self),
    {
        if self.games.is_none() {
            self.games = Some([GameKind::Blackjack]);
            self.num_games = 1;
            self.player_state = PlayerState { bank: STARTING_BANK };
        }
    }

    /// One tick of the session. While a game runs, it gets the tick, and when it hands
    /// the bankroll back it ends. Otherwise the menu moves, and x starts the selected
    /// game, seeded from the frame count and `pointer`, with the session's bankroll.
    pub fn update(&mut self, inputs: [Inputs; 4], pointer: u64) -> (r: Option<PlayerState>)
        requires
            old(self).wf(),
            old(self).games.is_some(),
        ensures
            final(self).wf(),
            r.is_none(),
            final(self).frame_count == (if old(self).frame_count == u64::MAX {
                0
            } else {
                old(self).frame_count + 1
            }),
            final(self).games == old(self).games,
            final(self).num_games == old(self).num_games,
            match old(self).current_game {
                Some(g) => {
                    &&& final(self).current_index == old(self).current_index
                    &&& match final(self).current_game {
                        Some(g2) => table_step(g@, g2@, inputs@[0], None)
                            && final(self).player_state == old(self).player_state,
                        None => exists|post: TableView|
                            #[trigger] table_step(
                                g@,
                                post,
                                inputs@[0],
                                Some(final(self).player_state),
                            ),
                    }
                },
                None => {
                    &&& final(self).current_index == menu_index(
                        old(self).current_index as int,
                        old(self).num_games as int,
                        inputs@[0],
                    )
                    &&& final(self).player_state == old(self).player_state
                    &&& match final(self).current_game {
                        Some(g2) => {
                            &&& inputs@[0].tap_x
                            &&& g2@.bank == old(self).player_state.bank
                            &&& g2@.bet == 0
                            &&& g2@.total_bet == 0
                            &&& g2@.phase == PhaseView::Betting
                        },
                        None => !inputs@[0].tap_x,
                    }
                },
            },
    {
        self.frame_count = self.frame_count.wrapping_add(1);
        let mut current: Option<BlackJack> = None;
        std::mem::swap(&mut self.current_game, &mut current);
        match current {
            Some(mut g) => {
                let ghost pre = g@;
                match g.update(inputs) {
                    Some(state) => {
                        self.share_state(state);
                        assert(table_step(pre, g@, inputs@[0], Some(state)));
                    },
                    None => {
                        self.current_game = Some(g);
                    },
                }
            },
            None => {
                let first = inputs[0];
                let n = self.num_games;
                if first.tap_down {
                    self.current_index = (self.current_index + 1) % n;
                }
                if first.tap_up {
                    if self.current_index == 0 {
                        self.current_index = n - 1;
                    } else {
                        self.current_index = (self.current_index - 1) % n;
                    }
                }
                if first.tap_x {
                    let games = self.games.unwrap();
                    let kind = games[self.current_index];
                    let seed = self.frame_count.wrapping_add(pointer);
                    let mut game = kind.start(seed);
                    game.share_state(self.player_state);
                    self.current_game = Some(game);
                }
            },
        }
        None
    }
}

} // verus!
