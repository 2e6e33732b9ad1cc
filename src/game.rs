use vstd::prelude::*;
use vstd::pervasive::VecAdditionalExecFns;
use fastrand::Rng;
use crate::PlayerState;
use crate::cards::{Card, CardValue};
use crate::hand::{
    Hand, HandResult, low_total, bust_spec, blackjack_spec, must_hit_spec, can_split_spec,
    can_double_down_spec, showdown_spec, lemma_ace_count_le_len, lemma_push, lemma_bust_iff_low,
    MAX_HAND_CARDS, has_total, total_with, ace_count,
};
use crate::model::{Inputs, Model};
use crate::shoe::{drawn, draw_card, new_shuffled_horn};

verus! {

/// Bets move in steps of this size.
pub const BET_INCREMENT: u32 = 10;

/// The smallest bet the table takes.
pub const MINIMUM_BET: u32 = 10;

/// Ticks between two cards of the opening deal; the deal ends after four cards
/// and one more interval.
pub const DEAL_INTERVAL: u8 = 10;

/// Ticks between two cards that the dealer draws.
pub const DEALER_DRAW_INTERVAL: u64 = 30;

/// The highest all-low sum of a hand in play: a hand only takes a card while
/// it is not bust, that is at 21 or less.
pub const MAX_LIVE_LOW_TOTAL: u32 = 31;

/// One of the four actions of the playing menu.
pub struct Button {
    pub text: &'static str,
    pub disabled: bool,
}

/// The player acts on the hand at `player_hand_index`; the menu's selection is
/// `button_index` (0 hit, 1 stand, 2 split, 3 double down, as a 2 by 2 grid).
pub struct PlayingState {
    pub hit_button: Button,
    pub stand_button: Button,
    pub split_button: Button,
    pub double_down_button: Button,
    pub button_index: usize,
    pub dealer_hand: Hand,
    pub player_hands: Vec<Hand>,
    pub player_hand_index: usize,
}

pub struct EndState {
    pub dealer_hand: Hand,
    pub player_hands: Vec<(Hand, HandResult)>,
    pub bought_insurance: bool,
}

pub struct DealingState {
    pub frame: u8,
    pub dealer_hand: Hand,
    pub player_hand: Hand,
}

pub struct DealerResolvingState {
    pub player_hands: Vec<Hand>,
    pub dealer_hand: Hand,
    pub frame_count: u64,
}

pub struct InsuranceState {
    pub dealer_hand: Hand,
    pub player_hand: Hand,
}

pub enum BlackJackState {
    Betting,
    Dealing(DealingState),
    Insurance(InsuranceState),
    Playing(PlayingState),
    DealerResolving(DealerResolvingState),
    End(EndState),
}

/// A blackjack table: the shoe, the money, and the phase of the round.
pub struct BlackJack {
    pub horn: Vec<Card>,
    pub player_bet: u32,
    pub total_bet: u32,
    pub player_bank: u32,
    pub state: BlackJackState,
    pub rng: Rng,
    /// Set on a tick whose action was refused, so that the host can sound a cue.
    pub error_cue: bool,
}

/// The phase of a round, with hands seen as sequences of cards.
pub enum PhaseView {
    Betting,
    Dealing { frame: int, dealer: Seq<Card>, player: Seq<Card> },
    Insurance { dealer: Seq<Card>, player: Seq<Card> },
    Playing {
        dealer: Seq<Card>,
        hands: Seq<Seq<Card>>,
        active: int,
        button: int,
        split_enabled: bool,
        double_enabled: bool,
    },
    DealerResolving { dealer: Seq<Card>, hands: Seq<Seq<Card>>, frame_count: int },
    End { dealer: Seq<Card>, results: Seq<(Seq<Card>, HandResult)>, bought_insurance: bool },
}

/// The table as a value: the shoe, the money and the phase.
pub struct TableView {
    pub horn: Seq<Card>,
    pub bet: int,
    pub total_bet: int,
    pub bank: int,
    pub phase: PhaseView,
}

pub open spec fn hands_view(hands: Seq<Hand>) -> Seq<Seq<Card>> {
    hands.map_values(|h: Hand| h.cards@)
}

pub open spec fn results_view(results: Seq<(Hand, HandResult)>) -> Seq<(Seq<Card>, HandResult)> {
    results.map_values(|p: (Hand, HandResult)| (p.0.cards@, p.1))
}

impl BlackJackState {
    pub open spec fn view(&self) -> PhaseView {
        match self {
            BlackJackState::Betting => PhaseView::Betting,
            BlackJackState::Dealing(d) => PhaseView::Dealing {
                frame: d.frame as int,
                dealer: d.dealer_hand.cards@,
                player: d.player_hand.cards@,
            },
            BlackJackState::Insurance(s) => PhaseView::Insurance {
                dealer: s.dealer_hand.cards@,
                player: s.player_hand.cards@,
            },
            BlackJackState::Playing(p) => PhaseView::Playing {
                dealer: p.dealer_hand.cards@,
                hands: hands_view(p.player_hands@),
                active: p.player_hand_index as int,
                button: p.button_index as int,
                split_enabled: !p.split_button.disabled,
                double_enabled: !p.double_down_button.disabled,
            },
            BlackJackState::DealerResolving(s) => PhaseView::DealerResolving {
                dealer: s.dealer_hand.cards@,
                hands: hands_view(s.player_hands@),
                frame_count: s.frame_count as int,
            },
            BlackJackState::End(e) => PhaseView::End {
                dealer: e.dealer_hand.cards@,
                results: results_view(e.player_hands@),
                bought_insurance: e.bought_insurance,
            },
        }
    }
}

/// A hand that has taken no card after busting.
pub open spec fn live(s: Seq<Card>) -> bool {
    low_total(s) <= MAX_LIVE_LOW_TOTAL
}

pub open spec fn all_live(hands: Seq<Seq<Card>>) -> bool {
    forall|i: int| 0 <= i < hands.len() ==> live(#[trigger] hands[i])
}

/// How many of the deal's milestones up to `frame` fall at `first` or `second`.
pub open spec fn dealt_by(frame: int, first: int, second: int) -> int {
    (if frame >= first { 1int } else { 0int }) + (if frame >= second { 1int } else { 0int })
}

/// The invariant of each phase.
pub open spec fn phase_wf(p: PhaseView) -> bool {
    match p {
        PhaseView::Betting => true,
        PhaseView::Dealing { frame, dealer, player } => {
            &&& 0 <= frame < 5 * DEAL_INTERVAL
            &&& dealer.len() == dealt_by(frame, DEAL_INTERVAL as int, 3 * DEAL_INTERVAL)
            &&& player.len() == dealt_by(frame, 2 * DEAL_INTERVAL, 4 * DEAL_INTERVAL)
        },
        PhaseView::Insurance { dealer, player } => {
            &&& dealer.len() >= 2
            &&& live(dealer)
            &&& live(player)
        },
        PhaseView::Playing { dealer, hands, active, button, .. } => {
            &&& live(dealer)
            &&& all_live(hands)
            &&& 0 <= active
            &&& 0 <= button < 4
        },
        PhaseView::DealerResolving { dealer, hands, frame_count } => {
            &&& live(dealer)
            &&& all_live(hands)
            &&& 0 <= frame_count < DEALER_DRAW_INTERVAL * (low_total(dealer) + 1)
        },
        PhaseView::End { dealer, .. } => live(dealer),
    }
}

pub open spec fn sat_add(a: int, b: int) -> int {
    if a + b > u32::MAX { u32::MAX as int } else { a + b }
}

pub open spec fn sat_sub(a: int, b: int) -> int {
    if a < b { 0 } else { a - b }
}

/// The bet after one tick of the betting phase with the bank at or above the minimum:
/// stepped up or down, then raised to the minimum and capped by the bank.
pub open spec fn adjusted_bet(bet: int, bank: int, up: bool, down: bool) -> int {
    let stepped = if up {
        sat_add(bet, BET_INCREMENT as int)
    } else if down {
        sat_sub(bet, BET_INCREMENT as int)
    } else {
        bet
    };
    let raised = if stepped < MINIMUM_BET { MINIMUM_BET as int } else { stepped };
    if raised > bank { bank } else { raised }
}

/// What one hand returns to the bank at settlement, for a bet of `bet`.
pub open spec fn payout(result: HandResult, bet: int) -> int {
    match result {
        HandResult::BlackJack => bet * 6 / 5 + bet,
        HandResult::Lose => 0,
        HandResult::Push => bet,
        HandResult::Win => 2 * bet,
    }
}

pub open spec fn total_payout(results: Seq<(Seq<Card>, HandResult)>, bet: int) -> int
    decreases results.len(),
{
    if results.len() == 0 {
        0
    } else {
        total_payout(results.drop_last(), bet) + payout(results.last().1, bet)
    }
}

/// The bank after settlement: when the dealer has a blackjack and insurance was
/// bought, only the insurance is paid, at 3 to 2 on the bet; otherwise every hand is
/// paid by its result. The bank saturates.
pub open spec fn settled_bank(
    bank: int,
    bet: int,
    dealer: Seq<Card>,
    results: Seq<(Seq<Card>, HandResult)>,
    bought_insurance: bool,
) -> int {
    if blackjack_spec(dealer) && bought_insurance {
        sat_add(bank, bet * 3 / 2)
    } else {
        sat_add(bank, total_payout(results, bet))
    }
}

/// The menu selection after the direction taps of one tick. The four actions form
/// a 2 by 2 grid (row `button / 2`, column `button % 2`); a tap moves to the named
/// row or column, so a move past the edge is ignored, and left and up win over
/// right and down tapped on the same tick.
pub open spec fn navigate(button: int, i: Inputs) -> int {
    let column = if i.tap_left { 0 } else if i.tap_right { 1 } else { button % 2 };
    let row = if i.tap_up { 0 } else if i.tap_down { 1 } else { button / 2 };
    2 * row + column
}

/// The playing phase as it starts, on the hands of the deal.
pub open spec fn playing_start(dealer: Seq<Card>, player: Seq<Card>) -> PhaseView {
    PhaseView::Playing {
        dealer,
        hands: seq![player],
        active: 0,
        button: 0,
        split_enabled: false,
        double_enabled: false,
    }
}

/// Each hand with its result against the dealer's hand, or against no dealer hand.
pub open spec fn showdown_all(hands: Seq<Seq<Card>>, dealer: Option<Seq<Card>>) -> Seq<
    (Seq<Card>, HandResult),
> {
    hands.map_values(|h: Seq<Card>| (h, showdown_spec(h, dealer)))
}

impl TableView {
    pub open spec fn with_phase(self, phase: PhaseView) -> TableView {
        TableView { phase, ..self }
    }

    pub open spec fn with_horn_phase(self, horn: Seq<Card>, phase: PhaseView) -> TableView {
        TableView { horn, phase, ..self }
    }
}

/// One tick of the betting phase.
pub open spec fn betting_step(pre: TableView, post: TableView, i: Inputs, r: Option<PlayerState>) -> bool {
    if i.tap_z {
        r == Some(PlayerState { bank: pre.bank as u32 }) && post == pre
    } else if pre.bank < MINIMUM_BET {
        r.is_none() && post == pre
    } else {
        let bet = adjusted_bet(pre.bet, pre.bank, i.tap_up, i.tap_down);
        &&& r.is_none()
        &&& post.horn == pre.horn
        &&& post.bet == bet
        &&& if i.tap_x {
            &&& post.bank == pre.bank - bet
            &&& post.total_bet == bet
            &&& post.phase == (PhaseView::Dealing {
                frame: 0,
                dealer: Seq::empty(),
                player: Seq::empty(),
            })
        } else {
            post.bank == pre.bank && post.total_bet == pre.total_bet && post.phase == pre.phase
        }
    }
}

/// One tick of the opening deal: a card to the dealer, the player, the dealer and the
/// player on four milestones, then insurance when the dealer's up-card is an Ace, or play.
pub open spec fn dealing_step(pre: TableView, post: TableView) -> bool {
    match pre.phase {
        PhaseView::Dealing { frame, dealer, player } => {
            let f = frame + 1;
            &&& post.bet == pre.bet
            &&& post.bank == pre.bank
            &&& post.total_bet == pre.total_bet
            &&& if f == DEAL_INTERVAL || f == 3 * DEAL_INTERVAL {
                exists|c: Card|
                    #[trigger] drawn(pre.horn, post.horn, c) && post.phase == (PhaseView::Dealing {
                        frame: f,
                        dealer: dealer.push(c),
                        player,
                    })
            } else if f == 2 * DEAL_INTERVAL || f == 4 * DEAL_INTERVAL {
                exists|c: Card|
                    #[trigger] drawn(pre.horn, post.horn, c) && post.phase == (PhaseView::Dealing {
                        frame: f,
                        dealer,
                        player: player.push(c),
                    })
            } else if f == 5 * DEAL_INTERVAL {
                &&& post.horn == pre.horn
                &&& if dealer[1].value == CardValue::Ace {
                    post.phase == (PhaseView::Insurance { dealer, player })
                } else {
                    post.phase == playing_start(dealer, player)
                }
            } else {
                post.horn == pre.horn && post.phase == (PhaseView::Dealing { frame: f, dealer, player })
            }
        },
        _ => false,
    }
}

/// One tick of the insurance offer: tapping x buys insurance for half the bet,
/// tapping z declines; a dealer blackjack then ends the round at once.
pub open spec fn insurance_step(pre: TableView, post: TableView, i: Inputs) -> bool {
    match pre.phase {
        PhaseView::Insurance { dealer, player } => {
            if i.tap_x || i.tap_z {
                &&& post.horn == pre.horn
                &&& post.bet == pre.bet
                &&& post.total_bet == pre.total_bet
                &&& post.bank == if i.tap_x { sat_sub(pre.bank, pre.bet / 2) } else { pre.bank }
                &&& if blackjack_spec(dealer) {
                    post.phase == (PhaseView::End {
                        dealer,
                        results: seq![
                            (
                                player,
                                if blackjack_spec(player) {
                                    HandResult::BlackJack
                                } else {
                                    HandResult::Lose
                                },
                            ),
                        ],
                        bought_insurance: i.tap_x,
                    })
                } else {
                    post.phase == playing_start(dealer, player)
                }
            } else {
                post == pre
            }
        },
        _ => false,
    }
}

/// One tick of the player's turn.
pub open spec fn playing_step(pre: TableView, post: TableView, i: Inputs) -> bool {
    match pre.phase {
        PhaseView::Playing { dealer, hands, active, button, split_enabled, double_enabled } => {
            if active >= hands.len() {
                &&& post.horn == pre.horn
                &&& post.bet == pre.bet
                &&& post.bank == pre.bank
                &&& post.total_bet == pre.total_bet
                &&& if exists|k: int|
                    0 <= k < hands.len() && !bust_spec(#[trigger] hands[k]) && !blackjack_spec(
                        hands[k],
                    ) {
                    post.phase == (PhaseView::DealerResolving { dealer, hands, frame_count: 0 })
                } else {
                    post.phase == (PhaseView::End {
                        dealer,
                        results: showdown_all(hands, None),
                        bought_insurance: false,
                    })
                }
            } else {
                let h = hands[active];
                if bust_spec(h) || blackjack_spec(h) {
                    post == pre.with_phase(
                        PhaseView::Playing {
                            dealer,
                            hands,
                            active: active + 1,
                            button,
                            split_enabled,
                            double_enabled,
                        },
                    )
                } else {
                    let split_ok = can_split_spec(h) && pre.bank >= pre.bet;
                    let double_ok = can_double_down_spec(h) && pre.bank >= pre.bet;
                    let same = PhaseView::Playing {
                        dealer,
                        hands,
                        active,
                        button,
                        split_enabled: split_ok,
                        double_enabled: double_ok,
                    };
                    &&& post.bet == pre.bet
                    &&& post.bank == pre.bank
                    &&& if !i.tap_x {
                        post == pre.with_phase(
                            PhaseView::Playing {
                                dealer,
                                hands,
                                active,
                                button: navigate(button, i),
                                split_enabled: split_ok,
                                double_enabled: double_ok,
                            },
                        )
                    } else if button == 0 {
                        exists|c: Card|
                            #[trigger] drawn(pre.horn, post.horn, c) && post.total_bet
                                == pre.total_bet && post.phase == (PhaseView::Playing {
                                dealer,
                                hands: hands.update(active, h.push(c)),
                                active,
                                button,
                                split_enabled: split_ok,
                                double_enabled: double_ok,
                            })
                    } else if button == 1 {
                        post == pre.with_phase(
                            PhaseView::Playing {
                                dealer,
                                hands,
                                active: active + 1,
                                button,
                                split_enabled: split_ok,
                                double_enabled: double_ok,
                            },
                        )
                    } else if button == 2 && split_ok {
                        exists|mid: Seq<Card>, c1: Card, c2: Card|
                            #[trigger] drawn(pre.horn, mid, c1) && #[trigger] drawn(
                                mid,
                                post.horn,
                                c2,
                            ) && post.total_bet == sat_add(pre.total_bet, pre.bet)
                                && post.phase == (PhaseView::Playing {
                                dealer,
                                hands: hands.update(active, seq![h[0], c1]).push(seq![h[1], c2]),
                                active,
                                button,
                                split_enabled: split_ok,
                                double_enabled: double_ok,
                            })
                    } else if button == 3 && double_ok {
                        exists|c: Card|
                            #[trigger] drawn(pre.horn, post.horn, c) && post.total_bet == sat_add(
                                pre.total_bet,
                                pre.bet,
                            ) && post.phase == (PhaseView::Playing {
                                dealer,
                                hands: hands.update(active, h.push(c)),
                                active: active + 1,
                                button,
                                split_enabled: split_ok,
                                double_enabled: double_ok,
                            })
                    } else {
                        post == pre.with_phase(same)
                    }
                }
            }
        },
        _ => false,
    }
}

/// One tick of the dealer's turn: the dealer draws every few ticks while no total
/// lies between 17 and 21 and the hand is not bust; then every hand is settled against it.
pub open spec fn resolving_step(pre: TableView, post: TableView) -> bool {
    match pre.phase {
        PhaseView::DealerResolving { dealer, hands, frame_count } => {
            let fc = frame_count + 1;
            &&& post.bet == pre.bet
            &&& post.bank == pre.bank
            &&& post.total_bet == pre.total_bet
            &&& if must_hit_spec(dealer) && !bust_spec(dealer) {
                if fc % DEALER_DRAW_INTERVAL as int == 0 {
                    exists|c: Card|
                        #[trigger] drawn(pre.horn, post.horn, c) && post.phase
                            == (PhaseView::DealerResolving {
                            dealer: dealer.push(c),
                            hands,
                            frame_count: fc,
                        })
                } else {
                    post.horn == pre.horn && post.phase == (PhaseView::DealerResolving {
                        dealer,
                        hands,
                        frame_count: fc,
                    })
                }
            } else {
                post.horn == pre.horn && post.phase == (PhaseView::End {
                    dealer,
                    results: showdown_all(hands, Some(dealer)),
                    bought_insurance: false,
                })
            }
        },
        _ => false,
    }
}

/// One tick of the end of a round: the first tick settles the payouts and clears the
/// bets; tapping x starts the next round, tapping z hands the bankroll back.
pub open spec fn end_step(pre: TableView, post: TableView, i: Inputs, r: Option<PlayerState>) -> bool {
    match pre.phase {
        PhaseView::End { dealer, results, bought_insurance } => {
            let bank = if pre.bet != 0 {
                settled_bank(pre.bank, pre.bet, dealer, results, bought_insurance)
            } else {
                pre.bank
            };
            &&& post.horn == pre.horn
            &&& post.bank == bank
            &&& post.bet == 0
            &&& post.total_bet == if pre.bet != 0 { 0 } else { pre.total_bet }
            &&& post.phase == if i.tap_x { PhaseView::Betting } else { pre.phase }
            &&& r == if i.tap_z { Some(PlayerState { bank: bank as u32 }) } else { None }
        },
        _ => false,
    }
}

/// The cards dealt by the end of tick `k` of the opening deal.
pub open spec fn dealt_cards(k: int) -> int {
    dealt_by(k, DEAL_INTERVAL as int, 3 * DEAL_INTERVAL) + dealt_by(
        k,
        2 * DEAL_INTERVAL,
        4 * DEAL_INTERVAL,
    )
}

proof fn lemma_deal_prefix(ts: Seq<TableView>, k: int)
    requires
        ts.len() == 5 * DEAL_INTERVAL + 1,
        ts[0].phase == (PhaseView::Dealing { frame: 0, dealer: Seq::empty(), player: Seq::empty() }),
        ts[0].horn.len() >= 4,
        forall|j: int| 0 <= j < 5 * DEAL_INTERVAL ==> dealing_step(#[trigger] ts[j], ts[j + 1]),
        0 <= k < 5 * DEAL_INTERVAL,
    ensures
        ts[k].phase is Dealing,
        ts[k].phase->Dealing_frame == k,
        ts[k].phase->Dealing_dealer.len() + ts[k].phase->Dealing_player.len() == dealt_cards(k),
        ts[k].horn.len() == ts[0].horn.len() - dealt_cards(k),
        ts[k].bank == ts[0].bank,
        ts[k].bet == ts[0].bet,
        ts[k].total_bet == ts[0].total_bet,
    decreases k,
{
    if k > 0 {
        lemma_deal_prefix(ts, k - 1);
        assert(dealing_step(ts[k - 1], ts[k]));
        let f = k;
        if f == DEAL_INTERVAL || f == 3 * DEAL_INTERVAL || f == 2 * DEAL_INTERVAL || f == 4
            * DEAL_INTERVAL {
            let c = choose|c: Card| #[trigger] drawn(ts[k - 1].horn, ts[k].horn, c) && ts[k].phase
                == (match ts[k - 1].phase {
                PhaseView::Dealing { dealer, player, .. } => if f == DEAL_INTERVAL || f == 3
                    * DEAL_INTERVAL {
                    PhaseView::Dealing { frame: f, dealer: dealer.push(c), player }
                } else {
                    PhaseView::Dealing { frame: f, dealer, player: player.push(c) }
                },
                _ => PhaseView::Betting,
            });
            assert(ts[k - 1].horn.len() > 0);
        }
    }
}

/// The opening deal: over its fifty ticks, from a shoe of at least four cards, it
/// gives two cards to the dealer and two to the player, leaves the shoe exactly four
/// cards shorter, and touches no money.
pub proof fn lemma_opening_deal(ts: Seq<TableView>)
    requires
        ts.len() == 5 * DEAL_INTERVAL + 1,
        ts[0].phase == (PhaseView::Dealing { frame: 0, dealer: Seq::empty(), player: Seq::empty() }),
        ts[0].horn.len() >= 4,
        forall|j: int| 0 <= j < 5 * DEAL_INTERVAL ==> dealing_step(#[trigger] ts[j], ts[j + 1]),
    ensures
        ts[5 * DEAL_INTERVAL].horn.len() == ts[0].horn.len() - 4,
        ts[5 * DEAL_INTERVAL].bank == ts[0].bank,
        ts[5 * DEAL_INTERVAL].total_bet == ts[0].total_bet,
        ts[5 * DEAL_INTERVAL - 1].phase->Dealing_dealer.len() == 2,
        ts[5 * DEAL_INTERVAL - 1].phase->Dealing_player.len() == 2,
{
    let last = 5 * DEAL_INTERVAL - 1;
    lemma_deal_prefix(ts, last);
    assert(dealing_step(ts[last], ts[last + 1]));
}

/// A splittable pair is neither bust nor a blackjack.
proof fn lemma_pair_in_play(s: Seq<Card>)
    requires
        can_split_spec(s),
    ensures
        !bust_spec(s),
        !blackjack_spec(s),
{
    let e = Seq::<Card>::empty();
    assert(e.push(s[0]).push(s[1]) =~= s);
    assert(e.push(s[0]).drop_last() =~= e);
    lemma_push(e, s[0]);
    lemma_push(e.push(s[0]), s[1]);
    lemma_bust_iff_low(s);
    if has_total(s, 21) {
        let j = choose|j: int| 0 <= j <= ace_count(s) && 21 == #[trigger] total_with(s, j);
    }
}

/// Splitting a pair, as the first split of the round (the wager so far is the one bet),
/// with the bank covering the bet: the wager doubles (up to the bank's ceiling), and the
/// pair becomes two hands of two cards, each keeping one card of the pair and taking one
/// fresh card from the shoe; from a shoe of two or more cards, its last two.
pub proof fn lemma_split_doubles_total_bet(pre: TableView, post: TableView, i: Inputs)
    requires
        pre.phase is Playing,
        0 <= pre.phase->Playing_active < pre.phase->Playing_hands.len(),
        can_split_spec(pre.phase->Playing_hands[pre.phase->Playing_active]),
        pre.phase->Playing_button == 2,
        pre.bank >= pre.bet,
        pre.total_bet == pre.bet,
        i.tap_x,
        playing_step(pre, post, i),
    ensures
        post.total_bet == sat_add(pre.total_bet, pre.total_bet),
        post.bet == pre.bet,
        post.bank == pre.bank,
        post.phase is Playing,
        post.phase->Playing_hands.len() == pre.phase->Playing_hands.len() + 1,
        ({
            let hands = pre.phase->Playing_hands;
            let a = pre.phase->Playing_active;
            let h = hands[a];
            let new_hands = post.phase->Playing_hands;
            &&& new_hands[a].len() == 2
            &&& new_hands[a][0] == h[0]
            &&& new_hands[hands.len() as int].len() == 2
            &&& new_hands[hands.len() as int][0] == h[1]
            &&& forall|k: int| 0 <= k < hands.len() && k != a ==> new_hands[k] == hands[k]
            &&& pre.horn.len() >= 2 ==> {
                &&& post.horn == pre.horn.take(pre.horn.len() - 2)
                &&& new_hands[a][1] == pre.horn[pre.horn.len() - 1]
                &&& new_hands[hands.len() as int][1] == pre.horn[pre.horn.len() - 2]
            }
        }),
{
    let hands = pre.phase->Playing_hands;
    let a = pre.phase->Playing_active;
    let h = hands[a];
    lemma_pair_in_play(h);
    let (mid, c1, c2) = choose|mid: Seq<Card>, c1: Card, c2: Card|
        #[trigger] drawn(pre.horn, mid, c1) && #[trigger] drawn(mid, post.horn, c2)
            && post.total_bet == sat_add(pre.total_bet, pre.bet) && post.phase == (
        PhaseView::Playing {
            dealer: pre.phase->Playing_dealer,
            hands: hands.update(a, seq![h[0], c1]).push(seq![h[1], c2]),
            active: a,
            button: 2,
            split_enabled: true,
            double_enabled: can_double_down_spec(h) && pre.bank >= pre.bet,
        });
    if pre.horn.len() >= 2 {
        assert(post.horn =~= pre.horn.take(pre.horn.len() - 2));
    }
}

/// A tick on which the player's action is refused: a bet with too little in the
/// bank, or a menu action that is disabled.
pub open spec fn refused(pre: TableView, i: Inputs) -> bool {
    match pre.phase {
        PhaseView::Betting => !i.tap_z && i.tap_x && pre.bank < MINIMUM_BET,
        PhaseView::Playing { hands, active, button, .. } => {
            &&& active < hands.len()
            &&& !bust_spec(hands[active])
            &&& !blackjack_spec(hands[active])
            &&& i.tap_x
            &&& !(button == 0 || button == 1 || (button == 2 && can_split_spec(hands[active])
                && pre.bank >= pre.bet) || (button == 3 && can_double_down_spec(hands[active])
                && pre.bank >= pre.bet))
        },
        _ => false,
    }
}

/// One tick of the table, whatever its phase.
pub open spec fn table_step(pre: TableView, post: TableView, i: Inputs, r: Option<PlayerState>) -> bool {
    match pre.phase {
        PhaseView::Betting => betting_step(pre, post, i, r),
        PhaseView::End { .. } => end_step(pre, post, i, r),
        PhaseView::Dealing { .. } => r.is_none() && dealing_step(pre, post),
        PhaseView::Insurance { .. } => r.is_none() && insurance_step(pre, post, i),
        PhaseView::Playing { .. } => r.is_none() && playing_step(pre, post, i),
        PhaseView::DealerResolving { .. } => r.is_none() && resolving_step(pre, post),
    }
}

impl BlackJack {
    pub open spec fn view(&self) -> TableView {
        TableView {
            horn: self.horn@,
            bet: self.player_bet as int,
            total_bet: self.total_bet as int,
            bank: self.player_bank as int,
            phase: self.state.view(),
        }
    }

    pub open spec fn wf(&self) -> bool {
        &&& phase_wf(self.state.view())
        &&& self.state matches BlackJackState::Playing(p) ==> !p.hit_button.disabled
            && !p.stand_button.disabled
    }
}


proof fn lemma_live_fits(s: Seq<Card>)
    requires
        live(s),
    ensures
        s.len() <= MAX_LIVE_LOW_TOTAL,
        s.len() <= MAX_HAND_CARDS,
{
    lemma_ace_count_le_len(s);
}

proof fn lemma_total_payout_nonneg(results: Seq<(Seq<Card>, HandResult)>, bet: int)
    requires
        bet >= 0,
    ensures
        total_payout(results, bet) >= 0,
    decreases results.len(),
{
    if results.len() > 0 {
        lemma_total_payout_nonneg(results.drop_last(), bet);
    }
}

/// What one hand returns to the bank for a bet of `bet`.
fn payout_of(result: HandResult, bet: u32) -> (r: u64)
    ensures
        r == payout(result, bet as int),
{
    let b = bet as u64;
    match result {
        HandResult::BlackJack => b * 6 / 5 + b,
        HandResult::Lose => 0,
        HandResult::Push => b,
        HandResult::Win => 2 * b,
    }
}

/// Adds to the bank, which saturates at its largest value.
fn add_capped(bank: u32, amount: u64) -> (r: u32)
    requires
        amount <= 4 * (u32::MAX as int),
    ensures
        r == sat_add(bank as int, amount as int),
{
    let sum = bank as u64 + amount;
    if sum > u32::MAX as u64 {
        u32::MAX
    } else {
        sum as u32
    }
}

pub open spec fn opt_hand_view(d: Option<&Hand>) -> Option<Seq<Card>> {
    match d {
        Some(h) => Some(h.cards@),
        None => None,
    }
}

/// Each hand with its result against the dealer; `None` when the dealer did not
/// play, which only happens when every hand is bust or a blackjack.
fn settle_hands(hands: Vec<Hand>, dealer: Option<&Hand>) -> (r: Vec<(Hand, HandResult)>)
    requires
        all_live(hands_view(hands@)),
        dealer matches Some(d) ==> live(d.cards@),
        dealer.is_none() ==> forall|k: int|
            0 <= k < hands@.len() ==> bust_spec(#[trigger] hands_view(hands@)[k])
                || blackjack_spec(hands_view(hands@)[k]),
    ensures
        results_view(r@) == showdown_all(hands_view(hands@), opt_hand_view(dealer)),
{
    let ghost hv = hands_view(hands@);
    let ghost target = showdown_all(hv, opt_hand_view(dealer));
    proof {
        if let Some(d) = dealer {
            lemma_live_fits(d.cards@);
        }
    }
    let mut hands = hands;
    let mut r: Vec<(Hand, HandResult)> = Vec::new();
    let mut k: usize = 0;
    while k < hands.len()
        invariant
            hands@.len() == hv.len(),
            k <= hv.len(),
            target == showdown_all(hv, opt_hand_view(dealer)),
            all_live(hv),
            forall|j: int| k <= j < hv.len() ==> (#[trigger] hands@[j]).cards@ == hv[j],
            results_view(r@) =~= target.take(k as int),
            dealer matches Some(d) ==> live(d.cards@) && d.cards@.len() <= MAX_HAND_CARDS,
            dealer.is_none() ==> forall|j: int|
                0 <= j < hv.len() ==> bust_spec(#[trigger] hv[j]) || blackjack_spec(hv[j]),
        decreases hv.len() - k,
    {
        let mut h = Hand::new();
        hands.set_and_swap(k, &mut h);
        proof {
            lemma_live_fits(hv[k as int]);
        }
        let res = h.showdown_result(dealer);
        let ghost before = r@;
        let ghost entry = (h.cards@, res);
        r.push((h, res));
        proof {
            assert(results_view(r@) =~= results_view(before).push(entry));
            assert(target.take(k + 1) =~= target.take(k as int).push(target[k as int]));
        }
        k = k + 1;
    }
    r
}

impl PlayingState {
    /// The player's turn on the hands of the deal: one hand, the first action selected,
    /// split and double down disabled until the hand is looked at.
    pub fn new(dealer_hand: Hand, player_hand: Hand) -> (r: Self)
        ensures
            r.dealer_hand == dealer_hand,
            r.player_hands@ == seq![player_hand],
            r.player_hand_index == 0,
            r.button_index == 0,
            !r.hit_button.disabled,
            !r.stand_button.disabled,
            r.split_button.disabled,
            r.double_down_button.disabled,
    {
        let mut player_hands: Vec<Hand> = Vec::new();
        player_hands.push(player_hand);
        PlayingState {
            hit_button: Button { text: "Hit", disabled: false },
            stand_button: Button { text: "Stand", disabled: false },
            split_button: Button { text: "Split", disabled: true },
            double_down_button: Button { text: "Double Down", disabled: true },
            button_index: 0,
            dealer_hand,
            player_hands,
            player_hand_index: 0,
        }
    }
}

impl DealingState {
    pub fn new() -> (r: Self)
        ensures
            r.frame == 0,
            r.dealer_hand.cards@.len() == 0,
            r.player_hand.cards@.len() == 0,
    {
        DealingState { frame: 0, dealer_hand: Hand::new(), player_hand: Hand::new() }
    }
}

impl InsuranceState {
    pub fn new(dealer_hand: Hand, player_hand: Hand) -> (r: Self)
        ensures
            r.dealer_hand == dealer_hand,
            r.player_hand == player_hand,
    {
        InsuranceState { dealer_hand, player_hand }
    }
}

impl BlackJack {
    /// A table seeded with `random_seed`: a fresh shuffled shoe, no money, betting.
    pub fn new(random_seed: u64) -> (r: Self)
        ensures
            r.wf(),
            r.horn@.len() == crate::shoe::SHOE_SIZE,
            r.horn@.to_multiset() == crate::shoe::fresh_shoe(),
            r.player_bank == 0,
            r.player_bet == 0,
            r.total_bet == 0,
            r.state is Betting,
            !r.error_cue,
    {
        let rng = Rng::with_seed(random_seed);
        let horn = new_shuffled_horn(&rng);
        BlackJack {
            horn,
            player_bank: 0,
            player_bet: 0,
            total_bet: 0,
            state: BlackJackState::Betting,
            rng,
            error_cue: false,
        }
    }

    /// Takes the bankroll that the game starts with.
    pub fn share_state(&mut self, state: PlayerState)
        requires
            old(self).wf(),
        ensures
            final(self).wf(),
            final(self)@ == (TableView { bank: state.bank as int, ..old(self)@ }),
            final(self).error_cue == old(self).error_cue,
    {
        self.player_bank = state.bank;
    }

    fn update_betting(&mut self, i: Inputs) -> (r: Option<PlayerState>)
        requires
            old(self).state is Betting,
        ensures
            final(self).wf(),
            betting_step(old(self)@, final(self)@, i, r),
            final(self).error_cue == refused(old(self)@, i),
    {
        self.error_cue = false;
        if i.tap_z {
            return Some(PlayerState { bank: self.player_bank });
        }
        if self.player_bank < MINIMUM_BET {
            if i.tap_x {
                self.error_cue = true;
            }
            return None;
        }
        let stepped = if i.tap_up {
            self.player_bet.saturating_add(BET_INCREMENT)
        } else if i.tap_down {
            self.player_bet.saturating_sub(BET_INCREMENT)
        } else {
            self.player_bet
        };
        let raised = if stepped < MINIMUM_BET { MINIMUM_BET } else { stepped };
        self.player_bet = if raised > self.player_bank { self.player_bank } else { raised };
        if i.tap_x {
            if self.player_bet > self.player_bank {
                self.error_cue = true;
            } else {
                self.player_bank = self.player_bank - self.player_bet;
                self.total_bet = self.player_bet;
                let dealing = DealingState::new();
                assert(dealing.dealer_hand.cards@ =~= Seq::empty());
                assert(dealing.player_hand.cards@ =~= Seq::empty());
                self.state = BlackJackState::Dealing(dealing);
            }
        }
        None
    }

    fn update_end(&mut self, st: EndState, i: Inputs) -> (r: Option<PlayerState>)
        requires
            old(self).state is Betting,
            live(st.dealer_hand.cards@),
        ensures
            final(self).wf(),
            end_step(old(self)@.with_phase(BlackJackState::End(st).view()), final(self)@, i, r),
            !final(self).error_cue,
    {
        self.error_cue = false;
        let ghost results = results_view(st.player_hands@);
        proof {
            lemma_live_fits(st.dealer_hand.cards@);
        }
        if self.player_bet != 0 {
            let bet = self.player_bet;
            if st.dealer_hand.is_blackjack() && st.bought_insurance {
                self.player_bank = add_capped(self.player_bank, bet as u64 * 3 / 2);
            } else {
                let ghost bank0 = self.player_bank as int;
                let ghost before = *self;
                let mut k: usize = 0;
                while k < st.player_hands.len()
                    invariant
                        *self == (BlackJack { player_bank: self.player_bank, ..before }),
                        k <= st.player_hands@.len(),
                        results == results_view(st.player_hands@),
                        bet == self.player_bet,
                        self.player_bank == sat_add(
                            bank0,
                            total_payout(results.take(k as int), bet as int),
                        ),
                    decreases st.player_hands@.len() - k,
                {
                    let p = payout_of(st.player_hands[k].1, bet);
                    proof {
                        let pre = results.take(k as int);
                        assert(results.take(k + 1).drop_last() =~= pre);
                        lemma_total_payout_nonneg(pre, bet as int);
                    }
                    self.player_bank = add_capped(self.player_bank, p);
                    k = k + 1;
                }
                assert(results.take(k as int) =~= results);
            }
            self.total_bet = 0;
            self.player_bet = 0;
        }
        let r = if i.tap_z {
            Some(PlayerState { bank: self.player_bank })
        } else {
            None
        };
        if i.tap_x {
            self.state = BlackJackState::Betting;
        } else {
            self.state = BlackJackState::End(st);
        }
        r
    }

    fn update_dealing(&mut self, st: DealingState)
        requires
            old(self).state is Betting,
            phase_wf(BlackJackState::Dealing(st).view()),
        ensures
            final(self).wf(),
            dealing_step(old(self)@.with_phase(BlackJackState::Dealing(st).view()), final(self)@),
            !final(self).error_cue,
    {
        self.error_cue = false;
        let ghost pre = old(self)@.with_phase(BlackJackState::Dealing(st).view());
        let mut st = st;
        st.frame = st.frame + 1;
        if st.frame == DEAL_INTERVAL || st.frame == 3 * DEAL_INTERVAL {
            let c = draw_card(&mut self.horn, &self.rng);
            st.dealer_hand.cards.push(c);
            self.state = BlackJackState::Dealing(st);
            assert(drawn(pre.horn, self@.horn, c));
        } else if st.frame == 2 * DEAL_INTERVAL || st.frame == 4 * DEAL_INTERVAL {
            let c = draw_card(&mut self.horn, &self.rng);
            st.player_hand.cards.push(c);
            self.state = BlackJackState::Dealing(st);
            assert(drawn(pre.horn, self@.horn, c));
        } else if st.frame == 5 * DEAL_INTERVAL {
            proof {
                lemma_ace_count_le_len(st.dealer_hand.cards@);
                lemma_ace_count_le_len(st.player_hand.cards@);
            }
            if st.dealer_hand.dealer_showing_ace() {
                self.state = BlackJackState::Insurance(
                    InsuranceState::new(st.dealer_hand, st.player_hand),
                );
            } else {
                let ghost player = st.player_hand.cards@;
                let p = PlayingState::new(st.dealer_hand, st.player_hand);
                assert(hands_view(p.player_hands@) =~= seq![player]);
                self.state = BlackJackState::Playing(p);
            }
        } else {
            self.state = BlackJackState::Dealing(st);
        }
    }

    fn update_insurance(&mut self, st: InsuranceState, i: Inputs)
        requires
            old(self).state is Betting,
            phase_wf(BlackJackState::Insurance(st).view()),
        ensures
            final(self).wf(),
            insurance_step(
                old(self)@.with_phase(BlackJackState::Insurance(st).view()),
                final(self)@,
                i,
            ),
            !final(self).error_cue,
    {
        self.error_cue = false;
        proof {
            lemma_live_fits(st.dealer_hand.cards@);
            lemma_live_fits(st.player_hand.cards@);
        }
        if i.tap_x || i.tap_z {
            if i.tap_x {
                self.player_bank = self.player_bank.saturating_sub(self.player_bet / 2);
            }
            if st.dealer_hand.is_blackjack() {
                let result = if st.player_hand.is_blackjack() {
                    HandResult::BlackJack
                } else {
                    HandResult::Lose
                };
                let ghost player = st.player_hand.cards@;
                let mut player_hands: Vec<(Hand, HandResult)> = Vec::new();
                player_hands.push((st.player_hand, result));
                assert(results_view(player_hands@) =~= seq![(player, result)]);
                self.state = BlackJackState::End(
                    EndState {
                        dealer_hand: st.dealer_hand,
                        player_hands,
                        bought_insurance: i.tap_x,
                    },
                );
            } else {
                let ghost player = st.player_hand.cards@;
                let p = PlayingState::new(st.dealer_hand, st.player_hand);
                assert(hands_view(p.player_hands@) =~= seq![player]);
                self.state = BlackJackState::Playing(p);
            }
        } else {
            self.state = BlackJackState::Insurance(st);
        }
    }

    fn update_resolving(&mut self, st: DealerResolvingState)
        requires
            old(self).state is Betting,
            phase_wf(BlackJackState::DealerResolving(st).view()),
        ensures
            final(self).wf(),
            resolving_step(
                old(self)@.with_phase(BlackJackState::DealerResolving(st).view()),
                final(self)@,
            ),
            !final(self).error_cue,
    {
        self.error_cue = false;
        let ghost pre = old(self)@.with_phase(BlackJackState::DealerResolving(st).view());
        let ghost dealer = st.dealer_hand.cards@;
        let mut st = st;
        proof {
            lemma_live_fits(dealer);
            assert(DEALER_DRAW_INTERVAL * (low_total(dealer) + 1) <= 30 * 32) by (nonlinear_arith)
                requires low_total(dealer) <= 31;
        }
        st.frame_count = st.frame_count + 1;
        if st.dealer_hand.dealer_must_hit() && !st.dealer_hand.is_bust() {
            let fc = st.frame_count;
            assert(fc <= 30 * (low_total(dealer) + 1));
            if st.frame_count % DEALER_DRAW_INTERVAL == 0 {
                let c = draw_card(&mut self.horn, &self.rng);
                proof {
                    lemma_push(dealer, c);
                    lemma_bust_iff_low(dealer);
                    assert(fc < 30 * (low_total(dealer.push(c)) + 1)) by (nonlinear_arith)
                        requires
                            fc <= 30 * (low_total(dealer) + 1),
                            low_total(dealer.push(c)) >= low_total(dealer) + 1;
                }
                st.dealer_hand.cards.push(c);
                self.state = BlackJackState::DealerResolving(st);
                assert(drawn(pre.horn, self@.horn, c) && self@.phase == (
                PhaseView::DealerResolving {
                    dealer: dealer.push(c),
                    hands: hands_view(st.player_hands@),
                    frame_count: fc as int,
                }));
            } else {
                assert(fc != 30 * (low_total(dealer) + 1)) by (nonlinear_arith)
                    requires fc % 30 != 0;
                self.state = BlackJackState::DealerResolving(st);
            }
        } else {
            let results = settle_hands(st.player_hands, Some(&st.dealer_hand));
            self.state = BlackJackState::End(
                EndState { dealer_hand: st.dealer_hand, player_hands: results, bought_insurance: false },
            );
        }
    }

    fn update_playing(&mut self, st: PlayingState, i: Inputs)
        requires
            old(self).state is Betting,
            phase_wf(BlackJackState::Playing(st).view()),
            !st.hit_button.disabled,
            !st.stand_button.disabled,
        ensures
            final(self).wf(),
            playing_step(old(self)@.with_phase(BlackJackState::Playing(st).view()), final(self)@, i),
            final(self).error_cue == refused(
                old(self)@.with_phase(BlackJackState::Playing(st).view()),
                i,
            ),
    {
        if st.player_hand_index >= st.player_hands.len() {
            self.finish_turn(st, i);
        } else {
            self.act_on_hand(st, i);
        }
    }

    /// Every hand has been played: the dealer plays if some hand is neither bust nor a
    /// blackjack; otherwise the round ends at once.
    fn finish_turn(&mut self, st: PlayingState, i: Inputs)
        requires
            old(self).state is Betting,
            phase_wf(BlackJackState::Playing(st).view()),
            !st.hit_button.disabled,
            !st.stand_button.disabled,
            st.player_hand_index >= st.player_hands@.len(),
        ensures
            final(self).wf(),
            playing_step(old(self)@.with_phase(BlackJackState::Playing(st).view()), final(self)@, i),
            final(self).error_cue == refused(
                old(self)@.with_phase(BlackJackState::Playing(st).view()),
                i,
            ),
    {
        self.error_cue = false;
        let ghost hv = hands_view(st.player_hands@);
        proof {
            lemma_live_fits(st.dealer_hand.cards@);
        }
        let mut needed = false;
        let mut k: usize = 0;
        while k < st.player_hands.len() && !needed
            invariant
                k <= st.player_hands@.len(),
                hv == hands_view(st.player_hands@),
                all_live(hv),
                needed ==> exists|j: int|
                    0 <= j < hv.len() && !bust_spec(#[trigger] hv[j]) && !blackjack_spec(hv[j]),
                !needed ==> forall|j: int|
                    0 <= j < k ==> bust_spec(#[trigger] hv[j]) || blackjack_spec(hv[j]),
            decreases st.player_hands@.len() - k,
        {
            proof {
                lemma_live_fits(hv[k as int]);
            }
            if !st.player_hands[k].is_bust() && !st.player_hands[k].is_blackjack() {
                needed = true;
            }
            k = k + 1;
        }
        if needed {
            self.state = BlackJackState::DealerResolving(
                DealerResolvingState {
                    player_hands: st.player_hands,
                    dealer_hand: st.dealer_hand,
                    frame_count: 0,
                },
            );
        } else {
            let results = settle_hands(st.player_hands, None);
            self.state = BlackJackState::End(
                EndState {
                    dealer_hand: st.dealer_hand,
                    player_hands: results,
                    bought_insurance: false,
                },
            );
        }
    }

    /// The active hand: a finished one is passed over; otherwise the selected action,
    /// or a move of the selection.
    #[verifier::rlimit(40)]
    fn act_on_hand(&mut self, st: PlayingState, i: Inputs)
        requires
            old(self).state is Betting,
            phase_wf(BlackJackState::Playing(st).view()),
            !st.hit_button.disabled,
            !st.stand_button.disabled,
            st.player_hand_index < st.player_hands@.len(),
        ensures
            final(self).wf(),
            playing_step(old(self)@.with_phase(BlackJackState::Playing(st).view()), final(self)@, i),
            final(self).error_cue == refused(
                old(self)@.with_phase(BlackJackState::Playing(st).view()),
                i,
            ),
    {
        self.error_cue = false;
        let ghost pre = old(self)@.with_phase(BlackJackState::Playing(st).view());
        let ghost hv = hands_view(st.player_hands@);
        let mut st = st;
        proof {
            lemma_live_fits(st.dealer_hand.cards@);
        }
        let a = st.player_hand_index;
        let n = st.player_hands.len();
        assert(a < n);
        let ghost h = hv[a as int];
        proof {
            lemma_live_fits(h);
        }
        if st.player_hands[a].is_bust() || st.player_hands[a].is_blackjack() {
            st.player_hand_index = a + 1;
            self.state = BlackJackState::Playing(st);
            return ;
        }
        proof {
            lemma_bust_iff_low(h);
        }
        let bank_ok = self.player_bank >= self.player_bet;
        let split_ok = st.player_hands[a].can_split() && bank_ok;
        let double_ok = st.player_hands[a].can_double_down() && bank_ok;
        st.split_button.disabled = !split_ok;
        st.double_down_button.disabled = !double_ok;
        let ghost mut taken: Option<Card> = None;
        let ghost mut split_draws: Option<(Seq<Card>, Card, Card)> = None;
        if i.tap_x {
            if st.button_index == 0 && !st.hit_button.disabled {
                let c = draw_card(&mut self.horn, &self.rng);
                let mut hand = Hand::new();
                st.player_hands.set_and_swap(a, &mut hand);
                hand.cards.push(c);
                st.player_hands.set(a, hand);
                proof {
                    lemma_push(h, c);
                    assert(hands_view(st.player_hands@) =~= hv.update(a as int, h.push(c)));
                    taken = Some(c);
                }
            } else if st.button_index == 1 && !st.stand_button.disabled {
                st.player_hand_index = a + 1;
            } else if st.button_index == 2 && !st.split_button.disabled {
                let mut hand = Hand::new();
                st.player_hands.set_and_swap(a, &mut hand);
                let new_hand_card = hand.cards.pop().unwrap();
                let c1 = draw_card(&mut self.horn, &self.rng);
                let ghost mid = self.horn@;
                hand.cards.push(c1);
                let mut new_hand = Hand::new();
                new_hand.cards.push(new_hand_card);
                let c2 = draw_card(&mut self.horn, &self.rng);
                new_hand.cards.push(c2);
                let ghost first = hand.cards@;
                let ghost second = new_hand.cards@;
                st.player_hands.set(a, hand);
                st.player_hands.push(new_hand);
                self.total_bet = self.total_bet.saturating_add(self.player_bet);
                proof {
                    assert(first =~= seq![h[0], c1]);
                    assert(second =~= seq![h[1], c2]);
                    lemma_ace_count_le_len(first);
                    lemma_ace_count_le_len(second);
                    assert(hands_view(st.player_hands@) =~= hv.update(a as int, first).push(
                        second,
                    ));
                    split_draws = Some((mid, c1, c2));
                }
            } else if st.button_index == 3 && !st.double_down_button.disabled {
                let c = draw_card(&mut self.horn, &self.rng);
                let mut hand = Hand::new();
                st.player_hands.set_and_swap(a, &mut hand);
                hand.cards.push(c);
                st.player_hands.set(a, hand);
                self.total_bet = self.total_bet.saturating_add(self.player_bet);
                st.player_hand_index = a + 1;
                proof {
                    lemma_push(h, c);
                    assert(hands_view(st.player_hands@) =~= hv.update(a as int, h.push(c)));
                    taken = Some(c);
                }
            } else {
                self.error_cue = true;
            }
        } else {
            let mut b = st.button_index;
            if i.tap_right && b % 2 == 0 {
                b = b + 1;
            }
            if i.tap_left && b % 2 == 1 {
                b = b - 1;
            }
            if i.tap_down && b / 2 == 0 {
                b = b + 2;
            }
            if i.tap_up && b / 2 == 1 {
                b = b - 2;
            }
            st.button_index = b;
        }
        self.state = BlackJackState::Playing(st);
        proof {
            if let Some(c) = taken {
                assert(drawn(pre.horn, self@.horn, c));
            }
            if let Some((mid, c1, c2)) = split_draws {
                assert(drawn(pre.horn, mid, c1) && drawn(mid, self@.horn, c2));
            }
        }
    }

    /// One tick of the table on player one's buttons; returns the bankroll when the
    /// player leaves from the betting phase or the end of a round.
    pub fn update(&mut self, inputs: [Inputs; 4]) -> (r: Option<PlayerState>)
        requires
            old(self).wf(),
        ensures
            final(self).wf(),
            table_step(old(self)@, final(self)@, inputs@[0], r),
            final(self).error_cue == refused(old(self)@, inputs@[0]),
    {
        let i = inputs[0];
        let mut st = BlackJackState::Betting;
        std::mem::swap(&mut self.state, &mut st);
        match st {
            BlackJackState::Betting => self.update_betting(i),
            BlackJackState::Dealing(d) => {
                self.update_dealing(d);
                None
            },
            BlackJackState::Insurance(s) => {
                self.update_insurance(s, i);
                None
            },
            BlackJackState::Playing(p) => {
                self.update_playing(p, i);
                None
            },
            BlackJackState::DealerResolving(s) => {
                self.update_resolving(s);
                None
            },
            BlackJackState::End(e) => self.update_end(e, i),
        }
    }
}

impl Model<PlayerState> for BlackJack {
    open spec fn ready(&self) -> bool {
        self.wf()
    }

    fn update(&mut self, inputs: [Inputs; 4]) -> (r: Option<PlayerState>) {
        BlackJack::update(self, inputs)
    }

    fn share_state(&mut self, state: PlayerState) {
        BlackJack::share_state(self, state)
    }
}

} // verus!