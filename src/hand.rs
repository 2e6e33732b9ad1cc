use vstd::prelude::*;
use crate::cards::{Card, CardValue};

verus! {

/// The sum of a sequence of cards with every Ace counted as one.
pub open spec fn low_total(s: Seq<Card>) -> nat
    decreases s.len(),
{
    if s.len() == 0 {
        0
    } else {
        low_total(s.drop_last()) + s.last().value.low_points()
    }
}

/// How many Aces a sequence of cards holds.
pub open spec fn ace_count(s: Seq<Card>) -> nat
    decreases s.len(),
{
    if s.len() == 0 {
        0
    } else {
        ace_count(s.drop_last()) + if s.last().value == CardValue::Ace { 1nat } else { 0nat }
    }
}

/// `t` is one of the totals of the cards: each Ace counts one or eleven, so a
/// total is the all-low sum plus ten for each Ace counted high.
pub open spec fn has_total(s: Seq<Card>, t: int) -> bool {
    exists|j: int| 0 <= j <= ace_count(s) && t == #[trigger] total_with(s, j)
}

/// The total of the cards with `j` Aces counted high.
pub open spec fn total_with(s: Seq<Card>, j: int) -> int {
    low_total(s) + 10 * j
}

/// Every total exceeds 21.
pub open spec fn bust_spec(s: Seq<Card>) -> bool {
    forall|t: int| has_total(s, t) ==> t > 21
}

/// Two cards that can make 21.
pub open spec fn blackjack_spec(s: Seq<Card>) -> bool {
    s.len() == 2 && has_total(s, 21)
}

/// The highest total that does not exceed 21; only meaningful when the cards are not bust.
pub open spec fn best_total(s: Seq<Card>) -> int {
    let low = low_total(s) as int;
    let room = (21 - low) / 10;
    low + 10 * if ace_count(s) < room { ace_count(s) as int } else { room }
}

/// The number that stands for a hand: its best total, or its all-low sum once it is bust.
pub open spec fn max_points_spec(s: Seq<Card>) -> int {
    if low_total(s) <= 21 { best_total(s) } else { low_total(s) as int }
}

/// A dealer stands as soon as some total lies between 17 and 21.
pub open spec fn must_hit_spec(s: Seq<Card>) -> bool {
    !exists|t: int| has_total(s, t) && 17 <= t <= 21
}

pub open spec fn can_double_down_spec(s: Seq<Card>) -> bool {
    s.len() == 2 && (has_total(s, 10) || has_total(s, 11))
}

pub open spec fn can_split_spec(s: Seq<Card>) -> bool {
    s.len() == 2 && s[0].value.split_equal(s[1].value)
}

/// The most cards a hand holds for its totals to be computed in 32 bits.
pub const MAX_HAND_CARDS: usize = 10_000;

pub proof fn lemma_ace_count_le_len(s: Seq<Card>)
    ensures
        ace_count(s) <= s.len(),
        low_total(s) <= 10 * s.len(),
        s.len() <= low_total(s),
    decreases s.len(),
{
    if s.len() > 0 {
        lemma_ace_count_le_len(s.drop_last());
    }
}

pub proof fn lemma_push(s: Seq<Card>, c: Card)
    ensures
        low_total(s.push(c)) == low_total(s) + c.value.low_points(),
        ace_count(s.push(c)) == ace_count(s) + if c.value == CardValue::Ace { 1nat } else { 0nat },
{
    assert(s.push(c).drop_last() =~= s);
}

/// A hand is bust exactly when its all-low sum exceeds 21.
pub proof fn lemma_bust_iff_low(s: Seq<Card>)
    ensures
        bust_spec(s) <==> low_total(s) > 21,
{
    if low_total(s) <= 21 {
        assert(has_total(s, low_total(s) as int)) by {
            assert(low_total(s) == total_with(s, 0));
        }
    }
}

/// The best total of a hand that is not bust is one of its totals, and no total
/// up to 21 is higher.
pub proof fn lemma_best_total(s: Seq<Card>)
    requires
        low_total(s) <= 21,
    ensures
        has_total(s, best_total(s)),
        best_total(s) <= 21,
        forall|t: int| has_total(s, t) && t <= 21 ==> t <= best_total(s),
{
    let low = low_total(s) as int;
    let room = (21 - low) / 10;
    let k = if ace_count(s) < room { ace_count(s) as int } else { room };
    assert(0 <= room && 10 * room <= 21 - low) by (nonlinear_arith)
        requires 0 <= 21 - low, room == (21 - low) / 10;
    assert(0 <= k <= ace_count(s) && best_total(s) == total_with(s, k));
    assert forall|t: int| has_total(s, t) && t <= 21 implies t <= best_total(s) by {
        let j = choose|j: int| 0 <= j <= ace_count(s) && t == #[trigger] total_with(s, j);
        assert(j <= room) by (nonlinear_arith)
            requires 10 * j <= 21 - low, room == (21 - low) / 10, 0 <= j;
    }
}

/// Scoring with Aces: the all-low sum is always a total; every total is the all-low
/// sum plus ten for some number of Aces counted high; and below the total with every
/// Ace high, ten more than a total is again a total (one step for each Ace).
pub proof fn lemma_points_soft_aces(s: Seq<Card>)
    ensures
        has_total(s, low_total(s) as int),
        forall|t: int|
            has_total(s, t) ==> low_total(s) <= t <= low_total(s) + 10 * ace_count(s) && (t
                - low_total(s)) % 10 == 0,
        forall|t: int|
            #[trigger] has_total(s, t) && t < low_total(s) + 10 * ace_count(s) ==> has_total(
                s,
                t + 10,
            ),
{
    assert(low_total(s) == total_with(s, 0));
    assert forall|t: int| #[trigger] has_total(s, t) && t < low_total(s) + 10 * ace_count(s) implies has_total(
        s,
        t + 10,
    ) by {
        let j = choose|j: int| 0 <= j <= ace_count(s) && t == #[trigger] total_with(s, j);
        assert(t + 10 == total_with(s, j + 1));
    }
    assert forall|t: int| has_total(s, t) implies low_total(s) <= t <= low_total(s) + 10
        * ace_count(s) && (t - low_total(s)) % 10 == 0 by {
        let j = choose|j: int| 0 <= j <= ace_count(s) && t == #[trigger] total_with(s, j);
        assert((10 * j) % 10 == 0) by (nonlinear_arith);
        assert(10 * j <= 10 * ace_count(s)) by (nonlinear_arith)
            requires j <= ace_count(s);
    }
}

#[derive(Clone, Debug)]
pub struct Hand {
    pub cards: Vec<Card>,
}

/// How a player's hand ends against the dealer; it decides the payout.
#[derive(Copy, Clone, Debug, PartialEq, Eq, Structural)]
pub enum HandResult {
    Lose,
    Win,
    Push,
    BlackJack,
}

/// The outcome of a player's hand, given the dealer's hand where the dealer played one.
pub open spec fn showdown_spec(p: Seq<Card>, dealer: Option<Seq<Card>>) -> HandResult {
    if blackjack_spec(p) {
        match dealer {
            Some(d) if blackjack_spec(d) => HandResult::Push,
            _ => HandResult::BlackJack,
        }
    } else if bust_spec(p) {
        HandResult::Lose
    } else {
        let pp = best_total(p);
        let d = dealer.unwrap();
        if !bust_spec(d) {
            let dp = best_total(d);
            if pp == dp {
                HandResult::Push
            } else if pp < dp {
                HandResult::Lose
            } else {
                HandResult::Win
            }
        } else if pp != 21 {
            HandResult::Win
        } else {
            HandResult::BlackJack
        }
    }
}

impl Hand {
    pub open spec fn fits(&self) -> bool {
        self.cards@.len() <= MAX_HAND_CARDS
    }

    pub fn new() -> (r: Self)
        ensures
            r.cards@.len() == 0,
    {
        Hand { cards: Vec::with_capacity(4) }
    }

    /// The dealer's second card is the one dealt face up.
    pub fn dealer_showing_ace(&self) -> (r: bool)
        requires
            self.cards@.len() >= 2,
        ensures
            r == (self.cards@[1].value == CardValue::Ace),
    {
        self.cards[1].value == CardValue::Ace
    }

    fn low_and_aces(&self) -> (r: (u32, u32))
        requires
            self.fits(),
        ensures
            r.0 == low_total(self.cards@),
            r.1 == ace_count(self.cards@),
    {
        let mut sum: u32 = 0;
        let mut aces: u32 = 0;
        let mut i: usize = 0;
        while i < self.cards.len()
            invariant
                self.fits(),
                i <= self.cards@.len(),
                sum == low_total(self.cards@.take(i as int)),
                aces == ace_count(self.cards@.take(i as int)),
            decreases self.cards@.len() - i,
        {
            let c = self.cards[i];
            proof {
                let s = self.cards@.take(i as int);
                lemma_push(s, c);
                lemma_ace_count_le_len(s);
                assert(self.cards@.take(i + 1) =~= s.push(c));
            }
            sum = sum + c.value.low_value();
            if c.value == CardValue::Ace {
                aces = aces + 1;
            }
            i = i + 1;
        }
        assert(self.cards@.take(i as int) =~= self.cards@);
        (sum, aces)
    }

    /// Every total of the hand, lowest first: the all-low sum, then ten more for
    /// each Ace counted high.
    pub fn points(&self) -> (r: Vec<u32>)
        requires
            self.fits(),
        ensures
            r@.len() == ace_count(self.cards@) + 1,
            forall|j: int| 0 <= j < r@.len() ==> r@[j] == low_total(self.cards@) + 10 * j,
    {
        let (low, aces) = self.low_and_aces();
        proof {
            lemma_ace_count_le_len(self.cards@);
        }
        let mut pts: Vec<u32> = Vec::new();
        let mut j: u32 = 0;
        while j <= aces
            invariant
                low == low_total(self.cards@),
                aces == ace_count(self.cards@),
                aces <= MAX_HAND_CARDS,
                low <= 10 * MAX_HAND_CARDS,
                j <= aces + 1,
                pts@.len() == j,
                forall|k: int| 0 <= k < j ==> pts@[k] == low + 10 * k,
            decreases aces + 1 - j,
        {
            pts.push(low + 10 * j);
            j = j + 1;
        }
        pts
    }

    /// Whether `t` is one of the totals of the hand.
    fn has_total_exec(&self, t: u32) -> (r: bool)
        requires
            self.fits(),
        ensures
            r == has_total(self.cards@, t as int),
    {
        let pts = self.points();
        let r = contains_total(&pts, t);
        proof {
            if r {
                let j = choose|j: int| 0 <= j < pts@.len() && pts@[j] == t;
                assert(t == total_with(self.cards@, j));
            }
            if has_total(self.cards@, t as int) {
                let j = choose|j: int|
                    0 <= j <= ace_count(self.cards@) && t == #[trigger] total_with(self.cards@, j);
                assert(pts@[j] == t);
            }
        }
        r
    }

    /// The highest total up to 21, or the all-low sum once every total exceeds 21.
    pub fn max_points(&self) -> (r: u32)
        requires
            self.fits(),
        ensures
            r == max_points_spec(self.cards@),
            low_total(self.cards@) <= 21 ==> has_total(self.cards@, r as int) && forall|t: int|
                has_total(self.cards@, t) && t <= 21 ==> t <= r,
    {
        let (low, aces) = self.low_and_aces();
        proof {
            lemma_ace_count_le_len(self.cards@);
        }
        if low <= 21 {
            proof {
                lemma_best_total(self.cards@);
            }
            let room = (21 - low) / 10;
            let k = if aces < room { aces } else { room };
            low + 10 * k
        } else {
            low
        }
    }

    /// The dealer draws until some total lies between 17 and 21.
    pub fn dealer_must_hit(&self) -> (r: bool)
        requires
            self.fits(),
        ensures
            r == must_hit_spec(self.cards@),
    {
        let pts = self.points();
        let mut i: usize = 0;
        while i < pts.len()
            invariant
                i <= pts@.len(),
                pts@.len() == ace_count(self.cards@) + 1,
                forall|j: int| 0 <= j < pts@.len() ==> pts@[j] == total_with(self.cards@, j),
                forall|j: int| 0 <= j < i ==> !(17 <= #[trigger] pts@[j] <= 21),
            decreases pts@.len() - i,
        {
            if 17 <= pts[i] && pts[i] <= 21 {
                assert(has_total(self.cards@, pts@[i as int] as int));
                return false;
            }
            i = i + 1;
        }
        assert forall|t: int| has_total(self.cards@, t) implies !(17 <= t <= 21) by {
            let j = choose|j: int|
                0 <= j <= ace_count(self.cards@) && t == #[trigger] total_with(self.cards@, j);
            assert(pts@[j] == t);
        }
        true
    }

    /// Every total exceeds 21.
    pub fn is_bust(&self) -> (r: bool)
        requires
            self.fits(),
        ensures
            r == bust_spec(self.cards@),
    {
        let (low, _) = self.low_and_aces();
        proof {
            lemma_bust_iff_low(self.cards@);
        }
        low > 21
    }

    /// Two cards that make 21.
    pub fn is_blackjack(&self) -> (r: bool)
        requires
            self.fits(),
        ensures
            r == blackjack_spec(self.cards@),
    {
        self.cards.len() == 2 && self.has_total_exec(21)
    }

    /// Two cards of split-equal rank.
    pub fn can_split(&self) -> (r: bool)
        ensures
            r == can_split_spec(self.cards@),
    {
        self.cards.len() == 2 && self.cards[0].value.equal_to(&self.cards[1].value)
    }

    /// Two cards that can make 10 or 11.
    pub fn can_double_down(&self) -> (r: bool)
        requires
            self.fits(),
        ensures
            r == can_double_down_spec(self.cards@),
    {
        self.cards.len() == 2 && (self.has_total_exec(10) || self.has_total_exec(11))
    }

    /// The outcome of this player's hand; `dealer_hand` is `None` when the dealer
    /// did not play, which only happens when this hand is a blackjack or bust.
    pub fn showdown_result(&self, dealer_hand: Option<&Hand>) -> (r: HandResult)
        requires
            self.fits(),
            dealer_hand matches Some(d) ==> d.fits(),
            dealer_hand.is_none() ==> blackjack_spec(self.cards@) || bust_spec(self.cards@),
        ensures
            r == showdown_spec(
                self.cards@,
                match dealer_hand {
                    Some(d) => Some(d.cards@),
                    None => None,
                },
            ),
    {
        if self.is_blackjack() {
            match dealer_hand {
                Some(d) => {
                    if d.is_blackjack() {
                        HandResult::Push
                    } else {
                        HandResult::BlackJack
                    }
                },
                None => HandResult::BlackJack,
            }
        } else if self.is_bust() {
            HandResult::Lose
        } else {
            let d = dealer_hand.unwrap();
            let pp = self.max_points();
            if !d.is_bust() {
                proof {
                    lemma_bust_iff_low(self.cards@);
                    lemma_bust_iff_low(d.cards@);
                }
                let dp = d.max_points();
                if pp == dp {
                    HandResult::Push
                } else if pp < dp {
                    HandResult::Lose
                } else {
                    HandResult::Win
                }
            } else {
                proof {
                    lemma_bust_iff_low(self.cards@);
                }
                if pp != 21 {
                    HandResult::Win
                } else {
                    HandResult::BlackJack
                }
            }
        }
    }
}

/// Whether `t` is among the totals that `points` lists.
fn contains_total(pts: &Vec<u32>, t: u32) -> (r: bool)
    ensures
        r == exists|j: int| 0 <= j < pts@.len() && pts@[j] == t,
{
    let mut i: usize = 0;
    while i < pts.len()
        invariant
            i <= pts@.len(),
            forall|j: int| 0 <= j < i ==> pts@[j] != t,
        decreases pts@.len() - i,
    {
        if pts[i] == t {
            return true;
        }
        i = i + 1;
    }
    false
}

} // verus!
