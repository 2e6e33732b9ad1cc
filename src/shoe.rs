use vstd::prelude::*;
use crate::cards::{Card, CardSuit, CardValue};
use fastrand::Rng;
use vstd::multiset::Multiset;

verus! {

#[verifier::external_type_specification]
#[verifier::external_body]
pub struct ExRng(fastrand::Rng);

/// Relies on fastrand::Rng::with_seed: builds a generator from a seed; nothing is
/// claimed of the numbers it will produce.
pub assume_specification[ fastrand::Rng::with_seed ](seed: u64) -> fastrand::Rng;

/// Relies on fastrand::Rng::shuffle: it permutes the slice by swapping elements,
/// so the same cards stay, in an order that depends on the generator.
#[verifier::external_body]
fn shuffle_cards(rng: &Rng, cards: &mut Vec<Card>)
    ensures
        final(cards)@.len() == old(cards)@.len(),
        final(cards)@.to_multiset() == old(cards)@.to_multiset(),
{
    rng.shuffle(cards.as_mut_slice())
}

/// How many standard decks make up the shoe.
pub const DECKS_IN_SHOE: usize = 7;

/// The cards of a full shoe.
pub const SHOE_SIZE: usize = 364;

/// Card `i` of a standard deck, laid out suit by suit, Ace to King in each suit.
pub open spec fn deck_card(i: int) -> Card {
    Card { value: CardValue::all_spec()[i % 13], suit: CardSuit::all_spec()[i / 13] }
}

pub open spec fn deck() -> Seq<Card> {
    Seq::new(52, |i: int| deck_card(i))
}

/// `n` standard decks one after another.
pub open spec fn decks(n: nat) -> Seq<Card>
    decreases n,
{
    if n == 0 {
        Seq::empty()
    } else {
        decks((n - 1) as nat) + deck()
    }
}

/// The cards of a fresh shoe, in any order.
pub open spec fn fresh_shoe() -> Multiset<Card> {
    decks(DECKS_IN_SHOE as nat).to_multiset()
}

/// What one draw does to the shoe: the last card leaves; a shoe found empty is
/// first refilled with a fresh shoe, shuffled.
pub open spec fn drawn(before: Seq<Card>, after: Seq<Card>, c: Card) -> bool {
    if before.len() > 0 {
        c == before.last() && after == before.drop_last()
    } else {
        after.len() == SHOE_SIZE - 1 && after.push(c).to_multiset() == fresh_shoe()
    }
}

proof fn lemma_decks_len(n: nat)
    ensures
        decks(n).len() == 52 * n,
    decreases n,
{
    if n > 0 {
        lemma_decks_len((n - 1) as nat);
    }
}

/// A fresh shoe of seven decks, shuffled with `rng`.
pub fn new_shuffled_horn(rng: &Rng) -> (r: Vec<Card>)
    ensures
        r@.len() == SHOE_SIZE,
        r@.to_multiset() == fresh_shoe(),
{
    let mut horn: Vec<Card> = Vec::with_capacity(SHOE_SIZE);
    let suits = CardSuit::suits();
    let values = CardValue::values();
    let mut d: usize = 0;
    while d < DECKS_IN_SHOE
        invariant
            d <= DECKS_IN_SHOE,
            horn@ == decks(d as nat),
            suits@ == CardSuit::all_spec(),
            values@ == CardValue::all_spec(),
        decreases DECKS_IN_SHOE - d,
    {
        let mut s: usize = 0;
        while s < 4
            invariant
                d < DECKS_IN_SHOE,
                s <= 4,
                horn@ == decks(d as nat) + deck().take(13 * s),
                suits@ == CardSuit::all_spec(),
                values@ == CardValue::all_spec(),
            decreases 4 - s,
        {
            let mut v: usize = 0;
            while v < 13
                invariant
                    d < DECKS_IN_SHOE,
                    s < 4,
                    v <= 13,
                    horn@ == decks(d as nat) + deck().take(13 * s + v),
                    suits@ == CardSuit::all_spec(),
                    values@ == CardValue::all_spec(),
                decreases 13 - v,
            {
                let ghost i = 13 * s + v;
                assert(i % 13 == v && i / 13 == s) by (nonlinear_arith)
                    requires i == 13 * s + v, 0 <= v < 13, 0 <= s;
                proof {
                    assert(deck().take(i + 1) =~= deck().take(i).push(deck_card(i)));
                }
                horn.push(Card { value: values[v], suit: suits[s] });
                v = v + 1;
            }
            s = s + 1;
        }
        assert(deck().take(52) =~= deck());
        d = d + 1;
    }
    proof {
        lemma_decks_len(DECKS_IN_SHOE as nat);
    }
    shuffle_cards(rng, &mut horn);
    horn
}

/// Takes the last card of the shoe, refilling the shoe first when it is empty:
/// a draw never fails.
pub fn draw_card(horn: &mut Vec<Card>, rng: &Rng) -> (r: Card)
    ensures
        drawn(old(horn)@, final(horn)@, r),
{
    if horn.len() == 0 {
        *horn = new_shuffled_horn(rng);
        proof {
            assert(horn@.drop_last().push(horn@.last()) =~= horn@);
        }
    }
    let card = horn.pop().unwrap();
    card
}

/// Four draws from a shoe that holds at least four cards take its last four cards,
/// from the end inwards, and leave four fewer.
pub proof fn lemma_four_draws(
    h0: Seq<Card>,
    h1: Seq<Card>,
    h2: Seq<Card>,
    h3: Seq<Card>,
    h4: Seq<Card>,
    c1: Card,
    c2: Card,
    c3: Card,
    c4: Card,
)
    requires
        h0.len() >= 4,
        drawn(h0, h1, c1),
        drawn(h1, h2, c2),
        drawn(h2, h3, c3),
        drawn(h3, h4, c4),
    ensures
        h4.len() == h0.len() - 4,
        h4 == h0.take(h0.len() - 4),
        c1 == h0[h0.len() - 1],
        c2 == h0[h0.len() - 2],
        c3 == h0[h0.len() - 3],
        c4 == h0[h0.len() - 4],
{
    assert(h4 =~= h0.take(h0.len() - 4));
}

} // verus!
