use vstd::prelude::*;

verus! {

/// The rank of a card. Only its scoring matters to the game; the suit is for display.
#[derive(Copy, Clone, Debug, PartialEq, Eq, Structural)]
pub enum CardValue {
    Ace,
    Two,
    Three,
    Four,
    Five,
    Six,
    Seven,
    Eight,
    Nine,
    Ten,
    Jack,
    Queen,
    King,
}

#[derive(Copy, Clone, Debug, PartialEq, Eq, Structural)]
pub enum CardSuit {
    Club,
    Diamond,
    Heart,
    Spade,
}

#[derive(Copy, Clone, Debug, PartialEq, Eq, Structural)]
pub struct Card {
    pub value: CardValue,
    pub suit: CardSuit,
}

impl CardValue {
    /// Ten, Jack, Queen and King all count ten.
    pub open spec fn is_ten_valued(self) -> bool {
        self == CardValue::Ten || self == CardValue::Jack || self == CardValue::Queen
            || self == CardValue::King
    }

    /// The points of the card with an Ace counted low (one).
    pub open spec fn low_points(self) -> nat {
        match self {
            CardValue::Ace => 1,
            CardValue::Two => 2,
            CardValue::Three => 3,
            CardValue::Four => 4,
            CardValue::Five => 5,
            CardValue::Six => 6,
            CardValue::Seven => 7,
            CardValue::Eight => 8,
            CardValue::Nine => 9,
            _ => 10,
        }
    }

    /// Two ranks that may be split: the same rank, or two ten-valued ranks.
    pub open spec fn split_equal(self, other: CardValue) -> bool {
        self == other || (self.is_ten_valued() && other.is_ten_valued())
    }

    pub open spec fn symbol_spec(self) -> char {
        match self {
            CardValue::Ace => 'A',
            CardValue::Two => '2',
            CardValue::Three => '3',
            CardValue::Four => '4',
            CardValue::Five => '5',
            CardValue::Six => '6',
            CardValue::Seven => '7',
            CardValue::Eight => '8',
            CardValue::Nine => '9',
            CardValue::Ten => 'T',
            CardValue::Jack => 'J',
            CardValue::Queen => 'Q',
            CardValue::King => 'K',
        }
    }

    pub open spec fn all_spec() -> Seq<CardValue> {
        seq![
            CardValue::Ace, CardValue::Two, CardValue::Three, CardValue::Four, CardValue::Five,
            CardValue::Six, CardValue::Seven, CardValue::Eight, CardValue::Nine, CardValue::Ten,
            CardValue::Jack, CardValue::Queen, CardValue::King,
        ]
    }

    pub fn equal_to(&self, other: &Self) -> (r: bool)
        ensures
            r == self.split_equal(*other),
    {
        if *self == *other {
            true
        } else {
            match (*self, *other) {
                (
                    CardValue::Ten | CardValue::Jack | CardValue::Queen | CardValue::King,
                    CardValue::Ten | CardValue::Jack | CardValue::Queen | CardValue::King,
                ) => true,
                _ => false,
            }
        }
    }

    /// The points of the card, an Ace counted as one.
    pub fn low_value(&self) -> (r: u32)
        ensures
            r == self.low_points(),
            1 <= r <= 10,
    {
        match self {
            CardValue::Ace => 1,
            CardValue::Two => 2,
            CardValue::Three => 3,
            CardValue::Four => 4,
            CardValue::Five => 5,
            CardValue::Six => 6,
            CardValue::Seven => 7,
            CardValue::Eight => 8,
            CardValue::Nine => 9,
            _ => 10,
        }
    }

    /// The one-character label printed on a card.
    pub fn symbol(&self) -> (r: char)
        ensures
            r == self.symbol_spec(),
    {
        match self {
            CardValue::Ace => 'A',
            CardValue::Two => '2',
            CardValue::Three => '3',
            CardValue::Four => '4',
            CardValue::Five => '5',
            CardValue::Six => '6',
            CardValue::Seven => '7',
            CardValue::Eight => '8',
            CardValue::Nine => '9',
            CardValue::Ten => 'T',
            CardValue::Jack => 'J',
            CardValue::Queen => 'Q',
            CardValue::King => 'K',
        }
    }

    /// Every rank, Ace first and King last.
    pub fn values() -> (r: [Self; 13])
        ensures
            r@ == Self::all_spec(),
    {
        let r = [
            CardValue::Ace, CardValue::Two, CardValue::Three, CardValue::Four, CardValue::Five,
            CardValue::Six, CardValue::Seven, CardValue::Eight, CardValue::Nine, CardValue::Ten,
            CardValue::Jack, CardValue::Queen, CardValue::King,
        ];
        assert(r@ =~= Self::all_spec());
        r
    }
}

impl CardSuit {
    pub open spec fn all_spec() -> Seq<CardSuit> {
        seq![CardSuit::Club, CardSuit::Diamond, CardSuit::Heart, CardSuit::Spade]
    }

    /// Every suit.
    pub fn suits() -> (r: [Self; 4])
        ensures
            r@ == Self::all_spec(),
    {
        let r = [CardSuit::Club, CardSuit::Diamond, CardSuit::Heart, CardSuit::Spade];
        assert(r@ =~= Self::all_spec());
        r
    }

    /// Clubs and spades are printed dark, diamonds and hearts red.
    pub fn is_red(&self) -> (r: bool)
        ensures
            r == (*self == CardSuit::Diamond || *self == CardSuit::Heart),
    {
        match self {
            CardSuit::Diamond | CardSuit::Heart => true,
            _ => false,
        }
    }
}

} // verus!
