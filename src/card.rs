use vstd::prelude::*;
use crate::error::GameError;

verus! {

/// The four French suits, plus the suit of the two Jokers.
#[derive(Debug, PartialEq, Eq, Structural, Clone, Copy)]
pub enum Suit {
    Spades,
    Hearts,
    Clubs,
    Diamonds,
    Joker,
}

/// Same colour: black (Spades, Clubs) or red (Hearts, Diamonds).
/// A Joker has no colour and matches nothing, not even another Joker.
pub open spec fn same_color(a: Suit, b: Suit) -> bool {
    ||| (a == Suit::Spades || a == Suit::Clubs) && (b == Suit::Spades || b == Suit::Clubs)
    ||| (a == Suit::Hearts || a == Suit::Diamonds) && (b == Suit::Hearts || b == Suit::Diamonds)
}

impl Suit {
    pub fn is_same_color_as(self, other: Suit) -> (r: bool)
        ensures
            r == same_color(self, other),
    {
        if self == Suit::Spades || self == Suit::Clubs {
            other == Suit::Spades || other == Suit::Clubs
        } else if self == Suit::Hearts || self == Suit::Diamonds {
            other == Suit::Hearts || other == Suit::Diamonds
        } else {
            false
        }
    }
}

/// A playing card. A Joker has value 0; every other card has a value
/// from 1 (Ace) to 13 (King).
#[derive(Debug, Clone, Copy)]
pub struct Card {
    suit: Suit,
    value: u8,
}

/// Whether a suit and a value make a card.
pub open spec fn valid_card(suit: Suit, value: u8) -> bool {
    if suit == Suit::Joker {
        value == 0
    } else {
        1 <= value <= 13
    }
}

impl Card {
    /// The card's suit.
    pub closed spec fn spec_suit(self) -> Suit {
        self.suit
    }

    /// The card's value: 0 for a Joker, 1 (Ace) to 13 (King) otherwise.
    pub closed spec fn spec_value(self) -> u8 {
        self.value
    }

    /// Every card holds a value that fits its suit.
    #[verifier::type_invariant]
    pub open spec fn wf(self) -> bool {
        valid_card(self.spec_suit(), self.spec_value())
    }

    /// A Jack, Queen or King.
    pub open spec fn spec_is_royal(self) -> bool {
        self.spec_value() >= 11
    }

    /// The card of `suit` and `value`, if they fit together.
    pub fn new(value: u8, suit: Suit) -> (r: Result<Card, GameError>)
        ensures
            valid_card(suit, value) <==> r is Ok,
            r is Ok ==> r->Ok_0.spec_suit() == suit && r->Ok_0.spec_value() == value && r->Ok_0.wf(),
            r is Err ==> r->Err_0 == GameError::InvalidCard,
    {
        if value == 0 && suit != Suit::Joker {
            return Err(GameError::InvalidCard);
        }
        if value != 0 && suit == Suit::Joker {
            return Err(GameError::InvalidCard);
        }
        if value > 13 {
            return Err(GameError::InvalidCard);
        }
        Ok(Card { suit, value })
    }

    pub fn is_royal(&self) -> (r: bool)
        ensures
            r == self.spec_is_royal(),
            self.wf(),
    {
        proof {
            use_type_invariant(self);
        }
        self.value >= 11
    }

    pub fn value(&self) -> (r: u8)
        ensures
            r == self.spec_value(),
            self.wf(),
    {
        proof {
            use_type_invariant(self);
        }
        self.value
    }

    pub fn suit(&self) -> (r: Suit)
        ensures
            r == self.spec_suit(),
            self.wf(),
    {
        proof {
            use_type_invariant(self);
        }
        self.suit
    }
}

} // verus!
