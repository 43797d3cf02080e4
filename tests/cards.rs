use squaretillery::{Card, GameError, Pile, Suit};

fn card(value: u8, suit: Suit) -> Card {
    Card::new(value, suit).unwrap()
}

#[test]
fn card_values_must_fit_the_suit() {
    assert_eq!(Card::new(0, Suit::Spades).err(), Some(GameError::InvalidCard));
    assert_eq!(Card::new(5, Suit::Joker).err(), Some(GameError::InvalidCard));
    assert_eq!(Card::new(14, Suit::Hearts).err(), Some(GameError::InvalidCard));
    let joker = card(0, Suit::Joker);
    assert_eq!((joker.value(), joker.suit()), (0, Suit::Joker));
    let king = card(13, Suit::Clubs);
    assert_eq!((king.value(), king.suit()), (13, Suit::Clubs));
}

#[test]
fn royals_are_jacks_queens_and_kings() {
    assert!(!card(10, Suit::Diamonds).is_royal());
    assert!(card(11, Suit::Diamonds).is_royal());
    assert!(card(12, Suit::Spades).is_royal());
    assert!(card(13, Suit::Hearts).is_royal());
    assert!(!card(0, Suit::Joker).is_royal());
    assert!(!card(1, Suit::Clubs).is_royal());
}

#[test]
fn suit_colours() {
    assert!(Suit::Spades.is_same_color_as(Suit::Clubs));
    assert!(Suit::Clubs.is_same_color_as(Suit::Clubs));
    assert!(Suit::Hearts.is_same_color_as(Suit::Diamonds));
    assert!(!Suit::Hearts.is_same_color_as(Suit::Spades));
    assert!(!Suit::Diamonds.is_same_color_as(Suit::Clubs));
    assert!(!Suit::Joker.is_same_color_as(Suit::Joker));
    assert!(!Suit::Spades.is_same_color_as(Suit::Joker));
}

#[test]
fn pile_is_last_in_first_out() {
    let mut pile = Pile::new();
    assert!(pile.top().is_none());
    assert_eq!(pile.draw().err(), Some(GameError::EmptyPile));
    pile.place_card_on_top(card(3, Suit::Spades));
    pile.place_card_on_top(card(12, Suit::Hearts));
    assert_eq!(pile.size(), 2);
    assert_eq!(pile.top().unwrap().value(), 12);
    assert_eq!(pile.royals_left(), 1);
    let drawn = pile.draw().unwrap();
    assert_eq!((drawn.value(), drawn.suit()), (12, Suit::Hearts));
    assert_eq!(pile.size(), 1);
    assert_eq!(pile.royals_left(), 0);
}

#[test]
fn piles_stack_above_and_below() {
    let mut pile = Pile::new();
    pile.place_card_on_top(card(5, Suit::Clubs));
    let mut above = Pile::new();
    above.place_card_on_top(card(6, Suit::Clubs));
    above.place_card_on_top(card(7, Suit::Clubs));
    pile.place_pile_on_top(above);
    let mut below = Pile::new();
    below.place_card_on_top(card(1, Suit::Hearts));
    below.place_card_on_top(card(2, Suit::Hearts));
    pile.place_pile_on_bottom(below);
    assert_eq!(pile.size(), 5);
    let mut order = Vec::new();
    while let Ok(c) = pile.draw() {
        order.push((c.value(), c.suit()));
    }
    assert_eq!(
        order,
        vec![
            (7, Suit::Clubs),
            (6, Suit::Clubs),
            (5, Suit::Clubs),
            (2, Suit::Hearts),
            (1, Suit::Hearts)
        ]
    );
}

#[test]
fn shuffled_deck_is_a_full_deck() {
    let mut deck = Pile::new_shuffled_deck();
    assert_eq!(deck.size(), 54);
    assert_eq!(deck.royals_left(), 12);
    let mut seen = Vec::new();
    while let Ok(c) = deck.draw() {
        seen.push((c.suit(), c.value()));
    }
    assert_eq!(seen.len(), 54);
    assert_eq!(seen.iter().filter(|c| c.0 == Suit::Joker).count(), 2);
    for suit in [Suit::Spades, Suit::Hearts, Suit::Clubs, Suit::Diamonds] {
        for value in 1..=13u8 {
            assert_eq!(seen.iter().filter(|c| **c == (suit, value)).count(), 1);
        }
    }
}

#[test]
fn shuffled_deck_is_not_in_build_order() {
    let mut build_order = Vec::new();
    for suit in [Suit::Spades, Suit::Hearts, Suit::Clubs, Suit::Diamonds] {
        for value in 1..=13u8 {
            build_order.push((suit, value));
        }
    }
    build_order.push((Suit::Joker, 0));
    build_order.push((Suit::Joker, 0));
    let mut deck = Pile::new_shuffled_deck();
    let mut seen = Vec::new();
    while let Ok(c) = deck.draw() {
        seen.push((c.suit(), c.value()));
    }
    seen.reverse();
    assert_ne!(seen, build_order);
}
