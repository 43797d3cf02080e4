use vstd::prelude::*;

verus! {

/// Errors reported by the engine.
#[derive(Debug, PartialEq, Eq, Structural, Clone, Copy)]
pub enum GameError {
    /// A card's value does not fit its suit.
    InvalidCard,
    /// A coordinate lies off the board or in one of its corners.
    InvalidCoordinate,
    /// A draw was attempted with no cards left in the deck.
    EmptyDeck,
    /// A card was taken from an empty pile.
    EmptyPile,
    /// A draw was attempted while a card is already held.
    AlreadyDrawn,
    /// A card was to be placed while none is held.
    NoDrawnCard,
    /// The held card may not go to the chosen position.
    IllegalPlacement,
}

} // verus!
