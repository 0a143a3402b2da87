//! The data each page or fragment of the user interface is rendered from.
use vstd::prelude::*;

use crate::model::{Card, Deck};

verus! {

/// The list of all decks.
pub struct DecksTemplate {
    pub decks: Vec<Deck>,
}

/// One deck with its cards.
pub struct DeckTemplate {
    pub deck: Deck,
}

/// One card, shown within the deck `deck_id`.
pub struct CardTemplate {
    pub deck_id: i64,
    pub card: Card,
}

/// The form that edits one card of the deck `deck_id`.
pub struct EditCardTemplate {
    pub deck_id: i64,
    pub card: Card,
}

} // verus!
