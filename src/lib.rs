//! An in-memory store of flashcard decks, shared by concurrent request
//! handlers under one lock, with every operation stated and proved against a
//! mathematical model of the store.
//!
//! - [`store::DeckStore`] holds the decks and performs each operation; its
//!   contracts state the exact outcome over [`state::StoreView`], the
//!   store's mathematical model.
//! - [`model::Model`] shares a `DeckStore` behind a single lock.
//! - [`laws`] proves properties that relate several operations.
pub mod error;
pub mod laws;
pub mod model;
pub mod state;
pub mod store;
pub mod templates;

pub use error::ElephantError;
pub use model::{Card, CardPayload, Deck, DeckPayload, Model};
pub use store::{decks_are_well_formed, DeckStore};
pub use templates::{CardTemplate, DeckTemplate, DecksTemplate, EditCardTemplate};
