use vstd::prelude::*;
use vstd::rwlock::{RwLock, RwLockPredicate};

use crate::error::ElephantError;
use crate::state::{card_outcome, cards_outcome, deck_outcome, decks_well_formed, StoreView};
use crate::store::DeckStore;

verus! {

/// A flashcard: an identifier that is unique within its deck, and two faces.
pub struct Card {
    pub id: i64,
    pub front: String,
    pub back: String,
}

/// A named deck that owns an ordered sequence of cards.
pub struct Deck {
    pub id: i64,
    pub name: String,
    pub cards: Vec<Card>,
}

/// The content of a card to be created or edited.
pub struct CardPayload {
    pub front: String,
    pub back: String,
}

/// The content of a deck to be created or renamed.
pub struct DeckPayload {
    pub name: String,
}

/// Mathematical model of a [`Card`].
pub ghost struct CardView {
    pub id: i64,
    pub front: Seq<char>,
    pub back: Seq<char>,
}

/// Mathematical model of a [`Deck`].
pub ghost struct DeckView {
    pub id: i64,
    pub name: Seq<char>,
    pub cards: Seq<CardView>,
}

impl View for Card {
    type V = CardView;

    open spec fn view(&self) -> CardView {
        CardView { id: self.id, front: self.front@, back: self.back@ }
    }
}

/// The models of a sequence of cards, in order.
pub open spec fn cards_view(cards: Seq<Card>) -> Seq<CardView> {
    cards.map_values(|c: Card| c@)
}

/// The models of a sequence of decks, in order.
pub open spec fn decks_view(decks: Seq<Deck>) -> Seq<DeckView> {
    decks.map_values(|d: Deck| d@)
}

impl View for Deck {
    type V = DeckView;

    open spec fn view(&self) -> DeckView {
        DeckView { id: self.id, name: self.name@, cards: cards_view(self.cards@) }
    }
}

impl Clone for Card {
    fn clone(&self) -> (r: Self)
        ensures
            r@ == self@,
    {
        Card { id: self.id, front: self.front.clone(), back: self.back.clone() }
    }
}

/// Copies a sequence of cards one by one.
pub fn copy_cards(cards: &Vec<Card>) -> (r: Vec<Card>)
    ensures
        cards_view(r@) == cards_view(cards@),
{
    let mut r: Vec<Card> = Vec::new();
    let mut i: usize = 0;
    while i < cards.len()
        invariant
            i <= cards.len(),
            r@.len() == i,
            forall|j: int| 0 <= j < i ==> #[trigger] r@[j]@ == cards@[j]@,
        decreases cards.len() - i,
    {
        r.push(cards[i].clone());
        i = i + 1;
    }
    assert(cards_view(r@) =~= cards_view(cards@));
    r
}

impl Clone for Deck {
    fn clone(&self) -> (r: Self)
        ensures
            r@ == self@,
    {
        Deck { id: self.id, name: self.name.clone(), cards: copy_cards(&self.cards) }
    }
}

/// What the lock guarding a [`Model`] holds of its store at every release:
/// the store's invariant.
pub struct StoreInvariant {}

impl RwLockPredicate<DeckStore> for StoreInvariant {
    open spec fn inv(self, s: DeckStore) -> bool {
        s@.wf()
    }
}

/// The store shared by all request handlers.
///
/// Every operation takes the single lock over the whole store, runs one
/// [`DeckStore`] operation on it, and releases the lock before it returns, on
/// every path. Operations therefore take effect one at a time, each on a
/// well-formed store; the contracts say that each result is the one the
/// store's model gives on a well-formed state. Callers receive copies, never
/// references into the store.
pub struct Model {
    store: RwLock<DeckStore, StoreInvariant>,
}

impl Model {
    /// A shared store that holds `decks`, in the given order.
    pub fn new(decks: Vec<Deck>) -> (r: Model)
        requires
            decks_well_formed(decks_view(decks@)),
    {
        Model { store: RwLock::new(DeckStore::new(decks), Ghost(StoreInvariant {})) }
    }

    /// A copy of every deck, with its cards, in order.
    pub fn select_decks(&self) -> (r: Result<Vec<Deck>, ElephantError>)
        ensures
            r is Ok,
            r matches Ok(ds) ==> exists|s: StoreView| #[trigger] s.wf() && s.decks == decks_view(ds@),
    {
        let handle = self.store.acquire_read();
        let decks = handle.borrow().select_decks();
        let ghost s = handle.view()@;
        handle.release_read();
        assert(s.wf());
        Ok(decks)
    }

    /// A copy of the deck `deck_id`.
    pub fn select_deck(&self, deck_id: i64) -> (r: Result<Deck, ElephantError>)
        ensures
            exists|s: StoreView| #[trigger] s.wf() && s.get_deck(deck_id) == deck_outcome(r),
    {
        let handle = self.store.acquire_read();
        let r = handle.borrow().select_deck(deck_id);
        let ghost s = handle.view()@;
        handle.release_read();
        assert(s.wf());
        r
    }
    /// A copy of the cards of the deck `deck_id`, in order.
    pub fn select_cards(&self, deck_id: i64) -> (r: Result<Vec<Card>, ElephantError>)
        ensures
            exists|s: StoreView| #[trigger] s.wf() && s.get_cards(deck_id) == cards_outcome(r),
    {
        let handle = self.store.acquire_read();
        let r = handle.borrow().select_cards(deck_id);
        let ghost s = handle.view()@;
        handle.release_read();
        assert(s.wf());
        r
    }

    /// A copy of the card `card_id` of the deck `deck_id`.
    pub fn select_card(&self, deck_id: i64, card_id: i64) -> (r: Result<Card, ElephantError>)
        ensures
            exists|s: StoreView| #[trigger] s.wf() && s.get_card(deck_id, card_id) == card_outcome(r),
    {
        let handle = self.store.acquire_read();
        let r = handle.borrow().select_card(deck_id, card_id);
        let ghost s = handle.view()@;
        handle.release_read();
        assert(s.wf());
        r
    }

    /// Adds a card with the given faces to the end of the deck `deck_id`.
    /// Returns a copy of it, with the identifier it was given.
    pub fn insert_card(&self, card: CardPayload, deck_id: i64) -> (r: Result<Card, ElephantError>)
        ensures
            exists|s: StoreView|
                #[trigger] s.wf() && s.insert_card(deck_id, card.front@, card.back@).1 == card_outcome(r),
    {
        let ghost (front, back) = (card.front@, card.back@);
        let (mut store, handle) = self.store.acquire_write();
        let ghost s = store@;
        let r = store.insert_card(card, deck_id);
        handle.release_write(store);
        assert(s.insert_card(deck_id, front, back).1 == card_outcome(r));
        r
    }

    /// Replaces both faces of the card `card_id` of the deck `deck_id`.
    /// Returns a copy of the updated card.
    pub fn edit_card(&self, card: CardPayload, deck_id: i64, card_id: i64) -> (r: Result<
        Card,
        ElephantError,
    >)
        ensures
            exists|s: StoreView|
                #[trigger] s.wf() && s.edit_card(deck_id, card_id, card.front@, card.back@).1
                    == card_outcome(r),
    {
        let ghost (front, back) = (card.front@, card.back@);
        let (mut store, handle) = self.store.acquire_write();
        let ghost s = store@;
        let r = store.edit_card(card, deck_id, card_id);
        handle.release_write(store);
        assert(s.edit_card(deck_id, card_id, front, back).1 == card_outcome(r));
        r
    }

    /// Removes the card `card_id` from the deck `deck_id`. Returns the removed card.
    pub fn delete_card(&self, deck_id: i64, card_id: i64) -> (r: Result<Card, ElephantError>)
        ensures
            exists|s: StoreView| #[trigger] s.wf() && s.delete_card(deck_id, card_id).1 == card_outcome(r),
    {
        let (mut store, handle) = self.store.acquire_write();
        let ghost s = store@;
        let r = store.delete_card(deck_id, card_id);
        handle.release_write(store);
        assert(s.delete_card(deck_id, card_id).1 == card_outcome(r));
        r
    }

    /// Adds an empty deck with the given name. Returns a copy of it, with the
    /// identifier it was given.
    pub fn insert_deck(&self, deck: DeckPayload) -> (r: Result<Deck, ElephantError>)
        ensures
            exists|s: StoreView| #[trigger] s.wf() && s.insert_deck(deck.name@).1 == deck_outcome(r),
    {
        let ghost name = deck.name@;
        let (mut store, handle) = self.store.acquire_write();
        let ghost s = store@;
        let r = store.insert_deck(deck);
        handle.release_write(store);
        assert(s.insert_deck(name).1 == deck_outcome(r));
        r
    }

    /// Renames the deck `deck_id`. Returns a copy of it.
    pub fn edit_deck(&self, deck: DeckPayload, deck_id: i64) -> (r: Result<Deck, ElephantError>)
        ensures
            exists|s: StoreView| #[trigger] s.wf() && s.edit_deck(deck_id, deck.name@).1 == deck_outcome(r),
    {
        let ghost name = deck.name@;
        let (mut store, handle) = self.store.acquire_write();
        let ghost s = store@;
        let r = store.edit_deck(deck, deck_id);
        handle.release_write(store);
        assert(s.edit_deck(deck_id, name).1 == deck_outcome(r));
        r
    }

    /// Removes the deck `deck_id` together with its cards.
    pub fn delete_deck(&self, deck_id: i64) -> (r: Result<(), ElephantError>)
        ensures
            exists|s: StoreView| #[trigger] s.wf() && s.delete_deck(deck_id).1 == r,
    {
        let (mut store, handle) = self.store.acquire_write();
        let ghost s = store@;
        let r = store.delete_deck(deck_id);
        handle.release_write(store);
        assert(s.delete_deck(deck_id).1 == r);
        r
    }
}

} // verus!
