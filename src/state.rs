//! The mathematical model of the deck store: its state, its invariant, and
//! what each operation does to it.
use vstd::prelude::*;

use crate::error::ElephantError;
use crate::model::{cards_view, Card, CardView, Deck, DeckView};

verus! {

/// An identifier counter `next` covers `id` when `id` was handed out before it:
/// either `id < next`, or the counter is spent (`i64::MAX`, nothing more to hand out).
pub open spec fn covered(id: i64, next: i64) -> bool {
    id < next || next == i64::MAX
}

impl DeckView {
    /// The deck holds a card with identifier `id`.
    pub open spec fn has_card(self, id: i64) -> bool {
        exists|k: int| 0 <= k < self.cards.len() && (#[trigger] self.cards[k]).id == id
    }

    /// The position of the card with identifier `id` (meaningful when `has_card(id)`).
    pub open spec fn card_index(self, id: i64) -> int {
        choose|k: int| 0 <= k < self.cards.len() && (#[trigger] self.cards[k]).id == id
    }

    /// No two cards of the deck share an identifier.
    pub open spec fn card_ids_unique(self) -> bool {
        forall|j: int, k: int|
            #![trigger self.cards[j], self.cards[k]]
            0 <= j < self.cards.len() && 0 <= k < self.cards.len() && j != k
                ==> self.cards[j].id != self.cards[k].id
    }
}

/// Deck identifiers are pairwise distinct, and so are card identifiers within
/// each deck: what an initial list of decks must satisfy.
pub open spec fn decks_well_formed(decks: Seq<DeckView>) -> bool {
    &&& forall|i: int, j: int|
        #![trigger decks[i], decks[j]]
        0 <= i < decks.len() && 0 <= j < decks.len() && i != j ==> decks[i].id != decks[j].id
    &&& forall|i: int| 0 <= i < decks.len() ==> (#[trigger] decks[i]).card_ids_unique()
}

/// Mathematical model of the store: its decks in order, the next card
/// identifier of each deck (same positions as `decks`), and the next deck
/// identifier.
pub ghost struct StoreView {
    pub decks: Seq<DeckView>,
    pub next_card_ids: Seq<i64>,
    pub next_deck_id: i64,
}

impl StoreView {
    /// The store's invariant: unique identifiers, each covered by its counter.
    pub open spec fn wf(self) -> bool {
        &&& self.next_card_ids.len() == self.decks.len()
        &&& decks_well_formed(self.decks)
        &&& forall|i: int| 0 <= i < self.decks.len() ==> covered((#[trigger] self.decks[i]).id, self.next_deck_id)
        &&& forall|i: int, k: int|
            0 <= i < self.decks.len() && 0 <= k < self.decks[i].cards.len()
                ==> covered((#[trigger] self.decks[i].cards[k]).id, self.next_card_ids[i])
    }

    /// The store holds a deck with identifier `id`.
    pub open spec fn has_deck(self, id: i64) -> bool {
        exists|i: int| 0 <= i < self.decks.len() && (#[trigger] self.decks[i]).id == id
    }

    /// The position of the deck with identifier `id` (meaningful when `has_deck(id)`).
    pub open spec fn deck_index(self, id: i64) -> int {
        choose|i: int| 0 <= i < self.decks.len() && (#[trigger] self.decks[i]).id == id
    }

    /// The deck with identifier `id` (meaningful when `has_deck(id)`).
    pub open spec fn deck(self, id: i64) -> DeckView {
        self.decks[self.deck_index(id)]
    }

    /// Looking up a deck.
    pub open spec fn get_deck(self, deck_id: i64) -> Result<DeckView, ElephantError> {
        if self.has_deck(deck_id) {
            Ok(self.deck(deck_id))
        } else {
            Err(ElephantError::DeckNotFound)
        }
    }

    /// Listing the cards of a deck.
    pub open spec fn get_cards(self, deck_id: i64) -> Result<Seq<CardView>, ElephantError> {
        if self.has_deck(deck_id) {
            Ok(self.deck(deck_id).cards)
        } else {
            Err(ElephantError::DeckNotFound)
        }
    }

    /// Looking up a card of a deck.
    pub open spec fn get_card(self, deck_id: i64, card_id: i64) -> Result<CardView, ElephantError> {
        if !self.has_deck(deck_id) {
            Err(ElephantError::DeckNotFound)
        } else if !self.deck(deck_id).has_card(card_id) {
            Err(ElephantError::CardNotFound)
        } else {
            let d = self.deck(deck_id);
            Ok(d.cards[d.card_index(card_id)])
        }
    }

    /// Replaces the deck at position `i`, keeping the counters.
    pub open spec fn with_deck(self, i: int, d: DeckView) -> StoreView {
        StoreView { decks: self.decks.update(i, d), ..self }
    }

    /// Adding a card to a deck: it gets the deck's next card identifier and
    /// goes to the end of the deck.
    pub open spec fn insert_card(self, deck_id: i64, front: Seq<char>, back: Seq<char>) -> (
        StoreView,
        Result<CardView, ElephantError>,
    ) {
        if !self.has_deck(deck_id) {
            (self, Err(ElephantError::DeckNotFound))
        } else {
            let i = self.deck_index(deck_id);
            let next = self.next_card_ids[i];
            if next == i64::MAX {
                (self, Err(ElephantError::IdsExhausted))
            } else {
                let c = CardView { id: next, front, back };
                let d = self.decks[i];
                (
                    StoreView {
                        decks: self.decks.update(i, DeckView { cards: d.cards.push(c), ..d }),
                        next_card_ids: self.next_card_ids.update(i, (next + 1) as i64),
                        next_deck_id: self.next_deck_id,
                    },
                    Ok(c),
                )
            }
        }
    }

    /// Replacing both faces of a card, in place; its identifier stays.
    pub open spec fn edit_card(
        self,
        deck_id: i64,
        card_id: i64,
        front: Seq<char>,
        back: Seq<char>,
    ) -> (StoreView, Result<CardView, ElephantError>) {
        if !self.has_deck(deck_id) {
            (self, Err(ElephantError::DeckNotFound))
        } else if !self.deck(deck_id).has_card(card_id) {
            (self, Err(ElephantError::CardNotFound))
        } else {
            let i = self.deck_index(deck_id);
            let d = self.decks[i];
            let c = CardView { id: card_id, front, back };
            (self.with_deck(i, DeckView { cards: d.cards.update(d.card_index(card_id), c), ..d }), Ok(c))
        }
    }

    /// Removing a card from its deck; the cards after it keep their order
    /// and their identifiers.
    pub open spec fn delete_card(self, deck_id: i64, card_id: i64) -> (
        StoreView,
        Result<CardView, ElephantError>,
    ) {
        if !self.has_deck(deck_id) {
            (self, Err(ElephantError::DeckNotFound))
        } else if !self.deck(deck_id).has_card(card_id) {
            (self, Err(ElephantError::CardNotFound))
        } else {
            let i = self.deck_index(deck_id);
            let d = self.decks[i];
            let k = d.card_index(card_id);
            (self.with_deck(i, DeckView { cards: d.cards.remove(k), ..d }), Ok(d.cards[k]))
        }
    }

    /// Adding an empty deck: it gets the next deck identifier and goes to the end.
    pub open spec fn insert_deck(self, name: Seq<char>) -> (StoreView, Result<DeckView, ElephantError>) {
        if self.next_deck_id == i64::MAX {
            (self, Err(ElephantError::IdsExhausted))
        } else {
            let d = DeckView { id: self.next_deck_id, name, cards: Seq::empty() };
            (
                StoreView {
                    decks: self.decks.push(d),
                    next_card_ids: self.next_card_ids.push(0),
                    next_deck_id: (self.next_deck_id + 1) as i64,
                },
                Ok(d),
            )
        }
    }

    /// Renaming a deck.
    pub open spec fn edit_deck(self, deck_id: i64, name: Seq<char>) -> (
        StoreView,
        Result<DeckView, ElephantError>,
    ) {
        if !self.has_deck(deck_id) {
            (self, Err(ElephantError::DeckNotFound))
        } else {
            let i = self.deck_index(deck_id);
            let d = DeckView { name, ..self.decks[i] };
            (self.with_deck(i, d), Ok(d))
        }
    }

    /// Removing a deck together with its cards.
    pub open spec fn delete_deck(self, deck_id: i64) -> (StoreView, Result<(), ElephantError>) {
        if !self.has_deck(deck_id) {
            (self, Err(ElephantError::DeckNotFound))
        } else {
            let i = self.deck_index(deck_id);
            (
                StoreView {
                    decks: self.decks.remove(i),
                    next_card_ids: self.next_card_ids.remove(i),
                    next_deck_id: self.next_deck_id,
                },
                Ok(()),
            )
        }
    }
}

/// The counter after it has seen identifier `id`: past `id`, and never lower
/// than before (stuck at `i64::MAX` once that is reached).
pub open spec fn advance(next: i64, id: i64) -> i64 {
    if id < next {
        next
    } else if id < i64::MAX {
        (id + 1) as i64
    } else {
        i64::MAX
    }
}

/// The first counter value, counting up from 0, that covers every identifier
/// of `ids`.
pub open spec fn next_id_after(ids: Seq<i64>) -> i64
    decreases ids.len(),
{
    if ids.len() == 0 {
        0
    } else {
        advance(next_id_after(ids.drop_last()), ids.last())
    }
}

/// The identifiers of a sequence of decks, in order.
pub open spec fn deck_ids(decks: Seq<DeckView>) -> Seq<i64> {
    decks.map_values(|d: DeckView| d.id)
}

/// The identifiers of a sequence of cards, in order.
pub open spec fn card_ids(cards: Seq<CardView>) -> Seq<i64> {
    cards.map_values(|c: CardView| c.id)
}

/// `next_id_after` covers every identifier it was computed from.
pub proof fn lemma_next_id_covers(ids: Seq<i64>)
    ensures
        forall|k: int| 0 <= k < ids.len() ==> covered(#[trigger] ids[k], next_id_after(ids)),
    decreases ids.len(),
{
    if ids.len() > 0 {
        let pre = ids.drop_last();
        lemma_next_id_covers(pre);
        assert forall|k: int| 0 <= k < ids.len() implies covered(#[trigger] ids[k], next_id_after(ids)) by {
            if k < pre.len() {
                assert(ids[k] == pre[k]);
            }
        }
    }
}

/// Adding a card keeps the store's invariant.
pub proof fn lemma_insert_card_wf(s: StoreView, deck_id: i64, front: Seq<char>, back: Seq<char>)
    requires
        s.wf(),
    ensures
        s.insert_card(deck_id, front, back).0.wf(),
{
    if s.has_deck(deck_id) {
        let i = s.deck_index(deck_id);
        let next = s.next_card_ids[i];
        if next != i64::MAX {
            let t = s.insert_card(deck_id, front, back).0;
            let d = t.decks[i];
            assert forall|j: int, k: int|
                #![trigger d.cards[j], d.cards[k]]
                0 <= j < d.cards.len() && 0 <= k < d.cards.len() && j != k
                    implies d.cards[j].id != d.cards[k].id by {
                if j < s.decks[i].cards.len() {
                    assert(covered(s.decks[i].cards[j].id, next));
                }
                if k < s.decks[i].cards.len() {
                    assert(covered(s.decks[i].cards[k].id, next));
                }
            }
            assert forall|m: int, k: int|
                0 <= m < t.decks.len() && 0 <= k < t.decks[m].cards.len()
                    implies covered((#[trigger] t.decks[m].cards[k]).id, t.next_card_ids[m]) by {
                if m == i && k < s.decks[i].cards.len() {
                    assert(covered(s.decks[i].cards[k].id, next));
                }
            }
        }
    }
}

/// Editing a card keeps the store's invariant.
pub proof fn lemma_edit_card_wf(
    s: StoreView,
    deck_id: i64,
    card_id: i64,
    front: Seq<char>,
    back: Seq<char>,
)
    requires
        s.wf(),
    ensures
        s.edit_card(deck_id, card_id, front, back).0.wf(),
{
    if s.has_deck(deck_id) && s.deck(deck_id).has_card(card_id) {
        let i = s.deck_index(deck_id);
        let old_d = s.decks[i];
        let t = s.edit_card(deck_id, card_id, front, back).0;
        let d = t.decks[i];
        let x = old_d.card_index(card_id);
        assert(old_d.cards[x].id == card_id);
        assert forall|j: int, k: int|
            #![trigger d.cards[j], d.cards[k]]
            0 <= j < d.cards.len() && 0 <= k < d.cards.len() && j != k
                implies d.cards[j].id != d.cards[k].id by {
            assert(old_d.cards[j].id == d.cards[j].id);
            assert(old_d.cards[k].id == d.cards[k].id);
        }
        assert forall|m: int, k: int|
            0 <= m < t.decks.len() && 0 <= k < t.decks[m].cards.len()
                implies covered((#[trigger] t.decks[m].cards[k]).id, t.next_card_ids[m]) by {
            assert(s.decks[m].cards[k].id == t.decks[m].cards[k].id);
        }
    }
}

/// Removing a card keeps the store's invariant.
pub proof fn lemma_delete_card_wf(s: StoreView, deck_id: i64, card_id: i64)
    requires
        s.wf(),
    ensures
        s.delete_card(deck_id, card_id).0.wf(),
{
    if s.has_deck(deck_id) && s.deck(deck_id).has_card(card_id) {
        let i = s.deck_index(deck_id);
        let old_d = s.decks[i];
        let t = s.delete_card(deck_id, card_id).0;
        let d = t.decks[i];
        let x = old_d.card_index(card_id);
        assert forall|j: int, k: int|
            #![trigger d.cards[j], d.cards[k]]
            0 <= j < d.cards.len() && 0 <= k < d.cards.len() && j != k
                implies d.cards[j].id != d.cards[k].id by {
            let oj = if j < x { j } else { j + 1 };
            let ok = if k < x { k } else { k + 1 };
            assert(old_d.cards[oj] == d.cards[j]);
            assert(old_d.cards[ok] == d.cards[k]);
        }
        assert forall|m: int, k: int|
            0 <= m < t.decks.len() && 0 <= k < t.decks[m].cards.len()
                implies covered((#[trigger] t.decks[m].cards[k]).id, t.next_card_ids[m]) by {
            if m == i {
                let ok = if k < x { k } else { k + 1 };
                assert(old_d.cards[ok] == d.cards[k]);
            }
        }
    }
}

/// Adding a deck keeps the store's invariant.
pub proof fn lemma_insert_deck_wf(s: StoreView, name: Seq<char>)
    requires
        s.wf(),
    ensures
        s.insert_deck(name).0.wf(),
{
    if s.next_deck_id != i64::MAX {
        let t = s.insert_deck(name).0;
        assert forall|i: int, j: int|
            #![trigger t.decks[i], t.decks[j]]
            0 <= i < t.decks.len() && 0 <= j < t.decks.len() && i != j
                implies t.decks[i].id != t.decks[j].id by {
            if i < s.decks.len() {
                assert(covered(s.decks[i].id, s.next_deck_id));
            }
            if j < s.decks.len() {
                assert(covered(s.decks[j].id, s.next_deck_id));
            }
        }
        assert forall|i: int| 0 <= i < t.decks.len() implies (#[trigger] t.decks[i]).card_ids_unique() by {
            if i < s.decks.len() {
                assert(s.decks[i].card_ids_unique());
            }
        }
        assert forall|i: int| 0 <= i < t.decks.len() implies covered((#[trigger] t.decks[i]).id, t.next_deck_id) by {
            if i < s.decks.len() {
                assert(covered(s.decks[i].id, s.next_deck_id));
            }
        }
        assert forall|m: int, k: int|
            0 <= m < t.decks.len() && 0 <= k < t.decks[m].cards.len()
                implies covered((#[trigger] t.decks[m].cards[k]).id, t.next_card_ids[m]) by {
            assert(m < s.decks.len());
            assert(s.decks[m].cards[k] == t.decks[m].cards[k]);
        }
    }
}

/// Renaming a deck keeps the store's invariant.
pub proof fn lemma_edit_deck_wf(s: StoreView, deck_id: i64, name: Seq<char>)
    requires
        s.wf(),
    ensures
        s.edit_deck(deck_id, name).0.wf(),
{
    if s.has_deck(deck_id) {
        let i = s.deck_index(deck_id);
        let t = s.edit_deck(deck_id, name).0;
        assert forall|a: int, b: int|
            #![trigger t.decks[a], t.decks[b]]
            0 <= a < t.decks.len() && 0 <= b < t.decks.len() && a != b
                implies t.decks[a].id != t.decks[b].id by {
            assert(s.decks[a].id == t.decks[a].id);
            assert(s.decks[b].id == t.decks[b].id);
        }
        assert forall|a: int| 0 <= a < t.decks.len() implies (#[trigger] t.decks[a]).card_ids_unique() by {
            assert(s.decks[a].card_ids_unique());
            assert(s.decks[a].cards == t.decks[a].cards);
        }
        assert forall|a: int| 0 <= a < t.decks.len() implies covered((#[trigger] t.decks[a]).id, t.next_deck_id) by {
            assert(s.decks[a].id == t.decks[a].id);
        }
        assert forall|m: int, k: int|
            0 <= m < t.decks.len() && 0 <= k < t.decks[m].cards.len()
                implies covered((#[trigger] t.decks[m].cards[k]).id, t.next_card_ids[m]) by {
            assert(s.decks[m].cards == t.decks[m].cards);
        }
    }
}

/// Removing a deck keeps the store's invariant.
pub proof fn lemma_delete_deck_wf(s: StoreView, deck_id: i64)
    requires
        s.wf(),
    ensures
        s.delete_deck(deck_id).0.wf(),
{
    if s.has_deck(deck_id) {
        let x = s.deck_index(deck_id);
        let t = s.delete_deck(deck_id).0;
        assert forall|a: int, b: int|
            #![trigger t.decks[a], t.decks[b]]
            0 <= a < t.decks.len() && 0 <= b < t.decks.len() && a != b
                implies t.decks[a].id != t.decks[b].id by {
            let oa = if a < x { a } else { a + 1 };
            let ob = if b < x { b } else { b + 1 };
            assert(s.decks[oa] == t.decks[a]);
            assert(s.decks[ob] == t.decks[b]);
        }
        assert forall|a: int| 0 <= a < t.decks.len() implies (#[trigger] t.decks[a]).card_ids_unique() by {
            let oa = if a < x { a } else { a + 1 };
            assert(s.decks[oa] == t.decks[a]);
            assert(s.decks[oa].card_ids_unique());
        }
        assert forall|a: int| 0 <= a < t.decks.len() implies covered((#[trigger] t.decks[a]).id, t.next_deck_id) by {
            let oa = if a < x { a } else { a + 1 };
            assert(s.decks[oa] == t.decks[a]);
        }
        assert forall|m: int, k: int|
            0 <= m < t.decks.len() && 0 <= k < t.decks[m].cards.len()
                implies covered((#[trigger] t.decks[m].cards[k]).id, t.next_card_ids[m]) by {
            let om = if m < x { m } else { m + 1 };
            assert(s.decks[om] == t.decks[m]);
            assert(s.next_card_ids[om] == t.next_card_ids[m]);
            assert(covered(s.decks[om].cards[k].id, s.next_card_ids[om]));
        }
    }
}

/// The model of a lookup's outcome for a single card.
pub open spec fn card_outcome(r: Result<Card, ElephantError>) -> Result<CardView, ElephantError> {
    match r {
        Ok(c) => Ok(c@),
        Err(e) => Err(e),
    }
}

/// The model of a lookup's outcome for a deck.
pub open spec fn deck_outcome(r: Result<Deck, ElephantError>) -> Result<DeckView, ElephantError> {
    match r {
        Ok(d) => Ok(d@),
        Err(e) => Err(e),
    }
}

/// The model of a lookup's outcome for the cards of a deck.
pub open spec fn cards_outcome(r: Result<Vec<Card>, ElephantError>) -> Result<
    Seq<CardView>,
    ElephantError,
> {
    match r {
        Ok(cs) => Ok(cards_view(cs@)),
        Err(e) => Err(e),
    }
}

} // verus!
