//! The executable deck store, proved to follow its model in `state`.
use vstd::prelude::*;

use crate::error::ElephantError;
use crate::model::{
    cards_view, copy_cards, decks_view, Card, CardPayload, CardView, Deck, DeckPayload,
};
use crate::state::{
    advance, card_ids, card_outcome, cards_outcome, covered, deck_ids, deck_outcome,
    decks_well_formed, lemma_delete_card_wf, lemma_delete_deck_wf, lemma_edit_card_wf,
    lemma_edit_deck_wf, lemma_insert_card_wf, lemma_insert_deck_wf, lemma_next_id_covers,
    next_id_after, StoreView,
};

verus! {

/// The decks and cards of the application, kept in memory.
///
/// Decks keep the order in which they were added; so do the cards of a deck.
/// Identifiers come from counters that only grow, so an identifier is never
/// handed out twice: a deck's next card identifier, and the store's next deck
/// identifier.
pub struct DeckStore {
    decks: Vec<Deck>,
    next_card_ids: Vec<i64>,
    next_deck_id: i64,
}

impl View for DeckStore {
    type V = StoreView;

    closed spec fn view(&self) -> StoreView {
        StoreView {
            decks: decks_view(self.decks@),
            next_card_ids: self.next_card_ids@,
            next_deck_id: self.next_deck_id,
        }
    }
}

/// Position of the card with identifier `id` in `cards`, if any.
fn find_card(cards: &Vec<Card>, id: i64) -> (r: Option<usize>)
    ensures
        match r {
            Some(k) => k < cards@.len() && cards@[k as int].id == id,
            None => forall|k: int| 0 <= k < cards@.len() ==> cards@[k].id != id,
        },
{
    let mut k: usize = 0;
    while k < cards.len()
        invariant
            k <= cards@.len(),
            forall|j: int| 0 <= j < k ==> cards@[j].id != id,
        decreases cards.len() - k,
    {
        if cards[k].id == id {
            return Some(k);
        }
        k = k + 1;
    }
    None
}

/// Exec counterpart of `advance`.
fn advance_counter(next: i64, id: i64) -> (r: i64)
    ensures
        r == advance(next, id),
{
    if id < next {
        next
    } else if id < i64::MAX {
        id + 1
    } else {
        i64::MAX
    }
}

/// The next card identifier for a deck holding `cards`.
fn next_card_id_of(cards: &Vec<Card>) -> (r: i64)
    ensures
        r == next_id_after(card_ids(cards_view(cards@))),
{
    let ghost ids = card_ids(cards_view(cards@));
    let mut n: i64 = 0;
    let mut i: usize = 0;
    while i < cards.len()
        invariant
            i <= cards@.len(),
            ids == card_ids(cards_view(cards@)),
            n == next_id_after(ids.take(i as int)),
        decreases cards.len() - i,
    {
        proof {
            assert(ids.take(i + 1).drop_last() =~= ids.take(i as int));
        }
        n = advance_counter(n, cards[i].id);
        i = i + 1;
    }
    assert(ids.take(cards@.len() as int) =~= ids);
    n
}

/// The next deck identifier for a store holding `decks`.
fn next_deck_id_of(decks: &Vec<Deck>) -> (r: i64)
    ensures
        r == next_id_after(deck_ids(decks_view(decks@))),
{
    let ghost ids = deck_ids(decks_view(decks@));
    let mut n: i64 = 0;
    let mut i: usize = 0;
    while i < decks.len()
        invariant
            i <= decks@.len(),
            ids == deck_ids(decks_view(decks@)),
            n == next_id_after(ids.take(i as int)),
        decreases decks.len() - i,
    {
        proof {
            assert(ids.take(i + 1).drop_last() =~= ids.take(i as int));
        }
        n = advance_counter(n, decks[i].id);
        i = i + 1;
    }
    assert(ids.take(decks@.len() as int) =~= ids);
    n
}

/// Whether the cards of `deck` have pairwise distinct identifiers.
fn card_ids_distinct(deck: &Deck) -> (r: bool)
    ensures
        r == deck@.card_ids_unique(),
{
    let ghost cs = deck@.cards;
    let n = deck.cards.len();
    let mut j: usize = 0;
    while j < n
        invariant
            j <= n,
            n == cs.len(),
            cs == deck@.cards,
            forall|a: int, b: int|
                #![trigger cs[a], cs[b]]
                0 <= a < j && 0 <= b < j && a != b ==> cs[a].id != cs[b].id,
        decreases n - j,
    {
        let mut k: usize = 0;
        while k < j
            invariant
                k <= j,
                j < n,
                n == cs.len(),
                cs == deck@.cards,
                forall|a: int, b: int|
                    #![trigger cs[a], cs[b]]
                    0 <= a < j && 0 <= b < j && a != b ==> cs[a].id != cs[b].id,
                forall|b: int| 0 <= b < k ==> (#[trigger] cs[b]).id != cs[j as int].id,
            decreases j - k,
        {
            assert(cs[k as int] == deck.cards@[k as int]@);
            assert(cs[j as int] == deck.cards@[j as int]@);
            if deck.cards[k].id == deck.cards[j].id {
                return false;
            }
            k = k + 1;
        }
        j = j + 1;
    }
    true
}

/// Whether `decks` may serve as the initial content of a store: deck
/// identifiers pairwise distinct, and card identifiers distinct within each deck.
pub fn decks_are_well_formed(decks: &Vec<Deck>) -> (r: bool)
    ensures
        r == decks_well_formed(decks_view(decks@)),
{
    let ghost ds = decks_view(decks@);
    let n = decks.len();
    let mut j: usize = 0;
    while j < n
        invariant
            j <= n,
            n == ds.len(),
            ds == decks_view(decks@),
            forall|a: int, b: int|
                #![trigger ds[a], ds[b]]
                0 <= a < j && 0 <= b < j && a != b ==> ds[a].id != ds[b].id,
            forall|a: int| 0 <= a < j ==> (#[trigger] ds[a]).card_ids_unique(),
        decreases n - j,
    {
        assert(ds[j as int] == decks@[j as int]@);
        if !card_ids_distinct(&decks[j]) {
            return false;
        }
        let mut k: usize = 0;
        while k < j
            invariant
                k <= j,
                j < n,
                n == ds.len(),
                ds == decks_view(decks@),
                forall|a: int, b: int|
                    #![trigger ds[a], ds[b]]
                    0 <= a < j && 0 <= b < j && a != b ==> ds[a].id != ds[b].id,
                forall|b: int| 0 <= b < k ==> (#[trigger] ds[b]).id != ds[j as int].id,
            decreases j - k,
        {
            assert(ds[k as int] == decks@[k as int]@);
            assert(ds[j as int] == decks@[j as int]@);
            if decks[k].id == decks[j].id {
                return false;
            }
            k = k + 1;
        }
        j = j + 1;
    }
    true
}

impl DeckStore {

    /// A store that holds `decks`, in the given order. Each counter starts
    /// past the identifiers it covers, so identifiers already in use are
    /// never handed out.
    pub fn new(decks: Vec<Deck>) -> (r: DeckStore)
        requires
            decks_well_formed(decks_view(decks@)),
        ensures
            r@.wf(),
            r@.decks == decks_view(decks@),
            r@.next_deck_id == next_id_after(deck_ids(r@.decks)),
            r@.next_card_ids.len() == r@.decks.len(),
            forall|i: int|
                0 <= i < r@.decks.len() ==> #[trigger] r@.next_card_ids[i] == next_id_after(
                    card_ids(r@.decks[i].cards),
                ),
    {
        let mut next_card_ids: Vec<i64> = Vec::new();
        let mut i: usize = 0;
        while i < decks.len()
            invariant
                i <= decks@.len(),
                next_card_ids@.len() == i,
                forall|j: int|
                    0 <= j < i ==> #[trigger] next_card_ids@[j] == next_id_after(
                        card_ids(cards_view(decks@[j].cards@)),
                    ),
            decreases decks.len() - i,
        {
            next_card_ids.push(next_card_id_of(&decks[i].cards));
            i = i + 1;
        }
        let next_deck_id = next_deck_id_of(&decks);
        let r = DeckStore { decks, next_card_ids, next_deck_id };
        proof {
            let v = r@;
            lemma_next_id_covers(deck_ids(v.decks));
            assert forall|a: int| 0 <= a < v.decks.len() implies covered((#[trigger] v.decks[a]).id, v.next_deck_id) by {
                assert(deck_ids(v.decks)[a] == v.decks[a].id);
            }
            assert forall|m: int, k: int|
                0 <= m < v.decks.len() && 0 <= k < v.decks[m].cards.len()
                    implies covered((#[trigger] v.decks[m].cards[k]).id, v.next_card_ids[m]) by {
                lemma_next_id_covers(card_ids(v.decks[m].cards));
                assert(card_ids(v.decks[m].cards)[k] == v.decks[m].cards[k].id);
            }
        }
        r
    }
    /// Position of the deck with identifier `id`, if any.
    fn find_deck(&self, id: i64) -> (r: Option<usize>)
        requires
            self@.wf(),
        ensures
            match r {
                Some(i) => {
                    &&& self@.has_deck(id)
                    &&& i < self.decks@.len()
                    &&& self@.deck_index(id) == i
                },
                None => !self@.has_deck(id),
            },
    {
        let mut i: usize = 0;
        while i < self.decks.len()
            invariant
                self@.wf(),
                i <= self.decks@.len(),
                forall|j: int| 0 <= j < i ==> self.decks@[j].id != id,
            decreases self.decks.len() - i,
        {
            if self.decks[i].id == id {
                proof {
                    assert(self@.decks[i as int].id == id);
                    let j = self@.deck_index(id);
                    assert(self@.decks[j].id == id);

                }
                return Some(i);
            }
            i = i + 1;
        }
        proof {
            assert forall|j: int| 0 <= j < self@.decks.len() implies self@.decks[j].id != id by {
                assert(self@.decks[j] == self.decks@[j]@);
            }
        }
        None
    }

    /// Position of the card `card_id` in the deck at position `i`, if any.
    fn find_card_in(&self, i: usize, card_id: i64) -> (r: Option<usize>)
        requires
            self@.wf(),
            i < self.decks@.len(),
        ensures
            match r {
                Some(k) => {
                    &&& self@.decks[i as int].has_card(card_id)
                    &&& k < self.decks@[i as int].cards@.len()
                    &&& self@.decks[i as int].card_index(card_id) == k
                },
                None => !self@.decks[i as int].has_card(card_id),
            },
    {
        let ghost d = self@.decks[i as int];
        assert(d.cards == cards_view(self.decks@[i as int].cards@));
        let r = find_card(&self.decks[i].cards, card_id);
        proof {
            match r {
                Some(k) => {
                    assert(d.cards[k as int].id == card_id);
                    assert(d.card_ids_unique());
                    let j = d.card_index(card_id);
                    assert(d.cards[j].id == card_id);
                },
                None => {
                    assert forall|k: int| 0 <= k < d.cards.len() implies d.cards[k].id != card_id by {
                        assert(d.cards[k] == self.decks@[i as int].cards@[k]@);
                    }
                },
            }
        }
        r
    }

    /// A copy of every deck, with its cards, in order.
    pub fn select_decks(&self) -> (r: Vec<Deck>)
        ensures
            decks_view(r@) == self@.decks,
    {
        let mut r: Vec<Deck> = Vec::new();
        let mut i: usize = 0;
        while i < self.decks.len()
            invariant
                i <= self.decks@.len(),
                r@.len() == i,
                forall|j: int| 0 <= j < i ==> #[trigger] r@[j]@ == self.decks@[j]@,
            decreases self.decks.len() - i,
        {
            r.push(self.decks[i].clone());
            i = i + 1;
        }
        assert(decks_view(r@) =~= self@.decks);
        r
    }

    /// A copy of the deck `deck_id`.
    pub fn select_deck(&self, deck_id: i64) -> (r: Result<Deck, ElephantError>)
        requires
            self@.wf(),
        ensures
            deck_outcome(r) == self@.get_deck(deck_id),
    {
        match self.find_deck(deck_id) {
            None => Err(ElephantError::DeckNotFound),
            Some(i) => Ok(self.decks[i].clone()),
        }
    }

    /// A copy of the cards of the deck `deck_id`, in order.
    pub fn select_cards(&self, deck_id: i64) -> (r: Result<Vec<Card>, ElephantError>)
        requires
            self@.wf(),
        ensures
            cards_outcome(r) == self@.get_cards(deck_id),
    {
        match self.find_deck(deck_id) {
            None => Err(ElephantError::DeckNotFound),
            Some(i) => Ok(copy_cards(&self.decks[i].cards)),
        }
    }

    /// A copy of the card `card_id` of the deck `deck_id`.
    pub fn select_card(&self, deck_id: i64, card_id: i64) -> (r: Result<Card, ElephantError>)
        requires
            self@.wf(),
        ensures
            card_outcome(r) == self@.get_card(deck_id, card_id),
    {
        match self.find_deck(deck_id) {
            None => Err(ElephantError::DeckNotFound),
            Some(i) => match self.find_card_in(i, card_id) {
                None => Err(ElephantError::CardNotFound),
                Some(k) => Ok(self.decks[i].cards[k].clone()),
            },
        }
    }


    /// Adds a card with the given faces to the end of the deck `deck_id`;
    /// it gets the deck's next card identifier. Returns a copy of it.
    pub fn insert_card(&mut self, card: CardPayload, deck_id: i64) -> (r: Result<Card, ElephantError>)
        requires
            old(self)@.wf(),
        ensures
            final(self)@.wf(),
            (final(self)@, card_outcome(r)) == old(self)@.insert_card(deck_id, card.front@, card.back@),
    {
        proof {
            lemma_insert_card_wf(self@, deck_id, card.front@, card.back@);
        }
        match self.find_deck(deck_id) {
            None => Err(ElephantError::DeckNotFound),
            Some(i) => {
                let next = self.next_card_ids[i];
                if next == i64::MAX {
                    return Err(ElephantError::IdsExhausted);
                }
                let ghost before = self@;
                let ghost old_cards = self.decks@[i as int].cards@;
                let c = Card { id: next, front: card.front, back: card.back };
                let copy = c.clone();
                self.decks[i].cards.push(c);
                self.next_card_ids[i] = next + 1;
                proof {
                    assert(cards_view(self.decks@[i as int].cards@) =~= cards_view(old_cards).push(copy@));
                    assert(self@.decks =~= before.insert_card(deck_id, card.front@, card.back@).0.decks);
                    assert(self@.next_card_ids =~= before.insert_card(deck_id, card.front@, card.back@).0.next_card_ids);
                }
                Ok(copy)
            },
        }
    }


    /// Replaces both faces of the card `card_id` of the deck `deck_id`, in
    /// place. Returns a copy of the updated card.
    pub fn edit_card(&mut self, card: CardPayload, deck_id: i64, card_id: i64) -> (r: Result<
        Card,
        ElephantError,
    >)
        requires
            old(self)@.wf(),
        ensures
            final(self)@.wf(),
            (final(self)@, card_outcome(r)) == old(self)@.edit_card(
                deck_id,
                card_id,
                card.front@,
                card.back@,
            ),
    {
        proof {
            lemma_edit_card_wf(self@, deck_id, card_id, card.front@, card.back@);
        }
        match self.find_deck(deck_id) {
            None => Err(ElephantError::DeckNotFound),
            Some(i) => match self.find_card_in(i, card_id) {
                None => Err(ElephantError::CardNotFound),
                Some(k) => {
                    let ghost before = self@;
                    let ghost old_cards = self.decks@[i as int].cards@;
                    let c = Card { id: card_id, front: card.front, back: card.back };
                    let copy = c.clone();
                    self.decks[i].cards[k] = c;
                    proof {
                        assert(cards_view(self.decks@[i as int].cards@) =~= cards_view(old_cards).update(k as int, copy@));
                        assert(self@.decks =~= before.edit_card(deck_id, card_id, card.front@, card.back@).0.decks);
                    }
                    Ok(copy)
                },
            },
        }
    }

    /// Removes the card `card_id` from the deck `deck_id`; the cards after it
    /// keep their order and identifiers. Returns the removed card.
    pub fn delete_card(&mut self, deck_id: i64, card_id: i64) -> (r: Result<Card, ElephantError>)
        requires
            old(self)@.wf(),
        ensures
            final(self)@.wf(),
            (final(self)@, card_outcome(r)) == old(self)@.delete_card(deck_id, card_id),
    {
        proof {
            lemma_delete_card_wf(self@, deck_id, card_id);
        }
        match self.find_deck(deck_id) {
            None => Err(ElephantError::DeckNotFound),
            Some(i) => match self.find_card_in(i, card_id) {
                None => Err(ElephantError::CardNotFound),
                Some(k) => {
                    let ghost before = self@;
                    let ghost old_cards = self.decks@[i as int].cards@;
                    let c = self.decks[i].cards.remove(k);
                    proof {
                        assert(cards_view(self.decks@[i as int].cards@) =~= cards_view(old_cards).remove(k as int));
                        assert(self@.decks =~= before.delete_card(deck_id, card_id).0.decks);
                    }
                    Ok(c)
                },
            },
        }
    }

    /// Adds an empty deck with the given name to the end of the store; it gets
    /// the next deck identifier. Returns a copy of it.
    pub fn insert_deck(&mut self, deck: DeckPayload) -> (r: Result<Deck, ElephantError>)
        requires
            old(self)@.wf(),
        ensures
            final(self)@.wf(),
            (final(self)@, deck_outcome(r)) == old(self)@.insert_deck(deck.name@),
    {
        proof {
            lemma_insert_deck_wf(self@, deck.name@);
        }
        if self.next_deck_id == i64::MAX {
            return Err(ElephantError::IdsExhausted);
        }
        let ghost before = self@;
        let d = Deck { id: self.next_deck_id, name: deck.name, cards: Vec::new() };
        let copy = d.clone();
        self.decks.push(d);
        self.next_card_ids.push(0);
        self.next_deck_id = self.next_deck_id + 1;
        proof {
            assert(cards_view(copy.cards@) =~= Seq::<CardView>::empty());
            assert(self@.decks =~= before.insert_deck(deck.name@).0.decks);
        }
        Ok(copy)
    }

    /// Renames the deck `deck_id`. Returns a copy of it.
    pub fn edit_deck(&mut self, deck: DeckPayload, deck_id: i64) -> (r: Result<Deck, ElephantError>)
        requires
            old(self)@.wf(),
        ensures
            final(self)@.wf(),
            (final(self)@, deck_outcome(r)) == old(self)@.edit_deck(deck_id, deck.name@),
    {
        proof {
            lemma_edit_deck_wf(self@, deck_id, deck.name@);
        }
        match self.find_deck(deck_id) {
            None => Err(ElephantError::DeckNotFound),
            Some(i) => {
                let ghost before = self@;
                self.decks[i].name = deck.name;
                proof {
                    assert(self@.decks =~= before.edit_deck(deck_id, deck.name@).0.decks);
                }
                Ok(self.decks[i].clone())
            },
        }
    }

    /// Removes the deck `deck_id` together with its cards.
    pub fn delete_deck(&mut self, deck_id: i64) -> (r: Result<(), ElephantError>)
        requires
            old(self)@.wf(),
        ensures
            final(self)@.wf(),
            (final(self)@, r) == old(self)@.delete_deck(deck_id),
    {
        proof {
            lemma_delete_deck_wf(self@, deck_id);
        }
        match self.find_deck(deck_id) {
            None => Err(ElephantError::DeckNotFound),
            Some(i) => {
                let ghost before = self@;
                self.decks.remove(i);
                self.next_card_ids.remove(i);
                proof {
                    assert(self@.decks =~= before.delete_deck(deck_id).0.decks);
                }
                Ok(())
            },
        }
    }

}

} // verus!
