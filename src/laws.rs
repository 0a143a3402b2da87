//! Properties that relate several store operations, stated over the store's
//! model and proved for every input they speak of.
use vstd::prelude::*;

use crate::error::ElephantError;
use crate::model::{CardView, DeckView};
use crate::state::{
    covered, lemma_delete_card_wf, lemma_edit_card_wf, lemma_insert_card_wf, StoreView,
};

verus! {

/// In a well-formed store, the deck at position `i` is the deck its identifier names.
pub proof fn lemma_deck_at(s: StoreView, i: int)
    requires
        s.wf(),
        0 <= i < s.decks.len(),
    ensures
        s.has_deck(s.decks[i].id),
        s.deck_index(s.decks[i].id) == i,
{
    let id = s.decks[i].id;
    assert(s.decks[i].id == id);
    let j = s.deck_index(id);
    assert(s.decks[j].id == id);
}

/// In a deck with distinct card identifiers, the card at position `k` is the
/// card its identifier names.
pub proof fn lemma_card_at(d: DeckView, k: int)
    requires
        d.card_ids_unique(),
        0 <= k < d.cards.len(),
    ensures
        d.has_card(d.cards[k].id),
        d.card_index(d.cards[k].id) == k,
{
    let id = d.cards[k].id;
    assert(d.cards[k].id == id);
    let j = d.card_index(id);
    assert(d.cards[j].id == id);
}

/// An operation that names a deck the store does not hold fails with
/// `DeckNotFound` and leaves the store as it was.
pub proof fn lemma_missing_deck(
    s: StoreView,
    deck_id: i64,
    card_id: i64,
    front: Seq<char>,
    back: Seq<char>,
    name: Seq<char>,
)
    requires
        !s.has_deck(deck_id),
    ensures
        s.get_deck(deck_id) == Err::<DeckView, _>(ElephantError::DeckNotFound),
        s.get_cards(deck_id) == Err::<Seq<CardView>, _>(ElephantError::DeckNotFound),
        s.get_card(deck_id, card_id) == Err::<CardView, _>(ElephantError::DeckNotFound),
        s.insert_card(deck_id, front, back) == (s, Err::<CardView, _>(ElephantError::DeckNotFound)),
        s.edit_card(deck_id, card_id, front, back) == (
            s,
            Err::<CardView, _>(ElephantError::DeckNotFound),
        ),
        s.delete_card(deck_id, card_id) == (s, Err::<CardView, _>(ElephantError::DeckNotFound)),
        s.edit_deck(deck_id, name) == (s, Err::<DeckView, _>(ElephantError::DeckNotFound)),
        s.delete_deck(deck_id) == (s, Err::<(), _>(ElephantError::DeckNotFound)),
{
}

/// A card identifier is looked up within the named deck only: one that deck
/// `b` lacks gives `CardNotFound` there, whichever other deck holds it, and
/// editing or deleting it there changes nothing.
pub proof fn lemma_card_scoping(
    s: StoreView,
    a: i64,
    b: i64,
    card_id: i64,
    front: Seq<char>,
    back: Seq<char>,
)
    requires
        s.has_deck(a),
        s.deck(a).has_card(card_id),
        s.has_deck(b),
        !s.deck(b).has_card(card_id),
    ensures
        s.get_card(a, card_id) is Ok,
        s.get_card(b, card_id) == Err::<CardView, _>(ElephantError::CardNotFound),
        s.edit_card(b, card_id, front, back) == (s, Err::<CardView, _>(ElephantError::CardNotFound)),
        s.delete_card(b, card_id) == (s, Err::<CardView, _>(ElephantError::CardNotFound)),
{
}

/// A card added to a deck can be fetched back by the identifier it was given,
/// with the faces it was given.
pub proof fn lemma_insert_then_get(s: StoreView, deck_id: i64, front: Seq<char>, back: Seq<char>)
    requires
        s.wf(),
        s.has_deck(deck_id),
        s.next_card_ids[s.deck_index(deck_id)] != i64::MAX,
    ensures
        ({
            let (t, r) = s.insert_card(deck_id, front, back);
            &&& r matches Ok(c)
            &&& c.front == front
            &&& c.back == back
            &&& t.get_card(deck_id, c.id) == Ok::<CardView, ElephantError>(c)
        }),
{
    let i = s.deck_index(deck_id);
    let (t, r) = s.insert_card(deck_id, front, back);
    lemma_insert_card_wf(s, deck_id, front, back);
    assert(t.decks[i].id == deck_id);
    lemma_deck_at(t, i);
    let d = t.decks[i];
    let k = d.cards.len() - 1;
    assert(t.decks[i].card_ids_unique());
    lemma_card_at(d, k);
}

/// Editing a card twice with the same faces gives the same store and the
/// same result as editing it once.
pub proof fn lemma_edit_idempotent(
    s: StoreView,
    deck_id: i64,
    card_id: i64,
    front: Seq<char>,
    back: Seq<char>,
)
    requires
        s.wf(),
    ensures
        ({
            let (t1, r1) = s.edit_card(deck_id, card_id, front, back);
            let (t2, r2) = t1.edit_card(deck_id, card_id, front, back);
            t2 == t1 && r2 == r1
        }),
{
    if s.has_deck(deck_id) && s.deck(deck_id).has_card(card_id) {
        let i = s.deck_index(deck_id);
        let k = s.decks[i].card_index(card_id);
        let t1 = s.edit_card(deck_id, card_id, front, back).0;
        lemma_edit_card_wf(s, deck_id, card_id, front, back);
        assert(t1.decks[i].id == deck_id);
        lemma_deck_at(t1, i);
        assert(t1.decks[i].card_ids_unique());
        assert(t1.decks[i].cards[k].id == card_id);
        lemma_card_at(t1.decks[i], k);
        assert(t1.decks[i].cards.update(k, t1.decks[i].cards[k]) =~= t1.decks[i].cards);
        assert(t1.decks.update(i, t1.decks[i]) =~= t1.decks);
    }
}

/// Deleting a card shortens its deck by exactly one; the identifier is then
/// gone from the deck, so fetching or deleting it again gives `CardNotFound`.
pub proof fn lemma_delete_removes_one(s: StoreView, deck_id: i64, card_id: i64)
    requires
        s.wf(),
        s.has_deck(deck_id),
        s.deck(deck_id).has_card(card_id),
    ensures
        ({
            let (t, r) = s.delete_card(deck_id, card_id);
            &&& r matches Ok(c)
            &&& c.id == card_id
            &&& t.has_deck(deck_id)
            &&& t.deck(deck_id).cards.len() == s.deck(deck_id).cards.len() - 1
            &&& t.get_card(deck_id, card_id) == Err::<CardView, _>(ElephantError::CardNotFound)
            &&& t.delete_card(deck_id, card_id) == (t, Err::<CardView, _>(ElephantError::CardNotFound))
        }),
{
    let i = s.deck_index(deck_id);
    let od = s.decks[i];
    let x = od.card_index(card_id);
    let t = s.delete_card(deck_id, card_id).0;
    lemma_delete_card_wf(s, deck_id, card_id);
    assert(t.decks[i].id == deck_id);
    lemma_deck_at(t, i);
    let d = t.decks[i];
    assert(od.card_ids_unique());
    assert forall|k: int| 0 <= k < d.cards.len() implies (#[trigger] d.cards[k]).id != card_id by {
        let ok = if k < x { k } else { k + 1 };
        assert(od.cards[ok] == d.cards[k]);
        assert(od.cards[x].id == card_id);
    }
}

/// The store after adding, one after another, a card for each `(front, back)`
/// pair of `payloads` to the deck `deck_id`.
pub open spec fn insert_cards(s: StoreView, deck_id: i64, payloads: Seq<(Seq<char>, Seq<char>)>) -> StoreView
    decreases payloads.len(),
{
    if payloads.len() == 0 {
        s
    } else {
        let p = payloads.last();
        insert_cards(s, deck_id, payloads.drop_last()).insert_card(deck_id, p.0, p.1).0
    }
}

/// What `lemma_inserts_accumulate` proves, together with the position of the
/// deck and the value of its counter.
proof fn lemma_inserts_step(s: StoreView, deck_id: i64, payloads: Seq<(Seq<char>, Seq<char>)>)
    requires
        s.wf(),
        s.has_deck(deck_id),
        s.next_card_ids[s.deck_index(deck_id)] + payloads.len() <= i64::MAX,
    ensures
        ({
            let t = insert_cards(s, deck_id, payloads);
            let i = s.deck_index(deck_id);
            let n = s.deck(deck_id).cards.len();
            &&& t.wf()
            &&& t.has_deck(deck_id)
            &&& t.deck_index(deck_id) == i
            &&& t.next_card_ids[i] == s.next_card_ids[i] + payloads.len()
            &&& t.deck(deck_id).cards.len() == n + payloads.len()
            &&& t.deck(deck_id).cards.take(n as int) == s.deck(deck_id).cards
            &&& forall|k: int|
                0 <= k < payloads.len() ==> (#[trigger] t.deck(deck_id).cards[n + k]).front == payloads[k].0
                    && t.deck(deck_id).cards[n + k].back == payloads[k].1
        }),
    decreases payloads.len(),
{
    let i = s.deck_index(deck_id);
    let n = s.deck(deck_id).cards.len();
    if payloads.len() == 0 {
        assert(s.deck(deck_id).cards.take(n as int) =~= s.deck(deck_id).cards);
    } else {
        let pre = payloads.drop_last();
        let p = payloads.last();
        lemma_inserts_step(s, deck_id, pre);
        let u = insert_cards(s, deck_id, pre);
        let t = u.insert_card(deck_id, p.0, p.1).0;
        lemma_insert_card_wf(u, deck_id, p.0, p.1);
        assert(t.decks[i].id == deck_id);
        lemma_deck_at(t, i);
        let ud = u.decks[i];
        let td = t.decks[i];
        assert(td.cards == ud.cards.push(CardView { id: u.next_card_ids[i], front: p.0, back: p.1 }));
        assert(td.cards.take(n as int) =~= ud.cards.take(n as int));
        assert forall|k: int| 0 <= k < payloads.len() implies (#[trigger] td.cards[n + k]).front == payloads[k].0
            && td.cards[n + k].back == payloads[k].1 by {
            if k < pre.len() {
                assert(td.cards[n + k] == ud.cards[n + k]);
                assert(pre[k] == payloads[k]);
            }
        }
    }
}

/// Adding N cards to a deck, one after another, leaves the deck with N more
/// cards: the cards it had stay in front, unchanged, and the new ones follow
/// in the order they were added, each carrying both faces of its own
/// payload. All card identifiers of the deck stay distinct. Operations on
/// the shared store take effect one at a time, so this holds of concurrent
/// additions in whatever order they took effect.
pub proof fn lemma_inserts_accumulate(s: StoreView, deck_id: i64, payloads: Seq<(Seq<char>, Seq<char>)>)
    requires
        s.wf(),
        s.has_deck(deck_id),
        s.next_card_ids[s.deck_index(deck_id)] + payloads.len() <= i64::MAX,
    ensures
        ({
            let t = insert_cards(s, deck_id, payloads);
            let n = s.deck(deck_id).cards.len();
            &&& t.has_deck(deck_id)
            &&& t.deck(deck_id).cards.len() == n + payloads.len()
            &&& t.deck(deck_id).cards.take(n as int) == s.deck(deck_id).cards
            &&& forall|k: int|
                0 <= k < payloads.len() ==> (#[trigger] t.deck(deck_id).cards[n + k]).front == payloads[k].0
                    && t.deck(deck_id).cards[n + k].back == payloads[k].1
            &&& t.deck(deck_id).card_ids_unique()
        }),
{
    lemma_inserts_step(s, deck_id, payloads);
    let t = insert_cards(s, deck_id, payloads);
    assert(t.decks[t.deck_index(deck_id)].card_ids_unique());
}

/// Deck identifiers move forward only: no operation lowers the next deck
/// identifier, and a new deck gets that identifier, which no deck of the store
/// holds, while the counter moves past it. A deck identifier is thus never
/// handed out twice.
pub proof fn lemma_deck_ids_fresh(
    s: StoreView,
    deck_id: i64,
    card_id: i64,
    front: Seq<char>,
    back: Seq<char>,
    name: Seq<char>,
)
    requires
        s.wf(),
    ensures
        s.insert_card(deck_id, front, back).0.next_deck_id == s.next_deck_id,
        s.edit_card(deck_id, card_id, front, back).0.next_deck_id == s.next_deck_id,
        s.delete_card(deck_id, card_id).0.next_deck_id == s.next_deck_id,
        s.edit_deck(deck_id, name).0.next_deck_id == s.next_deck_id,
        s.delete_deck(deck_id).0.next_deck_id == s.next_deck_id,
        s.insert_deck(name).0.next_deck_id >= s.next_deck_id,
        s.insert_deck(name).1 matches Ok(d) ==> {
            &&& d.id == s.next_deck_id
            &&& !s.has_deck(d.id)
            &&& s.insert_deck(name).0.next_deck_id > d.id
        },
{
    if s.next_deck_id != i64::MAX {
        assert forall|i: int| 0 <= i < s.decks.len() implies (#[trigger] s.decks[i]).id != s.next_deck_id by {
            assert(covered(s.decks[i].id, s.next_deck_id));
        }
    }
}

/// Card identifiers of a deck move forward only: card operations on a deck
/// never lower its next card identifier, and a new card gets that
/// identifier, which no card of the deck holds, while the counter moves
/// past it. A card identifier is thus never handed out twice within a deck.
pub proof fn lemma_card_ids_fresh(
    s: StoreView,
    deck_id: i64,
    card_id: i64,
    front: Seq<char>,
    back: Seq<char>,
)
    requires
        s.wf(),
        s.has_deck(deck_id),
    ensures
        ({
            let i = s.deck_index(deck_id);
            let (t, r) = s.insert_card(deck_id, front, back);
            &&& t.has_deck(deck_id)
            &&& t.deck_index(deck_id) == i
            &&& t.next_card_ids[i] >= s.next_card_ids[i]
            &&& r matches Ok(c) ==> {
                &&& c.id == s.next_card_ids[i]
                &&& !s.deck(deck_id).has_card(c.id)
                &&& t.next_card_ids[i] > c.id
            }
        }),
        s.edit_card(deck_id, card_id, front, back).0.next_card_ids == s.next_card_ids,
        s.delete_card(deck_id, card_id).0.next_card_ids == s.next_card_ids,
{
    let i = s.deck_index(deck_id);
    let t = s.insert_card(deck_id, front, back).0;
    lemma_insert_card_wf(s, deck_id, front, back);
    assert(t.decks[i].id == deck_id);
    lemma_deck_at(t, i);
    let d = s.decks[i];
    if s.next_card_ids[i] != i64::MAX {
        assert forall|k: int| 0 <= k < d.cards.len() implies (#[trigger] d.cards[k]).id != s.next_card_ids[i] by {
            assert(covered(s.decks[i].cards[k].id, s.next_card_ids[i]));
        }
    }
}

} // verus!
