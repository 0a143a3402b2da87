use elephant_cards::{
    decks_are_well_formed, Card, CardPayload, Deck, DeckPayload, DeckStore, ElephantError, Model,
};

fn card(id: i64, front: &str, back: &str) -> Card {
    Card { id, front: front.to_string(), back: back.to_string() }
}

fn payload(front: &str, back: &str) -> CardPayload {
    CardPayload { front: front.to_string(), back: back.to_string() }
}

fn first_deck() -> Deck {
    Deck {
        id: 0,
        name: "first deck".to_string(),
        cards: vec![card(0, "Q1", "A1"), card(1, "Q2", "A2"), card(2, "Q3", "A3")],
    }
}

fn two_decks() -> Vec<Deck> {
    vec![
        first_deck(),
        Deck { id: 1, name: "second deck".to_string(), cards: vec![card(0, "S1", "T1")] },
    ]
}

fn ids(cards: &[Card]) -> Vec<i64> {
    cards.iter().map(|c| c.id).collect()
}

#[test]
fn delete_middle_card_of_first_deck() {
    let model = Model::new(vec![first_deck()]);
    let removed = model.delete_card(0, 1).unwrap();
    assert_eq!((removed.id, removed.front.as_str(), removed.back.as_str()), (1, "Q2", "A2"));
    let deck = model.select_deck(0).unwrap();
    assert_eq!(deck.cards.len(), 2);
    assert_eq!(model.select_card(0, 1).err(), Some(ElephantError::CardNotFound));
    let third = model.select_card(0, 2).unwrap();
    assert_eq!((third.front.as_str(), third.back.as_str()), ("Q3", "A3"));
}

#[test]
fn missing_deck_fails_everywhere_and_changes_nothing() {
    let model = Model::new(two_decks());
    let nf = Some(ElephantError::DeckNotFound);
    assert_eq!(model.select_deck(7).err(), nf);
    assert_eq!(model.select_cards(7).err(), nf);
    assert_eq!(model.select_card(7, 0).err(), nf);
    assert_eq!(model.insert_card(payload("Q", "A"), 7).err(), nf);
    assert_eq!(model.edit_card(payload("Q", "A"), 7, 0).err(), nf);
    assert_eq!(model.delete_card(7, 0).err(), nf);
    assert_eq!(model.edit_deck(DeckPayload { name: "x".to_string() }, 7).err(), nf);
    assert_eq!(model.delete_deck(7).err(), nf);
    let decks = model.select_decks().unwrap();
    assert_eq!(decks.len(), 2);
    assert_eq!(ids(&decks[0].cards), vec![0, 1, 2]);
    assert_eq!(ids(&decks[1].cards), vec![0]);
    assert_eq!(decks[1].name, "second deck");
}

#[test]
fn card_ids_are_scoped_to_their_deck() {
    let model = Model::new(two_decks());
    assert!(model.select_card(0, 2).is_ok());
    assert_eq!(model.select_card(1, 2).err(), Some(ElephantError::CardNotFound));
    assert_eq!(model.edit_card(payload("X", "Y"), 1, 2).err(), Some(ElephantError::CardNotFound));
    assert_eq!(model.delete_card(1, 2).err(), Some(ElephantError::CardNotFound));
    assert_eq!(model.select_cards(0).unwrap().len(), 3);
}

#[test]
fn many_inserts_give_distinct_ids_and_whole_cards() {
    let model = Model::new(vec![Deck { id: 0, name: "d".to_string(), cards: vec![] }]);
    let n: i64 = 50;
    for k in 0..n {
        let c = model.insert_card(payload(&format!("F{k}"), &format!("B{k}")), 0).unwrap();
        assert_eq!(c.id, k);
    }
    let cards = model.select_cards(0).unwrap();
    assert_eq!(cards.len(), n as usize);
    let mut seen = ids(&cards);
    seen.sort();
    seen.dedup();
    assert_eq!(seen.len(), n as usize);
    for c in &cards {
        assert_eq!(c.front, format!("F{}", c.id));
        assert_eq!(c.back, format!("B{}", c.id));
    }
}

#[test]
fn inserted_card_reads_back() {
    let model = Model::new(two_decks());
    let c = model.insert_card(payload("Q", "A"), 1).unwrap();
    assert_eq!(c.id, 1);
    let back = model.select_card(1, c.id).unwrap();
    assert_eq!((back.id, back.front.as_str(), back.back.as_str()), (c.id, "Q", "A"));
    assert_eq!(ids(&model.select_cards(1).unwrap()), vec![0, 1]);
}

#[test]
fn editing_twice_equals_editing_once() {
    let model = Model::new(two_decks());
    let once = model.edit_card(payload("X", "Y"), 0, 1).unwrap();
    let after_once = model.select_cards(0).unwrap();
    let twice = model.edit_card(payload("X", "Y"), 0, 1).unwrap();
    let after_twice = model.select_cards(0).unwrap();
    assert_eq!((once.id, once.front.as_str(), once.back.as_str()), (1, "X", "Y"));
    assert_eq!((twice.id, twice.front.as_str(), twice.back.as_str()), (1, "X", "Y"));
    assert_eq!(after_once.len(), after_twice.len());
    for (a, b) in after_once.iter().zip(after_twice.iter()) {
        assert_eq!((a.id, &a.front, &a.back), (b.id, &b.front, &b.back));
    }
    assert_eq!(ids(&after_twice), vec![0, 1, 2]);
}

#[test]
fn delete_removes_exactly_one() {
    let model = Model::new(two_decks());
    model.delete_card(0, 0).unwrap();
    assert_eq!(ids(&model.select_cards(0).unwrap()), vec![1, 2]);
    assert_eq!(model.delete_card(0, 0).err(), Some(ElephantError::CardNotFound));
    assert_eq!(ids(&model.select_cards(0).unwrap()), vec![1, 2]);
}

#[test]
fn card_ids_are_not_reused_after_delete() {
    let model = Model::new(vec![first_deck()]);
    model.delete_card(0, 2).unwrap();
    let c = model.insert_card(payload("Q4", "A4"), 0).unwrap();
    assert_eq!(c.id, 3);
    assert_eq!(ids(&model.select_cards(0).unwrap()), vec![0, 1, 3]);
}

#[test]
fn deck_ids_continue_past_initial_ones() {
    let decks = vec![
        Deck { id: 5, name: "a".to_string(), cards: vec![] },
        Deck { id: 2, name: "b".to_string(), cards: vec![] },
    ];
    let model = Model::new(decks);
    let d = model.insert_deck(DeckPayload { name: "c".to_string() }).unwrap();
    assert_eq!((d.id, d.name.as_str(), d.cards.len()), (6, "c", 0));
    model.delete_deck(6).unwrap();
    let e = model.insert_deck(DeckPayload { name: "d".to_string() }).unwrap();
    assert_eq!(e.id, 7);
    let all: Vec<i64> = model.select_decks().unwrap().iter().map(|d| d.id).collect();
    assert_eq!(all, vec![5, 2, 7]);
}

#[test]
fn first_card_of_new_deck_gets_id_zero() {
    let model = Model::new(vec![]);
    let d = model.insert_deck(DeckPayload { name: "new".to_string() }).unwrap();
    assert_eq!(d.id, 0);
    let c = model.insert_card(payload("Q", "A"), d.id).unwrap();
    assert_eq!(c.id, 0);
}

#[test]
fn rename_deck_keeps_cards() {
    let model = Model::new(two_decks());
    let d = model.edit_deck(DeckPayload { name: "renamed".to_string() }, 0).unwrap();
    assert_eq!((d.id, d.name.as_str()), (0, "renamed"));
    assert_eq!(ids(&d.cards), vec![0, 1, 2]);
    assert_eq!(model.select_deck(0).unwrap().name, "renamed");
}

#[test]
fn delete_deck_removes_it_and_its_cards() {
    let model = Model::new(two_decks());
    assert_eq!(model.delete_deck(0), Ok(()));
    assert_eq!(model.select_deck(0).err(), Some(ElephantError::DeckNotFound));
    assert_eq!(model.select_card(0, 1).err(), Some(ElephantError::DeckNotFound));
    let rest: Vec<i64> = model.select_decks().unwrap().iter().map(|d| d.id).collect();
    assert_eq!(rest, vec![1]);
}

#[test]
fn card_ids_exhausted() {
    let deck = Deck { id: 0, name: "full".to_string(), cards: vec![card(i64::MAX, "Q", "A")] };
    let model = Model::new(vec![deck]);
    assert_eq!(model.insert_card(payload("Q", "A"), 0).err(), Some(ElephantError::IdsExhausted));
    assert_eq!(model.select_cards(0).unwrap().len(), 1);
}

#[test]
fn deck_ids_exhausted() {
    let deck = Deck { id: i64::MAX, name: "last".to_string(), cards: vec![] };
    let model = Model::new(vec![deck]);
    let r = model.insert_deck(DeckPayload { name: "more".to_string() });
    assert_eq!(r.err(), Some(ElephantError::IdsExhausted));
    assert_eq!(model.select_decks().unwrap().len(), 1);
}

#[test]
fn last_assignable_card_id() {
    let deck = Deck { id: 0, name: "d".to_string(), cards: vec![card(i64::MAX - 2, "Q", "A")] };
    let model = Model::new(vec![deck]);
    let c = model.insert_card(payload("Q2", "A2"), 0).unwrap();
    assert_eq!(c.id, i64::MAX - 1);
    assert_eq!(model.insert_card(payload("Q3", "A3"), 0).err(), Some(ElephantError::IdsExhausted));
}

#[test]
fn well_formed_initial_decks() {
    assert!(decks_are_well_formed(&two_decks()));
    assert!(decks_are_well_formed(&vec![]));
    let dup_decks = vec![
        Deck { id: 3, name: "a".to_string(), cards: vec![] },
        Deck { id: 3, name: "b".to_string(), cards: vec![] },
    ];
    assert!(!decks_are_well_formed(&dup_decks));
    let dup_cards =
        vec![Deck { id: 0, name: "a".to_string(), cards: vec![card(4, "x", "y"), card(4, "z", "w")] }];
    assert!(!decks_are_well_formed(&dup_cards));
}

#[test]
fn sequential_store_matches_shared_one() {
    let mut store = DeckStore::new(two_decks());
    let c = store.insert_card(payload("Q", "A"), 0).unwrap();
    assert_eq!(c.id, 3);
    let e = store.edit_card(payload("E", "F"), 0, 3).unwrap();
    assert_eq!((e.id, e.front.as_str(), e.back.as_str()), (3, "E", "F"));
    let removed = store.delete_card(0, 0).unwrap();
    assert_eq!((removed.id, removed.front.as_str()), (0, "Q1"));
    assert_eq!(ids(&store.select_cards(0).unwrap()), vec![1, 2, 3]);
    let got = store.select_card(0, 3).unwrap();
    assert_eq!((got.front.as_str(), got.back.as_str()), ("E", "F"));
    assert_eq!(store.select_decks().len(), 2);
    assert_eq!(store.select_deck(1).unwrap().name, "second deck");
}

#[test]
fn copies_are_independent_of_the_store() {
    let model = Model::new(two_decks());
    let mut copy = model.select_deck(0).unwrap();
    copy.name.push_str(" (changed)");
    copy.cards.clear();
    let again = model.select_deck(0).unwrap();
    assert_eq!(again.name, "first deck");
    assert_eq!(again.cards.len(), 3);
    let cloned = again.clone();
    assert_eq!((cloned.id, cloned.name.as_str(), ids(&cloned.cards)), (0, "first deck", vec![0, 1, 2]));
}

#[test]
fn error_kinds() {
    assert!(ElephantError::DeckNotFound.is_not_found());
    assert!(ElephantError::CardNotFound.is_not_found());
    assert!(!ElephantError::IdsExhausted.is_not_found());
}
