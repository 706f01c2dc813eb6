use deckocr::srs::{partition_definitions, CardState, CardStateCache, Rgb};
use deckocr::word::{Definition, Word};

fn states() -> Vec<CardState> {
    vec![
        CardState { name: "unparsed".to_owned(), colour: Rgb { r: 255, g: 255, b: 255 }, is_relevant: false },
        CardState { name: "not in deck".to_owned(), colour: Rgb { r: 0, g: 200, b: 255 }, is_relevant: true },
        CardState { name: "new".to_owned(), colour: Rgb { r: 170, g: 240, b: 255 }, is_relevant: true },
        CardState { name: "known".to_owned(), colour: Rgb { r: 125, g: 255, b: 125 }, is_relevant: false },
    ]
}

fn word_with_id(vid: u64, sid: u64) -> Word {
    let mut w = Word::plain("w".to_owned());
    w.definition = Some(Definition {
        spelling: "w".to_owned(),
        reading: String::new(),
        frequency: None,
        meanings: vec![],
        stable_id: Some((vid, sid)),
    });
    w
}

fn word_with_spelling(spelling: &str) -> Word {
    let mut w = Word::plain(spelling.to_owned());
    w.definition = Some(Definition {
        spelling: spelling.to_owned(),
        reading: String::new(),
        frequency: None,
        meanings: vec![],
        stable_id: None,
    });
    w
}

#[test]
fn word_without_definition_resolves_to_sentinel() {
    let mut cache = CardStateCache::new(states());
    cache.insert_spelling_state("x".to_owned(), 2);
    cache.insert_id_state(1, 2, 3);
    // Whatever the cache holds, a definition-less word gets state 0.
    let w = Word::plain("x".to_owned());
    let s = cache.card_state(&w);
    assert_eq!(s.name, "unparsed");
    assert!(!s.is_relevant);
}

#[test]
fn unknown_word_resolves_to_sentinel() {
    let cache = CardStateCache::new(states());
    let s = cache.card_state(&word_with_spelling("nothere"));
    assert_eq!(s.name, "unparsed");
    let s2 = cache.card_state(&word_with_id(9, 9));
    assert_eq!(s2.name, "unparsed");
}

#[test]
fn cached_states_resolve_by_key() {
    let mut cache = CardStateCache::new(states());
    cache.insert_id_state(10, 20, 3);
    cache.insert_spelling_state("犬".to_owned(), 2);
    assert_eq!(cache.card_state(&word_with_id(10, 20)).name, "known");
    assert_eq!(cache.card_state(&word_with_spelling("犬")).name, "new");
    // A word with a stable identifier never falls back to its spelling.
    let mut w = word_with_id(99, 99);
    w.definition.as_mut().unwrap().spelling = "犬".to_owned();
    assert_eq!(cache.card_state(&w).name, "unparsed");
}

#[test]
fn inserting_twice_overwrites_one_entry() {
    let mut cache = CardStateCache::new(states());
    cache.insert_id_state(1, 1, 2);
    cache.insert_id_state(1, 1, 3);
    cache.insert_id_state(2, 2, 1);
    assert_eq!(cache.card_state(&word_with_id(1, 1)).name, "known");
    assert_eq!(cache.card_state(&word_with_id(2, 2)).name, "not in deck");
}

#[test]
fn spelling_fallback_can_alias_distinct_entries() {
    // Two dictionary entries without stable identifiers that share a
    // spelling collide under the fallback identity: the later batch write
    // wins for both. This is the accepted approximation, made visible here.
    let mut cache = CardStateCache::new(states());
    cache.insert_spelling_state("同".to_owned(), 2);
    cache.insert_spelling_state("同".to_owned(), 3);
    assert_eq!(cache.card_state(&word_with_spelling("同")).name, "known");
}

#[test]
fn batch_resolves_names_and_nulls() {
    let mut cache = CardStateCache::new(states());
    let spellings = vec!["a".to_owned(), "b".to_owned(), "c".to_owned()];
    let names = vec![
        Some("known".to_owned()),    // a known state name
        None,                        // null: "not yet encountered" caches index 1
        Some("no such".to_owned()),  // unknown name: nothing cached
    ];
    cache.insert_spelling_batch(&spellings, &names);
    assert_eq!(cache.card_state(&word_with_spelling("a")).name, "known");
    assert_eq!(cache.card_state(&word_with_spelling("b")).name, "not in deck");
    assert_eq!(cache.card_state(&word_with_spelling("c")).name, "unparsed");
}

#[test]
fn id_batch_resolves_names_and_nulls() {
    let mut cache = CardStateCache::new(states());
    let keys = vec![(1, 1), (2, 2)];
    let names = vec![Some("new".to_owned()), None];
    cache.insert_id_batch(&keys, &names);
    assert_eq!(cache.card_state(&word_with_id(1, 1)).name, "new");
    assert_eq!(cache.card_state(&word_with_id(2, 2)).name, "not in deck");
}

#[test]
fn batch_stops_at_the_shorter_side() {
    let mut cache = CardStateCache::new(states());
    let spellings = vec!["a".to_owned(), "b".to_owned()];
    let names = vec![Some("new".to_owned())];
    cache.insert_spelling_batch(&spellings, &names);
    assert_eq!(cache.card_state(&word_with_spelling("a")).name, "new");
    assert_eq!(cache.card_state(&word_with_spelling("b")).name, "unparsed");
}

#[test]
fn set_word_state_updates_the_word_key() {
    let mut cache = CardStateCache::new(states());
    let by_id = word_with_id(5, 6);
    cache.set_word_state(&by_id, 2);
    assert_eq!(cache.card_state(&by_id).name, "new");
    let by_spelling = word_with_spelling("猫");
    cache.set_word_state(&by_spelling, 1);
    assert_eq!(cache.card_state(&by_spelling).name, "not in deck");
}

#[test]
fn find_state_index_finds_first_matching_name() {
    let cache = CardStateCache::new(states());
    assert_eq!(cache.find_state_index(&"new".to_owned()), Some(2));
    assert_eq!(cache.find_state_index(&"missing".to_owned()), None);
}

#[test]
fn partition_splits_by_stable_identifier() {
    let words = vec![
        word_with_id(1, 2),
        word_with_spelling("犬"),
        Word::plain("gap".to_owned()),
        word_with_id(3, 4),
        word_with_spelling("猫"),
    ];
    let (ids, spellings) = partition_definitions(&words);
    assert_eq!(ids, vec![(1, 2), (3, 4)]);
    assert_eq!(spellings, vec!["犬".to_owned(), "猫".to_owned()]);
}
