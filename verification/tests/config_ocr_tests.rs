use deckocr::config::{
    DictionaryServiceList, JpdbDictionaryConfig, JpdbSrsConfig, OcrServiceList, OwocrConfig,
    SrsServiceList,
};
use deckocr::ocr::split_paragraphs;
use deckocr::word::TextFragment;

#[test]
fn service_names() {
    assert_eq!(OcrServiceList::Owocr.name(), "owocr");
    assert_eq!(DictionaryServiceList::Jpdb.name(), "jpdb");
    assert_eq!(SrsServiceList::Jpdb.name(), "jpdb");
}

#[test]
fn owocr_defaults() {
    let c = OwocrConfig::default();
    assert_eq!(c.address, "127.0.0.1");
    assert_eq!(c.port, 7331);
}

#[test]
fn dictionary_defaults() {
    let c = JpdbDictionaryConfig::default();
    assert_eq!(c.api_key, "");
    assert!(c.filter_paragraphs_with_no_definitions);
}

#[test]
fn srs_defaults_hold_the_standard_state_table() {
    let c = JpdbSrsConfig::default();
    assert_eq!(c.api_key, "");
    assert_eq!(c.mining_deck_id, 0);
    assert!(c.decks.is_empty());
    let names: Vec<&str> = c.card_states.iter().map(|s| s.name.as_str()).collect();
    assert_eq!(
        names,
        vec!["unparsed", "not in deck", "new", "learning", "due", "known", "blacklisted"]
    );
    let relevant: Vec<bool> = c.card_states.iter().map(|s| s.is_relevant).collect();
    assert_eq!(relevant, vec![false, true, true, true, true, false, false]);
    assert_eq!(c.card_states[4].colour.r, 255);
    assert_eq!(c.card_states[4].colour.g, 75);
    assert_eq!(c.card_states[4].colour.b, 60);
}

#[test]
fn split_at_ideographic_space() {
    let parts = split_paragraphs("私は\u{3000}猫が\u{3000}好き");
    assert_eq!(parts, vec!["私は".to_owned(), "猫が".to_owned(), "好き".to_owned()]);
}

#[test]
fn split_without_separator_is_one_part() {
    assert_eq!(split_paragraphs("こんにちは"), vec!["こんにちは".to_owned()]);
    assert_eq!(split_paragraphs(""), vec!["".to_owned()]);
}

#[test]
fn split_keeps_empty_parts_at_edges() {
    let parts = split_paragraphs("\u{3000}a\u{3000}\u{3000}b\u{3000}");
    assert_eq!(
        parts,
        vec!["".to_owned(), "a".to_owned(), "".to_owned(), "b".to_owned(), "".to_owned()]
    );
}

#[test]
fn fragments_surface_concatenates_texts() {
    let fragments = vec![
        TextFragment { text: "取".to_owned(), ruby: Some("と".to_owned()) },
        TextFragment { text: "り".to_owned(), ruby: None },
    ];
    assert_eq!(deckocr::word::fragments_surface(&fragments), "取り");
}

#[test]
fn error_message_renders_the_chain_numbered() {
    let mut popups = deckocr::popups::Popups::new();
    popups.error(vec![
        "could not reach the dictionary".to_owned(),
        "connection refused".to_owned(),
        "socket closed".to_owned(),
    ]);
    assert_eq!(popups.0.len(), 1);
    assert_eq!(
        popups.0[0],
        "Error: could not reach the dictionary\n\t1. connection refused\n\t2. socket closed\n"
    );
    popups.error(vec!["alone".to_owned()]);
    assert_eq!(popups.0.len(), 2);
    assert_eq!(popups.0[1], "Error: alone\n");
}

#[test]
fn decimal_rendering_is_exact() {
    assert_eq!(deckocr::popups::u64_to_string(0), "0");
    assert_eq!(deckocr::popups::u64_to_string(7), "7");
    assert_eq!(deckocr::popups::u64_to_string(10), "10");
    assert_eq!(deckocr::popups::u64_to_string(90217), "90217");
    assert_eq!(deckocr::popups::u64_to_string(u64::MAX), "18446744073709551615");
}
