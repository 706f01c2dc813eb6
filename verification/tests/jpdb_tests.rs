use deckocr::jpdb::{
    decode_decks, decode_first_vid_sid, decode_id_states, decode_spelling_states,
    decode_token_lists, decode_vocabulary, parse_response, ResponseError,
};
use deckocr::json::JsonValue;
use serde_json::Value;

/// The library's plain-value model of a response, built from JSON text the
/// way the application's HTTP layer builds it.
fn to_model(v: &Value) -> JsonValue {
    match v {
        Value::Null => JsonValue::Null,
        Value::Bool(b) => JsonValue::Bool(*b),
        Value::Number(n) => match n.as_u64() {
            Some(x) => JsonValue::UInt(x),
            None => JsonValue::NonUIntNumber,
        },
        Value::String(s) => JsonValue::Text(s.clone()),
        Value::Array(items) => JsonValue::List(items.iter().map(to_model).collect()),
        Value::Object(fields) => {
            JsonValue::Object(fields.iter().map(|(k, v)| (k.clone(), to_model(v))).collect())
        }
    }
}

fn json(s: &str) -> JsonValue {
    to_model(&serde_json::from_str(s).unwrap())
}

fn array(s: &str) -> Vec<JsonValue> {
    match json(s) {
        JsonValue::List(items) => items,
        _ => panic!("expected a JSON array"),
    }
}

#[test]
fn parse_response_end_to_end() {
    // The backend's shape for 私は猫が好き: one token line, a shared
    // vocabulary, furigana arrays mixing plain strings and [text, ruby]
    // pairs.
    let texts = vec!["私は猫が好き".to_owned()];
    let response = json(
        r#"{
            "tokens": [[[0, 0, 1, ["私"]], [1, 2, 1, null]]],
            "vocabulary": [
                [10, 11, "私", "わたし", 100, ["I"], ["known"]],
                [20, 21, "猫", "ねこ", null, ["cat"], [null]]
            ]
        }"#,
    );
    let words = parse_response(&texts, &response, false).unwrap();
    assert_eq!(words.len(), 1);
    let texts_out: Vec<String> = words[0]
        .iter()
        .map(|w| w.text.0.iter().map(|f| f.text.clone()).collect::<String>())
        .collect();
    assert_eq!(texts_out, vec!["私", "は", "猫", "が好き"]);
    let def = words[0][0].definition.as_ref().unwrap();
    assert_eq!(def.spelling, "私");
    assert_eq!(def.reading, "わたし");
    assert_eq!(def.frequency, Some(100));
    assert_eq!(def.meanings, vec!["I".to_owned()]);
    assert_eq!(def.stable_id, Some((10, 11)));
    let cat = words[0][2].definition.as_ref().unwrap();
    assert_eq!(cat.frequency, None);
    assert_eq!(cat.stable_id, Some((20, 21)));
}

#[test]
fn parse_response_filters_undefined_paragraphs() {
    let texts = vec!["猫".to_owned(), "……".to_owned()];
    let response = json(
        r#"{
            "tokens": [[[0, 0, 1, null]], []],
            "vocabulary": [[1, 2, "猫", "ねこ", null, ["cat"], [null]]]
        }"#,
    );
    let unfiltered = parse_response(&texts, &response, false).unwrap();
    assert_eq!(unfiltered.len(), 2);
    let filtered = parse_response(&texts, &response, true).unwrap();
    assert_eq!(filtered.len(), 1);
    assert!(filtered[0][0].definition.is_some());
}

#[test]
fn parse_response_missing_fields() {
    let texts = vec!["a".to_owned()];
    assert_eq!(parse_response(&texts, &json(r#"{"vocabulary": []}"#), false).unwrap_err(), ResponseError::MissingTokens);
    assert_eq!(parse_response(&texts, &json(r#"{"tokens": "no"}"#), false).unwrap_err(), ResponseError::MissingTokens);
    assert_eq!(parse_response(&texts, &json(r#"{"tokens": []}"#), false).unwrap_err(), ResponseError::MissingVocabulary);
}

#[test]
fn parse_response_rejects_malformed_items() {
    let texts = vec!["a".to_owned()];
    // A token whose position is a string.
    let bad_token = json(r#"{"tokens": [[[0, "x", 1, null]]], "vocabulary": []}"#);
    assert_eq!(parse_response(&texts, &bad_token, false).unwrap_err(), ResponseError::MalformedTokens);
    // A vocabulary entry with no reading.
    let bad_vocab = json(r#"{"tokens": [[]], "vocabulary": [[1, 2, "a"]]}"#);
    assert_eq!(parse_response(&texts, &bad_vocab, false).unwrap_err(), ResponseError::MalformedVocabulary);
    // Structurally fine, but the token points past the paragraph.
    let misaligned = json(
        r#"{"tokens": [[[0, 5, 2, null]]], "vocabulary": [[1, 2, "a", "a", null, [], [null]]]}"#,
    );
    assert_eq!(parse_response(&texts, &misaligned, false).unwrap_err(), ResponseError::Misaligned);
    // A tokens array shorter than the batch is a malformed batch too.
    let short = json(r#"{"tokens": [], "vocabulary": []}"#);
    assert_eq!(parse_response(&texts, &short, false).unwrap_err(), ResponseError::Misaligned);
}

#[test]
fn token_lists_decode_one_list_per_line() {
    let lines = array(r#"[[[0, 0, 1, null]], [], [[1, 2, 3, ["a", ["b", "c"]]]]]"#);
    let lists = decode_token_lists(&lines).unwrap();
    assert_eq!(lists.len(), 3);
    assert_eq!(lists[0].len(), 1);
    assert_eq!(lists[1].len(), 0);
    let t = &lists[2][0];
    assert_eq!((t.vocab_index, t.position, t.length), (1, 2, 3));
    let furi = t.furigana.as_ref().unwrap();
    assert_eq!(furi.len(), 2);
    assert_eq!(furi[0].text, "a");
    assert_eq!(furi[0].ruby, None);
    assert_eq!(furi[1].text, "b");
    assert_eq!(furi[1].ruby.as_deref(), Some("c"));
}

#[test]
fn vocabulary_decode_reads_every_field() {
    let entries = array(r#"[[5, 6, "犬", "いぬ", 42, ["dog", 7, "hound"], ["due"]]]"#);
    let vocab = decode_vocabulary(&entries).unwrap();
    assert_eq!(vocab.len(), 1);
    let v = &vocab[0];
    assert_eq!(v.stable_id, Some((5, 6)));
    assert_eq!(v.spelling, "犬");
    assert_eq!(v.reading, "いぬ");
    assert_eq!(v.frequency, Some(42));
    // Non-string meanings are skipped, as the backend intends.
    assert_eq!(v.meanings, vec!["dog".to_owned(), "hound".to_owned()]);
    assert_eq!(v.card_state_name.as_deref(), Some("due"));
}

#[test]
fn spelling_states_decode_names_and_nulls() {
    let items = array(r#"[["known"], [null], []]"#);
    // The first two entries carry a slot; the third has none and is
    // malformed.
    assert_eq!(decode_spelling_states(&items), Err(ResponseError::MalformedVocabulary));
    let ok = array(r#"[["known"], [null]]"#);
    assert_eq!(
        decode_spelling_states(&ok).unwrap(),
        vec![Some("known".to_owned()), None]
    );
}

#[test]
fn id_states_decode_nested_names() {
    let items = array(r#"[[["due"]], [[null]], [[]]]"#);
    assert_eq!(
        decode_id_states(&items).unwrap(),
        vec![Some("due".to_owned()), None, None]
    );
    let bad = array(r#"[[]]"#);
    assert_eq!(decode_id_states(&bad), Err(ResponseError::MalformedVocabulary));
}

#[test]
fn first_vid_sid_comes_from_the_first_entry() {
    let ok = json(r#"{"vocabulary": [[123, 456]]}"#);
    assert_eq!(decode_first_vid_sid(&ok).unwrap(), (123, 456));
    let empty = json(r#"{"vocabulary": []}"#);
    assert_eq!(decode_first_vid_sid(&empty), Err(ResponseError::MissingVocabulary));
    let bad = json(r#"{"vocabulary": [["x", 456]]}"#);
    assert_eq!(decode_first_vid_sid(&bad), Err(ResponseError::MalformedVocabulary));
}

#[test]
fn decks_decode_id_name_pairs() {
    let ok = json(r#"{"decks": [[1, "mining"], [2, "old"]]}"#);
    assert_eq!(
        decode_decks(&ok).unwrap(),
        vec![(1, "mining".to_owned()), (2, "old".to_owned())]
    );
    assert_eq!(decode_decks(&json(r#"{}"#)), None);
    assert_eq!(decode_decks(&json(r#"{"decks": [[1]]}"#)), None);
}

#[test]
fn model_member_takes_the_first_matching_key() {
    let v = JsonValue::Object(vec![
        ("k".to_owned(), JsonValue::UInt(1)),
        ("k".to_owned(), JsonValue::UInt(2)),
    ]);
    match v.member("k") {
        Some(JsonValue::UInt(x)) => assert_eq!(*x, 1),
        _ => panic!("expected the first field"),
    }
    assert!(v.member("missing").is_none());
    assert!(JsonValue::Null.member("k").is_none());
}

#[test]
fn model_element_and_accessors() {
    let v = JsonValue::List(vec![JsonValue::UInt(7), JsonValue::Text("x".to_owned())]);
    assert_eq!(v.element(0).unwrap().as_u64(), Some(7));
    assert_eq!(v.element(1).unwrap().as_text().map(String::as_str), Some("x"));
    assert!(v.element(2).is_none());
    assert!(JsonValue::UInt(7).element(0).is_none());
    assert!(JsonValue::Null.as_u64().is_none());
}
