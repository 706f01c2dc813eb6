use deckocr::align::{align_paragraph, align_paragraphs, filter_paragraphs, Token, VocabularyEntry};
use deckocr::word::{TextFragment, Word};

fn vocab_entry(spelling: &str, reading: &str) -> VocabularyEntry {
    VocabularyEntry {
        spelling: spelling.to_owned(),
        reading: reading.to_owned(),
        frequency: Some(100),
        meanings: vec!["meaning".to_owned()],
        card_state_name: None,
        stable_id: Some((1, 2)),
    }
}

fn token(vocab_index: usize, position: usize, length: usize) -> Token {
    Token { vocab_index, position, length, furigana: None }
}

fn surface(word: &Word) -> String {
    let mut s = String::new();
    for fragment in &word.text.0 {
        s.push_str(&fragment.text);
    }
    s
}

#[test]
fn empty_token_list_yields_one_plain_word() {
    let words = align_paragraph("こんにちは", &vec![], &vec![]).unwrap();
    assert_eq!(words.len(), 1);
    assert_eq!(surface(&words[0]), "こんにちは");
    assert!(words[0].definition.is_none());
}

#[test]
fn empty_string_with_no_tokens_yields_one_empty_word() {
    let words = align_paragraph("", &vec![], &vec![]).unwrap();
    assert_eq!(words.len(), 1);
    assert_eq!(surface(&words[0]), "");
    assert!(words[0].definition.is_none());
}

#[test]
fn end_to_end_example() {
    // Paragraph "私は猫が好き" with tokens at positions 0 and 2 yields four
    // words whose texts concatenate back to the input.
    let vocab = vec![vocab_entry("私", "わたし"), vocab_entry("猫", "ねこ")];
    let tokens = vec![token(0, 0, 1), token(1, 2, 1)];
    let words = align_paragraph("私は猫が好き", &tokens, &vocab).unwrap();

    assert_eq!(words.len(), 4);
    assert_eq!(surface(&words[0]), "私");
    assert_eq!(words[0].definition.as_ref().unwrap().spelling, "私");
    assert_eq!(surface(&words[1]), "は");
    assert!(words[1].definition.is_none());
    assert_eq!(surface(&words[2]), "猫");
    assert_eq!(words[2].definition.as_ref().unwrap().spelling, "猫");
    assert_eq!(surface(&words[3]), "が好き");
    assert!(words[3].definition.is_none());

    let reassembled: String = words.iter().map(surface).collect();
    assert_eq!(reassembled, "私は猫が好き");
}

#[test]
fn completeness_on_gaps_and_tail() {
    // Gaps before, between and after the tokens are kept verbatim.
    let vocab = vec![vocab_entry("b", "b"), vocab_entry("d", "d")];
    let tokens = vec![token(0, 1, 1), token(1, 3, 1)];
    let words = align_paragraph("abcde", &tokens, &vocab).unwrap();
    let texts: Vec<String> = words.iter().map(surface).collect();
    assert_eq!(texts, vec!["a", "b", "c", "d", "e"]);
    let reassembled: String = texts.concat();
    assert_eq!(reassembled, "abcde");
}

#[test]
fn adjacent_tokens_emit_no_gap() {
    let vocab = vec![vocab_entry("a", "a"), vocab_entry("b", "b")];
    let tokens = vec![token(0, 0, 1), token(1, 1, 1)];
    let words = align_paragraph("ab", &tokens, &vocab).unwrap();
    assert_eq!(words.len(), 2);
    assert!(words[0].definition.is_some());
    assert!(words[1].definition.is_some());
}

#[test]
fn furigana_becomes_the_word_text() {
    let vocab = vec![vocab_entry("私", "わたし")];
    let tokens = vec![Token {
        vocab_index: 0,
        position: 0,
        length: 1,
        furigana: Some(vec![TextFragment { text: "私".to_owned(), ruby: Some("わたし".to_owned()) }]),
    }];
    let words = align_paragraph("私は", &tokens, &vocab).unwrap();
    assert_eq!(words.len(), 2);
    assert_eq!(words[0].text.0[0].ruby.as_deref(), Some("わたし"));
    assert_eq!(surface(&words[0]), "私");
    assert_eq!(surface(&words[1]), "は");
}

#[test]
fn overlapping_tokens_are_rejected() {
    let vocab = vec![vocab_entry("a", "a"), vocab_entry("b", "b")];
    let tokens = vec![token(0, 0, 2), token(1, 1, 1)];
    assert!(align_paragraph("abc", &tokens, &vocab).is_err());
}

#[test]
fn unsorted_tokens_are_rejected() {
    let vocab = vec![vocab_entry("a", "a"), vocab_entry("b", "b")];
    let tokens = vec![token(0, 2, 1), token(1, 0, 1)];
    assert!(align_paragraph("abc", &tokens, &vocab).is_err());
}

#[test]
fn token_past_the_end_is_rejected() {
    let vocab = vec![vocab_entry("a", "a")];
    let tokens = vec![token(0, 2, 5)];
    assert!(align_paragraph("abc", &tokens, &vocab).is_err());
}

#[test]
fn vocab_index_out_of_range_is_rejected() {
    let vocab = vec![vocab_entry("a", "a")];
    let tokens = vec![token(3, 0, 1)];
    assert!(align_paragraph("abc", &tokens, &vocab).is_err());
}

#[test]
fn furigana_that_misspells_its_span_is_rejected() {
    let vocab = vec![vocab_entry("a", "a")];
    let tokens = vec![Token {
        vocab_index: 0,
        position: 0,
        length: 1,
        furigana: Some(vec![TextFragment { text: "x".to_owned(), ruby: None }]),
    }];
    assert!(align_paragraph("abc", &tokens, &vocab).is_err());
}

#[test]
fn empty_furigana_is_rejected() {
    let vocab = vec![vocab_entry("a", "a")];
    let tokens = vec![Token { vocab_index: 0, position: 0, length: 1, furigana: Some(vec![]) }];
    assert!(align_paragraph("abc", &tokens, &vocab).is_err());
}

#[test]
fn batch_alignment_pairs_texts_with_token_lists() {
    let vocab = vec![vocab_entry("a", "a")];
    let texts = vec!["ab".to_owned(), "cd".to_owned()];
    let lists = vec![vec![token(0, 0, 1)], vec![]];
    let grid = align_paragraphs(&texts, &lists, &vocab).unwrap();
    assert_eq!(grid.len(), 2);
    assert_eq!(grid[0].len(), 2);
    assert_eq!(grid[1].len(), 1);
    assert_eq!(surface(&grid[1][0]), "cd");
}

#[test]
fn batch_alignment_rejects_mismatched_lengths() {
    let texts = vec!["ab".to_owned()];
    let lists: Vec<Vec<Token>> = vec![];
    assert!(align_paragraphs(&texts, &lists, &vec![]).is_err());
}

#[test]
fn filter_drops_paragraphs_without_definitions() {
    let vocab = vec![vocab_entry("a", "a")];
    let texts = vec!["ab".to_owned(), "cd".to_owned()];
    let lists = vec![vec![token(0, 0, 1)], vec![]];
    let grid = align_paragraphs(&texts, &lists, &vocab).unwrap();
    let kept = filter_paragraphs(&grid);
    assert_eq!(kept.len(), 1);
    assert_eq!(surface(&kept[0][0]), "a");
    assert!(kept[0][0].definition.is_some());
}

#[test]
fn definition_is_copied_from_the_vocabulary_entry() {
    let mut entry = vocab_entry("犬", "いぬ");
    entry.frequency = Some(321);
    entry.meanings = vec!["dog".to_owned(), "hound".to_owned()];
    entry.stable_id = Some((77, 88));
    let words = align_paragraph("犬", &vec![token(0, 0, 1)], &vec![entry]).unwrap();
    let def = words[0].definition.as_ref().unwrap();
    assert_eq!(def.spelling, "犬");
    assert_eq!(def.reading, "いぬ");
    assert_eq!(def.frequency, Some(321));
    assert_eq!(def.meanings, vec!["dog".to_owned(), "hound".to_owned()]);
    assert_eq!(def.stable_id, Some((77, 88)));
}
