use deckocr::navigate::{move_horizontal, move_vertical, navigate, NavDirection, Rect};
use deckocr::srs::{CardState, CardStateCache, Rgb};
use deckocr::word::{Definition, Word};

fn plain(text: &str) -> Word {
    Word::plain(text.to_owned())
}

fn defined(text: &str, relevant_key: &str) -> Word {
    let mut w = Word::plain(text.to_owned());
    w.definition = Some(Definition {
        spelling: relevant_key.to_owned(),
        reading: String::new(),
        frequency: None,
        meanings: vec![],
        stable_id: None,
    });
    w
}

fn states() -> Vec<CardState> {
    vec![
        CardState { name: "unparsed".to_owned(), colour: Rgb { r: 255, g: 255, b: 255 }, is_relevant: false },
        CardState { name: "not in deck".to_owned(), colour: Rgb { r: 0, g: 200, b: 255 }, is_relevant: true },
        CardState { name: "known".to_owned(), colour: Rgb { r: 125, g: 255, b: 125 }, is_relevant: false },
    ]
}

/// A grid of two paragraphs: [plain, defined "a"], [defined "b", plain].
fn grid() -> Vec<Vec<Word>> {
    vec![
        vec![plain("x"), defined("a", "a")],
        vec![defined("b", "b"), plain("y")],
    ]
}

#[test]
fn move_right_steps_to_next_defined_word() {
    let cache = CardStateCache::new(states());
    let words = grid();
    // From (0,0): the next defined word is (0,1).
    assert_eq!(move_horizontal(&words, &cache, (0, 0), 1, false), (0, 1));
    // From (0,1): crossing into the next paragraph lands on (1,0).
    assert_eq!(move_horizontal(&words, &cache, (0, 1), 1, false), (1, 0));
}

#[test]
fn move_right_from_last_defined_word_stays_put() {
    let cache = CardStateCache::new(states());
    let words = grid();
    // From (1,0), the only word right of it is plain: no move.
    assert_eq!(move_horizontal(&words, &cache, (1, 0), 1, false), (1, 0));
    // Repeated moves stay in bounds and keep returning the same spot.
    let mut sel = (0, 0);
    for _ in 0..10 {
        sel = move_horizontal(&words, &cache, sel, 1, false);
        assert!(sel.0 < words.len() && sel.1 < words[sel.0].len());
    }
    assert_eq!(sel, (1, 0));
}

#[test]
fn move_left_crosses_to_previous_paragraph_last_word() {
    let cache = CardStateCache::new(states());
    let words = grid();
    assert_eq!(move_horizontal(&words, &cache, (1, 0), -1, false), (0, 1));
    assert_eq!(move_horizontal(&words, &cache, (0, 1), -1, false), (0, 1));
}

#[test]
fn skip_irrelevant_lands_only_on_relevant_words() {
    let mut cache = CardStateCache::new(states());
    // "a" resolves to "known" (irrelevant), "b" to "not in deck" (relevant).
    cache.insert_spelling_state("a".to_owned(), 2);
    cache.insert_spelling_state("b".to_owned(), 1);
    let words = grid();
    // With the filter on, (0,1) (irrelevant) is skipped in favour of (1,0).
    let r = move_horizontal(&words, &cache, (0, 0), 1, true);
    assert_eq!(r, (1, 0));
    let s = cache.card_state(&words[r.0][r.1]);
    assert!(s.is_relevant);
}

#[test]
fn skip_irrelevant_with_no_relevant_word_does_not_move() {
    let mut cache = CardStateCache::new(states());
    cache.insert_spelling_state("a".to_owned(), 2);
    cache.insert_spelling_state("b".to_owned(), 2);
    let words = grid();
    assert_eq!(move_horizontal(&words, &cache, (0, 0), 1, true), (0, 0));
}

fn rect(left: i32, top: i32, right: i32, bottom: i32) -> Rect {
    Rect { left, top, right, bottom }
}

#[test]
fn vertical_move_picks_nearest_center_above() {
    // Selection sits at the bottom; three defined candidates strictly above.
    let words = vec![vec![
        defined("near", "n"),
        defined("far", "f"),
        defined("also", "al"),
        defined("cur", "c"),
    ]];
    let rects = vec![
        (0usize, 0usize, rect(0, 80, 10, 90)),    // center (5, 85)
        (0usize, 1usize, rect(200, 0, 210, 10)),  // center (205, 5): far away
        (0usize, 2usize, rect(0, 0, 10, 10)),     // center (5, 5): above but farther
        (0usize, 3usize, rect(0, 100, 10, 110)),  // the selection's own rectangle
    ];
    let r = move_vertical(&words, &rects, (0, 3), -1);
    assert_eq!(r, (0, 0));
}

#[test]
fn vertical_move_ties_break_by_layout_order() {
    let words = vec![vec![defined("a", "a"), defined("b", "b"), defined("c", "c")]];
    let rects = vec![
        (0usize, 1usize, rect(10, 0, 20, 10)),   // same distance as the next
        (0usize, 0usize, rect(-20, 0, -10, 10)), // mirrored: equally far
        (0usize, 2usize, rect(-5, 100, 5, 110)),
    ];
    // Both candidates are equally far from the current center; the earlier
    // layout entry wins.
    let r = move_vertical(&words, &rects, (0, 2), -1);
    assert_eq!(r, (0, 1));
}

#[test]
fn vertical_move_without_candidates_stays_put() {
    let words = vec![vec![defined("a", "a"), defined("cur", "c")]];
    let rects = vec![
        (0usize, 0usize, rect(0, 0, 10, 10)),
        (0usize, 1usize, rect(0, 100, 10, 110)),
    ];
    // Nothing lies below the selection.
    assert_eq!(move_vertical(&words, &rects, (0, 1), 1), (0, 1));
}

#[test]
fn vertical_move_ignores_words_without_definitions() {
    let words = vec![vec![plain("gap"), defined("cur", "c")]];
    let rects = vec![
        (0usize, 0usize, rect(0, 0, 10, 10)),
        (0usize, 1usize, rect(0, 100, 10, 110)),
    ];
    // The only rectangle above belongs to an undefined word.
    assert_eq!(move_vertical(&words, &rects, (0, 1), -1), (0, 1));
}

#[test]
fn navigate_up_with_skip_takes_one_more_step() {
    // Up lands on an irrelevant word; the skip modifier then walks left to
    // the nearest relevant one.
    let words = vec![
        vec![defined("rel", "rel"), defined("irr", "irr")],
        vec![defined("cur", "cur")],
    ];
    let rects = vec![
        (0usize, 0usize, rect(0, 0, 10, 10)),
        (0usize, 1usize, rect(20, 0, 30, 10)),
        (1usize, 0usize, rect(20, 100, 30, 110)),
    ];
    let mut cache = CardStateCache::new(states());
    cache.insert_spelling_state("rel".to_owned(), 1);
    cache.insert_spelling_state("irr".to_owned(), 2);
    cache.insert_spelling_state("cur".to_owned(), 1);

    // Without the modifier, up lands on the nearest rectangle above: (0,1).
    let up_plain = navigate(&words, &cache, &rects, (1, 0), NavDirection::Up, false);
    assert_eq!(up_plain, (0, 1));
    // With it, one further leftward skip lands on the relevant (0,0).
    let up_skip = navigate(&words, &cache, &rects, (1, 0), NavDirection::Up, true);
    assert_eq!(up_skip, (0, 0));
}

#[test]
fn navigate_left_right_match_horizontal_moves() {
    let cache = CardStateCache::new(states());
    let words = grid();
    let rects = vec![(0usize, 0usize, rect(0, 0, 1, 1))];
    assert_eq!(
        navigate(&words, &cache, &rects, (0, 0), NavDirection::Right, false),
        move_horizontal(&words, &cache, (0, 0), 1, false)
    );
    assert_eq!(
        navigate(&words, &cache, &rects, (1, 0), NavDirection::Left, false),
        move_horizontal(&words, &cache, (1, 0), -1, false)
    );
}
