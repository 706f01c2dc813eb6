use deckocr::navigate::Rect;
use deckocr::pipeline::{
    flatten_words, initial_selection, StageAction, StageEvent, State,
};
use deckocr::word::{Definition, Word};

fn defined(text: &str) -> Word {
    let mut w = Word::plain(text.to_owned());
    w.definition = Some(Definition {
        spelling: text.to_owned(),
        reading: String::new(),
        frequency: None,
        meanings: vec![],
        stable_id: None,
    });
    w
}

#[test]
fn initial_selection_is_first_defined_word() {
    let grid = vec![
        vec![Word::plain("a".to_owned()), Word::plain("b".to_owned())],
        vec![Word::plain("c".to_owned()), defined("d"), defined("e")],
    ];
    assert_eq!(initial_selection(&grid), (1, 1));
}

#[test]
fn initial_selection_defaults_to_origin() {
    let grid = vec![vec![Word::plain("a".to_owned())]];
    assert_eq!(initial_selection(&grid), (0, 0));
    let empty: Vec<Vec<Word>> = vec![];
    assert_eq!(initial_selection(&empty), (0, 0));
}

#[test]
fn flatten_preserves_row_major_order() {
    let grid = vec![
        vec![defined("a"), defined("b")],
        vec![defined("c")],
    ];
    let flat = flatten_words(&grid);
    let spellings: Vec<String> = flat
        .iter()
        .map(|w| w.definition.as_ref().unwrap().spelling.clone())
        .collect();
    assert_eq!(spellings, vec!["a".to_owned(), "b".to_owned(), "c".to_owned()]);
}

#[test]
fn pipeline_walks_the_stages_in_order() {
    let state = State::LoadingOcr;
    // Pending changes nothing.
    let (state, action) = deckocr::pipeline::step(state, StageEvent::Pending);
    assert!(matches!(state, State::LoadingOcr));
    assert!(matches!(action, StageAction::Wait));

    // OCR done: the dictionary job starts over the captured text.
    let text = vec!["私は".to_owned()];
    let (state, action) = deckocr::pipeline::step(state, StageEvent::OcrText(text.clone()));
    assert!(matches!(state, State::LoadingDictionary));
    match action {
        StageAction::StartDictionary(t) => assert_eq!(t, text),
        _ => panic!("expected the dictionary job to start"),
    }

    // Dictionary done: the card-state lookup starts over the flat word list.
    let grid = vec![vec![defined("私"), Word::plain("は".to_owned())]];
    let (state, action) = deckocr::pipeline::step(state, StageEvent::Words(grid));
    assert!(matches!(state, State::LoadingSrs(_)));
    match &action {
        StageAction::StartSrs(flat) => {
            assert_eq!(flat.len(), 2);
            assert_eq!(flat[0].definition.as_ref().unwrap().spelling, "私");
        }
        _ => panic!("expected the card-state lookup to start"),
    }

    // Card states done: ready, with the cursor on the first defined word.
    let (state, action) = deckocr::pipeline::step(state, StageEvent::SrsLoaded);
    assert!(matches!(action, StageAction::Wait));
    match state {
        State::Ready(ready) => {
            assert_eq!(ready.selected_word, (0, 0));
            assert!(ready.word_rects.is_empty());
            assert!(!ready.scroll_to_current_word_requested);
        }
        _ => panic!("expected the ready state"),
    }
}

#[test]
fn any_stage_failure_ends_the_session_with_one_report() {
    let (state, action) = deckocr::pipeline::step(
        State::LoadingDictionary,
        StageEvent::Failed("connection refused".to_owned()),
    );
    match (&state, &action) {
        (State::Failed(e), StageAction::Report(msg)) => {
            assert_eq!(e, "connection refused");
            assert_eq!(msg, "connection refused");
        }
        _ => panic!("expected a failed session and one report"),
    }
    // Afterwards the session just sits there; the error is not re-reported.
    let (state, action) = deckocr::pipeline::step(state, StageEvent::Pending);
    assert!(matches!(state, State::Failed(_)));
    assert!(matches!(action, StageAction::Wait));
}

#[test]
fn is_loading_reflects_the_stage() {
    assert!(State::LoadingOcr.is_loading());
    assert!(State::LoadingDictionary.is_loading());
    assert!(State::LoadingSrs(vec![vec![defined("a")]]).is_loading());
    assert!(!State::Failed("e".to_owned()).is_loading());
}

#[test]
fn ready_state_selected_word_and_layout_capture() {
    let grid = vec![vec![defined("私"), Word::plain("は".to_owned())]];
    let (state, _) = deckocr::pipeline::step(State::LoadingSrs(grid), StageEvent::SrsLoaded);
    let mut ready = match state {
        State::Ready(r) => r,
        _ => panic!("expected the ready state"),
    };
    assert_eq!(ready.selected_word().definition.as_ref().unwrap().spelling, "私");

    let layout = vec![(0usize, 0usize, Rect { left: 0, top: 0, right: 1, bottom: 1 })];
    ready.store_layout(layout);
    assert_eq!(ready.word_rects.len(), 1);
    // A second capture is ignored: the layout is write-once per session.
    ready.store_layout(vec![]);
    assert_eq!(ready.word_rects.len(), 1);
}
