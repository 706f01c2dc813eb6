//! The capture session's state machine. A session walks through the
//! loading stages — OCR, dictionary alignment, card-state lookup — and ends
//! in the ready state or, on any stage's failure, in a failed state with a
//! single reported error. The caller polls each stage's job once per render
//! tick, translates what it saw into a [`StageEvent`], and performs the
//! [`StageAction`] that [`step`] hands back; no stage ever blocks the render
//! loop, and no partial ready state is ever exposed.

use vstd::prelude::*;

use crate::navigate::{grid_wf, pos_before, sel_in_bounds, Rect};
use crate::word::{paragraph_view, Word, WordView};

verus! {

/// Whether the word at `q` exists and carries a definition.
pub open spec fn has_definition_at(g: Seq<Vec<Word>>, q: (usize, usize)) -> bool {
    sel_in_bounds(g, q) && g[q.0 as int]@[q.1 as int]@.definition is Some
}

/// What the initial cursor is: the first position in row-major order whose
/// word has a definition, or `(0, 0)` when no word has one.
pub open spec fn initial_selection_spec(g: Seq<Vec<Word>>, r: (usize, usize)) -> bool {
    if exists|q: (usize, usize)| has_definition_at(g, q) {
        has_definition_at(g, r) && forall|q: (usize, usize)|
            #[trigger] has_definition_at(g, q) ==> !pos_before(q, r)
    } else {
        r == (0usize, 0usize)
    }
}

/// The first position in row-major order whose word has a definition,
/// defaulting to `(0, 0)` when none exists.
pub fn initial_selection(words: &Vec<Vec<Word>>) -> (r: (usize, usize))
    ensures
        initial_selection_spec(words@, r),
{
    let ghost g = words@;
    let mut p: usize = 0;
    while p < words.len()
        invariant
            p <= g.len(),
            g == words@,
            forall|q: (usize, usize)| q.0 < p ==> !(#[trigger] has_definition_at(g, q)),
        decreases g.len() - p,
    {
        let mut w: usize = 0;
        while w < words[p].len()
            invariant
                p < g.len(),
                w <= g[p as int]@.len(),
                g == words@,
                forall|q: (usize, usize)| q.0 < p ==> !(#[trigger] has_definition_at(g, q)),
                forall|q: (usize, usize)|
                    q.0 == p && q.1 < w ==> !(#[trigger] has_definition_at(g, q)),
            decreases g[p as int]@.len() - w,
        {
            if words[p][w].definition.is_some() {
                proof {
                    assert(has_definition_at(g, (p, w)));
                    assert forall|q: (usize, usize)| #[trigger]
                        has_definition_at(g, q) implies !pos_before(q, (p, w)) by {}
                }
                return (p, w);
            }
            w += 1;
        }
        p += 1;
    }
    proof {
        assert forall|q: (usize, usize)| !(#[trigger] has_definition_at(g, q)) by {
            if has_definition_at(g, q) {
                assert(q.0 < p);
            }
        }
    }
    (0, 0)
}

/// The words of a grid in row-major order.
pub open spec fn flatten_grid(g: Seq<Vec<Word>>) -> Seq<WordView>
    decreases g.len(),
{
    if g.len() == 0 {
        Seq::empty()
    } else {
        paragraph_view(g[0]@) + flatten_grid(g.drop_first())
    }
}

/// Appending a paragraph appends its words to the flattening.
proof fn lemma_flatten_grid_snoc(g: Seq<Vec<Word>>, p: Vec<Word>)
    ensures
        flatten_grid(g.push(p)) == flatten_grid(g) + paragraph_view(p@),
    decreases g.len(),
{
    if g.len() == 0 {
        assert(g.push(p).drop_first() =~= Seq::<Vec<Word>>::empty());
        assert(flatten_grid(g.push(p).drop_first()) == Seq::<WordView>::empty());
        assert(flatten_grid(g.push(p)) =~= flatten_grid(g) + paragraph_view(p@));
    } else {
        assert(g.push(p)[0] == g[0]);
        assert(g.push(p).drop_first() =~= g.drop_first().push(p));
        lemma_flatten_grid_snoc(g.drop_first(), p);
        assert(flatten_grid(g.push(p)) =~= flatten_grid(g) + paragraph_view(p@));
    }
}

/// The grid's words as one flat list in row-major order (deep copies), as
/// handed to the batched card-state lookup.
pub fn flatten_words(words: &Vec<Vec<Word>>) -> (r: Vec<Word>)
    ensures
        paragraph_view(r@) == flatten_grid(words@),
{
    let ghost g = words@;
    let mut r: Vec<Word> = Vec::new();
    proof {
        assert(g.take(0) =~= Seq::<Vec<Word>>::empty());
        assert(paragraph_view(r@) =~= flatten_grid(g.take(0)));
    }
    let mut p: usize = 0;
    while p < words.len()
        invariant
            p <= g.len(),
            g == words@,
            paragraph_view(r@) == flatten_grid(g.take(p as int)),
        decreases g.len() - p,
    {
        let ghost r_before = r@;
        let mut w: usize = 0;
        while w < words[p].len()
            invariant
                p < g.len(),
                w <= g[p as int]@.len(),
                g == words@,
                paragraph_view(r@) == paragraph_view(r_before) + paragraph_view(
                    g[p as int]@.take(w as int),
                ),
            decreases g[p as int]@.len() - w,
        {
            let ghost r_mid = r@;
            r.push(words[p][w].duplicate());
            proof {
                let para = g[p as int]@;
                assert(paragraph_view(r@) =~= paragraph_view(r_mid).push(para[w as int]@));
                assert(para.take(w + 1) =~= para.take(w as int).push(para[w as int]));
                assert(paragraph_view(para.take(w + 1)) =~= paragraph_view(
                    para.take(w as int),
                ).push(para[w as int]@));
                assert(paragraph_view(r@) =~= paragraph_view(r_before) + paragraph_view(
                    para.take(w + 1),
                ));
            }
            w += 1;
        }
        proof {
            assert(g[p as int]@.take(g[p as int]@.len() as int) =~= g[p as int]@);
            assert(g.take(p + 1) =~= g.take(p as int).push(g[p as int]));
            lemma_flatten_grid_snoc(g.take(p as int), g[p as int]);
            assert(paragraph_view(r@) =~= flatten_grid(g.take(p + 1)));
        }
        p += 1;
    }
    proof {
        assert(g.take(g.len() as int) =~= g);
    }
    r
}

/// The session's view once everything is loaded: the word grid, the screen
/// layout captured on the first render pass, the cursor, and whether the
/// next render should scroll to it.
pub struct ReadyState {
    /// List of paragraphs, represented as lists of words with definitions.
    pub words: Vec<Vec<Word>>,
    /// How the words are laid out on the screen, used for finding the
    /// closest word when moving up or down.
    pub word_rects: Vec<(usize, usize, Rect)>,
    /// Index of the word currently selected by the user.
    pub selected_word: (usize, usize),
    /// Whether the view should scroll to the selected word on this frame.
    pub scroll_to_current_word_requested: bool,
}

impl ReadyState {
    /// The selection points into the grid (whenever the grid is non-empty).
    pub open spec fn wf(self) -> bool {
        self.words@.len() > 0 ==> sel_in_bounds(self.words@, self.selected_word)
    }

    /// A reference to the currently selected word.
    pub fn selected_word(&self) -> (r: &Word)
        requires
            sel_in_bounds(self.words@, self.selected_word),
        ensures
            r == self.words@[self.selected_word.0 as int]@[self.selected_word.1 as int],
    {
        &self.words[self.selected_word.0][self.selected_word.1]
    }

    /// Store the layout captured by the renderer, on the first pass only:
    /// once captured, the layout is immutable for the life of this state.
    pub fn store_layout(&mut self, rects: Vec<(usize, usize, Rect)>)
        ensures
            old(self).word_rects@.len() == 0 ==> *final(self) == (ReadyState {
                word_rects: rects,
                ..*old(self)
            }),
            old(self).word_rects@.len() != 0 ==> *final(self) == *old(self),
    {
        if self.word_rects.len() == 0 {
            self.word_rects = rects;
        }
    }
}

/// The capture session's stage.
pub enum State {
    /// Waiting on the OCR service.
    LoadingOcr,
    /// Waiting on the dictionary service.
    LoadingDictionary,
    /// Waiting on the card-state lookup, holding the aligned words.
    LoadingSrs(Vec<Vec<Word>>),
    /// Everything loaded; the session is interactive.
    Ready(ReadyState),
    /// A stage failed; the session is over and its error was reported.
    Failed(String),
}

impl State {
    /// Whether the session still waits on data from a service.
    pub fn is_loading(&self) -> (r: bool)
        ensures
            r == (self matches State::LoadingOcr || self matches State::LoadingDictionary
                || self matches State::LoadingSrs(_)),
    {
        match self {
            State::LoadingOcr | State::LoadingDictionary | State::LoadingSrs(_) => true,
            State::Ready(_) | State::Failed(_) => false,
        }
    }
}

/// What the caller's poll of the current stage's job observed this tick.
pub enum StageEvent {
    /// The job has not finished yet.
    Pending,
    /// The OCR job finished with the captured paragraph strings.
    OcrText(Vec<String>),
    /// The dictionary job finished with the aligned word grid.
    Words(Vec<Vec<Word>>),
    /// The card-state lookup finished.
    SrsLoaded,
    /// The stage's job failed (an error, or a worker panic converted into
    /// one); the message is the error to surface.
    Failed(String),
}

/// What the caller must do after a step.
pub enum StageAction {
    /// Nothing; keep polling.
    Wait,
    /// Start the dictionary job over these paragraph strings.
    StartDictionary(Vec<String>),
    /// Start the batched card-state lookup over these words.
    StartSrs(Vec<Word>),
    /// Surface this error to the user, once; the session is over.
    Report(String),
}

/// The state invariant the stepper maintains: aligned word grids have no
/// empty paragraph (as the aligner guarantees), and a ready state's cursor
/// points into its grid.
pub open spec fn state_wf(s: State) -> bool {
    match s {
        State::LoadingSrs(w) => grid_wf(w@),
        State::Ready(rs) => grid_wf(rs.words@) && rs.wf(),
        _ => true,
    }
}

/// Whether an event can be observed in a state: loading stages see their
/// own job's outcome or `Pending`; terminal states only ever see `Pending`.
pub open spec fn event_fits(state: State, event: StageEvent) -> bool {
    match state {
        State::LoadingOcr => event matches StageEvent::Pending || event
            matches StageEvent::OcrText(_) || event matches StageEvent::Failed(_),
        State::LoadingDictionary => event matches StageEvent::Pending || event
            matches StageEvent::Words(_) || event matches StageEvent::Failed(_),
        State::LoadingSrs(_) => event matches StageEvent::Pending || event
            matches StageEvent::SrsLoaded || event matches StageEvent::Failed(_),
        State::Ready(_) => event matches StageEvent::Pending,
        State::Failed(_) => event matches StageEvent::Pending,
    }
}

/// Drive the session one tick: from the current state and what the poll
/// observed, the next state and what to do. Stages advance strictly in
/// order — OCR, then dictionary, then card states, then ready with the
/// cursor on the first defined word; any failure ends the session with one
/// reported error, and a pending poll changes nothing.
pub fn step(state: State, event: StageEvent) -> (r: (State, StageAction))
    requires
        event_fits(state, event),
        state_wf(state),
        event matches StageEvent::Words(w) ==> grid_wf(w@),
    ensures
        state_wf(r.0),
        event matches StageEvent::Pending ==> r.0 == state && r.1 matches StageAction::Wait,
        event matches StageEvent::Failed(e) ==> ((r.0 matches State::Failed(e2) && e2 == e) && (
        r.1 matches StageAction::Report(e3) && e3 == e)),
        event matches StageEvent::OcrText(t) ==> ((r.0 matches State::LoadingDictionary) && (r.1
            matches StageAction::StartDictionary(u) && u == t)),
        event matches StageEvent::Words(w) ==> ((r.0 matches State::LoadingSrs(w2) && w2 == w) && (
        r.1 matches StageAction::StartSrs(f) && paragraph_view(f@) == flatten_grid(w@))),
        state matches State::LoadingSrs(w) ==> (event matches StageEvent::SrsLoaded ==> (r.0
            matches State::Ready(s) && (s.words == w && s.word_rects@.len() == 0
            && initial_selection_spec(w@, s.selected_word)
            && !s.scroll_to_current_word_requested))),
{
    match event {
        StageEvent::Pending => (state, StageAction::Wait),
        StageEvent::Failed(e) => {
            let report = e.clone();
            (State::Failed(e), StageAction::Report(report))
        },
        StageEvent::OcrText(t) => (State::LoadingDictionary, StageAction::StartDictionary(t)),
        StageEvent::Words(w) => {
            let flat = flatten_words(&w);
            (State::LoadingSrs(w), StageAction::StartSrs(flat))
        },
        StageEvent::SrsLoaded => {
            match state {
                State::LoadingSrs(words) => {
                    let selected = initial_selection(&words);
                    proof {
                        if words@.len() > 0 {
                            if exists|q: (usize, usize)| has_definition_at(words@, q) {
                                assert(has_definition_at(words@, selected));
                            } else {
                                assert(selected == (0usize, 0usize));
                                assert(words@[0]@.len() > 0);
                            }
                            assert(sel_in_bounds(words@, selected));
                        }
                    }
                    let ready = ReadyState {
                        words,
                        word_rects: Vec::new(),
                        selected_word: selected,
                        scroll_to_current_word_requested: false,
                    };
                    (State::Ready(ready), StageAction::Wait)
                },
                _ => {
                    proof {
                        assert(false);
                    }
                    (state, StageAction::Wait)
                },
            }
        },
    }
}

} // verus!
