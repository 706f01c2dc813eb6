//! Decoding the dictionary backend's responses. The caller performs the
//! HTTP exchange and hands the response in as a [`JsonValue`] of plain
//! values; everything from there on — walking the structure, rejecting
//! malformed items, aligning the tokens against the paragraph strings — is
//! done and specified here, exactly. Malformed or missing fields at any
//! expected position reject the whole batch; no partial result is returned.

use vstd::prelude::*;

use crate::align::{
    align_paragraphs, aligned_words, filter_paragraphs, grid_view, paragraph_has_definition,
    tokens_ok, tokens_view, Token, TokenView, VocabularyEntry, VocabularyEntryView,
};
use crate::json::{spec_element, spec_member, spec_u64, JsonValue};
use crate::word::{paragraph_view, words_text, FragmentView, TextFragment, Word, WordView};

verus! {

/// Why a backend response was rejected.
#[derive(Debug, Clone, PartialEq, Eq)]
pub enum ResponseError {
    /// The response has no `tokens` field, or it is not an array.
    MissingTokens,
    /// The response has no `vocabulary` (or `vocabulary_info`) field, or it
    /// is not an array, or it is empty where one element was required.
    MissingVocabulary,
    /// An item in the token list is malformed.
    MalformedTokens,
    /// An item in the vocabulary list is malformed.
    MalformedVocabulary,
    /// Structurally valid, but the tokens do not fit the paragraph strings
    /// or the vocabulary table (out of order, out of range, or furigana
    /// that does not spell its token's span).
    Misaligned,
}

/// Every element of a filtered sequence comes from the sequence it was
/// filtered out of.
proof fn lemma_filter_element_from<A>(s: Seq<A>, pred: spec_fn(A) -> bool, j: int)
    requires
        0 <= j < s.filter(pred).len(),
    ensures
        exists|i: int| 0 <= i < s.len() && s[i] == s.filter(pred)[j],
    decreases s.len(),
{
    reveal(Seq::filter);
    if s.len() > 0 {
        let out = s.filter(pred);
        let sub = s.drop_last().filter(pred);
        if pred(s.last()) {
            assert(out == sub.push(s.last()));
            if j < out.len() - 1 {
                assert(out[j] == sub[j]);
                lemma_filter_element_from(s.drop_last(), pred, j);
                let i = choose|i: int| 0 <= i < s.drop_last().len() && s.drop_last()[i] == sub[j];
                assert(s[i] == out[j]);
            } else {
                assert(s[s.len() - 1] == out[j]);
            }
        } else {
            assert(out == sub);
            lemma_filter_element_from(s.drop_last(), pred, j);
            let i = choose|i: int| 0 <= i < s.drop_last().len() && s.drop_last()[i] == sub[j];
            assert(s[i] == out[j]);
        }
    }
}

/// The unsigned integer at position `i` of a list value.
pub open spec fn spec_element_u64(v: JsonValue, i: int) -> Option<u64> {
    match spec_element(v, i) {
        Some(e) => spec_u64(e),
        None => None,
    }
}

/// One furigana fragment from its response form: a `[text, ruby]` pair of
/// strings, or a plain string with no ruby; anything else is malformed.
pub open spec fn spec_fragment(v: JsonValue) -> Option<FragmentView> {
    match v {
        JsonValue::List(_) => match (spec_element(v, 0), spec_element(v, 1)) {
            (Some(JsonValue::Text(t)), Some(JsonValue::Text(r))) => Some(
                FragmentView { text: t@, ruby: Some(r@) },
            ),
            _ => None,
        },
        JsonValue::Text(t) => Some(FragmentView { text: t@, ruby: None }),
        _ => None,
    }
}

/// All fragments of a furigana array, in order; `None` when any is
/// malformed.
pub open spec fn spec_fragments(items: Seq<JsonValue>) -> Option<Seq<FragmentView>> {
    if forall|j: int| 0 <= j < items.len() ==> (#[trigger] spec_fragment(items[j])) is Some {
        Some(Seq::new(items.len(), |j: int| spec_fragment(items[j])->0))
    } else {
        None
    }
}

/// A token's furigana field: an array of fragments when it is an array
/// (inner `None` means no furigana — the field held something else, as the
/// backend sends `null`); outer `None` when an array element is malformed.
pub open spec fn spec_furigana(v: JsonValue) -> Option<Option<Seq<FragmentView>>> {
    match v {
        JsonValue::List(items) => match spec_fragments(items@) {
            Some(fs) => Some(Some(fs)),
            None => None,
        },
        _ => Some(None),
    }
}

/// One token from its response item `[vocab_index, position, length,
/// furigana]`: the three integers must be present, unsigned and fit the
/// machine, and the fourth slot must exist.
pub open spec fn spec_token(v: JsonValue) -> Option<TokenView> {
    match (
        spec_element_u64(v, 0),
        spec_element_u64(v, 1),
        spec_element_u64(v, 2),
        spec_element(v, 3),
    ) {
        (Some(vi), Some(pos), Some(len), Some(f)) => if vi <= usize::MAX && pos <= usize::MAX
            && len <= usize::MAX {
            match spec_furigana(f) {
                Some(fur) => Some(
                    TokenView {
                        vocab_index: vi as int,
                        position: pos as int,
                        length: len as int,
                        furigana: fur,
                    },
                ),
                None => None,
            }
        } else {
            None
        },
        _ => None,
    }
}

/// All tokens of one line, in order; `None` when any is malformed.
pub open spec fn spec_tokens(items: Seq<JsonValue>) -> Option<Seq<TokenView>> {
    if forall|j: int| 0 <= j < items.len() ==> (#[trigger] spec_token(items[j])) is Some {
        Some(Seq::new(items.len(), |j: int| spec_token(items[j])->0))
    } else {
        None
    }
}

/// One line of the token response: it must be an array of tokens.
pub open spec fn spec_token_line(v: JsonValue) -> Option<Seq<TokenView>> {
    match v {
        JsonValue::List(items) => spec_tokens(items@),
        _ => None,
    }
}

/// All token lines of a parse response, one list per requested paragraph;
/// `None` when any is malformed.
pub open spec fn spec_token_lists(lines: Seq<JsonValue>) -> Option<Seq<Seq<TokenView>>> {
    if forall|j: int| 0 <= j < lines.len() ==> (#[trigger] spec_token_line(lines[j])) is Some {
        Some(Seq::new(lines.len(), |j: int| spec_token_line(lines[j])->0))
    } else {
        None
    }
}

/// The strings among a meanings array, in order; other elements are
/// skipped, as the backend intends.
pub open spec fn spec_meanings(items: Seq<JsonValue>) -> Seq<Seq<char>>
    decreases items.len(),
{
    if items.len() == 0 {
        Seq::empty()
    } else {
        let rest = spec_meanings(items.drop_last());
        match items.last() {
            JsonValue::Text(s) => rest.push(s@),
            _ => rest,
        }
    }
}

/// One vocabulary entry from its response item `[vid, sid, spelling,
/// reading, frequency, meanings, card_state]`: identifiers unsigned,
/// spelling and reading strings, the frequency slot present (a non-integer
/// there means no rank), meanings an array, and the card-state slot present
/// (its first element, when a string, is the reported state name).
pub open spec fn spec_vocab_entry(v: JsonValue) -> Option<VocabularyEntryView> {
    match (
        spec_element_u64(v, 0),
        spec_element_u64(v, 1),
        spec_element(v, 2),
        spec_element(v, 3),
        spec_element(v, 4),
        spec_element(v, 5),
        spec_element(v, 6),
    ) {
        (
            Some(vid),
            Some(sid),
            Some(JsonValue::Text(spelling)),
            Some(JsonValue::Text(reading)),
            Some(freq),
            Some(JsonValue::List(meanings)),
            Some(state),
        ) => Some(
            VocabularyEntryView {
                spelling: spelling@,
                reading: reading@,
                frequency: spec_u64(freq),
                meanings: spec_meanings(meanings@),
                card_state_name: match spec_element(state, 0) {
                    Some(JsonValue::Text(n)) => Some(n@),
                    _ => None,
                },
                stable_id: Some((vid, sid)),
            },
        ),
        _ => None,
    }
}

/// The whole vocabulary table, in order; `None` when any entry is
/// malformed.
pub open spec fn spec_vocabulary(items: Seq<JsonValue>) -> Option<Seq<VocabularyEntryView>> {
    if forall|j: int| 0 <= j < items.len() ==> (#[trigger] spec_vocab_entry(items[j])) is Some {
        Some(Seq::new(items.len(), |j: int| spec_vocab_entry(items[j])->0))
    } else {
        None
    }
}

/// One entry of a spelling-keyed lookup: its first slot must exist; a
/// string there is the state name, anything else means "not yet
/// encountered".
pub open spec fn spec_spelling_state(v: JsonValue) -> Option<Option<Seq<char>>> {
    match spec_element(v, 0) {
        Some(JsonValue::Text(s)) => Some(Some(s@)),
        Some(_) => Some(None),
        None => None,
    }
}

/// All names of a spelling-keyed lookup, in order.
pub open spec fn spec_spelling_states(items: Seq<JsonValue>) -> Option<Seq<Option<Seq<char>>>> {
    if forall|j: int| 0 <= j < items.len() ==> (#[trigger] spec_spelling_state(items[j])) is Some {
        Some(Seq::new(items.len(), |j: int| spec_spelling_state(items[j])->0))
    } else {
        None
    }
}

/// One entry of an identifier-keyed lookup: its first slot must exist and
/// is itself a list whose first element, when a string, is the state name.
pub open spec fn spec_id_state(v: JsonValue) -> Option<Option<Seq<char>>> {
    match spec_element(v, 0) {
        Some(inner) => match spec_element(inner, 0) {
            Some(JsonValue::Text(s)) => Some(Some(s@)),
            _ => Some(None),
        },
        None => None,
    }
}

/// All names of an identifier-keyed lookup, in order.
pub open spec fn spec_id_states(items: Seq<JsonValue>) -> Option<Seq<Option<Seq<char>>>> {
    if forall|j: int| 0 <= j < items.len() ==> (#[trigger] spec_id_state(items[j])) is Some {
        Some(Seq::new(items.len(), |j: int| spec_id_state(items[j])->0))
    } else {
        None
    }
}

/// The array under `key`, when the value is an object holding one there.
pub open spec fn spec_array_member(v: JsonValue, key: Seq<char>) -> Option<Seq<JsonValue>> {
    match spec_member(v, key) {
        Some(JsonValue::List(items)) => Some(items@),
        _ => None,
    }
}

/// Whether the decoded token lists fit the paragraph strings and the
/// vocabulary table, one well-formed list per string.
pub open spec fn batch_tokens_ok(
    texts: Seq<Seq<char>>,
    tls: Seq<Seq<TokenView>>,
    vocab: Seq<VocabularyEntryView>,
) -> bool {
    tls.len() == texts.len() && (forall|i: int|
        0 <= i < texts.len() ==> tokens_ok(texts[i], vocab.len() as int, 0, #[trigger] tls[i]))
}

/// Whether a paragraph's words spell out one of the given strings.
pub open spec fn spells_one_of(texts: Seq<Seq<char>>, p: Seq<WordView>) -> bool {
    exists|i: int| 0 <= i < texts.len() && words_text(p) == texts[i]
}

/// The word grid a decoded response aligns to: one aligned paragraph per
/// string, the undefined paragraphs dropped when the filter is on.
pub open spec fn spec_aligned_grid(
    texts: Seq<Seq<char>>,
    tls: Seq<Seq<TokenView>>,
    vocab: Seq<VocabularyEntryView>,
    filter: bool,
) -> Seq<Seq<WordView>> {
    let full = Seq::new(texts.len(), |i: int| aligned_words(texts[i], tls[i], vocab));
    if filter {
        full.filter(|p: Seq<WordView>| paragraph_has_definition(p))
    } else {
        full
    }
}

/// What decoding a whole parse response yields: the first failure in the
/// order the response is read, or the aligned word grid.
pub open spec fn spec_parse_response(v: JsonValue, texts: Seq<Seq<char>>, filter: bool) -> Result<
    Seq<Seq<WordView>>,
    ResponseError,
> {
    match spec_array_member(v, "tokens"@) {
        None => Err(ResponseError::MissingTokens),
        Some(tokens_json) => match spec_array_member(v, "vocabulary"@) {
            None => Err(ResponseError::MissingVocabulary),
            Some(vocab_json) => match spec_token_lists(tokens_json) {
                None => Err(ResponseError::MalformedTokens),
                Some(tls) => match spec_vocabulary(vocab_json) {
                    None => Err(ResponseError::MalformedVocabulary),
                    Some(vocab) => if batch_tokens_ok(texts, tls, vocab) {
                        Ok(spec_aligned_grid(texts, tls, vocab, filter))
                    } else {
                        Err(ResponseError::Misaligned)
                    },
                },
            },
        },
    }
}

/// The stable identifier pair the deck commit posts: the first two unsigned
/// integers of the first vocabulary entry.
pub open spec fn spec_first_vid_sid(v: JsonValue) -> Result<(u64, u64), ResponseError> {
    match spec_member(v, "vocabulary"@) {
        Some(vocab) => match spec_element(vocab, 0) {
            Some(first) => match (spec_element_u64(first, 0), spec_element_u64(first, 1)) {
                (Some(vid), Some(sid)) => Ok((vid, sid)),
                _ => Err(ResponseError::MalformedVocabulary),
            },
            None => Err(ResponseError::MissingVocabulary),
        },
        None => Err(ResponseError::MissingVocabulary),
    }
}

/// One deck of a deck-list response: `[id, name]`.
pub open spec fn spec_deck(v: JsonValue) -> Option<(u64, Seq<char>)> {
    match (spec_element_u64(v, 0), spec_element(v, 1)) {
        (Some(id), Some(JsonValue::Text(name))) => Some((id, name@)),
        _ => None,
    }
}

/// The user's decks of a deck-list response, in order; `None` when the
/// `decks` array is missing or any entry is malformed.
pub open spec fn spec_decks(v: JsonValue) -> Option<Seq<(u64, Seq<char>)>> {
    match spec_array_member(v, "decks"@) {
        Some(items) => if forall|j: int|
            0 <= j < items.len() ==> (#[trigger] spec_deck(items[j])) is Some {
            Some(Seq::new(items.len(), |j: int| spec_deck(items[j])->0))
        } else {
            None
        },
        None => None,
    }
}

/// The views of decoded token lists.
pub open spec fn token_lists_view(ts: Seq<Vec<Token>>) -> Seq<Seq<TokenView>> {
    ts.map(|i: int, l: Vec<Token>| tokens_view(l@))
}

/// The views of a decoded vocabulary table.
pub open spec fn vocab_entries_view(vs: Seq<VocabularyEntry>) -> Seq<VocabularyEntryView> {
    vs.map(|i: int, v: VocabularyEntry| v@)
}

/// The views of decoded card-state names.
pub open spec fn state_names_view(ns: Seq<Option<String>>) -> Seq<Option<Seq<char>>> {
    ns.map(
        |i: int, n: Option<String>|
            match n {
                Some(s) => Some(s@),
                None => None,
            },
    )
}

/// A `u64` as a `usize`; `None` when it does not fit.
fn u64_to_usize(x: u64) -> (r: Option<usize>)
    ensures
        r matches Some(u) ==> u == x,
        r is None ==> x > usize::MAX,
{
    if x <= usize::MAX as u64 {
        Some(x as usize)
    } else {
        None
    }
}

/// The unsigned integer at position `i` of a list value.
fn element_u64(v: &JsonValue, i: usize) -> (r: Option<u64>)
    ensures
        r == spec_element_u64(*v, i as int),
{
    match v.element(i) {
        Some(e) => e.as_u64(),
        None => None,
    }
}

/// One furigana fragment from its response item.
fn decode_fragment(v: &JsonValue) -> (r: Option<TextFragment>)
    ensures
        match spec_fragment(*v) {
            Some(fv) => r matches Some(f) && f@ == fv,
            None => r is None,
        },
{
    match v {
        JsonValue::List(_) => {
            let text = match v.element(0) {
                Some(e) => match e.as_text() {
                    Some(s) => s.clone(),
                    None => {
                        return None;
                    },
                },
                None => {
                    return None;
                },
            };
            let ruby = match v.element(1) {
                Some(e) => match e.as_text() {
                    Some(s) => s.clone(),
                    None => {
                        return None;
                    },
                },
                None => {
                    return None;
                },
            };
            Some(TextFragment { text, ruby: Some(ruby) })
        },
        JsonValue::Text(s) => Some(TextFragment { text: s.clone(), ruby: None }),
        _ => None,
    }
}

/// One token's furigana from its fourth field.
fn decode_furigana(v: &JsonValue) -> (r: Result<Option<Vec<TextFragment>>, ResponseError>)
    ensures
        match spec_furigana(*v) {
            Some(fur) => (match fur {
                Some(fs) => r matches Ok(o) && (o matches Some(frags) && frags@.map(
                    |i: int, f: TextFragment| f@,
                ) == fs),
                None => r == Ok::<Option<Vec<TextFragment>>, ResponseError>(None),
            }),
            None => r == Err::<Option<Vec<TextFragment>>, _>(ResponseError::MalformedTokens),
        },
{
    match v {
        JsonValue::List(items) => {
            let ghost iv = items@;
            let mut fragments: Vec<TextFragment> = Vec::new();
            let mut i: usize = 0;
            while i < items.len()
                invariant
                    i <= iv.len(),
                    iv == items@,
                    *v == JsonValue::List(*items),
                    fragments@.len() == i,
                    forall|j: int|
                        0 <= j < i ==> (#[trigger] spec_fragment(iv[j])) is Some && fragments@[j]@
                            == spec_fragment(iv[j])->0,
                decreases iv.len() - i,
            {
                match decode_fragment(&items[i]) {
                    Some(f) => {
                        fragments.push(f);
                    },
                    None => {
                        proof {
                            assert(spec_fragment(iv[i as int]) is None);
                            assert(spec_fragments(iv) is None);
                        }
                        return Err(ResponseError::MalformedTokens);
                    },
                }
                i += 1;
            }
            proof {
                assert(spec_fragments(iv) matches Some(fs) && fragments@.map(
                    |k: int, f: TextFragment| f@,
                ) =~= fs);
            }
            Ok(Some(fragments))
        },
        _ => Ok(None),
    }
}

/// One token from its response item.
fn decode_token(v: &JsonValue) -> (r: Result<Token, ResponseError>)
    ensures
        match spec_token(*v) {
            Some(tv) => r matches Ok(t) && t@ == tv,
            None => r == Err::<Token, _>(ResponseError::MalformedTokens),
        },
{
    let vocab_index = match element_u64(v, 0) {
        Some(x) => match u64_to_usize(x) {
            Some(u) => u,
            None => {
                return Err(ResponseError::MalformedTokens);
            },
        },
        None => {
            return Err(ResponseError::MalformedTokens);
        },
    };
    let position = match element_u64(v, 1) {
        Some(x) => match u64_to_usize(x) {
            Some(u) => u,
            None => {
                return Err(ResponseError::MalformedTokens);
            },
        },
        None => {
            return Err(ResponseError::MalformedTokens);
        },
    };
    let length = match element_u64(v, 2) {
        Some(x) => match u64_to_usize(x) {
            Some(u) => u,
            None => {
                return Err(ResponseError::MalformedTokens);
            },
        },
        None => {
            return Err(ResponseError::MalformedTokens);
        },
    };
    let furigana = match v.element(3) {
        Some(f) => match decode_furigana(f) {
            Ok(fur) => fur,
            Err(e) => {
                return Err(e);
            },
        },
        None => {
            return Err(ResponseError::MalformedTokens);
        },
    };
    let t = Token { vocab_index, position, length, furigana };
    proof {
        assert(t@ == spec_token(*v)->0);
    }
    Ok(t)
}

/// The token lists of a parse response, one list per line of the request.
pub fn decode_token_lists(lines: &Vec<JsonValue>) -> (r: Result<Vec<Vec<Token>>, ResponseError>)
    ensures
        match spec_token_lists(lines@) {
            Some(tls) => r matches Ok(ts) && token_lists_view(ts@) == tls,
            None => r == Err::<Vec<Vec<Token>>, _>(ResponseError::MalformedTokens),
        },
{
    let ghost lv = lines@;
    let mut out: Vec<Vec<Token>> = Vec::new();
    let mut i: usize = 0;
    while i < lines.len()
        invariant
            i <= lv.len(),
            lv == lines@,
            out@.len() == i,
            forall|j: int|
                0 <= j < i ==> (#[trigger] spec_token_line(lv[j])) is Some && tokens_view(
                    out@[j]@,
                ) == spec_token_line(lv[j])->0,
        decreases lv.len() - i,
    {
        let items = match lines[i].as_list() {
            Some(a) => a,
            None => {
                proof {
                    assert(spec_token_line(lv[i as int]) is None);
                    assert(spec_token_lists(lv) is None);
                }
                return Err(ResponseError::MalformedTokens);
            },
        };
        let ghost itv = items@;
        let mut tokens: Vec<Token> = Vec::new();
        let mut j: usize = 0;
        while j < items.len()
            invariant
                j <= itv.len(),
                itv == items@,
                i < lv.len(),
                lv == lines@,
                lv[i as int] == JsonValue::List(*items),
                tokens@.len() == j,
                forall|k: int|
                    0 <= k < j ==> (#[trigger] spec_token(itv[k])) is Some && tokens@[k]@
                        == spec_token(itv[k])->0,
            decreases itv.len() - j,
        {
            match decode_token(&items[j]) {
                Ok(t) => {
                    tokens.push(t);
                },
                Err(e) => {
                    proof {
                        assert(spec_token(itv[j as int]) is None);
                        assert(spec_tokens(itv) is None);
                        assert(spec_token_line(lv[i as int]) is None);
                        assert(spec_token_lists(lv) is None);
                    }
                    return Err(e);
                },
            }
            j += 1;
        }
        proof {
            assert(spec_tokens(itv) matches Some(ts) && tokens_view(tokens@) =~= ts);
            assert(spec_token_line(lv[i as int]) == spec_tokens(itv));
        }
        out.push(tokens);
        i += 1;
    }
    proof {
        assert(spec_token_lists(lv) matches Some(tls) && token_lists_view(out@) =~= tls);
    }
    Ok(out)
}

/// One vocabulary entry from its response item.
fn decode_vocab_entry(v: &JsonValue) -> (r: Result<VocabularyEntry, ResponseError>)
    ensures
        match spec_vocab_entry(*v) {
            Some(ev) => r matches Ok(e) && e@ == ev,
            None => r == Err::<VocabularyEntry, _>(ResponseError::MalformedVocabulary),
        },
{
    let vid = match element_u64(v, 0) {
        Some(x) => x,
        None => {
            return Err(ResponseError::MalformedVocabulary);
        },
    };
    let sid = match element_u64(v, 1) {
        Some(x) => x,
        None => {
            return Err(ResponseError::MalformedVocabulary);
        },
    };
    let spelling = match v.element(2) {
        Some(e) => match e.as_text() {
            Some(s) => s.clone(),
            None => {
                return Err(ResponseError::MalformedVocabulary);
            },
        },
        None => {
            return Err(ResponseError::MalformedVocabulary);
        },
    };
    let reading = match v.element(3) {
        Some(e) => match e.as_text() {
            Some(s) => s.clone(),
            None => {
                return Err(ResponseError::MalformedVocabulary);
            },
        },
        None => {
            return Err(ResponseError::MalformedVocabulary);
        },
    };
    let frequency = match v.element(4) {
        Some(e) => e.as_u64(),
        None => {
            return Err(ResponseError::MalformedVocabulary);
        },
    };
    let meanings_json = match v.element(5) {
        Some(e) => match e.as_list() {
            Some(a) => a,
            None => {
                return Err(ResponseError::MalformedVocabulary);
            },
        },
        None => {
            return Err(ResponseError::MalformedVocabulary);
        },
    };
    let ghost mv = meanings_json@;
    let mut meanings: Vec<String> = Vec::new();
    let mut j: usize = 0;
    proof {
        assert(mv.take(0) =~= Seq::<JsonValue>::empty());
        assert(meanings@.map(|k: int, s: String| s@) =~= spec_meanings(mv.take(0)));
    }
    while j < meanings_json.len()
        invariant
            j <= mv.len(),
            mv == meanings_json@,
            meanings@.map(|k: int, s: String| s@) == spec_meanings(mv.take(j as int)),
        decreases mv.len() - j,
    {
        let ghost before = meanings@;
        match meanings_json[j].as_text() {
            Some(s) => {
                meanings.push(s.clone());
            },
            None => {},
        }
        proof {
            assert(mv.take(j + 1).drop_last() =~= mv.take(j as int));
            assert(mv.take(j + 1).last() == mv[j as int]);
            assert(meanings@.map(|k: int, s: String| s@) =~= spec_meanings(mv.take(j + 1)));
        }
        j += 1;
    }
    proof {
        assert(mv.take(mv.len() as int) =~= mv);
    }
    let card_state_name = match v.element(6) {
        Some(state) => match state.element(0) {
            Some(n) => match n.as_text() {
                Some(s) => Some(s.clone()),
                None => None,
            },
            None => None,
        },
        None => {
            return Err(ResponseError::MalformedVocabulary);
        },
    };
    let entry = VocabularyEntry {
        spelling,
        reading,
        frequency,
        meanings,
        card_state_name,
        stable_id: Some((vid, sid)),
    };
    proof {
        assert(entry@ == spec_vocab_entry(*v)->0);
    }
    Ok(entry)
}

/// The vocabulary table of a parse response.
pub fn decode_vocabulary(entries: &Vec<JsonValue>) -> (r: Result<
    Vec<VocabularyEntry>,
    ResponseError,
>)
    ensures
        match spec_vocabulary(entries@) {
            Some(evs) => r matches Ok(vs) && vocab_entries_view(vs@) == evs,
            None => r == Err::<Vec<VocabularyEntry>, _>(ResponseError::MalformedVocabulary),
        },
{
    let ghost ev = entries@;
    let mut out: Vec<VocabularyEntry> = Vec::new();
    let mut i: usize = 0;
    while i < entries.len()
        invariant
            i <= ev.len(),
            ev == entries@,
            out@.len() == i,
            forall|j: int|
                0 <= j < i ==> (#[trigger] spec_vocab_entry(ev[j])) is Some && out@[j]@
                    == spec_vocab_entry(ev[j])->0,
        decreases ev.len() - i,
    {
        match decode_vocab_entry(&entries[i]) {
            Ok(e) => {
                out.push(e);
            },
            Err(e) => {
                proof {
                    assert(spec_vocab_entry(ev[i as int]) is None);
                    assert(spec_vocabulary(ev) is None);
                }
                return Err(e);
            },
        }
        i += 1;
    }
    proof {
        assert(spec_vocabulary(ev) matches Some(evs) && vocab_entries_view(out@) =~= evs);
    }
    Ok(out)
}

/// Decode a whole parse response and align it against the paragraph
/// strings it was requested for: the result is exactly what
/// [`spec_parse_response`] says — the aligned grid, every definition drawn
/// from the response's vocabulary table, or the first failure in reading
/// order. On success without filtering there is one paragraph of words per
/// input string, whose texts concatenate back to exactly that string; with
/// filtering, the paragraphs in which no word carries a definition are
/// dropped and every surviving paragraph still spells out one of the input
/// strings.
#[verifier::rlimit(50)]
pub fn parse_response(texts: &Vec<String>, json: &JsonValue, filter_no_definitions: bool) -> (r:
    Result<Vec<Vec<Word>>, ResponseError>)
    ensures
        match spec_parse_response(
            *json,
            texts@.map(|i: int, s: String| s@),
            filter_no_definitions,
        ) {
            Ok(g) => r matches Ok(w) && grid_view(w@) == g,
            Err(e) => r == Err::<Vec<Vec<Word>>, _>(e),
        },
        !filter_no_definitions ==> (match r {
            Ok(words) => words@.len() == texts@.len() && (forall|i: int|
                0 <= i < words@.len() ==> words_text(paragraph_view(#[trigger] words@[i]@))
                    == texts@[i]@),
            Err(_) => true,
        }),
        filter_no_definitions ==> (match r {
            Ok(words) => forall|j: int|
                0 <= j < words@.len() ==> paragraph_has_definition(
                    paragraph_view(#[trigger] words@[j]@),
                ) && spells_one_of(
                    texts@.map(|i: int, s: String| s@),
                    paragraph_view(words@[j]@),
                ),
            Err(_) => true,
        }),
{
    let ghost tv = texts@.map(|i: int, s: String| s@);
    let tokens_json = match json.member("tokens") {
        Some(v) => match v.as_list() {
            Some(a) => a,
            None => {
                return Err(ResponseError::MissingTokens);
            },
        },
        None => {
            return Err(ResponseError::MissingTokens);
        },
    };
    let vocab_json = match json.member("vocabulary") {
        Some(v) => match v.as_list() {
            Some(a) => a,
            None => {
                return Err(ResponseError::MissingVocabulary);
            },
        },
        None => {
            return Err(ResponseError::MissingVocabulary);
        },
    };
    let token_lists = match decode_token_lists(tokens_json) {
        Ok(t) => t,
        Err(e) => {
            return Err(e);
        },
    };
    let vocab = match decode_vocabulary(vocab_json) {
        Ok(v) => v,
        Err(e) => {
            return Err(e);
        },
    };
    let ghost tls = token_lists_view(token_lists@);
    let ghost vv = vocab_entries_view(vocab@);
    let aligned = match align_paragraphs(texts, &token_lists, &vocab) {
        Ok(w) => w,
        Err(_) => {
            proof {
                if batch_tokens_ok(tv, tls, vv) {
                    assert(token_lists@.len() == texts@.len());
                    assert forall|i: int| 0 <= i < texts@.len() implies tokens_ok(
                        texts@[i]@,
                        vocab@.len() as int,
                        0,
                        tokens_view(#[trigger] token_lists@[i]@),
                    ) by {
                        assert(tls[i] == tokens_view(token_lists@[i]@));
                        assert(tv[i] == texts@[i]@);
                    }
                    assert(false);
                }
            }
            return Err(ResponseError::Misaligned);
        },
    };
    proof {
        assert(batch_tokens_ok(tv, tls, vv)) by {
            assert(tls.len() == tv.len());
            assert forall|i: int| 0 <= i < tv.len() implies tokens_ok(
                tv[i],
                vv.len() as int,
                0,
                #[trigger] tls[i],
            ) by {
                assert(tls[i] == tokens_view(token_lists@[i]@));
                assert(tv[i] == texts@[i]@);
            }
        }
        assert(grid_view(aligned@) =~= Seq::new(
            tv.len(),
            |i: int| aligned_words(tv[i], tls[i], vv),
        ));
        assert forall|i: int| 0 <= i < aligned@.len() implies words_text(
            paragraph_view(#[trigger] aligned@[i]@),
        ) == texts@[i]@ by {
            crate::align::lemma_alignment_completeness(
                texts@[i]@,
                tokens_view(token_lists@[i]@),
                crate::align::vocab_view(vocab@),
            );
        }
    }
    if filter_no_definitions {
        let kept = filter_paragraphs(&aligned);
        proof {
            let pred = |p: Seq<WordView>| paragraph_has_definition(p);
            let full = grid_view(aligned@);
            let kv = grid_view(kept@);
            assert(kv == full.filter(pred));
            assert forall|j: int| 0 <= j < kept@.len() implies paragraph_has_definition(
                paragraph_view(#[trigger] kept@[j]@),
            ) && spells_one_of(tv, paragraph_view(kept@[j]@)) by {
                assert(kv[j] == paragraph_view(kept@[j]@));
                full.lemma_filter_pred(pred, j);
                lemma_filter_element_from(full, pred, j);
                let i = choose|i: int| 0 <= i < full.len() && full[i] == full.filter(pred)[j];
                assert(full[i] == paragraph_view(aligned@[i]@));
                assert(words_text(paragraph_view(aligned@[i]@)) == texts@[i]@);
                assert(tv[i] == texts@[i]@);
            }
        }
        Ok(kept)
    } else {
        Ok(aligned)
    }
}

/// The card-state name per entry of a spelling-keyed lookup's `vocabulary`
/// array.
pub fn decode_spelling_states(items: &Vec<JsonValue>) -> (r: Result<
    Vec<Option<String>>,
    ResponseError,
>)
    ensures
        match spec_spelling_states(items@) {
            Some(ns) => r matches Ok(names) && state_names_view(names@) == ns,
            None => r == Err::<Vec<Option<String>>, _>(ResponseError::MalformedVocabulary),
        },
{
    let ghost iv = items@;
    let mut out: Vec<Option<String>> = Vec::new();
    let mut i: usize = 0;
    while i < items.len()
        invariant
            i <= iv.len(),
            iv == items@,
            out@.len() == i,
            forall|j: int|
                0 <= j < i ==> (#[trigger] spec_spelling_state(iv[j])) is Some
                    && state_names_view(out@)[j] == spec_spelling_state(iv[j])->0,
        decreases iv.len() - i,
    {
        match items[i].element(0) {
            Some(v) => match v.as_text() {
                Some(s) => {
                    out.push(Some(s.clone()));
                },
                None => {
                    out.push(None);
                },
            },
            None => {
                proof {
                    assert(spec_spelling_state(iv[i as int]) is None);
                    assert(spec_spelling_states(iv) is None);
                }
                return Err(ResponseError::MalformedVocabulary);
            },
        }
        i += 1;
    }
    proof {
        assert(spec_spelling_states(iv) matches Some(ns) && state_names_view(out@) =~= ns);
    }
    Ok(out)
}

/// The card-state name per entry of an identifier-keyed lookup's
/// `vocabulary_info` array.
pub fn decode_id_states(items: &Vec<JsonValue>) -> (r: Result<Vec<Option<String>>, ResponseError>)
    ensures
        match spec_id_states(items@) {
            Some(ns) => r matches Ok(names) && state_names_view(names@) == ns,
            None => r == Err::<Vec<Option<String>>, _>(ResponseError::MalformedVocabulary),
        },
{
    let ghost iv = items@;
    let mut out: Vec<Option<String>> = Vec::new();
    let mut i: usize = 0;
    while i < items.len()
        invariant
            i <= iv.len(),
            iv == items@,
            out@.len() == i,
            forall|j: int|
                0 <= j < i ==> (#[trigger] spec_id_state(iv[j])) is Some && state_names_view(
                    out@,
                )[j] == spec_id_state(iv[j])->0,
        decreases iv.len() - i,
    {
        match items[i].element(0) {
            Some(v) => match v.element(0) {
                Some(n) => match n.as_text() {
                    Some(s) => {
                        out.push(Some(s.clone()));
                    },
                    None => {
                        out.push(None);
                    },
                },
                None => {
                    out.push(None);
                },
            },
            None => {
                proof {
                    assert(spec_id_state(iv[i as int]) is None);
                    assert(spec_id_states(iv) is None);
                }
                return Err(ResponseError::MalformedVocabulary);
            },
        }
        i += 1;
    }
    proof {
        assert(spec_id_states(iv) matches Some(ns) && state_names_view(out@) =~= ns);
    }
    Ok(out)
}

/// The stable identifier pair of the first vocabulary entry of a parse
/// response, as the deck-commit call posts it.
pub fn decode_first_vid_sid(json: &JsonValue) -> (r: Result<(u64, u64), ResponseError>)
    ensures
        r == spec_first_vid_sid(*json),
{
    let first = match json.member("vocabulary") {
        Some(v) => match v.element(0) {
            Some(f) => f,
            None => {
                return Err(ResponseError::MissingVocabulary);
            },
        },
        None => {
            return Err(ResponseError::MissingVocabulary);
        },
    };
    let vid = match element_u64(first, 0) {
        Some(x) => x,
        None => {
            return Err(ResponseError::MalformedVocabulary);
        },
    };
    let sid = match element_u64(first, 1) {
        Some(x) => x,
        None => {
            return Err(ResponseError::MalformedVocabulary);
        },
    };
    Ok((vid, sid))
}

/// The user's decks from a deck-list response: `(id, name)` per entry of
/// the `decks` array; `None` when anything expected is missing, in which
/// case the caller keeps its current list.
pub fn decode_decks(json: &JsonValue) -> (r: Option<Vec<(u64, String)>>)
    ensures
        match spec_decks(*json) {
            Some(ds) => r matches Some(out) && out@.map(|i: int, d: (u64, String)| (d.0, d.1@))
                == ds,
            None => r is None,
        },
{
    let decks_json = match json.member("decks") {
        Some(v) => match v.as_list() {
            Some(a) => a,
            None => {
                return None;
            },
        },
        None => {
            return None;
        },
    };
    let ghost dv = decks_json@;
    let mut out: Vec<(u64, String)> = Vec::new();
    let mut i: usize = 0;
    while i < decks_json.len()
        invariant
            i <= dv.len(),
            dv == decks_json@,
            spec_array_member(*json, "decks"@) == Some(dv),
            out@.len() == i,
            forall|j: int|
                0 <= j < i ==> (#[trigger] spec_deck(dv[j])) is Some && (out@[j].0, out@[j].1@)
                    == spec_deck(dv[j])->0,
        decreases dv.len() - i,
    {
        let id = match element_u64(&decks_json[i], 0) {
            Some(x) => x,
            None => {
                proof {
                    assert(spec_deck(dv[i as int]) is None);
                    assert(spec_decks(*json) is None);
                }
                return None;
            },
        };
        let name = match decks_json[i].element(1) {
            Some(e) => match e.as_text() {
                Some(s) => s.clone(),
                None => {
                    proof {
                        assert(spec_deck(dv[i as int]) is None);
                        assert(spec_decks(*json) is None);
                    }
                    return None;
                },
            },
            None => {
                proof {
                    assert(spec_deck(dv[i as int]) is None);
                    assert(spec_decks(*json) is None);
                }
                return None;
            },
        };
        out.push((id, name));
        i += 1;
    }
    proof {
        assert(spec_decks(*json) matches Some(ds) && out@.map(
            |k: int, d: (u64, String)| (d.0, d.1@),
        ) =~= ds);
    }
    Some(out)
}

} // verus!
