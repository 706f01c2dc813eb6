//! Token alignment: reconciling a dictionary service's tokenization
//! (character offsets and vocabulary indices) against a raw paragraph string,
//! producing the ordered words to display, with untokenized gaps interleaved
//! verbatim and furigana attached where the service provided it.

use vstd::prelude::*;

use crate::word::{
    fragments_text, paragraph_view, word_text, words_text, Definition, DefinitionView,
    FragmentView, TextFragment, TextWithRuby, Word, WordView,
};

verus! {

/// Mathematical model of a [`Token`].
pub ghost struct TokenView {
    pub vocab_index: int,
    pub position: int,
    pub length: int,
    pub furigana: Option<Seq<FragmentView>>,
}

/// A dictionary-recognized span of a paragraph's raw string. `position` and
/// `length` are character offsets into that string; tokens of a paragraph
/// are expected sorted by `position` and non-overlapping.
#[derive(Debug, Clone)]
pub struct Token {
    pub vocab_index: usize,
    pub position: usize,
    pub length: usize,
    pub furigana: Option<Vec<TextFragment>>,
}

impl View for Token {
    type V = TokenView;

    open spec fn view(&self) -> TokenView {
        TokenView {
            vocab_index: self.vocab_index as int,
            position: self.position as int,
            length: self.length as int,
            furigana: match self.furigana {
                Some(ref f) => Some(f@.map(|i: int, x: TextFragment| x@)),
                None => None,
            },
        }
    }
}

/// The views of a token list.
pub open spec fn tokens_view(ts: Seq<Token>) -> Seq<TokenView> {
    ts.map(|i: int, t: Token| t@)
}

/// Mathematical model of a [`VocabularyEntry`].
pub ghost struct VocabularyEntryView {
    pub spelling: Seq<char>,
    pub reading: Seq<char>,
    pub frequency: Option<u64>,
    pub meanings: Seq<Seq<char>>,
    pub card_state_name: Option<Seq<char>>,
    pub stable_id: Option<(u64, u64)>,
}

/// One entry of the vocabulary table the dictionary service returns beside
/// the tokens; tokens reference entries by index.
#[derive(Debug, Clone)]
pub struct VocabularyEntry {
    pub spelling: String,
    pub reading: String,
    pub frequency: Option<u64>,
    pub meanings: Vec<String>,
    /// The card-state name the dictionary reported for this entry, if any.
    pub card_state_name: Option<String>,
    /// The dictionary's stable identifier for this entry, if any.
    pub stable_id: Option<(u64, u64)>,
}

impl View for VocabularyEntry {
    type V = VocabularyEntryView;

    open spec fn view(&self) -> VocabularyEntryView {
        VocabularyEntryView {
            spelling: self.spelling@,
            reading: self.reading@,
            frequency: self.frequency,
            meanings: self.meanings@.map(|i: int, m: String| m@),
            card_state_name: match self.card_state_name {
                Some(ref n) => Some(n@),
                None => None,
            },
            stable_id: self.stable_id,
        }
    }
}

/// The views of a vocabulary table.
pub open spec fn vocab_view(vs: Seq<VocabularyEntry>) -> Seq<VocabularyEntryView> {
    vs.map(|i: int, v: VocabularyEntry| v@)
}

/// The definition a word gets from a vocabulary entry.
pub open spec fn definition_of(v: VocabularyEntryView) -> DefinitionView {
    DefinitionView {
        spelling: v.spelling,
        reading: v.reading,
        frequency: v.frequency,
        meanings: v.meanings,
        stable_id: v.stable_id,
    }
}

/// A word with no definition displaying `s` as a single plain fragment.
pub open spec fn plain_word(s: Seq<char>) -> WordView {
    WordView { text: seq![FragmentView { text: s, ruby: None }], definition: None }
}

/// The word emitted for a token: its furigana fragments when present, else a
/// single plain fragment of the token's span, with the definition built from
/// the vocabulary entry the token references.
pub open spec fn token_word(text: Seq<char>, t: TokenView, vocab: Seq<VocabularyEntryView>) -> WordView {
    WordView {
        text: match t.furigana {
            Some(f) => f,
            None => seq![
                FragmentView { text: text.subrange(t.position, t.position + t.length), ruby: None },
            ],
        },
        definition: Some(definition_of(vocab[t.vocab_index])),
    }
}

/// Whether one token is well-formed when the cursor stands at `cursor`: it
/// starts at or after the cursor, lies within the string, references an
/// existing vocabulary entry, and its furigana (when present) is non-empty
/// and spells exactly the token's span.
pub open spec fn token_ok(text: Seq<char>, vocab_len: int, cursor: int, t: TokenView) -> bool {
    &&& cursor <= t.position
    &&& 0 <= t.length
    &&& t.position + t.length <= text.len()
    &&& 0 <= t.vocab_index < vocab_len
    &&& match t.furigana {
        Some(f) => f.len() > 0 && fragments_text(f) == text.subrange(t.position, t.position + t.length),
        None => true,
    }
}

/// Whether a token list is well-formed from cursor position `cursor` on:
/// position-sorted, non-overlapping, in range of the string and the
/// vocabulary table.
pub open spec fn tokens_ok(text: Seq<char>, vocab_len: int, cursor: int, ts: Seq<TokenView>) -> bool
    decreases ts.len(),
{
    ts.len() == 0 || {
        &&& token_ok(text, vocab_len, cursor, ts[0])
        &&& tokens_ok(text, vocab_len, ts[0].position + ts[0].length, ts.drop_first())
    }
}

/// Where the cursor stands after consuming `ts`, starting from `c0`.
pub open spec fn cursor_after(c0: int, ts: Seq<TokenView>) -> int
    decreases ts.len(),
{
    if ts.len() == 0 {
        c0
    } else {
        cursor_after(ts[0].position + ts[0].length, ts.drop_first())
    }
}

/// The words the aligner emits from cursor position `cursor` on: for each
/// token, the gap before it (when non-empty) as a plain word, then the
/// token's word; after the last token, the remaining text (when non-empty)
/// as a final plain word.
pub open spec fn spec_align(
    text: Seq<char>,
    cursor: int,
    ts: Seq<TokenView>,
    vocab: Seq<VocabularyEntryView>,
) -> Seq<WordView>
    decreases ts.len(),
{
    if ts.len() == 0 {
        if cursor < text.len() {
            seq![plain_word(text.subrange(cursor, text.len() as int))]
        } else {
            Seq::empty()
        }
    } else {
        let t = ts[0];
        let rest = spec_align(text, t.position + t.length, ts.drop_first(), vocab);
        let tok = seq![token_word(text, t, vocab)] + rest;
        if t.position > cursor {
            seq![plain_word(text.subrange(cursor, t.position))] + tok
        } else {
            tok
        }
    }
}

/// The full alignment of a paragraph: with no tokens at all, exactly one
/// plain word spanning the whole string (even when it is empty); otherwise
/// the emission of [`spec_align`] from cursor 0.
pub open spec fn aligned_words(
    text: Seq<char>,
    ts: Seq<TokenView>,
    vocab: Seq<VocabularyEntryView>,
) -> Seq<WordView> {
    if ts.len() == 0 {
        seq![plain_word(text)]
    } else {
        spec_align(text, 0, ts, vocab)
    }
}

/// A single plain fragment displays exactly its characters.
pub proof fn lemma_fragments_text_single(f: FragmentView)
    ensures
        fragments_text(seq![f]) == f.text,
{
    assert(seq![f].drop_first() =~= Seq::<FragmentView>::empty());
    assert(fragments_text(seq![f].drop_first()) == Seq::<char>::empty());
    assert(fragments_text(seq![f]) =~= f.text);
}

/// A plain word displays exactly the characters it was built from.
pub proof fn lemma_plain_word_text(s: Seq<char>)
    ensures
        word_text(plain_word(s)) == s,
{
    lemma_fragments_text_single(FragmentView { text: s, ruby: None });
}

/// A one-word sequence displays exactly that word's text.
pub proof fn lemma_words_text_single(w: WordView)
    ensures
        words_text(seq![w]) == word_text(w),
{
    assert(seq![w].drop_first() =~= Seq::<WordView>::empty());
    assert(words_text(seq![w].drop_first()) == Seq::<char>::empty());
    assert(words_text(seq![w]) =~= word_text(w));
}

/// Concatenating word sequences concatenates their displayed text.
pub proof fn lemma_words_text_concat(a: Seq<WordView>, b: Seq<WordView>)
    ensures
        words_text(a + b) == words_text(a) + words_text(b),
    decreases a.len(),
{
    if a.len() == 0 {
        assert(a + b =~= b);
        assert(words_text(a) + words_text(b) =~= words_text(b));
    } else {
        assert((a + b).drop_first() =~= a.drop_first() + b);
        lemma_words_text_concat(a.drop_first(), b);
        assert(words_text(a + b) =~= words_text(a) + words_text(b));
    }
}

/// The words emitted from `cursor` on spell out exactly the string from
/// `cursor` to its end.
proof fn lemma_align_covers(
    text: Seq<char>,
    cursor: int,
    ts: Seq<TokenView>,
    vocab: Seq<VocabularyEntryView>,
)
    requires
        0 <= cursor <= text.len(),
        tokens_ok(text, vocab.len() as int, cursor, ts),
    ensures
        words_text(spec_align(text, cursor, ts, vocab)) == text.subrange(cursor, text.len() as int),
    decreases ts.len(),
{
    let end = text.len() as int;
    if ts.len() == 0 {
        if cursor < end {
            let w = spec_align(text, cursor, ts, vocab);
            assert(w =~= seq![plain_word(text.subrange(cursor, end))]);
            lemma_plain_word_text(text.subrange(cursor, end));
            lemma_words_text_single(plain_word(text.subrange(cursor, end)));
        } else {
            assert(text.subrange(cursor, end) =~= Seq::<char>::empty());
        }
    } else {
        let t = ts[0];
        let tcur = t.position + t.length;
        lemma_align_covers(text, tcur, ts.drop_first(), vocab);
        let rest = spec_align(text, tcur, ts.drop_first(), vocab);
        let tokw = token_word(text, t, vocab);
        let toktext = text.subrange(t.position, tcur);
        assert(word_text(tokw) == toktext) by {
            match t.furigana {
                Some(f) => {}
                None => {
                    lemma_fragments_text_single(FragmentView { text: toktext, ruby: None });
                    assert(tokw.text =~= seq![FragmentView { text: toktext, ruby: None }]);
                }
            }
        }
        lemma_words_text_concat(seq![tokw], rest);
        lemma_words_text_single(tokw);
        if t.position > cursor {
            let gap = plain_word(text.subrange(cursor, t.position));
            lemma_plain_word_text(text.subrange(cursor, t.position));
            lemma_words_text_concat(seq![gap], seq![tokw] + rest);
            lemma_words_text_single(gap);
            assert(spec_align(text, cursor, ts, vocab) =~= seq![gap] + (seq![tokw] + rest));
            assert(words_text(spec_align(text, cursor, ts, vocab)) =~= text.subrange(
                cursor,
                t.position,
            ) + toktext + text.subrange(tcur, end));
            assert(text.subrange(cursor, t.position) + toktext + text.subrange(tcur, end)
                =~= text.subrange(cursor, end));
        } else {
            assert(spec_align(text, cursor, ts, vocab) =~= seq![tokw] + rest);
            assert(words_text(spec_align(text, cursor, ts, vocab)) =~= toktext + text.subrange(
                tcur,
                end,
            ));
            assert(toktext + text.subrange(tcur, end) =~= text.subrange(cursor, end));
        }
    }
}

/// Alignment completeness: for any paragraph string and any well-formed
/// (position-sorted, non-overlapping, in-range) token list, the emitted
/// words' text fragments, concatenated in order, reconstruct the whole
/// string — gaps before and between tokens included verbatim, and the
/// remainder after the last token flushed as a final plain word.
pub proof fn lemma_alignment_completeness(
    text: Seq<char>,
    ts: Seq<TokenView>,
    vocab: Seq<VocabularyEntryView>,
)
    requires
        tokens_ok(text, vocab.len() as int, 0, ts),
    ensures
        words_text(aligned_words(text, ts, vocab)) == text,
{
    if ts.len() == 0 {
        lemma_plain_word_text(text);
        lemma_words_text_single(plain_word(text));
    } else {
        lemma_align_covers(text, 0, ts, vocab);
        assert(text.subrange(0, text.len() as int) =~= text);
    }
}

/// A well-formed token list stays well-formed when a token that is
/// well-formed at the list's end cursor is appended.
proof fn lemma_tokens_ok_push(text: Seq<char>, vl: int, c0: int, ts: Seq<TokenView>, t: TokenView)
    requires
        tokens_ok(text, vl, c0, ts),
        token_ok(text, vl, cursor_after(c0, ts), t),
    ensures
        tokens_ok(text, vl, c0, ts.push(t)),
        cursor_after(c0, ts.push(t)) == t.position + t.length,
    decreases ts.len(),
{
    if ts.len() == 0 {
        assert(ts.push(t).drop_first() =~= Seq::<TokenView>::empty());
        assert(tokens_ok(text, vl, t.position + t.length, ts.push(t).drop_first()));
        assert(cursor_after(t.position + t.length, ts.push(t).drop_first()) == t.position
            + t.length);
    } else {
        assert(ts.push(t).drop_first() =~= ts.drop_first().push(t));
        lemma_tokens_ok_push(text, vl, ts[0].position + ts[0].length, ts.drop_first(), t);
    }
}

/// In a well-formed token list, each token is well-formed at the cursor
/// position reached after the tokens before it.
proof fn lemma_tokens_ok_index(text: Seq<char>, vl: int, c0: int, ts: Seq<TokenView>, j: int)
    requires
        tokens_ok(text, vl, c0, ts),
        0 <= j < ts.len(),
    ensures
        token_ok(text, vl, cursor_after(c0, ts.take(j)), ts[j]),
    decreases j,
{
    if j == 0 {
        assert(ts.take(0) =~= Seq::<TokenView>::empty());
    } else {
        let c1 = ts[0].position + ts[0].length;
        lemma_tokens_ok_index(text, vl, c1, ts.drop_first(), j - 1);
        assert(ts.take(j).drop_first() =~= ts.drop_first().take(j - 1));
        assert(ts.drop_first()[j - 1] == ts[j]);
        assert(cursor_after(c0, ts.take(j)) == cursor_after(c1, ts.drop_first().take(j - 1)));
    }
}

/// For a well-formed token list, the cursor's final position lies within
/// the string.
proof fn lemma_cursor_after_bounds(text: Seq<char>, vl: int, c0: int, ts: Seq<TokenView>)
    requires
        0 <= c0 <= text.len(),
        tokens_ok(text, vl, c0, ts),
    ensures
        c0 <= cursor_after(c0, ts) <= text.len(),
    decreases ts.len(),
{
    if ts.len() > 0 {
        lemma_cursor_after_bounds(text, vl, ts[0].position + ts[0].length, ts.drop_first());
    }
}

/// Alignment completeness in its prefix form: the emitted words' text,
/// concatenated in order, begins with exactly the prefix of the original
/// string that ends at the last token's end — gaps before and between
/// tokens included verbatim. (The rest of the concatenation is the flushed
/// remainder; see [`lemma_alignment_completeness`].)
pub proof fn lemma_alignment_prefix(
    text: Seq<char>,
    ts: Seq<TokenView>,
    vocab: Seq<VocabularyEntryView>,
)
    requires
        tokens_ok(text, vocab.len() as int, 0, ts),
    ensures
        0 <= cursor_after(0, ts) <= text.len(),
        words_text(aligned_words(text, ts, vocab)).take(cursor_after(0, ts)) == text.take(
            cursor_after(0, ts),
        ),
{
    lemma_cursor_after_bounds(text, vocab.len() as int, 0, ts);
    lemma_alignment_completeness(text, ts, vocab);
}

/// Alignment of an empty token list: exactly one word is emitted, its text
/// is the whole input string as one plain fragment, and it has no
/// definition.
pub proof fn lemma_alignment_empty_tokens(text: Seq<char>, vocab: Seq<VocabularyEntryView>)
    ensures
        aligned_words(text, Seq::<TokenView>::empty(), vocab).len() == 1,
        aligned_words(text, Seq::<TokenView>::empty(), vocab)[0] == plain_word(text),
        aligned_words(text, Seq::<TokenView>::empty(), vocab)[0].definition is None,
        word_text(aligned_words(text, Seq::<TokenView>::empty(), vocab)[0]) == text,
{
    let w = aligned_words(text, Seq::<TokenView>::empty(), vocab);
    assert(w =~= seq![plain_word(text)]);
    lemma_plain_word_text(text);
}

impl VocabularyEntry {
    /// The definition a word aligned to this entry carries.
    pub fn to_definition(&self) -> (d: Definition)
        ensures
            d@ == definition_of(self@),
    {
        Definition {
            spelling: self.spelling.clone(),
            reading: self.reading.clone(),
            frequency: self.frequency,
            meanings: crate::word::clone_strings(&self.meanings),
            stable_id: self.stable_id,
        }
    }
}

/// Malformed token or vocabulary data: a token out of order or out of range,
/// a vocabulary index past the table, or furigana that does not spell the
/// token's span. The whole batch is rejected; no partial result is returned.
#[derive(Debug, Clone, PartialEq, Eq)]
pub struct AlignmentError;

/// Align one paragraph: emit, in order, a plain word for every untokenized
/// gap, a word for every token (furigana attached when the service provided
/// it, definition built from the referenced vocabulary entry), and a final
/// plain word for whatever follows the last token. With no tokens at all the
/// whole string becomes one plain word. Returns `Err` exactly when the token
/// list is not well-formed for this string and vocabulary table.
pub fn align_paragraph(text: &str, tokens: &Vec<Token>, vocab: &Vec<VocabularyEntry>) -> (r: Result<
    Vec<Word>,
    AlignmentError,
>)
    ensures
        r is Ok <==> tokens_ok(text@, vocab@.len() as int, 0, tokens_view(tokens@)),
        r is Ok ==> paragraph_view(r->Ok_0@) == aligned_words(
            text@,
            tokens_view(tokens@),
            vocab_view(vocab@),
        ),
{
    let ghost tv = tokens_view(tokens@);
    let ghost vv = vocab_view(vocab@);
    let ghost vl = vocab@.len() as int;
    let text_len = text.unicode_len();
    let mut out: Vec<Word> = Vec::new();

    if tokens.len() == 0 {
        let w = Word::plain(text.to_owned());
        out.push(w);
        proof {
            assert(paragraph_view(out@) =~= seq![w@]);
            assert(w@ =~= plain_word(text@));
        }
        return Ok(out);
    }

    let mut cursor: usize = 0;
    let mut i: usize = 0;
    proof {
        assert(tv.take(0) =~= Seq::<TokenView>::empty());
        assert(tv.skip(0) =~= tv);
        assert(paragraph_view(out@) + spec_align(text@, 0, tv, vv) =~= spec_align(
            text@,
            0,
            tv,
            vv,
        ));
    }
    while i < tokens.len()
        invariant
            0 < tokens@.len(),
            i <= tokens@.len(),
            tv == tokens_view(tokens@),
            vv == vocab_view(vocab@),
            vl == vocab@.len() as int,
            text_len == text@.len(),
            cursor <= text_len,
            tokens_ok(text@, vl, 0, tv.take(i as int)),
            cursor == cursor_after(0, tv.take(i as int)),
            spec_align(text@, 0, tv, vv) == paragraph_view(out@) + spec_align(
                text@,
                cursor as int,
                tv.skip(i as int),
                vv,
            ),
        decreases tokens@.len() - i,
    {
        let t = &tokens[i];
        proof {
            assert(tv[i as int] == t@);
        }

        let token_malformed: bool = t.position < cursor || t.position > text_len || t.length
            > text_len - t.position || t.vocab_index >= vocab.len();
        if token_malformed {
            proof {
                if tokens_ok(text@, vl, 0, tv) {
                    lemma_tokens_ok_index(text@, vl, 0, tv, i as int);
                    assert(false);
                }
            }
            return Err(AlignmentError);
        }

        let ghost out_entry = out@;
        let ghost cur0 = cursor as int;

        if t.position > cursor {
            let gap = Word::plain(text.substring_char(cursor, t.position).to_owned());
            proof {
                assert(gap@ =~= plain_word(text@.subrange(cur0, t@.position)));
            }
            out.push(gap);
        }

        let definition = vocab[t.vocab_index].to_definition();
        let tokw: Word = match &t.furigana {
            Some(f) => {
                let ghost fw = f@.map(|k: int, x: TextFragment| x@);
                if f.len() == 0 {
                    proof {
                        if tokens_ok(text@, vl, 0, tv) {
                            lemma_tokens_ok_index(text@, vl, 0, tv, i as int);
                            assert(false);
                        }
                    }
                    return Err(AlignmentError);
                }
                let surface = crate::word::fragments_surface(f);
                let expected = text.substring_char(t.position, t.position + t.length).to_owned();
                if !(surface == expected) {
                    proof {
                        if tokens_ok(text@, vl, 0, tv) {
                            lemma_tokens_ok_index(text@, vl, 0, tv, i as int);
                            assert(false);
                        }
                    }
                    return Err(AlignmentError);
                }
                Word {
                    text: TextWithRuby(crate::word::clone_fragments(f)),
                    definition: Some(definition),
                }
            },
            None => {
                Word {
                    text: TextWithRuby::plain(
                        text.substring_char(t.position, t.position + t.length).to_owned(),
                    ),
                    definition: Some(definition),
                }
            },
        };
        proof {
            assert(tokw@ =~= token_word(text@, t@, vv));
            assert(token_ok(text@, vl, cursor as int, t@));
        }
        out.push(tokw);

        proof {
            let ghost gap_words: Seq<WordView> = if t@.position > cur0 {
                seq![plain_word(text@.subrange(cur0, t@.position))]
            } else {
                Seq::<WordView>::empty()
            };
            assert(paragraph_view(out@) =~= paragraph_view(out_entry) + gap_words + seq![
                token_word(text@, t@, vv),
            ]);

            let rest = tv.skip(i as int);
            assert(rest[0] == tv[i as int]);
            assert(rest.drop_first() =~= tv.skip(i as int + 1));
            assert(spec_align(text@, cur0, rest, vv) =~= gap_words + seq![
                token_word(text@, t@, vv),
            ] + spec_align(text@, t@.position + t@.length, tv.skip(i as int + 1), vv));
            assert(spec_align(text@, 0, tv, vv) =~= paragraph_view(out@) + spec_align(
                text@,
                t@.position + t@.length,
                tv.skip(i as int + 1),
                vv,
            ));

            lemma_tokens_ok_push(text@, vl, 0, tv.take(i as int), t@);
            assert(tv.take(i as int + 1) =~= tv.take(i as int).push(t@));
        }

        cursor = t.position + t.length;
        i += 1;
    }

    proof {
        assert(tv.take(tokens@.len() as int) =~= tv);
        assert(tv.skip(tokens@.len() as int) =~= Seq::<TokenView>::empty());
    }

    if cursor < text_len {
        let tail = Word::plain(text.substring_char(cursor, text_len).to_owned());
        proof {
            assert(tail@ =~= plain_word(text@.subrange(cursor as int, text@.len() as int)));
            assert(spec_align(text@, cursor as int, tv.skip(tokens@.len() as int), vv) =~= seq![
                tail@,
            ]);
        }
        out.push(tail);
        proof {
            assert(paragraph_view(out@) =~= spec_align(text@, 0, tv, vv));
        }
    } else {
        proof {
            assert(spec_align(text@, cursor as int, tv.skip(tokens@.len() as int), vv)
                =~= Seq::<WordView>::empty());
            assert(paragraph_view(out@) =~= spec_align(text@, 0, tv, vv));
        }
    }

    Ok(out)
}

/// The models of a grid of paragraphs.
pub open spec fn grid_view(g: Seq<Vec<Word>>) -> Seq<Seq<WordView>> {
    g.map(|i: int, p: Vec<Word>| paragraph_view(p@))
}

/// Align a whole batch: one paragraph per text, each against the shared
/// vocabulary table. Returns `Err` exactly when the token lists do not match
/// the texts one for one or some paragraph's tokens are not well-formed; no
/// partial result is returned.
pub fn align_paragraphs(
    texts: &Vec<String>,
    token_lists: &Vec<Vec<Token>>,
    vocab: &Vec<VocabularyEntry>,
) -> (r: Result<Vec<Vec<Word>>, AlignmentError>)
    ensures
        r is Ok <==> (token_lists@.len() == texts@.len() && (forall|i: int|
            0 <= i < texts@.len() ==> tokens_ok(
                texts@[i]@,
                vocab@.len() as int,
                0,
                tokens_view(#[trigger] token_lists@[i]@),
            ))),
        r is Ok ==> r->Ok_0@.len() == texts@.len(),
        r is Ok ==> forall|i: int|
            0 <= i < texts@.len() ==> paragraph_view(#[trigger] r->Ok_0@[i]@) == aligned_words(
                texts@[i]@,
                tokens_view(token_lists@[i]@),
                vocab_view(vocab@),
            ),
{
    if token_lists.len() != texts.len() {
        return Err(AlignmentError);
    }
    let mut out: Vec<Vec<Word>> = Vec::new();
    let mut i: usize = 0;
    while i < texts.len()
        invariant
            i <= texts@.len(),
            token_lists@.len() == texts@.len(),
            out@.len() == i,
            forall|j: int|
                0 <= j < i ==> tokens_ok(
                    texts@[j]@,
                    vocab@.len() as int,
                    0,
                    tokens_view(#[trigger] token_lists@[j]@),
                ),
            forall|j: int|
                0 <= j < i ==> paragraph_view(#[trigger] out@[j]@) == aligned_words(
                    texts@[j]@,
                    tokens_view(token_lists@[j]@),
                    vocab_view(vocab@),
                ),
        decreases texts@.len() - i,
    {
        match align_paragraph(texts[i].as_str(), &token_lists[i], vocab) {
            Ok(words) => {
                out.push(words);
            },
            Err(e) => {
                return Err(e);
            },
        }
        i += 1;
    }
    Ok(out)
}

/// Whether some word of the paragraph carries a definition.
pub open spec fn paragraph_has_definition(p: Seq<WordView>) -> bool {
    exists|j: int| 0 <= j < p.len() && p[j].definition is Some
}

/// Whether some word of the paragraph carries a definition.
pub fn paragraph_any_definition(p: &Vec<Word>) -> (r: bool)
    ensures
        r == paragraph_has_definition(paragraph_view(p@)),
{
    let mut j: usize = 0;
    while j < p.len()
        invariant
            j <= p@.len(),
            forall|k: int| 0 <= k < j ==> paragraph_view(p@)[k].definition is None,
        decreases p@.len() - j,
    {
        if p[j].definition.is_some() {
            assert(paragraph_view(p@)[j as int].definition is Some);
            return true;
        }
        j += 1;
    }
    false
}

/// A deep copy of a paragraph with the same model.
pub fn clone_words(p: &Vec<Word>) -> (r: Vec<Word>)
    ensures
        paragraph_view(r@) == paragraph_view(p@),
{
    let mut r: Vec<Word> = Vec::new();
    let mut i: usize = 0;
    while i < p.len()
        invariant
            i <= p@.len(),
            r@.len() == i,
            forall|j: int| 0 <= j < i ==> r@[j]@ == p@[j]@,
        decreases p@.len() - i,
    {
        r.push(p[i].duplicate());
        i += 1;
    }
    proof {
        assert(paragraph_view(r@) =~= paragraph_view(p@));
    }
    r
}

/// Keep only the paragraphs in which some word carries a definition (the
/// "hide undefined paragraphs" option); the kept paragraphs stay in order.
pub fn filter_paragraphs(paragraphs: &Vec<Vec<Word>>) -> (r: Vec<Vec<Word>>)
    ensures
        grid_view(r@) == grid_view(paragraphs@).filter(
            |p: Seq<WordView>| paragraph_has_definition(p),
        ),
{
    let ghost pred = |p: Seq<WordView>| paragraph_has_definition(p);
    let ghost gv = grid_view(paragraphs@);
    let mut r: Vec<Vec<Word>> = Vec::new();
    let mut i: usize = 0;
    proof {
        assert(gv.take(0) =~= Seq::<Seq<WordView>>::empty());
        assert(gv.take(0).filter(pred) =~= Seq::<Seq<WordView>>::empty());
    }
    while i < paragraphs.len()
        invariant
            i <= paragraphs@.len(),
            gv == grid_view(paragraphs@),
            pred == (|p: Seq<WordView>| paragraph_has_definition(p)),
            grid_view(r@) == gv.take(i as int).filter(pred),
        decreases paragraphs@.len() - i,
    {
        let ghost r_old = r@;
        if paragraph_any_definition(&paragraphs[i]) {
            r.push(clone_words(&paragraphs[i]));
            proof {
                assert(grid_view(r@) =~= grid_view(r_old).push(gv[i as int]));
            }
        }
        proof {
            reveal_with_fuel(Seq::<Seq<WordView>>::filter, 2);
            assert(gv.take(i + 1).drop_last() =~= gv.take(i as int));
            assert(gv.take(i + 1).last() == gv[i as int]);
            assert(gv.take(i + 1).filter(pred) == if pred(gv[i as int]) {
                gv.take(i as int).filter(pred).push(gv[i as int])
            } else {
                gv.take(i as int).filter(pred)
            });
        }
        i += 1;
    }
    proof {
        assert(gv.take(paragraphs@.len() as int) =~= gv);
    }
    r
}

} // verus!
