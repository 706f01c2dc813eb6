//! The core data model: words as they are shown to the user, with optional
//! furigana and an optional dictionary definition.

use vstd::prelude::*;

verus! {

/// Mathematical model of a [`TextFragment`]: the fragment's characters and,
/// when furigana is attached, the furigana's characters.
pub ghost struct FragmentView {
    pub text: Seq<char>,
    pub ruby: Option<Seq<char>>,
}

/// A minimal printable unit of text, optionally annotated with phonetic guide
/// text (furigana) rendered above it.
#[derive(Debug, Clone)]
pub struct TextFragment {
    pub text: String,
    pub ruby: Option<String>,
}

impl View for TextFragment {
    type V = FragmentView;

    open spec fn view(&self) -> FragmentView {
        FragmentView {
            text: self.text@,
            ruby: match self.ruby {
                Some(ref r) => Some(r@),
                None => None,
            },
        }
    }
}

impl TextFragment {
    /// A fragment with no furigana.
    pub fn plain(text: String) -> (r: TextFragment)
        ensures
            r@ == (FragmentView { text: text@, ruby: None }),
    {
        TextFragment { text, ruby: None }
    }

    /// A deep copy with the same model.
    pub fn duplicate(&self) -> (r: TextFragment)
        ensures
            r@ == self@,
    {
        TextFragment {
            text: self.text.clone(),
            ruby: match &self.ruby {
                Some(s) => Some(s.clone()),
                None => None,
            },
        }
    }
}

/// A deep copy of a fragment list with the same model.
pub fn clone_fragments(v: &Vec<TextFragment>) -> (r: Vec<TextFragment>)
    ensures
        r@.map(|i: int, f: TextFragment| f@) == v@.map(|i: int, f: TextFragment| f@),
{
    let mut r: Vec<TextFragment> = Vec::new();
    let mut i: usize = 0;
    while i < v.len()
        invariant
            i <= v@.len(),
            r@.len() == i,
            forall|j: int| 0 <= j < i ==> r@[j]@ == v@[j]@,
        decreases v@.len() - i,
    {
        r.push(v[i].duplicate());
        i += 1;
    }
    proof {
        assert(r@.map(|j: int, f: TextFragment| f@) =~= v@.map(|j: int, f: TextFragment| f@));
    }
    r
}

/// A deep copy of a string list with the same model.
pub fn clone_strings(v: &Vec<String>) -> (r: Vec<String>)
    ensures
        r@.map(|i: int, s: String| s@) == v@.map(|i: int, s: String| s@),
{
    let mut r: Vec<String> = Vec::new();
    let mut i: usize = 0;
    while i < v.len()
        invariant
            i <= v@.len(),
            r@.len() == i,
            forall|j: int| 0 <= j < i ==> r@[j]@ == v@[j]@,
        decreases v@.len() - i,
    {
        r.push(v[i].clone());
        i += 1;
    }
    proof {
        assert(r@.map(|j: int, s: String| s@) =~= v@.map(|j: int, s: String| s@));
    }
    r
}

/// Ordered sequence of fragments; the concatenation of the fragments' text
/// is the surface string of the unit this value stands for.
#[derive(Debug, Clone)]
pub struct TextWithRuby(pub Vec<TextFragment>);

impl View for TextWithRuby {
    type V = Seq<FragmentView>;

    open spec fn view(&self) -> Seq<FragmentView> {
        self.0@.map(|i: int, f: TextFragment| f@)
    }
}

/// The characters a fragment sequence displays, furigana aside.
pub open spec fn fragments_text(frags: Seq<FragmentView>) -> Seq<char>
    decreases frags.len(),
{
    if frags.len() == 0 {
        Seq::empty()
    } else {
        frags[0].text + fragments_text(frags.drop_first())
    }
}

/// Appending a fragment appends its text to the displayed characters.
pub proof fn lemma_fragments_text_push(frags: Seq<FragmentView>, f: FragmentView)
    ensures
        fragments_text(frags.push(f)) == fragments_text(frags) + f.text,
    decreases frags.len(),
{
    if frags.len() == 0 {
        assert(frags.push(f).drop_first() =~= Seq::<FragmentView>::empty());
        assert(fragments_text(frags.push(f).drop_first()) == Seq::<char>::empty());
        assert(fragments_text(frags.push(f)) =~= fragments_text(frags) + f.text);
    } else {
        assert(frags.push(f).drop_first() =~= frags.drop_first().push(f));
        lemma_fragments_text_push(frags.drop_first(), f);
        assert(fragments_text(frags.push(f)) =~= fragments_text(frags) + f.text);
    }
}

impl TextWithRuby {
    /// A single plain fragment covering the whole string.
    pub fn plain(text: String) -> (r: TextWithRuby)
        ensures
            r@ =~= seq![FragmentView { text: text@, ruby: None }],
            fragments_text(r@) == text@,
    {
        let frag = TextFragment::plain(text);
        let r = TextWithRuby(vec![frag]);
        proof {
            assert(r.0@ =~= seq![frag]);
            assert(r@ =~= seq![frag@]);
            assert(r@.drop_first() =~= Seq::<FragmentView>::empty());
            assert(fragments_text(r@.drop_first()) == Seq::<char>::empty());
            assert(fragments_text(r@) =~= frag@.text);
        }
        r
    }
}

/// The surface string a fragment list displays: its texts concatenated,
/// furigana aside.
pub fn fragments_surface(v: &Vec<TextFragment>) -> (s: String)
    ensures
        s@ == fragments_text(v@.map(|i: int, f: TextFragment| f@)),
{
    let ghost vw = v@.map(|i: int, f: TextFragment| f@);
    let mut s = String::new();
    let mut i: usize = 0;
    proof {
        assert(vw.take(0) =~= Seq::<FragmentView>::empty());
    }
    while i < v.len()
        invariant
            i <= v@.len(),
            vw == v@.map(|k: int, f: TextFragment| f@),
            s@ == fragments_text(vw.take(i as int)),
        decreases v@.len() - i,
    {
        s.append(v[i].text.as_str());
        proof {
            assert(vw.take(i + 1) =~= vw.take(i as int).push(vw[i as int]));
            lemma_fragments_text_push(vw.take(i as int), vw[i as int]);
            assert(vw[i as int] == v@[i as int]@);
        }
        i += 1;
    }
    proof {
        assert(vw.take(v@.len() as int) =~= vw);
    }
    s
}

/// Mathematical model of a [`Definition`].
pub ghost struct DefinitionView {
    pub spelling: Seq<char>,
    pub reading: Seq<char>,
    pub frequency: Option<u64>,
    pub meanings: Seq<Seq<char>>,
    pub stable_id: Option<(u64, u64)>,
}

/// A word's dictionary definition and associated data.
#[derive(Debug, Clone)]
pub struct Definition {
    /// The word as the dictionary spells it.
    pub spelling: String,
    /// The word's reading.
    pub reading: String,
    /// The word's frequency rank, if one was reported.
    pub frequency: Option<u64>,
    /// The word's meanings, in the dictionary's order.
    pub meanings: Vec<String>,
    /// The dictionary's stable identifier for this entry, when the backend
    /// provides one; the spelling is the fallback identity otherwise.
    pub stable_id: Option<(u64, u64)>,
}

impl View for Definition {
    type V = DefinitionView;

    open spec fn view(&self) -> DefinitionView {
        DefinitionView {
            spelling: self.spelling@,
            reading: self.reading@,
            frequency: self.frequency,
            meanings: self.meanings@.map(|i: int, m: String| m@),
            stable_id: self.stable_id,
        }
    }
}

/// Mathematical model of a [`Word`].
pub ghost struct WordView {
    pub text: Seq<FragmentView>,
    pub definition: Option<DefinitionView>,
}

/// A displayable word: its text and its definition, if one was found.
/// A `None` definition means "no dictionary match".
#[derive(Debug, Clone)]
pub struct Word {
    pub text: TextWithRuby,
    pub definition: Option<Definition>,
}

impl View for Word {
    type V = WordView;

    open spec fn view(&self) -> WordView {
        WordView {
            text: self.text@,
            definition: match self.definition {
                Some(ref d) => Some(d@),
                None => None,
            },
        }
    }
}

/// The characters a word displays.
pub open spec fn word_text(w: WordView) -> Seq<char> {
    fragments_text(w.text)
}

/// The characters a sequence of words displays, in order.
pub open spec fn words_text(ws: Seq<WordView>) -> Seq<char>
    decreases ws.len(),
{
    if ws.len() == 0 {
        Seq::empty()
    } else {
        word_text(ws[0]) + words_text(ws.drop_first())
    }
}

/// The model of a paragraph: the views of its words.
pub open spec fn paragraph_view(p: Seq<Word>) -> Seq<WordView> {
    p.map(|i: int, w: Word| w@)
}

impl Definition {
    /// A deep copy with the same model.
    pub fn duplicate(&self) -> (r: Definition)
        ensures
            r@ == self@,
    {
        Definition {
            spelling: self.spelling.clone(),
            reading: self.reading.clone(),
            frequency: self.frequency,
            meanings: clone_strings(&self.meanings),
            stable_id: self.stable_id,
        }
    }
}

impl Word {
    /// A deep copy with the same model.
    pub fn duplicate(&self) -> (r: Word)
        ensures
            r@ == self@,
    {
        Word {
            text: TextWithRuby(clone_fragments(&self.text.0)),
            definition: match &self.definition {
                Some(d) => Some(d.duplicate()),
                None => None,
            },
        }
    }

    /// A word with no dictionary match, displaying `text` verbatim.
    pub fn plain(text: String) -> (r: Word)
        ensures
            r@.definition is None,
            word_text(r@) == text@,
            r@.text =~= seq![FragmentView { text: text@, ruby: None }],
    {
        Word { text: TextWithRuby::plain(text), definition: None }
    }
}

} // verus!
