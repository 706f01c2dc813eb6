//! Card states and the card-state cache: resolving a word to its
//! spaced-repetition display state, keyed by the dictionary's stable
//! identifier when the word has one and by its spelling otherwise. Index 0 of
//! the state table is the sentinel ("unknown/unparsed"), returned whenever no
//! cached entry exists.

use vstd::prelude::*;

use crate::word::{paragraph_view, Word, WordView};

verus! {

/// An RGB colour.
#[derive(Debug, Clone, Copy, PartialEq, Eq, Structural)]
pub struct Rgb {
    pub r: u8,
    pub g: u8,
    pub b: u8,
}

/// Mathematical model of a [`CardState`].
pub ghost struct CardStateView {
    pub name: Seq<char>,
    pub colour: Rgb,
    pub is_relevant: bool,
}

/// A user-deck-relative status of a word, used for display colour and for
/// relevance filtering during navigation.
#[derive(Debug, Clone)]
pub struct CardState {
    /// Name of the card state.
    pub name: String,
    /// Colour associated with the card state.
    pub colour: Rgb,
    /// Whether words in this state are worth surfacing when skip-irrelevant
    /// navigation is active.
    pub is_relevant: bool,
}

impl View for CardState {
    type V = CardStateView;

    open spec fn view(&self) -> CardStateView {
        CardStateView { name: self.name@, colour: self.colour, is_relevant: self.is_relevant }
    }
}

/// The views of a state table.
pub open spec fn states_view(states: Seq<CardState>) -> Seq<CardStateView> {
    states.map(|i: int, s: CardState| s@)
}

/// Whether an identifier-keyed entry holds key `(vid, sid)`.
pub open spec fn id_hit(e: (u64, u64, usize), vid: u64, sid: u64) -> bool {
    e.0 == vid && e.1 == sid
}

/// Whether a spelling-keyed entry holds key `spelling`.
pub open spec fn spelling_hit(e: (Seq<char>, usize), spelling: Seq<char>) -> bool {
    e.0 == spelling
}

/// First index among `entries` holding key `(vid, sid)`, if any.
pub open spec fn id_match(entries: Seq<(u64, u64, usize)>, vid: u64, sid: u64) -> Option<int>
    decreases entries.len(),
{
    if entries.len() == 0 {
        None
    } else if id_hit(entries[0], vid, sid) {
        Some(0)
    } else {
        match id_match(entries.drop_first(), vid, sid) {
            Some(j) => Some(j + 1),
            None => None,
        }
    }
}

/// The state index cached for key `(vid, sid)`, if any.
pub open spec fn id_lookup(entries: Seq<(u64, u64, usize)>, vid: u64, sid: u64) -> Option<usize> {
    match id_match(entries, vid, sid) {
        Some(j) => Some(entries[j].2),
        None => None,
    }
}

/// First index among `entries` holding key `spelling`, if any.
pub open spec fn spelling_match(entries: Seq<(Seq<char>, usize)>, spelling: Seq<char>) -> Option<
    int,
>
    decreases entries.len(),
{
    if entries.len() == 0 {
        None
    } else if spelling_hit(entries[0], spelling) {
        Some(0)
    } else {
        match spelling_match(entries.drop_first(), spelling) {
            Some(j) => Some(j + 1),
            None => None,
        }
    }
}

/// The state index cached for key `spelling`, if any.
pub open spec fn spelling_lookup(entries: Seq<(Seq<char>, usize)>, spelling: Seq<char>) -> Option<
    usize,
> {
    match spelling_match(entries, spelling) {
        Some(j) => Some(entries[j].1),
        None => None,
    }
}

/// What `id_match` finds: the first entry with the key; `None` only when no
/// entry has the key.
proof fn lemma_id_match_spec(entries: Seq<(u64, u64, usize)>, vid: u64, sid: u64)
    ensures
        match id_match(entries, vid, sid) {
            Some(j) => {
                &&& 0 <= j < entries.len()
                &&& id_hit(entries[j], vid, sid)
                &&& forall|l: int| 0 <= l < j ==> !id_hit(#[trigger] entries[l], vid, sid)
            },
            None => forall|l: int|
                0 <= l < entries.len() ==> !id_hit(#[trigger] entries[l], vid, sid),
        },
    decreases entries.len(),
{
    if entries.len() > 0 {
        lemma_id_match_spec(entries.drop_first(), vid, sid);
        assert(forall|l: int|
            1 <= l < entries.len() ==> #[trigger] entries[l] == entries.drop_first()[l - 1]);
    }
}

/// `id_match` returns the index of a hit that nothing precedes.
proof fn lemma_id_match_at(entries: Seq<(u64, u64, usize)>, vid: u64, sid: u64, j: int)
    requires
        0 <= j < entries.len(),
        id_hit(entries[j], vid, sid),
        forall|l: int| 0 <= l < j ==> !id_hit(#[trigger] entries[l], vid, sid),
    ensures
        id_match(entries, vid, sid) == Some(j),
    decreases j,
{
    if j > 0 {
        assert(forall|l: int|
            1 <= l < entries.len() ==> #[trigger] entries[l] == entries.drop_first()[l - 1]);
        lemma_id_match_at(entries.drop_first(), vid, sid, j - 1);
    }
}

/// With no hit anywhere, `id_match` returns `None`.
proof fn lemma_id_match_none(entries: Seq<(u64, u64, usize)>, vid: u64, sid: u64)
    requires
        forall|l: int| 0 <= l < entries.len() ==> !id_hit(#[trigger] entries[l], vid, sid),
    ensures
        id_match(entries, vid, sid) is None,
{
    lemma_id_match_spec(entries, vid, sid);
    if id_match(entries, vid, sid) is Some {
        assert(false);
    }
}

/// What `spelling_match` finds, as [`lemma_id_match_spec`].
proof fn lemma_spelling_match_spec(entries: Seq<(Seq<char>, usize)>, spelling: Seq<char>)
    ensures
        match spelling_match(entries, spelling) {
            Some(j) => {
                &&& 0 <= j < entries.len()
                &&& spelling_hit(entries[j], spelling)
                &&& forall|l: int| 0 <= l < j ==> !spelling_hit(#[trigger] entries[l], spelling)
            },
            None => forall|l: int|
                0 <= l < entries.len() ==> !spelling_hit(#[trigger] entries[l], spelling),
        },
    decreases entries.len(),
{
    if entries.len() > 0 {
        lemma_spelling_match_spec(entries.drop_first(), spelling);
        assert(forall|l: int|
            1 <= l < entries.len() ==> #[trigger] entries[l] == entries.drop_first()[l - 1]);
    }
}

/// `spelling_match` returns the index of a hit that nothing precedes.
proof fn lemma_spelling_match_at(entries: Seq<(Seq<char>, usize)>, spelling: Seq<char>, j: int)
    requires
        0 <= j < entries.len(),
        spelling_hit(entries[j], spelling),
        forall|l: int| 0 <= l < j ==> !spelling_hit(#[trigger] entries[l], spelling),
    ensures
        spelling_match(entries, spelling) == Some(j),
    decreases j,
{
    if j > 0 {
        assert(forall|l: int|
            1 <= l < entries.len() ==> #[trigger] entries[l] == entries.drop_first()[l - 1]);
        lemma_spelling_match_at(entries.drop_first(), spelling, j - 1);
    }
}

/// With no hit anywhere, `spelling_match` returns `None`.
proof fn lemma_spelling_match_none(entries: Seq<(Seq<char>, usize)>, spelling: Seq<char>)
    requires
        forall|l: int| 0 <= l < entries.len() ==> !spelling_hit(#[trigger] entries[l], spelling),
    ensures
        spelling_match(entries, spelling) is None,
{
    lemma_spelling_match_spec(entries, spelling);
    if spelling_match(entries, spelling) is Some {
        assert(false);
    }
}

/// The cached entries after writing `idx` under key `(vid, sid)`: the first
/// entry with that key is overwritten, or a new entry is appended.
pub open spec fn spec_insert_id(
    entries: Seq<(u64, u64, usize)>,
    vid: u64,
    sid: u64,
    idx: usize,
) -> Seq<(u64, u64, usize)> {
    match id_match(entries, vid, sid) {
        Some(j) => entries.update(j, (vid, sid, idx)),
        None => entries.push((vid, sid, idx)),
    }
}

/// The cached entries after writing `idx` under key `spelling`.
pub open spec fn spec_insert_spelling(
    entries: Seq<(Seq<char>, usize)>,
    spelling: Seq<char>,
    idx: usize,
) -> Seq<(Seq<char>, usize)> {
    match spelling_match(entries, spelling) {
        Some(j) => entries.update(j, (spelling, idx)),
        None => entries.push((spelling, idx)),
    }
}

/// Writing one identifier key leaves every other identifier key's lookup
/// unchanged, and afterwards the written key holds the written index.
pub proof fn lemma_insert_id_frame(entries: Seq<(u64, u64, usize)>, vid: u64, sid: u64, idx: usize)
    ensures
        id_lookup(spec_insert_id(entries, vid, sid, idx), vid, sid) == Some(idx),
        forall|v2: u64, s2: u64|
            !(v2 == vid && s2 == sid) ==> #[trigger] id_lookup(
                spec_insert_id(entries, vid, sid, idx),
                v2,
                s2,
            ) == id_lookup(entries, v2, s2),
        spec_insert_id(entries, vid, sid, idx).len() <= entries.len() + 1,
{
    let updated = spec_insert_id(entries, vid, sid, idx);
    lemma_id_match_spec(entries, vid, sid);
    match id_match(entries, vid, sid) {
        Some(j) => {
            assert(updated == entries.update(j, (vid, sid, idx)));
            lemma_id_match_at(updated, vid, sid, j);
            assert(id_lookup(updated, vid, sid) == Some(idx));
            assert forall|v2: u64, s2: u64| !(v2 == vid && s2 == sid) implies #[trigger] id_lookup(
                updated,
                v2,
                s2,
            ) == id_lookup(entries, v2, s2) by {
                lemma_id_match_spec(entries, v2, s2);
                match id_match(entries, v2, s2) {
                    Some(j2) => {
                        assert(j2 != j);
                        lemma_id_match_at(updated, v2, s2, j2);
                    },
                    None => {
                        lemma_id_match_none(updated, v2, s2);
                    },
                }
            }
        },
        None => {
            assert(updated == entries.push((vid, sid, idx)));
            lemma_id_match_at(updated, vid, sid, entries.len() as int);
            assert(id_lookup(updated, vid, sid) == Some(idx));
            assert forall|v2: u64, s2: u64| !(v2 == vid && s2 == sid) implies #[trigger] id_lookup(
                updated,
                v2,
                s2,
            ) == id_lookup(entries, v2, s2) by {
                lemma_id_match_spec(entries, v2, s2);
                match id_match(entries, v2, s2) {
                    Some(j2) => {
                        lemma_id_match_at(updated, v2, s2, j2);
                    },
                    None => {
                        lemma_id_match_none(updated, v2, s2);
                    },
                }
            }
        },
    }
}

/// Writing one spelling key leaves every other spelling key's lookup
/// unchanged, and afterwards the written key holds the written index.
pub proof fn lemma_insert_spelling_frame(
    entries: Seq<(Seq<char>, usize)>,
    spelling: Seq<char>,
    idx: usize,
)
    ensures
        spelling_lookup(spec_insert_spelling(entries, spelling, idx), spelling) == Some(idx),
        forall|s2: Seq<char>|
            s2 != spelling ==> #[trigger] spelling_lookup(
                spec_insert_spelling(entries, spelling, idx),
                s2,
            ) == spelling_lookup(entries, s2),
        spec_insert_spelling(entries, spelling, idx).len() <= entries.len() + 1,
{
    let updated = spec_insert_spelling(entries, spelling, idx);
    lemma_spelling_match_spec(entries, spelling);
    match spelling_match(entries, spelling) {
        Some(j) => {
            assert(updated == entries.update(j, (spelling, idx)));
            lemma_spelling_match_at(updated, spelling, j);
            assert(spelling_lookup(updated, spelling) == Some(idx));
            assert forall|s2: Seq<char>| s2 != spelling implies #[trigger] spelling_lookup(
                updated,
                s2,
            ) == spelling_lookup(entries, s2) by {
                lemma_spelling_match_spec(entries, s2);
                match spelling_match(entries, s2) {
                    Some(j2) => {
                        assert(j2 != j);
                        lemma_spelling_match_at(updated, s2, j2);
                    },
                    None => {
                        lemma_spelling_match_none(updated, s2);
                    },
                }
            }
        },
        None => {
            assert(updated == entries.push((spelling, idx)));
            lemma_spelling_match_at(updated, spelling, entries.len() as int);
            assert(spelling_lookup(updated, spelling) == Some(idx));
            assert forall|s2: Seq<char>| s2 != spelling implies #[trigger] spelling_lookup(
                updated,
                s2,
            ) == spelling_lookup(entries, s2) by {
                lemma_spelling_match_spec(entries, s2);
                match spelling_match(entries, s2) {
                    Some(j2) => {
                        lemma_spelling_match_at(updated, s2, j2);
                    },
                    None => {
                        lemma_spelling_match_none(updated, s2);
                    },
                }
            }
        },
    }
}

/// Whether a state carries the given name.
pub open spec fn name_hit(s: CardStateView, name: Seq<char>) -> bool {
    s.name == name
}

/// First index of a state with the given name, if any.
pub open spec fn name_match(states: Seq<CardStateView>, name: Seq<char>) -> Option<int>
    decreases states.len(),
{
    if states.len() == 0 {
        None
    } else if name_hit(states[0], name) {
        Some(0)
    } else {
        match name_match(states.drop_first(), name) {
            Some(j) => Some(j + 1),
            None => None,
        }
    }
}

/// `name_match` returns the index of a hit that nothing precedes.
proof fn lemma_name_match_at(states: Seq<CardStateView>, name: Seq<char>, j: int)
    requires
        0 <= j < states.len(),
        name_hit(states[j], name),
        forall|l: int| 0 <= l < j ==> !name_hit(#[trigger] states[l], name),
    ensures
        name_match(states, name) == Some(j),
    decreases j,
{
    if j > 0 {
        assert(forall|l: int|
            1 <= l < states.len() ==> #[trigger] states[l] == states.drop_first()[l - 1]);
        lemma_name_match_at(states.drop_first(), name, j - 1);
    }
}

/// With no state of that name, `name_match` returns `None`.
proof fn lemma_name_match_none(states: Seq<CardStateView>, name: Seq<char>)
    requires
        forall|l: int| 0 <= l < states.len() ==> !name_hit(#[trigger] states[l], name),
    ensures
        name_match(states, name) is None,
    decreases states.len(),
{
    if states.len() > 0 {
        assert(forall|l: int|
            1 <= l < states.len() ==> #[trigger] states[l] == states.drop_first()[l - 1]);
        lemma_name_match_none(states.drop_first(), name);
    }
}

/// The views of reported card-state names (`None` stands for "not yet
/// encountered").
pub open spec fn names_view(names: Seq<Option<String>>) -> Seq<Option<Seq<char>>> {
    names.map(
        |i: int, n: Option<String>|
            match n {
                Some(s) => Some(s@),
                None => None,
            },
    )
}

/// The state index a reported name resolves to: a missing name caches the
/// "not in deck" state (index 1); a present name caches the first state of
/// that name, or nothing when no state carries it.
pub open spec fn resolve_batch_index(states: Seq<CardStateView>, name: Option<Seq<char>>) -> Option<
    int,
> {
    match name {
        None => Some(1),
        Some(n) => name_match(states, n),
    }
}

/// The spelling-keyed entries after a whole batch is written, one
/// (spelling, reported name) pair at a time, stopping when either side runs
/// out.
pub open spec fn apply_spelling_batch(
    states: Seq<CardStateView>,
    entries: Seq<(Seq<char>, usize)>,
    spellings: Seq<Seq<char>>,
    names: Seq<Option<Seq<char>>>,
) -> Seq<(Seq<char>, usize)>
    decreases spellings.len(),
{
    if spellings.len() == 0 || names.len() == 0 {
        entries
    } else {
        let e1 = match resolve_batch_index(states, names[0]) {
            Some(idx) => spec_insert_spelling(entries, spellings[0], idx as usize),
            None => entries,
        };
        apply_spelling_batch(states, e1, spellings.drop_first(), names.drop_first())
    }
}

/// The identifier-keyed entries after a whole batch is written, as
/// [`apply_spelling_batch`].
pub open spec fn apply_id_batch(
    states: Seq<CardStateView>,
    entries: Seq<(u64, u64, usize)>,
    keys: Seq<(u64, u64)>,
    names: Seq<Option<Seq<char>>>,
) -> Seq<(u64, u64, usize)>
    decreases keys.len(),
{
    if keys.len() == 0 || names.len() == 0 {
        entries
    } else {
        let e1 = match resolve_batch_index(states, names[0]) {
            Some(idx) => spec_insert_id(entries, keys[0].0, keys[0].1, idx as usize),
            None => entries,
        };
        apply_id_batch(states, e1, keys.drop_first(), names.drop_first())
    }
}

/// Extending equally long batches by one pair applies that pair last.
proof fn lemma_apply_spelling_batch_snoc(
    states: Seq<CardStateView>,
    entries: Seq<(Seq<char>, usize)>,
    spellings: Seq<Seq<char>>,
    names: Seq<Option<Seq<char>>>,
    s: Seq<char>,
    n: Option<Seq<char>>,
)
    requires
        spellings.len() == names.len(),
    ensures
        apply_spelling_batch(states, entries, spellings.push(s), names.push(n)) == (
        match resolve_batch_index(states, n) {
            Some(idx) => spec_insert_spelling(
                apply_spelling_batch(states, entries, spellings, names),
                s,
                idx as usize,
            ),
            None => apply_spelling_batch(states, entries, spellings, names),
        }),
    decreases spellings.len(),
{
    if spellings.len() == 0 {
        let e1 = match resolve_batch_index(states, n) {
            Some(idx) => spec_insert_spelling(entries, s, idx as usize),
            None => entries,
        };
        assert(spellings.push(s)[0] == s);
        assert(names.push(n)[0] == n);
        assert(spellings.push(s).drop_first() =~= Seq::<Seq<char>>::empty());
        assert(names.push(n).drop_first() =~= Seq::<Option<Seq<char>>>::empty());
        assert(apply_spelling_batch(
            states,
            e1,
            spellings.push(s).drop_first(),
            names.push(n).drop_first(),
        ) == e1);
        assert(apply_spelling_batch(states, entries, spellings.push(s), names.push(n)) == e1);
        assert(apply_spelling_batch(states, entries, spellings, names) == entries);
    } else {
        assert(spellings.push(s).drop_first() =~= spellings.drop_first().push(s));
        assert(names.push(n).drop_first() =~= names.drop_first().push(n));
        let e1 = match resolve_batch_index(states, names[0]) {
            Some(idx) => spec_insert_spelling(entries, spellings[0], idx as usize),
            None => entries,
        };
        lemma_apply_spelling_batch_snoc(states, e1, spellings.drop_first(), names.drop_first(), s, n);
        assert(spellings.push(s)[0] == spellings[0]);
        assert(names.push(n)[0] == names[0]);
        assert(apply_spelling_batch(states, entries, spellings, names) == apply_spelling_batch(
            states,
            e1,
            spellings.drop_first(),
            names.drop_first(),
        ));
        assert(apply_spelling_batch(states, entries, spellings.push(s), names.push(n))
            == apply_spelling_batch(
            states,
            e1,
            spellings.drop_first().push(s),
            names.drop_first().push(n),
        ));
    }
}

/// Extending equally long batches by one pair applies that pair last.
proof fn lemma_apply_id_batch_snoc(
    states: Seq<CardStateView>,
    entries: Seq<(u64, u64, usize)>,
    keys: Seq<(u64, u64)>,
    names: Seq<Option<Seq<char>>>,
    k: (u64, u64),
    n: Option<Seq<char>>,
)
    requires
        keys.len() == names.len(),
    ensures
        apply_id_batch(states, entries, keys.push(k), names.push(n)) == (
        match resolve_batch_index(states, n) {
            Some(idx) => spec_insert_id(
                apply_id_batch(states, entries, keys, names),
                k.0,
                k.1,
                idx as usize,
            ),
            None => apply_id_batch(states, entries, keys, names),
        }),
    decreases keys.len(),
{
    if keys.len() == 0 {
        let e1 = match resolve_batch_index(states, n) {
            Some(idx) => spec_insert_id(entries, k.0, k.1, idx as usize),
            None => entries,
        };
        assert(keys.push(k)[0] == k);
        assert(names.push(n)[0] == n);
        assert(keys.push(k).drop_first() =~= Seq::<(u64, u64)>::empty());
        assert(names.push(n).drop_first() =~= Seq::<Option<Seq<char>>>::empty());
        assert(apply_id_batch(states, e1, keys.push(k).drop_first(), names.push(n).drop_first())
            == e1);
        assert(apply_id_batch(states, entries, keys.push(k), names.push(n)) == e1);
        assert(apply_id_batch(states, entries, keys, names) == entries);
    } else {
        assert(keys.push(k).drop_first() =~= keys.drop_first().push(k));
        assert(names.push(n).drop_first() =~= names.drop_first().push(n));
        let e1 = match resolve_batch_index(states, names[0]) {
            Some(idx) => spec_insert_id(entries, keys[0].0, keys[0].1, idx as usize),
            None => entries,
        };
        lemma_apply_id_batch_snoc(states, e1, keys.drop_first(), names.drop_first(), k, n);
        assert(keys.push(k)[0] == keys[0]);
        assert(names.push(n)[0] == names[0]);
        assert(apply_id_batch(states, entries, keys, names) == apply_id_batch(
            states,
            e1,
            keys.drop_first(),
            names.drop_first(),
        ));
        assert(apply_id_batch(states, entries, keys.push(k), names.push(n)) == apply_id_batch(
            states,
            e1,
            keys.drop_first().push(k),
            names.drop_first().push(n),
        ));
    }
}

/// A batch stops at the shorter side: only the first `n` pairs matter.
proof fn lemma_apply_batch_stops(
    states: Seq<CardStateView>,
    entries: Seq<(Seq<char>, usize)>,
    spellings: Seq<Seq<char>>,
    names: Seq<Option<Seq<char>>>,
    n: int,
)
    requires
        n == if spellings.len() <= names.len() {
            spellings.len() as int
        } else {
            names.len() as int
        },
    ensures
        apply_spelling_batch(states, entries, spellings, names) == apply_spelling_batch(
            states,
            entries,
            spellings.take(n),
            names.take(n),
        ),
    decreases n,
{
    if n == 0 {
        assert(spellings.take(0) =~= Seq::<Seq<char>>::empty());
    } else {
        let e1 = match resolve_batch_index(states, names[0]) {
            Some(idx) => spec_insert_spelling(entries, spellings[0], idx as usize),
            None => entries,
        };
        lemma_apply_batch_stops(states, e1, spellings.drop_first(), names.drop_first(), n - 1);
        assert(spellings.take(n).drop_first() =~= spellings.drop_first().take(n - 1));
        assert(names.take(n).drop_first() =~= names.drop_first().take(n - 1));
        assert(spellings.take(n)[0] == spellings[0]);
        assert(names.take(n)[0] == names[0]);
    }
}

/// A batch stops at the shorter side: only the first `n` pairs matter.
proof fn lemma_apply_id_batch_stops(
    states: Seq<CardStateView>,
    entries: Seq<(u64, u64, usize)>,
    keys: Seq<(u64, u64)>,
    names: Seq<Option<Seq<char>>>,
    n: int,
)
    requires
        n == if keys.len() <= names.len() {
            keys.len() as int
        } else {
            names.len() as int
        },
    ensures
        apply_id_batch(states, entries, keys, names) == apply_id_batch(
            states,
            entries,
            keys.take(n),
            names.take(n),
        ),
    decreases n,
{
    if n == 0 {
        assert(keys.take(0) =~= Seq::<(u64, u64)>::empty());
    } else {
        let e1 = match resolve_batch_index(states, names[0]) {
            Some(idx) => spec_insert_id(entries, keys[0].0, keys[0].1, idx as usize),
            None => entries,
        };
        lemma_apply_id_batch_stops(states, e1, keys.drop_first(), names.drop_first(), n - 1);
        assert(keys.take(n).drop_first() =~= keys.drop_first().take(n - 1));
        assert(names.take(n).drop_first() =~= names.drop_first().take(n - 1));
        assert(keys.take(n)[0] == keys[0]);
        assert(names.take(n)[0] == names[0]);
    }
}

/// The stable identifiers of the words that have one, in order.
pub open spec fn id_keys_of(ws: Seq<WordView>) -> Seq<(u64, u64)>
    decreases ws.len(),
{
    if ws.len() == 0 {
        Seq::empty()
    } else {
        (match ws[0].definition {
            Some(d) => match d.stable_id {
                Some(id) => seq![id],
                None => Seq::<(u64, u64)>::empty(),
            },
            None => Seq::<(u64, u64)>::empty(),
        }) + id_keys_of(ws.drop_first())
    }
}

/// The spellings of the words whose definition has no stable identifier, in
/// order.
pub open spec fn plain_spellings_of(ws: Seq<WordView>) -> Seq<Seq<char>>
    decreases ws.len(),
{
    if ws.len() == 0 {
        Seq::empty()
    } else {
        (match ws[0].definition {
            Some(d) => match d.stable_id {
                Some(id) => Seq::<Seq<char>>::empty(),
                None => seq![d.spelling],
            },
            None => Seq::<Seq<char>>::empty(),
        }) + plain_spellings_of(ws.drop_first())
    }
}

/// Appending a word appends its contribution to the partition.
proof fn lemma_partition_snoc(ws: Seq<WordView>, w: WordView)
    ensures
        id_keys_of(ws.push(w)) == id_keys_of(ws) + (match w.definition {
            Some(d) => match d.stable_id {
                Some(id) => seq![id],
                None => Seq::<(u64, u64)>::empty(),
            },
            None => Seq::<(u64, u64)>::empty(),
        }),
        plain_spellings_of(ws.push(w)) == plain_spellings_of(ws) + (match w.definition {
            Some(d) => match d.stable_id {
                Some(id) => Seq::<Seq<char>>::empty(),
                None => seq![d.spelling],
            },
            None => Seq::<Seq<char>>::empty(),
        }),
    decreases ws.len(),
{
    if ws.len() == 0 {
        assert(ws.push(w)[0] == w);
        assert(ws.push(w).drop_first() =~= Seq::<WordView>::empty());
        assert(id_keys_of(ws.push(w).drop_first()) == Seq::<(u64, u64)>::empty());
        assert(plain_spellings_of(ws.push(w).drop_first()) == Seq::<Seq<char>>::empty());
        assert(id_keys_of(ws.push(w)) =~= id_keys_of(ws) + (match w.definition {
            Some(d) => match d.stable_id {
                Some(id) => seq![id],
                None => Seq::<(u64, u64)>::empty(),
            },
            None => Seq::<(u64, u64)>::empty(),
        }));
        assert(plain_spellings_of(ws.push(w)) =~= plain_spellings_of(ws) + (match w.definition {
            Some(d) => match d.stable_id {
                Some(id) => Seq::<Seq<char>>::empty(),
                None => seq![d.spelling],
            },
            None => Seq::<Seq<char>>::empty(),
        }));
    } else {
        assert(ws.push(w)[0] == ws[0]);
        assert(ws.push(w).drop_first() =~= ws.drop_first().push(w));
        lemma_partition_snoc(ws.drop_first(), w);
        assert(id_keys_of(ws.push(w)) =~= id_keys_of(ws) + (match w.definition {
            Some(d) => match d.stable_id {
                Some(id) => seq![id],
                None => Seq::<(u64, u64)>::empty(),
            },
            None => Seq::<(u64, u64)>::empty(),
        }));
        assert(plain_spellings_of(ws.push(w)) =~= plain_spellings_of(ws) + (match w.definition {
            Some(d) => match d.stable_id {
                Some(id) => Seq::<Seq<char>>::empty(),
                None => seq![d.spelling],
            },
            None => Seq::<Seq<char>>::empty(),
        }));
    }
}

/// Partition a word list for the batched card-state lookup: the stable
/// identifiers of the words that have one, and the spellings of the words
/// whose definition carries none. Words without a definition contribute to
/// neither side.
pub fn partition_definitions(words: &Vec<Word>) -> (r: (Vec<(u64, u64)>, Vec<String>))
    ensures
        r.0@ == id_keys_of(paragraph_view(words@)),
        r.1@.map(|i: int, s: String| s@) == plain_spellings_of(paragraph_view(words@)),
{
    let ghost wv = paragraph_view(words@);
    let mut ids: Vec<(u64, u64)> = Vec::new();
    let mut spellings: Vec<String> = Vec::new();
    proof {
        assert(wv.take(0) =~= Seq::<WordView>::empty());
        assert(spellings@.map(|i: int, s: String| s@) =~= plain_spellings_of(wv.take(0)));
    }
    let mut i: usize = 0;
    while i < words.len()
        invariant
            i <= words@.len(),
            wv == paragraph_view(words@),
            ids@ == id_keys_of(wv.take(i as int)),
            spellings@.map(|k: int, s: String| s@) == plain_spellings_of(wv.take(i as int)),
        decreases words@.len() - i,
    {
        let ghost ids_before = ids@;
        let ghost sp_before = spellings@;
        match &words[i].definition {
            Some(d) => match &d.stable_id {
                Some(id) => {
                    ids.push((id.0, id.1));
                },
                None => {
                    spellings.push(d.spelling.clone());
                },
            },
            None => {},
        }
        proof {
            assert(wv[i as int] == words@[i as int]@);
            assert(wv.take(i + 1) =~= wv.take(i as int).push(wv[i as int]));
            lemma_partition_snoc(wv.take(i as int), wv[i as int]);
            assert(ids@ =~= id_keys_of(wv.take(i + 1)));
            assert(spellings@.map(|k: int, s: String| s@) =~= plain_spellings_of(wv.take(i + 1)));
        }
        i += 1;
    }
    proof {
        assert(wv.take(words@.len() as int) =~= wv);
    }
    (ids, spellings)
}

/// The card-state cache: a state table whose index 0 is the sentinel state,
/// and the cached state index per stable identifier and per spelling.
pub struct CardStateCache {
    pub states: Vec<CardState>,
    pub by_id: Vec<(u64, u64, usize)>,
    pub by_spelling: Vec<(String, usize)>,
}

impl CardStateCache {
    /// The views of the state table.
    pub open spec fn states_v(self) -> Seq<CardStateView> {
        states_view(self.states@)
    }

    /// The model of the identifier-keyed cache.
    pub open spec fn id_entries(self) -> Seq<(u64, u64, usize)> {
        self.by_id@
    }

    /// The model of the spelling-keyed cache.
    pub open spec fn spelling_entries(self) -> Seq<(Seq<char>, usize)> {
        self.by_spelling@.map(|i: int, e: (String, usize)| (e.0@, e.1))
    }

    /// Well-formed: the sentinel state exists and every cached index points
    /// into the state table.
    pub open spec fn wf(self) -> bool {
        &&& self.states@.len() >= 1
        &&& forall|i: int|
            0 <= i < self.by_id@.len() ==> (#[trigger] self.by_id@[i]).2 < self.states@.len()
        &&& forall|i: int|
            0 <= i < self.by_spelling@.len() ==> (#[trigger] self.by_spelling@[i]).1
                < self.states@.len()
    }

    /// A fresh cache over the given state table, with nothing cached yet.
    pub fn new(states: Vec<CardState>) -> (r: CardStateCache)
        requires
            states@.len() >= 1,
        ensures
            r.wf(),
            r.states@ == states@,
            r.states_v() == states_view(states@),
            r.id_entries() == Seq::<(u64, u64, usize)>::empty(),
            r.spelling_entries() == Seq::<(Seq<char>, usize)>::empty(),
    {
        let r = CardStateCache { states, by_id: Vec::new(), by_spelling: Vec::new() };
        proof {
            assert(r.spelling_entries() =~= Seq::<(Seq<char>, usize)>::empty());
        }
        r
    }

    /// The state index a word resolves to: the cached index under the word's
    /// key (stable identifier when present, spelling otherwise), or 0 — the
    /// sentinel — when the word has no definition or nothing is cached.
    pub open spec fn resolved_index(self, w: WordView) -> int {
        match w.definition {
            None => 0,
            Some(d) => match d.stable_id {
                Some(id) => match id_lookup(self.id_entries(), id.0, id.1) {
                    Some(i) => i as int,
                    None => 0,
                },
                None => match spelling_lookup(self.spelling_entries(), d.spelling) {
                    Some(i) => i as int,
                    None => 0,
                },
            },
        }
    }

    /// The state a word resolves to.
    pub open spec fn resolved_state(self, w: WordView) -> CardStateView {
        self.states_v()[self.resolved_index(w)]
    }

    /// The cached state index under a stable-identifier key.
    fn find_id_state(&self, vid: u64, sid: u64) -> (r: Option<usize>)
        ensures
            r == id_lookup(self.id_entries(), vid, sid),
            (r is Some && self.wf()) ==> r->0 < self.states@.len(),
    {
        let ghost entries = self.by_id@;
        let mut j: usize = 0;
        while j < self.by_id.len()
            invariant
                j <= entries.len(),
                entries == self.by_id@,
                forall|l: int| 0 <= l < j ==> !id_hit(#[trigger] entries[l], vid, sid),
            decreases entries.len() - j,
        {
            let e = self.by_id[j];
            if e.0 == vid && e.1 == sid {
                proof {
                    lemma_id_match_at(entries, vid, sid, j as int);
                }
                return Some(e.2);
            }
            j += 1;
        }
        proof {
            lemma_id_match_none(entries, vid, sid);
        }
        None
    }

    /// The cached state index under a spelling key.
    fn find_spelling_state(&self, spelling: &String) -> (r: Option<usize>)
        ensures
            r == spelling_lookup(self.spelling_entries(), spelling@),
            (r is Some && self.wf()) ==> r->0 < self.states@.len(),
    {
        let ghost entries = self.spelling_entries();
        proof {
            assert(forall|l: int|
                0 <= l < entries.len() ==> #[trigger] entries[l] == (
                self.by_spelling@[l].0@,
                self.by_spelling@[l].1,
                ));
        }
        let mut j: usize = 0;
        while j < self.by_spelling.len()
            invariant
                j <= entries.len(),
                entries == self.spelling_entries(),
                entries.len() == self.by_spelling@.len(),
                forall|l: int|
                    0 <= l < entries.len() ==> #[trigger] entries[l] == (
                    self.by_spelling@[l].0@,
                    self.by_spelling@[l].1,
                    ),
                forall|l: int| 0 <= l < j ==> !spelling_hit(#[trigger] entries[l], spelling@),
            decreases entries.len() - j,
        {
            if spelling.eq(&self.by_spelling[j].0) {
                proof {
                    lemma_spelling_match_at(entries, spelling@, j as int);
                }
                return Some(self.by_spelling[j].1);
            }
            j += 1;
        }
        proof {
            lemma_spelling_match_none(entries, spelling@);
        }
        None
    }

    /// Write `idx` under a stable-identifier key. Only that key's cached
    /// index changes.
    pub fn insert_id_state(&mut self, vid: u64, sid: u64, idx: usize)
        requires
            old(self).wf(),
            idx < old(self).states@.len(),
        ensures
            final(self).wf(),
            final(self).states_v() == old(self).states_v(),
            final(self).states@ == old(self).states@,
            final(self).spelling_entries() == old(self).spelling_entries(),
            final(self).id_entries() == spec_insert_id(old(self).id_entries(), vid, sid, idx),
    {
        let ghost entries = self.by_id@;
        let mut j: usize = 0;
        while j < self.by_id.len()
            invariant
                j <= entries.len(),
                entries == self.by_id@,
                self.by_id@ == old(self).by_id@,
                self.wf(),
                self.states@ == old(self).states@,
                self.by_spelling@ == old(self).by_spelling@,
                idx < self.states@.len(),
                forall|l: int| 0 <= l < j ==> !id_hit(#[trigger] entries[l], vid, sid),
            decreases entries.len() - j,
        {
            let e = self.by_id[j];
            if e.0 == vid && e.1 == sid {
                proof {
                    lemma_id_match_at(entries, vid, sid, j as int);
                }
                self.by_id.set(j, (vid, sid, idx));
                proof {
                    assert(self.by_id@ =~= spec_insert_id(entries, vid, sid, idx));
                }
                return ;
            }
            j += 1;
        }
        proof {
            lemma_id_match_none(entries, vid, sid);
        }
        self.by_id.push((vid, sid, idx));
    }

    /// Write `idx` under a spelling key. Only that key's cached index
    /// changes.
    pub fn insert_spelling_state(&mut self, spelling: String, idx: usize)
        requires
            old(self).wf(),
            idx < old(self).states@.len(),
        ensures
            final(self).wf(),
            final(self).states_v() == old(self).states_v(),
            final(self).states@ == old(self).states@,
            final(self).id_entries() == old(self).id_entries(),
            final(self).spelling_entries() == spec_insert_spelling(
                old(self).spelling_entries(),
                spelling@,
                idx,
            ),
    {
        let ghost entries = self.spelling_entries();
        proof {
            assert(forall|l: int|
                0 <= l < entries.len() ==> #[trigger] entries[l] == (
                self.by_spelling@[l].0@,
                self.by_spelling@[l].1,
                ));
        }
        let mut j: usize = 0;
        while j < self.by_spelling.len()
            invariant
                j <= entries.len(),
                entries == self.spelling_entries(),
                entries.len() == self.by_spelling@.len(),
                self.wf(),
                self.by_spelling@ == old(self).by_spelling@,
                self.states@ == old(self).states@,
                self.by_id@ == old(self).by_id@,
                idx < self.states@.len(),
                forall|l: int|
                    0 <= l < entries.len() ==> #[trigger] entries[l] == (
                    self.by_spelling@[l].0@,
                    self.by_spelling@[l].1,
                    ),
                forall|l: int| 0 <= l < j ==> !spelling_hit(#[trigger] entries[l], spelling@),
            decreases entries.len() - j,
        {
            if spelling.eq(&self.by_spelling[j].0) {
                proof {
                    lemma_spelling_match_at(entries, spelling@, j as int);
                }
                self.by_spelling.set(j, (spelling, idx));
                proof {
                    assert(self.spelling_entries() =~= entries.update(j as int, (spelling@, idx)));
                }
                return ;
            }
            j += 1;
        }
        proof {
            lemma_spelling_match_none(entries, spelling@);
        }
        self.by_spelling.push((spelling, idx));
        proof {
            assert(self.spelling_entries() =~= entries.push((spelling@, idx)));
        }
    }

    /// First index of a state with the given name, if any.
    pub fn find_state_index(&self, name: &String) -> (r: Option<usize>)
        ensures
            match name_match(self.states_v(), name@) {
                Some(j) => r == Some(j as usize) && 0 <= j < self.states@.len(),
                None => r is None,
            },
    {
        let ghost states = self.states_v();
        let mut j: usize = 0;
        while j < self.states.len()
            invariant
                j <= states.len(),
                states == self.states_v(),
                states.len() == self.states@.len(),
                forall|l: int| 0 <= l < j ==> !name_hit(#[trigger] states[l], name@),
            decreases states.len() - j,
        {
            if name.eq(&self.states[j].name) {
                proof {
                    lemma_name_match_at(states, name@, j as int);
                }
                return Some(j);
            }
            j += 1;
        }
        proof {
            lemma_name_match_none(states, name@);
        }
        None
    }

    /// Write a whole spelling-keyed batch, pairing each spelling with the
    /// reported card-state name at the same position (surplus on either side
    /// is ignored, as when the two are zipped): a named state is cached under
    /// its index, an unknown name caches nothing, and a missing name ("not
    /// yet encountered") caches index 1.
    pub fn insert_spelling_batch(&mut self, spellings: &Vec<String>, names: &Vec<Option<String>>)
        requires
            old(self).wf(),
            old(self).states@.len() >= 2,
        ensures
            final(self).wf(),
            final(self).states_v() == old(self).states_v(),
            final(self).states@ == old(self).states@,
            final(self).id_entries() == old(self).id_entries(),
            final(self).spelling_entries() == apply_spelling_batch(
                old(self).states_v(),
                old(self).spelling_entries(),
                spellings@.map(|i: int, s: String| s@),
                names_view(names@),
            ),
    {
        let ghost states = self.states_v();
        let ghost entries0 = self.spelling_entries();
        let ghost sv = spellings@.map(|i: int, s: String| s@);
        let ghost nv = names_view(names@);
        let n = if spellings.len() < names.len() {
            spellings.len()
        } else {
            names.len()
        };
        proof {
            assert(sv.take(0) =~= Seq::<Seq<char>>::empty());
            assert(nv.take(0) =~= Seq::<Option<Seq<char>>>::empty());
        }
        let mut i: usize = 0;
        while i < n
            invariant
                i <= n,
                n <= spellings@.len(),
                n <= names@.len(),
                sv == spellings@.map(|k: int, s: String| s@),
                nv == names_view(names@),
                states == old(self).states_v(),
                entries0 == old(self).spelling_entries(),
                self.wf(),
                self.states@ == old(self).states@,
                self.states@.len() >= 2,
                self.by_id@ == old(self).by_id@,
                self.states_v() == states,
                self.spelling_entries() == apply_spelling_batch(
                    states,
                    entries0,
                    sv.take(i as int),
                    nv.take(i as int),
                ),
            decreases n - i,
        {
            let ghost before = self.spelling_entries();
            match &names[i] {
                None => {
                    self.insert_spelling_state(spellings[i].clone(), 1);
                },
                Some(name) => {
                    match self.find_state_index(name) {
                        Some(idx) => {
                            self.insert_spelling_state(spellings[i].clone(), idx);
                        },
                        None => {},
                    }
                },
            }
            proof {
                assert(nv[i as int] == match names@[i as int] {
                    Some(s) => Some(s@),
                    None => None::<Seq<char>>,
                });
                assert(self.spelling_entries() == match resolve_batch_index(states, nv[i as int]) {
                    Some(idx) => spec_insert_spelling(before, sv[i as int], idx as usize),
                    None => before,
                });
                assert(sv.take(i + 1) =~= sv.take(i as int).push(sv[i as int]));
                assert(nv.take(i + 1) =~= nv.take(i as int).push(nv[i as int]));
                lemma_apply_spelling_batch_snoc(
                    states,
                    entries0,
                    sv.take(i as int),
                    nv.take(i as int),
                    sv[i as int],
                    nv[i as int],
                );
            }
            i += 1;
        }
        proof {
            lemma_apply_batch_stops(states, entries0, sv, nv, n as int);
        }
    }

    /// Write a whole identifier-keyed batch, pairing each key with the
    /// reported card-state name at the same position, with the same
    /// resolution as [`CardStateCache::insert_spelling_batch`].
    pub fn insert_id_batch(&mut self, keys: &Vec<(u64, u64)>, names: &Vec<Option<String>>)
        requires
            old(self).wf(),
            old(self).states@.len() >= 2,
        ensures
            final(self).wf(),
            final(self).states_v() == old(self).states_v(),
            final(self).states@ == old(self).states@,
            final(self).spelling_entries() == old(self).spelling_entries(),
            final(self).id_entries() == apply_id_batch(
                old(self).states_v(),
                old(self).id_entries(),
                keys@,
                names_view(names@),
            ),
    {
        let ghost states = self.states_v();
        let ghost entries0 = self.id_entries();
        let ghost nv = names_view(names@);
        let n = if keys.len() < names.len() {
            keys.len()
        } else {
            names.len()
        };
        proof {
            assert(keys@.take(0) =~= Seq::<(u64, u64)>::empty());
            assert(nv.take(0) =~= Seq::<Option<Seq<char>>>::empty());
        }
        let mut i: usize = 0;
        while i < n
            invariant
                i <= n,
                n <= keys@.len(),
                n <= names@.len(),
                nv == names_view(names@),
                states == old(self).states_v(),
                entries0 == old(self).id_entries(),
                self.wf(),
                self.states@ == old(self).states@,
                self.states@.len() >= 2,
                self.spelling_entries() == old(self).spelling_entries(),
                self.states_v() == states,
                self.id_entries() == apply_id_batch(
                    states,
                    entries0,
                    keys@.take(i as int),
                    nv.take(i as int),
                ),
            decreases n - i,
        {
            let ghost before = self.id_entries();
            let key = keys[i];
            match &names[i] {
                None => {
                    self.insert_id_state(key.0, key.1, 1);
                },
                Some(name) => {
                    match self.find_state_index(name) {
                        Some(idx) => {
                            self.insert_id_state(key.0, key.1, idx);
                        },
                        None => {},
                    }
                },
            }
            proof {
                assert(nv[i as int] == match names@[i as int] {
                    Some(s) => Some(s@),
                    None => None::<Seq<char>>,
                });
                assert(self.id_entries() == match resolve_batch_index(states, nv[i as int]) {
                    Some(idx) => spec_insert_id(before, keys@[i as int].0, keys@[i as int].1, idx as usize),
                    None => before,
                });
                assert(keys@.take(i + 1) =~= keys@.take(i as int).push(keys@[i as int]));
                assert(nv.take(i + 1) =~= nv.take(i as int).push(nv[i as int]));
                lemma_apply_id_batch_snoc(
                    states,
                    entries0,
                    keys@.take(i as int),
                    nv.take(i as int),
                    keys@[i as int],
                    nv[i as int],
                );
            }
            i += 1;
        }
        proof {
            lemma_apply_id_batch_stops(states, entries0, keys@, nv, n as int);
        }
    }

    /// Write one word's cached state under the word's own key (stable
    /// identifier when present, spelling otherwise): the optimistic update
    /// after the word was committed to the user's deck.
    pub fn set_word_state(&mut self, word: &Word, idx: usize)
        requires
            old(self).wf(),
            idx < old(self).states@.len(),
            word@.definition is Some,
        ensures
            final(self).wf(),
            final(self).states_v() == old(self).states_v(),
            final(self).states@ == old(self).states@,
            final(self).resolved_index(word@) == idx,
            word@.definition->0.stable_id matches Some(id) ==> (final(self).id_entries()
                == spec_insert_id(old(self).id_entries(), id.0, id.1, idx)
                && final(self).spelling_entries() == old(self).spelling_entries()),
            word@.definition->0.stable_id is None ==> (final(self).spelling_entries()
                == spec_insert_spelling(
                old(self).spelling_entries(),
                word@.definition->0.spelling,
                idx,
            ) && final(self).id_entries() == old(self).id_entries()),
    {
        match &word.definition {
            Some(d) => match &d.stable_id {
                Some(id) => {
                    self.insert_id_state(id.0, id.1, idx);
                    proof {
                        lemma_insert_id_frame(old(self).id_entries(), id.0, id.1, idx);
                    }
                },
                None => {
                    self.insert_spelling_state(d.spelling.clone(), idx);
                    proof {
                        lemma_insert_spelling_frame(
                            old(self).spelling_entries(),
                            d.spelling@,
                            idx,
                        );
                    }
                },
            },
            None => {
                proof {
                    assert(false);
                }
            },
        }
    }

    /// Resolve a word to its card state: the cached state under the word's
    /// key, or the sentinel (index 0) when the word has no definition or no
    /// entry is cached — regardless of what else the cache holds.
    pub fn card_state<'a>(&'a self, word: &Word) -> (r: &'a CardState)
        requires
            self.wf(),
        ensures
            r@ == self.resolved_state(word@),
            word@.definition is None ==> r@ == self.states_v()[0],
    {
        match &word.definition {
            None => &self.states[0],
            Some(d) => match &d.stable_id {
                Some(id) => match self.find_id_state(id.0, id.1) {
                    Some(idx) => &self.states[idx],
                    None => &self.states[0],
                },
                None => match self.find_spelling_state(&d.spelling) {
                    Some(idx) => &self.states[idx],
                    None => &self.states[0],
                },
            },
        }
    }
}

} // verus!
