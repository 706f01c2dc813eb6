//! Configuration data: which backend serves each capability, and each
//! backend's settings. Loading and saving the configuration files, and the
//! widgets that edit them, live with the caller; the data and its defaults
//! live here.

use vstd::prelude::*;

use crate::srs::{states_view, CardState, CardStateView, Rgb};

verus! {

/// The OCR backends a user can select.
#[derive(Debug, Clone, Copy, PartialEq, Eq, Structural)]
pub enum OcrServiceList {
    Owocr,
}

impl OcrServiceList {
    /// The backend's display name.
    pub fn name(&self) -> (r: &'static str)
        ensures
            *self matches OcrServiceList::Owocr ==> r@ == "owocr"@,
    {
        match self {
            OcrServiceList::Owocr => "owocr",
        }
    }
}

/// The dictionary backends a user can select.
#[derive(Debug, Clone, Copy, PartialEq, Eq, Structural)]
pub enum DictionaryServiceList {
    Jpdb,
}

impl DictionaryServiceList {
    /// The backend's display name.
    pub fn name(&self) -> (r: &'static str)
        ensures
            *self matches DictionaryServiceList::Jpdb ==> r@ == "jpdb"@,
    {
        match self {
            DictionaryServiceList::Jpdb => "jpdb",
        }
    }
}

/// The spaced-repetition backends a user can select.
#[derive(Debug, Clone, Copy, PartialEq, Eq, Structural)]
pub enum SrsServiceList {
    Jpdb,
}

impl SrsServiceList {
    /// The backend's display name.
    pub fn name(&self) -> (r: &'static str)
        ensures
            *self matches SrsServiceList::Jpdb ==> r@ == "jpdb"@,
    {
        match self {
            SrsServiceList::Jpdb => "jpdb",
        }
    }
}

/// Settings of the websocket OCR backend.
#[derive(Debug, Clone)]
pub struct OwocrConfig {
    /// Address the service listens on.
    pub address: String,
    /// Port the service listens on.
    pub port: u16,
}

impl Default for OwocrConfig {
    /// The local service on its usual port.
    fn default() -> (r: OwocrConfig)
        ensures
            r.address@ == "127.0.0.1"@,
            r.port == 7331,
    {
        OwocrConfig { address: "127.0.0.1".to_owned(), port: 7331 }
    }
}

/// Settings of the dictionary backend.
#[derive(Debug, Clone)]
pub struct JpdbDictionaryConfig {
    /// The user's API key.
    pub api_key: String,
    /// Whether paragraphs in which no word got a definition are dropped
    /// after alignment.
    pub filter_paragraphs_with_no_definitions: bool,
}

impl Default for JpdbDictionaryConfig {
    /// No key yet; undefined paragraphs are dropped.
    fn default() -> (r: JpdbDictionaryConfig)
        ensures
            r.api_key@ == Seq::<char>::empty(),
            r.filter_paragraphs_with_no_definitions,
    {
        let r = JpdbDictionaryConfig {
            api_key: String::new(),
            filter_paragraphs_with_no_definitions: true,
        };
        r
    }
}

/// The card-state table a fresh configuration starts with: index 0 is the
/// sentinel for unparsed/unknown words, index 1 the state cached when the
/// backend reports no state yet, and the relevant states are the ones a
/// learner is expected to act on.
pub open spec fn default_card_states() -> Seq<CardStateView> {
    seq![
        CardStateView {
            name: "unparsed"@,
            colour: Rgb { r: 255, g: 255, b: 255 },
            is_relevant: false,
        },
        CardStateView {
            name: "not in deck"@,
            colour: Rgb { r: 0, g: 200, b: 255 },
            is_relevant: true,
        },
        CardStateView { name: "new"@, colour: Rgb { r: 170, g: 240, b: 255 }, is_relevant: true },
        CardStateView {
            name: "learning"@,
            colour: Rgb { r: 170, g: 240, b: 255 },
            is_relevant: true,
        },
        CardStateView { name: "due"@, colour: Rgb { r: 255, g: 75, b: 60 }, is_relevant: true },
        CardStateView {
            name: "known"@,
            colour: Rgb { r: 125, g: 255, b: 125 },
            is_relevant: false,
        },
        CardStateView {
            name: "blacklisted"@,
            colour: Rgb { r: 192, g: 192, b: 192 },
            is_relevant: false,
        },
    ]
}

/// Settings of the spaced-repetition backend.
#[derive(Debug, Clone)]
pub struct JpdbSrsConfig {
    /// The user's API key.
    pub api_key: String,
    /// The deck new words are committed to.
    pub mining_deck_id: u64,
    /// The card-state table; index 0 is the sentinel.
    pub card_states: Vec<CardState>,
    /// The user's decks, fetched at start-up: identifier and name, in the
    /// order the backend lists them.
    pub decks: Vec<(u64, String)>,
}

impl Default for JpdbSrsConfig {
    /// No key and no deck yet, with the standard card-state table.
    fn default() -> (r: JpdbSrsConfig)
        ensures
            r.api_key@ == Seq::<char>::empty(),
            r.mining_deck_id == 0,
            states_view(r.card_states@) == default_card_states(),
            r.decks@.len() == 0,
    {
        let mut card_states: Vec<CardState> = Vec::new();
        card_states.push(
            CardState {
                name: "unparsed".to_owned(),
                colour: Rgb { r: 255, g: 255, b: 255 },
                is_relevant: false,
            },
        );
        card_states.push(
            CardState {
                name: "not in deck".to_owned(),
                colour: Rgb { r: 0, g: 200, b: 255 },
                is_relevant: true,
            },
        );
        card_states.push(
            CardState {
                name: "new".to_owned(),
                colour: Rgb { r: 170, g: 240, b: 255 },
                is_relevant: true,
            },
        );
        card_states.push(
            CardState {
                name: "learning".to_owned(),
                colour: Rgb { r: 170, g: 240, b: 255 },
                is_relevant: true,
            },
        );
        card_states.push(
            CardState {
                name: "due".to_owned(),
                colour: Rgb { r: 255, g: 75, b: 60 },
                is_relevant: true,
            },
        );
        card_states.push(
            CardState {
                name: "known".to_owned(),
                colour: Rgb { r: 125, g: 255, b: 125 },
                is_relevant: false,
            },
        );
        card_states.push(
            CardState {
                name: "blacklisted".to_owned(),
                colour: Rgb { r: 192, g: 192, b: 192 },
                is_relevant: false,
            },
        );
        proof {
            assert(states_view(card_states@) =~= default_card_states());
        }
        JpdbSrsConfig {
            api_key: String::new(),
            mining_deck_id: 0,
            card_states,
            decks: Vec::new(),
        }
    }
}

} // verus!
