//! Verified core of a screen-capture dictionary lookup tool: token alignment
//! of OCR text against a dictionary service's tokenization, a card-state
//! cache for spaced-repetition metadata, spatial navigation over the laid-out
//! word grid, key-repeat handling, and the loading pipeline's state machine.

pub mod align;
pub mod config;
pub mod input;
pub mod jpdb;
pub mod json;
pub mod navigate;
pub mod ocr;
pub mod pipeline;
pub mod popups;
pub mod srs;
pub mod word;
