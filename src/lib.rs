//! A parser for CC-CEDICT dictionary lines, including the cantonese.org
//! jyutping extension.

pub mod cedict;
pub mod cedict_entry;
pub mod errors;
pub mod laws;
pub mod parsers;
pub mod syllable;
pub mod text;
