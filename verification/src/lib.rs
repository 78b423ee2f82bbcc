//! Furigana (ruby) annotation core for Japanese text.
//!
//! Given a token's written surface form and a phonetic reading supplied by a
//! morphological dictionary, the library decides, character by character,
//! which slice of the reading belongs above which slice of the surface, so a
//! renderer can place small reading glyphs only over the kanji that need
//! them. The crate provides:
//!
//! - script classification of single codepoints (hiragana, kanji, the
//!   hiragana-to-katakana shift);
//! - reconstruction of a reading's tail so it matches the surface's actual
//!   kana spelling where the dictionary used long-vowel notation;
//! - selection of the reading field to trust for a given dictionary schema;
//! - the segmenter that splits a (surface, reading) pair into text/ruby
//!   pairs; and
//! - assembly of per-document annotations, with synthesized gap tokens so
//!   that the emitted surfaces cover the input exactly.
//!
//! Tokenization itself and the byte-level request/response encoding are
//! external collaborators: callers hand the library plain values (the token
//! surfaces, positions and metadata fields) and receive plain values back.

pub mod annotate;
pub mod chars;
pub mod reconstruct;
pub mod script;
pub mod segment;
pub mod select;
