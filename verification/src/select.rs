//! The reading source selector: given a token's metadata field list and the
//! dictionary schema it follows, picks the reading string to trust, with
//! the fallback chain for absent fields.
//!
//! Two schemas exist. The simple one (a 9-field layout) carries one reading
//! field, taken unconditionally. The rich one (a 17-field layout)
//! distinguishes inflected words, whose actually-pronounced phonological
//! surface is preferred and repaired against the orthography, from
//! uninflected words, whose lemma reading keeps the canonical spelling.

use vstd::prelude::*;

use crate::chars::copy_chars;
use crate::chars::is_sentinel;
use crate::chars::sentinel_field;
use crate::reconstruct::reconstruct_orthography;
use crate::reconstruct::spec_reconstruct;

verus! {

/// The metadata field layout a dictionary variant supplies for each token.
#[derive(Clone, Copy, Debug, PartialEq, Eq, Structural)]
pub enum PosSchema {
    /// The 9-field layout: one reading field at position 7.
    Simple,
    /// The 17-field layout: conjugation type at position 4, lemma reading
    /// at position 6, phonological surface at position 9.
    Rich,
}

/// The number of metadata fields of the schema.
pub open spec fn spec_schema_width(schema: PosSchema) -> int {
    match schema {
        PosSchema::Simple => 9,
        PosSchema::Rich => 17,
    }
}

/// The number of metadata fields of the schema.
pub fn schema_width(schema: PosSchema) -> (n: usize)
    ensures
        n as int == spec_schema_width(schema),
{
    match schema {
        PosSchema::Simple => 9,
        PosSchema::Rich => 17,
    }
}

/// The models of an executable field list.
pub open spec fn fields_model(d: Seq<Vec<char>>) -> Seq<Seq<char>> {
    d.map_values(|f: Vec<char>| f@)
}

/// Field `idx` of the list, or the `*` sentinel when the list is too
/// short.
pub open spec fn spec_field(details: Seq<Seq<char>>, idx: int) -> Seq<char> {
    if 0 <= idx < details.len() {
        details[idx]
    } else {
        seq!['*']
    }
}

/// Under the rich schema, whether the token is inflected: its conjugation
/// type field is not the `*` sentinel.
pub open spec fn spec_is_inflected(details: Seq<Seq<char>>) -> bool {
    spec_field(details, 4) != seq!['*']
}

/// Under the rich schema, the raw reading before any repair: the preferred
/// field (phonological surface for inflected words, lemma reading
/// otherwise) when present and not the sentinel, else the lemma reading
/// field when present, else the sentinel.
pub open spec fn spec_raw_reading_rich(details: Seq<Seq<char>>) -> Seq<char> {
    let si = if spec_is_inflected(details) {
        9int
    } else {
        6int
    };
    if 0 <= si < details.len() && details[si] != seq!['*'] {
        details[si]
    } else if 6 < details.len() {
        details[6]
    } else {
        seq!['*']
    }
}

/// Under the rich schema, the final reading: the sentinel stays the
/// sentinel, an inflected word's raw reading is repaired against the
/// surface orthography, and any other reading is taken as it is.
pub open spec fn spec_reading_rich(surface: Seq<char>, details: Seq<Seq<char>>) -> Seq<char> {
    let raw = spec_raw_reading_rich(details);
    if raw == seq!['*'] {
        seq!['*']
    } else if spec_is_inflected(details) {
        spec_reconstruct(surface, raw)
    } else {
        raw
    }
}

/// The reading the selector chooses for a token, by schema.
pub open spec fn spec_selected_reading(
    schema: PosSchema,
    surface: Seq<char>,
    details: Seq<Seq<char>>,
) -> Seq<char> {
    match schema {
        PosSchema::Simple => spec_field(details, 7),
        PosSchema::Rich => spec_reading_rich(surface, details),
    }
}

/// Field `idx` of the list, or a sentinel when the list is too short.
pub fn get_field(details: &Vec<Vec<char>>, idx: usize) -> (r: Vec<char>)
    ensures
        r@ == spec_field(fields_model(details@), idx as int),
{
    if idx < details.len() {
        copy_chars(&details[idx])
    } else {
        sentinel_field()
    }
}

/// Chooses the reading for a token with the given surface and metadata
/// fields, exactly as `spec_selected_reading` states.
pub fn select_reading(schema: PosSchema, surface: &Vec<char>, details: &Vec<Vec<char>>) -> (r: Vec<
    char,
>)
    ensures
        r@ == spec_selected_reading(schema, surface@, fields_model(details@)),
{
    match schema {
        PosSchema::Simple => get_field(details, 7),
        PosSchema::Rich => {
            let conj = get_field(details, 4);
            let inflected = !is_sentinel(&conj);
            let source_idx: usize = if inflected {
                9
            } else {
                6
            };
            let preferred = get_field(details, source_idx);
            let raw = if !is_sentinel(&preferred) {
                preferred
            } else {
                get_field(details, 6)
            };
            if is_sentinel(&raw) {
                raw
            } else if inflected {
                reconstruct_orthography(surface, &raw)
            } else {
                raw
            }
        },
    }
}

} // verus!
