//! Script classification of single codepoints: hiragana and kanji
//! predicates, and the fixed codepoint shift that turns a letter-forming
//! hiragana into its katakana counterpart.

use vstd::prelude::*;

verus! {

/// A codepoint in the hiragana block (U+3040..=U+309F).
pub open spec fn spec_is_hiragana(c: char) -> bool {
    0x3040 <= c as u32 <= 0x309F
}

/// A codepoint in one of the three CJK ideograph ranges this library treats
/// as kanji: the unified block (U+4E00..=U+9FFF), extension A
/// (U+3400..=U+4DBF) and extension B (U+20000..=U+2A6DF). A heuristic
/// script boundary, not a dictionary lookup.
pub open spec fn spec_is_kanji(c: char) -> bool {
    ||| 0x4E00 <= c as u32 <= 0x9FFF
    ||| 0x3400 <= c as u32 <= 0x4DBF
    ||| 0x20000 <= c as u32 <= 0x2A6DF
}

/// The katakana counterpart of a letter-forming hiragana (U+3041..=U+3096),
/// reached by the fixed +0x60 block shift; any other codepoint is left
/// unchanged. Punctuation and the iteration marks of the hiragana block are
/// deliberately not mapped.
pub open spec fn spec_kata(c: char) -> char {
    if 0x3041 <= c as u32 <= 0x3096 {
        ((c as u32 + 0x60) as u32) as char
    } else {
        c
    }
}

/// Whether some codepoint of `s` is a kanji.
pub open spec fn spec_contains_kanji(s: Seq<char>) -> bool {
    exists|i: int| 0 <= i < s.len() && spec_is_kanji(s[i])
}

/// Relies on char::from_u32 of std: it returns Some exactly when the
/// argument is a Unicode scalar value (any value in 0..=0x10FFFF outside the
/// surrogate range 0xD800..=0xDFFF), and the char it returns has that value.
#[verifier::external_body]
fn char_from_u32(u: u32) -> (r: Option<char>)
    ensures
        r is Some <==> (u < 0xD800 || (0xE000 <= u && u <= 0x10FFFF)),
        r is Some ==> r->0 as u32 == u,
{
    char::from_u32(u)
}

/// True iff `c` lies in the hiragana block.
pub fn is_hiragana(c: char) -> (r: bool)
    ensures
        r == spec_is_hiragana(c),
{
    let u = c as u32;
    0x3040 <= u && u <= 0x309F
}

/// True iff `c` lies in one of the kanji ranges.
pub fn is_kanji(c: char) -> (r: bool)
    ensures
        r == spec_is_kanji(c),
{
    let u = c as u32;
    (0x4E00 <= u && u <= 0x9FFF) || (0x3400 <= u && u <= 0x4DBF) || (0x20000 <= u && u <= 0x2A6DF)
}

/// The katakana counterpart of a letter-forming hiragana; other codepoints
/// come back unchanged.
pub fn hira_to_kata(c: char) -> (r: char)
    ensures
        r == spec_kata(c),
{
    let u = c as u32;
    if 0x3041 <= u && u <= 0x3096 {
        match char_from_u32(u + 0x60) {
            Some(k) => {
                proof {
                    vstd::utf8::char_u32_cast(k, (u + 0x60) as u32);
                }
                k
            },
            None => {
                proof {
                    assert(false);
                }
                c
            },
        }
    } else {
        c
    }
}

/// True iff some codepoint of `s` is a kanji.
pub fn contains_kanji(s: &Vec<char>) -> (r: bool)
    ensures
        r == spec_contains_kanji(s@),
{
    let mut i: usize = 0;
    while i < s.len()
        invariant
            0 <= i <= s@.len(),
            forall|k: int| 0 <= k < i ==> !spec_is_kanji(s@[k]),
        decreases s@.len() - i,
    {
        if is_kanji(s[i]) {
            return true;
        }
        i += 1;
    }
    false
}

} // verus!
