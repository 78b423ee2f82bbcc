//! Orthography reconstruction: repairs a phonetic reading that uses the
//! long-vowel mark so that its tail matches the surface's actual kana
//! spelling, while keeping the dictionary's phonetic head for the part of
//! the word the kanji cover.
//!
//! The scan runs right to left over both strings at once. A surface kana
//! that matches the reading character (after the katakana shift), or that
//! stands where the reading has the long-vowel mark, is accepted into the
//! reconstructed tail; a kanji or any mismatch stops the scan, and what is
//! left of the reading is kept unchanged as the head.

use vstd::prelude::*;

use crate::script::hira_to_kata;
use crate::script::is_hiragana;
use crate::script::is_kanji;
use crate::script::spec_is_hiragana;
use crate::script::spec_is_kanji;
use crate::script::spec_kata;

verus! {

/// The part of the reading that the scan has not consumed: everything up to
/// and including position `pi`, or nothing once `pi` has run past the start.
pub open spec fn spec_head(p: Seq<char>, pi: int) -> Seq<char> {
    if 0 <= pi < p.len() {
        p.subrange(0, pi + 1)
    } else {
        Seq::empty()
    }
}

/// Whether the right-to-left scan accepts surface character `sc` against
/// reading character `pc`: `sc` is no kanji, and either its katakana form is
/// exactly `pc`, or `pc` is the long-vowel mark (U+30FC) standing for a
/// hiragana vowel that the surface spells out.
pub open spec fn spec_accepts(sc: char, pc: char) -> bool {
    &&& !spec_is_kanji(sc)
    &&& (spec_kata(sc) == pc || (pc == '\u{30FC}' && spec_is_hiragana(sc)))
}

/// One state of the right-to-left scan: cursors `si` and `pi` and the tail
/// accumulated so far. The result is the reading's remaining head followed
/// by the tail.
pub open spec fn spec_recon(s: Seq<char>, p: Seq<char>, si: int, pi: int, tail: Seq<char>) -> Seq<
    char,
>
    decreases si + 1,
{
    if si < 0 || pi < 0 || si >= s.len() || pi >= p.len() {
        spec_head(p, pi) + tail
    } else if spec_accepts(s[si], p[pi]) {
        spec_recon(s, p, si - 1, pi - 1, seq![spec_kata(s[si])] + tail)
    } else {
        spec_head(p, pi) + tail
    }
}

/// The reconstructed reading for `s` with phonetic reading `p`: the scan
/// starts at the last character of each.
pub open spec fn spec_reconstruct(s: Seq<char>, p: Seq<char>) -> Seq<char> {
    spec_recon(s, p, s.len() - 1, p.len() - 1, Seq::empty())
}

/// Builds the reading whose tail matches the surface's kana spelling and
/// whose head is the dictionary's phonetic prefix, as `spec_reconstruct`
/// states.
pub fn reconstruct_orthography(surface: &Vec<char>, phonetic: &Vec<char>) -> (r: Vec<char>)
    ensures
        r@ == spec_reconstruct(surface@, phonetic@),
{
    let ghost target: Seq<char> = spec_reconstruct(surface@, phonetic@);
    let mut si: usize = surface.len();
    let mut pi: usize = phonetic.len();
    let mut tail: Vec<char> = Vec::new();

    while si > 0 && pi > 0
        invariant
            si <= surface@.len(),
            pi <= phonetic@.len(),
            spec_recon(surface@, phonetic@, si as int - 1, pi as int - 1, tail@) == target,
        ensures
            pi <= phonetic@.len(),
            spec_head(phonetic@, pi as int - 1) + tail@ == target,
        decreases si,
    {
        let sc = surface[si - 1];
        let pc = phonetic[pi - 1];
        if is_kanji(sc) {
            break ;
        }
        let k = hira_to_kata(sc);
        if k == pc || (pc == '\u{30FC}' && is_hiragana(sc)) {
            let ghost tail_before = tail@;
            tail.insert(0, k);
            proof {
                assert(tail@ =~= seq![spec_kata(surface@[si as int - 1])] + tail_before);
            }
            si -= 1;
            pi -= 1;
        } else {
            break ;
        }
    }

    let mut r: Vec<char> = Vec::new();
    proof {
        assert(r@ =~= phonetic@.subrange(0, 0));
    }
    let mut j: usize = 0;
    while j < pi
        invariant
            j <= pi,
            pi <= phonetic@.len(),
            r@ == phonetic@.subrange(0, j as int),
        decreases pi - j,
    {
        r.push(phonetic[j]);
        proof {
            assert(r@ =~= phonetic@.subrange(0, j as int + 1));
        }
        j += 1;
    }
    let ghost head_part = r@;
    let mut t: usize = 0;
    proof {
        assert(r@ =~= head_part + tail@.subrange(0, 0));
    }
    while t < tail.len()
        invariant
            t <= tail@.len(),
            r@ == head_part + tail@.subrange(0, t as int),
        decreases tail@.len() - t,
    {
        r.push(tail[t]);
        proof {
            assert(r@ =~= head_part + tail@.subrange(0, t as int + 1));
        }
        t += 1;
    }
    proof {
        assert(tail@.subrange(0, tail@.len() as int) =~= tail@);
        assert(spec_head(phonetic@, pi as int - 1) =~= phonetic@.subrange(0, pi as int));
    }
    r
}

} // verus!
