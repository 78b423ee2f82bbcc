//! The ruby segmenter: splits a (surface, reading) pair into an ordered
//! list of text/ruby pairs.
//!
//! Kana characters of the surface act as anchors into the reading: wherever
//! a surface kana's katakana form first occurs in the unread remainder of
//! the reading, that occurrence separates the reading consumed by the
//! preceding kanji run from the kana itself, which needs no ruby. A kanji
//! run still pending at the end of the scan takes whatever remains of the
//! reading.

use vstd::prelude::*;

use crate::chars::chars_eq;
use crate::chars::copy_range;
use crate::chars::is_sentinel;
use crate::chars::one_char;
use crate::script::hira_to_kata;
use crate::script::spec_kata;

verus! {

/// One renderable segment: `ruby` is drawn above `text`; an empty `ruby`
/// renders as plain text.
#[derive(Debug, PartialEq, Eq)]
pub struct RubySegment {
    pub text: Vec<char>,
    pub ruby: Vec<char>,
}

/// The mathematical model of a segment.
pub struct SegModel {
    pub text: Seq<char>,
    pub ruby: Seq<char>,
}

impl View for RubySegment {
    type V = SegModel;

    open spec fn view(&self) -> SegModel {
        SegModel { text: self.text@, ruby: self.ruby@ }
    }
}

/// A segment that shows `text` with no annotation.
pub open spec fn spec_plain(text: Seq<char>) -> SegModel {
    SegModel { text: text, ruby: Seq::empty() }
}

/// The models of a list of segments.
pub open spec fn seg_models(v: Seq<RubySegment>) -> Seq<SegModel> {
    v.map_values(|sg: RubySegment| sg@)
}

/// The first position `>= i` where `c` occurs in `r`, if any.
pub open spec fn spec_find_from(r: Seq<char>, i: int, c: char) -> Option<int>
    decreases r.len() - i,
{
    if i >= r.len() {
        None
    } else if r[i] == c {
        Some(i)
    } else {
        spec_find_from(r, i + 1, c)
    }
}

/// The segments still to be emitted from one state of the left-to-right
/// scan: position `i` in the surface, position `ri` in the reading, and the
/// pending run `buf` of surface characters whose reading is not yet
/// resolved.
pub open spec fn spec_seg_rest(
    s: Seq<char>,
    r: Seq<char>,
    i: int,
    ri: int,
    buf: Seq<char>,
) -> Seq<SegModel>
    decreases s.len() - i,
{
    if i >= s.len() {
        if buf.len() > 0 {
            seq![
                SegModel {
                    text: buf,
                    ruby: if ri < r.len() {
                        r.subrange(ri, r.len() as int)
                    } else {
                        Seq::empty()
                    },
                },
            ]
        } else {
            Seq::empty()
        }
    } else {
        let c = s[i];
        if spec_kata(c) != c && ri < r.len() && spec_find_from(r, ri, spec_kata(c)) is Some {
            let p = spec_find_from(r, ri, spec_kata(c))->0;
            let flushed = if buf.len() > 0 {
                seq![SegModel { text: buf, ruby: r.subrange(ri, p) }]
            } else {
                Seq::empty()
            };
            flushed + seq![spec_plain(seq![c])] + spec_seg_rest(s, r, i + 1, p + 1, Seq::empty())
        } else {
            spec_seg_rest(s, r, i + 1, ri, buf.push(c))
        }
    }
}

/// The full segmentation of `s` with reading `r`: a single plain segment
/// when the reading is the no-reading sentinel or equals the surface, and
/// the anchor scan otherwise.
pub open spec fn spec_segments(s: Seq<char>, r: Seq<char>) -> Seq<SegModel> {
    if r == seq!['*'] || s == r {
        seq![spec_plain(s)]
    } else {
        spec_seg_rest(s, r, 0, 0, Seq::empty())
    }
}

/// The concatenation of the `text` fields of a list of segments.
pub open spec fn spec_concat_texts(segs: Seq<SegModel>) -> Seq<char>
    decreases segs.len(),
{
    if segs.len() == 0 {
        Seq::empty()
    } else {
        segs[0].text + spec_concat_texts(segs.drop_first())
    }
}

/// Every segment in the list shows at least one character of text.
pub open spec fn spec_all_texts_nonempty(segs: Seq<SegModel>) -> bool {
    forall|k: int| 0 <= k < segs.len() ==> (#[trigger] segs[k]).text.len() > 0
}

/// Concatenating texts distributes over list concatenation.
pub proof fn lemma_concat_texts_app(a: Seq<SegModel>, b: Seq<SegModel>)
    ensures
        spec_concat_texts(a + b) == spec_concat_texts(a) + spec_concat_texts(b),
    decreases a.len(),
{
    if a.len() == 0 {
        assert(a + b =~= b);
        assert(spec_concat_texts(a) + spec_concat_texts(b) =~= spec_concat_texts(b));
    } else {
        assert((a + b).drop_first() =~= a.drop_first() + b);
        lemma_concat_texts_app(a.drop_first(), b);
        assert((a + b)[0] == a[0]);
        assert(spec_concat_texts(a + b) == a[0].text + (spec_concat_texts(a.drop_first())
            + spec_concat_texts(b)));
        assert(a[0].text + (spec_concat_texts(a.drop_first()) + spec_concat_texts(b)) =~= (
        a[0].text + spec_concat_texts(a.drop_first())) + spec_concat_texts(b));
    }
}

/// The text of a singleton list is its one segment's text.
pub proof fn lemma_concat_texts_one(m: SegModel)
    ensures
        spec_concat_texts(seq![m]) == m.text,
{
    assert(seq![m].drop_first() =~= Seq::<SegModel>::empty());
    assert(spec_concat_texts(Seq::<SegModel>::empty()) == Seq::<char>::empty());
    assert(m.text + Seq::<char>::empty() =~= m.text);
}

/// From any scan state, the texts of the remaining segments are exactly the
/// pending run followed by the unread part of the surface.
pub proof fn lemma_seg_rest_covers(s: Seq<char>, r: Seq<char>, i: int, ri: int, buf: Seq<char>)
    requires
        0 <= i <= s.len(),
    ensures
        spec_concat_texts(spec_seg_rest(s, r, i, ri, buf)) == buf + s.subrange(i, s.len() as int),
    decreases s.len() - i,
{
    let res = spec_seg_rest(s, r, i, ri, buf);
    if i >= s.len() {
        assert(s.subrange(i, s.len() as int) =~= Seq::<char>::empty());
        if buf.len() > 0 {
            lemma_concat_texts_one(res[0]);
            assert(res =~= seq![res[0]]);
        }
        assert(buf + s.subrange(i, s.len() as int) =~= buf);
        assert(spec_concat_texts(res) =~= buf);
    } else {
        let c = s[i];
        if spec_kata(c) != c && ri < r.len() && spec_find_from(r, ri, spec_kata(c)) is Some {
            let p = spec_find_from(r, ri, spec_kata(c))->0;
            let flushed = if buf.len() > 0 {
                seq![SegModel { text: buf, ruby: r.subrange(ri, p) }]
            } else {
                Seq::<SegModel>::empty()
            };
            let kana = seq![spec_plain(seq![c])];
            let rest = spec_seg_rest(s, r, i + 1, p + 1, Seq::<char>::empty());
            lemma_seg_rest_covers(s, r, i + 1, p + 1, Seq::<char>::empty());
            lemma_concat_texts_app(flushed + kana, rest);
            lemma_concat_texts_app(flushed, kana);
            lemma_concat_texts_one(spec_plain(seq![c]));
            if buf.len() > 0 {
                lemma_concat_texts_one(flushed[0]);
                assert(flushed =~= seq![flushed[0]]);
            }
            assert(spec_concat_texts(flushed) == buf || spec_concat_texts(flushed)
                == Seq::<char>::empty());
            assert(spec_concat_texts(flushed) =~= buf);
            assert(spec_concat_texts(rest) =~= s.subrange(i + 1, s.len() as int));
            assert(buf + seq![c] + s.subrange(i + 1, s.len() as int) =~= buf + s.subrange(
                i,
                s.len() as int,
            ));
        } else {
            lemma_seg_rest_covers(s, r, i + 1, ri, buf.push(c));
            assert(buf.push(c) + s.subrange(i + 1, s.len() as int) =~= buf + s.subrange(
                i,
                s.len() as int,
            ));
        }
    }
}

/// From any scan state, every remaining segment shows at least one
/// character of text.
pub proof fn lemma_seg_rest_texts_nonempty(
    s: Seq<char>,
    r: Seq<char>,
    i: int,
    ri: int,
    buf: Seq<char>,
)
    requires
        0 <= i <= s.len(),
    ensures
        spec_all_texts_nonempty(spec_seg_rest(s, r, i, ri, buf)),
    decreases s.len() - i,
{
    let res = spec_seg_rest(s, r, i, ri, buf);
    if i >= s.len() {
    } else {
        let c = s[i];
        if spec_kata(c) != c && ri < r.len() && spec_find_from(r, ri, spec_kata(c)) is Some {
            let p = spec_find_from(r, ri, spec_kata(c))->0;
            let flushed = if buf.len() > 0 {
                seq![SegModel { text: buf, ruby: r.subrange(ri, p) }]
            } else {
                Seq::<SegModel>::empty()
            };
            let kana = seq![spec_plain(seq![c])];
            let rest = spec_seg_rest(s, r, i + 1, p + 1, Seq::<char>::empty());
            lemma_seg_rest_texts_nonempty(s, r, i + 1, p + 1, Seq::<char>::empty());
            assert forall|k: int| 0 <= k < res.len() implies (#[trigger] res[k]).text.len() > 0 by {
                if k < flushed.len() {
                    assert(res[k] == flushed[0]);
                } else if k < flushed.len() + 1 {
                    assert(res[k] == kana[0]);
                } else {
                    assert(res[k] == rest[k - flushed.len() - 1]);
                }
            }
        } else {
            lemma_seg_rest_texts_nonempty(s, r, i + 1, ri, buf.push(c));
        }
    }
}

/// Coverage: concatenating the `text` fields of the segmentation of any
/// (surface, reading) pair reproduces the surface exactly, character for
/// character.
pub proof fn lemma_segment_coverage(s: Seq<char>, r: Seq<char>)
    ensures
        spec_concat_texts(spec_segments(s, r)) == s,
{
    if r == seq!['*'] || s == r {
        lemma_concat_texts_one(spec_plain(s));
    } else {
        lemma_seg_rest_covers(s, r, 0, 0, Seq::<char>::empty());
        assert(Seq::<char>::empty() + s.subrange(0, s.len() as int) =~= s);
    }
}

/// Identity reading: when the reading equals the surface, the segmentation
/// is a single unannotated segment holding the whole surface.
pub proof fn lemma_identity_reading(s: Seq<char>)
    ensures
        spec_segments(s, s) == seq![spec_plain(s)],
{
}

/// No-reading sentinel: when the reading is the single character `*`, the
/// segmentation is a single unannotated segment holding the whole surface.
pub proof fn lemma_no_reading(s: Seq<char>)
    ensures
        spec_segments(s, seq!['*']) == seq![spec_plain(s)],
{
}

/// The position of the first occurrence of `c` in `r` at or after `from`,
/// exactly as `spec_find_from` states it.
fn find_char_from(r: &Vec<char>, from: usize, c: char) -> (res: Option<usize>)
    requires
        from <= r@.len(),
    ensures
        match res {
            Some(p) => from <= p < r@.len() && spec_find_from(r@, from as int, c) == Some(p as int),
            None => spec_find_from(r@, from as int, c) is None,
        },
{
    let mut j: usize = from;
    while j < r.len()
        invariant
            from <= j <= r@.len(),
            spec_find_from(r@, from as int, c) == spec_find_from(r@, j as int, c),
        decreases r@.len() - j,
    {
        if r[j] == c {
            return Some(j);
        }
        j += 1;
    }
    None
}

/// Splits `surface` into renderable segments against `reading`, exactly as
/// `spec_segments` states; the texts of the result cover the surface, and
/// each is non-empty whenever the surface is.
pub fn build_ruby_segments(surface: &Vec<char>, reading: &Vec<char>) -> (segs: Vec<RubySegment>)
    ensures
        seg_models(segs@) == spec_segments(surface@, reading@),
        spec_concat_texts(seg_models(segs@)) == surface@,
        surface@.len() > 0 ==> spec_all_texts_nonempty(seg_models(segs@)),
{
    if is_sentinel(reading) || chars_eq(surface, reading) {
        let text = copy_range(surface, 0, surface.len());
        let seg = RubySegment { text, ruby: Vec::new() };
        let mut segs: Vec<RubySegment> = Vec::new();
        segs.push(seg);
        proof {
            assert(surface@.subrange(0, surface@.len() as int) =~= surface@);
            assert(seg_models(segs@) =~= seq![spec_plain(surface@)]);
            lemma_segment_coverage(surface@, reading@);
        }
        return segs;
    }

    let ghost target: Seq<SegModel> = spec_seg_rest(surface@, reading@, 0, 0, Seq::empty());
    let mut segs: Vec<RubySegment> = Vec::new();
    let mut buffer: Vec<char> = Vec::new();
    let mut ri: usize = 0;
    let mut i: usize = 0;
    proof {
        assert(seg_models(segs@) =~= Seq::<SegModel>::empty());
        assert(Seq::<SegModel>::empty() + target =~= target);
    }
    while i < surface.len()
        invariant
            i <= surface@.len(),
            ri <= reading@.len(),
            target == seg_models(segs@) + spec_seg_rest(
                surface@,
                reading@,
                i as int,
                ri as int,
                buffer@,
            ),
        decreases surface@.len() - i,
    {
        let ghost models_before = seg_models(segs@);
        let ghost buf_before = buffer@;
        let ghost ri_before = ri as int;
        let c = surface[i];
        let k = hira_to_kata(c);
        let mut matched: Option<usize> = None;
        if k != c && ri < reading.len() {
            matched = find_char_from(reading, ri, k);
        }
        match matched {
            Some(p) => {
                let ghost flushed = if buf_before.len() > 0 {
                    seq![SegModel { text: buf_before, ruby: reading@.subrange(ri_before, p as int) }]
                } else {
                    Seq::<SegModel>::empty()
                };
                let ghost kana = seq![spec_plain(seq![c])];
                let ghost rest = spec_seg_rest(
                    surface@,
                    reading@,
                    i as int + 1,
                    p as int + 1,
                    Seq::<char>::empty(),
                );
                proof {
                    assert(spec_seg_rest(surface@, reading@, i as int, ri_before, buf_before)
                        == flushed + kana + rest);
                }
                if buffer.len() > 0 {
                    let ruby = copy_range(reading, ri, p);
                    let text = buffer;
                    buffer = Vec::new();
                    segs.push(RubySegment { text, ruby });
                    proof {
                        assert(seg_models(segs@) =~= models_before + flushed);
                    }
                } else {
                    proof {
                        assert(models_before + flushed =~= models_before);
                        assert(buffer@ =~= Seq::<char>::empty());
                    }
                }
                let ghost models_mid = seg_models(segs@);
                segs.push(RubySegment { text: one_char(c), ruby: Vec::new() });
                proof {
                    assert(seg_models(segs@) =~= models_mid + kana);
                    assert(seg_models(segs@) =~= models_before + flushed + kana);
                    assert(models_before + (flushed + kana + rest) =~= (models_before + flushed
                        + kana) + rest);
                    assert(target == seg_models(segs@) + rest);
                }
                ri = p + 1;
            },
            None => {
                proof {
                    assert(spec_seg_rest(surface@, reading@, i as int, ri_before, buf_before)
                        == spec_seg_rest(
                        surface@,
                        reading@,
                        i as int + 1,
                        ri_before,
                        buf_before.push(c),
                    ));
                }
                buffer.push(c);
                proof {
                    assert(target == seg_models(segs@) + spec_seg_rest(
                        surface@,
                        reading@,
                        i as int + 1,
                        ri as int,
                        buffer@,
                    ));
                }
            },
        }
        i += 1;
    }

    let ghost models_end = seg_models(segs@);
    let ghost buf_end = buffer@;
    let ghost ri_end = ri as int;
    if buffer.len() > 0 {
        let ruby = if ri < reading.len() {
            copy_range(reading, ri, reading.len())
        } else {
            Vec::new()
        };
        let text = buffer;
        segs.push(RubySegment { text, ruby });
        proof {
            let tail_model = SegModel {
                text: buf_end,
                ruby: if ri_end < reading@.len() {
                    reading@.subrange(ri_end, reading@.len() as int)
                } else {
                    Seq::empty()
                },
            };
            assert(spec_seg_rest(surface@, reading@, surface@.len() as int, ri_end, buf_end)
                == seq![tail_model]);
            assert(seg_models(segs@) =~= models_end + seq![tail_model]);
        }
    } else {
        proof {
            assert(spec_seg_rest(surface@, reading@, surface@.len() as int, ri_end, buf_end)
                =~= Seq::<SegModel>::empty());
            assert(models_end + Seq::<SegModel>::empty() =~= models_end);
        }
    }
    proof {
        lemma_segment_coverage(surface@, reading@);
        lemma_seg_rest_texts_nonempty(surface@, reading@, 0, 0, Seq::<char>::empty());
    }
    segs
}

} // verus!
