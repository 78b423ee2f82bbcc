//! Assembly of per-document annotations.
//!
//! Each tokenizer token becomes one annotation: its surface, its metadata
//! fields passed through, and its ruby segments. A surface without kanji is
//! never annotated, whatever reading the dictionary supplied; otherwise the
//! selector chooses the reading and the segmenter splits the pair. Ranges
//! of the input that no token covers become synthesized gap annotations
//! with a whitespace marker and no ruby, so that the surfaces of all
//! emitted annotations concatenate to the input exactly.

use vstd::prelude::*;

use crate::chars::copy_chars;
use crate::chars::copy_range;
use crate::chars::sentinel_field;
use crate::script::contains_kanji;
use crate::script::spec_contains_kanji;
use crate::segment::build_ruby_segments;
use crate::segment::lemma_concat_texts_one;
use crate::segment::lemma_segment_coverage;
use crate::segment::seg_models;
use crate::segment::spec_all_texts_nonempty;
use crate::segment::spec_concat_texts;
use crate::segment::spec_plain;
use crate::segment::spec_segments;
use crate::segment::RubySegment;
use crate::segment::SegModel;
use crate::select::fields_model;
use crate::select::schema_width;
use crate::select::select_reading;
use crate::select::spec_schema_width;
use crate::select::spec_selected_reading;
use crate::select::PosSchema;

verus! {

/// One emitted annotation: the token's surface, its metadata fields passed
/// through unchanged, and the ruby segments that cover the surface.
#[derive(Debug, PartialEq, Eq)]
pub struct TokenInfo {
    pub surface: Vec<char>,
    pub details: Vec<Vec<char>>,
    pub ruby_segments: Vec<RubySegment>,
}

/// The mathematical model of an annotation.
pub struct TokenModel {
    pub surface: Seq<char>,
    pub details: Seq<Seq<char>>,
    pub ruby_segments: Seq<SegModel>,
}

impl View for TokenInfo {
    type V = TokenModel;

    open spec fn view(&self) -> TokenModel {
        TokenModel {
            surface: self.surface@,
            details: fields_model(self.details@),
            ruby_segments: seg_models(self.ruby_segments@),
        }
    }
}

/// The models of a list of annotations.
pub open spec fn token_models(v: Seq<TokenInfo>) -> Seq<TokenModel> {
    v.map_values(|t: TokenInfo| t@)
}

/// One tokenizer token as the caller hands it in: the range of the input
/// it covers, as character positions, and its metadata fields.
pub struct RawToken {
    pub start: usize,
    pub end: usize,
    pub details: Vec<Vec<char>>,
}

/// The mathematical model of a raw token.
pub struct RawTokenModel {
    pub start: int,
    pub end: int,
    pub details: Seq<Seq<char>>,
}

impl View for RawToken {
    type V = RawTokenModel;

    open spec fn view(&self) -> RawTokenModel {
        RawTokenModel {
            start: self.start as int,
            end: self.end as int,
            details: fields_model(self.details@),
        }
    }
}

/// The models of a list of raw tokens.
pub open spec fn raw_models(v: Seq<RawToken>) -> Seq<RawTokenModel> {
    v.map_values(|t: RawToken| t@)
}

/// What the tokenizer guarantees of its output: every token covers a range
/// of the text, and tokens come in order without overlap.
pub open spec fn spec_tokens_wf(text: Seq<char>, toks: Seq<RawTokenModel>) -> bool {
    &&& forall|j: int|
        0 <= j < toks.len() ==> 0 <= (#[trigger] toks[j]).start <= toks[j].end <= text.len()
    &&& forall|j: int| 0 < j < toks.len() ==> (#[trigger] toks[j]).start >= toks[j - 1].end
}

/// The ruby segments of one token: a surface without kanji keeps a single
/// unannotated segment, whatever reading the metadata supplies; any other
/// surface is split against the selected reading.
pub open spec fn spec_token_segments(
    schema: PosSchema,
    surface: Seq<char>,
    details: Seq<Seq<char>>,
) -> Seq<SegModel> {
    if !spec_contains_kanji(surface) {
        seq![spec_plain(surface)]
    } else {
        spec_segments(surface, spec_selected_reading(schema, surface, details))
    }
}

/// The annotation of one tokenizer token.
pub open spec fn spec_token_model(
    schema: PosSchema,
    surface: Seq<char>,
    details: Seq<Seq<char>>,
) -> TokenModel {
    TokenModel {
        surface: surface,
        details: details,
        ruby_segments: spec_token_segments(schema, surface, details),
    }
}

/// The marker placed in the first metadata field of a gap annotation.
pub open spec fn spec_whitespace_marker() -> Seq<char> {
    seq!['W', 'h', 'i', 't', 'e', 's', 'p', 'a', 'c', 'e']
}

/// The metadata of a gap annotation: a full-width field list of sentinels,
/// with the whitespace marker in the first field.
pub open spec fn spec_gap_details(schema: PosSchema) -> Seq<Seq<char>> {
    Seq::new(
        spec_schema_width(schema) as nat,
        |j: int|
            if j == 0 {
                spec_whitespace_marker()
            } else {
                seq!['*']
            },
    )
}

/// The annotation synthesized for a range of the input that no token
/// covers: the gap text itself, with no ruby.
pub open spec fn spec_gap_token(schema: PosSchema, text: Seq<char>) -> TokenModel {
    TokenModel {
        surface: text,
        details: spec_gap_details(schema),
        ruby_segments: seq![spec_plain(text)],
    }
}

/// What holds of every emitted annotation: its segment texts concatenate
/// to its surface; a surface without kanji carries a single unannotated
/// segment; and a non-empty surface has no empty segment text.
pub open spec fn spec_annotation_wf(m: TokenModel) -> bool {
    &&& spec_concat_texts(m.ruby_segments) == m.surface
    &&& (!spec_contains_kanji(m.surface) ==> m.ruby_segments == seq![spec_plain(m.surface)])
    &&& (m.surface.len() > 0 ==> spec_all_texts_nonempty(m.ruby_segments))
}

/// The annotations still to be emitted from one state of the document
/// scan: token index `ti` and the position `cursor` up to which the text
/// is already covered. A gap before the next token, or after the last one,
/// becomes its own annotation.
pub open spec fn spec_doc_rest(
    schema: PosSchema,
    text: Seq<char>,
    toks: Seq<RawTokenModel>,
    ti: int,
    cursor: int,
) -> Seq<TokenModel>
    decreases toks.len() - ti,
{
    if ti >= toks.len() {
        if cursor < text.len() {
            seq![spec_gap_token(schema, text.subrange(cursor, text.len() as int))]
        } else {
            Seq::empty()
        }
    } else {
        let t = toks[ti];
        let gap = if t.start > cursor {
            seq![spec_gap_token(schema, text.subrange(cursor, t.start))]
        } else {
            Seq::<TokenModel>::empty()
        };
        gap + seq![spec_token_model(schema, text.subrange(t.start, t.end), t.details)]
            + spec_doc_rest(schema, text, toks, ti + 1, t.end)
    }
}

/// The full annotation of a document: tokens and gaps, in input order.
pub open spec fn spec_annotations(
    schema: PosSchema,
    text: Seq<char>,
    toks: Seq<RawTokenModel>,
) -> Seq<TokenModel> {
    spec_doc_rest(schema, text, toks, 0, 0)
}

/// The concatenation of the `surface` fields of a list of annotations.
pub open spec fn spec_concat_surfaces(anns: Seq<TokenModel>) -> Seq<char>
    decreases anns.len(),
{
    if anns.len() == 0 {
        Seq::empty()
    } else {
        anns[0].surface + spec_concat_surfaces(anns.drop_first())
    }
}

/// Concatenating surfaces distributes over list concatenation.
pub proof fn lemma_concat_surfaces_app(a: Seq<TokenModel>, b: Seq<TokenModel>)
    ensures
        spec_concat_surfaces(a + b) == spec_concat_surfaces(a) + spec_concat_surfaces(b),
    decreases a.len(),
{
    if a.len() == 0 {
        assert(a + b =~= b);
        assert(spec_concat_surfaces(a) + spec_concat_surfaces(b) =~= spec_concat_surfaces(b));
    } else {
        assert((a + b).drop_first() =~= a.drop_first() + b);
        lemma_concat_surfaces_app(a.drop_first(), b);
        assert((a + b)[0] == a[0]);
        assert(spec_concat_surfaces(a + b) == a[0].surface + (spec_concat_surfaces(a.drop_first())
            + spec_concat_surfaces(b)));
        assert(a[0].surface + (spec_concat_surfaces(a.drop_first()) + spec_concat_surfaces(b)) =~= (
        a[0].surface + spec_concat_surfaces(a.drop_first())) + spec_concat_surfaces(b));
    }
}

/// The surface of a singleton list is its one annotation's surface.
pub proof fn lemma_concat_surfaces_one(m: TokenModel)
    ensures
        spec_concat_surfaces(seq![m]) == m.surface,
{
    assert(seq![m].drop_first() =~= Seq::<TokenModel>::empty());
    assert(spec_concat_surfaces(Seq::<TokenModel>::empty()) == Seq::<char>::empty());
    assert(m.surface + Seq::<char>::empty() =~= m.surface);
}

/// Kana-only suppression: a surface without kanji gets a single
/// unannotated segment, whatever the metadata supplies.
pub proof fn lemma_kana_only_suppression(
    schema: PosSchema,
    surface: Seq<char>,
    details: Seq<Seq<char>>,
)
    requires
        !spec_contains_kanji(surface),
    ensures
        spec_token_segments(schema, surface, details) == seq![spec_plain(surface)],
{
}

/// Segment coverage: the texts of any token's segments concatenate to its
/// surface exactly.
pub proof fn lemma_token_segment_coverage(
    schema: PosSchema,
    surface: Seq<char>,
    details: Seq<Seq<char>>,
)
    ensures
        spec_concat_texts(spec_token_segments(schema, surface, details)) == surface,
{
    if spec_contains_kanji(surface) {
        lemma_segment_coverage(surface, spec_selected_reading(schema, surface, details));
    } else {
        lemma_concat_texts_one(spec_plain(surface));
    }
}

/// From any scan state, the surfaces of the remaining annotations
/// concatenate to the part of the text not yet covered.
pub proof fn lemma_doc_rest_coverage(
    schema: PosSchema,
    text: Seq<char>,
    toks: Seq<RawTokenModel>,
    ti: int,
    cursor: int,
)
    requires
        spec_tokens_wf(text, toks),
        0 <= ti <= toks.len(),
        0 <= cursor <= text.len(),
        ti < toks.len() ==> cursor <= toks[ti].start,
    ensures
        spec_concat_surfaces(spec_doc_rest(schema, text, toks, ti, cursor)) == text.subrange(
            cursor,
            text.len() as int,
        ),
    decreases toks.len() - ti,
{
    if ti >= toks.len() {
        if cursor < text.len() {
            lemma_concat_surfaces_one(spec_gap_token(schema, text.subrange(cursor, text.len() as int)));
        } else {
            assert(text.subrange(cursor, text.len() as int) =~= Seq::<char>::empty());
        }
    } else {
        let t = toks[ti];
        let gap = if t.start > cursor {
            seq![spec_gap_token(schema, text.subrange(cursor, t.start))]
        } else {
            Seq::<TokenModel>::empty()
        };
        let tok = seq![spec_token_model(schema, text.subrange(t.start, t.end), t.details)];
        let rest = spec_doc_rest(schema, text, toks, ti + 1, t.end);
        lemma_doc_rest_coverage(schema, text, toks, ti + 1, t.end);
        lemma_concat_surfaces_app(gap + tok, rest);
        lemma_concat_surfaces_app(gap, tok);
        lemma_concat_surfaces_one(spec_token_model(schema, text.subrange(t.start, t.end), t.details));
        if t.start > cursor {
            lemma_concat_surfaces_one(spec_gap_token(schema, text.subrange(cursor, t.start)));
        }
        assert(spec_concat_surfaces(gap) =~= text.subrange(cursor, t.start));
        assert(text.subrange(cursor, t.start) + text.subrange(t.start, t.end) + text.subrange(
            t.end,
            text.len() as int,
        ) =~= text.subrange(cursor, text.len() as int));
    }
}

/// Coverage: the surfaces of the annotations of any document concatenate
/// to the input text exactly, gaps included.
pub proof fn lemma_document_coverage(schema: PosSchema, text: Seq<char>, toks: Seq<RawTokenModel>)
    requires
        spec_tokens_wf(text, toks),
    ensures
        spec_concat_surfaces(spec_annotations(schema, text, toks)) == text,
{
    lemma_doc_rest_coverage(schema, text, toks, 0, 0);
    assert(text.subrange(0, text.len() as int) =~= text);
}

/// The whitespace marker as an executable value.
fn whitespace_marker() -> (v: Vec<char>)
    ensures
        v@ == spec_whitespace_marker(),
{
    let mut v: Vec<char> = Vec::new();
    v.push('W');
    v.push('h');
    v.push('i');
    v.push('t');
    v.push('e');
    v.push('s');
    v.push('p');
    v.push('a');
    v.push('c');
    v.push('e');
    proof {
        assert(v@ =~= spec_whitespace_marker());
    }
    v
}

/// The metadata field list of a gap annotation.
fn gap_details(schema: PosSchema) -> (d: Vec<Vec<char>>)
    ensures
        fields_model(d@) == spec_gap_details(schema),
{
    let width = schema_width(schema);
    let mut d: Vec<Vec<char>> = Vec::new();
    d.push(whitespace_marker());
    proof {
        assert(fields_model(d@) =~~= spec_gap_details(schema).subrange(0, 1));
    }
    let mut j: usize = 1;
    while j < width
        invariant
            1 <= j <= width,
            width as int == spec_schema_width(schema),
            fields_model(d@) == spec_gap_details(schema).subrange(0, j as int),
        decreases width - j,
    {
        let ghost d_before = d@;
        d.push(sentinel_field());
        proof {
            assert(spec_gap_details(schema).len() == spec_schema_width(schema) as nat);
            assert(spec_gap_details(schema).subrange(0, j as int).len() == j as int);
            assert(fields_model(d_before).len() == d_before.len());
            assert(d_before.len() == j as int);
            assert(d@[j as int]@ == seq!['*']);
            assert forall|k: int|
                0 <= k < j as int + 1 implies #[trigger] fields_model(d@)[k] == spec_gap_details(
                schema,
            ).subrange(0, j as int + 1)[k] by {
                assert(fields_model(d@)[k] == d@[k]@);
                if k < j as int {
                    assert(d@[k] == d_before[k]);
                    assert(fields_model(d_before)[k] == d_before[k]@);
                    assert(fields_model(d_before)[k] == spec_gap_details(schema).subrange(
                        0,
                        j as int,
                    )[k]);
                }
            }
            assert(fields_model(d@) =~~= spec_gap_details(schema).subrange(0, j as int + 1));
        }
        j += 1;
    }
    proof {
        assert(spec_gap_details(schema).subrange(0, spec_schema_width(schema)) =~= spec_gap_details(
            schema,
        ));
    }
    d
}

/// A fresh copy of a metadata field list.
fn copy_fields(src: &Vec<Vec<char>>) -> (r: Vec<Vec<char>>)
    ensures
        fields_model(r@) == fields_model(src@),
{
    let mut r: Vec<Vec<char>> = Vec::new();
    proof {
        assert(fields_model(r@) =~~= fields_model(src@).subrange(0, 0));
    }
    let mut j: usize = 0;
    while j < src.len()
        invariant
            j <= src@.len(),
            fields_model(r@) == fields_model(src@).subrange(0, j as int),
        decreases src@.len() - j,
    {
        let ghost r_before = r@;
        r.push(copy_chars(&src[j]));
        proof {
            assert(fields_model(src@).len() == src@.len());
            assert(fields_model(r_before).len() == r_before.len());
            assert(r_before.len() == j as int);
            assert(r@[j as int]@ == src@[j as int]@);
            assert forall|k: int|
                0 <= k < j as int + 1 implies #[trigger] fields_model(r@)[k] == fields_model(
                src@,
            ).subrange(0, j as int + 1)[k] by {
                assert(fields_model(r@)[k] == r@[k]@);
                if k < j as int {
                    assert(r@[k] == r_before[k]);
                    assert(fields_model(r_before)[k] == r_before[k]@);
                    assert(fields_model(r_before)[k] == fields_model(src@).subrange(
                        0,
                        j as int,
                    )[k]);
                } else {
                    assert(fields_model(src@)[k] == src@[k]@);
                }
            }
            assert(fields_model(r@) =~~= fields_model(src@).subrange(0, j as int + 1));
        }
        j += 1;
    }
    proof {
        assert(fields_model(src@).subrange(0, src@.len() as int) =~= fields_model(src@));
    }
    r
}

/// The synthesized annotation for the uncovered range `a..b` of the text.
fn gap_token(schema: PosSchema, text: &Vec<char>, a: usize, b: usize) -> (t: TokenInfo)
    requires
        a <= b <= text@.len(),
    ensures
        t@ == spec_gap_token(schema, text@.subrange(a as int, b as int)),
        spec_annotation_wf(t@),
{
    let surface = copy_range(text, a, b);
    let seg_text = copy_range(text, a, b);
    let mut ruby_segments: Vec<RubySegment> = Vec::new();
    ruby_segments.push(RubySegment { text: seg_text, ruby: Vec::new() });
    proof {
        let gtext = text@.subrange(a as int, b as int);
        assert(seg_models(ruby_segments@) =~= seq![spec_plain(gtext)]);
        lemma_concat_texts_one(spec_plain(gtext));
        if gtext.len() > 0 {
            assert forall|k: int| 0 <= k < seq![spec_plain(gtext)].len() implies (#[trigger] seq![
                spec_plain(gtext),
            ][k]).text.len() > 0 by {
                assert(seq![spec_plain(gtext)][k] == spec_plain(gtext));
            }
        }
    }
    TokenInfo { surface, details: gap_details(schema), ruby_segments }
}

/// Builds the annotation of one token: metadata passed through, and ruby
/// segments as `spec_token_segments` states them.
pub fn annotate_token(schema: PosSchema, surface: &Vec<char>, details: Vec<Vec<char>>) -> (t:
    TokenInfo)
    ensures
        t@ == spec_token_model(schema, surface@, fields_model(details@)),
        spec_annotation_wf(t@),
{
    let ruby_segments: Vec<RubySegment> = if !contains_kanji(surface) {
        let mut v: Vec<RubySegment> = Vec::new();
        v.push(RubySegment { text: copy_chars(surface), ruby: Vec::new() });
        proof {
            assert(seg_models(v@) =~= seq![spec_plain(surface@)]);
            lemma_concat_texts_one(spec_plain(surface@));
            if surface@.len() > 0 {
                assert forall|k: int| 0 <= k < seq![spec_plain(surface@)].len() implies (
                #[trigger] seq![spec_plain(surface@)][k]).text.len() > 0 by {
                    assert(seq![spec_plain(surface@)][k] == spec_plain(surface@));
                }
            }
        }
        v
    } else {
        let reading = select_reading(schema, surface, &details);
        build_ruby_segments(surface, &reading)
    };
    TokenInfo { surface: copy_chars(surface), details, ruby_segments }
}

/// Annotates a whole document: each token in order, with gap annotations
/// synthesized for the ranges of the text that no token covers. The
/// surfaces of the result concatenate to the text exactly, and every
/// annotation satisfies `spec_annotation_wf`.
pub fn annotate_document(schema: PosSchema, text: &Vec<char>, tokens: &Vec<RawToken>) -> (out: Vec<
    TokenInfo,
>)
    requires
        spec_tokens_wf(text@, raw_models(tokens@)),
    ensures
        token_models(out@) == spec_annotations(schema, text@, raw_models(tokens@)),
        spec_concat_surfaces(token_models(out@)) == text@,
        forall|k: int|
            0 <= k < token_models(out@).len() ==> spec_annotation_wf(
                #[trigger] token_models(out@)[k],
            ),
{
    let ghost toks = raw_models(tokens@);
    let ghost target = spec_annotations(schema, text@, toks);
    let mut out: Vec<TokenInfo> = Vec::new();
    let mut cursor: usize = 0;
    let mut ti: usize = 0;
    proof {
        assert(token_models(out@) =~= Seq::<TokenModel>::empty());
        assert(Seq::<TokenModel>::empty() + target =~= target);
    }
    while ti < tokens.len()
        invariant
            toks == raw_models(tokens@),
            target == spec_annotations(schema, text@, toks),
            spec_tokens_wf(text@, toks),
            ti <= tokens@.len(),
            cursor <= text@.len(),
            ti < toks.len() ==> cursor <= toks[ti as int].start,
            target == token_models(out@) + spec_doc_rest(
                schema,
                text@,
                toks,
                ti as int,
                cursor as int,
            ),
            forall|k: int|
                0 <= k < token_models(out@).len() ==> spec_annotation_wf(
                    #[trigger] token_models(out@)[k],
                ),
        decreases tokens@.len() - ti,
    {
        proof {
            assert(toks[ti as int] == tokens@[ti as int]@);
            assert(toks[ti as int].start <= toks[ti as int].end <= text@.len());
        }
        let t_start = tokens[ti].start;
        let t_end = tokens[ti].end;
        let ghost models_before = token_models(out@);
        let ghost cursor_before = cursor as int;
        let ghost gap_seq = if toks[ti as int].start > cursor_before {
            seq![spec_gap_token(schema, text@.subrange(cursor_before, toks[ti as int].start))]
        } else {
            Seq::<TokenModel>::empty()
        };
        let ghost tok_seq = seq![
            spec_token_model(
                schema,
                text@.subrange(toks[ti as int].start, toks[ti as int].end),
                toks[ti as int].details,
            ),
        ];
        let ghost rest = spec_doc_rest(schema, text@, toks, ti as int + 1, toks[ti as int].end);
        proof {
            assert(spec_doc_rest(schema, text@, toks, ti as int, cursor_before) == gap_seq + tok_seq
                + rest);
        }
        if t_start > cursor {
            let gap = gap_token(schema, text, cursor, t_start);
            out.push(gap);
            proof {
                assert(token_models(out@) =~= models_before + gap_seq);
            }
        } else {
            proof {
                assert(models_before + gap_seq =~= models_before);
            }
        }
        let ghost models_mid = token_models(out@);
        let surface = copy_range(text, t_start, t_end);
        let details_copy = copy_fields(&tokens[ti].details);
        let tok = annotate_token(schema, &surface, details_copy);
        out.push(tok);
        proof {
            assert(token_models(out@) =~= models_mid + tok_seq);
            assert(token_models(out@) =~= models_before + gap_seq + tok_seq);
            assert(models_before + (gap_seq + tok_seq + rest) =~= (models_before + gap_seq
                + tok_seq) + rest);
            assert(target == token_models(out@) + rest);
        }
        cursor = t_end;
        ti += 1;
    }
    let ghost models_end = token_models(out@);
    let ghost cursor_end = cursor as int;
    if cursor < text.len() {
        let gap = gap_token(schema, text, cursor, text.len());
        out.push(gap);
        proof {
            assert(spec_doc_rest(schema, text@, toks, toks.len() as int, cursor_end) == seq![
                spec_gap_token(schema, text@.subrange(cursor_end, text@.len() as int)),
            ]);
            assert(token_models(out@) =~= models_end + spec_doc_rest(
                schema,
                text@,
                toks,
                toks.len() as int,
                cursor_end,
            ));
        }
    } else {
        proof {
            assert(spec_doc_rest(schema, text@, toks, toks.len() as int, cursor_end) =~= Seq::<
                TokenModel,
            >::empty());
            assert(models_end + Seq::<TokenModel>::empty() =~= models_end);
        }
    }
    proof {
        lemma_document_coverage(schema, text@, toks);
    }
    out
}

} // verus!
