use furigana::annotate::annotate_document;
use furigana::annotate::annotate_token;
use furigana::annotate::RawToken;
use furigana::annotate::TokenInfo;
use furigana::select::PosSchema;

fn cv(s: &str) -> Vec<char> {
    s.chars().collect()
}

fn vs(v: &Vec<char>) -> String {
    v.iter().collect()
}

fn seg_pairs(t: &TokenInfo) -> Vec<(String, String)> {
    t.ruby_segments.iter().map(|s| (vs(&s.text), vs(&s.ruby))).collect()
}

fn fields(v: Vec<&str>) -> Vec<Vec<char>> {
    v.into_iter().map(|s| s.chars().collect()).collect()
}

fn rich17(conj_type: &str, lemma_reading: &str, phonological: &str) -> Vec<Vec<char>> {
    let mut d: Vec<&str> = vec!["*"; 17];
    d[0] = "動詞";
    d[4] = conj_type;
    d[6] = lemma_reading;
    d[9] = phonological;
    fields(d)
}

#[test]
fn kana_only_token_is_never_annotated() {
    let t = annotate_token(PosSchema::Rich, &cv("して"), rich17("サ行変格", "スル", "シテ"));
    assert_eq!(seg_pairs(&t), vec![("して".to_string(), "".to_string())]);
}

#[test]
fn kana_only_suppression_holds_under_simple_schema() {
    let d = fields(vec!["助詞", "*", "*", "*", "*", "*", "は", "ワ", "ワ"]);
    let t = annotate_token(PosSchema::Simple, &cv("は"), d);
    assert_eq!(seg_pairs(&t), vec![("は".to_string(), "".to_string())]);
}

#[test]
fn inflected_token_gets_repaired_reading() {
    let t = annotate_token(PosSchema::Rich, &cv("行こう"), rich17("五段-カ行", "イク", "イコー"));
    assert_eq!(
        seg_pairs(&t),
        vec![
            ("行".to_string(), "イ".to_string()),
            ("こ".to_string(), "".to_string()),
            ("う".to_string(), "".to_string()),
        ]
    );
}

#[test]
fn token_metadata_is_passed_through() {
    let d = rich17("*", "トウキョウ", "*");
    let t = annotate_token(PosSchema::Rich, &cv("東京"), d.clone());
    assert_eq!(t.details, d);
    assert_eq!(vs(&t.surface), "東京");
    assert_eq!(seg_pairs(&t), vec![("東京".to_string(), "トウキョウ".to_string())]);
}

#[test]
fn gaps_are_synthesized_with_whitespace_marker() {
    let text = cv("食べた ね");
    let tokens = vec![
        RawToken { start: 0, end: 3, details: rich17("下一段", "タベル", "タベタ") },
        RawToken { start: 4, end: 5, details: rich17("*", "ネ", "ネ") },
    ];
    let anns = annotate_document(PosSchema::Rich, &text, &tokens);
    assert_eq!(anns.len(), 3);
    assert_eq!(vs(&anns[0].surface), "食べた");
    assert_eq!(vs(&anns[1].surface), " ");
    assert_eq!(anns[1].details.len(), 17);
    assert_eq!(vs(&anns[1].details[0]), "Whitespace");
    for f in &anns[1].details[1..] {
        assert_eq!(vs(f), "*");
    }
    assert_eq!(seg_pairs(&anns[1]), vec![(" ".to_string(), "".to_string())]);
    assert_eq!(vs(&anns[2].surface), "ね");
}

#[test]
fn surfaces_concatenate_to_input() {
    let text = cv("「食べた」と言う。");
    let tokens = vec![
        RawToken { start: 1, end: 4, details: rich17("下一段", "タベル", "タベタ") },
        RawToken { start: 5, end: 6, details: rich17("*", "ト", "ト") },
        RawToken { start: 6, end: 8, details: rich17("五段-ワア行", "イウ", "イウ") },
    ];
    let anns = annotate_document(PosSchema::Rich, &text, &tokens);
    let mut cat = String::new();
    for a in &anns {
        cat.push_str(&vs(&a.surface));
    }
    assert_eq!(cat, "「食べた」と言う。");
}

#[test]
fn no_tokens_yields_single_gap() {
    let text = cv("  ");
    let anns = annotate_document(PosSchema::Simple, &text, &vec![]);
    assert_eq!(anns.len(), 1);
    assert_eq!(vs(&anns[0].surface), "  ");
    assert_eq!(anns[0].details.len(), 9);
    assert_eq!(vs(&anns[0].details[0]), "Whitespace");
    assert_eq!(seg_pairs(&anns[0]), vec![("  ".to_string(), "".to_string())]);
}

#[test]
fn empty_text_yields_nothing() {
    let anns = annotate_document(PosSchema::Rich, &cv(""), &vec![]);
    assert_eq!(anns.len(), 0);
}

#[test]
fn analysis_is_deterministic() {
    let text = cv("食べた");
    let mk = || vec![RawToken { start: 0, end: 3, details: rich17("下一段", "タベル", "タベタ") }];
    let a = annotate_document(PosSchema::Rich, &text, &mk());
    let b = annotate_document(PosSchema::Rich, &text, &mk());
    assert_eq!(a, b);
}
