use furigana::segment::build_ruby_segments;
use furigana::segment::RubySegment;

fn cv(s: &str) -> Vec<char> {
    s.chars().collect()
}

fn vs(v: &Vec<char>) -> String {
    v.iter().collect()
}

fn pairs(segs: &Vec<RubySegment>) -> Vec<(String, String)> {
    segs.iter().map(|s| (vs(&s.text), vs(&s.ruby))).collect()
}

#[test]
fn identity_reading_yields_single_plain_segment() {
    let segs = build_ruby_segments(&cv("たべた"), &cv("たべた"));
    assert_eq!(pairs(&segs), vec![("たべた".to_string(), "".to_string())]);
}

#[test]
fn identity_reading_holds_for_kanji_surfaces_too() {
    let segs = build_ruby_segments(&cv("東京"), &cv("東京"));
    assert_eq!(pairs(&segs), vec![("東京".to_string(), "".to_string())]);
}

#[test]
fn sentinel_reading_yields_single_plain_segment() {
    let segs = build_ruby_segments(&cv("東京"), &cv("*"));
    assert_eq!(pairs(&segs), vec![("東京".to_string(), "".to_string())]);
}

#[test]
fn kana_anchors_split_kanji_runs() {
    let segs = build_ruby_segments(&cv("食べた"), &cv("タベタ"));
    assert_eq!(
        pairs(&segs),
        vec![
            ("食".to_string(), "タ".to_string()),
            ("べ".to_string(), "".to_string()),
            ("た".to_string(), "".to_string()),
        ]
    );
}

#[test]
fn middle_kanji_run_between_anchors() {
    let segs = build_ruby_segments(&cv("思い出す"), &cv("オモイダス"));
    assert_eq!(
        pairs(&segs),
        vec![
            ("思".to_string(), "オモ".to_string()),
            ("い".to_string(), "".to_string()),
            ("出".to_string(), "ダ".to_string()),
            ("す".to_string(), "".to_string()),
        ]
    );
}

#[test]
fn kanji_only_surface_takes_whole_reading() {
    let segs = build_ruby_segments(&cv("東京"), &cv("トウキョウ"));
    assert_eq!(pairs(&segs), vec![("東京".to_string(), "トウキョウ".to_string())]);
}

#[test]
fn short_reading_degrades_without_panic() {
    let segs = build_ruby_segments(&cv("た字"), &cv("タ"));
    assert_eq!(
        pairs(&segs),
        vec![("た".to_string(), "".to_string()), ("字".to_string(), "".to_string())]
    );
}

#[test]
fn empty_reading_still_covers_surface() {
    let segs = build_ruby_segments(&cv("字"), &cv(""));
    assert_eq!(pairs(&segs), vec![("字".to_string(), "".to_string())]);
}

#[test]
fn texts_concatenate_to_surface() {
    let surface = cv("お世話になった");
    let segs = build_ruby_segments(&surface, &cv("オセワニナッタ"));
    let mut cat = String::new();
    for s in &segs {
        cat.push_str(&vs(&s.text));
    }
    assert_eq!(cat, "お世話になった");
}
