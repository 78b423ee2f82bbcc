use furigana::script::contains_kanji;
use furigana::script::hira_to_kata;
use furigana::script::is_hiragana;
use furigana::script::is_kanji;

fn cv(s: &str) -> Vec<char> {
    s.chars().collect()
}

#[test]
fn hiragana_block_bounds() {
    assert!(is_hiragana('\u{3040}'));
    assert!(is_hiragana('あ'));
    assert!(is_hiragana('ん'));
    assert!(is_hiragana('\u{309F}'));
    assert!(!is_hiragana('\u{303F}'));
    assert!(!is_hiragana('\u{30A0}'));
    assert!(!is_hiragana('ア'));
    assert!(!is_hiragana('a'));
}

#[test]
fn kanji_ranges() {
    assert!(is_kanji('食'));
    assert!(is_kanji('\u{4E00}'));
    assert!(is_kanji('\u{9FFF}'));
    assert!(is_kanji('\u{3400}'));
    assert!(is_kanji('\u{4DBF}'));
    assert!(is_kanji('\u{20000}'));
    assert!(is_kanji('\u{2A6DF}'));
    assert!(!is_kanji('あ'));
    assert!(!is_kanji('ー'));
    assert!(!is_kanji('\u{33FF}'));
    assert!(!is_kanji('\u{A000}'));
    assert!(!is_kanji('K'));
}

#[test]
fn katakana_shift_maps_letter_range() {
    assert_eq!(hira_to_kata('あ'), 'ア');
    assert_eq!(hira_to_kata('べ'), 'ベ');
    assert_eq!(hira_to_kata('ん'), 'ン');
    assert_eq!(hira_to_kata('\u{3041}'), '\u{30A1}');
    assert_eq!(hira_to_kata('\u{3096}'), '\u{30F6}');
}

#[test]
fn katakana_shift_leaves_other_codepoints() {
    assert_eq!(hira_to_kata('\u{3040}'), '\u{3040}');
    assert_eq!(hira_to_kata('\u{309D}'), '\u{309D}');
    assert_eq!(hira_to_kata('ー'), 'ー');
    assert_eq!(hira_to_kata('ア'), 'ア');
    assert_eq!(hira_to_kata('x'), 'x');
    assert_eq!(hira_to_kata('食'), '食');
}

#[test]
fn contains_kanji_finds_any_position() {
    assert!(contains_kanji(&cv("食べた")));
    assert!(contains_kanji(&cv("abc漢")));
    assert!(!contains_kanji(&cv("たべた")));
    assert!(!contains_kanji(&cv("カタカナ")));
    assert!(!contains_kanji(&cv("")));
}
