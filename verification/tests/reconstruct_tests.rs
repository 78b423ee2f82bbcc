use furigana::reconstruct::reconstruct_orthography;

fn cv(s: &str) -> Vec<char> {
    s.chars().collect()
}

fn vs(v: &Vec<char>) -> String {
    v.iter().collect()
}

#[test]
fn long_vowel_is_rewritten_from_surface() {
    let r = reconstruct_orthography(&cv("行こう"), &cv("イコー"));
    assert_eq!(vs(&r), "イコウ");
}

#[test]
fn scan_stops_at_kanji() {
    let r = reconstruct_orthography(&cv("食べ"), &cv("タベ"));
    assert_eq!(vs(&r), "タベ");
}

#[test]
fn matching_tail_is_preserved() {
    let r = reconstruct_orthography(&cv("みかん"), &cv("ミカン"));
    assert_eq!(vs(&r), "ミカン");
}

#[test]
fn mismatch_stops_immediately() {
    let r = reconstruct_orthography(&cv("たべる"), &cv("タベタ"));
    assert_eq!(vs(&r), "タベタ");
}

#[test]
fn long_vowel_matches_trailing_hiragana_vowel() {
    let r = reconstruct_orthography(&cv("ねえ"), &cv("ネー"));
    assert_eq!(vs(&r), "ネエ");
}

#[test]
fn empty_surface_keeps_whole_phonetic() {
    let r = reconstruct_orthography(&cv(""), &cv("アイ"));
    assert_eq!(vs(&r), "アイ");
}

#[test]
fn empty_phonetic_yields_empty() {
    let r = reconstruct_orthography(&cv("あい"), &cv(""));
    assert_eq!(vs(&r), "");
}
