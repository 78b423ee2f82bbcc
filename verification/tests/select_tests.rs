use furigana::select::select_reading;
use furigana::select::PosSchema;

fn cv(s: &str) -> Vec<char> {
    s.chars().collect()
}

fn vs(v: &Vec<char>) -> String {
    v.iter().collect()
}

fn fields(v: Vec<&str>) -> Vec<Vec<char>> {
    v.into_iter().map(|s| s.chars().collect()).collect()
}

fn simple9(reading: &str) -> Vec<Vec<char>> {
    fields(vec!["動詞", "自立", "*", "*", "一段", "連用形", "食べる", reading, "タベタ"])
}

fn rich17(conj_type: &str, lemma_reading: &str, phonological: &str) -> Vec<Vec<char>> {
    let mut d: Vec<&str> = vec!["*"; 17];
    d[0] = "動詞";
    d[4] = conj_type;
    d[6] = lemma_reading;
    d[9] = phonological;
    fields(d)
}

#[test]
fn simple_schema_takes_the_reading_field() {
    let r = select_reading(PosSchema::Simple, &cv("食べた"), &simple9("タベタ"));
    assert_eq!(vs(&r), "タベタ");
}

#[test]
fn simple_schema_short_list_gives_sentinel() {
    let r = select_reading(PosSchema::Simple, &cv("ん"), &fields(vec!["記号", "一般"]));
    assert_eq!(vs(&r), "*");
}

#[test]
fn rich_schema_uninflected_prefers_lemma_reading() {
    let d = rich17("*", "トウキョウ", "トーキョー");
    let r = select_reading(PosSchema::Rich, &cv("東京"), &d);
    assert_eq!(vs(&r), "トウキョウ");
}

#[test]
fn rich_schema_inflected_repairs_phonological_surface() {
    let d = rich17("五段-カ行", "イク", "イコー");
    let r = select_reading(PosSchema::Rich, &cv("行こう"), &d);
    assert_eq!(vs(&r), "イコウ");
}

#[test]
fn rich_schema_inflected_falls_back_to_lemma_reading() {
    let d = rich17("五段-カ行", "イク", "*");
    let r = select_reading(PosSchema::Rich, &cv("行こう"), &d);
    assert_eq!(vs(&r), "イク");
}

#[test]
fn rich_schema_all_sentinels_gives_sentinel() {
    let d = fields(vec!["*"; 17]);
    let r = select_reading(PosSchema::Rich, &cv("食べた"), &d);
    assert_eq!(vs(&r), "*");
}

#[test]
fn rich_schema_short_list_gives_sentinel() {
    let d = fields(vec!["名詞", "普通名詞"]);
    let r = select_reading(PosSchema::Rich, &cv("謎"), &d);
    assert_eq!(vs(&r), "*");
}
