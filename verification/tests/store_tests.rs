use sudachi::store::{DictionaryData, DictionaryEntry, DictionaryKey};

fn entry(yomi: &str, surface: &str, id: i32, cost: i32, pos: &str) -> DictionaryEntry {
    DictionaryEntry {
        key: DictionaryKey { yomi: yomi.to_string(), surface: surface.to_string(), hinshi_id: id },
        cost,
        pos: pos.to_string(),
    }
}

#[test]
fn system_row_has_five_fields() {
    let mut d = DictionaryData::new();
    d.add(entry("よみ", "表層", 100, 6100, ""), false);
    let rows = d.output(false);
    assert_eq!(rows, vec!["よみ\t100\t100\t6100\t表層".to_string()]);
}

#[test]
fn user_row_has_trailing_empty_field() {
    let mut d = DictionaryData::new();
    d.add(entry("よみ", "表層", 100, 6100, "名詞"), true);
    let rows = d.output(true);
    assert_eq!(rows, vec!["よみ\t表層\t名詞\t".to_string()]);
}

#[test]
fn dedup_by_key_keeps_second_entry() {
    let mut d = DictionaryData::new();
    d.add(entry("よみ", "表層", 100, 6100, ""), false);
    d.add(entry("よみ", "表層", 100, 7000, ""), false);
    let rows = d.output(false);
    assert_eq!(rows, vec!["よみ\t100\t100\t7000\t表層".to_string()]);
}

#[test]
fn different_keys_are_kept_apart() {
    let mut d = DictionaryData::new();
    d.add(entry("よみ", "表層", 100, 6100, ""), false);
    d.add(entry("よみ", "表層", 101, 6200, ""), false);
    let rows = d.output(false);
    assert_eq!(rows.len(), 2);
}

#[test]
fn user_entry_under_system_key_is_suppressed() {
    let mut d = DictionaryData::new();
    d.add(entry("よみ", "表層", 100, 6100, ""), false);
    d.add(entry("よみ", "表層", 100, 6100, "名詞"), true);
    d.add(entry("べつ", "別", 100, 6100, "名詞"), true);
    let user_rows = d.output(true);
    assert_eq!(user_rows, vec!["べつ\t別\t名詞\t".to_string()]);
    let system_rows = d.output(false);
    assert_eq!(system_rows, vec!["よみ\t100\t100\t6100\t表層".to_string()]);
}

#[test]
fn negative_id_renders_with_sign() {
    let mut d = DictionaryData::new();
    d.add(entry("よみ", "表層", -1, 8000, ""), false);
    let rows = d.output(false);
    assert_eq!(rows, vec!["よみ\t-1\t-1\t8000\t表層".to_string()]);
}
