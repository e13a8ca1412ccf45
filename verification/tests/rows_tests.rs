use sudachi::matcher::TaxonomyIndex;
use sudachi::rows::{neologd_convert_rows, sudachi_convert_rows, utdict_convert_rows};
use sudachi::store::DictionaryData;
use sudachi::taxonomy::read_id_def;

fn noun_index() -> (TaxonomyIndex, i32) {
    let records = vec![(100, "名詞,普通名詞,*,*,*,*,*".to_string())];
    read_id_def(&records)
}

fn row(fields: &[&str]) -> Vec<String> {
    fields.iter().map(|f| f.to_string()).collect()
}

#[test]
fn sudachi_row_converts_to_system_entry() {
    let (index, default_id) = noun_index();
    let mut dict = DictionaryData::new();
    let rows = vec![row(&[
        "test", "x", "x", "1000", "テスト", "名詞", "普通名詞", "*", "*", "*", "*", "テスト",
    ])];
    sudachi_convert_rows(&rows, &index, &mut dict, default_id, false, false, false);
    assert_eq!(dict.output(false), vec!["てすと\t100\t100\t6100\tテスト".to_string()]);
}

#[test]
fn sudachi_row_converts_to_user_entry_with_label() {
    let (index, default_id) = noun_index();
    let mut dict = DictionaryData::new();
    let rows = vec![row(&[
        "test", "x", "x", "1000", "テスト", "名詞", "普通名詞", "*", "*", "*", "*", "テスト",
    ])];
    sudachi_convert_rows(&rows, &index, &mut dict, default_id, true, false, false);
    assert_eq!(dict.output(true), vec!["てすと\tテスト\t名詞\t".to_string()]);
}

#[test]
fn sudachi_row_with_bad_cost_is_skipped() {
    let (index, default_id) = noun_index();
    let mut dict = DictionaryData::new();
    let rows = vec![row(&[
        "test", "x", "x", "abc", "テスト", "名詞", "普通名詞", "*", "*", "*", "*", "テスト",
    ])];
    sudachi_convert_rows(&rows, &index, &mut dict, default_id, false, false, false);
    assert_eq!(dict.output(false).len(), 0);
}

#[test]
fn sudachi_row_with_non_kana_reading_is_skipped() {
    let (index, default_id) = noun_index();
    let mut dict = DictionaryData::new();
    let rows = vec![row(&[
        "test", "x", "x", "1000", "テスト", "名詞", "普通名詞", "*", "*", "*", "*", "test",
    ])];
    sudachi_convert_rows(&rows, &index, &mut dict, default_id, false, false, false);
    assert_eq!(dict.output(false).len(), 0);
}

#[test]
fn sudachi_place_name_needs_flag() {
    let (index, default_id) = noun_index();
    let rows = vec![row(&[
        "駅", "x", "x", "1000", "駅", "名詞", "普通名詞", "地名,一般", "*", "*", "*", "エキ",
    ])];
    let mut without = DictionaryData::new();
    sudachi_convert_rows(&rows, &index, &mut without, default_id, false, false, false);
    assert_eq!(without.output(false).len(), 0);
    let mut with = DictionaryData::new();
    sudachi_convert_rows(&rows, &index, &mut with, default_id, false, true, false);
    assert_eq!(with.output(false).len(), 1);
}

#[test]
fn sudachi_short_row_is_skipped() {
    let (index, default_id) = noun_index();
    let mut dict = DictionaryData::new();
    let rows = vec![row(&["a", "b", "c"])];
    sudachi_convert_rows(&rows, &index, &mut dict, default_id, false, false, false);
    assert_eq!(dict.output(false).len(), 0);
}

#[test]
fn utdict_row_carries_its_own_id() {
    let (index, _) = noun_index();
    let mut dict = DictionaryData::new();
    let rows = vec![row(&["かな", "100", "x", "500", "仮名"])];
    utdict_convert_rows(&rows, &index, &mut dict, false, false, false);
    assert_eq!(dict.output(false), vec!["かな\t100\t100\t6050\t仮名".to_string()]);
}

#[test]
fn utdict_row_without_kana_is_skipped() {
    let (index, _) = noun_index();
    let mut dict = DictionaryData::new();
    let rows = vec![row(&["abc", "100", "x", "500", "abc"])];
    utdict_convert_rows(&rows, &index, &mut dict, false, false, false);
    assert_eq!(dict.output(false).len(), 0);
}

#[test]
fn utdict_row_with_bad_id_is_skipped() {
    let (index, _) = noun_index();
    let mut dict = DictionaryData::new();
    let rows = vec![row(&["かな", "x", "x", "500", "仮名"])];
    utdict_convert_rows(&rows, &index, &mut dict, false, false, false);
    assert_eq!(dict.output(false).len(), 0);
}

#[test]
fn utdict_user_row_without_label_carries_numeric_id() {
    let (index, _) = noun_index();
    let mut dict = DictionaryData::new();
    // id 55 has no reference row, so no coarse label resolves and the id
    // itself stands in as the label
    let rows = vec![row(&["かな", "55", "x", "500", "仮名"])];
    utdict_convert_rows(&rows, &index, &mut dict, true, false, false);
    assert_eq!(dict.output(true), vec!["かな\t仮名\t55\t".to_string()]);
}

#[test]
fn neologd_row_renames_general_noun() {
    let (index, default_id) = noun_index();
    let mut dict = DictionaryData::new();
    let rows = vec![row(&[
        "表層", "x", "x", "2000", "名詞", "一般", "*", "*", "*", "*", "*", "ヒョウソウ",
    ])];
    neologd_convert_rows(&rows, &index, &mut dict, default_id, false, false, false);
    assert_eq!(dict.output(false), vec!["ひょうそう\t100\t100\t6200\t表層".to_string()]);
}

#[test]
fn neologd_blank_category_is_skipped() {
    let (index, default_id) = noun_index();
    let mut dict = DictionaryData::new();
    let rows = vec![row(&[
        "　", "x", "x", "2000", "空白", "*", "*", "*", "*", "*", "*", "クウハク",
    ])];
    neologd_convert_rows(&rows, &index, &mut dict, default_id, false, false, false);
    assert_eq!(dict.output(false).len(), 0);
}

#[test]
fn duplicate_rows_keep_the_last_cost() {
    let (index, default_id) = noun_index();
    let mut dict = DictionaryData::new();
    let rows = vec![
        row(&["t", "x", "x", "1000", "テスト", "名詞", "普通名詞", "*", "*", "*", "*", "テスト"]),
        row(&["t", "x", "x", "2000", "テスト", "名詞", "普通名詞", "*", "*", "*", "*", "テスト"]),
    ];
    sudachi_convert_rows(&rows, &index, &mut dict, default_id, false, false, false);
    assert_eq!(dict.output(false), vec!["てすと\t100\t100\t6200\tテスト".to_string()]);
}
