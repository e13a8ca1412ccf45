use sudachi::matcher::search_key;
use sudachi::taxonomy::read_id_def;

#[test]
fn general_noun_rename_marks_default_id() {
    let records = vec![(1843, "名詞,一般,*,*,*,*,*".to_string())];
    let (index, default_id) = read_id_def(&records);
    assert_eq!(default_id, 1843);
    assert_eq!(search_key(&index, 1843), "名詞,普通名詞,*,*,*,*,*");
}

#[test]
fn common_noun_pattern_marks_default_id() {
    let records = vec![
        (5, "動詞,自立,*,*,一段,*,*".to_string()),
        (100, "名詞,普通名詞,*,*,*,*,*".to_string()),
    ];
    let (_, default_id) = read_id_def(&records);
    assert_eq!(default_id, 100);
}

#[test]
fn missing_default_pattern_leaves_sentinel() {
    let records = vec![(5, "動詞,自立,*,*,一段,*,*".to_string())];
    let (_, default_id) = read_id_def(&records);
    assert_eq!(default_id, -1);
}

#[test]
fn numeral_rename_is_applied() {
    let records = vec![(12, "名詞,数,一般,*,*,*,*".to_string())];
    let (index, _) = read_id_def(&records);
    assert_eq!(search_key(&index, 12), "名詞,数詞,一般,*,*,*,*");
}

#[test]
fn place_rename_is_applied() {
    let records = vec![(13, "名詞,接尾,地域,一般,*,*,*".to_string())];
    let (index, _) = read_id_def(&records);
    assert_eq!(search_key(&index, 13), "名詞,接尾,地名,一般,*,*,*");
}

#[test]
fn five_grade_ka_row_variants_collapse() {
    let records = vec![(11, "動詞,自立,*,*,五段・カ行促音便,基本形".to_string())];
    let (index, _) = read_id_def(&records);
    assert_eq!(search_key(&index, 11), "動詞,自立,*,*,五段・カ行,基本形");
}

#[test]
fn sa_row_conjugation_splits_into_tag_and_remainder() {
    let records = vec![(10, "動詞,自立,*,*,サ変・スル,基本形".to_string())];
    let (index, _) = read_id_def(&records);
    assert_eq!(search_key(&index, 10), "動詞,自立,*,*,サ変,・スル,基本形");
}

#[test]
fn sa_row_tag_alone_stays_unchanged() {
    let records = vec![(9, "動詞,自立,*,*,サ変,基本形".to_string())];
    let (index, _) = read_id_def(&records);
    assert_eq!(search_key(&index, 9), "動詞,自立,*,*,サ変,基本形");
}

#[test]
fn repeated_expression_takes_last_id() {
    let records = vec![
        (1, "名詞,普通名詞,*,*,*,*,*".to_string()),
        (2, "名詞,普通名詞,*,*,*,*,*".to_string()),
    ];
    let (index, default_id) = read_id_def(&records);
    assert_eq!(default_id, 2);
    assert_eq!(search_key(&index, 2), "名詞,普通名詞,*,*,*,*,*");
    assert_eq!(search_key(&index, 1), "");
}
