use sudachi::coarse::{create_pos_mapping, get_user_pos_by_id, u_search_key};
use sudachi::matcher::TaxonomyIndex;

fn make_index(rows: &[(i32, &str)]) -> TaxonomyIndex {
    let mut ix = TaxonomyIndex::new();
    for (id, e) in rows {
        ix.insert(e.to_string(), *id);
    }
    ix
}

#[test]
fn symbol_category_resolves_to_symbol_label() {
    let ix = make_index(&[(5, "記号,一般,*,*,*,*,*")]);
    let mut mapping = create_pos_mapping();
    assert_eq!(get_user_pos_by_id(&mut mapping, &ix, 5), Some("記号".to_string()));
}

#[test]
fn auxiliary_symbol_category_resolves_to_symbol_label() {
    let ix = make_index(&[(6, "補助記号,句点,*,*,*,*,*")]);
    let mut mapping = create_pos_mapping();
    assert_eq!(get_user_pos_by_id(&mut mapping, &ix, 6), Some("記号".to_string()));
}

#[test]
fn common_noun_resolves_to_noun_label() {
    let ix = make_index(&[(7, "名詞,普通名詞,*,*,*,*,*")]);
    let mut mapping = create_pos_mapping();
    assert_eq!(get_user_pos_by_id(&mut mapping, &ix, 7), Some("名詞".to_string()));
}

#[test]
fn unknown_id_resolves_to_no_label() {
    let ix = make_index(&[(7, "名詞,普通名詞,*,*,*,*,*")]);
    let mut mapping = create_pos_mapping();
    assert_eq!(u_search_key(&mut mapping, &ix, 99), None);
}

#[test]
fn resolution_is_memoized() {
    let ix = make_index(&[(7, "名詞,普通名詞,*,*,*,*,*")]);
    let mut mapping = create_pos_mapping();
    let first = get_user_pos_by_id(&mut mapping, &ix, 7);
    assert_eq!(mapping.id_to_user_pos_cache.len(), 1);
    let second = get_user_pos_by_id(&mut mapping, &ix, 7);
    assert_eq!(first, second);
    assert_eq!(mapping.id_to_user_pos_cache.len(), 1);
}

#[test]
fn proper_noun_sublabels_disambiguate() {
    let ix = make_index(&[
        (20, "名詞,固有名詞,人名,姓,*,*,*"),
        (21, "名詞,固有名詞,地名,一般,*,*,*"),
    ]);
    let mut mapping = create_pos_mapping();
    assert_eq!(u_search_key(&mut mapping, &ix, 20), Some("姓".to_string()));
    assert_eq!(u_search_key(&mut mapping, &ix, 21), Some("地名".to_string()));
}

#[test]
fn last_registration_wins_for_repeated_pattern() {
    // the numeral pattern is registered twice with different labels; the
    // later registration's label is the one resolved
    let ix = make_index(&[(30, "名詞,数詞,*,*,*,*,*")]);
    let mut mapping = create_pos_mapping();
    assert_eq!(u_search_key(&mut mapping, &ix, 30), Some("助数詞".to_string()));
}
