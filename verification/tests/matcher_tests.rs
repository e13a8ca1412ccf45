use sudachi::matcher::{id_expr, search_key, ClassCache, TaxonomyIndex};

fn make_index(rows: &[(i32, &str)]) -> TaxonomyIndex {
    let mut ix = TaxonomyIndex::new();
    for (id, e) in rows {
        ix.insert(e.to_string(), *id);
    }
    ix
}

#[test]
fn exact_match_returns_row_id() {
    let ix = make_index(&[(7, "名詞,普通名詞,*,*,*,*,*")]);
    let mut cache = ClassCache::new();
    assert_eq!(id_expr("名詞,普通名詞,*,*,*,*,*", &ix, &mut cache, -1), 7);
}

#[test]
fn resolve_is_idempotent_and_second_call_hits_cache() {
    let ix = make_index(&[(100, "名詞,普通名詞,*,*,*,*,*")]);
    let mut cache = ClassCache::new();
    let first = id_expr("名詞,普通名詞,一般,*,*,*,*", &ix, &mut cache, 100);
    assert_eq!(cache.pairs.len(), 1);
    let second = id_expr("名詞,普通名詞,一般,*,*,*,*", &ix, &mut cache, 100);
    assert_eq!(first, second);
    // the second resolution was answered from the cache: nothing was added
    assert_eq!(cache.pairs.len(), 1);
}

#[test]
fn fuzzy_match_accepts_wildcard_minor_category() {
    // the candidate's third field is a wildcard, so the input's concrete
    // minor category still matches (match count three)
    let ix = make_index(&[(100, "名詞,普通名詞,*,*,*,*,*")]);
    let mut cache = ClassCache::new();
    assert_eq!(id_expr("名詞,普通名詞,一般,*,*,*,*", &ix, &mut cache, 100), 100);
    // with an out-of-range default the fuzzy match is still found
    let mut cache2 = ClassCache::new();
    assert_eq!(id_expr("名詞,普通名詞,一般,*,*,*,*", &ix, &mut cache2, -1), 100);
}

#[test]
fn candidate_with_other_head_fields_is_never_selected() {
    let ix = make_index(&[(7, "動詞,一般,*,*,*,*,*")]);
    let mut cache = ClassCache::new();
    // the only candidate differs in its major category: the default wins
    assert_eq!(id_expr("名詞,普通名詞,一般,*,*,*,*", &ix, &mut cache, -1), -1);
}

#[test]
fn proper_noun_requires_stronger_match() {
    let ix = make_index(&[(9, "名詞,固有名詞,*")]);
    let mut cache = ClassCache::new();
    // only the two guaranteed fields match: below the proper-noun threshold
    assert_eq!(id_expr("名詞,固有名詞", &ix, &mut cache, -1), -1);
    // a deeper wildcard match clears the threshold
    let mut cache2 = ClassCache::new();
    assert_eq!(id_expr("名詞,固有名詞,一般", &ix, &mut cache2, -1), 9);
}

#[test]
fn strict_minor_category_rejects_mismatch() {
    let ix = make_index(&[(3, "名詞,普通名詞,人名,*,*,*,*")]);
    let mut cache = ClassCache::new();
    // third field mismatch with no wildcard rejects the candidate outright
    assert_eq!(id_expr("名詞,普通名詞,一般,*,*,*,*", &ix, &mut cache, -1), -1);
}

#[test]
fn verb_conjugation_family_bonus_is_preferred() {
    // two otherwise-equal candidates; the one sharing the five-grade family
    // with the input's conjugation field scores one higher and must win,
    // although it is registered second
    let ix = make_index(&[
        (22, "動詞,一般,イ,ロ,一段,*,*"),
        (21, "動詞,一般,イ,ロ,五段,*,*"),
    ]);
    let mut cache = ClassCache::new();
    assert_eq!(id_expr("動詞,一般,イ,*,五段・カ行,*,*", &ix, &mut cache, -1), 21);
}

#[test]
fn equal_scores_resolve_to_the_earlier_row() {
    let ix = make_index(&[
        (1, "名詞,普通名詞,*,*,*,*,*"),
        (2, "名詞,普通名詞,*,*,*,*,*,x"),
    ]);
    let mut cache = ClassCache::new();
    let got = id_expr("名詞,普通名詞,一般,*,*,*,*", &ix, &mut cache, -1);
    assert_eq!(got, 1);
}

#[test]
fn search_key_returns_first_expression_with_id() {
    let ix = make_index(&[(5, "記号,一般,*,*,*,*,*"), (5, "補助記号,*,*,*,*,*,*x")]);
    assert_eq!(search_key(&ix, 5), "記号,一般,*,*,*,*,*");
    assert_eq!(search_key(&ix, 6), "");
}
