use sudachi::normalize::{convert_to_hiragana, try_unicode_escape, unicode_escape_to_char};

#[test]
fn katakana_becomes_hiragana() {
    assert_eq!(convert_to_hiragana("テスト"), "てすと");
    assert_eq!(convert_to_hiragana("カタカナ"), "かたかな");
}

#[test]
fn hiragana_and_ascii_pass_through() {
    assert_eq!(convert_to_hiragana("ひらがな"), "ひらがな");
    assert_eq!(convert_to_hiragana("abc"), "abc");
}

#[test]
fn rare_katakana_letters_map_to_modern_kana() {
    assert_eq!(convert_to_hiragana("ヷ"), "わ");
    assert_eq!(convert_to_hiragana("ヺ"), "を");
    // ヰ shifts to ゐ, which is then written as its modern reading
    assert_eq!(convert_to_hiragana("ヰ"), "い");
    assert_eq!(convert_to_hiragana("ヱ"), "え");
}

#[test]
fn nfkc_folds_halfwidth_katakana() {
    assert_eq!(convert_to_hiragana("ﾃｽﾄ"), "てすと");
}

#[test]
fn unicode_escape_decodes_hex() {
    assert_eq!(unicode_escape_to_char("\\u3042"), "あ");
    assert_eq!(unicode_escape_to_char("x\\u3042y"), "xあy");
    assert_eq!(unicode_escape_to_char("\\u0041\\u0042"), "AB");
}

#[test]
fn unicode_escape_leaves_plain_text() {
    assert_eq!(unicode_escape_to_char("abcあ"), "abcあ");
    // an incomplete escape is no escape
    assert_eq!(unicode_escape_to_char("\\u30"), "\\u30");
    assert_eq!(unicode_escape_to_char("\\u30xz"), "\\u30xz");
}

#[test]
fn surrogate_escape_is_rejected() {
    assert!(try_unicode_escape("\\ud800").is_none());
    assert!(try_unicode_escape("\\udfff").is_none());
    let ok = try_unicode_escape("\\u3042").unwrap();
    assert_eq!(ok, "あ");
}
