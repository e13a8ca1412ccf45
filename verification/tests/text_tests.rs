use sudachi::brief;
use sudachi::text::{
    chars_of, contains_sub, find_sub, int_to_string, parse_i32, replace_all, split_commas,
    string_of,
};

#[test]
fn split_commas_yields_fields_in_order() {
    let fields = split_commas(&chars_of("名詞,普通名詞,*"));
    let fields: Vec<String> = fields.iter().map(|f| string_of(f)).collect();
    assert_eq!(fields, vec!["名詞", "普通名詞", "*"]);
}

#[test]
fn split_commas_keeps_empty_fields() {
    let fields = split_commas(&chars_of("a,,b,"));
    let fields: Vec<String> = fields.iter().map(|f| string_of(f)).collect();
    assert_eq!(fields, vec!["a", "", "b", ""]);
}

#[test]
fn replace_all_rewrites_every_occurrence() {
    let out = replace_all(&chars_of("形-形-x"), &chars_of("形-"), &chars_of("形,"));
    assert_eq!(string_of(&out), "形,形,x");
}

#[test]
fn replace_all_scans_left_to_right_without_overlap() {
    let out = replace_all(&chars_of("aaa"), &chars_of("aa"), &chars_of("b"));
    assert_eq!(string_of(&out), "ba");
}

#[test]
fn find_sub_reports_least_index() {
    assert_eq!(find_sub(&chars_of("xabab"), &chars_of("ab")), Some(1));
    assert_eq!(find_sub(&chars_of("xyz"), &chars_of("ab")), None);
    assert!(contains_sub(&chars_of("五段・カ行"), &chars_of("五段")));
}

#[test]
fn int_to_string_renders_decimal() {
    assert_eq!(int_to_string(0), "0");
    assert_eq!(int_to_string(6100), "6100");
    assert_eq!(int_to_string(-1), "-1");
    assert_eq!(int_to_string(i32::MIN), "-2147483648");
}

#[test]
fn parse_i32_reads_signed_decimal() {
    assert_eq!(parse_i32(&chars_of("1000")), Some(1000));
    assert_eq!(parse_i32(&chars_of("-25")), Some(-25));
    assert_eq!(parse_i32(&chars_of("+25")), Some(25));
    assert_eq!(parse_i32(&chars_of("+")), None);
    assert_eq!(parse_i32(&chars_of("")), None);
    assert_eq!(parse_i32(&chars_of("12a")), None);
    assert_eq!(parse_i32(&chars_of("2147483648")), None);
    assert_eq!(parse_i32(&chars_of("-2147483648")), Some(i32::MIN));
}

#[test]
fn brief_names_the_program() {
    assert_eq!(
        brief("conv"),
        "Usage: conv [options]\n\nReads markdown from file or standard input and emits HTML."
    );
}
