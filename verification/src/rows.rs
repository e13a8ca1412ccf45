//! Per-schema row converters.  Each source schema contributes one function
//! that filters a parsed row, extracts reading, surface form and cost,
//! builds a classification expression, resolves it through the matcher (or
//! reads the id directly), and records the entry in the dictionary store.
//!
//! Rows that fail a filter, hold a non-numeric cost or id, or hold a Unicode
//! escape that denotes no character are skipped.

use vstd::prelude::*;

use crate::coarse::{coarse_label, create_pos_mapping, memo_coherent, u_search_key, PosMapping};
use crate::cost::{adjust_cost, spec_adjust_cost};
use crate::matcher::{
    cache_coherent, id_expr, resolve_id, reverse_lookup, search_key, ClassCache, TaxonomyIndex,
};
use crate::normalize::{
    convert_to_hiragana, escapes_decodable, spec_convert_to_hiragana, try_unicode_escape,
    unescaped,
};
use crate::store::{
    entry_view, store_add, DictionaryData, DictionaryEntry, DictionaryKey,
};
use crate::text::{
    chars_of, contains_sub, dec_str, int_to_string, is_substring_of, lemma_string_rows_deep_view,
    lemma_string_vec_deep_view, parse_i32, push_all, replace_all, spec_parse_i32,
    spec_replace_all, str_eq, string_of,
};

verus! {

/// Whether a character lies in the hiragana or katakana letter blocks.
pub open spec fn is_kana_char(c: char) -> bool {
    let u = c as u32;
    (0x3041 <= u && u <= 0x3096) || (0x30A1 <= u && u <= 0x30FA)
}

/// A nonempty text of kana letters only.
pub open spec fn kana_full(s: Seq<char>) -> bool {
    s.len() > 0 && forall|i: int| 0 <= i < s.len() ==> is_kana_char(#[trigger] s[i])
}

/// A text holding at least one kana letter.
pub open spec fn kana_any(s: Seq<char>) -> bool {
    exists|i: int| 0 <= i < s.len() && is_kana_char(#[trigger] s[i])
}

pub open spec fn is_ascii_alnum(c: char) -> bool {
    let u = c as u32;
    (0x30 <= u && u <= 0x39) || (0x41 <= u && u <= 0x5A) || (0x61 <= u && u <= 0x7A)
}

/// A nonempty text of ASCII letters and digits only.
pub open spec fn alnum_full(s: Seq<char>) -> bool {
    s.len() > 0 && forall|i: int| 0 <= i < s.len() ==> is_ascii_alnum(#[trigger] s[i])
}

pub open spec fn is_ascii_alpha_space(c: char) -> bool {
    let u = c as u32;
    u == 0x20 || (0x41 <= u && u <= 0x5A) || (0x61 <= u && u <= 0x7A)
}

/// A nonempty text of ASCII letters and spaces only.
pub open spec fn alpha_space_full(s: Seq<char>) -> bool {
    s.len() > 0 && forall|i: int| 0 <= i < s.len() ==> is_ascii_alpha_space(#[trigger] s[i])
}

fn kana_full_exec(s: &Vec<char>) -> (r: bool)
    ensures
        r == kana_full(s@),
{
    if s.len() == 0 {
        return false;
    }
    let mut i: usize = 0;
    while i < s.len()
        invariant
            i <= s@.len(),
            forall|j: int| 0 <= j < i ==> is_kana_char(#[trigger] s@[j]),
        decreases s@.len() - i,
    {
        let u = s[i] as u32;
        if !((0x3041 <= u && u <= 0x3096) || (0x30A1 <= u && u <= 0x30FA)) {
            return false;
        }
        i = i + 1;
    }
    true
}

fn kana_any_exec(s: &Vec<char>) -> (r: bool)
    ensures
        r == kana_any(s@),
{
    let mut i: usize = 0;
    while i < s.len()
        invariant
            i <= s@.len(),
            forall|j: int| 0 <= j < i ==> !is_kana_char(#[trigger] s@[j]),
        decreases s@.len() - i,
    {
        let u = s[i] as u32;
        if (0x3041 <= u && u <= 0x3096) || (0x30A1 <= u && u <= 0x30FA) {
            return true;
        }
        i = i + 1;
    }
    false
}

fn alnum_full_exec(s: &Vec<char>) -> (r: bool)
    ensures
        r == alnum_full(s@),
{
    if s.len() == 0 {
        return false;
    }
    let mut i: usize = 0;
    while i < s.len()
        invariant
            i <= s@.len(),
            forall|j: int| 0 <= j < i ==> is_ascii_alnum(#[trigger] s@[j]),
        decreases s@.len() - i,
    {
        let u = s[i] as u32;
        if !((0x30 <= u && u <= 0x39) || (0x41 <= u && u <= 0x5A) || (0x61 <= u && u <= 0x7A)) {
            return false;
        }
        i = i + 1;
    }
    true
}

fn alpha_space_full_exec(s: &Vec<char>) -> (r: bool)
    ensures
        r == alpha_space_full(s@),
{
    if s.len() == 0 {
        return false;
    }
    let mut i: usize = 0;
    while i < s.len()
        invariant
            i <= s@.len(),
            forall|j: int| 0 <= j < i ==> is_ascii_alpha_space(#[trigger] s@[j]),
        decreases s@.len() - i,
    {
        let u = s[i] as u32;
        if !(u == 0x20 || (0x41 <= u && u <= 0x5A) || (0x61 <= u && u <= 0x7A)) {
            return false;
        }
        i = i + 1;
    }
    true
}

fn contains_lit(s: &Vec<char>, lit: &str) -> (r: bool)
    ensures
        r == is_substring_of(lit@, s@),
{
    let lv = chars_of(lit);
    contains_sub(s, &lv)
}

/// The comma joining expression fields.
pub open spec fn comma() -> Seq<char> {
    seq![',']
}

/// Six fields joined into one comma-separated classification expression.
pub open spec fn join6(
    a: Seq<char>,
    b: Seq<char>,
    c: Seq<char>,
    d: Seq<char>,
    e: Seq<char>,
    f: Seq<char>,
) -> Seq<char> {
    a + comma() + b + comma() + c + comma() + d + comma() + e + comma() + f
}

fn join6_exec(
    a: &Vec<char>,
    b: &Vec<char>,
    c: &Vec<char>,
    d: &Vec<char>,
    e: &Vec<char>,
    f: &Vec<char>,
) -> (r: Vec<char>)
    ensures
        r@ == join6(a@, b@, c@, d@, e@, f@),
{
    let mut out: Vec<char> = Vec::new();
    push_all(&mut out, a);
    out.push(',');
    push_all(&mut out, b);
    out.push(',');
    push_all(&mut out, c);
    out.push(',');
    push_all(&mut out, d);
    out.push(',');
    push_all(&mut out, e);
    out.push(',');
    push_all(&mut out, f);
    proof {
        assert(out@ =~= join6(a@, b@, c@, d@, e@, f@));
    }
    out
}

/// The coarse label attached to an entry: in user-dictionary mode the
/// resolved label, or the id written in decimal when none resolves; outside
/// it, empty.
pub open spec fn label_spec(
    entries: Seq<(Seq<char>, int)>,
    pairs: Seq<(Seq<char>, Seq<char>)>,
    id: int,
    user: bool,
) -> Seq<char> {
    if user {
        match coarse_label(entries, pairs, id) {
            Some(l) => l,
            None => dec_str(id),
        }
    } else {
        Seq::<char>::empty()
    }
}

/// The entry a row yields once its fields are fixed: the reading converted
/// to hiragana and unescaped, the surface form unescaped, the normalized
/// cost and the label.  `None` when an escape denotes no character.
pub open spec fn entry_spec(
    yomi: Seq<char>,
    surface: Seq<char>,
    cost0: int,
    id: int,
    entries: Seq<(Seq<char>, int)>,
    pairs: Seq<(Seq<char>, Seq<char>)>,
    user: bool,
) -> Option<((Seq<char>, Seq<char>, int), int, Seq<char>)> {
    let yh = spec_convert_to_hiragana(yomi);
    if escapes_decodable(yh, 0) && escapes_decodable(surface, 0) {
        Some(
            (
                (unescaped(yh, 0), unescaped(surface, 0), id),
                spec_adjust_cost(cost0),
                label_spec(entries, pairs, id, user),
            ),
        )
    } else {
        None
    }
}

fn build_entry(
    yomi_field: &str,
    surface_field: &str,
    cost0: i32,
    hinshi_id: i32,
    index: &TaxonomyIndex,
    mapping: &mut PosMapping,
    user_dict: bool,
) -> (r: Option<DictionaryEntry>)
    requires
        memo_coherent(old(mapping).memo_model(), index.model(), old(mapping).inverse_model()),
    ensures
        final(mapping).inverse_model() == old(mapping).inverse_model(),
        final(mapping).forward_model() == old(mapping).forward_model(),
        memo_coherent(final(mapping).memo_model(), index.model(), final(mapping).inverse_model()),
        (match r {
            Some(e) => entry_spec(
                yomi_field@,
                surface_field@,
                cost0 as int,
                hinshi_id as int,
                index.model(),
                old(mapping).inverse_model(),
                user_dict,
            ) == Some(entry_view(e)),
            None => entry_spec(
                yomi_field@,
                surface_field@,
                cost0 as int,
                hinshi_id as int,
                index.model(),
                old(mapping).inverse_model(),
                user_dict,
            ) is None,
        }),
{
    let yomi_h = convert_to_hiragana(yomi_field);
    let s1 = match try_unicode_escape(yomi_h.as_str()) {
        Some(x) => x,
        None => {
            return None;
        },
    };
    let s2 = match try_unicode_escape(surface_field) {
        Some(x) => x,
        None => {
            return None;
        },
    };
    let cost = adjust_cost(cost0);
    let pos: String = if user_dict {
        match u_search_key(mapping, index, hinshi_id) {
            Some(h) => h,
            None => int_to_string(hinshi_id),
        }
    } else {
        String::new()
    };
    Some(DictionaryEntry { key: DictionaryKey { yomi: s1, surface: s2, hinshi_id }, cost, pos })
}

/// The classification expression a Sudachi row denotes, after the schema's
/// field rewrites.
pub open spec fn sudachi_expr(row: Seq<Seq<char>>) -> Seq<char> {
    let s3 = spec_replace_all(row[5], "補助記号"@, "記号"@);
    let s4 = spec_replace_all(row[6], "非自立可能"@, "非自立"@);
    let s5 = spec_replace_all(
        spec_replace_all(spec_replace_all(row[9], "下一段"@, "一段"@), "一段-"@, "一段,"@),
        "段-"@,
        "段・"@,
    );
    let s6 = spec_replace_all(row[10], "形-"@, "形,"@);
    join6(s3, s4, row[7], row[8], s5, s6)
}

/// Whether a Sudachi row is filtered out before conversion.
pub open spec fn sudachi_skip(row: Seq<Seq<char>>, chimei: bool, symbol: bool) -> bool {
    let s3 = spec_replace_all(row[5], "補助記号"@, "記号"@);
    ||| row.len() < 12
    ||| (!symbol && row[11] == "キゴウ"@ && is_substring_of("記号"@, s3))
    ||| (!symbol && s3 == "空白"@)
    ||| (!symbol && alpha_space_full(row[4]) && row[6] != "固有名詞"@)
    ||| !kana_full(row[11])
    ||| (is_substring_of("地名"@, row[7]) && !alnum_full(row[0]) && !chimei)
}

/// What one Sudachi row contributes: nothing when filtered or malformed,
/// else the converted entry under the id its expression resolves to.
pub open spec fn sudachi_row_entry(
    row: Seq<Seq<char>>,
    entries: Seq<(Seq<char>, int)>,
    default: int,
    pairs: Seq<(Seq<char>, Seq<char>)>,
    user: bool,
    chimei: bool,
    symbol: bool,
) -> Option<((Seq<char>, Seq<char>, int), int, Seq<char>)> {
    if sudachi_skip(row, chimei, symbol) {
        None
    } else {
        match spec_parse_i32(row[3]) {
            None => None,
            Some(cost0) => entry_spec(
                row[11],
                row[4],
                cost0,
                resolve_id(sudachi_expr(row), entries, default),
                entries,
                pairs,
                user,
            ),
        }
    }
}

#[verifier::loop_isolation(false)]
fn sudachi_convert_row(
    row: &Vec<String>,
    index: &TaxonomyIndex,
    cache: &mut ClassCache,
    mapping: &mut PosMapping,
    default_noun_id: i32,
    user_dict_flag: bool,
    chimei_flag: bool,
    symbol_flag: bool,
) -> (r: Option<DictionaryEntry>)
    requires
        cache_coherent(old(cache).model(), index.model(), default_noun_id as int),
        memo_coherent(old(mapping).memo_model(), index.model(), old(mapping).inverse_model()),
    ensures
        cache_coherent(final(cache).model(), index.model(), default_noun_id as int),
        final(mapping).inverse_model() == old(mapping).inverse_model(),
        final(mapping).forward_model() == old(mapping).forward_model(),
        memo_coherent(final(mapping).memo_model(), index.model(), final(mapping).inverse_model()),
        (match r {
            Some(e) => sudachi_row_entry(
                row.deep_view(),
                index.model(),
                default_noun_id as int,
                old(mapping).inverse_model(),
                user_dict_flag,
                chimei_flag,
                symbol_flag,
            ) == Some(entry_view(e)),
            None => sudachi_row_entry(
                row.deep_view(),
                index.model(),
                default_noun_id as int,
                old(mapping).inverse_model(),
                user_dict_flag,
                chimei_flag,
                symbol_flag,
            ) is None,
        }),
{
    proof {
        lemma_string_vec_deep_view(row);
        reveal_strlit("補助記号");
        reveal_strlit("非自立可能");
        reveal_strlit("下一段");
        reveal_strlit("一段-");
        reveal_strlit("段-");
        reveal_strlit("形-");
    }
    let ghost rv = row.deep_view();
    if row.len() < 12 {
        return None;
    }
    let f5 = chars_of(row[5].as_str());
    let s3 = replace_all(&f5, &chars_of("補助記号"), &chars_of("記号"));
    if !symbol_flag && str_eq(row[11].as_str(), "キゴウ") && contains_lit(&s3, "記号") {
        return None;
    }
    let blank = chars_of("空白");
    if !symbol_flag && crate::text::chars_eq(&s3, &blank) {
        return None;
    }
    let f4 = chars_of(row[4].as_str());
    if !symbol_flag && alpha_space_full_exec(&f4) && !str_eq(row[6].as_str(), "固有名詞") {
        return None;
    }
    let f11 = chars_of(row[11].as_str());
    if !kana_full_exec(&f11) {
        return None;
    }
    let f7 = chars_of(row[7].as_str());
    let f0 = chars_of(row[0].as_str());
    if contains_lit(&f7, "地名") && !alnum_full_exec(&f0) && !chimei_flag {
        return None;
    }
    let f3 = chars_of(row[3].as_str());
    let cost0 = match parse_i32(&f3) {
        Some(c) => c,
        None => {
            return None;
        },
    };
    let s4 = replace_all(&chars_of(row[6].as_str()), &chars_of("非自立可能"), &chars_of("非自立"));
    let s5a = replace_all(&chars_of(row[9].as_str()), &chars_of("下一段"), &chars_of("一段"));
    let s5b = replace_all(&s5a, &chars_of("一段-"), &chars_of("一段,"));
    let s5 = replace_all(&s5b, &chars_of("段-"), &chars_of("段・"));
    let s6 = replace_all(&chars_of(row[10].as_str()), &chars_of("形-"), &chars_of("形,"));
    let f8 = chars_of(row[8].as_str());
    let d = join6_exec(&s3, &s4, &f7, &f8, &s5, &s6);
    let d_str = string_of(&d);
    proof {
        assert(d_str@ == sudachi_expr(rv));
    }
    let hinshi_id = id_expr(d_str.as_str(), index, cache, default_noun_id);
    build_entry(
        row[11].as_str(),
        row[4].as_str(),
        cost0,
        hinshi_id,
        index,
        mapping,
        user_dict_flag,
    )
}

/// The collection after converting the first `n` Sudachi rows into `dict`.
pub open spec fn sudachi_fold(
    rows: Seq<Seq<Seq<char>>>,
    n: int,
    dict: Seq<((Seq<char>, Seq<char>, int), int, Seq<char>)>,
    entries: Seq<(Seq<char>, int)>,
    default: int,
    pairs: Seq<(Seq<char>, Seq<char>)>,
    user: bool,
    chimei: bool,
    symbol: bool,
) -> Seq<((Seq<char>, Seq<char>, int), int, Seq<char>)>
    decreases n,
{
    if n <= 0 {
        dict
    } else {
        let prev = sudachi_fold(rows, n - 1, dict, entries, default, pairs, user, chimei, symbol);
        match sudachi_row_entry(rows[n - 1], entries, default, pairs, user, chimei, symbol) {
            Some(e) => store_add(prev, e),
            None => prev,
        }
    }
}

/// Converts parsed SudachiDict rows into the dictionary store, resolving
/// each row's classification expression against the reference table.
#[verifier::loop_isolation(false)]
pub fn sudachi_convert_rows(
    rows: &Vec<Vec<String>>,
    index: &TaxonomyIndex,
    dict_data: &mut DictionaryData,
    default_noun_id: i32,
    user_dict_flag: bool,
    chimei_flag: bool,
    symbol_flag: bool,
)
    ensures
        user_dict_flag ==> final(dict_data).user_model() == sudachi_fold(
            rows.deep_view(),
            rows@.len() as int,
            old(dict_data).user_model(),
            index.model(),
            default_noun_id as int,
            crate::coarse::coarse_table(),
            user_dict_flag,
            chimei_flag,
            symbol_flag,
        ) && final(dict_data).system_model() == old(dict_data).system_model(),
        !user_dict_flag ==> final(dict_data).system_model() == sudachi_fold(
            rows.deep_view(),
            rows@.len() as int,
            old(dict_data).system_model(),
            index.model(),
            default_noun_id as int,
            crate::coarse::coarse_table(),
            user_dict_flag,
            chimei_flag,
            symbol_flag,
        ) && final(dict_data).user_model() == old(dict_data).user_model(),
{
    let ghost rv = rows.deep_view();
    let ghost pairs = crate::coarse::coarse_table();
    proof {
        lemma_string_rows_deep_view(rows);
    }
    let mut class_map = ClassCache::new();
    let mut mapping = create_pos_mapping();
    let mut i: usize = 0;
    while i < rows.len()
        invariant
            i <= rows@.len(),
            cache_coherent(class_map.model(), index.model(), default_noun_id as int),
            memo_coherent(mapping.memo_model(), index.model(), mapping.inverse_model()),
            mapping.inverse_model() == pairs,
            user_dict_flag ==> dict_data.user_model() == sudachi_fold(
                rv,
                i as int,
                old(dict_data).user_model(),
                index.model(),
                default_noun_id as int,
                pairs,
                user_dict_flag,
                chimei_flag,
                symbol_flag,
            ) && dict_data.system_model() == old(dict_data).system_model(),
            !user_dict_flag ==> dict_data.system_model() == sudachi_fold(
                rv,
                i as int,
                old(dict_data).system_model(),
                index.model(),
                default_noun_id as int,
                pairs,
                user_dict_flag,
                chimei_flag,
                symbol_flag,
            ) && dict_data.user_model() == old(dict_data).user_model(),
        decreases rows@.len() - i,
    {
        match sudachi_convert_row(
            &rows[i],
            index,
            &mut class_map,
            &mut mapping,
            default_noun_id,
            user_dict_flag,
            chimei_flag,
            symbol_flag,
        ) {
            Some(e) => {
                dict_data.add(e, user_dict_flag);
            },
            None => {},
        }
        i = i + 1;
    }
}

/// The classification expression a Neologd row denotes: the general-noun
/// subcategory is renamed, the rest is taken as written.
pub open spec fn neologd_expr(row: Seq<Seq<char>>) -> Seq<char> {
    let s4 = if row[4] == "名詞"@ && row[5] == "一般"@ {
        "普通名詞"@
    } else {
        row[5]
    };
    join6(row[4], s4, row[6], row[7], row[8], row[9])
}

/// Whether a Neologd row is filtered out before conversion.
pub open spec fn neologd_skip(row: Seq<Seq<char>>, chimei: bool, symbol: bool) -> bool {
    ||| row.len() < 12
    ||| (row[11] == "キゴウ"@ && is_substring_of("記号"@, row[10]))
    ||| row[4] == "空白"@
    ||| (!symbol && alpha_space_full(row[0]) && row[5] != "固有名詞"@)
    ||| !kana_any(row[11])
    ||| (!chimei && is_substring_of("地域"@, row[6]))
}

/// What one Neologd row contributes.
pub open spec fn neologd_row_entry(
    row: Seq<Seq<char>>,
    entries: Seq<(Seq<char>, int)>,
    default: int,
    pairs: Seq<(Seq<char>, Seq<char>)>,
    user: bool,
    chimei: bool,
    symbol: bool,
) -> Option<((Seq<char>, Seq<char>, int), int, Seq<char>)> {
    if neologd_skip(row, chimei, symbol) {
        None
    } else {
        match spec_parse_i32(row[3]) {
            None => None,
            Some(cost0) => entry_spec(
                row[11],
                row[0],
                cost0,
                resolve_id(neologd_expr(row), entries, default),
                entries,
                pairs,
                user,
            ),
        }
    }
}

#[verifier::loop_isolation(false)]
fn neologd_convert_row(
    row: &Vec<String>,
    index: &TaxonomyIndex,
    cache: &mut ClassCache,
    mapping: &mut PosMapping,
    default_noun_id: i32,
    user_dict_flag: bool,
    chimei_flag: bool,
    symbol_flag: bool,
) -> (r: Option<DictionaryEntry>)
    requires
        cache_coherent(old(cache).model(), index.model(), default_noun_id as int),
        memo_coherent(old(mapping).memo_model(), index.model(), old(mapping).inverse_model()),
    ensures
        cache_coherent(final(cache).model(), index.model(), default_noun_id as int),
        final(mapping).inverse_model() == old(mapping).inverse_model(),
        final(mapping).forward_model() == old(mapping).forward_model(),
        memo_coherent(final(mapping).memo_model(), index.model(), final(mapping).inverse_model()),
        (match r {
            Some(e) => neologd_row_entry(
                row.deep_view(),
                index.model(),
                default_noun_id as int,
                old(mapping).inverse_model(),
                user_dict_flag,
                chimei_flag,
                symbol_flag,
            ) == Some(entry_view(e)),
            None => neologd_row_entry(
                row.deep_view(),
                index.model(),
                default_noun_id as int,
                old(mapping).inverse_model(),
                user_dict_flag,
                chimei_flag,
                symbol_flag,
            ) is None,
        }),
{
    proof {
        lemma_string_vec_deep_view(row);
    }
    let ghost rv = row.deep_view();
    if row.len() < 12 {
        return None;
    }
    let f10 = chars_of(row[10].as_str());
    if str_eq(row[11].as_str(), "キゴウ") && contains_lit(&f10, "記号") {
        return None;
    }
    if str_eq(row[4].as_str(), "空白") {
        return None;
    }
    let f0 = chars_of(row[0].as_str());
    if !symbol_flag && alpha_space_full_exec(&f0) && !str_eq(row[5].as_str(), "固有名詞") {
        return None;
    }
    let f11 = chars_of(row[11].as_str());
    if !kana_any_exec(&f11) {
        return None;
    }
    let f6 = chars_of(row[6].as_str());
    if !chimei_flag && contains_lit(&f6, "地域") {
        return None;
    }
    let f3 = chars_of(row[3].as_str());
    let cost0 = match parse_i32(&f3) {
        Some(c) => c,
        None => {
            return None;
        },
    };
    let f4 = chars_of(row[4].as_str());
    let s4 = if str_eq(row[4].as_str(), "名詞") && str_eq(row[5].as_str(), "一般") {
        chars_of("普通名詞")
    } else {
        chars_of(row[5].as_str())
    };
    let f7 = chars_of(row[7].as_str());
    let f8 = chars_of(row[8].as_str());
    let f9 = chars_of(row[9].as_str());
    let d = join6_exec(&f4, &s4, &f6, &f7, &f8, &f9);
    let d_str = string_of(&d);
    proof {
        assert(d_str@ == neologd_expr(rv));
    }
    let hinshi_id = id_expr(d_str.as_str(), index, cache, default_noun_id);
    build_entry(
        row[11].as_str(),
        row[0].as_str(),
        cost0,
        hinshi_id,
        index,
        mapping,
        user_dict_flag,
    )
}

/// The collection after converting the first `n` Neologd rows into `dict`.
pub open spec fn neologd_fold(
    rows: Seq<Seq<Seq<char>>>,
    n: int,
    dict: Seq<((Seq<char>, Seq<char>, int), int, Seq<char>)>,
    entries: Seq<(Seq<char>, int)>,
    default: int,
    pairs: Seq<(Seq<char>, Seq<char>)>,
    user: bool,
    chimei: bool,
    symbol: bool,
) -> Seq<((Seq<char>, Seq<char>, int), int, Seq<char>)>
    decreases n,
{
    if n <= 0 {
        dict
    } else {
        let prev = neologd_fold(rows, n - 1, dict, entries, default, pairs, user, chimei, symbol);
        match neologd_row_entry(rows[n - 1], entries, default, pairs, user, chimei, symbol) {
            Some(e) => store_add(prev, e),
            None => prev,
        }
    }
}

/// Converts parsed Neologd rows into the dictionary store.
#[verifier::loop_isolation(false)]
pub fn neologd_convert_rows(
    rows: &Vec<Vec<String>>,
    index: &TaxonomyIndex,
    dict_data: &mut DictionaryData,
    default_noun_id: i32,
    user_dict_flag: bool,
    chimei_flag: bool,
    symbol_flag: bool,
)
    ensures
        user_dict_flag ==> final(dict_data).user_model() == neologd_fold(
            rows.deep_view(),
            rows@.len() as int,
            old(dict_data).user_model(),
            index.model(),
            default_noun_id as int,
            crate::coarse::coarse_table(),
            user_dict_flag,
            chimei_flag,
            symbol_flag,
        ) && final(dict_data).system_model() == old(dict_data).system_model(),
        !user_dict_flag ==> final(dict_data).system_model() == neologd_fold(
            rows.deep_view(),
            rows@.len() as int,
            old(dict_data).system_model(),
            index.model(),
            default_noun_id as int,
            crate::coarse::coarse_table(),
            user_dict_flag,
            chimei_flag,
            symbol_flag,
        ) && final(dict_data).user_model() == old(dict_data).user_model(),
{
    let ghost rv = rows.deep_view();
    let ghost pairs = crate::coarse::coarse_table();
    proof {
        lemma_string_rows_deep_view(rows);
    }
    let mut class_map = ClassCache::new();
    let mut mapping = create_pos_mapping();
    let mut i: usize = 0;
    while i < rows.len()
        invariant
            i <= rows@.len(),
            cache_coherent(class_map.model(), index.model(), default_noun_id as int),
            memo_coherent(mapping.memo_model(), index.model(), mapping.inverse_model()),
            mapping.inverse_model() == pairs,
            user_dict_flag ==> dict_data.user_model() == neologd_fold(
                rv,
                i as int,
                old(dict_data).user_model(),
                index.model(),
                default_noun_id as int,
                pairs,
                user_dict_flag,
                chimei_flag,
                symbol_flag,
            ) && dict_data.system_model() == old(dict_data).system_model(),
            !user_dict_flag ==> dict_data.system_model() == neologd_fold(
                rv,
                i as int,
                old(dict_data).system_model(),
                index.model(),
                default_noun_id as int,
                pairs,
                user_dict_flag,
                chimei_flag,
                symbol_flag,
            ) && dict_data.user_model() == old(dict_data).user_model(),
        decreases rows@.len() - i,
    {
        match neologd_convert_row(
            &rows[i],
            index,
            &mut class_map,
            &mut mapping,
            default_noun_id,
            user_dict_flag,
            chimei_flag,
            symbol_flag,
        ) {
            Some(e) => {
                dict_data.add(e, user_dict_flag);
            },
            None => {},
        }
        i = i + 1;
    }
}

/// The reference expression a UT row's id points back to, or empty.
pub open spec fn ut_search_key(entries: Seq<(Seq<char>, int)>, id: int) -> Seq<char> {
    match reverse_lookup(entries, id) {
        Some(s) => s,
        None => Seq::<char>::empty(),
    }
}

/// What one UT dictionary row contributes: the row carries its canonical id
/// directly; its filters consult the reference expression of that id.
pub open spec fn utdict_row_entry(
    row: Seq<Seq<char>>,
    entries: Seq<(Seq<char>, int)>,
    pairs: Seq<(Seq<char>, Seq<char>)>,
    user: bool,
    chimei: bool,
    symbol: bool,
) -> Option<((Seq<char>, Seq<char>, int), int, Seq<char>)> {
    if row.len() < 5 {
        None
    } else if !kana_any(row[0]) {
        None
    } else {
        match spec_parse_i32(row[1]) {
            None => None,
            Some(id) => {
                let sk = ut_search_key(entries, id);
                if !symbol && alpha_space_full(row[0]) && !is_substring_of("固有名詞"@, sk) {
                    None
                } else if is_substring_of("地名"@, sk) && !chimei {
                    None
                } else {
                    match spec_parse_i32(row[3]) {
                        None => None,
                        Some(cost0) => entry_spec(row[0], row[4], cost0, id, entries, pairs, user),
                    }
                }
            },
        }
    }
}

#[verifier::loop_isolation(false)]
fn utdict_convert_row(
    row: &Vec<String>,
    index: &TaxonomyIndex,
    mapping: &mut PosMapping,
    user_dict_flag: bool,
    chimei_flag: bool,
    symbol_flag: bool,
) -> (r: Option<DictionaryEntry>)
    requires
        memo_coherent(old(mapping).memo_model(), index.model(), old(mapping).inverse_model()),
    ensures
        final(mapping).inverse_model() == old(mapping).inverse_model(),
        final(mapping).forward_model() == old(mapping).forward_model(),
        memo_coherent(final(mapping).memo_model(), index.model(), final(mapping).inverse_model()),
        (match r {
            Some(e) => utdict_row_entry(
                row.deep_view(),
                index.model(),
                old(mapping).inverse_model(),
                user_dict_flag,
                chimei_flag,
                symbol_flag,
            ) == Some(entry_view(e)),
            None => utdict_row_entry(
                row.deep_view(),
                index.model(),
                old(mapping).inverse_model(),
                user_dict_flag,
                chimei_flag,
                symbol_flag,
            ) is None,
        }),
{
    proof {
        lemma_string_vec_deep_view(row);
    }
    let ghost rv = row.deep_view();
    if row.len() < 5 {
        return None;
    }
    let f0 = chars_of(row[0].as_str());
    if !kana_any_exec(&f0) {
        return None;
    }
    let f1 = chars_of(row[1].as_str());
    let hinshi_id = match parse_i32(&f1) {
        Some(v) => v,
        None => {
            return None;
        },
    };
    let sk = search_key(index, hinshi_id);
    let sk_chars = chars_of(sk.as_str());
    if !symbol_flag && alpha_space_full_exec(&f0) && !contains_lit(&sk_chars, "固有名詞") {
        return None;
    }
    if contains_lit(&sk_chars, "地名") && !chimei_flag {
        return None;
    }
    let f3 = chars_of(row[3].as_str());
    let cost0 = match parse_i32(&f3) {
        Some(c) => c,
        None => {
            return None;
        },
    };
    build_entry(
        row[0].as_str(),
        row[4].as_str(),
        cost0,
        hinshi_id,
        index,
        mapping,
        user_dict_flag,
    )
}

/// The collection after converting the first `n` UT rows into `dict`.
pub open spec fn utdict_fold(
    rows: Seq<Seq<Seq<char>>>,
    n: int,
    dict: Seq<((Seq<char>, Seq<char>, int), int, Seq<char>)>,
    entries: Seq<(Seq<char>, int)>,
    pairs: Seq<(Seq<char>, Seq<char>)>,
    user: bool,
    chimei: bool,
    symbol: bool,
) -> Seq<((Seq<char>, Seq<char>, int), int, Seq<char>)>
    decreases n,
{
    if n <= 0 {
        dict
    } else {
        let prev = utdict_fold(rows, n - 1, dict, entries, pairs, user, chimei, symbol);
        match utdict_row_entry(rows[n - 1], entries, pairs, user, chimei, symbol) {
            Some(e) => store_add(prev, e),
            None => prev,
        }
    }
}

/// Converts parsed UT dictionary rows into the dictionary store.
#[verifier::loop_isolation(false)]
pub fn utdict_convert_rows(
    rows: &Vec<Vec<String>>,
    index: &TaxonomyIndex,
    dict_data: &mut DictionaryData,
    user_dict_flag: bool,
    chimei_flag: bool,
    symbol_flag: bool,
)
    ensures
        user_dict_flag ==> final(dict_data).user_model() == utdict_fold(
            rows.deep_view(),
            rows@.len() as int,
            old(dict_data).user_model(),
            index.model(),
            crate::coarse::coarse_table(),
            user_dict_flag,
            chimei_flag,
            symbol_flag,
        ) && final(dict_data).system_model() == old(dict_data).system_model(),
        !user_dict_flag ==> final(dict_data).system_model() == utdict_fold(
            rows.deep_view(),
            rows@.len() as int,
            old(dict_data).system_model(),
            index.model(),
            crate::coarse::coarse_table(),
            user_dict_flag,
            chimei_flag,
            symbol_flag,
        ) && final(dict_data).user_model() == old(dict_data).user_model(),
{
    let ghost rv = rows.deep_view();
    let ghost pairs = crate::coarse::coarse_table();
    proof {
        lemma_string_rows_deep_view(rows);
    }
    let mut mapping = create_pos_mapping();
    let mut i: usize = 0;
    while i < rows.len()
        invariant
            i <= rows@.len(),
            memo_coherent(mapping.memo_model(), index.model(), mapping.inverse_model()),
            mapping.inverse_model() == pairs,
            user_dict_flag ==> dict_data.user_model() == utdict_fold(
                rv,
                i as int,
                old(dict_data).user_model(),
                index.model(),
                pairs,
                user_dict_flag,
                chimei_flag,
                symbol_flag,
            ) && dict_data.system_model() == old(dict_data).system_model(),
            !user_dict_flag ==> dict_data.system_model() == utdict_fold(
                rv,
                i as int,
                old(dict_data).system_model(),
                index.model(),
                pairs,
                user_dict_flag,
                chimei_flag,
                symbol_flag,
            ) && dict_data.user_model() == old(dict_data).user_model(),
        decreases rows@.len() - i,
    {
        match utdict_convert_row(
            &rows[i],
            index,
            &mut mapping,
            user_dict_flag,
            chimei_flag,
            symbol_flag,
        ) {
            Some(e) => {
                dict_data.add(e, user_dict_flag);
            },
            None => {},
        }
        i = i + 1;
    }
}

} // verus!
