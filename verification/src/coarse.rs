//! The coarse-label resolver: maps a canonical id back onto the small
//! human-facing label vocabulary used for user-editable entries.  A reverse
//! lookup finds a reference expression for the id; symbol categories collapse
//! to the single symbol label; every other expression is scored against the
//! registered label patterns with the matcher's walk, a slightly more
//! permissive head rule, and a stricter proper-noun threshold.

use vstd::prelude::*;

use crate::matcher::{
    is_wildcard, noun_cat, proper_noun_cat, reverse_lookup, reverse_lookup_from, str_field_is,
    verb_bonus, verb_bonus_exec, verb_cat, walk_count, walk_fields_exec, walk_valid,
    wildcard_field, TaxonomyIndex,
};
use crate::text::{chars_eq, chars_of, lemma_fields_deep_view, split_commas, split_fields, str_eq};

verus! {

/// The mapping between coarse user-dictionary labels and canonical
/// classification patterns: forward one label to many patterns, inverse one
/// pattern to one label (last registration wins), plus the per-run memo of
/// resolved ids.
pub struct PosMapping {
    pub user_to_id_def: Vec<(String, Vec<String>)>,
    pub id_def_to_user: Vec<(String, String)>,
    pub id_to_user_pos_cache: Vec<(i32, String)>,
}

fn clone_string_vec(v: &Vec<String>) -> (r: Vec<String>)
    ensures
        r@.len() == v@.len(),
        forall|i: int| 0 <= i < v@.len() ==> #[trigger] r@[i]@ == v@[i]@,
        r.deep_view() == v.deep_view(),
{
    let mut r: Vec<String> = Vec::new();
    let mut i: usize = 0;
    while i < v.len()
        invariant
            i <= v@.len(),
            r@.len() == i,
            forall|j: int| 0 <= j < i ==> #[trigger] r@[j]@ == v@[j]@,
        decreases v@.len() - i,
    {
        r.push(v[i].clone());
        i = i + 1;
    }
    proof {
        assert(r.deep_view() =~~= v.deep_view());
    }
    r
}

proof fn lemma_label_index_content(fwd: Seq<(Seq<char>, Seq<Seq<char>>)>, label: Seq<char>, i: int)
    requires
        0 <= i,
        label_index_from(fwd, label, i) is Some,
    ensures
        ({
            let j = label_index_from(fwd, label, i)->0;
            &&& i <= j < fwd.len()
            &&& fwd[j].0 == label
        }),
    decreases fwd.len() - i,
{
    if i < fwd.len() && fwd[i].0 != label {
        lemma_label_index_content(fwd, label, i + 1);
    }
}

/// The position of the first inverse row from `i` on holding `pat`.
pub open spec fn pat_index_from(
    pairs: Seq<(Seq<char>, Seq<char>)>,
    pat: Seq<char>,
    i: int,
) -> Option<int>
    decreases pairs.len() - i,
{
    if i < 0 || i >= pairs.len() {
        None
    } else if pairs[i].0 == pat {
        Some(i)
    } else {
        pat_index_from(pairs, pat, i + 1)
    }
}

/// Registering a pattern in the inverse table: a pattern already present
/// keeps its place and takes the new label; a new pattern is appended.
pub open spec fn inverse_add(
    pairs: Seq<(Seq<char>, Seq<char>)>,
    pat: Seq<char>,
    label: Seq<char>,
) -> Seq<(Seq<char>, Seq<char>)> {
    match pat_index_from(pairs, pat, 0) {
        Some(j) => pairs.update(j, (pat, label)),
        None => pairs.push((pat, label)),
    }
}

/// The position of the first forward row from `i` on holding `label`.
pub open spec fn label_index_from(
    fwd: Seq<(Seq<char>, Seq<Seq<char>>)>,
    label: Seq<char>,
    i: int,
) -> Option<int>
    decreases fwd.len() - i,
{
    if i < 0 || i >= fwd.len() {
        None
    } else if fwd[i].0 == label {
        Some(i)
    } else {
        label_index_from(fwd, label, i + 1)
    }
}

/// Registering a pattern in the forward table: the pattern joins the list of
/// an existing label, or opens a new row for a new label.
pub open spec fn forward_add(
    fwd: Seq<(Seq<char>, Seq<Seq<char>>)>,
    label: Seq<char>,
    pat: Seq<char>,
) -> Seq<(Seq<char>, Seq<Seq<char>>)> {
    match label_index_from(fwd, label, 0) {
        Some(j) => fwd.update(j, (label, fwd[j].1.push(pat))),
        None => fwd.push((label, seq![pat])),
    }
}

impl PosMapping {
    /// The inverse table's content: (pattern, label) rows in registration
    /// order.
    pub open spec fn inverse_model(&self) -> Seq<(Seq<char>, Seq<char>)> {
        Seq::new(
            self.id_def_to_user@.len(),
            |i: int| (self.id_def_to_user@[i].0@, self.id_def_to_user@[i].1@),
        )
    }

    /// The forward table's content: (label, patterns) rows.
    pub open spec fn forward_model(&self) -> Seq<(Seq<char>, Seq<Seq<char>>)> {
        Seq::new(
            self.user_to_id_def@.len(),
            |i: int| (self.user_to_id_def@[i].0@, self.user_to_id_def@[i].1.deep_view()),
        )
    }

    /// The memo's content: (id, label) pairs in insertion order.
    pub open spec fn memo_model(&self) -> Seq<(int, Seq<char>)> {
        Seq::new(
            self.id_to_user_pos_cache@.len(),
            |i: int|
                (
                    self.id_to_user_pos_cache@[i].0 as int,
                    self.id_to_user_pos_cache@[i].1@,
                ),
        )
    }

    pub fn new() -> (r: PosMapping)
        ensures
            r.inverse_model() == Seq::<(Seq<char>, Seq<char>)>::empty(),
            r.forward_model() == Seq::<(Seq<char>, Seq<Seq<char>>)>::empty(),
            r.memo_model() == Seq::<(int, Seq<char>)>::empty(),
    {
        let r = PosMapping {
            user_to_id_def: Vec::new(),
            id_def_to_user: Vec::new(),
            id_to_user_pos_cache: Vec::new(),
        };
        proof {
            assert(r.inverse_model() =~= Seq::<(Seq<char>, Seq<char>)>::empty());
            assert(r.forward_model() =~= Seq::<(Seq<char>, Seq<Seq<char>>)>::empty());
            assert(r.memo_model() =~= Seq::<(int, Seq<char>)>::empty());
        }
        r
    }

    fn inverse_position(&self, pat: &str) -> (r: Option<usize>)
        ensures
            match r {
                Some(j) => pat_index_from(self.inverse_model(), pat@, 0) == Some(j as int) && (
                j as int) < self.id_def_to_user@.len(),
                None => pat_index_from(self.inverse_model(), pat@, 0) is None,
            },
    {
        let mut i: usize = 0;
        while i < self.id_def_to_user.len()
            invariant
                i <= self.id_def_to_user@.len(),
                pat_index_from(self.inverse_model(), pat@, 0) == pat_index_from(
                    self.inverse_model(),
                    pat@,
                    i as int,
                ),
            decreases self.id_def_to_user@.len() - i,
        {
            if str_eq(self.id_def_to_user[i].0.as_str(), pat) {
                return Some(i);
            }
            i = i + 1;
        }
        None
    }

    fn forward_position(&self, label: &str) -> (r: Option<usize>)
        ensures
            match r {
                Some(j) => label_index_from(self.forward_model(), label@, 0) == Some(j as int) && (
                j as int) < self.user_to_id_def@.len(),
                None => label_index_from(self.forward_model(), label@, 0) is None,
            },
    {
        let mut i: usize = 0;
        while i < self.user_to_id_def.len()
            invariant
                i <= self.user_to_id_def@.len(),
                label_index_from(self.forward_model(), label@, 0) == label_index_from(
                    self.forward_model(),
                    label@,
                    i as int,
                ),
            decreases self.user_to_id_def@.len() - i,
        {
            if str_eq(self.user_to_id_def[i].0.as_str(), label) {
                return Some(i);
            }
            i = i + 1;
        }
        None
    }

    /// Registers one (coarse label, canonical pattern) pair in both
    /// directions; the inverse direction collapses a repeated pattern to the
    /// last registered label.
    pub fn add_mapping(&mut self, user_pos: &str, id_def_pos: &str)
        ensures
            final(self).inverse_model() == inverse_add(
                old(self).inverse_model(),
                id_def_pos@,
                user_pos@,
            ),
            final(self).forward_model() == forward_add(
                old(self).forward_model(),
                user_pos@,
                id_def_pos@,
            ),
            final(self).memo_model() == old(self).memo_model(),
    {
        match self.forward_position(user_pos) {
            Some(j) => {
                proof {
                    lemma_label_index_content(self.forward_model(), user_pos@, 0);
                }
                let label_copy = self.user_to_id_def[j].0.clone();
                let mut pats = clone_string_vec(&self.user_to_id_def[j].1);
                pats.push(id_def_pos.to_owned());
                self.user_to_id_def.set(j, (label_copy, pats));
                proof {
                    assert(self.forward_model() =~~= forward_add(
                        old(self).forward_model(),
                        user_pos@,
                        id_def_pos@,
                    ));
                }
            },
            None => {
                let mut pats: Vec<String> = Vec::new();
                pats.push(id_def_pos.to_owned());
                self.user_to_id_def.push((user_pos.to_owned(), pats));
                proof {
                    assert(self.forward_model() =~~= forward_add(
                        old(self).forward_model(),
                        user_pos@,
                        id_def_pos@,
                    ));
                }
            },
        }
        match self.inverse_position(id_def_pos) {
            Some(j) => {
                self.id_def_to_user.set(j, (id_def_pos.to_owned(), user_pos.to_owned()));
                proof {
                    assert(self.inverse_model() =~= inverse_add(
                        old(self).inverse_model(),
                        id_def_pos@,
                        user_pos@,
                    ));
                }
            },
            None => {
                self.id_def_to_user.push((id_def_pos.to_owned(), user_pos.to_owned()));
                proof {
                    assert(self.inverse_model() =~= inverse_add(
                        old(self).inverse_model(),
                        id_def_pos@,
                        user_pos@,
                    ));
                }
            },
        }
        proof {
            assert(self.memo_model() =~= old(self).memo_model());
        }
    }
}

/// The registered (label, pattern) rows, in registration order.
pub open spec fn mapping_rows() -> Seq<(Seq<char>, Seq<char>)> {
    seq![
        ("固有名詞"@, "名詞,固有名詞,一般,*,*,*,*"@),
        ("組織"@, "名詞,固有名詞,組織,*,*,*,*"@),
        ("地名"@, "名詞,固有名詞,地名,*,*,*,*"@),
        ("地名"@, "名詞,固有名詞,国,*,*,*,*"@),
        ("地名"@, "名詞,接尾,地域,*,*,*,*"@),
        ("名"@, "名詞,固有名詞,人名,名,*,*,*"@),
        ("姓"@, "名詞,固有名詞,人名,姓,*,*,*"@),
        ("人名"@, "名詞,固有名詞,人名,*,*,*,*"@),
        ("接尾人名"@, "接尾辞,人名,*,*,*,*,*"@),
        ("接尾地名"@, "接尾辞,地名,*,*,*,*,*"@),
        ("動詞カ行五段"@, "動詞,一般,*,*,五段・カ行,*,*"@),
        ("動詞カ変"@, "動詞,一般,*,*,カ変,*,*"@),
        ("動詞サ行五段"@, "動詞,一般,*,*,五段・サ行,*,*"@),
        ("動詞ハ行四"@, "動詞,非自立,*,*,四段・ハ行,*,*"@),
        ("動詞マ行五段"@, "動詞,一般,*,*,五段・マ行,*,*"@),
        ("動詞ラ行五段"@, "動詞,一般,*,*,五段・ラ行,*,*"@),
        ("動詞ワ行五段"@, "動詞,自立,*,*,五段・ワ行,*,*"@),
        ("動詞一段"@, "動詞,一般,*,*,一段,*,*"@),
        ("動詞サ変"@, "動詞,一般,*,*,サ変,*,*"@),
        ("動詞ラ変"@, "動詞,自立,*,*,ラ変,*,*"@),
        ("動詞五段"@, "動詞,一般,*,*,五段,*,*"@),
        ("名詞サ変"@, "名詞,普通名詞,サ変可能,*,*,*,*"@),
        ("形容詞"@, "形容詞,一般,*,*,形容詞,*,*"@),
        ("フィラー"@, "感動詞,フィラー,*,*,*,*,*"@),
        ("BOS/EOS"@, "BOS/EOS,*,*,*,*,*,*"@),
        ("その他"@, "その他,*,*,*,*,*,*"@),
        ("感動詞"@, "感動詞,*,*,*,*,*,*"@),
        ("助詞"@, "助詞,*,*,*,*,*,*"@),
        ("助動詞"@, "助動詞,*,*,*,*,*,*"@),
        ("終助詞"@, "助詞,終助詞,*,*,*,*,*"@),
        ("名詞"@, "名詞,普通名詞,*,*,*,*,*"@),
        ("固有名詞"@, "名詞,固有名詞,*,*,*,*,*"@),
        ("数"@, "名詞,数詞,*,*,*,*,*"@),
        ("助数詞"@, "名詞,数詞,*,*,*,*,*"@),
        ("接尾一般"@, "接尾辞,*,*,*,*,*,*"@),
        ("接続詞"@, "接続詞,*,*,*,*,*,*"@),
        ("接頭語"@, "接頭辞,*,*,*,*,*,*"@),
        ("副詞"@, "副詞,*,*,*,*,*,*"@),
        ("形容詞"@, "形容詞,*,*,*,*,*,*"@),
        ("記号"@, "補助記号,*,*,*,*,*,*"@),
        ("名詞形動"@, "形状詞,*,*,*,*,*,*"@),
        ("連体詞"@, "連体詞,*,*,*,*,*,*"@),
        ("動詞"@, "動詞,*,*,*,*,*,*"@),
        ("記号"@, "記号,*,*,*,*,*,*"@),
    ]
}

/// The inverse table after registering the first `n` rows.
pub open spec fn built_inverse(rows: Seq<(Seq<char>, Seq<char>)>, n: int) -> Seq<
    (Seq<char>, Seq<char>),
>
    decreases n,
{
    if n <= 0 {
        Seq::<(Seq<char>, Seq<char>)>::empty()
    } else {
        inverse_add(built_inverse(rows, n - 1), rows[n - 1].1, rows[n - 1].0)
    }
}

/// The forward table after registering the first `n` rows.
pub open spec fn built_forward(rows: Seq<(Seq<char>, Seq<char>)>, n: int) -> Seq<
    (Seq<char>, Seq<Seq<char>>),
>
    decreases n,
{
    if n <= 0 {
        Seq::<(Seq<char>, Seq<Seq<char>>)>::empty()
    } else {
        forward_add(built_forward(rows, n - 1), rows[n - 1].0, rows[n - 1].1)
    }
}

/// Builds the fixed mapping between user-dictionary labels and canonical
/// classification patterns.
pub fn create_pos_mapping() -> (m: PosMapping)
    ensures
        m.inverse_model() == built_inverse(mapping_rows(), mapping_rows().len() as int),
        m.forward_model() == built_forward(mapping_rows(), mapping_rows().len() as int),
        m.memo_model() == Seq::<(int, Seq<char>)>::empty(),
{
    let mut mapping = PosMapping::new();
    proof {
        assert(mapping.inverse_model() =~= built_inverse(mapping_rows(), 0));
        assert(mapping.forward_model() =~= built_forward(mapping_rows(), 0));
    }
    mapping.add_mapping("固有名詞", "名詞,固有名詞,一般,*,*,*,*");
    proof {
        assert(mapping_rows()[0] == ("固有名詞"@, "名詞,固有名詞,一般,*,*,*,*"@));
        assert(mapping.inverse_model() == built_inverse(mapping_rows(), 1));
        assert(mapping.forward_model() == built_forward(mapping_rows(), 1));
    }
    mapping.add_mapping("組織", "名詞,固有名詞,組織,*,*,*,*");
    proof {
        assert(mapping_rows()[1] == ("組織"@, "名詞,固有名詞,組織,*,*,*,*"@));
        assert(mapping.inverse_model() == built_inverse(mapping_rows(), 2));
        assert(mapping.forward_model() == built_forward(mapping_rows(), 2));
    }
    mapping.add_mapping("地名", "名詞,固有名詞,地名,*,*,*,*");
    proof {
        assert(mapping_rows()[2] == ("地名"@, "名詞,固有名詞,地名,*,*,*,*"@));
        assert(mapping.inverse_model() == built_inverse(mapping_rows(), 3));
        assert(mapping.forward_model() == built_forward(mapping_rows(), 3));
    }
    mapping.add_mapping("地名", "名詞,固有名詞,国,*,*,*,*");
    proof {
        assert(mapping_rows()[3] == ("地名"@, "名詞,固有名詞,国,*,*,*,*"@));
        assert(mapping.inverse_model() == built_inverse(mapping_rows(), 4));
        assert(mapping.forward_model() == built_forward(mapping_rows(), 4));
    }
    mapping.add_mapping("地名", "名詞,接尾,地域,*,*,*,*");
    proof {
        assert(mapping_rows()[4] == ("地名"@, "名詞,接尾,地域,*,*,*,*"@));
        assert(mapping.inverse_model() == built_inverse(mapping_rows(), 5));
        assert(mapping.forward_model() == built_forward(mapping_rows(), 5));
    }
    mapping.add_mapping("名", "名詞,固有名詞,人名,名,*,*,*");
    proof {
        assert(mapping_rows()[5] == ("名"@, "名詞,固有名詞,人名,名,*,*,*"@));
        assert(mapping.inverse_model() == built_inverse(mapping_rows(), 6));
        assert(mapping.forward_model() == built_forward(mapping_rows(), 6));
    }
    mapping.add_mapping("姓", "名詞,固有名詞,人名,姓,*,*,*");
    proof {
        assert(mapping_rows()[6] == ("姓"@, "名詞,固有名詞,人名,姓,*,*,*"@));
        assert(mapping.inverse_model() == built_inverse(mapping_rows(), 7));
        assert(mapping.forward_model() == built_forward(mapping_rows(), 7));
    }
    mapping.add_mapping("人名", "名詞,固有名詞,人名,*,*,*,*");
    proof {
        assert(mapping_rows()[7] == ("人名"@, "名詞,固有名詞,人名,*,*,*,*"@));
        assert(mapping.inverse_model() == built_inverse(mapping_rows(), 8));
        assert(mapping.forward_model() == built_forward(mapping_rows(), 8));
    }
    mapping.add_mapping("接尾人名", "接尾辞,人名,*,*,*,*,*");
    proof {
        assert(mapping_rows()[8] == ("接尾人名"@, "接尾辞,人名,*,*,*,*,*"@));
        assert(mapping.inverse_model() == built_inverse(mapping_rows(), 9));
        assert(mapping.forward_model() == built_forward(mapping_rows(), 9));
    }
    mapping.add_mapping("接尾地名", "接尾辞,地名,*,*,*,*,*");
    proof {
        assert(mapping_rows()[9] == ("接尾地名"@, "接尾辞,地名,*,*,*,*,*"@));
        assert(mapping.inverse_model() == built_inverse(mapping_rows(), 10));
        assert(mapping.forward_model() == built_forward(mapping_rows(), 10));
    }
    mapping.add_mapping("動詞カ行五段", "動詞,一般,*,*,五段・カ行,*,*");
    proof {
        assert(mapping_rows()[10] == ("動詞カ行五段"@, "動詞,一般,*,*,五段・カ行,*,*"@));
        assert(mapping.inverse_model() == built_inverse(mapping_rows(), 11));
        assert(mapping.forward_model() == built_forward(mapping_rows(), 11));
    }
    mapping.add_mapping("動詞カ変", "動詞,一般,*,*,カ変,*,*");
    proof {
        assert(mapping_rows()[11] == ("動詞カ変"@, "動詞,一般,*,*,カ変,*,*"@));
        assert(mapping.inverse_model() == built_inverse(mapping_rows(), 12));
        assert(mapping.forward_model() == built_forward(mapping_rows(), 12));
    }
    mapping.add_mapping("動詞サ行五段", "動詞,一般,*,*,五段・サ行,*,*");
    proof {
        assert(mapping_rows()[12] == ("動詞サ行五段"@, "動詞,一般,*,*,五段・サ行,*,*"@));
        assert(mapping.inverse_model() == built_inverse(mapping_rows(), 13));
        assert(mapping.forward_model() == built_forward(mapping_rows(), 13));
    }
    mapping.add_mapping("動詞ハ行四", "動詞,非自立,*,*,四段・ハ行,*,*");
    proof {
        assert(mapping_rows()[13] == ("動詞ハ行四"@, "動詞,非自立,*,*,四段・ハ行,*,*"@));
        assert(mapping.inverse_model() == built_inverse(mapping_rows(), 14));
        assert(mapping.forward_model() == built_forward(mapping_rows(), 14));
    }
    mapping.add_mapping("動詞マ行五段", "動詞,一般,*,*,五段・マ行,*,*");
    proof {
        assert(mapping_rows()[14] == ("動詞マ行五段"@, "動詞,一般,*,*,五段・マ行,*,*"@));
        assert(mapping.inverse_model() == built_inverse(mapping_rows(), 15));
        assert(mapping.forward_model() == built_forward(mapping_rows(), 15));
    }
    mapping.add_mapping("動詞ラ行五段", "動詞,一般,*,*,五段・ラ行,*,*");
    proof {
        assert(mapping_rows()[15] == ("動詞ラ行五段"@, "動詞,一般,*,*,五段・ラ行,*,*"@));
        assert(mapping.inverse_model() == built_inverse(mapping_rows(), 16));
        assert(mapping.forward_model() == built_forward(mapping_rows(), 16));
    }
    mapping.add_mapping("動詞ワ行五段", "動詞,自立,*,*,五段・ワ行,*,*");
    proof {
        assert(mapping_rows()[16] == ("動詞ワ行五段"@, "動詞,自立,*,*,五段・ワ行,*,*"@));
        assert(mapping.inverse_model() == built_inverse(mapping_rows(), 17));
        assert(mapping.forward_model() == built_forward(mapping_rows(), 17));
    }
    mapping.add_mapping("動詞一段", "動詞,一般,*,*,一段,*,*");
    proof {
        assert(mapping_rows()[17] == ("動詞一段"@, "動詞,一般,*,*,一段,*,*"@));
        assert(mapping.inverse_model() == built_inverse(mapping_rows(), 18));
        assert(mapping.forward_model() == built_forward(mapping_rows(), 18));
    }
    mapping.add_mapping("動詞サ変", "動詞,一般,*,*,サ変,*,*");
    proof {
        assert(mapping_rows()[18] == ("動詞サ変"@, "動詞,一般,*,*,サ変,*,*"@));
        assert(mapping.inverse_model() == built_inverse(mapping_rows(), 19));
        assert(mapping.forward_model() == built_forward(mapping_rows(), 19));
    }
    mapping.add_mapping("動詞ラ変", "動詞,自立,*,*,ラ変,*,*");
    proof {
        assert(mapping_rows()[19] == ("動詞ラ変"@, "動詞,自立,*,*,ラ変,*,*"@));
        assert(mapping.inverse_model() == built_inverse(mapping_rows(), 20));
        assert(mapping.forward_model() == built_forward(mapping_rows(), 20));
    }
    mapping.add_mapping("動詞五段", "動詞,一般,*,*,五段,*,*");
    proof {
        assert(mapping_rows()[20] == ("動詞五段"@, "動詞,一般,*,*,五段,*,*"@));
        assert(mapping.inverse_model() == built_inverse(mapping_rows(), 21));
        assert(mapping.forward_model() == built_forward(mapping_rows(), 21));
    }
    mapping.add_mapping("名詞サ変", "名詞,普通名詞,サ変可能,*,*,*,*");
    proof {
        assert(mapping_rows()[21] == ("名詞サ変"@, "名詞,普通名詞,サ変可能,*,*,*,*"@));
        assert(mapping.inverse_model() == built_inverse(mapping_rows(), 22));
        assert(mapping.forward_model() == built_forward(mapping_rows(), 22));
    }
    mapping.add_mapping("形容詞", "形容詞,一般,*,*,形容詞,*,*");
    proof {
        assert(mapping_rows()[22] == ("形容詞"@, "形容詞,一般,*,*,形容詞,*,*"@));
        assert(mapping.inverse_model() == built_inverse(mapping_rows(), 23));
        assert(mapping.forward_model() == built_forward(mapping_rows(), 23));
    }
    mapping.add_mapping("フィラー", "感動詞,フィラー,*,*,*,*,*");
    proof {
        assert(mapping_rows()[23] == ("フィラー"@, "感動詞,フィラー,*,*,*,*,*"@));
        assert(mapping.inverse_model() == built_inverse(mapping_rows(), 24));
        assert(mapping.forward_model() == built_forward(mapping_rows(), 24));
    }
    mapping.add_mapping("BOS/EOS", "BOS/EOS,*,*,*,*,*,*");
    proof {
        assert(mapping_rows()[24] == ("BOS/EOS"@, "BOS/EOS,*,*,*,*,*,*"@));
        assert(mapping.inverse_model() == built_inverse(mapping_rows(), 25));
        assert(mapping.forward_model() == built_forward(mapping_rows(), 25));
    }
    mapping.add_mapping("その他", "その他,*,*,*,*,*,*");
    proof {
        assert(mapping_rows()[25] == ("その他"@, "その他,*,*,*,*,*,*"@));
        assert(mapping.inverse_model() == built_inverse(mapping_rows(), 26));
        assert(mapping.forward_model() == built_forward(mapping_rows(), 26));
    }
    mapping.add_mapping("感動詞", "感動詞,*,*,*,*,*,*");
    proof {
        assert(mapping_rows()[26] == ("感動詞"@, "感動詞,*,*,*,*,*,*"@));
        assert(mapping.inverse_model() == built_inverse(mapping_rows(), 27));
        assert(mapping.forward_model() == built_forward(mapping_rows(), 27));
    }
    mapping.add_mapping("助詞", "助詞,*,*,*,*,*,*");
    proof {
        assert(mapping_rows()[27] == ("助詞"@, "助詞,*,*,*,*,*,*"@));
        assert(mapping.inverse_model() == built_inverse(mapping_rows(), 28));
        assert(mapping.forward_model() == built_forward(mapping_rows(), 28));
    }
    mapping.add_mapping("助動詞", "助動詞,*,*,*,*,*,*");
    proof {
        assert(mapping_rows()[28] == ("助動詞"@, "助動詞,*,*,*,*,*,*"@));
        assert(mapping.inverse_model() == built_inverse(mapping_rows(), 29));
        assert(mapping.forward_model() == built_forward(mapping_rows(), 29));
    }
    mapping.add_mapping("終助詞", "助詞,終助詞,*,*,*,*,*");
    proof {
        assert(mapping_rows()[29] == ("終助詞"@, "助詞,終助詞,*,*,*,*,*"@));
        assert(mapping.inverse_model() == built_inverse(mapping_rows(), 30));
        assert(mapping.forward_model() == built_forward(mapping_rows(), 30));
    }
    mapping.add_mapping("名詞", "名詞,普通名詞,*,*,*,*,*");
    proof {
        assert(mapping_rows()[30] == ("名詞"@, "名詞,普通名詞,*,*,*,*,*"@));
        assert(mapping.inverse_model() == built_inverse(mapping_rows(), 31));
        assert(mapping.forward_model() == built_forward(mapping_rows(), 31));
    }
    mapping.add_mapping("固有名詞", "名詞,固有名詞,*,*,*,*,*");
    proof {
        assert(mapping_rows()[31] == ("固有名詞"@, "名詞,固有名詞,*,*,*,*,*"@));
        assert(mapping.inverse_model() == built_inverse(mapping_rows(), 32));
        assert(mapping.forward_model() == built_forward(mapping_rows(), 32));
    }
    mapping.add_mapping("数", "名詞,数詞,*,*,*,*,*");
    proof {
        assert(mapping_rows()[32] == ("数"@, "名詞,数詞,*,*,*,*,*"@));
        assert(mapping.inverse_model() == built_inverse(mapping_rows(), 33));
        assert(mapping.forward_model() == built_forward(mapping_rows(), 33));
    }
    mapping.add_mapping("助数詞", "名詞,数詞,*,*,*,*,*");
    proof {
        assert(mapping_rows()[33] == ("助数詞"@, "名詞,数詞,*,*,*,*,*"@));
        assert(mapping.inverse_model() == built_inverse(mapping_rows(), 34));
        assert(mapping.forward_model() == built_forward(mapping_rows(), 34));
    }
    mapping.add_mapping("接尾一般", "接尾辞,*,*,*,*,*,*");
    proof {
        assert(mapping_rows()[34] == ("接尾一般"@, "接尾辞,*,*,*,*,*,*"@));
        assert(mapping.inverse_model() == built_inverse(mapping_rows(), 35));
        assert(mapping.forward_model() == built_forward(mapping_rows(), 35));
    }
    mapping.add_mapping("接続詞", "接続詞,*,*,*,*,*,*");
    proof {
        assert(mapping_rows()[35] == ("接続詞"@, "接続詞,*,*,*,*,*,*"@));
        assert(mapping.inverse_model() == built_inverse(mapping_rows(), 36));
        assert(mapping.forward_model() == built_forward(mapping_rows(), 36));
    }
    mapping.add_mapping("接頭語", "接頭辞,*,*,*,*,*,*");
    proof {
        assert(mapping_rows()[36] == ("接頭語"@, "接頭辞,*,*,*,*,*,*"@));
        assert(mapping.inverse_model() == built_inverse(mapping_rows(), 37));
        assert(mapping.forward_model() == built_forward(mapping_rows(), 37));
    }
    mapping.add_mapping("副詞", "副詞,*,*,*,*,*,*");
    proof {
        assert(mapping_rows()[37] == ("副詞"@, "副詞,*,*,*,*,*,*"@));
        assert(mapping.inverse_model() == built_inverse(mapping_rows(), 38));
        assert(mapping.forward_model() == built_forward(mapping_rows(), 38));
    }
    mapping.add_mapping("形容詞", "形容詞,*,*,*,*,*,*");
    proof {
        assert(mapping_rows()[38] == ("形容詞"@, "形容詞,*,*,*,*,*,*"@));
        assert(mapping.inverse_model() == built_inverse(mapping_rows(), 39));
        assert(mapping.forward_model() == built_forward(mapping_rows(), 39));
    }
    mapping.add_mapping("記号", "補助記号,*,*,*,*,*,*");
    proof {
        assert(mapping_rows()[39] == ("記号"@, "補助記号,*,*,*,*,*,*"@));
        assert(mapping.inverse_model() == built_inverse(mapping_rows(), 40));
        assert(mapping.forward_model() == built_forward(mapping_rows(), 40));
    }
    mapping.add_mapping("名詞形動", "形状詞,*,*,*,*,*,*");
    proof {
        assert(mapping_rows()[40] == ("名詞形動"@, "形状詞,*,*,*,*,*,*"@));
        assert(mapping.inverse_model() == built_inverse(mapping_rows(), 41));
        assert(mapping.forward_model() == built_forward(mapping_rows(), 41));
    }
    mapping.add_mapping("連体詞", "連体詞,*,*,*,*,*,*");
    proof {
        assert(mapping_rows()[41] == ("連体詞"@, "連体詞,*,*,*,*,*,*"@));
        assert(mapping.inverse_model() == built_inverse(mapping_rows(), 42));
        assert(mapping.forward_model() == built_forward(mapping_rows(), 42));
    }
    mapping.add_mapping("動詞", "動詞,*,*,*,*,*,*");
    proof {
        assert(mapping_rows()[42] == ("動詞"@, "動詞,*,*,*,*,*,*"@));
        assert(mapping.inverse_model() == built_inverse(mapping_rows(), 43));
        assert(mapping.forward_model() == built_forward(mapping_rows(), 43));
    }
    mapping.add_mapping("記号", "記号,*,*,*,*,*,*");
    proof {
        assert(mapping_rows()[43] == ("記号"@, "記号,*,*,*,*,*,*"@));
        assert(mapping.inverse_model() == built_inverse(mapping_rows(), 44));
        assert(mapping.forward_model() == built_forward(mapping_rows(), 44));
    }
    mapping
}

/// The full registered label table.
pub open spec fn coarse_table() -> Seq<(Seq<char>, Seq<char>)> {
    built_inverse(mapping_rows(), mapping_rows().len() as int)
}

pub open spec fn symbol_cat_a() -> Seq<char> {
    "記号"@
}

pub open spec fn symbol_cat_b() -> Seq<char> {
    "補助記号"@
}

/// Whether the expression's major category is one of the two symbol
/// categories.
pub open spec fn is_symbol_head(parts: Seq<Seq<char>>) -> bool {
    parts.len() > 0 && (parts[0] == symbol_cat_a() || parts[0] == symbol_cat_b())
}

/// The label of the first registered pattern whose major category is the
/// symbol category, from row `i` on.
pub open spec fn symbol_label_from(pairs: Seq<(Seq<char>, Seq<char>)>, i: int) -> Option<Seq<char>>
    decreases pairs.len() - i,
{
    if i < 0 || i >= pairs.len() {
        None
    } else if split_fields(pairs[i].0)[0] == symbol_cat_a() {
        Some(pairs[i].1)
    } else {
        symbol_label_from(pairs, i + 1)
    }
}

/// The head rule of the coarse scorer: the leading two fields must each
/// match literally or be a wildcard in the pattern.
pub open spec fn coarse_head_match(parts: Seq<Seq<char>>, kparts: Seq<Seq<char>>) -> bool {
    parts.len() >= 2 && kparts.len() >= 2 && (kparts[0] == wildcard_field() || parts[0]
        == kparts[0]) && (kparts[1] == wildcard_field() || parts[1] == kparts[1])
}

/// The match count a label pattern earns against an expression, or `None`
/// when it is rejected: the matcher's walk and verb bonus, under the
/// permissive head rule, with proper nouns held to a count of at least four.
pub open spec fn coarse_score(parts: Seq<Seq<char>>, kparts: Seq<Seq<char>>) -> Option<int> {
    if !coarse_head_match(parts, kparts) {
        None
    } else if !walk_valid(parts, kparts, 2) {
        None
    } else {
        let total = 2 + walk_count(parts, kparts, 2) + (if parts[0] == verb_cat() {
            verb_bonus(parts, kparts)
        } else {
            0
        });
        if parts[0] == noun_cat() && parts[1] == proper_noun_cat() && total < 4 {
            None
        } else {
            Some(total)
        }
    }
}

/// The best (score, row position) among the first `n` registered patterns:
/// higher score wins, an earlier row keeps a tie.
pub open spec fn coarse_best(
    parts: Seq<Seq<char>>,
    pairs: Seq<(Seq<char>, Seq<char>)>,
    n: int,
) -> Option<(int, int)>
    decreases n,
{
    if n <= 0 {
        None
    } else {
        let prev = coarse_best(parts, pairs, n - 1);
        match coarse_score(parts, split_fields(pairs[n - 1].0)) {
            Some(sc) => if prev is None || sc > (prev->0).0 {
                Some((sc, n - 1))
            } else {
                prev
            },
            None => prev,
        }
    }
}

/// What coarse-label resolution returns for an id: nothing when no reference
/// row carries the id; the first symbol label when the found expression names
/// a symbol category; else the best-scoring registered label, if any.
pub open spec fn coarse_label(
    entries: Seq<(Seq<char>, int)>,
    pairs: Seq<(Seq<char>, Seq<char>)>,
    id: int,
) -> Option<Seq<char>> {
    match reverse_lookup(entries, id) {
        None => None,
        Some(pos) => {
            let parts = split_fields(pos);
            if is_symbol_head(parts) {
                symbol_label_from(pairs, 0)
            } else {
                match coarse_best(parts, pairs, pairs.len() as int) {
                    Some(p) => Some(pairs[p.1].1),
                    None => None,
                }
            }
        },
    }
}

/// The label of the first memo row from `i` on carrying `id`.
pub open spec fn memo_lookup_from(memo: Seq<(int, Seq<char>)>, id: int, i: int) -> Option<
    Seq<char>,
>
    decreases memo.len() - i,
{
    if i < 0 || i >= memo.len() {
        None
    } else if memo[i].0 == id {
        Some(memo[i].1)
    } else {
        memo_lookup_from(memo, id, i + 1)
    }
}

/// Every memo row records exactly what resolution returns for its id.
pub open spec fn memo_coherent(
    memo: Seq<(int, Seq<char>)>,
    entries: Seq<(Seq<char>, int)>,
    pairs: Seq<(Seq<char>, Seq<char>)>,
) -> bool {
    forall|i: int|
        0 <= i < memo.len() ==> coarse_label(entries, pairs, (#[trigger] memo[i]).0) == Some(
            memo[i].1,
        )
}

fn coarse_score_exec(parts: &Vec<Vec<char>>, kparts: &Vec<Vec<char>>) -> (r: Option<u128>)
    ensures
        r is Some ==> coarse_score(parts.deep_view(), kparts.deep_view()) == Some(r->0 as int),
        r is None ==> coarse_score(parts.deep_view(), kparts.deep_view()) is None,
{
    let ghost pv = parts.deep_view();
    let ghost kv = kparts.deep_view();
    proof {
        lemma_fields_deep_view(parts);
        lemma_fields_deep_view(kparts);
    }
    if parts.len() < 2 || kparts.len() < 2 {
        return None;
    }
    if !(is_wildcard(&kparts[0]) || chars_eq(&parts[0], &kparts[0])) {
        return None;
    }
    if !(is_wildcard(&kparts[1]) || chars_eq(&parts[1], &kparts[1])) {
        return None;
    }
    let walk = walk_fields_exec(parts, kparts);
    let acc: u128 = walk.0;
    if !walk.1 {
        return None;
    }
    let is_verb = str_field_is(parts, 0, "動詞");
    let bonus: u8 = if is_verb {
        let empty_vt: Vec<char> = Vec::new();
        if parts.len() > 4 {
            verb_bonus_exec(parts, kparts, &parts[4])
        } else {
            verb_bonus_exec(parts, kparts, &empty_vt)
        }
    } else {
        0
    };
    let total: u128 = 2 + acc + (bonus as u128);
    if str_field_is(parts, 0, "名詞") && str_field_is(parts, 1, "固有名詞") && total < 4 {
        return None;
    }
    Some(total)
}

fn find_pos_expr(id_def: &TaxonomyIndex, id: i32) -> (r: Option<String>)
    ensures
        match r {
            Some(s) => reverse_lookup(id_def.model(), id as int) == Some(s@),
            None => reverse_lookup(id_def.model(), id as int) is None,
        },
{
    let mut i: usize = 0;
    while i < id_def.entries.len()
        invariant
            i <= id_def.entries@.len(),
            reverse_lookup(id_def.model(), id as int) == reverse_lookup_from(
                id_def.model(),
                id as int,
                i as int,
            ),
        decreases id_def.entries@.len() - i,
    {
        if id_def.entries[i].id == id {
            return Some(id_def.entries[i].expr.clone());
        }
        i = i + 1;
    }
    None
}

/// Resolves a canonical id to its coarse user-dictionary label, if one can
/// be found: memo hit first; else a reverse lookup of the id in the
/// reference table, the symbol shortcut, or the best-scoring registered
/// label.  A found label is memoized.
#[verifier::loop_isolation(false)]
pub fn get_user_pos_by_id(
    mapping: &mut PosMapping,
    id_def: &TaxonomyIndex,
    hinshi_id: i32,
) -> (r: Option<String>)
    requires
        memo_coherent(old(mapping).memo_model(), id_def.model(), old(mapping).inverse_model()),
    ensures
        final(mapping).inverse_model() == old(mapping).inverse_model(),
        final(mapping).forward_model() == old(mapping).forward_model(),
        memo_coherent(final(mapping).memo_model(), id_def.model(), final(mapping).inverse_model()),
        (match r {
            Some(s) => coarse_label(
                id_def.model(),
                old(mapping).inverse_model(),
                hinshi_id as int,
            ) == Some(s@),
            None => coarse_label(
                id_def.model(),
                old(mapping).inverse_model(),
                hinshi_id as int,
            ) is None,
        }),
        r is None ==> final(mapping).memo_model() == old(mapping).memo_model(),
        memo_lookup_from(old(mapping).memo_model(), hinshi_id as int, 0) is Some ==> final(mapping).memo_model() == old(mapping).memo_model(),
        memo_lookup_from(old(mapping).memo_model(), hinshi_id as int, 0) is None && r is Some
            ==> final(mapping).memo_model() == old(mapping).memo_model().push(
            (
                hinshi_id as int,
                coarse_label(id_def.model(), old(mapping).inverse_model(), hinshi_id as int)->0,
            ),
        ),
{
    let ghost entries = id_def.model();
    let ghost pairs = old(mapping).inverse_model();
    let ghost memo0 = old(mapping).memo_model();
    let mut i: usize = 0;
    while i < mapping.id_to_user_pos_cache.len()
        invariant
            mapping == old(mapping),
            i <= mapping.id_to_user_pos_cache@.len(),
            memo_lookup_from(memo0, hinshi_id as int, 0) == memo_lookup_from(
                memo0,
                hinshi_id as int,
                i as int,
            ),
            memo0 == mapping.memo_model(),
        decreases mapping.id_to_user_pos_cache@.len() - i,
    {
        if mapping.id_to_user_pos_cache[i].0 == hinshi_id {
            let cached = mapping.id_to_user_pos_cache[i].1.clone();
            proof {
                assert(coarse_label(entries, pairs, memo0[i as int].0) == Some(memo0[i as int].1));
            }
            return Some(cached);
        }
        i = i + 1;
    }
    let pos = match find_pos_expr(id_def, hinshi_id) {
        Some(p) => p,
        None => {
            return None;
        },
    };
    let pos_chars = chars_of(pos.as_str());
    let parts_fields = split_commas(&pos_chars);
    let ghost parts_v = split_fields(pos@);
    proof {
        crate::text::lemma_split_fields_nonempty(pos@);
        lemma_fields_deep_view(&parts_fields);
    }
    let symbol = str_field_is(&parts_fields, 0, "記号") || str_field_is(&parts_fields, 0, "補助記号");
    if symbol {
        let mut j: usize = 0;
        while j < mapping.id_def_to_user.len()
            invariant
                mapping == old(mapping),
                j <= mapping.id_def_to_user@.len(),
                pairs == mapping.inverse_model(),
                symbol_label_from(pairs, 0) == symbol_label_from(pairs, j as int),
            decreases mapping.id_def_to_user@.len() - j,
        {
            let k_chars = chars_of(mapping.id_def_to_user[j].0.as_str());
            let k_fields = split_commas(&k_chars);
            proof {
                crate::text::lemma_split_fields_nonempty(pairs[j as int].0);
                lemma_fields_deep_view(&k_fields);
            }
            if str_field_is(&k_fields, 0, "記号") {
                let label = mapping.id_def_to_user[j].1.clone();
                let ghost prev_memo = mapping.memo_model();
                mapping.id_to_user_pos_cache.push((hinshi_id, label.clone()));
                proof {
                    assert(mapping.memo_model() =~= prev_memo.push(
                        (hinshi_id as int, label@),
                    ));
                    assert(coarse_label(entries, pairs, hinshi_id as int) == Some(label@));
                    assert forall|t: int|
                        0 <= t < mapping.memo_model().len() implies coarse_label(
                        entries,
                        pairs,
                        (#[trigger] mapping.memo_model()[t]).0,
                    ) == Some(mapping.memo_model()[t].1) by {
                        if t < prev_memo.len() {
                            assert(mapping.memo_model()[t] == prev_memo[t]);
                        }
                    }
                }
                return Some(label);
            }
            j = j + 1;
        }
        return None;
    }
    let mut have = false;
    let mut best_score: u128 = 0;
    let mut best_idx: usize = 0;
    let mut j: usize = 0;
    while j < mapping.id_def_to_user.len()
        invariant
            mapping == old(mapping),
            parts_fields.deep_view() == parts_v,
            pairs == mapping.inverse_model(),
            j <= mapping.id_def_to_user@.len(),
            !have ==> coarse_best(parts_v, pairs, j as int) is None,
            have ==> coarse_best(parts_v, pairs, j as int) == Some(
                (best_score as int, best_idx as int),
            ) && best_idx < j,
        decreases mapping.id_def_to_user@.len() - j,
    {
        let k_chars = chars_of(mapping.id_def_to_user[j].0.as_str());
        let k_fields = split_commas(&k_chars);
        proof {
            assert(k_fields.deep_view() == split_fields(pairs[j as int].0));
        }
        match coarse_score_exec(&parts_fields, &k_fields) {
            Some(sc) => {
                if !have || sc > best_score {
                    have = true;
                    best_score = sc;
                    best_idx = j;
                }
            },
            None => {},
        }
        j = j + 1;
    }
    if have {
        let label = mapping.id_def_to_user[best_idx].1.clone();
        let ghost prev_memo = mapping.memo_model();
        mapping.id_to_user_pos_cache.push((hinshi_id, label.clone()));
        proof {
            assert(mapping.memo_model() =~= prev_memo.push((hinshi_id as int, label@)));
            assert(coarse_label(entries, pairs, hinshi_id as int) == Some(label@));
            assert forall|t: int|
                0 <= t < mapping.memo_model().len() implies coarse_label(
                entries,
                pairs,
                (#[trigger] mapping.memo_model()[t]).0,
            ) == Some(mapping.memo_model()[t].1) by {
                if t < prev_memo.len() {
                    assert(mapping.memo_model()[t] == prev_memo[t]);
                }
            }
        }
        Some(label)
    } else {
        None
    }
}

/// Resolves a canonical id to its coarse label for user-dictionary output.
pub fn u_search_key(
    mapping: &mut PosMapping,
    id_def: &TaxonomyIndex,
    hinshi_id: i32,
) -> (r: Option<String>)
    requires
        memo_coherent(old(mapping).memo_model(), id_def.model(), old(mapping).inverse_model()),
    ensures
        final(mapping).inverse_model() == old(mapping).inverse_model(),
        final(mapping).forward_model() == old(mapping).forward_model(),
        memo_coherent(final(mapping).memo_model(), id_def.model(), final(mapping).inverse_model()),
        (match r {
            Some(s) => coarse_label(
                id_def.model(),
                old(mapping).inverse_model(),
                hinshi_id as int,
            ) == Some(s@),
            None => coarse_label(
                id_def.model(),
                old(mapping).inverse_model(),
                hinshi_id as int,
            ) is None,
        }),
{
    get_user_pos_by_id(mapping, id_def, hinshi_id)
}

/// The label scan's winner, when there is one, is a scored registered
/// pattern.
pub proof fn lemma_coarse_best_scored(parts: Seq<Seq<char>>, pairs: Seq<(Seq<char>, Seq<char>)>, n: int)
    requires
        0 <= n <= pairs.len(),
        coarse_best(parts, pairs, n) is Some,
    ensures
        ({
            let p = coarse_best(parts, pairs, n)->0;
            &&& 0 <= p.1 < n
            &&& coarse_score(parts, split_fields(pairs[p.1].0)) == Some(p.0)
        }),
    decreases n,
{
    if n > 0 {
        if coarse_best(parts, pairs, n - 1) is Some {
            lemma_coarse_best_scored(parts, pairs, n - 1);
        }
    }
}

/// The label scan picks a highest-scoring registered pattern, and of the
/// patterns reaching that score, the earliest registered.
pub proof fn lemma_coarse_best_maximal(
    parts: Seq<Seq<char>>,
    pairs: Seq<(Seq<char>, Seq<char>)>,
    n: int,
    j: int,
)
    requires
        0 <= j < n <= pairs.len(),
        coarse_score(parts, split_fields(pairs[j].0)) is Some,
    ensures
        coarse_best(parts, pairs, n) is Some,
        coarse_score(parts, split_fields(pairs[j].0))->0 <= (coarse_best(parts, pairs, n)->0).0,
        j < (coarse_best(parts, pairs, n)->0).1 ==> coarse_score(
            parts,
            split_fields(pairs[j].0),
        )->0 < (coarse_best(parts, pairs, n)->0).0,
    decreases n,
{
    if j < n - 1 {
        lemma_coarse_best_maximal(parts, pairs, n - 1, j);
        lemma_coarse_best_scored(parts, pairs, n - 1);
    } else {
        if coarse_best(parts, pairs, n - 1) is Some {
            lemma_coarse_best_scored(parts, pairs, n - 1);
        }
    }
}

proof fn lemma_symbol_label_first_from(
    pairs: Seq<(Seq<char>, Seq<char>)>,
    i: int,
    j: int,
)
    requires
        0 <= i <= j < pairs.len(),
        split_fields(pairs[j].0)[0] == symbol_cat_a(),
        forall|t: int| 0 <= t < j ==> split_fields((#[trigger] pairs[t]).0)[0] != symbol_cat_a(),
    ensures
        symbol_label_from(pairs, i) == Some(pairs[j].1),
    decreases j - i,
{
    if i < j {
        lemma_symbol_label_first_from(pairs, i + 1, j);
    }
}

/// Symbol ids collapse to the one symbol label: whenever the reference row
/// found for an id names a symbol category — whatever its deeper fields —
/// the resolver returns the label of the first registered symbol-headed
/// pattern, bypassing scoring entirely.
pub proof fn lemma_symbol_ids_resolve_to_symbol_label(
    entries: Seq<(Seq<char>, int)>,
    pairs: Seq<(Seq<char>, Seq<char>)>,
    id: int,
    j: int,
)
    requires
        reverse_lookup(entries, id) is Some,
        is_symbol_head(split_fields(reverse_lookup(entries, id)->0)),
        0 <= j < pairs.len(),
        split_fields(pairs[j].0)[0] == symbol_cat_a(),
        forall|t: int| 0 <= t < j ==> split_fields((#[trigger] pairs[t]).0)[0] != symbol_cat_a(),
    ensures
        coarse_label(entries, pairs, id) == Some(pairs[j].1),
{
    lemma_symbol_label_first_from(pairs, 0, j);
}

} // verus!
