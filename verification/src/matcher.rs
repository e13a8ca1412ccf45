//! The classification matcher: resolves a wildcard-bearing part-of-speech
//! expression to a canonical numeric id against the reference taxonomy table,
//! with an exact-match short circuit, a fuzzy scoring fallback and a per-run
//! resolution cache.

use vstd::prelude::*;

use crate::text::{
    chars_eq, chars_of, contains_sub, is_substring_of, lemma_fields_deep_view, split_commas,
    split_fields, str_eq,
};

verus! {

/// One canonical taxonomy row: a comma-joined classification expression and
/// its numeric id.
pub struct TaxonomyEntry {
    pub expr: String,
    pub id: i32,
}

/// The reference classification table, in load order.  Load order is the
/// iteration order of every scan, so ties resolve deterministically to the
/// earliest row.
pub struct TaxonomyIndex {
    pub entries: Vec<TaxonomyEntry>,
}

impl TaxonomyIndex {
    /// The mathematical content of the table: expression characters and id,
    /// row by row.
    pub open spec fn model(&self) -> Seq<(Seq<char>, int)> {
        Seq::new(self.entries@.len(), |i: int| (self.entries@[i].expr@, self.entries@[i].id as int))
    }

    pub fn new() -> (r: TaxonomyIndex)
        ensures
            r.model() == Seq::<(Seq<char>, int)>::empty(),
    {
        let r = TaxonomyIndex { entries: Vec::new() };
        proof {
            assert(r.model() =~= Seq::<(Seq<char>, int)>::empty());
        }
        r
    }
}

/// The single-character wildcard field.
pub open spec fn wildcard_field() -> Seq<char> {
    seq!['*']
}

/// A candidate row qualifies only when its first two fields equal the
/// input's first two fields exactly.
pub open spec fn qualifies(e: Seq<Seq<char>>, k: Seq<Seq<char>>) -> bool {
    e.len() >= 2 && k.len() >= 2 && e[0] == k[0] && e[1] == k[1]
}

/// The number of field pairs both walks can visit.
pub open spec fn min_len(e: Seq<Seq<char>>, k: Seq<Seq<char>>) -> int {
    if e.len() <= k.len() {
        e.len() as int
    } else {
        k.len() as int
    }
}

/// Matches gathered by walking field pairs from position `i` on: a wildcard
/// or literally equal candidate field counts one and the walk goes on; the
/// first other pair ends the walk, counting one more when either field
/// contains the other as a substring (never at the minor-category depth).
pub open spec fn walk_count(e: Seq<Seq<char>>, k: Seq<Seq<char>>, i: int) -> int
    decreases min_len(e, k) - i,
{
    if i < 0 || i >= min_len(e, k) {
        0
    } else if k[i] == wildcard_field() || e[i] == k[i] {
        1 + walk_count(e, k, i + 1)
    } else if i == 2 {
        0
    } else if is_substring_of(k[i], e[i]) || is_substring_of(e[i], k[i]) {
        1
    } else {
        0
    }
}

/// Whether the field walk from position `i` accepts the candidate: a
/// mismatch at the minor-category depth (position 2) that is neither a
/// wildcard nor a literal match rejects it outright.
pub open spec fn walk_valid(e: Seq<Seq<char>>, k: Seq<Seq<char>>, i: int) -> bool
    decreases min_len(e, k) - i,
{
    if i < 0 || i >= min_len(e, k) {
        true
    } else if k[i] == wildcard_field() || e[i] == k[i] {
        walk_valid(e, k, i + 1)
    } else {
        i != 2
    }
}

/// The verb conjugation families that earn a bonus point.
pub open spec fn verb_families() -> Seq<Seq<char>> {
    seq!["五段"@, "四段"@, "一段"@, "カ変"@, "サ変"@, "ラ変"@]
}

/// The input's conjugation-type field (position 4), or empty when absent.
pub open spec fn verb_type_field(e: Seq<Seq<char>>) -> Seq<char> {
    if e.len() > 4 {
        e[4]
    } else {
        Seq::<char>::empty()
    }
}

/// Whether one conjugation family occurs both in the input's
/// conjugation-type field and in some field of the candidate.
pub open spec fn family_applies(e: Seq<Seq<char>>, k: Seq<Seq<char>>, fam: Seq<char>) -> bool {
    is_substring_of(fam, verb_type_field(e)) && exists|j: int|
        0 <= j < k.len() && is_substring_of(fam, #[trigger] k[j])
}

/// One bonus point when any conjugation family is shared between the input
/// and the candidate.
pub open spec fn verb_bonus(e: Seq<Seq<char>>, k: Seq<Seq<char>>) -> int {
    if exists|f: int|
        0 <= f < verb_families().len() && family_applies(e, k, #[trigger] verb_families()[f]) {
        1
    } else {
        0
    }
}

pub open spec fn noun_cat() -> Seq<char> {
    "名詞"@
}

pub open spec fn proper_noun_cat() -> Seq<char> {
    "固有名詞"@
}

pub open spec fn verb_cat() -> Seq<char> {
    "動詞"@
}

/// The match count of a candidate against an input, or `None` when the
/// candidate is rejected.  The two guaranteed leading fields count two; the
/// field walk adds the rest; verbs may earn a conjugation-family bonus;
/// proper nouns need a count of at least three.
pub open spec fn candidate_score(e: Seq<Seq<char>>, k: Seq<Seq<char>>) -> Option<int> {
    if !qualifies(e, k) {
        None
    } else if !walk_valid(e, k, 2) {
        None
    } else {
        let total = 2 + walk_count(e, k, 2) + (if e[0] == verb_cat() {
            verb_bonus(e, k)
        } else {
            0
        });
        if e[0] == noun_cat() && e[1] == proper_noun_cat() && total < 3 {
            None
        } else {
            Some(total)
        }
    }
}

/// The score a taxonomy row earns against input fields `e`.
pub open spec fn entry_score(e: Seq<Seq<char>>, ent: (Seq<char>, int)) -> Option<int> {
    candidate_score(e, split_fields(ent.0))
}

/// The best (score, row position) among the first `n` rows: higher score
/// wins, an earlier row keeps a tie.
pub open spec fn best_upto(e: Seq<Seq<char>>, entries: Seq<(Seq<char>, int)>, n: int) -> Option<
    (int, int),
>
    decreases n,
{
    if n <= 0 {
        None
    } else {
        let prev = best_upto(e, entries, n - 1);
        match entry_score(e, entries[n - 1]) {
            Some(sc) => if prev is None || sc > (prev->0).0 {
                Some((sc, n - 1))
            } else {
                prev
            },
            None => prev,
        }
    }
}

/// The id of the first row from position `i` on whose expression equals
/// `key`, if any.
pub open spec fn exact_lookup_from(
    entries: Seq<(Seq<char>, int)>,
    key: Seq<char>,
    i: int,
) -> Option<int>
    decreases entries.len() - i,
{
    if i < 0 || i >= entries.len() {
        None
    } else if entries[i].0 == key {
        Some(entries[i].1)
    } else {
        exact_lookup_from(entries, key, i + 1)
    }
}

/// The id of the first row whose expression equals `key`, if any.
pub open spec fn exact_lookup(entries: Seq<(Seq<char>, int)>, key: Seq<char>) -> Option<int> {
    exact_lookup_from(entries, key, 0)
}

/// The expression of the first row from position `i` on whose id equals
/// `id`, if any.
pub open spec fn reverse_lookup_from(
    entries: Seq<(Seq<char>, int)>,
    id: int,
    i: int,
) -> Option<Seq<char>>
    decreases entries.len() - i,
{
    if i < 0 || i >= entries.len() {
        None
    } else if entries[i].1 == id {
        Some(entries[i].0)
    } else {
        reverse_lookup_from(entries, id, i + 1)
    }
}

/// The expression of the first row whose id equals `id`, if any.
pub open spec fn reverse_lookup(entries: Seq<(Seq<char>, int)>, id: int) -> Option<Seq<char>> {
    reverse_lookup_from(entries, id, 0)
}

/// The id the fuzzy scan yields: the best-scoring row's id, or the default
/// when no row qualifies.
pub open spec fn fuzzy_id(key: Seq<char>, entries: Seq<(Seq<char>, int)>, default: int) -> int {
    match best_upto(split_fields(key), entries, entries.len() as int) {
        Some(p) => entries[p.1].1,
        None => default,
    }
}

/// What resolution returns for `key` against the table: the exact row's id
/// when one matches, else the fuzzy result.
pub open spec fn resolve_id(key: Seq<char>, entries: Seq<(Seq<char>, int)>, default: int) -> int {
    match exact_lookup(entries, key) {
        Some(id) => id,
        None => fuzzy_id(key, entries, default),
    }
}

pub(crate) fn is_wildcard(f: &Vec<char>) -> (r: bool)
    ensures
        r == (f@ == wildcard_field()),
{
    let r = f.len() == 1 && f[0] == '*';
    proof {
        if r {
            assert(f@ =~= wildcard_field());
        }
    }
    r
}

fn has_family(k: &Vec<Vec<char>>, fam: &Vec<char>) -> (r: bool)
    ensures
        r == (exists|j: int|
            0 <= j < k.deep_view().len() && is_substring_of(fam@, #[trigger] k.deep_view()[j])),
{
    proof {
        lemma_fields_deep_view(k);
    }
    let mut j: usize = 0;
    while j < k.len()
        invariant
            j <= k@.len(),
            k.deep_view().len() == k@.len(),
            forall|i: int| 0 <= i < k@.len() ==> #[trigger] k.deep_view()[i] == k@[i]@,
            forall|i: int| 0 <= i < j ==> !is_substring_of(fam@, #[trigger] k.deep_view()[i]),
        decreases k@.len() - j,
    {
        if contains_sub(&k[j], fam) {
            proof {
                assert(is_substring_of(fam@, k.deep_view()[j as int]));
            }
            return true;
        }
        j = j + 1;
    }
    false
}

fn check_family(
    vt: &Vec<char>,
    k: &Vec<Vec<char>>,
    fam_lit: &str,
    Ghost(e): Ghost<Seq<Seq<char>>>,
) -> (r: bool)
    requires
        vt@ == verb_type_field(e),
    ensures
        r == family_applies(e, k.deep_view(), fam_lit@),
{
    let fam = chars_of(fam_lit);
    contains_sub(vt, &fam) && has_family(k, &fam)
}

pub(crate) fn verb_bonus_exec(e: &Vec<Vec<char>>, k: &Vec<Vec<char>>, vt: &Vec<char>) -> (r: u8)
    requires
        vt@ == verb_type_field(e.deep_view()),
    ensures
        r as int == verb_bonus(e.deep_view(), k.deep_view()),
{
    let ghost ev = e.deep_view();
    let ghost kv = k.deep_view();
    let b0 = check_family(vt, k, "五段", Ghost(ev));
    let b1 = check_family(vt, k, "四段", Ghost(ev));
    let b2 = check_family(vt, k, "一段", Ghost(ev));
    let b3 = check_family(vt, k, "カ変", Ghost(ev));
    let b4 = check_family(vt, k, "サ変", Ghost(ev));
    let b5 = check_family(vt, k, "ラ変", Ghost(ev));
    if b0 || b1 || b2 || b3 || b4 || b5 {
        proof {
            if b0 {
                assert(family_applies(ev, kv, verb_families()[0]));
            } else if b1 {
                assert(family_applies(ev, kv, verb_families()[1]));
            } else if b2 {
                assert(family_applies(ev, kv, verb_families()[2]));
            } else if b3 {
                assert(family_applies(ev, kv, verb_families()[3]));
            } else if b4 {
                assert(family_applies(ev, kv, verb_families()[4]));
            } else {
                assert(family_applies(ev, kv, verb_families()[5]));
            }
        }
        1
    } else {
        proof {
            assert forall|f: int| 0 <= f < verb_families().len() implies !family_applies(
                ev,
                kv,
                verb_families()[f],
            ) by {
                if f == 0 {
                    assert(verb_families()[f] == "五段"@);
                } else if f == 1 {
                    assert(verb_families()[f] == "四段"@);
                } else if f == 2 {
                    assert(verb_families()[f] == "一段"@);
                } else if f == 3 {
                    assert(verb_families()[f] == "カ変"@);
                } else if f == 4 {
                    assert(verb_families()[f] == "サ変"@);
                } else {
                    assert(verb_families()[f] == "ラ変"@);
                }
            }
        }
        0
    }
}

/// Runs the shared field walk from position 2, returning the gathered match
/// count and whether the candidate survived it.
pub(crate) fn walk_fields_exec(e: &Vec<Vec<char>>, k: &Vec<Vec<char>>) -> (r: (u128, bool))
    ensures
        r.0 as int == walk_count(e.deep_view(), k.deep_view(), 2),
        r.1 == walk_valid(e.deep_view(), k.deep_view(), 2),
        r.0 as int <= min_len(e.deep_view(), k.deep_view()) + 1,
{
    let ghost ev = e.deep_view();
    let ghost kv = k.deep_view();
    proof {
        lemma_fields_deep_view(e);
        lemma_fields_deep_view(k);
    }
    let m: usize = if e.len() <= k.len() {
        e.len()
    } else {
        k.len()
    };
    let mut i: usize = 2;
    let mut acc: u128 = 0;
    let mut valid = true;
    let mut done = false;
    while i < m && !done
        invariant
            ev.len() == e@.len(),
            kv.len() == k@.len(),
            forall|t: int| 0 <= t < e@.len() ==> #[trigger] ev[t] == e@[t]@,
            forall|t: int| 0 <= t < k@.len() ==> #[trigger] kv[t] == k@[t]@,
            m == min_len(ev, kv),
            2 <= i <= m || (i == 2 && m < 2),
            !done ==> acc == i - 2,
            done ==> acc <= i - 1,
            !done ==> valid && walk_count(ev, kv, 2) == acc + walk_count(ev, kv, i as int)
                && walk_valid(ev, kv, 2) == walk_valid(ev, kv, i as int),
            done ==> walk_count(ev, kv, 2) == acc && walk_valid(ev, kv, 2) == valid,
        decreases m - i, (if done { 0int } else { 1int }),
    {
        let ef = &e[i];
        let kf = &k[i];
        if is_wildcard(kf) || chars_eq(ef, kf) {
            acc = acc + 1;
            i = i + 1;
        } else if i == 2 {
            valid = false;
            done = true;
        } else {
            if contains_sub(ef, kf) || contains_sub(kf, ef) {
                acc = acc + 1;
            }
            done = true;
        }
    }
    (acc, valid)
}

/// Scores one candidate's fields against the input's fields; `None` when the
/// candidate is rejected.
pub fn score_candidate(e: &Vec<Vec<char>>, k: &Vec<Vec<char>>) -> (r: Option<u128>)
    ensures
        r is Some ==> candidate_score(e.deep_view(), k.deep_view()) == Some(r->0 as int),
        r is None ==> candidate_score(e.deep_view(), k.deep_view()) is None,
{
    let ghost ev = e.deep_view();
    let ghost kv = k.deep_view();
    proof {
        lemma_fields_deep_view(e);
        lemma_fields_deep_view(k);
    }
    if e.len() < 2 || k.len() < 2 {
        return None;
    }
    if !chars_eq(&e[0], &k[0]) || !chars_eq(&e[1], &k[1]) {
        return None;
    }
    let walk = walk_fields_exec(e, k);
    let acc: u128 = walk.0;
    let valid: bool = walk.1;
    if !valid {
        return None;
    }
    let is_verb = str_field_is(e, 0, "動詞");
    let bonus: u8 = if is_verb {
        let empty_vt: Vec<char> = Vec::new();
        if e.len() > 4 {
            verb_bonus_exec(e, k, &e[4])
        } else {
            verb_bonus_exec(e, k, &empty_vt)
        }
    } else {
        0
    };
    let total: u128 = 2 + acc + (bonus as u128);
    if str_field_is(e, 0, "名詞") && str_field_is(e, 1, "固有名詞") && total < 3 {
        return None;
    }
    Some(total)
}

/// Whether field `at` of `e` reads exactly `lit`.
pub(crate) fn str_field_is(e: &Vec<Vec<char>>, at: usize, lit: &str) -> (r: bool)
    requires
        at < e@.len(),
    ensures
        r == (e.deep_view()[at as int] == lit@),
{
    proof {
        lemma_fields_deep_view(e);
    }
    let lv = chars_of(lit);
    chars_eq(&e[at], &lv)
}

/// The position of the first row from `i` on whose expression equals `key`.
pub open spec fn key_index_from(
    entries: Seq<(Seq<char>, int)>,
    key: Seq<char>,
    i: int,
) -> Option<int>
    decreases entries.len() - i,
{
    if i < 0 || i >= entries.len() {
        None
    } else if entries[i].0 == key {
        Some(i)
    } else {
        key_index_from(entries, key, i + 1)
    }
}

/// Association update: overwrite the id of the first row keyed `key`, or
/// append a new row.
pub open spec fn assoc_set(
    entries: Seq<(Seq<char>, int)>,
    key: Seq<char>,
    id: int,
) -> Seq<(Seq<char>, int)> {
    match key_index_from(entries, key, 0) {
        Some(j) => entries.update(j, (key, id)),
        None => entries.push((key, id)),
    }
}

proof fn lemma_key_index_bounds(entries: Seq<(Seq<char>, int)>, key: Seq<char>, i: int)
    requires
        0 <= i,
        key_index_from(entries, key, i) is Some,
    ensures
        i <= key_index_from(entries, key, i)->0 < entries.len(),
        entries[key_index_from(entries, key, i)->0].0 == key,
    decreases entries.len() - i,
{
    if i < entries.len() && entries[i].0 != key {
        lemma_key_index_bounds(entries, key, i + 1);
    }
}

impl TaxonomyIndex {
    fn key_position(&self, key: &str) -> (r: Option<usize>)
        ensures
            match r {
                Some(j) => key_index_from(self.model(), key@, 0) == Some(j as int),
                None => key_index_from(self.model(), key@, 0) is None,
            },
    {
        let mut i: usize = 0;
        while i < self.entries.len()
            invariant
                i <= self.entries@.len(),
                key_index_from(self.model(), key@, 0) == key_index_from(
                    self.model(),
                    key@,
                    i as int,
                ),
            decreases self.entries@.len() - i,
        {
            if str_eq(self.entries[i].expr.as_str(), key) {
                return Some(i);
            }
            i = i + 1;
        }
        None
    }

    /// Records one normalized reference row; a repeated expression keeps its
    /// place and takes the new id, as a keyed table would.
    pub fn insert(&mut self, expr: String, id: i32)
        ensures
            final(self).model() == assoc_set(old(self).model(), expr@, id as int),
    {
        let pos = self.key_position(expr.as_str());
        match pos {
            Some(j) => {
                proof {
                    lemma_key_index_bounds(self.model(), expr@, 0);
                }
                self.entries.set(j, TaxonomyEntry { expr, id });
                proof {
                    assert(self.model() =~= assoc_set(old(self).model(), expr@, id as int));
                }
            },
            None => {
                self.entries.push(TaxonomyEntry { expr, id });
                proof {
                    assert(self.model() =~= assoc_set(old(self).model(), expr@, id as int));
                }
            },
        }
    }

    fn exact_find(&self, key: &str) -> (r: Option<i32>)
        ensures
            match r {
                Some(v) => exact_lookup(self.model(), key@) == Some(v as int),
                None => exact_lookup(self.model(), key@) is None,
            },
    {
        let mut i: usize = 0;
        while i < self.entries.len()
            invariant
                i <= self.entries@.len(),
                exact_lookup(self.model(), key@) == exact_lookup_from(
                    self.model(),
                    key@,
                    i as int,
                ),
            decreases self.entries@.len() - i,
        {
            if str_eq(self.entries[i].expr.as_str(), key) {
                return Some(self.entries[i].id);
            }
            i = i + 1;
        }
        None
    }
}

/// The per-run resolution cache: expressions already classified this run,
/// with the id each one received.
pub struct ClassCache {
    pub pairs: Vec<(String, i32)>,
}

/// Every cached pair records exactly what resolution against the table
/// returns for its expression.
pub open spec fn cache_coherent(
    c: Seq<(Seq<char>, int)>,
    entries: Seq<(Seq<char>, int)>,
    default: int,
) -> bool {
    forall|i: int|
        0 <= i < c.len() ==> (#[trigger] c[i]).1 == resolve_id(c[i].0, entries, default)
}

impl ClassCache {
    /// The cached (expression, id) pairs in insertion order.
    pub open spec fn model(&self) -> Seq<(Seq<char>, int)> {
        Seq::new(self.pairs@.len(), |i: int| (self.pairs@[i].0@, self.pairs@[i].1 as int))
    }

    pub fn new() -> (r: ClassCache)
        ensures
            r.model() == Seq::<(Seq<char>, int)>::empty(),
    {
        let r = ClassCache { pairs: Vec::new() };
        proof {
            assert(r.model() =~= Seq::<(Seq<char>, int)>::empty());
        }
        r
    }

    fn find(&self, key: &str) -> (r: Option<i32>)
        ensures
            match r {
                Some(v) => exact_lookup(self.model(), key@) == Some(v as int),
                None => exact_lookup(self.model(), key@) is None,
            },
    {
        let mut i: usize = 0;
        while i < self.pairs.len()
            invariant
                i <= self.pairs@.len(),
                exact_lookup(self.model(), key@) == exact_lookup_from(
                    self.model(),
                    key@,
                    i as int,
                ),
            decreases self.pairs@.len() - i,
        {
            if str_eq(self.pairs[i].0.as_str(), key) {
                return Some(self.pairs[i].1);
            }
            i = i + 1;
        }
        None
    }
}

proof fn lemma_lookup_from_coherent(
    c: Seq<(Seq<char>, int)>,
    entries: Seq<(Seq<char>, int)>,
    default: int,
    key: Seq<char>,
    i: int,
)
    requires
        cache_coherent(c, entries, default),
        0 <= i,
        exact_lookup_from(c, key, i) is Some,
    ensures
        exact_lookup_from(c, key, i)->0 == resolve_id(key, entries, default),
    decreases c.len() - i,
{
    if i < c.len() {
        if c[i].0 == key {
        } else {
            lemma_lookup_from_coherent(c, entries, default, key, i + 1);
        }
    }
}

/// Resolves a classification expression to a canonical id: an exact table
/// row wins; otherwise the best-scoring qualifying row; otherwise the
/// default.  The result is recorded in the run cache; a cached expression is
/// answered from the cache alone, which the coherence invariant keeps equal
/// to resolution against the table.
pub fn id_expr(
    clsexpr: &str,
    index: &TaxonomyIndex,
    cache: &mut ClassCache,
    default_noun_id: i32,
) -> (r: i32)
    requires
        cache_coherent(old(cache).model(), index.model(), default_noun_id as int),
    ensures
        cache_coherent(final(cache).model(), index.model(), default_noun_id as int),
        r as int == resolve_id(clsexpr@, index.model(), default_noun_id as int),
        exact_lookup(old(cache).model(), clsexpr@) is Some ==> final(cache).model() == old(
            cache,
        ).model(),
        exact_lookup(old(cache).model(), clsexpr@) is None ==> final(cache).model() == old(
            cache,
        ).model().push((clsexpr@, r as int)),
{
    let ghost entries = index.model();
    let ghost default = default_noun_id as int;
    match cache.find(clsexpr) {
        Some(v) => {
            proof {
                lemma_lookup_from_coherent(cache.model(), entries, default, clsexpr@, 0);
            }
            return v;
        },
        None => {},
    }
    let r: i32 = match index.exact_find(clsexpr) {
        Some(v) => v,
        None => {
            let e_chars = chars_of(clsexpr);
            let e_fields = split_commas(&e_chars);
            let ghost ev = split_fields(clsexpr@);
            let mut have = false;
            let mut best_score: u128 = 0;
            let mut best_idx: usize = 0;
            let mut i: usize = 0;
            while i < index.entries.len()
                invariant
                    e_fields.deep_view() == ev,
                    entries == index.model(),
                    i <= index.entries@.len(),
                    !have ==> best_upto(ev, entries, i as int) is None,
                    have ==> best_upto(ev, entries, i as int) == Some(
                        (best_score as int, best_idx as int),
                    ) && best_idx < i,
                decreases index.entries@.len() - i,
            {
                let k_chars = chars_of(index.entries[i].expr.as_str());
                let k_fields = split_commas(&k_chars);
                proof {
                    assert(k_fields.deep_view() == split_fields(entries[i as int].0));
                }
                match score_candidate(&e_fields, &k_fields) {
                    Some(sc) => {
                        if !have || sc > best_score {
                            have = true;
                            best_score = sc;
                            best_idx = i;
                        }
                    },
                    None => {},
                }
                i = i + 1;
            }
            if have {
                index.entries[best_idx].id
            } else {
                default_noun_id
            }
        },
    };
    let ghost prev = cache.model();
    cache.pairs.push((clsexpr.to_owned(), r));
    proof {
        assert(cache.model() =~= prev.push((clsexpr@, r as int)));
        assert forall|t: int| 0 <= t < cache.model().len() implies (#[trigger] cache.model()[t]).1
            == resolve_id(cache.model()[t].0, entries, default) by {
            if t < prev.len() {
                assert(cache.model()[t] == prev[t]);
            }
        }
    }
    r
}

proof fn lemma_lookup_push(c: Seq<(Seq<char>, int)>, key: Seq<char>, p: (Seq<char>, int), i: int)
    requires
        0 <= i <= c.len(),
        exact_lookup_from(c, key, i) is None,
    ensures
        exact_lookup_from(c.push(p), key, i) == if p.0 == key {
            Some(p.1)
        } else {
            None::<int>
        },
    decreases c.len() - i,
{
    if i < c.len() {
        assert(c.push(p)[i] == c[i]);
        lemma_lookup_push(c, key, p, i + 1);
    } else {
        assert(c.push(p)[i] == p);
        if p.0 != key {
            assert(exact_lookup_from(c.push(p), key, i + 1) is None);
        }
    }
}

/// Idempotence of exact match: once resolution has classified an expression
/// and recorded it in a coherent run cache, the recorded cache answers the
/// same expression with the same id, so a later call is a cache hit that
/// rescans nothing and leaves the cache as it is.
pub proof fn lemma_resolve_idempotent(
    c: Seq<(Seq<char>, int)>,
    entries: Seq<(Seq<char>, int)>,
    default: int,
    key: Seq<char>,
)
    requires
        cache_coherent(c, entries, default),
    ensures
        ({
            let id = resolve_id(key, entries, default);
            let c1 = if exact_lookup(c, key) is Some {
                c
            } else {
                c.push((key, id))
            };
            &&& cache_coherent(c1, entries, default)
            &&& exact_lookup(c1, key) == Some(id)
        }),
{
    let id = resolve_id(key, entries, default);
    if exact_lookup(c, key) is Some {
        lemma_lookup_from_coherent(c, entries, default, key, 0);
    } else {
        let c1 = c.push((key, id));
        assert forall|t: int| 0 <= t < c1.len() implies (#[trigger] c1[t]).1 == resolve_id(
            c1[t].0,
            entries,
            default,
        ) by {
            if t < c.len() {
                assert(c1[t] == c[t]);
            }
        }
        lemma_lookup_push(c, key, (key, id), 0);
    }
}

/// The fuzzy scan's winner, when there is one, earned a score, and scored
/// candidates always qualify: their leading two fields equal the input's.
pub proof fn lemma_best_upto_qualifies(e: Seq<Seq<char>>, entries: Seq<(Seq<char>, int)>, n: int)
    requires
        0 <= n <= entries.len(),
        best_upto(e, entries, n) is Some,
    ensures
        ({
            let p = best_upto(e, entries, n)->0;
            &&& 0 <= p.1 < n
            &&& entry_score(e, entries[p.1]) == Some(p.0)
            &&& qualifies(e, split_fields(entries[p.1].0))
        }),
    decreases n,
{
    if n > 0 {
        if best_upto(e, entries, n - 1) is Some {
            lemma_best_upto_qualifies(e, entries, n - 1);
        }
    }
}

/// The fuzzy scan picks a highest-scoring row, and of the rows reaching
/// that score, the earliest: every scored row scores at most the winner,
/// and a row before the winner scores strictly less.
pub proof fn lemma_best_upto_maximal(e: Seq<Seq<char>>, entries: Seq<(Seq<char>, int)>, n: int, j: int)
    requires
        0 <= j < n <= entries.len(),
        entry_score(e, entries[j]) is Some,
    ensures
        best_upto(e, entries, n) is Some,
        entry_score(e, entries[j])->0 <= (best_upto(e, entries, n)->0).0,
        j < (best_upto(e, entries, n)->0).1 ==> entry_score(e, entries[j])->0 < (best_upto(
            e,
            entries,
            n,
        )->0).0,
    decreases n,
{
    if j < n - 1 {
        lemma_best_upto_maximal(e, entries, n - 1, j);
        lemma_best_upto_qualifies(e, entries, n - 1);
    } else {
        if best_upto(e, entries, n - 1) is Some {
            lemma_best_upto_qualifies(e, entries, n - 1);
        }
    }
}

/// Monotonic qualification: a reference row whose leading two fields differ
/// from the input's is never the row the fuzzy scan selects, whatever the
/// expression and whatever the table.
pub proof fn lemma_fuzzy_never_selects_unqualified(
    key: Seq<char>,
    entries: Seq<(Seq<char>, int)>,
    j: int,
)
    requires
        0 <= j < entries.len(),
        !qualifies(split_fields(key), split_fields(entries[j].0)),
    ensures
        best_upto(split_fields(key), entries, entries.len() as int) is Some ==> (best_upto(
            split_fields(key),
            entries,
            entries.len() as int,
        )->0).1 != j,
{
    if best_upto(split_fields(key), entries, entries.len() as int) is Some {
        lemma_best_upto_qualifies(split_fields(key), entries, entries.len() as int);
    }
}

/// The expression of the first reference row carrying the given id, or the
/// empty string when no row does.
pub fn search_key(def: &TaxonomyIndex, search: i32) -> (r: String)
    ensures
        r@ == match reverse_lookup(def.model(), search as int) {
            Some(s) => s,
            None => Seq::<char>::empty(),
        },
{
    let mut i: usize = 0;
    while i < def.entries.len()
        invariant
            i <= def.entries@.len(),
            reverse_lookup(def.model(), search as int) == reverse_lookup_from(
                def.model(),
                search as int,
                i as int,
            ),
        decreases def.entries@.len() - i,
    {
        if def.entries[i].id == search {
            return def.entries[i].expr.clone();
        }
        i = i + 1;
    }
    String::new()
}

} // verus!
