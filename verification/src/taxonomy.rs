//! Loading of the canonical taxonomy table: each reference row's expression
//! is put through a fixed set of normalizing rewrites so the fuzzy matcher
//! searches a denser, more regular key space, and the row carrying the
//! generic common-noun pattern is remembered as the fallback id.

use vstd::prelude::*;

use crate::matcher::{assoc_set, TaxonomyIndex};
use crate::text::{chars_of, chars_eq, find_sub, push_all, replace_all, spec_replace_all, string_of};

verus! {

/// The first comma at or after position `i`, or the end of the sequence.
pub open spec fn run_end(s: Seq<char>, i: int) -> int
    decreases s.len() - i,
{
    if i < 0 || i >= s.len() {
        i
    } else if s[i] == ',' {
        i
    } else {
        run_end(s, i + 1)
    }
}

/// The least position at or after `i` where a nonempty `pat` occurs in `s`.
pub open spec fn find_from(s: Seq<char>, pat: Seq<char>, i: int) -> Option<int>
    decreases s.len() - i,
{
    if pat.len() <= 0 || i < 0 || i + pat.len() > s.len() {
        None
    } else if s.subrange(i, i + pat.len() as int) == pat {
        Some(i)
    } else {
        find_from(s, pat, i + 1)
    }
}

/// Deleting the run of non-comma characters after the first occurrence of
/// `pat`; the identity when `pat` does not occur.
pub open spec fn collapse_after(s: Seq<char>, pat: Seq<char>) -> Seq<char> {
    match find_from(s, pat, 0) {
        None => s,
        Some(f) => s.take(f + pat.len() as int) + s.skip(run_end(s, f + pat.len() as int)),
    }
}

/// Inserting a comma after the first occurrence of `pat` when a nonempty run
/// of non-comma characters follows it; the identity otherwise.
pub open spec fn comma_after(s: Seq<char>, pat: Seq<char>) -> Seq<char> {
    match find_from(s, pat, 0) {
        None => s,
        Some(f) => if run_end(s, f + pat.len() as int) == f + pat.len() {
            s
        } else {
            s.take(f + pat.len() as int) + seq![','] + s.skip(f + pat.len() as int)
        },
    }
}

proof fn lemma_find_from_of_witness(s: Seq<char>, pat: Seq<char>, i: int, w: int)
    requires
        0 <= i <= w,
        pat.len() > 0,
        w + pat.len() <= s.len(),
        s.subrange(w, w + pat.len() as int) == pat,
        forall|j: int| 0 <= j < w ==> #[trigger] s.subrange(j, j + pat.len() as int) != pat,
    ensures
        find_from(s, pat, i) == Some(w),
    decreases w - i,
{
    if i < w {
        lemma_find_from_of_witness(s, pat, i + 1, w);
    }
}

proof fn lemma_find_from_none(s: Seq<char>, pat: Seq<char>, i: int)
    requires
        0 <= i,
        forall|j: int| 0 <= j ==> j + pat.len() <= s.len() ==> #[trigger] s.subrange(
            j,
            j + pat.len() as int,
        ) != pat,
    ensures
        find_from(s, pat, i) is None,
    decreases s.len() - i,
{
    if i < s.len() {
        lemma_find_from_none(s, pat, i + 1);
    }
}

fn run_end_exec(s: &Vec<char>, from: usize) -> (r: usize)
    requires
        from <= s@.len(),
    ensures
        r as int == run_end(s@, from as int),
        from <= r <= s@.len(),
{
    let mut i: usize = from;
    while i < s.len()
        invariant
            from <= i <= s@.len(),
            run_end(s@, from as int) == run_end(s@, i as int),
        decreases s@.len() - i,
    {
        if s[i] == ',' {
            return i;
        }
        i = i + 1;
    }
    i
}

/// Applies [`collapse_after`] for the given pattern literal.
fn collapse_after_exec(s: &Vec<char>, pat_lit: &str) -> (r: Vec<char>)
    requires
        pat_lit@.len() > 0,
    ensures
        r@ == collapse_after(s@, pat_lit@),
{
    let pat = chars_of(pat_lit);
    match find_sub(s, &pat) {
        None => {
            proof {
                lemma_find_from_none(s@, pat@, 0);
            }
            let mut out: Vec<char> = Vec::new();
            push_all(&mut out, s);
            proof {
                assert(Seq::<char>::empty() + s@ =~= s@);
            }
            out
        },
        Some(f) => {
            proof {
                lemma_find_from_of_witness(s@, pat@, 0, f as int);
            }
            let s_len: usize = s.len();
            let cut: usize = f + pat.len();
            let re = run_end_exec(s, cut);
            let mut out: Vec<char> = Vec::new();
            let mut i: usize = 0;
            while i < cut
                invariant
                    cut <= s@.len(),
                    i <= cut,
                    out@ == s@.take(cut as int).take(i as int),
                decreases cut - i,
            {
                out.push(s[i]);
                i = i + 1;
                proof {
                    assert(out@ =~= s@.take(cut as int).take(i as int));
                }
            }
            proof {
                assert(s@.take(cut as int).take(cut as int) =~= s@.take(cut as int));
            }
            let mut j: usize = re;
            while j < s.len()
                invariant
                    cut <= re <= j <= s@.len(),
                    out@ == s@.take(cut as int) + s@.skip(re as int).take(j - re),
                decreases s@.len() - j,
            {
                out.push(s[j]);
                j = j + 1;
                proof {
                    assert(out@ =~= s@.take(cut as int) + s@.skip(re as int).take(j - re));
                }
            }
            proof {
                assert(s@.skip(re as int).take(s@.len() - re) =~= s@.skip(re as int));
            }
            out
        },
    }
}

/// Applies [`comma_after`] for the given pattern literal.
fn comma_after_exec(s: &Vec<char>, pat_lit: &str) -> (r: Vec<char>)
    requires
        pat_lit@.len() > 0,
    ensures
        r@ == comma_after(s@, pat_lit@),
{
    let pat = chars_of(pat_lit);
    match find_sub(s, &pat) {
        None => {
            proof {
                lemma_find_from_none(s@, pat@, 0);
            }
            let mut out: Vec<char> = Vec::new();
            push_all(&mut out, s);
            proof {
                assert(Seq::<char>::empty() + s@ =~= s@);
            }
            out
        },
        Some(f) => {
            proof {
                lemma_find_from_of_witness(s@, pat@, 0, f as int);
            }
            let s_len: usize = s.len();
            let cut: usize = f + pat.len();
            let re = run_end_exec(s, cut);
            let mut out: Vec<char> = Vec::new();
            push_all(&mut out, s);
            if re == cut {
                proof {
                    assert(Seq::<char>::empty() + s@ =~= s@);
                }
                out
            } else {
                let mut with_comma: Vec<char> = Vec::new();
                let mut i: usize = 0;
                while i < cut
                    invariant
                        cut <= s@.len(),
                        i <= cut,
                        with_comma@ == s@.take(cut as int).take(i as int),
                    decreases cut - i,
                {
                    with_comma.push(s[i]);
                    i = i + 1;
                    proof {
                        assert(with_comma@ =~= s@.take(cut as int).take(i as int));
                    }
                }
                proof {
                    assert(s@.take(cut as int).take(cut as int) =~= s@.take(cut as int));
                }
                with_comma.push(',');
                let mut j: usize = cut;
                while j < s.len()
                    invariant
                        cut <= j <= s@.len(),
                        with_comma@ == s@.take(cut as int).push(',') + s@.skip(cut as int).take(
                            j - cut,
                        ),
                    decreases s@.len() - j,
                {
                    with_comma.push(s[j]);
                    j = j + 1;
                    proof {
                        assert(with_comma@ =~= s@.take(cut as int).push(',') + s@.skip(
                            cut as int,
                        ).take(j - cut));
                    }
                }
                proof {
                    assert(s@.skip(cut as int).take(s@.len() - cut) =~= s@.skip(cut as int));
                    assert(s@.take(cut as int).push(',') + s@.skip(cut as int) =~= s@.take(
                        cut as int,
                    ) + seq![','] + s@.skip(cut as int));
                }
                with_comma
            }
        },
    }
}

/// The fixed category renames applied to every raw reference expression.
pub open spec fn normalize_expr(s: Seq<char>) -> Seq<char> {
    let a = spec_replace_all(s, "名詞,一般"@, "名詞,普通名詞"@);
    let b = spec_replace_all(a, "名詞,数,"@, "名詞,数詞,"@);
    let c = spec_replace_all(b, "形-"@, "形,"@);
    spec_replace_all(c, "地域,"@, "地名,"@)
}

/// The conjugation rewrites: collapse overly specific five-grade カ-row
/// variants, and split a conjugation descriptor into a `tag,remainder`
/// shape for サ, ラ and ワ row families.
pub open spec fn rewrite_conj(s: Seq<char>) -> Seq<char> {
    comma_after(comma_after(comma_after(collapse_after(s, "五段・カ行"@), "サ変"@), "ラ行"@), "ワ行"@)
}

/// The fully normalized form under which a reference row is stored.
pub open spec fn stored_expr(s: Seq<char>) -> Seq<char> {
    rewrite_conj(normalize_expr(s))
}

pub open spec fn default_pattern_a() -> Seq<char> {
    "名詞,普通名詞,*,*,*,*,*"@
}

pub open spec fn default_pattern_b() -> Seq<char> {
    "名詞,一般,*,*,*,*,*"@
}

/// The table built from the first `n` reference records, in order, each
/// stored under its normalized expression; a repeated expression takes the
/// later id.
pub open spec fn loaded_index(records: Seq<(int, Seq<char>)>, n: int) -> Seq<(Seq<char>, int)>
    decreases n,
{
    if n <= 0 {
        Seq::<(Seq<char>, int)>::empty()
    } else {
        assoc_set(loaded_index(records, n - 1), stored_expr(records[n - 1].1), records[n - 1].0)
    }
}

/// The generic common-noun fallback id after the first `n` records: the last
/// record whose renamed expression equals a designated common-noun pattern,
/// or -1 when none does.
pub open spec fn loaded_default(records: Seq<(int, Seq<char>)>, n: int) -> int
    decreases n,
{
    if n <= 0 {
        -1
    } else {
        let norm = normalize_expr(records[n - 1].1);
        if norm == default_pattern_a() || norm == default_pattern_b() {
            records[n - 1].0
        } else {
            loaded_default(records, n - 1)
        }
    }
}

/// The (id, raw expression) content of parsed reference records.
pub open spec fn records_model(records: Seq<(i32, String)>) -> Seq<(int, Seq<char>)> {
    Seq::new(records.len(), |i: int| (records[i].0 as int, records[i].1@))
}

fn normalize_expr_exec(s: &Vec<char>) -> (r: Vec<char>)
    ensures
        r@ == normalize_expr(s@),
{
    proof {
        reveal_strlit("名詞,一般");
        reveal_strlit("名詞,数,");
        reveal_strlit("形-");
        reveal_strlit("地域,");
    }
    let a = replace_all(s, &chars_of("名詞,一般"), &chars_of("名詞,普通名詞"));
    let b = replace_all(&a, &chars_of("名詞,数,"), &chars_of("名詞,数詞,"));
    let c = replace_all(&b, &chars_of("形-"), &chars_of("形,"));
    replace_all(&c, &chars_of("地域,"), &chars_of("地名,"))
}

/// Loads the reference taxonomy from parsed (id, raw expression) records:
/// normalizes each expression, remembers the common-noun fallback id, and
/// stores every row in record order.
pub fn read_id_def(records: &Vec<(i32, String)>) -> (r: (TaxonomyIndex, i32))
    ensures
        r.0.model() == loaded_index(records_model(records@), records@.len() as int),
        r.1 as int == loaded_default(records_model(records@), records@.len() as int),
{
    let ghost rm = records_model(records@);
    let mut index = TaxonomyIndex::new();
    let mut default_noun_id: i32 = -1;
    let mut i: usize = 0;
    while i < records.len()
        invariant
            rm == records_model(records@),
            rm.len() == records@.len(),
            i <= records@.len(),
            index.model() == loaded_index(rm, i as int),
            default_noun_id as int == loaded_default(rm, i as int),
        decreases records@.len() - i,
    {
        let id = records[i].0;
        let raw = chars_of(records[i].1.as_str());
        let norm = normalize_expr_exec(&raw);
        if chars_eq(&norm, &chars_of("名詞,普通名詞,*,*,*,*,*")) || chars_eq(
            &norm,
            &chars_of("名詞,一般,*,*,*,*,*"),
        ) {
            default_noun_id = id;
        }
        proof {
            reveal_strlit("五段・カ行");
            reveal_strlit("サ変");
            reveal_strlit("ラ行");
            reveal_strlit("ワ行");
        }
        let step1 = collapse_after_exec(&norm, "五段・カ行");
        let step2 = comma_after_exec(&step1, "サ変");
        let step3 = comma_after_exec(&step2, "ラ行");
        let step4 = comma_after_exec(&step3, "ワ行");
        index.insert(string_of(&step4), id);
        i = i + 1;
        proof {
            assert(rm[i - 1] == (records@[i - 1].0 as int, records@[i - 1].1@));
        }
    }
    (index, default_noun_id)
}

} // verus!
