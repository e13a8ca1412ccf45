//! Verified character-level text utilities: comparison, substring search,
//! replacement, comma splitting and decimal rendering.
//!
//! Classification expressions are comma-joined strings of fields; all matching
//! logic is stated over `Seq<char>` views and these helpers connect the
//! executable `String` operations to those views.

use vstd::prelude::*;

verus! {

/// Relies on `String::push`: appends the given character to the end of the
/// string (std; vstd gives it no specification).
pub assume_specification[ String::push ](s: &mut String, c: char)
    ensures
        final(s)@ == old(s)@.push(c),
;

/// Relies on `char::from_u32`: returns the character with the given scalar
/// value, or `None` when the value is a surrogate or above the scalar range
/// (std; vstd gives it no specification).
pub assume_specification[ char::from_u32 ](v: u32) -> (r: Option<char>)
    ensures
        r is Some <==> (v < 0xD800 || (0xDFFF < v && v <= 0x10FFFF)),
        r is Some ==> r->0 as u32 == v,
;

/// The characters of `s`, as an indexable vector.
pub fn chars_of(s: &str) -> (r: Vec<char>)
    ensures
        r@ == s@,
{
    let n: usize = s.unicode_len();
    let mut r: Vec<char> = Vec::new();
    let mut i: usize = 0;
    while i < n
        invariant
            n == s@.len(),
            i <= n,
            r@ == s@.take(i as int),
        decreases n - i,
    {
        r.push(s.get_char(i));
        i = i + 1;
        proof {
            assert(r@ =~= s@.take(i as int));
        }
    }
    proof {
        assert(s@.take(n as int) =~= s@);
    }
    r
}

/// A string holding exactly the given characters.
pub fn string_of(v: &Vec<char>) -> (r: String)
    ensures
        r@ == v@,
{
    let mut r = String::new();
    let mut i: usize = 0;
    while i < v.len()
        invariant
            i <= v@.len(),
            r@ == v@.take(i as int),
        decreases v@.len() - i,
    {
        r.push(v[i]);
        i = i + 1;
        proof {
            assert(r@ =~= v@.take(i as int));
        }
    }
    proof {
        assert(v@.take(v@.len() as int) =~= v@);
    }
    r
}

/// Character-for-character string equality.
pub fn str_eq(a: &str, b: &str) -> (r: bool)
    ensures
        r == (a@ == b@),
{
    let na: usize = a.unicode_len();
    let nb: usize = b.unicode_len();
    if na != nb {
        return false;
    }
    let mut i: usize = 0;
    while i < na
        invariant
            na == a@.len(),
            na == b@.len(),
            i <= na,
            forall|j: int| 0 <= j < i ==> a@[j] == b@[j],
        decreases na - i,
    {
        if a.get_char(i) != b.get_char(i) {
            return false;
        }
        i = i + 1;
    }
    proof {
        assert(a@ =~= b@);
    }
    true
}

/// Character-for-character equality of two character vectors.
pub fn chars_eq(a: &Vec<char>, b: &Vec<char>) -> (r: bool)
    ensures
        r == (a@ == b@),
{
    if a.len() != b.len() {
        return false;
    }
    let mut i: usize = 0;
    while i < a.len()
        invariant
            a@.len() == b@.len(),
            i <= a@.len(),
            forall|j: int| 0 <= j < i ==> a@[j] == b@[j],
        decreases a@.len() - i,
    {
        if a[i] != b[i] {
            return false;
        }
        i = i + 1;
    }
    proof {
        assert(a@ =~= b@);
    }
    true
}

/// The deep view of a vector of character vectors is its element views.
pub proof fn lemma_fields_deep_view(v: &Vec<Vec<char>>)
    ensures
        v.deep_view().len() == v@.len(),
        forall|i: int| 0 <= i < v@.len() ==> #[trigger] v.deep_view()[i] == v@[i]@,
{
    assert forall|i: int| 0 <= i < v@.len() implies #[trigger] v.deep_view()[i] == v@[i]@ by {
        assert(v.deep_view()[i] =~= v@[i]@);
    }
}

/// The deep view of a vector of strings is its element views.
pub proof fn lemma_string_vec_deep_view(v: &Vec<String>)
    ensures
        v.deep_view().len() == v@.len(),
        forall|i: int| 0 <= i < v@.len() ==> #[trigger] v.deep_view()[i] == v@[i]@,
{
    assert forall|i: int| 0 <= i < v@.len() implies #[trigger] v.deep_view()[i] == v@[i]@ by {
        assert(v.deep_view()[i] =~= v@[i]@);
    }
}

/// The deep view of a vector of string rows is its element deep views.
pub proof fn lemma_string_rows_deep_view(v: &Vec<Vec<String>>)
    ensures
        v.deep_view().len() == v@.len(),
        forall|i: int| 0 <= i < v@.len() ==> #[trigger] v.deep_view()[i] == v@[i].deep_view(),
{
    assert forall|i: int|
        0 <= i < v@.len() implies #[trigger] v.deep_view()[i] == v@[i].deep_view() by {
        assert(v.deep_view()[i] =~~= v@[i].deep_view());
    }
}

/// Whether `needle` occurs in `hay` as a contiguous subsequence.
/// The empty sequence occurs in every sequence.
pub open spec fn is_substring_of(needle: Seq<char>, hay: Seq<char>) -> bool {
    exists|i: int|
        0 <= i <= hay.len() - needle.len() && #[trigger] hay.subrange(i, i + needle.len() as int)
            == needle
}

fn matches_at(hay: &Vec<char>, needle: &Vec<char>, at: usize) -> (r: bool)
    requires
        at + needle@.len() <= hay@.len(),
    ensures
        r == (hay@.subrange(at as int, at + needle@.len()) == needle@),
{
    let hay_len: usize = hay.len();
    let mut j: usize = 0;
    while j < needle.len()
        invariant
            at + needle@.len() <= hay@.len(),
            hay@.len() == hay_len,
            j <= needle@.len(),
            forall|t: int| 0 <= t < j ==> hay@[at + t] == needle@[t],
        decreases needle@.len() - j,
    {
        if hay[at + j] != needle[j] {
            proof {
                assert(hay@.subrange(at as int, at + needle@.len())[j as int] == hay@[at + j]);
            }
            return false;
        }
        j = j + 1;
    }
    proof {
        assert(hay@.subrange(at as int, at + needle@.len()) =~= needle@);
    }
    true
}

/// The least index at which `needle` occurs in `hay`, if it occurs at all.
pub fn find_sub(hay: &Vec<char>, needle: &Vec<char>) -> (r: Option<usize>)
    ensures
        r is Some ==> {
            let i = r->0 as int;
            &&& 0 <= i <= hay@.len() - needle@.len()
            &&& hay@.subrange(i, i + needle@.len()) == needle@
            &&& forall|j: int|
                0 <= j < i ==> #[trigger] hay@.subrange(j, j + needle@.len() as int) != needle@
        },
        r is None ==> !is_substring_of(needle@, hay@),
{
    if needle.len() > hay.len() {
        return None;
    }
    if needle.len() == 0 {
        proof {
            assert(hay@.subrange(0, 0) =~= needle@);
        }
        return Some(0);
    }
    let last: usize = hay.len() - needle.len();
    let mut i: usize = 0;
    while i <= last
        invariant
            0 < needle@.len() <= hay@.len(),
            hay@.len() <= usize::MAX,
            last == hay@.len() - needle@.len(),
            i <= last + 1,
            forall|j: int|
                0 <= j < i ==> #[trigger] hay@.subrange(j, j + needle@.len() as int) != needle@,
        decreases last + 1 - i,
    {
        if matches_at(hay, needle, i) {
            return Some(i);
        }
        i = i + 1;
    }
    None
}

/// Whether `needle` occurs in `hay`; the executable form of [`is_substring_of`].
pub fn contains_sub(hay: &Vec<char>, needle: &Vec<char>) -> (r: bool)
    ensures
        r == is_substring_of(needle@, hay@),
{
    match find_sub(hay, needle) {
        Some(_) => true,
        None => false,
    }
}

/// The result of replacing, left to right and without overlap, every
/// occurrence of `pat` in `s` by `sub`.  An empty pattern replaces nothing.
pub open spec fn spec_replace_all(s: Seq<char>, pat: Seq<char>, sub: Seq<char>) -> Seq<char>
    decreases s.len(),
{
    if pat.len() == 0 {
        s
    } else if s.len() < pat.len() {
        s
    } else if s.take(pat.len() as int) == pat {
        sub + spec_replace_all(s.skip(pat.len() as int), pat, sub)
    } else {
        seq![s[0]] + spec_replace_all(s.skip(1), pat, sub)
    }
}

/// Appends every character of `add` to `out`.
pub fn push_all(out: &mut Vec<char>, add: &Vec<char>)
    ensures
        final(out)@ == old(out)@ + add@,
{
    let mut j: usize = 0;
    while j < add.len()
        invariant
            j <= add@.len(),
            out@ == old(out)@ + add@.take(j as int),
        decreases add@.len() - j,
    {
        out.push(add[j]);
        j = j + 1;
        proof {
            assert(old(out)@ + add@.take(j - 1).push(add@[j - 1]) =~= old(out)@ + add@.take(
                j as int,
            ));
        }
    }
    proof {
        assert(old(out)@ + add@.take(add@.len() as int) =~= old(out)@ + add@);
    }
}

/// Replaces every occurrence of `pat` in `s` by `sub`, left to right.
pub fn replace_all(s: &Vec<char>, pat: &Vec<char>, sub: &Vec<char>) -> (r: Vec<char>)
    requires
        pat@.len() > 0,
    ensures
        r@ == spec_replace_all(s@, pat@, sub@),
{
    let mut out: Vec<char> = Vec::new();
    let mut i: usize = 0;
    proof {
        assert(s@.skip(0) =~= s@);
        assert(Seq::<char>::empty() + spec_replace_all(s@, pat@, sub@) =~= spec_replace_all(
            s@,
            pat@,
            sub@,
        ));
    }
    while i < s.len()
        invariant
            pat@.len() > 0,
            i <= s@.len(),
            spec_replace_all(s@, pat@, sub@) == out@ + spec_replace_all(
                s@.skip(i as int),
                pat@,
                sub@,
            ),
        decreases s@.len() - i,
    {
        let remaining: usize = s.len() - i;
        if pat.len() <= remaining && matches_at(s, pat, i) {
            proof {
                assert(s@.skip(i as int).take(pat@.len() as int) =~= s@.subrange(
                    i as int,
                    i + pat@.len(),
                ));
                assert(s@.skip(i as int).skip(pat@.len() as int) =~= s@.skip(i + pat@.len()));
                assert((out@ + sub@) + spec_replace_all(s@.skip(i + pat@.len()), pat@, sub@) =~= out@
                    + (sub@ + spec_replace_all(s@.skip(i + pat@.len()), pat@, sub@)));
            }
            push_all(&mut out, sub);
            i = i + pat.len();
        } else {
            proof {
                if pat@.len() <= remaining {
                    assert(s@.skip(i as int).take(pat@.len() as int) =~= s@.subrange(
                        i as int,
                        i + pat@.len(),
                    ));
                }
                assert(s@.skip(i as int).skip(1) =~= s@.skip(i + 1));
                assert(s@.skip(i as int)[0] == s@[i as int]);
                assert(out@.push(s@[i as int]) + spec_replace_all(s@.skip(i + 1), pat@, sub@)
                    =~= out@ + (seq![s@[i as int]] + spec_replace_all(s@.skip(i + 1), pat@, sub@)));
            }
            out.push(s[i]);
            i = i + 1;
        }
    }
    proof {
        assert(s@.skip(s@.len() as int) =~= Seq::<char>::empty());
        assert(out@ + Seq::<char>::empty() =~= out@);
    }
    out
}

/// The fields of `s` from position `i` on, split at commas, with `cur` the
/// partial field accumulated so far.
pub open spec fn split_fields_from(s: Seq<char>, i: int, cur: Seq<char>) -> Seq<Seq<char>>
    decreases s.len() - i,
{
    if i < 0 || i >= s.len() {
        seq![cur]
    } else if s[i] == ',' {
        seq![cur] + split_fields_from(s, i + 1, seq![])
    } else {
        split_fields_from(s, i + 1, cur.push(s[i]))
    }
}

/// The fields of a comma-joined classification expression, in order.
/// An expression without commas is a single field; every comma separates
/// two fields, so the empty string has one empty field.
pub open spec fn split_fields(s: Seq<char>) -> Seq<Seq<char>> {
    split_fields_from(s, 0, seq![])
}

proof fn lemma_split_from_nonempty(s: Seq<char>, i: int, cur: Seq<char>)
    ensures
        split_fields_from(s, i, cur).len() >= 1,
    decreases s.len() - i,
{
    if 0 <= i < s.len() {
        if s[i] == ',' {
        } else {
            lemma_split_from_nonempty(s, i + 1, cur.push(s[i]));
        }
    }
}

/// Splitting always yields at least one field.
pub proof fn lemma_split_fields_nonempty(s: Seq<char>)
    ensures
        split_fields(s).len() >= 1,
{
    lemma_split_from_nonempty(s, 0, seq![]);
}

/// Splits a comma-joined expression into its fields.
pub fn split_commas(s: &Vec<char>) -> (r: Vec<Vec<char>>)
    ensures
        r.deep_view() == split_fields(s@),
{
    let mut r: Vec<Vec<char>> = Vec::new();
    let mut cur: Vec<char> = Vec::new();
    let mut i: usize = 0;
    proof {
        assert(r.deep_view() =~~= Seq::<Seq<char>>::empty());
        assert(Seq::<Seq<char>>::empty() + split_fields_from(s@, 0, seq![]) =~= split_fields_from(
            s@,
            0,
            seq![],
        ));
    }
    while i < s.len()
        invariant
            i <= s@.len(),
            split_fields(s@) == r.deep_view() + split_fields_from(s@, i as int, cur@),
        decreases s@.len() - i,
    {
        let c = s[i];
        if c == ',' {
            let ghost prev_r = r.deep_view();
            let ghost prev_cur = cur@;
            r.push(cur);
            cur = Vec::new();
            proof {
                assert(r.deep_view() =~~= prev_r.push(prev_cur));
                assert(split_fields_from(s@, i as int, prev_cur) == seq![prev_cur]
                    + split_fields_from(s@, i + 1, Seq::<char>::empty()));
                assert(prev_r.push(prev_cur) + split_fields_from(s@, i + 1, Seq::<char>::empty())
                    =~= prev_r + (seq![prev_cur] + split_fields_from(
                    s@,
                    i + 1,
                    Seq::<char>::empty(),
                )));
                assert(cur@ =~= Seq::<char>::empty());
            }
        } else {
            cur.push(c);
        }
        i = i + 1;
    }
    let ghost prev_r = r.deep_view();
    let ghost prev_cur = cur@;
    r.push(cur);
    proof {
        assert(r.deep_view() =~~= prev_r.push(prev_cur));
        assert(split_fields_from(s@, s@.len() as int, prev_cur) == seq![prev_cur]);
        assert(prev_r.push(prev_cur) =~= prev_r + seq![prev_cur]);
    }
    r
}

/// The decimal digit character for a value below ten.
pub open spec fn digit_char(d: int) -> char {
    if d == 0 {
        '0'
    } else if d == 1 {
        '1'
    } else if d == 2 {
        '2'
    } else if d == 3 {
        '3'
    } else if d == 4 {
        '4'
    } else if d == 5 {
        '5'
    } else if d == 6 {
        '6'
    } else if d == 7 {
        '7'
    } else if d == 8 {
        '8'
    } else {
        '9'
    }
}

/// The decimal rendering of a nonnegative integer, without sign or padding.
pub open spec fn dec_digits(n: int) -> Seq<char>
    decreases n,
{
    if n < 10 {
        seq![digit_char(n)]
    } else {
        dec_digits(n / 10).push(digit_char(n % 10))
    }
}

/// The decimal rendering of an integer, with a leading minus sign when
/// negative.
pub open spec fn dec_str(n: int) -> Seq<char> {
    if n < 0 {
        seq!['-'] + dec_digits(-n)
    } else {
        dec_digits(n)
    }
}

fn push_dec_u64(n: u64, out: &mut Vec<char>)
    ensures
        final(out)@ == old(out)@ + dec_digits(n as int),
    decreases n,
{
    if n < 10 {
        let d = digit_char_of(n);
        out.push(d);
        proof {
            assert(old(out)@.push(digit_char(n as int)) =~= old(out)@ + dec_digits(n as int));
        }
    } else {
        push_dec_u64(n / 10, out);
        let d = digit_char_of(n % 10);
        out.push(d);
        proof {
            assert((old(out)@ + dec_digits(n as int / 10)).push(digit_char(n as int % 10)) =~= old(
                out,
            )@ + dec_digits(n as int));
        }
    }
}

fn digit_char_of(d: u64) -> (c: char)
    requires
        d < 10,
    ensures
        c == digit_char(d as int),
{
    if d == 0 {
        '0'
    } else if d == 1 {
        '1'
    } else if d == 2 {
        '2'
    } else if d == 3 {
        '3'
    } else if d == 4 {
        '4'
    } else if d == 5 {
        '5'
    } else if d == 6 {
        '6'
    } else if d == 7 {
        '7'
    } else if d == 8 {
        '8'
    } else {
        '9'
    }
}

/// The decimal rendering of an integer, as a string.
pub fn int_to_string(n: i32) -> (r: String)
    ensures
        r@ == dec_str(n as int),
{
    let mut out: Vec<char> = Vec::new();
    if n < 0 {
        out.push('-');
        let mag: u64 = (-(n as i64)) as u64;
        push_dec_u64(mag, &mut out);
        proof {
            assert(seq!['-'] + dec_digits(-(n as int)) =~= dec_str(n as int));
        }
    } else {
        push_dec_u64(n as u64, &mut out);
    }
    string_of(&out)
}

/// The numeric value of a sequence of decimal digit characters, read most
/// significant first; meaningful only when every character is a digit.
pub open spec fn digits_value(s: Seq<char>) -> int
    decreases s.len(),
{
    if s.len() == 0 {
        0
    } else {
        digits_value(s.drop_last()) * 10 + (s.last() as int - '0' as int)
    }
}

/// Whether every character of `s` is a decimal digit.
pub open spec fn all_digits(s: Seq<char>) -> bool {
    forall|i: int| 0 <= i < s.len() ==> '0' <= #[trigger] s[i] <= '9'
}

/// The integer denoted by `s`: an optional leading sign followed by at
/// least one decimal digit.  `None` when `s` has another shape or the value
/// does not fit in an `i32`.
pub open spec fn spec_parse_i32(s: Seq<char>) -> Option<int> {
    if s.len() >= 1 && s[0] == '-' {
        let ds = s.skip(1);
        if ds.len() >= 1 && all_digits(ds) && -digits_value(ds) >= i32::MIN {
            Some(-digits_value(ds))
        } else {
            None
        }
    } else if s.len() >= 1 && s[0] == '+' {
        let ds = s.skip(1);
        if ds.len() >= 1 && all_digits(ds) && digits_value(ds) <= i32::MAX {
            Some(digits_value(ds))
        } else {
            None
        }
    } else {
        if s.len() >= 1 && all_digits(s) && digits_value(s) <= i32::MAX {
            Some(digits_value(s))
        } else {
            None
        }
    }
}

proof fn lemma_digits_value_nonneg(s: Seq<char>)
    requires
        all_digits(s),
    ensures
        digits_value(s) >= 0,
    decreases s.len(),
{
    if s.len() > 0 {
        assert(all_digits(s.drop_last())) by {
            assert(forall|i: int|
                0 <= i < s.len() - 1 ==> '0' <= #[trigger] s.drop_last()[i] <= '9');
        }
        lemma_digits_value_nonneg(s.drop_last());
    }
}

fn parse_digits(s: &Vec<char>, from: usize) -> (r: Option<u32>)
    requires
        from <= s@.len(),
    ensures
        r is Some ==> {
            &&& s@.len() - from >= 1
            &&& all_digits(s@.skip(from as int))
            &&& digits_value(s@.skip(from as int)) == r->0 as int
        },
        r is None ==> s@.len() - from < 1 || !all_digits(s@.skip(from as int)) || digits_value(
            s@.skip(from as int),
        ) > u32::MAX,
{
    if from >= s.len() {
        return None;
    }
    let mut acc: u32 = 0;
    let mut i: usize = from;
    while i < s.len()
        invariant
            from <= i <= s@.len(),
            all_digits(s@.subrange(from as int, i as int)),
            acc as int == digits_value(s@.subrange(from as int, i as int)),
        decreases s@.len() - i,
    {
        let c = s[i];
        if c < '0' || c > '9' {
            proof {
                lemma_all_digits_extends(s@, from as int, i as int);
            }
            return None;
        }
        let d: u32 = (c as u32) - 48;
        proof {
            assert('0' as int == 48 && '9' as int == 57);
        }
        if acc > (u32::MAX - d) / 10 {
            proof {
                lemma_digits_prefix_bound(s@, from as int, i as int);
            }
            return None;
        }
        acc = acc * 10 + d;
        i = i + 1;
        proof {
            assert(s@.subrange(from as int, i as int).drop_last() =~= s@.subrange(
                from as int,
                i - 1,
            ));
            assert(s@.subrange(from as int, i as int).last() == s@[i - 1]);
        }
    }
    proof {
        assert(s@.subrange(from as int, s@.len() as int) =~= s@.skip(from as int));
    }
    Some(acc)
}

proof fn lemma_all_digits_extends(s: Seq<char>, from: int, bad: int)
    requires
        0 <= from <= bad < s.len(),
        !('0' <= s[bad] <= '9'),
    ensures
        !all_digits(s.skip(from)),
{
    assert(s.skip(from)[bad - from] == s[bad]);
}

proof fn lemma_digits_prefix_bound(s: Seq<char>, from: int, i: int)
    requires
        0 <= from <= i < s.len(),
        all_digits(s.subrange(from, i)),
        '0' <= s[i] <= '9',
        digits_value(s.subrange(from, i)) * 10 + (s[i] as int - '0' as int) > u32::MAX,
    ensures
        all_digits(s.skip(from)) ==> digits_value(s.skip(from)) > u32::MAX,
    decreases s.len() - i,
{
    if all_digits(s.skip(from)) {
        assert(s.subrange(from, i + 1).drop_last() =~= s.subrange(from, i));
        assert(s.subrange(from, i + 1).last() == s[i]);
        lemma_digits_monotone(s, from, i + 1);
    }
}

proof fn lemma_digits_monotone(s: Seq<char>, from: int, i: int)
    requires
        0 <= from <= i <= s.len(),
        all_digits(s.skip(from)),
    ensures
        digits_value(s.skip(from)) >= digits_value(s.subrange(from, i)),
        digits_value(s.subrange(from, i)) >= 0,
    decreases s.len() - i,
{
    assert forall|j: int| from <= j < s.len() implies '0' <= #[trigger] s[j] <= '9' by {
        assert(s.skip(from)[j - from] == s[j]);
    }
    if i == s.len() {
        assert(s.subrange(from, i) =~= s.skip(from));
        assert(forall|j: int|
            0 <= j < i - from ==> '0' <= #[trigger] s.subrange(from, i)[j] <= '9');
        lemma_digits_value_nonneg(s.subrange(from, i));
    } else {
        lemma_digits_monotone(s, from, i + 1);
        assert(s.subrange(from, i + 1).drop_last() =~= s.subrange(from, i));
        assert(s.subrange(from, i + 1).last() == s[i]);
        assert(forall|j: int|
            0 <= j < i - from ==> '0' <= #[trigger] s.subrange(from, i)[j] <= '9');
        lemma_digits_value_nonneg(s.subrange(from, i));
    }
}

/// Parses an integer written as an optional sign and decimal digits.
pub fn parse_i32(s: &Vec<char>) -> (r: Option<i32>)
    ensures
        r is Some ==> spec_parse_i32(s@) == Some(r->0 as int),
        r is None ==> spec_parse_i32(s@) is None,
{
    if s.len() >= 1 && s[0] == '+' {
        match parse_digits(s, 1) {
            Some(v) => {
                proof {
                    lemma_digits_value_nonneg(s@.skip(1));
                }
                if v <= i32::MAX as u32 {
                    Some(v as i32)
                } else {
                    None
                }
            },
            None => {
                proof {
                    if s@.skip(1).len() >= 1 && all_digits(s@.skip(1)) {
                        lemma_digits_value_nonneg(s@.skip(1));
                    }
                }
                None
            },
        }
    } else if s.len() >= 1 && s[0] == '-' {
        match parse_digits(s, 1) {
            Some(v) => {
                proof {
                    lemma_digits_value_nonneg(s@.skip(1));
                }
                if v <= 0x8000_0000u32 {
                    let neg: i32 = (-(v as i64)) as i32;
                    Some(neg)
                } else {
                    None
                }
            },
            None => {
                proof {
                    if s@.skip(1).len() >= 1 && all_digits(s@.skip(1)) {
                        lemma_digits_value_nonneg(s@.skip(1));
                    }
                }
                None
            },
        }
    } else {
        match parse_digits(s, 0) {
            Some(v) => {
                proof {
                    assert(s@.skip(0) =~= s@);
                }
                if v <= i32::MAX as u32 {
                    Some(v as i32)
                } else {
                    None
                }
            },
            None => {
                proof {
                    assert(s@.skip(0) =~= s@);
                }
                None
            },
        }
    }
}

} // verus!
