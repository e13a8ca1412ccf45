//! The dictionary store: two keyed collections of output entries — system
//! and user — deduplicated by (reading, surface, id) with last-write-wins,
//! and rendered to tab-separated output rows with a suppression rule between
//! the two collections.

use vstd::prelude::*;

use crate::text::{dec_str, int_to_string, str_eq};

verus! {

/// The key under which output entries deduplicate: reading, surface form and
/// canonical id.
pub struct DictionaryKey {
    pub yomi: String,
    pub surface: String,
    pub hinshi_id: i32,
}

/// One output entry: its key, the normalized cost, and the coarse label
/// (empty outside user-dictionary mode).
pub struct DictionaryEntry {
    pub key: DictionaryKey,
    pub cost: i32,
    pub pos: String,
}

/// The system and user collections of one conversion run.
pub struct DictionaryData {
    pub entries: Vec<DictionaryEntry>,
    pub user_entries: Vec<DictionaryEntry>,
}

/// The mathematical content of a key.
pub open spec fn key_view(k: DictionaryKey) -> (Seq<char>, Seq<char>, int) {
    (k.yomi@, k.surface@, k.hinshi_id as int)
}

/// The mathematical content of an entry: key, cost, label.
pub open spec fn entry_view(e: DictionaryEntry) -> (
    (Seq<char>, Seq<char>, int),
    int,
    Seq<char>,
) {
    (key_view(e.key), e.cost as int, e.pos@)
}

/// The content of a collection, entry by entry in insertion order.
pub open spec fn entries_model(v: Seq<DictionaryEntry>) -> Seq<
    ((Seq<char>, Seq<char>, int), int, Seq<char>),
> {
    Seq::new(v.len(), |i: int| entry_view(v[i]))
}

/// The position of the first entry from `i` on carrying key `k`.
pub open spec fn entry_key_index_from(
    s: Seq<((Seq<char>, Seq<char>, int), int, Seq<char>)>,
    k: (Seq<char>, Seq<char>, int),
    i: int,
) -> Option<int>
    decreases s.len() - i,
{
    if i < 0 || i >= s.len() {
        None
    } else if s[i].0 == k {
        Some(i)
    } else {
        entry_key_index_from(s, k, i + 1)
    }
}

/// Whether some entry carries key `k`.
pub open spec fn has_key(
    s: Seq<((Seq<char>, Seq<char>, int), int, Seq<char>)>,
    k: (Seq<char>, Seq<char>, int),
) -> bool {
    entry_key_index_from(s, k, 0) is Some
}

/// Insertion with last-write-wins deduplication: an entry whose key is
/// already present takes that entry's place; a new key is appended.
pub open spec fn store_add(
    s: Seq<((Seq<char>, Seq<char>, int), int, Seq<char>)>,
    e: ((Seq<char>, Seq<char>, int), int, Seq<char>),
) -> Seq<((Seq<char>, Seq<char>, int), int, Seq<char>)> {
    match entry_key_index_from(s, e.0, 0) {
        Some(j) => s.update(j, e),
        None => s.push(e),
    }
}

/// No two entries share a key.
pub open spec fn unique_keys(s: Seq<((Seq<char>, Seq<char>, int), int, Seq<char>)>) -> bool {
    forall|i: int, j: int| 0 <= i < j < s.len() ==> (#[trigger] s[i]).0 != (#[trigger] s[j]).0
}

impl DictionaryData {
    /// The system collection's content.
    pub open spec fn system_model(&self) -> Seq<((Seq<char>, Seq<char>, int), int, Seq<char>)> {
        entries_model(self.entries@)
    }

    /// The user collection's content.
    pub open spec fn user_model(&self) -> Seq<((Seq<char>, Seq<char>, int), int, Seq<char>)> {
        entries_model(self.user_entries@)
    }

    pub fn new() -> (r: DictionaryData)
        ensures
            r.system_model() == Seq::<((Seq<char>, Seq<char>, int), int, Seq<char>)>::empty(),
            r.user_model() == Seq::<((Seq<char>, Seq<char>, int), int, Seq<char>)>::empty(),
    {
        let r = DictionaryData { entries: Vec::new(), user_entries: Vec::new() };
        proof {
            assert(r.system_model() =~= Seq::<
                ((Seq<char>, Seq<char>, int), int, Seq<char>),
            >::empty());
            assert(r.user_model() =~= Seq::<
                ((Seq<char>, Seq<char>, int), int, Seq<char>),
            >::empty());
        }
        r
    }

    /// Records an entry in the chosen collection; an entry under an already
    /// present key silently overwrites the earlier one.
    pub fn add(&mut self, entry: DictionaryEntry, is_user_dict: bool)
        ensures
            is_user_dict ==> final(self).user_model() == store_add(
                old(self).user_model(),
                entry_view(entry),
            ) && final(self).system_model() == old(self).system_model(),
            !is_user_dict ==> final(self).system_model() == store_add(
                old(self).system_model(),
                entry_view(entry),
            ) && final(self).user_model() == old(self).user_model(),
    {
        let ghost ev = entry_view(entry);
        if is_user_dict {
            let pos = find_key_pos(&self.user_entries, &entry.key);
            match pos {
                Some(j) => {
                    self.user_entries.set(j, entry);
                    proof {
                        assert(self.user_model() =~~= store_add(old(self).user_model(), ev));
                        assert(self.system_model() =~~= old(self).system_model());
                    }
                },
                None => {
                    self.user_entries.push(entry);
                    proof {
                        assert(self.user_model() =~~= store_add(old(self).user_model(), ev));
                        assert(self.system_model() =~~= old(self).system_model());
                    }
                },
            }
        } else {
            let pos = find_key_pos(&self.entries, &entry.key);
            match pos {
                Some(j) => {
                    self.entries.set(j, entry);
                    proof {
                        assert(self.system_model() =~~= store_add(old(self).system_model(), ev));
                        assert(self.user_model() =~~= old(self).user_model());
                    }
                },
                None => {
                    self.entries.push(entry);
                    proof {
                        assert(self.system_model() =~~= store_add(old(self).system_model(), ev));
                        assert(self.user_model() =~~= old(self).user_model());
                    }
                },
            }
        }
    }
}

proof fn lemma_entry_key_index_content(
    s: Seq<((Seq<char>, Seq<char>, int), int, Seq<char>)>,
    k: (Seq<char>, Seq<char>, int),
    i: int,
)
    requires
        0 <= i,
        entry_key_index_from(s, k, i) is Some,
    ensures
        ({
            let j = entry_key_index_from(s, k, i)->0;
            &&& i <= j < s.len()
            &&& s[j].0 == k
        }),
    decreases s.len() - i,
{
    if i < s.len() && s[i].0 != k {
        lemma_entry_key_index_content(s, k, i + 1);
    }
}

fn find_key_pos(v: &Vec<DictionaryEntry>, key: &DictionaryKey) -> (r: Option<usize>)
    ensures
        match r {
            Some(j) => entry_key_index_from(entries_model(v@), key_view(*key), 0) == Some(j as int)
                && (j as int) < v@.len(),
            None => entry_key_index_from(entries_model(v@), key_view(*key), 0) is None,
        },
{
    let mut i: usize = 0;
    while i < v.len()
        invariant
            i <= v@.len(),
            entry_key_index_from(entries_model(v@), key_view(*key), 0) == entry_key_index_from(
                entries_model(v@),
                key_view(*key),
                i as int,
            ),
        decreases v@.len() - i,
    {
        if v[i].key.hinshi_id == key.hinshi_id && str_eq(v[i].key.yomi.as_str(), key.yomi.as_str())
            && str_eq(v[i].key.surface.as_str(), key.surface.as_str()) {
            proof {
                assert(entries_model(v@)[i as int].0 == key_view(*key));
            }
            return Some(i);
        }
        i = i + 1;
    }
    None
}

/// The tab separator of output rows.
pub open spec fn tab() -> Seq<char> {
    seq!['\t']
}

/// A system-dictionary row: reading, id twice, cost, surface form.
pub open spec fn row5(e: ((Seq<char>, Seq<char>, int), int, Seq<char>)) -> Seq<char> {
    let k = e.0;
    k.0 + tab() + dec_str(k.2) + tab() + dec_str(k.2) + tab() + dec_str(e.1) + tab() + k.1
}

/// A user-dictionary row: reading, surface form, label, empty trailing
/// field.
pub open spec fn row4(e: ((Seq<char>, Seq<char>, int), int, Seq<char>)) -> Seq<char> {
    let k = e.0;
    k.0 + tab() + k.1 + tab() + e.2 + tab()
}

/// The system output: one row per system entry, in order.
pub open spec fn system_rows(s: Seq<((Seq<char>, Seq<char>, int), int, Seq<char>)>) -> Seq<
    Seq<char>,
>
    decreases s.len(),
{
    if s.len() == 0 {
        Seq::<Seq<char>>::empty()
    } else {
        system_rows(s.drop_last()).push(row5(s.last()))
    }
}

/// The user entries that reach the output: those whose key is absent from
/// the system collection, in order.
pub open spec fn user_emitted(
    user: Seq<((Seq<char>, Seq<char>, int), int, Seq<char>)>,
    system: Seq<((Seq<char>, Seq<char>, int), int, Seq<char>)>,
) -> Seq<((Seq<char>, Seq<char>, int), int, Seq<char>)>
    decreases user.len(),
{
    if user.len() == 0 {
        Seq::<((Seq<char>, Seq<char>, int), int, Seq<char>)>::empty()
    } else {
        let prev = user_emitted(user.drop_last(), system);
        if has_key(system, user.last().0) {
            prev
        } else {
            prev.push(user.last())
        }
    }
}

/// The user output: one row per emitted user entry, in order.
pub open spec fn user_rows(
    user: Seq<((Seq<char>, Seq<char>, int), int, Seq<char>)>,
    system: Seq<((Seq<char>, Seq<char>, int), int, Seq<char>)>,
) -> Seq<Seq<char>>
    decreases user.len(),
{
    if user.len() == 0 {
        Seq::<Seq<char>>::empty()
    } else {
        let prev = user_rows(user.drop_last(), system);
        if has_key(system, user.last().0) {
            prev
        } else {
            prev.push(row4(user.last()))
        }
    }
}

fn render_row5(e: &DictionaryEntry) -> (r: String)
    ensures
        r@ == row5(entry_view(*e)),
{
    let mut s = String::new();
    s.append(e.key.yomi.as_str());
    s.append("\t");
    let id_s = int_to_string(e.key.hinshi_id);
    s.append(id_s.as_str());
    s.append("\t");
    s.append(id_s.as_str());
    s.append("\t");
    let cost_s = int_to_string(e.cost);
    s.append(cost_s.as_str());
    s.append("\t");
    s.append(e.key.surface.as_str());
    proof {
        reveal_strlit("\t");
        assert("\t"@ =~= tab());
        assert(s@ =~= row5(entry_view(*e)));
    }
    s
}

fn render_row4(e: &DictionaryEntry) -> (r: String)
    ensures
        r@ == row4(entry_view(*e)),
{
    let mut s = String::new();
    s.append(e.key.yomi.as_str());
    s.append("\t");
    s.append(e.key.surface.as_str());
    s.append("\t");
    s.append(e.pos.as_str());
    s.append("\t");
    proof {
        reveal_strlit("\t");
        assert("\t"@ =~= tab());
        assert(s@ =~= row4(entry_view(*e)));
    }
    s
}

impl DictionaryData {
    fn has_system_key(&self, key: &DictionaryKey) -> (r: bool)
        ensures
            r == has_key(self.system_model(), key_view(*key)),
    {
        match find_key_pos(&self.entries, key) {
            Some(_) => true,
            None => false,
        }
    }

    /// The output rows of the run: in user-dictionary mode one row for every
    /// user entry whose key the system collection does not hold, otherwise
    /// one row for every system entry.
    #[verifier::loop_isolation(false)]
    pub fn output(&self, user_dict: bool) -> (rows: Vec<String>)
        ensures
            !user_dict ==> rows.deep_view() == system_rows(self.system_model()),
            user_dict ==> rows.deep_view() == user_rows(self.user_model(), self.system_model()),
    {
        let mut rows: Vec<String> = Vec::new();
        if !user_dict {
            let ghost m = self.system_model();
            let mut i: usize = 0;
            proof {
                assert(rows.deep_view() =~~= system_rows(m.take(0)));
            }
            while i < self.entries.len()
                invariant
                    i <= self.entries@.len(),
                    rows.deep_view() == system_rows(m.take(i as int)),
                decreases self.entries@.len() - i,
            {
                let ghost prev = rows.deep_view();
                let row = render_row5(&self.entries[i]);
                rows.push(row);
                i = i + 1;
                proof {
                    assert(m.take(i as int).drop_last() =~= m.take(i - 1));
                    assert(rows.deep_view() =~~= prev.push(row5(m[i - 1])));
                }
            }
            proof {
                assert(m.take(m.len() as int) =~= m);
            }
        } else {
            let ghost u = self.user_model();
            let ghost m = self.system_model();
            let mut i: usize = 0;
            proof {
                assert(rows.deep_view() =~~= user_rows(u.take(0), m));
            }
            while i < self.user_entries.len()
                invariant
                    i <= self.user_entries@.len(),
                    rows.deep_view() == user_rows(u.take(i as int), m),
                decreases self.user_entries@.len() - i,
            {
                let ghost prev = rows.deep_view();
                if !self.has_system_key(&self.user_entries[i].key) {
                    let row = render_row4(&self.user_entries[i]);
                    rows.push(row);
                    proof {
                        assert(rows.deep_view() =~~= prev.push(row4(u[i as int])));
                    }
                }
                i = i + 1;
                proof {
                    assert(u.take(i as int).drop_last() =~= u.take(i - 1));
                    assert(u.take(i as int).last() == u[i - 1]);
                }
            }
            proof {
                assert(u.take(u.len() as int) =~= u);
            }
        }
        rows
    }
}

proof fn lemma_store_add_unique(
    s: Seq<((Seq<char>, Seq<char>, int), int, Seq<char>)>,
    e: ((Seq<char>, Seq<char>, int), int, Seq<char>),
)
    requires
        unique_keys(s),
    ensures
        unique_keys(store_add(s, e)),
        has_key(store_add(s, e), e.0),
{
    let r = store_add(s, e);
    match entry_key_index_from(s, e.0, 0) {
        Some(j) => {
            lemma_entry_key_index_content(s, e.0, 0);
            assert forall|a: int, b: int| 0 <= a < b < r.len() implies (#[trigger] r[a]).0 != (
            #[trigger] r[b]).0 by {
                if a != j && b != j {
                    assert(r[a] == s[a] && r[b] == s[b]);
                }
            }
            lemma_key_found_at(r, e.0, j);
        },
        None => {
            lemma_no_key_means_all_differ(s, e.0, 0);
            assert forall|a: int, b: int| 0 <= a < b < r.len() implies (#[trigger] r[a]).0 != (
            #[trigger] r[b]).0 by {
                if b == s.len() as int {
                    assert(r[a] == s[a] && r[b] == e);
                }
            }
            lemma_key_found_at(r, e.0, s.len() as int);
        },
    }
}

proof fn lemma_no_key_means_all_differ(
    s: Seq<((Seq<char>, Seq<char>, int), int, Seq<char>)>,
    k: (Seq<char>, Seq<char>, int),
    i: int,
)
    requires
        0 <= i,
        entry_key_index_from(s, k, i) is None,
    ensures
        forall|t: int| i <= t < s.len() ==> (#[trigger] s[t]).0 != k,
    decreases s.len() - i,
{
    if i < s.len() {
        lemma_no_key_means_all_differ(s, k, i + 1);
    }
}

proof fn lemma_key_found_at(
    s: Seq<((Seq<char>, Seq<char>, int), int, Seq<char>)>,
    k: (Seq<char>, Seq<char>, int),
    j: int,
)
    requires
        0 <= j < s.len(),
        s[j].0 == k,
    ensures
        has_key(s, k),
{
    lemma_key_found_prefix(s, k, 0, j);
}

proof fn lemma_key_found_prefix(
    s: Seq<((Seq<char>, Seq<char>, int), int, Seq<char>)>,
    k: (Seq<char>, Seq<char>, int),
    i: int,
    j: int,
)
    requires
        0 <= i <= j < s.len(),
        s[j].0 == k,
    ensures
        entry_key_index_from(s, k, i) is Some,
    decreases j - i,
{
    if i < j && s[i].0 != k {
        lemma_key_found_prefix(s, k, i + 1, j);
    }
}

/// Dedup by key: inserting one entry and then another under the same key
/// leaves only the second — in the resulting collection every entry under
/// that key is the second entry, and the collection has grown by at most the
/// first insertion.
pub proof fn lemma_dedup_by_key(
    s: Seq<((Seq<char>, Seq<char>, int), int, Seq<char>)>,
    e1: ((Seq<char>, Seq<char>, int), int, Seq<char>),
    e2: ((Seq<char>, Seq<char>, int), int, Seq<char>),
)
    requires
        unique_keys(s),
        e1.0 == e2.0,
    ensures
        ({
            let r = store_add(store_add(s, e1), e2);
            &&& unique_keys(r)
            &&& has_key(r, e2.0)
            &&& forall|i: int| 0 <= i < r.len() && (#[trigger] r[i]).0 == e2.0 ==> r[i] == e2
            &&& r.len() == store_add(s, e1).len()
        }),
{
    let m = store_add(s, e1);
    lemma_store_add_unique(s, e1);
    lemma_store_add_unique(m, e2);
    let r = store_add(m, e2);
    lemma_entry_key_index_content(m, e2.0, 0);
    let j = entry_key_index_from(m, e2.0, 0)->0;
    assert(r == m.update(j, e2));
    assert forall|i: int| 0 <= i < r.len() && (#[trigger] r[i]).0 == e2.0 implies r[i] == e2 by {
        if i != j {
            assert(r[i] == m[i] && r[j] == e2);
            assert(m[j].0 == e2.0);
        }
    }
}

/// User/system suppression: a key present in the system collection never
/// reaches the user output — no emitted user entry carries it — while the
/// system output carries a row for it at that entry's position.
pub proof fn lemma_user_system_suppression(
    user: Seq<((Seq<char>, Seq<char>, int), int, Seq<char>)>,
    system: Seq<((Seq<char>, Seq<char>, int), int, Seq<char>)>,
    k: (Seq<char>, Seq<char>, int),
)
    requires
        has_key(system, k),
    ensures
        forall|j: int|
            0 <= j < user_emitted(user, system).len() ==> (#[trigger] user_emitted(
                user,
                system,
            )[j]).0 != k,
        ({
            let i = entry_key_index_from(system, k, 0)->0;
            &&& 0 <= i < system.len()
            &&& system[i].0 == k
            &&& system_rows(system).len() == system.len()
            &&& system_rows(system)[i] == row5(system[i])
        }),
{
    lemma_user_emitted_suppresses(user, system, k);
    lemma_entry_key_index_content(system, k, 0);
    lemma_system_rows_complete(system);
}

proof fn lemma_user_emitted_suppresses(
    user: Seq<((Seq<char>, Seq<char>, int), int, Seq<char>)>,
    system: Seq<((Seq<char>, Seq<char>, int), int, Seq<char>)>,
    k: (Seq<char>, Seq<char>, int),
)
    requires
        has_key(system, k),
    ensures
        forall|j: int|
            0 <= j < user_emitted(user, system).len() ==> (#[trigger] user_emitted(
                user,
                system,
            )[j]).0 != k,
    decreases user.len(),
{
    if user.len() > 0 {
        lemma_user_emitted_suppresses(user.drop_last(), system, k);
        let prev = user_emitted(user.drop_last(), system);
        let cur = user_emitted(user, system);
        assert forall|j: int| 0 <= j < cur.len() implies (#[trigger] cur[j]).0 != k by {
            if !has_key(system, user.last().0) && j == prev.len() {
                assert(cur[j] == user.last());
            } else {
                assert(cur[j] == prev[j]);
            }
        }
    }
}

/// The user output renders exactly the emitted user entries, in order.
pub proof fn lemma_user_rows_render_emitted(
    user: Seq<((Seq<char>, Seq<char>, int), int, Seq<char>)>,
    system: Seq<((Seq<char>, Seq<char>, int), int, Seq<char>)>,
)
    ensures
        user_rows(user, system).len() == user_emitted(user, system).len(),
        forall|i: int|
            0 <= i < user_emitted(user, system).len() ==> #[trigger] user_rows(user, system)[i]
                == row4(user_emitted(user, system)[i]),
    decreases user.len(),
{
    if user.len() > 0 {
        lemma_user_rows_render_emitted(user.drop_last(), system);
        let pe = user_emitted(user.drop_last(), system);
        let pr = user_rows(user.drop_last(), system);
        assert forall|i: int|
            0 <= i < user_emitted(user, system).len() implies #[trigger] user_rows(
            user,
            system,
        )[i] == row4(user_emitted(user, system)[i]) by {
            if !has_key(system, user.last().0) && i == pe.len() {
                assert(user_emitted(user, system)[i] == user.last());
                assert(user_rows(user, system)[i] == row4(user.last()));
            } else {
                assert(user_emitted(user, system)[i] == pe[i]);
                assert(user_rows(user, system)[i] == pr[i]);
            }
        }
    }
}

/// The system output has exactly one row per entry, in order.
pub proof fn lemma_system_rows_complete(s: Seq<((Seq<char>, Seq<char>, int), int, Seq<char>)>)
    ensures
        system_rows(s).len() == s.len(),
        forall|i: int| 0 <= i < s.len() ==> #[trigger] system_rows(s)[i] == row5(s[i]),
    decreases s.len(),
{
    if s.len() > 0 {
        lemma_system_rows_complete(s.drop_last());
        assert forall|i: int| 0 <= i < s.len() implies #[trigger] system_rows(s)[i] == row5(
            s[i],
        ) by {
            if i < s.len() - 1 {
                assert(system_rows(s)[i] == system_rows(s.drop_last())[i]);
                assert(s.drop_last()[i] == s[i]);
            }
        }
    }
}

} // verus!
