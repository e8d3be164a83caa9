//! An ordered map from strings to values, backed by a vector of entries
//! sorted strictly ascending by key. The document's path table, response
//! tables, content tables and component registries all use it: iteration
//! order over keys is an observable contract of the extractor, so the map
//! must be ordered, not hashed.

use vstd::prelude::*;
use vstd::string::StrSliceExecFns;

verus! {

/// Strict lexicographic order on character sequences, by character code.
pub open spec fn seq_lt(a: Seq<char>, b: Seq<char>) -> bool
    decreases a.len(),
{
    if b.len() == 0 {
        false
    } else if a.len() == 0 {
        true
    } else if (a[0] as int) < (b[0] as int) {
        true
    } else if a[0] == b[0] {
        seq_lt(a.drop_first(), b.drop_first())
    } else {
        false
    }
}

/// Of two character sequences, either one is strictly below the other or
/// they are equal — never more than one of the three.
pub proof fn lemma_seq_lt_trichotomy(a: Seq<char>, b: Seq<char>)
    ensures
        seq_lt(a, b) || seq_lt(b, a) || a == b,
        !(seq_lt(a, b) && seq_lt(b, a)),
        seq_lt(a, b) ==> a != b,
        seq_lt(b, a) ==> a != b,
    decreases a.len(),
{
    if a.len() == 0 && b.len() == 0 {
        assert(a =~= b);
    } else if a.len() > 0 && b.len() > 0 {
        lemma_seq_lt_trichotomy(a.drop_first(), b.drop_first());
        if a[0] == b[0] {
            if a.drop_first() == b.drop_first() {
                assert forall|i: int| 0 <= i < a.len() implies a[i] == b[i] by {
                    if i >= 1 {
                        assert(a[i] == a.drop_first()[i - 1]);
                        assert(b[i] == b.drop_first()[i - 1]);
                    }
                }
                assert(a =~= b);
            } else if seq_lt(a.drop_first(), b.drop_first()) {
                assert(seq_lt(a, b));
            } else {
                assert(seq_lt(b.drop_first(), a.drop_first()));
                assert(seq_lt(b, a));
            }
        } else {
            assert(a[0] as int != b[0] as int);
            if (a[0] as int) < (b[0] as int) {
                assert(seq_lt(a, b));
            } else {
                assert(seq_lt(b, a));
            }
        }
        if a == b {
            assert(a.drop_first() =~= b.drop_first());
        }
    } else {
        if a == b {
            assert(a.len() == b.len());
        } else if a.len() == 0 {
            assert(seq_lt(a, b));
        } else {
            assert(seq_lt(b, a));
        }
    }
}

/// The order is transitive.
pub proof fn lemma_seq_lt_trans(a: Seq<char>, b: Seq<char>, c: Seq<char>)
    requires
        seq_lt(a, b),
        seq_lt(b, c),
    ensures
        seq_lt(a, c),
    decreases a.len(),
{
    if a.len() > 0 && b.len() > 0 && c.len() > 0 {
        if a[0] == b[0] && b[0] == c[0] {
            lemma_seq_lt_trans(a.drop_first(), b.drop_first(), c.drop_first());
        }
    }
}

/// Whether `a` and `b` read the same.
pub fn str_eq(a: &str, b: &str) -> (r: bool)
    ensures
        r == (a@ == b@),
{
    let an = a.unicode_len();
    let bn = b.unicode_len();
    if an != bn {
        proof {
            assert(a@ != b@);
        }
        return false;
    }
    let mut i: usize = 0;
    while i < an
        invariant
            i <= an,
            an == a@.len(),
            an == b@.len(),
            forall|j: int| 0 <= j < i ==> a@[j] == b@[j],
        decreases an - i,
    {
        if a.get_char(i) != b.get_char(i) {
            return false;
        }
        i = i + 1;
    }
    proof {
        assert(a@ =~= b@);
    }
    true
}

/// Whether `a` reads strictly below `b` in lexicographic order.
pub fn str_lt(a: &str, b: &str) -> (r: bool)
    ensures
        r == seq_lt(a@, b@),
{
    let an = a.unicode_len();
    let bn = b.unicode_len();
    let mut i: usize = 0;
    proof {
        assert(a@.skip(0) =~= a@);
        assert(b@.skip(0) =~= b@);
    }
    loop
        invariant
            i <= an,
            i <= bn,
            an == a@.len(),
            bn == b@.len(),
            seq_lt(a@, b@) == seq_lt(a@.skip(i as int), b@.skip(i as int)),
        decreases an - i,
    {
        proof {
            assert(a@.skip(i as int).len() == an - i);
            assert(b@.skip(i as int).len() == bn - i);
        }
        if i == bn {
            return false;
        }
        if i == an {
            return true;
        }
        let ca = a.get_char(i);
        let cb = b.get_char(i);
        proof {
            assert(a@.skip(i as int)[0] == a@[i as int]);
            assert(b@.skip(i as int)[0] == b@[i as int]);
            assert(a@.skip(i as int).drop_first() =~= a@.skip(i as int + 1));
            assert(b@.skip(i as int).drop_first() =~= b@.skip(i as int + 1));
        }
        if (ca as u32) < (cb as u32) {
            return true;
        }
        if ca != cb {
            return false;
        }
        i = i + 1;
    }
}

/// The finite map described by a sequence of key/value entries; a repeated
/// key takes its rightmost value.
pub open spec fn seq_kv_map<T>(s: Seq<(Seq<char>, T)>) -> Map<Seq<char>, T>
    decreases s.len(),
{
    if s.len() == 0 {
        Map::empty()
    } else {
        seq_kv_map(s.drop_last()).insert(s.last().0, s.last().1)
    }
}

/// A key is in the map exactly when some entry carries it.
pub proof fn lemma_seq_kv_map_domain<T>(s: Seq<(Seq<char>, T)>, k: Seq<char>)
    ensures
        seq_kv_map(s).contains_key(k) <==> exists|i: int| 0 <= i < s.len() && s[i].0 == k,
    decreases s.len(),
{
    if s.len() > 0 {
        lemma_seq_kv_map_domain(s.drop_last(), k);
        if seq_kv_map(s).contains_key(k) {
            if s.last().0 == k {
                assert(s[s.len() - 1].0 == k);
            } else {
                let i = choose|i: int| 0 <= i < s.drop_last().len() && s.drop_last()[i].0 == k;
                assert(s[i].0 == k);
            }
        }
        if exists|i: int| 0 <= i < s.len() && s[i].0 == k {
            let i = choose|i: int| 0 <= i < s.len() && s[i].0 == k;
            if i < s.len() - 1 {
                assert(s.drop_last()[i].0 == k);
            }
        }
    }
}

/// An entry that no later entry shadows gives the map's value at its key.
pub proof fn lemma_seq_kv_map_at<T>(s: Seq<(Seq<char>, T)>, i: int)
    requires
        0 <= i < s.len(),
        forall|j: int| i < j < s.len() ==> s[j].0 != s[i].0,
    ensures
        seq_kv_map(s).contains_key(s[i].0),
        seq_kv_map(s)[s[i].0] == s[i].1,
    decreases s.len(),
{
    if i == s.len() - 1 {
    } else {
        assert(s.drop_last()[i] == s[i]);
        lemma_seq_kv_map_at(s.drop_last(), i);
    }
}

/// An ordered map from strings to values: entries sorted strictly ascending
/// by key, so that keys are unique and iteration by index walks the keys in
/// ascending order. Built by `insert`; read by `get`, `key_at` and
/// `value_at`.
#[derive(Debug, PartialEq)]
pub struct StrMap<T> {
    pub entries: Vec<(String, T)>,
}

impl<T> StrMap<T> {
    /// Entries with keys reduced to character sequences.
    pub open spec fn entries_model(self) -> Seq<(Seq<char>, T)> {
        self.entries@.map_values(|e: (String, T)| (e.0@, e.1))
    }

    /// Well-formed: keys strictly ascending (hence unique).
    pub open spec fn wf(self) -> bool {
        forall|i: int, j: int|
            0 <= i < j < self.entries@.len() ==> seq_lt(
                #[trigger] self.entries@[i].0@,
                #[trigger] self.entries@[j].0@,
            )
    }

    /// The finite map this ordered map holds.
    pub open spec fn as_map(self) -> Map<Seq<char>, T> {
        seq_kv_map(self.entries_model())
    }

    /// In a well-formed map, distinct entries carry distinct keys.
    pub proof fn lemma_wf_keys_distinct(self)
        requires
            self.wf(),
        ensures
            forall|i: int, j: int|
                0 <= i < self.entries@.len() && 0 <= j < self.entries@.len() && i != j
                    ==> #[trigger] self.entries@[i].0@ != #[trigger] self.entries@[j].0@,
    {
        assert forall|i: int, j: int|
            0 <= i < self.entries@.len() && 0 <= j < self.entries@.len() && i != j implies #[trigger] self.entries@[i].0@
            != #[trigger] self.entries@[j].0@ by {
            if i < j {
                lemma_seq_lt_trichotomy(self.entries@[i].0@, self.entries@[j].0@);
            } else {
                lemma_seq_lt_trichotomy(self.entries@[j].0@, self.entries@[i].0@);
            }
        }
    }

    /// Each entry of a well-formed map gives the map's value at its key.
    pub proof fn lemma_entry_in_map(self, i: int)
        requires
            self.wf(),
            0 <= i < self.entries@.len(),
        ensures
            self.as_map().contains_key(self.entries@[i].0@),
            self.as_map()[self.entries@[i].0@] == self.entries@[i].1,
    {
        self.lemma_wf_keys_distinct();
        assert(self.entries_model()[i].0 == self.entries@[i].0@);
        lemma_seq_kv_map_at(self.entries_model(), i);
    }

    /// The empty map.
    pub fn new() -> (r: Self)
        ensures
            r.wf(),
            r.entries@.len() == 0,
            r.as_map() == Map::<Seq<char>, T>::empty(),
    {
        StrMap { entries: Vec::new() }
    }

    /// How many entries the map holds.
    pub fn len(&self) -> (n: usize)
        ensures
            n == self.entries@.len(),
    {
        self.entries.len()
    }

    /// The key of the entry at position `i` (ascending key order).
    pub fn key_at<'a>(&'a self, i: usize) -> (k: &'a String)
        requires
            i < self.entries@.len(),
        ensures
            k@ == self.entries@[i as int].0@,
    {
        &self.entries[i].0
    }

    /// The value of the entry at position `i` (ascending key order).
    pub fn value_at<'a>(&'a self, i: usize) -> (v: &'a T)
        requires
            i < self.entries@.len(),
        ensures
            *v == self.entries@[i as int].1,
    {
        &self.entries[i].1
    }

    /// Look a key up.
    pub fn get<'a>(&'a self, k: &str) -> (r: Option<&'a T>)
        requires
            self.wf(),
        ensures
            match r {
                Some(v) => self.as_map().contains_key(k@) && *v == self.as_map()[k@],
                None => !self.as_map().contains_key(k@),
            },
    {
        let n = self.entries.len();
        let mut i: usize = 0;
        while i < n
            invariant
                self.wf(),
                i <= n,
                n == self.entries@.len(),
                forall|j: int| 0 <= j < i ==> self.entries@[j].0@ != k@,
            decreases n - i,
        {
            if str_eq(self.entries[i].0.as_str(), k) {
                proof {
                    self.lemma_entry_in_map(i as int);
                }
                return Some(&self.entries[i].1);
            }
            i = i + 1;
        }
        proof {
            lemma_seq_kv_map_domain(self.entries_model(), k@);
        }
        None
    }

    /// Bind `k` to `v`: a fresh key is placed at its sorted position, a key
    /// already bound has its value replaced.
    pub fn insert(&mut self, k: String, v: T)
        requires
            old(self).wf(),
        ensures
            final(self).wf(),
            final(self).as_map() == old(self).as_map().insert(k@, v),
            old(self).as_map().contains_key(k@) ==> final(self).entries@.len() == old(
                self,
            ).entries@.len(),
            !old(self).as_map().contains_key(k@) ==> final(self).entries@.len() == old(
                self,
            ).entries@.len() + 1,
    {
        let ghost olds = self.entries@;
        let n = self.entries.len();
        let mut i: usize = 0;
        while i < n && str_lt(self.entries[i].0.as_str(), k.as_str())
            invariant
                i <= n,
                n == self.entries@.len(),
                self.entries@ == olds,
                forall|j: int| 0 <= j < i ==> seq_lt(#[trigger] self.entries@[j].0@, k@),
            decreases n - i,
        {
            i = i + 1;
        }
        let replace: bool = if i < n {
            str_eq(self.entries[i].0.as_str(), k.as_str())
        } else {
            false
        };
        proof {
            old(self).lemma_wf_keys_distinct();
            assert forall|j: int| i <= j < n && !replace implies seq_lt(
                k@,
                #[trigger] self.entries@[j].0@,
            ) by {
                if j == i {
                    lemma_seq_lt_trichotomy(self.entries@[j].0@, k@);
                } else {
                    assert(seq_lt(self.entries@[i as int].0@, self.entries@[j].0@));
                    lemma_seq_lt_trichotomy(self.entries@[i as int].0@, k@);
                    if seq_lt(k@, self.entries@[i as int].0@) {
                        lemma_seq_lt_trans(k@, self.entries@[i as int].0@, self.entries@[j].0@);
                    } else {
                        assert(k@ == self.entries@[i as int].0@);
                    }
                }
            }
            assert forall|j: int| 0 <= j < n && !replace implies (#[trigger] olds[j]).0@ != k@ by {
                if j < i {
                    lemma_seq_lt_trichotomy(olds[j].0@, k@);
                } else {
                    lemma_seq_lt_trichotomy(k@, olds[j].0@);
                }
            }
            if replace {
                lemma_seq_kv_map_at(self.entries_model(), i as int);
                assert(self.entries_model()[i as int].0 == k@);
                assert(self.as_map().contains_key(k@));
            } else {
                lemma_seq_kv_map_domain(self.entries_model(), k@);
                assert(!self.as_map().contains_key(k@));
            }
        }
        if replace {
            self.entries.remove(i);
            let ghost removed = self.entries@;
            self.entries.insert(i, (k, v));
            proof {
                assert forall|j: int|
                    0 <= j < self.entries@.len() && j != i implies self.entries@[j] == olds[j] by {
                    if j < i {
                        assert(self.entries@[j] == removed[j]);
                    } else {
                        assert(self.entries@[j] == removed[j - 1]);
                        assert(removed[j - 1] == olds[j]);
                    }
                }
                assert forall|a: int, b: int|
                    0 <= a < b < self.entries@.len() implies seq_lt(
                    (#[trigger] self.entries@[a]).0@,
                    (#[trigger] self.entries@[b]).0@,
                ) by {
                    if a != i && b != i {
                        assert(self.entries@[a] == olds[a]);
                        assert(self.entries@[b] == olds[b]);
                    } else if a == i {
                        assert(self.entries@[b] == olds[b]);
                        assert(self.entries@[a].0@ == k@ && k@ == olds[i as int].0@);
                    } else {
                        assert(self.entries@[a] == olds[a]);
                        assert(self.entries@[b].0@ == k@ && k@ == olds[i as int].0@);
                    }
                }
                lemma_kv_map_of_update(olds, self.entries@, i as int, k@);
            }
        } else {
            self.entries.insert(i, (k, v));
            proof {
                lemma_sorted_insert_effect(olds, self.entries@, i as int, k@);
                lemma_kv_map_of_insert(olds, self.entries@, i as int, k@);
            }
        }
    }
}

/// After placing a fresh pair at position `i` of a sequence whose keys were
/// strictly below `k` up to `i` and strictly above it from `i` on, the keys
/// are strictly ascending whenever they were around `i` before.
proof fn lemma_sorted_insert_effect<T>(
    olds: Seq<(String, T)>,
    news: Seq<(String, T)>,
    i: int,
    k: Seq<char>,
)
    requires
        0 <= i <= olds.len(),
        news.len() == olds.len() + 1,
        news[i].0@ == k,
        forall|j: int| 0 <= j < i ==> news[j] == olds[j],
        forall|j: int| i < j < news.len() ==> news[j] == olds[j - 1],
        forall|j: int| 0 <= j < i ==> seq_lt(#[trigger] olds[j].0@, k),
        forall|j: int| i <= j < olds.len() ==> seq_lt(k, #[trigger] olds[j].0@),
        forall|a: int, b: int|
            0 <= a < b < olds.len() ==> seq_lt(#[trigger] olds[a].0@, #[trigger] olds[b].0@),
    ensures
        forall|a: int, b: int|
            0 <= a < b < news.len() ==> seq_lt(#[trigger] news[a].0@, #[trigger] news[b].0@),
{
}

/// A sequence of entries with pairwise distinct keys describes the map that
/// binds each entry's key to that entry's value, and no other key.
pub proof fn lemma_kv_map_characterized<T>(s: Seq<(Seq<char>, T)>)
    requires
        forall|a: int, b: int|
            0 <= a < b < s.len() ==> (#[trigger] s[a]).0 != (#[trigger] s[b]).0,
    ensures
        forall|i: int|
            0 <= i < s.len() ==> seq_kv_map(s).contains_key((#[trigger] s[i]).0) && seq_kv_map(
                s,
            )[s[i].0] == s[i].1,
        forall|q: Seq<char>|
            seq_kv_map(s).contains_key(q) ==> exists|i: int| 0 <= i < s.len() && (#[trigger] s[i]).0
                == q,
{
    assert forall|i: int| 0 <= i < s.len() implies seq_kv_map(s).contains_key(
        (#[trigger] s[i]).0,
    ) && seq_kv_map(s)[s[i].0] == s[i].1 by {
        lemma_seq_kv_map_at(s, i);
    }
    assert forall|q: Seq<char>| seq_kv_map(s).contains_key(q) implies exists|i: int|
        0 <= i < s.len() && (#[trigger] s[i]).0 == q by {
        lemma_seq_kv_map_domain(s, q);
    }
}

/// Replacing the value of the entry at position `i`, whose key `k` occurs
/// nowhere else, updates the described map at `k`.
proof fn lemma_kv_map_of_update<T>(
    olds: Seq<(String, T)>,
    news: Seq<(String, T)>,
    i: int,
    k: Seq<char>,
)
    requires
        0 <= i < news.len(),
        news.len() == olds.len(),
        news[i].0@ == k,
        olds[i].0@ == k,
        forall|j: int| 0 <= j < news.len() && j != i ==> news[j] == olds[j],
        forall|j: int| 0 <= j < olds.len() && j != i ==> (#[trigger] olds[j]).0@ != k,
        forall|a: int, b: int|
            0 <= a < b < olds.len() ==> (#[trigger] olds[a]).0@ != (#[trigger] olds[b]).0@,
    ensures
        seq_kv_map(news.map_values(|e: (String, T)| (e.0@, e.1))) == seq_kv_map(
            olds.map_values(|e: (String, T)| (e.0@, e.1)),
        ).insert(k, news[i].1),
{
    let newm = news.map_values(|e: (String, T)| (e.0@, e.1));
    let oldm = olds.map_values(|e: (String, T)| (e.0@, e.1));
    assert forall|a: int, b: int| 0 <= a < b < newm.len() implies (#[trigger] newm[a]).0
        != (#[trigger] newm[b]).0 by {
        if a != i {
            assert(newm[a].0 == olds[a].0@);
        }
        if b != i {
            assert(newm[b].0 == olds[b].0@);
        }
    }
    lemma_kv_map_characterized(newm);
    lemma_kv_map_characterized(oldm);
    assert forall|q: Seq<char>|
        seq_kv_map(newm).contains_key(q) == seq_kv_map(oldm).insert(
            k,
            news[i].1,
        ).contains_key(q) by {
        lemma_seq_kv_map_domain(newm, q);
        lemma_seq_kv_map_domain(oldm, q);
        assert(newm[i] == (news[i].0@, news[i].1));
        assert(newm[i].0 == k);
        if q != k && seq_kv_map(newm).contains_key(q) {
            let j = choose|j: int| 0 <= j < newm.len() && newm[j].0 == q;
            assert(j != i);
            assert(oldm[j].0 == q);
        }
        if q != k && seq_kv_map(oldm).contains_key(q) {
            let j = choose|j: int| 0 <= j < oldm.len() && oldm[j].0 == q;
            assert(j != i);
            assert(newm[j].0 == q);
        }
    }
    assert forall|q: Seq<char>| seq_kv_map(newm).contains_key(q) && q != k implies seq_kv_map(
        newm,
    )[q] == seq_kv_map(oldm)[q] by {
        lemma_seq_kv_map_domain(newm, q);
        let j = choose|j: int| 0 <= j < newm.len() && newm[j].0 == q;
        assert(j != i);
        assert(oldm[j].0 == q);
    }
    assert(seq_kv_map(newm) =~= seq_kv_map(oldm).insert(k, news[i].1));
}

/// Placing a pair with a fresh key `k` at position `i` inserts `k` into the
/// described map.
proof fn lemma_kv_map_of_insert<T>(
    olds: Seq<(String, T)>,
    news: Seq<(String, T)>,
    i: int,
    k: Seq<char>,
)
    requires
        0 <= i <= olds.len(),
        news.len() == olds.len() + 1,
        news[i].0@ == k,
        forall|j: int| 0 <= j < i ==> news[j] == olds[j],
        forall|j: int| i < j < news.len() ==> news[j] == olds[j - 1],
        forall|j: int| 0 <= j < olds.len() ==> (#[trigger] olds[j]).0@ != k,
        forall|a: int, b: int|
            0 <= a < b < olds.len() ==> (#[trigger] olds[a]).0@ != (#[trigger] olds[b]).0@,
    ensures
        seq_kv_map(news.map_values(|e: (String, T)| (e.0@, e.1))) == seq_kv_map(
            olds.map_values(|e: (String, T)| (e.0@, e.1)),
        ).insert(k, news[i].1),
{
    let newm = news.map_values(|e: (String, T)| (e.0@, e.1));
    let oldm = olds.map_values(|e: (String, T)| (e.0@, e.1));
    assert forall|a: int, b: int| 0 <= a < b < newm.len() implies (#[trigger] newm[a]).0
        != (#[trigger] newm[b]).0 by {
        let ao = if a < i {
            a
        } else {
            a - 1
        };
        let bo = if b < i {
            b
        } else {
            b - 1
        };
        if a != i && b != i {
            assert(newm[a].0 == olds[ao].0@);
            assert(newm[b].0 == olds[bo].0@);
        }
    }
    lemma_kv_map_characterized(newm);
    lemma_kv_map_characterized(oldm);
    assert forall|q: Seq<char>|
        seq_kv_map(newm).contains_key(q) == seq_kv_map(oldm).insert(
            k,
            news[i].1,
        ).contains_key(q) by {
        lemma_seq_kv_map_domain(newm, q);
        lemma_seq_kv_map_domain(oldm, q);
        assert(newm[i] == (news[i].0@, news[i].1));
        assert(newm[i].0 == k);
        if q != k && seq_kv_map(newm).contains_key(q) {
            let j = choose|j: int| 0 <= j < newm.len() && newm[j].0 == q;
            if j < i {
                assert(oldm[j].0 == q);
            } else {
                assert(oldm[j - 1].0 == q);
            }
        }
        if seq_kv_map(oldm).contains_key(q) {
            let j = choose|j: int| 0 <= j < oldm.len() && oldm[j].0 == q;
            if j < i {
                assert(newm[j].0 == q);
            } else {
                assert(newm[j + 1].0 == q);
            }
        }
    }
    assert forall|q: Seq<char>| seq_kv_map(newm).contains_key(q) && q != k implies seq_kv_map(
        newm,
    )[q] == seq_kv_map(oldm)[q] by {
        lemma_seq_kv_map_domain(newm, q);
        let j = choose|j: int| 0 <= j < newm.len() && newm[j].0 == q;
        assert(j != i);
        let jo = if j < i {
            j
        } else {
            j - 1
        };
        assert(oldm[jo].0 == q);
    }
    assert(seq_kv_map(newm) =~= seq_kv_map(oldm).insert(k, news[i].1));
}

} // verus!

