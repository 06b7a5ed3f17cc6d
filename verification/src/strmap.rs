//! An ordered map keyed by strings: entries kept sorted by key in Rust's
//! `str` order (code-point lexicographic), each key at most once. It plays
//! the role `BTreeMap<String, V>` plays elsewhere: deterministic iteration
//! order is what makes lockfiles and reports stable.
use crate::text::{chars_of, string_of};
use vstd::prelude::*;

verus! {

/// Code-point lexicographic order on character sequences (Rust's `str`
/// ordering: byte order of UTF-8 equals code-point order).
pub open spec fn str_lt(a: Seq<char>, b: Seq<char>) -> bool
    decreases a.len(),
{
    if a.len() == 0 {
        b.len() > 0
    } else if b.len() == 0 {
        false
    } else if a[0] != b[0] {
        a[0] < b[0]
    } else {
        str_lt(a.drop_first(), b.drop_first())
    }
}

pub proof fn lemma_str_lt_irreflexive(a: Seq<char>)
    ensures
        !str_lt(a, a),
    decreases a.len(),
{
    if a.len() > 0 {
        lemma_str_lt_irreflexive(a.drop_first());
    }
}

pub proof fn lemma_str_lt_asymmetric(a: Seq<char>, b: Seq<char>)
    ensures
        !(str_lt(a, b) && str_lt(b, a)),
    decreases a.len(),
{
    if a.len() > 0 && b.len() > 0 && a[0] == b[0] {
        lemma_str_lt_asymmetric(a.drop_first(), b.drop_first());
    }
}

pub proof fn lemma_str_lt_transitive(a: Seq<char>, b: Seq<char>, c: Seq<char>)
    requires
        str_lt(a, b),
        str_lt(b, c),
    ensures
        str_lt(a, c),
    decreases a.len(),
{
    if a.len() > 0 && b.len() > 0 && c.len() > 0 && a[0] == b[0] && b[0] == c[0] {
        lemma_str_lt_transitive(a.drop_first(), b.drop_first(), c.drop_first());
    }
}

pub proof fn lemma_str_lt_total(a: Seq<char>, b: Seq<char>)
    ensures
        str_lt(a, b) || a == b || str_lt(b, a),
    decreases a.len(),
{
    if a.len() > 0 && b.len() > 0 && a[0] == b[0] {
        lemma_str_lt_total(a.drop_first(), b.drop_first());
        if a.drop_first() == b.drop_first() {
            assert(a =~= seq![a[0]] + a.drop_first());
            assert(b =~= seq![b[0]] + b.drop_first());
        }
    } else if a.len() == 0 && b.len() == 0 {
        assert(a =~= b);
    }
}

/// Three-way comparison of two strings: `-1`, `0`, or `1`.
pub fn str_order(a: &str, b: &str) -> (r: i8)
    ensures
        r == -1 <==> str_lt(a@, b@),
        r == 0 <==> a@ == b@,
        r == 1 <==> str_lt(b@, a@),
        r == -1 || r == 0 || r == 1,
{
    let x = chars_of(a);
    let y = chars_of(b);
    let mut i: usize = 0;
    proof {
        lemma_str_lt_asymmetric(a@, b@);
        lemma_str_lt_irreflexive(a@);
        assert(x@.skip(0) =~= x@);
        assert(y@.skip(0) =~= y@);
        assert(x@.take(0) =~= y@.take(0));
    }
    while i < x.len() && i < y.len()
        invariant
            x@ == a@,
            y@ == b@,
            0 <= i <= x@.len(),
            i <= y@.len(),
            x@.take(i as int) == y@.take(i as int),
            str_lt(a@, b@) == str_lt(x@.skip(i as int), y@.skip(i as int)),
            str_lt(b@, a@) == str_lt(y@.skip(i as int), x@.skip(i as int)),
        decreases x@.len() - i,
    {
        if x[i] != y[i] {
            proof {
                assert(x@.skip(i as int)[0] == x@[i as int]);
                assert(y@.skip(i as int)[0] == y@[i as int]);
                if a@ == b@ {
                    assert(x@[i as int] == y@[i as int]);
                }
            }
            if x[i] < y[i] {
                return -1;
            } else {
                return 1;
            }
        }
        proof {
            assert(x@.skip(i as int).drop_first() =~= x@.skip(i + 1));
            assert(y@.skip(i as int).drop_first() =~= y@.skip(i + 1));
            assert(x@.take(i + 1) =~= x@.take(i as int).push(x@[i as int]));
            assert(y@.take(i + 1) =~= y@.take(i as int).push(y@[i as int]));
        }
        i = i + 1;
    }
    if x.len() == y.len() {
        proof {
            assert(x@ =~= x@.take(i as int));
            assert(y@ =~= y@.take(i as int));
        }
        0
    } else if i == x.len() {
        proof {
            assert(x@.skip(i as int).len() == 0);
            assert(y@.skip(i as int).len() > 0);
        }
        -1
    } else {
        proof {
            assert(y@.skip(i as int).len() == 0);
            assert(x@.skip(i as int).len() > 0);
        }
        1
    }
}

/// Keys strictly increasing.
pub open spec fn sorted_keys<V>(e: Seq<(Seq<char>, V)>) -> bool {
    forall|i: int, j: int| 0 <= i < j < e.len() ==> str_lt(#[trigger] e[i].0, #[trigger] e[j].0)
}

/// The index of key `k`, or `-1`.
pub open spec fn key_index<V>(e: Seq<(Seq<char>, V)>, k: Seq<char>) -> int
    decreases e.len(),
{
    if e.len() == 0 {
        -1
    } else if e.last().0 == k {
        e.len() - 1
    } else {
        key_index(e.drop_last(), k)
    }
}

pub proof fn lemma_key_index<V>(e: Seq<(Seq<char>, V)>, k: Seq<char>)
    ensures
        -1 <= key_index(e, k) < e.len(),
        key_index(e, k) >= 0 ==> e[key_index(e, k)].0 == k,
        key_index(e, k) == -1 ==> forall|i: int| 0 <= i < e.len() ==> #[trigger] e[i].0 != k,
    decreases e.len(),
{
    if e.len() > 0 && e.last().0 != k {
        lemma_key_index(e.drop_last(), k);
        if key_index(e, k) == -1 {
            assert forall|i: int| 0 <= i < e.len() implies #[trigger] e[i].0 != k by {
                if i < e.len() - 1 {
                    assert(e.drop_last()[i] == e[i]);
                }
            }
        }
    }
}

/// In a map with unique keys, an entry at `i` with key `k` is the one
/// `key_index` finds.
pub proof fn lemma_key_index_unique<V>(e: Seq<(Seq<char>, V)>, k: Seq<char>, i: int)
    requires
        sorted_keys(e),
        0 <= i < e.len(),
        e[i].0 == k,
    ensures
        key_index(e, k) == i,
{
    lemma_key_index(e, k);
    let j = key_index(e, k);
    if j != i {
        if j < i {
            assert(str_lt(e[j].0, e[i].0));
        } else {
            assert(str_lt(e[i].0, e[j].0));
        }
        lemma_str_lt_irreflexive(k);
    }
}

pub open spec fn map_get<V>(e: Seq<(Seq<char>, V)>, k: Seq<char>) -> Option<V> {
    if key_index(e, k) >= 0 {
        Some(e[key_index(e, k)].1)
    } else {
        None
    }
}

/// Looking up in a sequence extended by one entry.
pub proof fn lemma_map_get_push<V>(e: Seq<(Seq<char>, V)>, x: (Seq<char>, V), k: Seq<char>)
    ensures
        map_get(e.push(x), k) == (if x.0 == k {
            Some(x.1)
        } else {
            map_get(e, k)
        }),
{
    let f = e.push(x);
    assert(f.drop_last() =~= e);
    lemma_key_index(e, k);
    if x.0 != k && key_index(e, k) >= 0 {
        assert(f[key_index(e, k)] == e[key_index(e, k)]);
    }
}

/// The position a new key `k` takes: the number of keys below it.
pub open spec fn insert_pos<V>(e: Seq<(Seq<char>, V)>, k: Seq<char>) -> int
    decreases e.len(),
{
    if e.len() == 0 {
        0
    } else if str_lt(e.last().0, k) {
        e.len() as int
    } else {
        insert_pos(e.drop_last(), k)
    }
}

/// The entries after inserting (or replacing) `k ↦ v`.
pub open spec fn map_insert<V>(e: Seq<(Seq<char>, V)>, k: Seq<char>, v: V) -> Seq<(Seq<char>, V)> {
    if key_index(e, k) >= 0 {
        e.update(key_index(e, k), (k, v))
    } else {
        e.insert(insert_pos(e, k), (k, v))
    }
}

/// The entries after removing `k`.
pub open spec fn map_remove<V>(e: Seq<(Seq<char>, V)>, k: Seq<char>) -> Seq<(Seq<char>, V)> {
    if key_index(e, k) >= 0 {
        e.remove(key_index(e, k))
    } else {
        e
    }
}

pub open spec fn map_keys<V>(e: Seq<(Seq<char>, V)>) -> Seq<Seq<char>> {
    e.map_values(|p: (Seq<char>, V)| p.0)
}

pub proof fn lemma_insert_pos_range<V>(e: Seq<(Seq<char>, V)>, k: Seq<char>)
    ensures
        0 <= insert_pos(e, k) <= e.len(),
    decreases e.len(),
{
    if e.len() > 0 {
        lemma_insert_pos_range(e.drop_last(), k);
    }
}

proof fn lemma_insert_pos<V>(e: Seq<(Seq<char>, V)>, k: Seq<char>)
    requires
        sorted_keys(e),
        key_index(e, k) == -1,
    ensures
        0 <= insert_pos(e, k) <= e.len(),
        forall|i: int| 0 <= i < insert_pos(e, k) ==> str_lt(#[trigger] e[i].0, k),
        forall|i: int| insert_pos(e, k) <= i < e.len() ==> str_lt(k, #[trigger] e[i].0),
    decreases e.len(),
{
    lemma_key_index(e, k);
    if e.len() > 0 {
        let n = e.len() - 1;
        if str_lt(e.last().0, k) {
            assert forall|i: int| 0 <= i < e.len() implies str_lt(#[trigger] e[i].0, k) by {
                if i < n {
                    lemma_str_lt_transitive(e[i].0, e[n].0, k);
                }
            }
        } else {
            let d = e.drop_last();
            assert(sorted_keys(d)) by {
                assert forall|i: int, j: int| 0 <= i < j < d.len() implies str_lt(
                    #[trigger] d[i].0,
                    #[trigger] d[j].0,
                ) by {
                    assert(d[i] == e[i] && d[j] == e[j]);
                }
            }
            lemma_key_index(d, k);
            assert(key_index(d, k) == -1);
            lemma_insert_pos(d, k);
            lemma_str_lt_total(e[n].0, k);
            assert(e[n].0 != k);
            assert forall|i: int| insert_pos(e, k) <= i < e.len() implies str_lt(
                k,
                #[trigger] e[i].0,
            ) by {
                if i < n {
                    assert(d[i] == e[i]);
                }
            }
            assert forall|i: int| 0 <= i < insert_pos(e, k) implies str_lt(#[trigger] e[i].0, k) by {
                assert(d[i] == e[i]);
            }
        }
    }
}

pub proof fn lemma_insert_sorted<V>(e: Seq<(Seq<char>, V)>, k: Seq<char>, v: V)
    requires
        sorted_keys(e),
    ensures
        sorted_keys(map_insert(e, k, v)),
        map_get(map_insert(e, k, v), k) == Some(v),
        forall|k2: Seq<char>| k2 != k ==> map_get(map_insert(e, k, v), k2) == map_get(e, k2),
{
    lemma_key_index(e, k);
    let r = map_insert(e, k, v);
    if key_index(e, k) >= 0 {
        let p = key_index(e, k);
        assert(sorted_keys(r)) by {
            assert forall|i: int, j: int| 0 <= i < j < r.len() implies str_lt(
                #[trigger] r[i].0,
                #[trigger] r[j].0,
            ) by {
                assert(r[i].0 == e[i].0 && r[j].0 == e[j].0);
            }
        }
        lemma_key_index_unique(r, k, p);
        assert forall|k2: Seq<char>| k2 != k implies map_get(r, k2) == map_get(e, k2) by {
            lemma_key_index(e, k2);
            lemma_key_index(r, k2);
            if key_index(e, k2) >= 0 {
                lemma_key_index_unique(r, k2, key_index(e, k2));
            } else if key_index(r, k2) >= 0 {
                assert(r[key_index(r, k2)].0 == e[key_index(r, k2)].0);
            }
        }
    } else {
        let p = insert_pos(e, k);
        lemma_insert_pos(e, k);
        assert(sorted_keys(r)) by {
            assert forall|i: int, j: int| 0 <= i < j < r.len() implies str_lt(
                #[trigger] r[i].0,
                #[trigger] r[j].0,
            ) by {
                if j < p {
                    assert(r[i] == e[i] && r[j] == e[j]);
                } else if j == p {
                    assert(r[i] == e[i]);
                } else if i < p {
                    assert(r[i] == e[i] && r[j] == e[j - 1]);
                    lemma_str_lt_transitive(e[i].0, k, e[j - 1].0);
                } else if i == p {
                    assert(r[j] == e[j - 1]);
                } else {
                    assert(r[i] == e[i - 1] && r[j] == e[j - 1]);
                }
            }
        }
        assert(r[p].0 == k);
        lemma_key_index_unique(r, k, p);
        assert forall|k2: Seq<char>| k2 != k implies map_get(r, k2) == map_get(e, k2) by {
            lemma_key_index(e, k2);
            lemma_key_index(r, k2);
            if key_index(e, k2) >= 0 {
                let q = key_index(e, k2);
                if q < p {
                    assert(r[q] == e[q]);
                    lemma_key_index_unique(r, k2, q);
                } else {
                    assert(r[q + 1] == e[q]);
                    lemma_key_index_unique(r, k2, q + 1);
                }
            } else if key_index(r, k2) >= 0 {
                let q = key_index(r, k2);
                if q < p {
                    assert(r[q] == e[q]);
                } else if q > p {
                    assert(r[q] == e[q - 1]);
                }
            }
        }
    }
}

pub proof fn lemma_remove_sorted<V>(e: Seq<(Seq<char>, V)>, k: Seq<char>)
    requires
        sorted_keys(e),
    ensures
        sorted_keys(map_remove(e, k)),
        map_get(map_remove(e, k), k) is None,
        forall|k2: Seq<char>| k2 != k ==> map_get(map_remove(e, k), k2) == map_get(e, k2),
{
    lemma_key_index(e, k);
    let r = map_remove(e, k);
    if key_index(e, k) >= 0 {
        let p = key_index(e, k);
        assert(sorted_keys(r)) by {
            assert forall|i: int, j: int| 0 <= i < j < r.len() implies str_lt(
                #[trigger] r[i].0,
                #[trigger] r[j].0,
            ) by {
                if j < p {
                    assert(r[i] == e[i] && r[j] == e[j]);
                } else if i < p {
                    assert(r[i] == e[i] && r[j] == e[j + 1]);
                } else {
                    assert(r[i] == e[i + 1] && r[j] == e[j + 1]);
                }
            }
        }
        lemma_key_index(r, k);
        if key_index(r, k) >= 0 {
            let q = key_index(r, k);
            if q < p {
                assert(r[q] == e[q]);
                lemma_key_index_unique(e, k, q);
            } else {
                assert(r[q] == e[q + 1]);
                lemma_key_index_unique(e, k, q + 1);
            }
        }
        assert forall|k2: Seq<char>| k2 != k implies map_get(r, k2) == map_get(e, k2) by {
            lemma_key_index(e, k2);
            lemma_key_index(r, k2);
            if key_index(e, k2) >= 0 {
                let q = key_index(e, k2);
                if q < p {
                    assert(r[q] == e[q]);
                    lemma_key_index_unique(r, k2, q);
                } else {
                    assert(q != p);
                    assert(r[q - 1] == e[q]);
                    lemma_key_index_unique(r, k2, q - 1);
                }
            } else if key_index(r, k2) >= 0 {
                let q = key_index(r, k2);
                if q < p {
                    assert(r[q] == e[q]);
                } else {
                    assert(r[q] == e[q + 1]);
                }
            }
        }
    }
}

/// An ordered string-keyed map.
#[derive(Debug, PartialEq, Eq)]
pub struct StrMap<V> {
    entries: Vec<(String, V)>,
}

impl<V> View for StrMap<V> {
    type V = Seq<(Seq<char>, V)>;

    closed spec fn view(&self) -> Seq<(Seq<char>, V)> {
        self.entries@.map_values(|p: (String, V)| (p.0@, p.1))
    }
}

impl<V> StrMap<V> {
    #[verifier::type_invariant]
    closed spec fn inv(self) -> bool {
        sorted_keys(self@)
    }

    /// The keys are strictly increasing (a no-op that brings the type's
    /// invariant into a caller's proof context).
    pub fn sorted(&self)
        ensures
            sorted_keys(self@),
    {
        proof {
            use_type_invariant(self);
        }
    }

    pub fn new() -> (m: Self)
        ensures
            m@ == Seq::<(Seq<char>, V)>::empty(),
    {
        let m = StrMap { entries: Vec::new() };
        proof {
            assert(m@ =~= Seq::<(Seq<char>, V)>::empty());
        }
        m
    }

    pub fn len(&self) -> (n: usize)
        ensures
            n == self@.len(),
    {
        self.entries.len()
    }

    pub fn is_empty(&self) -> (b: bool)
        ensures
            b == (self@.len() == 0),
    {
        self.entries.len() == 0
    }

    pub fn key_at(&self, i: usize) -> (k: &String)
        requires
            i < self@.len(),
        ensures
            k@ == self@[i as int].0,
    {
        &self.entries[i].0
    }

    pub fn value_at(&self, i: usize) -> (v: &V)
        requires
            i < self@.len(),
        ensures
            *v == self@[i as int].1,
    {
        &self.entries[i].1
    }

    /// The position of key `k`, if present.
    pub fn find(&self, k: &str) -> (r: Option<usize>)
        ensures
            match r {
                Some(i) => key_index(self@, k@) == i && i < self@.len(),
                None => key_index(self@, k@) == -1,
            },
    {
        proof {
            use_type_invariant(self);
            lemma_key_index(self@, k@);
        }
        let mut i: usize = 0;
        while i < self.entries.len()
            invariant
                sorted_keys(self@),
                self@.len() == self.entries@.len(),
                0 <= i <= self@.len(),
                forall|j: int| 0 <= j < i ==> #[trigger] self@[j].0 != k@,
            decreases self@.len() - i,
        {
            if str_order(self.entries[i].0.as_str(), k) == 0 {
                proof {
                    assert(self@[i as int].0 == k@);
                    lemma_key_index_unique(self@, k@, i as int);
                }
                return Some(i);
            }
            i = i + 1;
        }
        proof {
            lemma_key_index(self@, k@);
            if key_index(self@, k@) >= 0 {
                assert(self@[key_index(self@, k@)].0 == k@);
            }
        }
        None
    }

    pub fn get(&self, k: &str) -> (r: Option<&V>)
        ensures
            match r {
                Some(v) => map_get(self@, k@) == Some(*v),
                None => map_get(self@, k@) is None,
            },
    {
        match self.find(k) {
            Some(i) => {
                proof {
                    lemma_key_index(self@, k@);
                }
                Some(&self.entries[i].1)
            },
            None => None,
        }
    }

    pub fn contains_key(&self, k: &str) -> (b: bool)
        ensures
            b == (map_get(self@, k@) is Some),
    {
        self.find(k).is_some()
    }

    /// Where `k` is (`true`) or would go (`false`).
    fn search(&self, k: &str) -> (r: (usize, bool))
        ensures
            sorted_keys(self@),
            r.0 <= self@.len(),
            r.1 ==> r.0 < self@.len() && key_index(self@, k@) == r.0,
            !r.1 ==> key_index(self@, k@) == -1 && r.0 == insert_pos(self@, k@),
    {
        proof {
            use_type_invariant(self);
        }
        let ghost e = self@;
        let mut i: usize = 0;
        while i < self.entries.len()
            invariant
                e == self@,
                sorted_keys(e),
                self@.len() == self.entries@.len(),
                0 <= i <= e.len(),
                forall|j: int| 0 <= j < i ==> str_lt(#[trigger] e[j].0, k@),
            decreases e.len() - i,
        {
            let c = str_order(self.entries[i].0.as_str(), k);
            if c == 0 {
                proof {
                    lemma_key_index_unique(e, k@, i as int);
                }
                return (i, true);
            } else if c == 1 {
                proof {
                    self.lemma_absent_at(k@, i as int);
                }
                return (i, false);
            }
            i = i + 1;
        }
        proof {
            self.lemma_absent_at(k@, i as int);
        }
        (i, false)
    }

    proof fn lemma_absent_at(&self, k: Seq<char>, i: int)
        requires
            sorted_keys(self@),
            0 <= i <= self@.len(),
            forall|j: int| 0 <= j < i ==> str_lt(#[trigger] self@[j].0, k),
            i < self@.len() ==> str_lt(k, self@[i].0),
        ensures
            key_index(self@, k) == -1,
            insert_pos(self@, k) == i,
    {
        let e = self@;
        lemma_key_index(e, k);
        if key_index(e, k) >= 0 {
            let q = key_index(e, k);
            if q < i {
                assert(str_lt(e[q].0, k));
                lemma_str_lt_irreflexive(k);
            } else {
                if q > i {
                    assert(str_lt(e[i].0, e[q].0));
                    lemma_str_lt_transitive(k, e[i].0, k);
                }
                lemma_str_lt_irreflexive(k);
            }
        }
        lemma_insert_pos(e, k);
        let p = insert_pos(e, k);
        if p < i {
            assert(str_lt(e[p].0, k));
            assert(str_lt(k, e[p].0));
            lemma_str_lt_asymmetric(k, e[p].0);
        }
        if p > i {
            assert(str_lt(e[i].0, k));
            lemma_str_lt_asymmetric(k, e[i].0);
        }
    }

    /// Insert or replace; returns the previous value.
    pub fn insert(&mut self, k: String, v: V) -> (r: Option<V>)
        ensures
            final(self)@ == map_insert(old(self)@, k@, v),
            r == map_get(old(self)@, k@),
            sorted_keys(old(self)@),
            map_get(final(self)@, k@) == Some(v),
            forall|k2: Seq<char>| k2 != k@ ==> map_get(final(self)@, k2) == map_get(old(self)@, k2),
    {
        let (i, found) = self.search(k.as_str());
        let ghost e = self@;
        proof {
            lemma_insert_sorted(e, k@, v);
            lemma_key_index(e, k@);
        }
        let mut entries = Vec::new();
        std::mem::swap(&mut entries, &mut self.entries);
        proof {
            assert(entries@.map_values(|p: (String, V)| (p.0@, p.1)) == e);
        }
        if found {
            let (_, old_v) = entries.remove(i);
            entries.insert(i, (k, v));
            proof {
                assert(entries@.map_values(|p: (String, V)| (p.0@, p.1)) =~= map_insert(e, k@, v));
            }
            self.entries = entries;
            Some(old_v)
        } else {
            entries.insert(i, (k, v));
            proof {
                assert(entries@.map_values(|p: (String, V)| (p.0@, p.1)) =~= map_insert(e, k@, v));
            }
            self.entries = entries;
            None
        }
    }

    /// Replace the value at position `i`, handing the previous one back.
    pub fn replace_at(&mut self, i: usize, v: V) -> (r: V)
        requires
            i < old(self)@.len(),
        ensures
            final(self)@ == old(self)@.update(i as int, (old(self)@[i as int].0, v)),
            r == old(self)@[i as int].1,
            sorted_keys(old(self)@),
            map_get(final(self)@, old(self)@[i as int].0) == Some(v),
            forall|k2: Seq<char>|
                k2 != old(self)@[i as int].0 ==> map_get(final(self)@, k2) == map_get(
                    old(self)@,
                    k2,
                ),
    {
        proof {
            use_type_invariant(&*self);
        }
        let ghost e = self@;
        let mut entries = Vec::new();
        std::mem::swap(&mut entries, &mut self.entries);
        proof {
            assert(entries@.map_values(|p: (String, V)| (p.0@, p.1)) == e);
        }
        let (k, old_v) = entries.remove(i);
        entries.insert(i, (k, v));
        proof {
            let r = entries@.map_values(|p: (String, V)| (p.0@, p.1));
            assert(r =~= e.update(i as int, (e[i as int].0, v)));
            lemma_key_index_unique(e, e[i as int].0, i as int);
            assert(sorted_keys(r)) by {
                assert forall|a: int, b: int| 0 <= a < b < r.len() implies str_lt(
                    #[trigger] r[a].0,
                    #[trigger] r[b].0,
                ) by {
                    assert(r[a].0 == e[a].0);
                    assert(r[b].0 == e[b].0);
                }
            }
            lemma_key_index_unique(r, e[i as int].0, i as int);
            assert forall|k2: Seq<char>| k2 != e[i as int].0 implies map_get(r, k2) == map_get(
                e,
                k2,
            ) by {
                lemma_key_index(e, k2);
                lemma_key_index(r, k2);
                if key_index(e, k2) >= 0 {
                    lemma_key_index_unique(r, k2, key_index(e, k2));
                }
                if key_index(r, k2) >= 0 {
                    lemma_key_index_unique(e, k2, key_index(r, k2));
                }
            }
        }
        self.entries = entries;
        old_v
    }

    /// Remove `k`; returns its value.
    pub fn remove(&mut self, k: &str) -> (r: Option<V>)
        ensures
            final(self)@ == map_remove(old(self)@, k@),
            r == map_get(old(self)@, k@),
            sorted_keys(old(self)@),
            map_get(final(self)@, k@) is None,
            forall|k2: Seq<char>| k2 != k@ ==> map_get(final(self)@, k2) == map_get(old(self)@, k2),
    {
        proof {
            use_type_invariant(&*self);
            lemma_remove_sorted(self@, k@);
        }
        let ghost e = self@;
        match self.find(k) {
            None => None,
            Some(i) => {
                proof {
                    lemma_key_index(e, k@);
                }
                let mut entries = Vec::new();
                std::mem::swap(&mut entries, &mut self.entries);
                proof {
                    assert(entries@.map_values(|p: (String, V)| (p.0@, p.1)) == e);
                }
                let (_, v) = entries.remove(i);
                proof {
                    assert(entries@.map_values(|p: (String, V)| (p.0@, p.1)) =~= map_remove(e, k@));
                }
                self.entries = entries;
                Some(v)
            },
        }
    }
}

impl<V: Clone> Clone for StrMap<V> {
    /// A copy with the same keys, in the same order; each value cloned.
    fn clone(&self) -> (r: Self)
        ensures
            map_keys(r@) == map_keys(self@),
            forall|i: int| 0 <= i < r@.len() ==> cloned::<V>(self@[i].1, #[trigger] r@[i].1),
    {
        proof {
            use_type_invariant(self);
        }
        let mut entries: Vec<(String, V)> = Vec::new();
        let mut i: usize = 0;
        while i < self.entries.len()
            invariant
                0 <= i <= self.entries@.len(),
                sorted_keys(self@),
                self@.len() == self.entries@.len(),
                entries@.len() == i,
                forall|j: int| 0 <= j < i ==> #[trigger] entries@[j].0@ == self@[j].0,
                forall|j: int| 0 <= j < i ==> cloned::<V>(self@[j].1, #[trigger] entries@[j].1),
            decreases self.entries@.len() - i,
        {
            let k = string_of(self.entries[i].0.as_str());
            let v = self.entries[i].1.clone();
            entries.push((k, v));
            i = i + 1;
        }
        let r = StrMap { entries };
        assert(map_keys(r@) =~= map_keys(self@));
        r
    }
}

} // verus!
