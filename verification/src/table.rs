//! Tables that are kept in the order of their keys.
use vstd::prelude::*;

use crate::text::{
    comes_before, lemma_text_before_irreflexive, lemma_text_before_total,
    lemma_text_before_transitive, same_text, text_before,
};

verus! {

/// The keys of some rows.
pub open spec fn row_keys<T>(rows: Seq<(String, T)>) -> Seq<Seq<char>> {
    rows.map_values(|r: (String, T)| r.0@)
}

/// Whether each text comes before the next ones.
pub open spec fn ascending(keys: Seq<Seq<char>>) -> bool {
    forall|i: int, j: int|
        0 <= i < j < keys.len() ==> text_before(#[trigger] keys[i], #[trigger] keys[j])
}

/// Where a key stands, or belongs, among ascending keys.
pub open spec fn is_place(keys: Seq<Seq<char>>, key: Seq<char>, p: int) -> bool {
    &&& 0 <= p <= keys.len()
    &&& forall|j: int| 0 <= j < p ==> text_before(#[trigger] keys[j], key)
    &&& forall|j: int| p <= j < keys.len() ==> !text_before(#[trigger] keys[j], key)
}

/// Where a key stands, or belongs.
pub fn find_place<T>(rows: &Vec<(String, T)>, key: &str) -> (p: usize)
    requires
        ascending(row_keys(rows@)),
    ensures
        is_place(row_keys(rows@), key@, p as int),
{
    let ghost keys = row_keys(rows@);
    let mut p: usize = 0;
    while p < rows.len() && comes_before(rows[p].0.as_str(), key)
        invariant
            p <= rows.len(),
            keys == row_keys(rows@),
            forall|j: int| 0 <= j < p ==> text_before(#[trigger] keys[j], key@),
        decreases rows.len() - p,
    {
        assert(keys[p as int] == rows@[p as int].0@);
        p = p + 1;
    }
    assert forall|j: int| p <= j < keys.len() implies !text_before(#[trigger] keys[j], key@) by {
        assert(keys[p as int] == rows@[p as int].0@);
        if j > p && text_before(keys[j], key@) {
            lemma_text_before_transitive(keys[p as int], keys[j], key@);
        }
    }
    p
}

/// A key that stands among ascending keys stands at its place.
pub proof fn lemma_place(keys: Seq<Seq<char>>, key: Seq<char>, p: int)
    requires
        ascending(keys),
        is_place(keys, key, p),
    ensures
        keys.contains(key) <==> p < keys.len() && keys[p] == key,
        forall|j: int| 0 <= j < keys.len() && #[trigger] keys[j] == key ==> j == p,
        p < keys.len() && keys[p] != key ==> text_before(key, keys[p]),
        forall|j: int|
            p <= j < keys.len() && keys[p] != key ==> text_before(key, #[trigger] keys[j]),
{
    assert forall|j: int| 0 <= j < keys.len() && #[trigger] keys[j] == key implies j == p by {
        lemma_text_before_irreflexive(key);
        if j > p {
            assert(text_before(keys[p], keys[j]));
        }
    }
    if p < keys.len() && keys[p] != key {
        lemma_text_before_total(keys[p], key);
        assert forall|j: int| p <= j < keys.len() implies text_before(key, #[trigger] keys[j]) by {
            if j > p {
                lemma_text_before_transitive(key, keys[p], keys[j]);
            }
        }
    }
}

/// A key put at its place keeps the keys ascending.
pub proof fn lemma_inserted_key(keys: Seq<Seq<char>>, key: Seq<char>, p: int)
    requires
        ascending(keys),
        is_place(keys, key, p),
        !keys.contains(key),
    ensures
        ascending(keys.insert(p, key)),
{
    lemma_place(keys, key, p);
    let after = keys.insert(p, key);
    assert forall|i: int, j: int| 0 <= i < j < after.len() implies text_before(
        #[trigger] after[i],
        #[trigger] after[j],
    ) by {
        if j == p {
            assert(text_before(keys[i], key));
        } else if i == p {
            assert(p < keys.len() && keys[p] != key) by {
                if keys[p] == key {
                    assert(keys.contains(key));
                }
            }
            assert(text_before(key, keys[j - 1]));
        } else {
            let a = if i < p {
                i
            } else {
                i - 1
            };
            let b = if j < p {
                j
            } else {
                j - 1
            };
            assert(text_before(keys[a], keys[b]));
        }
    }
}

/// A key taken out keeps the keys ascending.
pub proof fn lemma_removed_key(keys: Seq<Seq<char>>, p: int)
    requires
        ascending(keys),
        0 <= p < keys.len(),
    ensures
        ascending(keys.remove(p)),
{
    let after = keys.remove(p);
    assert forall|i: int, j: int| 0 <= i < j < after.len() implies text_before(
        #[trigger] after[i],
        #[trigger] after[j],
    ) by {
        let a = if i < p {
            i
        } else {
            i + 1
        };
        let b = if j < p {
            j
        } else {
            j + 1
        };
        assert(text_before(keys[a], keys[b]));
    }
}

/// Two lists of ascending keys that hold the same keys are the same.
pub proof fn lemma_ascending_unique(a: Seq<Seq<char>>, b: Seq<Seq<char>>)
    requires
        ascending(a),
        ascending(b),
        a.to_set() == b.to_set(),
    ensures
        a == b,
    decreases a.len(),
{
    if a.len() == 0 {
        if b.len() > 0 {
            assert(b.to_set().contains(b[0]));
        }
        assert(a =~= b);
    } else {
        assert(a.to_set().contains(a[0]));
        assert(b.contains(a[0]));
        assert(b.to_set().contains(b[0]));
        assert(a.contains(b[0]));
        let i = choose|i: int| 0 <= i < b.len() && b[i] == a[0];
        let j = choose|j: int| 0 <= j < a.len() && a[j] == b[0];
        if i > 0 && j > 0 {
            assert(text_before(b[0], b[i]));
            assert(text_before(a[0], a[j]));
            lemma_text_before_transitive(a[0], b[0], a[0]);
            lemma_text_before_irreflexive(a[0]);
        }
        assert(a[0] == b[0]);
        let x = a.subrange(1, a.len() as int);
        let y = b.subrange(1, b.len() as int);
        assert forall|k: Seq<char>| x.to_set().contains(k) == y.to_set().contains(k) by {
            lemma_text_before_irreflexive(a[0]);
            if x.contains(k) {
                let m = choose|m: int| 0 <= m < x.len() && x[m] == k;
                assert(a[m + 1] == k);
                assert(text_before(a[0], a[m + 1]));
                assert(a.to_set().contains(k));
                assert(b.contains(k));
                let n = choose|n: int| 0 <= n < b.len() && b[n] == k;
                assert(y[n - 1] == k);
            }
            if y.contains(k) {
                let m = choose|m: int| 0 <= m < y.len() && y[m] == k;
                assert(b[m + 1] == k);
                assert(text_before(b[0], b[m + 1]));
                assert(b.to_set().contains(k));
                assert(a.contains(k));
                let n = choose|n: int| 0 <= n < a.len() && a[n] == k;
                assert(x[n - 1] == k);
            }
        }
        assert(x.to_set() =~= y.to_set());
        assert forall|i: int, j: int| 0 <= i < j < x.len() implies text_before(
            #[trigger] x[i],
            #[trigger] x[j],
        ) by {
            assert(text_before(a[i + 1], a[j + 1]));
        }
        assert forall|i: int, j: int| 0 <= i < j < y.len() implies text_before(
            #[trigger] y[i],
            #[trigger] y[j],
        ) by {
            assert(text_before(b[i + 1], b[j + 1]));
        }
        lemma_ascending_unique(x, y);
        assert(a =~= seq![a[0]] + x);
        assert(b =~= seq![b[0]] + y);
    }
}

/// The keys of a map, in order.
pub open spec fn ordered_keys<T>(m: Map<Seq<char>, T>) -> Seq<Seq<char>> {
    choose|keys: Seq<Seq<char>>| is_order(keys, m)
}

/// Whether a list is the keys of a map, in order.
pub open spec fn is_order<T>(keys: Seq<Seq<char>>, m: Map<Seq<char>, T>) -> bool {
    ascending(keys) && keys.to_set() == m.dom()
}

/// There is only one order.
pub proof fn lemma_order<T>(keys: Seq<Seq<char>>, m: Map<Seq<char>, T>)
    requires
        is_order(keys, m),
    ensures
        keys == ordered_keys(m),
{
    let other = ordered_keys(m);
    assert(is_order(other, m));
    lemma_ascending_unique(keys, other);
}

proof fn lemma_place_exists(keys: Seq<Seq<char>>, key: Seq<char>) -> (p: int)
    requires
        ascending(keys),
    ensures
        is_place(keys, key, p),
    decreases keys.len(),
{
    if keys.len() == 0 {
        0
    } else {
        let part = keys.drop_last();
        let q = lemma_place_exists(part, key);
        assert forall|j: int| 0 <= j < q implies text_before(#[trigger] keys[j], key) by {
            assert(part[j] == keys[j]);
        }
        if q == part.len() && text_before(keys.last(), key) {
            q + 1
        } else {
            assert forall|j: int| q <= j < keys.len() implies !text_before(
                #[trigger] keys[j],
                key,
            ) by {
                if j < part.len() {
                    assert(part[j] == keys[j]);
                } else if q < part.len() && text_before(keys.last(), key) {
                    assert(!text_before(part[q], key));
                    lemma_text_before_transitive(keys[q], keys.last(), key);
                }
            }
            q
        }
    }
}

/// Every finite set of keys has an order.
pub proof fn lemma_order_exists(s: Set<Seq<char>>) -> (keys: Seq<Seq<char>>)
    requires
        s.finite(),
    ensures
        ascending(keys),
        keys.to_set() == s,
    decreases s.len(),
{
    if s.len() == 0 {
        assert(Seq::<Seq<char>>::empty().to_set() =~= s);
        Seq::empty()
    } else {
        let k = s.choose();
        let keys = lemma_order_exists(s.remove(k));
        assert(!keys.contains(k)) by {
            if keys.contains(k) {
                assert(keys.to_set().contains(k));
            }
        }
        let p = lemma_place_exists(keys, k);
        lemma_inserted_key(keys, k, p);
        let after = keys.insert(p, k);
        assert forall|x: Seq<char>| after.to_set().contains(x) <==> s.contains(x) by {
            if after.contains(x) && x != k {
                let j = choose|j: int| 0 <= j < after.len() && after[j] == x;
                assert(keys[if j < p {
                    j
                } else {
                    j - 1
                }] == x);
                assert(keys.to_set().contains(x));
            }
            if s.contains(x) && x != k {
                assert(keys.to_set().contains(x));
                let j = choose|j: int| 0 <= j < keys.len() && keys[j] == x;
                assert(after[if j < p {
                    j
                } else {
                    j + 1
                }] == x);
            }
            if x == k {
                assert(after[p] == k);
            }
        }
        assert(after.to_set() =~= s);
        after
    }
}

/// Rows by key, in the order of the keys.
#[derive(Debug, PartialEq)]
pub struct Table<T> {
    rows: Vec<(String, T)>,
}

/// What some rows hold under each key.
pub closed spec fn rows_map<T: View>(rows: Seq<(String, T)>) -> Map<Seq<char>, T::V> {
    Map::new(
        |k: Seq<char>| row_keys(rows).contains(k),
        |k: Seq<char>| rows[row_keys(rows).index_of(k)].1@,
    )
}

impl<T: View> View for Table<T> {
    type V = Map<Seq<char>, T::V>;

    closed spec fn view(&self) -> Map<Seq<char>, T::V> {
        rows_map(self.rows@)
    }
}

impl<T> Table<T> {
    /// The keys, in order.
    pub closed spec fn keys(self) -> Seq<Seq<char>> {
        row_keys(self.rows@)
    }

    #[verifier::type_invariant]
    spec fn is_ordered(self) -> bool {
        ascending(row_keys(self.rows@))
    }
}

proof fn lemma_row<T: View>(rows: Seq<(String, T)>, i: int)
    requires
        ascending(row_keys(rows)),
        0 <= i < rows.len(),
    ensures
        rows_map(rows).contains_key(rows[i].0@),
        rows_map(rows)[rows[i].0@] == rows[i].1@,
{
    let keys = row_keys(rows);
    let k = rows[i].0@;
    assert(keys[i] == k);
    assert(keys.contains(k));
    let j = keys.index_of(k);
    assert(keys[j] == k);
    lemma_text_before_irreflexive(k);
    if i < j {
        assert(text_before(keys[i], keys[j]));
    }
    if j < i {
        assert(text_before(keys[j], keys[i]));
    }
}

proof fn lemma_map_of_rows<T: View>(rows: Seq<(String, T)>)
    requires
        ascending(row_keys(rows)),
    ensures
        rows_map(rows).dom() =~= row_keys(rows).to_set(),
        forall|i: int|
            0 <= i < rows.len() ==> rows_map(rows)[(#[trigger] rows[i]).0@] == rows[i].1@,
{
    assert forall|i: int| 0 <= i < rows.len() implies rows_map(rows)[(#[trigger] rows[i]).0@]
        == rows[i].1@ by {
        lemma_row(rows, i);
    }
}

impl<T: View> Table<T> {
    /// A table without rows.
    pub fn new() -> (r: Self)
        ensures
            r@ == Map::<Seq<char>, T::V>::empty(),
            r.keys() == Seq::<Seq<char>>::empty(),
    {
        let rows: Vec<(String, T)> = Vec::new();
        assert(row_keys(rows@) =~= Seq::<Seq<char>>::empty());
        assert(rows_map(rows@) =~= Map::<Seq<char>, T::V>::empty());
        Table { rows }
    }

    /// How many rows there are.
    pub fn len(&self) -> (n: usize)
        ensures
            n == self.keys().len(),
            self.keys().to_set() == self@.dom(),
            ascending(self.keys()),
            self.keys() == ordered_keys(self@),
            self@.dom().finite(),
    {
        proof {
            use_type_invariant(self);
            lemma_map_of_rows(self.rows@);
            lemma_order(self.keys(), self@);
            vstd::seq_lib::seq_to_set_is_finite(self.keys());
        }
        self.rows.len()
    }

    /// The key of a row.
    pub fn key_at(&self, i: usize) -> (r: &String)
        requires
            i < self.keys().len(),
        ensures
            r@ == self.keys()[i as int],
            self@.contains_key(r@),
    {
        proof {
            use_type_invariant(self);
            lemma_row(self.rows@, i as int);
        }
        &self.rows[i].0
    }

    /// What a row holds.
    pub fn at(&self, i: usize) -> (r: &T)
        requires
            i < self.keys().len(),
        ensures
            self@.contains_key(self.keys()[i as int]),
            r@ == self@[self.keys()[i as int]],
    {
        proof {
            use_type_invariant(self);
            lemma_row(self.rows@, i as int);
            assert(self.keys()[i as int] == self.rows@[i as int].0@);
        }
        &self.rows[i].1
    }

    /// Whether there is a row under a key.
    pub fn has(&self, key: &str) -> (r: bool)
        ensures
            r == self@.contains_key(key@),
    {
        proof {
            use_type_invariant(self);
        }
        let p: usize = find_place(&self.rows, key);
        proof {
            lemma_place(row_keys(self.rows@), key@, p as int);
        }
        p < self.rows.len() && same_text(self.rows[p].0.as_str(), key)
    }

    /// What stands under a key.
    pub fn get(&self, key: &str) -> (r: Option<&T>)
        ensures
            match r {
                Some(v) => self@.contains_key(key@) && self@[key@] == v@,
                None => !self@.contains_key(key@),
            },
    {
        proof {
            use_type_invariant(self);
        }
        let p: usize = find_place(&self.rows, key);
        proof {
            lemma_place(row_keys(self.rows@), key@, p as int);
        }
        if p < self.rows.len() && same_text(self.rows[p].0.as_str(), key) {
            proof {
                lemma_row(self.rows@, p as int);
            }
            Some(&self.rows[p].1)
        } else {
            None
        }
    }

    /// Puts a row under a key, in place of the one that stands there.
    pub fn set(&mut self, key: String, v: T)
        ensures
            final(self)@ == old(self)@.insert(key@, v@),
    {
        proof {
            use_type_invariant(&*self);
        }
        let mut rows: Vec<(String, T)> = Vec::new();
        std::mem::swap(&mut rows, &mut self.rows);
        let ghost before = rows@;
        let ghost keys = row_keys(before);
        let p: usize = find_place(&rows, key.as_str());
        proof {
            lemma_place(keys, key@, p as int);
        }
        if p < rows.len() && same_text(rows[p].0.as_str(), key.as_str()) {
            let ghost k = key@;
            let ghost value = v@;
            rows.set(p, (key, v));
            proof {
                assert(row_keys(rows@) =~= keys);
                lemma_map_of_rows(before);
                lemma_map_of_rows(rows@);
                assert forall|x: Seq<char>| keys.contains(x) implies #[trigger] rows_map(rows@)[x]
                    == rows_map(before).insert(k, value)[x] by {
                    let j = choose|j: int| 0 <= j < keys.len() && keys[j] == x;
                    assert(rows@[j].0@ == x);
                    assert(before[j].0@ == x);
                }
                assert(rows_map(rows@) =~= rows_map(before).insert(k, value));
            }
        } else {
            let ghost k = key@;
            let ghost value = v@;
            rows.insert(p, (key, v));
            proof {
                assert(row_keys(rows@) =~= keys.insert(p as int, k));
                lemma_inserted_key(keys, k, p as int);
                lemma_map_of_rows(before);
                lemma_map_of_rows(rows@);
                let after = row_keys(rows@);
                assert(after[p as int] == k);
                assert forall|x: Seq<char>|
                    after.contains(x) <==> (x == k || keys.contains(x)) by {
                    if keys.contains(x) {
                        let j = choose|j: int| 0 <= j < keys.len() && keys[j] == x;
                        assert(after[if j < p {
                            j
                        } else {
                            j + 1
                        }] == x);
                    }
                    if after.contains(x) && x != k {
                        let j = choose|j: int| 0 <= j < after.len() && after[j] == x;
                        assert(keys[if j < p {
                            j
                        } else {
                            j - 1
                        }] == x);
                    }
                }
                assert forall|x: Seq<char>| after.contains(x) implies #[trigger] rows_map(
                    rows@,
                )[x] == rows_map(before).insert(k, value)[x] by {
                    let j = choose|j: int| 0 <= j < after.len() && after[j] == x;
                    assert(rows@[j].0@ == x);
                    if x != k {
                        let i = if j < p {
                            j
                        } else {
                            j - 1
                        };
                        assert(before[i] == rows@[j]);
                        assert(before[i].0@ == x);
                    } else {
                        assert(rows@[p as int].0@ == k);
                    }
                }
                assert(rows_map(rows@) =~= rows_map(before).insert(k, value));
            }
        }
        self.rows = rows;
    }

    /// Takes out what stands under a key.
    pub fn take(&mut self, key: &str) -> (r: Option<T>)
        ensures
            final(self)@ == old(self)@.remove(key@),
            match r {
                Some(v) => old(self)@.contains_key(key@) && old(self)@[key@] == v@,
                None => !old(self)@.contains_key(key@),
            },
    {
        proof {
            use_type_invariant(&*self);
        }
        let mut rows: Vec<(String, T)> = Vec::new();
        std::mem::swap(&mut rows, &mut self.rows);
        let ghost before = rows@;
        let ghost keys = row_keys(before);
        let ghost k = key@;
        let p: usize = find_place(&rows, key);
        proof {
            lemma_place(keys, k, p as int);
            lemma_map_of_rows(before);
        }
        if p < rows.len() && same_text(rows[p].0.as_str(), key) {
            let row: (String, T) = rows.remove(p);
            proof {
                assert(row == before[p as int]);
                assert(row_keys(rows@) =~= keys.remove(p as int));
                lemma_removed_key(keys, p as int);
                lemma_map_of_rows(rows@);
                let after = row_keys(rows@);
                assert forall|x: Seq<char>|
                    after.contains(x) <==> (x != k && keys.contains(x)) by {
                    if keys.contains(x) && x != k {
                        let j = choose|j: int| 0 <= j < keys.len() && keys[j] == x;
                        assert(after[if j < p {
                            j
                        } else {
                            j - 1
                        }] == x);
                    }
                    if after.contains(x) {
                        let j = choose|j: int| 0 <= j < after.len() && after[j] == x;
                        let i = if j < p {
                            j
                        } else {
                            j + 1
                        };
                        assert(keys[i] == x);
                    }
                }
                assert forall|x: Seq<char>| after.contains(x) implies #[trigger] rows_map(
                    rows@,
                )[x] == rows_map(before)[x] by {
                    let j = choose|j: int| 0 <= j < after.len() && after[j] == x;
                    let i = if j < p {
                        j
                    } else {
                        j + 1
                    };
                    assert(rows@[j].0@ == x);
                    assert(before[i] == rows@[j]);
                    assert(before[i].0@ == x);
                }
                assert(rows_map(rows@) =~= rows_map(before).remove(k));
            }
            self.rows = rows;
            Some(row.1)
        } else {
            assert(rows_map(rows@) =~= rows_map(before).remove(k));
            self.rows = rows;
            None
        }
    }

    /// Takes out the row under a key, if there is one.
    pub fn remove(&mut self, key: &str) -> (r: bool)
        ensures
            r == old(self)@.contains_key(key@),
            final(self)@ == old(self)@.remove(key@),
    {
        self.take(key).is_some()
    }
}

} // verus!
