//! Tables that are kept in the order of the numbers they are keyed by.
use vstd::prelude::*;

verus! {

/// The numbers that some rows are keyed by.
pub open spec fn row_ids<T>(rows: Seq<(u64, T)>) -> Seq<u64> {
    rows.map_values(|r: (u64, T)| r.0)
}

/// Whether each number is less than the next ones.
pub open spec fn rising(ids: Seq<u64>) -> bool {
    forall|i: int, j: int| 0 <= i < j < ids.len() ==> #[trigger] ids[i] < #[trigger] ids[j]
}

/// Whether a list is the keys of a map, in order.
pub open spec fn is_rising_order<T>(ids: Seq<u64>, m: Map<u64, T>) -> bool {
    rising(ids) && ids.to_set() == m.dom()
}

/// The keys of a map, in order.
pub open spec fn ordered_ids<T>(m: Map<u64, T>) -> Seq<u64> {
    choose|ids: Seq<u64>| is_rising_order(ids, m)
}

proof fn lemma_rising_unique(a: Seq<u64>, b: Seq<u64>)
    requires
        rising(a),
        rising(b),
        a.to_set() == b.to_set(),
    ensures
        a == b,
    decreases a.len(),
{
    if a.len() == 0 {
        if b.len() > 0 {
            assert(b.to_set().contains(b[0]));
            assert(a.contains(b[0]));
        }
    } else {
        assert(a.to_set().contains(a.last()));
        assert(b.contains(a.last()));
        assert(b.to_set().contains(b.last()));
        assert(a.contains(b.last()));
        let i = choose|i: int| 0 <= i < b.len() && b[i] == a.last();
        let j = choose|j: int| 0 <= j < a.len() && a[j] == b.last();
        assert(a.last() == b.last()) by {
            if i < b.len() - 1 {
                assert(b[i] < b[b.len() - 1]);
            }
            if j < a.len() - 1 {
                assert(a[j] < a[a.len() - 1]);
            }
        }
        let x = a.drop_last();
        let y = b.drop_last();
        assert forall|k: u64| x.to_set().contains(k) == y.to_set().contains(k) by {
            if x.contains(k) {
                let p = choose|p: int| 0 <= p < x.len() && x[p] == k;
                assert(a[p] == k && a[p] < a[a.len() - 1]);
                assert(a.to_set().contains(k));
                assert(b.contains(k));
                let q = choose|q: int| 0 <= q < b.len() && b[q] == k;
                assert(y[q] == k);
            }
            if y.contains(k) {
                let p = choose|p: int| 0 <= p < y.len() && y[p] == k;
                assert(b[p] == k && b[p] < b[b.len() - 1]);
                assert(b.to_set().contains(k));
                assert(a.contains(k));
                let q = choose|q: int| 0 <= q < a.len() && a[q] == k;
                assert(x[q] == k);
            }
        }
        assert(x.to_set() =~= y.to_set());
        lemma_rising_unique(x, y);
        assert(a =~= x.push(a.last()));
        assert(b =~= y.push(b.last()));
    }
}

/// There is only one order.
pub proof fn lemma_rising_order<T>(ids: Seq<u64>, m: Map<u64, T>)
    requires
        is_rising_order(ids, m),
    ensures
        ids == ordered_ids(m),
{
    let other = ordered_ids(m);
    assert(is_rising_order(other, m));
    lemma_rising_unique(ids, other);
}

spec fn ids_below(s: Set<u64>, bound: nat) -> Seq<u64>
    decreases bound,
{
    if bound == 0 {
        Seq::empty()
    } else if s.contains((bound - 1) as u64) {
        ids_below(s, (bound - 1) as nat).push((bound - 1) as u64)
    } else {
        ids_below(s, (bound - 1) as nat)
    }
}

proof fn lemma_ids_below(s: Set<u64>, bound: nat)
    requires
        bound <= 0x1_0000_0000_0000_0000,
    ensures
        rising(ids_below(s, bound)),
        forall|k: u64|
            #![trigger ids_below(s, bound).contains(k)]
            #![trigger s.contains(k)]
            ids_below(s, bound).contains(k) <==> (s.contains(k) && k < bound),
    decreases bound,
{
    if bound > 0 {
        let b = (bound - 1) as nat;
        lemma_ids_below(s, b);
        let before = ids_below(s, b);
        let after = ids_below(s, bound);
        assert forall|i: int, j: int| 0 <= i < j < after.len() implies #[trigger] after[i]
            < #[trigger] after[j] by {
            let x: u64 = before[i];
            assert(before.contains(x));
            assert(s.contains(x) && x < b);
            assert(after[i] == x);
            if j < before.len() {
                assert(before[i] < before[j]);
                assert(after[j] == before[j]);
            }
        }
        assert forall|k: u64| after.contains(k) <==> #[trigger] s.contains(k) && k < bound by {
            if s.contains(b as u64) {
                assert(after =~= before.push(b as u64));
                assert(after[before.len() as int] == b as u64);
                if before.contains(k) {
                    let j = choose|j: int| 0 <= j < before.len() && before[j] == k;
                    assert(after[j] == k);
                }
                if after.contains(k) && k != b as u64 {
                    let j = choose|j: int| 0 <= j < after.len() && after[j] == k;
                    assert(before[j] == k);
                }
            }
        }
    }
}

/// The keys of every map have an order.
pub proof fn lemma_rising_order_exists<T>(m: Map<u64, T>)
    ensures
        is_rising_order(ordered_ids(m), m),
{
    let ids = ids_below(m.dom(), 0x1_0000_0000_0000_0000);
    lemma_ids_below(m.dom(), 0x1_0000_0000_0000_0000);
    assert forall|k: u64| ids.to_set().contains(k) <==> m.dom().contains(k) by {}
    assert(ids.to_set() =~= m.dom());
    assert(is_rising_order(ids, m));
}

/// Rows by number, in the order of the numbers.
#[derive(Debug, PartialEq)]
pub struct IdTable<T> {
    rows: Vec<(u64, T)>,
}

/// What some rows hold under each number.
pub closed spec fn id_map<T: View>(rows: Seq<(u64, T)>) -> Map<u64, T::V> {
    Map::new(
        |k: u64| row_ids(rows).contains(k),
        |k: u64| rows[row_ids(rows).index_of(k)].1@,
    )
}

impl<T: View> View for IdTable<T> {
    type V = Map<u64, T::V>;

    closed spec fn view(&self) -> Map<u64, T::V> {
        id_map(self.rows@)
    }
}

impl<T> IdTable<T> {
    /// The numbers, in order.
    pub closed spec fn ids(self) -> Seq<u64> {
        row_ids(self.rows@)
    }

    #[verifier::type_invariant]
    spec fn is_ordered(self) -> bool {
        rising(row_ids(self.rows@))
    }
}

proof fn lemma_id_row<T: View>(rows: Seq<(u64, T)>, i: int)
    requires
        rising(row_ids(rows)),
        0 <= i < rows.len(),
    ensures
        id_map(rows).contains_key(rows[i].0),
        id_map(rows)[rows[i].0] == rows[i].1@,
{
    let ids = row_ids(rows);
    let k = rows[i].0;
    assert(ids[i] == k);
    assert(ids.contains(k));
    let j = ids.index_of(k);
    assert(ids[j] == k);
    if i < j {
        assert(ids[i] < ids[j]);
    }
    if j < i {
        assert(ids[j] < ids[i]);
    }
}

proof fn lemma_map_of_ids<T: View>(rows: Seq<(u64, T)>)
    requires
        rising(row_ids(rows)),
    ensures
        id_map(rows).dom() =~= row_ids(rows).to_set(),
        forall|i: int| 0 <= i < rows.len() ==> id_map(rows)[(#[trigger] rows[i]).0] == rows[i].1@,
{
    assert forall|i: int| 0 <= i < rows.len() implies id_map(rows)[(#[trigger] rows[i]).0]
        == rows[i].1@ by {
        lemma_id_row(rows, i);
    }
}

/// Where a number stands, or belongs.
fn find_id<T>(rows: &Vec<(u64, T)>, id: u64) -> (p: usize)
    requires
        rising(row_ids(rows@)),
    ensures
        p <= rows@.len(),
        forall|j: int| 0 <= j < p ==> (#[trigger] rows@[j]).0 < id,
        forall|j: int| p <= j < rows@.len() ==> id <= (#[trigger] rows@[j]).0,
        forall|j: int| p < j < rows@.len() ==> id < (#[trigger] rows@[j]).0,
{
    let ghost ids = row_ids(rows@);
    let mut p: usize = 0;
    while p < rows.len() && rows[p].0 < id
        invariant
            p <= rows.len(),
            forall|j: int| 0 <= j < p ==> (#[trigger] rows@[j]).0 < id,
        decreases rows.len() - p,
    {
        p = p + 1;
    }
    assert forall|j: int| p < j < rows@.len() implies id < (#[trigger] rows@[j]).0 by {
        assert(ids[p as int] < ids[j]);
    }
    p
}

impl<T: View> IdTable<T> {
    /// A table without rows.
    pub fn new() -> (r: Self)
        ensures
            r@ == Map::<u64, T::V>::empty(),
            r.ids() == Seq::<u64>::empty(),
    {
        let rows: Vec<(u64, T)> = Vec::new();
        assert(row_ids(rows@) =~= Seq::<u64>::empty());
        assert(id_map(rows@) =~= Map::<u64, T::V>::empty());
        IdTable { rows }
    }

    /// How many rows there are.
    pub fn len(&self) -> (n: usize)
        ensures
            n == self.ids().len(),
            self.ids().to_set() == self@.dom(),
            rising(self.ids()),
            self.ids() == ordered_ids(self@),
            self@.dom().finite(),
            n == self@.dom().len(),
    {
        proof {
            use_type_invariant(self);
            lemma_map_of_ids(self.rows@);
            lemma_rising_order(self.ids(), self@);
            vstd::seq_lib::seq_to_set_is_finite(self.ids());
            self.ids().unique_seq_to_set();
        }
        self.rows.len()
    }

    /// The number of a row.
    pub fn id_at(&self, i: usize) -> (r: u64)
        requires
            i < self.ids().len(),
        ensures
            r == self.ids()[i as int],
            self@.contains_key(r),
    {
        proof {
            use_type_invariant(self);
            lemma_id_row(self.rows@, i as int);
        }
        self.rows[i].0
    }

    /// What a row holds.
    pub fn at(&self, i: usize) -> (r: &T)
        requires
            i < self.ids().len(),
        ensures
            self@.contains_key(self.ids()[i as int]),
            r@ == self@[self.ids()[i as int]],
    {
        proof {
            use_type_invariant(self);
            lemma_id_row(self.rows@, i as int);
            assert(self.ids()[i as int] == self.rows@[i as int].0);
        }
        &self.rows[i].1
    }

    /// What stands under a number.
    pub fn get(&self, id: u64) -> (r: Option<&T>)
        ensures
            match r {
                Some(v) => self@.contains_key(id) && self@[id] == v@,
                None => !self@.contains_key(id),
            },
    {
        proof {
            use_type_invariant(self);
            lemma_map_of_ids(self.rows@);
        }
        let p: usize = find_id(&self.rows, id);
        if p < self.rows.len() && self.rows[p].0 == id {
            proof {
                lemma_id_row(self.rows@, p as int);
            }
            Some(&self.rows[p].1)
        } else {
            proof {
                let ids = row_ids(self.rows@);
                if ids.contains(id) {
                    let j = choose|j: int| 0 <= j < ids.len() && ids[j] == id;
                    assert(self.rows@[j].0 == id);
                }
            }
            None
        }
    }

    /// Whether there is a row under a number.
    pub fn has(&self, id: u64) -> (r: bool)
        ensures
            r == self@.contains_key(id),
    {
        self.get(id).is_some()
    }

    /// Puts a row under a number, in place of the one that stands there.
    pub fn set(&mut self, id: u64, v: T)
        ensures
            final(self)@ == old(self)@.insert(id, v@),
    {
        proof {
            use_type_invariant(&*self);
        }
        let mut rows: Vec<(u64, T)> = Vec::new();
        std::mem::swap(&mut rows, &mut self.rows);
        let ghost before = rows@;
        let ghost ids = row_ids(before);
        let ghost value = v@;
        let p: usize = find_id(&rows, id);
        if p < rows.len() && rows[p].0 == id {
            rows.set(p, (id, v));
            proof {
                assert(row_ids(rows@) =~= ids);
                lemma_map_of_ids(before);
                lemma_map_of_ids(rows@);
                assert(ids[p as int] == id);
                assert forall|x: u64| ids.contains(x) implies #[trigger] id_map(rows@)[x]
                    == id_map(before).insert(id, value)[x] by {
                    let j = choose|j: int| 0 <= j < ids.len() && ids[j] == x;
                    assert(rows@[j].0 == x);
                    assert(before[j].0 == x);
                }
                assert(id_map(rows@) =~= id_map(before).insert(id, value));
            }
        } else {
            rows.insert(p, (id, v));
            proof {
                let after = row_ids(rows@);
                assert(after =~= ids.insert(p as int, id));
                assert forall|i: int, j: int| 0 <= i < j < after.len() implies #[trigger] after[i]
                    < #[trigger] after[j] by {
                    let a = if i < p {
                        i
                    } else {
                        i - 1
                    };
                    let b = if j < p {
                        j
                    } else {
                        j - 1
                    };
                    if i == p {
                        assert(before[b].0 >= id);
                        assert(ids[b] == before[b].0);
                    } else if j == p {
                        assert(before[a].0 < id);
                    } else {
                        assert(ids[a] < ids[b]);
                    }
                }
                lemma_map_of_ids(before);
                lemma_map_of_ids(rows@);
                assert(after[p as int] == id);
                assert forall|x: u64| after.contains(x) <==> (x == id || ids.contains(x)) by {
                    if ids.contains(x) {
                        let j = choose|j: int| 0 <= j < ids.len() && ids[j] == x;
                        assert(after[if j < p {
                            j
                        } else {
                            j + 1
                        }] == x);
                    }
                    if after.contains(x) && x != id {
                        let j = choose|j: int| 0 <= j < after.len() && after[j] == x;
                        assert(ids[if j < p {
                            j
                        } else {
                            j - 1
                        }] == x);
                    }
                }
                assert forall|x: u64| after.contains(x) implies #[trigger] id_map(rows@)[x]
                    == id_map(before).insert(id, value)[x] by {
                    let j = choose|j: int| 0 <= j < after.len() && after[j] == x;
                    assert(rows@[j].0 == x);
                    if x != id {
                        let i = if j < p {
                            j
                        } else {
                            j - 1
                        };
                        assert(before[i] == rows@[j]);
                        assert(before[i].0 == x);
                    } else {
                        assert(rows@[p as int].0 == id);
                    }
                }
                assert(id_map(rows@) =~= id_map(before).insert(id, value));
            }
        }
        self.rows = rows;
    }

    /// Takes out what stands under a number.
    pub fn take(&mut self, id: u64) -> (r: Option<T>)
        ensures
            final(self)@ == old(self)@.remove(id),
            match r {
                Some(v) => old(self)@.contains_key(id) && old(self)@[id] == v@,
                None => !old(self)@.contains_key(id),
            },
    {
        proof {
            use_type_invariant(&*self);
        }
        let mut rows: Vec<(u64, T)> = Vec::new();
        std::mem::swap(&mut rows, &mut self.rows);
        let ghost before = rows@;
        let ghost ids = row_ids(before);
        let p: usize = find_id(&rows, id);
        proof {
            lemma_map_of_ids(before);
        }
        if p < rows.len() && rows[p].0 == id {
            let row: (u64, T) = rows.remove(p);
            proof {
                assert(row == before[p as int]);
                lemma_id_row(before, p as int);
                let after = row_ids(rows@);
                assert(after =~= ids.remove(p as int));
                assert forall|i: int, j: int| 0 <= i < j < after.len() implies #[trigger] after[i]
                    < #[trigger] after[j] by {
                    let a = if i < p {
                        i
                    } else {
                        i + 1
                    };
                    let b = if j < p {
                        j
                    } else {
                        j + 1
                    };
                    assert(ids[a] < ids[b]);
                }
                lemma_map_of_ids(rows@);
                assert forall|x: u64| after.contains(x) <==> (x != id && ids.contains(x)) by {
                    if ids.contains(x) && x != id {
                        let j = choose|j: int| 0 <= j < ids.len() && ids[j] == x;
                        assert(after[if j < p {
                            j
                        } else {
                            j - 1
                        }] == x);
                    }
                    if after.contains(x) {
                        let j = choose|j: int| 0 <= j < after.len() && after[j] == x;
                        let i = if j < p {
                            j
                        } else {
                            j + 1
                        };
                        assert(ids[i] == x);
                        if i < p {
                            assert(ids[i] < ids[p as int]);
                        } else {
                            assert(ids[p as int] < ids[i]);
                        }
                    }
                }
                assert forall|x: u64| after.contains(x) implies #[trigger] id_map(rows@)[x]
                    == id_map(before)[x] by {
                    let j = choose|j: int| 0 <= j < after.len() && after[j] == x;
                    let i = if j < p {
                        j
                    } else {
                        j + 1
                    };
                    assert(rows@[j].0 == x);
                    assert(before[i] == rows@[j]);
                    assert(before[i].0 == x);
                }
                assert(id_map(rows@) =~= id_map(before).remove(id));
            }
            self.rows = rows;
            Some(row.1)
        } else {
            proof {
                if ids.contains(id) {
                    let j = choose|j: int| 0 <= j < ids.len() && ids[j] == id;
                    assert(before[j].0 == id);
                }
                assert(id_map(rows@) =~= id_map(before).remove(id));
            }
            self.rows = rows;
            None
        }
    }

    /// Takes out the row under a number, if there is one.
    pub fn remove(&mut self, id: u64) -> (r: bool)
        ensures
            r == old(self)@.contains_key(id),
            final(self)@ == old(self)@.remove(id),
    {
        self.take(id).is_some()
    }
}

} // verus!
