//! The registry of points: which key has which id, for good.
use vstd::prelude::*;

use crate::schema::maybe_text;
use crate::table::{ascending, Table};
use crate::text::{same_text, texts_view};
use crate::types::{data_type_name, DataType, PointDefinition, PointDescriptor};

verus! {

// ---------------------------------------------------------------------------
// Types
// ---------------------------------------------------------------------------

/// What is known of a point under its key. One that is no longer configured keeps its row, so that
/// its id is never given to another.
#[derive(Debug, Clone, PartialEq)]
pub struct PointRow {
    pub point_id: u32,
    pub data_type: String,
    pub unit: Option<String>,
    pub deleted: bool,
    pub source_label: Option<String>,
}

/// What a [`PointRow`] is.
pub struct PointRowV {
    pub point_id: u32,
    pub data_type: Seq<char>,
    pub unit: Option<Seq<char>>,
    pub deleted: bool,
    pub source_label: Option<Seq<char>>,
}

impl View for PointRow {
    type V = PointRowV;

    open spec fn view(&self) -> PointRowV {
        PointRowV {
            point_id: self.point_id,
            data_type: self.data_type@,
            unit: maybe_text(self.unit),
            deleted: self.deleted,
            source_label: maybe_text(self.source_label),
        }
    }
}

/// A row as it is listed: key, id, type, whether it is no longer configured, and its label.
pub type RegistryRow = (String, u32, String, bool, Option<String>);

/// The points of an endpoint by key.
pub type Registry = Map<Seq<char>, PointRowV>;

// ---------------------------------------------------------------------------
// Ids
// ---------------------------------------------------------------------------

/// Whether a number is the greatest id, or zero where there is none.
pub open spec fn is_top(reg: Registry, top: u32) -> bool {
    &&& forall|k: Seq<char>| #[trigger] reg.contains_key(k) ==> reg[k].point_id <= top
    &&& top == 0 || exists|k: Seq<char>| #[trigger] reg.contains_key(k) && reg[k].point_id == top
}

/// The greatest id, or zero where there is none.
pub open spec fn top_id(reg: Registry) -> u32 {
    choose|top: u32| is_top(reg, top)
}

/// How many of the first `n` keys have no row yet.
pub open spec fn new_keys(reg: Registry, keys: Seq<Seq<char>>, n: int) -> nat
    decreases n,
{
    if n <= 0 {
        0
    } else {
        new_keys(reg, keys, n - 1) + if reg.contains_key(keys[n - 1]) {
            0nat
        } else {
            1nat
        }
    }
}

/// The id that the point at `i` gets: the one it has, or the next one above all that were ever
/// given.
pub open spec fn assigned_id(reg: Registry, keys: Seq<Seq<char>>, i: int) -> int {
    if reg.contains_key(keys[i]) {
        reg[keys[i]].point_id as int
    } else {
        top_id(reg) + 1 + new_keys(reg, keys, i)
    }
}

/// Whether the ids suffice for some keys.
pub open spec fn has_room(reg: Registry, keys: Seq<Seq<char>>) -> bool {
    top_id(reg) + 1 + new_keys(reg, keys, keys.len() as int) <= u32::MAX
}

/// What a point is, as a driver describes it.
pub struct DescriptorV {
    pub point_key: Seq<char>,
    pub data_type: DataType,
    pub unit: Option<Seq<char>>,
    pub source_label: Option<Seq<char>>,
}

impl View for PointDescriptor {
    type V = DescriptorV;

    open spec fn view(&self) -> DescriptorV {
        DescriptorV {
            point_key: self.point_key@,
            data_type: self.data_type,
            unit: maybe_text(self.unit),
            source_label: maybe_text(self.source_label),
        }
    }
}

/// The row of a point that is configured.
pub open spec fn active_row(d: DescriptorV, id: int) -> PointRowV {
    PointRowV {
        point_id: id as u32,
        data_type: data_type_name(d.data_type),
        unit: d.unit,
        deleted: false,
        source_label: d.source_label,
    }
}

/// What some points are.
pub open spec fn descriptors_view(ds: Seq<PointDescriptor>) -> Seq<DescriptorV> {
    ds.map_values(|d: PointDescriptor| d@)
}

/// The keys of some points.
pub open spec fn descriptor_keys(ds: Seq<DescriptorV>) -> Seq<Seq<char>> {
    ds.map_values(|d: DescriptorV| d.point_key)
}

/// The registry after the first `n` points got their ids.
pub open spec fn registered(reg: Registry, ds: Seq<DescriptorV>, n: int) -> Registry
    decreases n,
{
    if n <= 0 {
        reg
    } else {
        registered(reg, ds, n - 1).insert(
            ds[n - 1].point_key,
            active_row(ds[n - 1], assigned_id(reg, descriptor_keys(ds), n - 1)),
        )
    }
}

/// A registry in which the points under other keys are no longer configured.
pub open spec fn buried(reg: Registry, keys: Seq<Seq<char>>) -> Registry {
    reg.map_entries(
        |k: Seq<char>, r: PointRowV|
            if keys.contains(k) {
                r
            } else {
                PointRowV { deleted: true, ..r }
            },
    )
}

/// The registry after some points were configured: they have rows, and the others are no longer
/// configured.
pub open spec fn assigned(reg: Registry, ds: Seq<DescriptorV>) -> Registry {
    buried(registered(reg, ds, ds.len() as int), descriptor_keys(ds))
}

/// Whether a definition is a point with its id.
pub open spec fn defines(def: PointDefinition, d: DescriptorV, id: int) -> bool {
    &&& def.point_id == id
    &&& def.point_key@ == d.point_key
    &&& def.data_type == d.data_type
    &&& maybe_text(def.unit) == d.unit
    &&& maybe_text(def.source_label) == d.source_label
    &&& def.display_name is None
}

proof fn lemma_top(reg: Registry, top: u32)
    requires
        is_top(reg, top),
    ensures
        top_id(reg) == top,
{
    let other = top_id(reg);
    assert(is_top(reg, other));
    if top > 0 {
        let k = choose|k: Seq<char>| #[trigger] reg.contains_key(k) && reg[k].point_id == top;
        assert(reg[k].point_id <= other);
    }
    if other > 0 {
        let k = choose|k: Seq<char>| #[trigger] reg.contains_key(k) && reg[k].point_id == other;
        assert(reg[k].point_id <= top);
    }
}

fn greatest_id(reg: &Table<PointRow>) -> (top: u32)
    ensures
        is_top(reg@, top),
        top == top_id(reg@),
{
    let n: usize = reg.len();
    let ghost keys = reg.keys();
    let mut top: u32 = 0;
    let mut i: usize = 0;
    while i < n
        invariant
            i <= n,
            n == keys.len(),
            keys == reg.keys(),
            keys.to_set() == reg@.dom(),
            forall|j: int| 0 <= j < i ==> reg@[#[trigger] keys[j]].point_id <= top,
            top == 0 || exists|k: Seq<char>| #[trigger]
                reg@.contains_key(k) && reg@[k].point_id == top,
        decreases n - i,
    {
        let row: &PointRow = reg.at(i);
        if row.point_id > top {
            top = row.point_id;
            assert(reg@.contains_key(keys[i as int]));
        }
        i = i + 1;
    }
    proof {
        assert forall|k: Seq<char>| #[trigger] reg@.contains_key(k) implies reg@[k].point_id
            <= top by {
            assert(keys.to_set().contains(k));
            let j = choose|j: int| 0 <= j < keys.len() && keys[j] == k;
            assert(reg@[keys[j]].point_id <= top);
        }
        lemma_top(reg@, top);
    }
    top
}

fn copy_label(s: &Option<String>) -> (r: Option<String>)
    ensures
        maybe_text(r) == maybe_text(*s),
{
    match s {
        Some(x) => Some(x.clone()),
        None => None,
    }
}

proof fn lemma_new_keys_grow(reg: Registry, keys: Seq<Seq<char>>, a: int, b: int)
    requires
        a <= b,
    ensures
        new_keys(reg, keys, a) <= new_keys(reg, keys, b),
    decreases b,
{
    if a < b && b > 0 {
        lemma_new_keys_grow(reg, keys, a, b - 1);
    }
}

proof fn lemma_registered_row(reg: Registry, ds: Seq<DescriptorV>, n: int, k: Seq<char>)
    requires
        0 <= n <= ds.len(),
        !descriptor_keys(ds).contains(k),
    ensures
        registered(reg, ds, n).contains_key(k) <==> reg.contains_key(k),
        registered(reg, ds, n)[k] == reg[k],
    decreases n,
{
    if n > 0 {
        lemma_registered_row(reg, ds, n - 1, k);
        let keys = descriptor_keys(ds);
        assert(keys[n - 1] == ds[n - 1].point_key);
        assert(keys.contains(ds[n - 1].point_key));
    }
}

proof fn lemma_some_top(reg: Registry)
    requires
        reg.dom().finite(),
    ensures
        is_top(reg, top_id(reg)),
    decreases reg.dom().len(),
{
    if reg.dom().len() == 0 {
        assert(reg.dom() =~= Set::empty());
        assert(is_top(reg, 0));
    } else {
        let k = reg.dom().choose();
        let rest = reg.remove(k);
        lemma_some_top(rest);
        let t = top_id(rest);
        let top = if reg[k].point_id > t {
            reg[k].point_id
        } else {
            t
        };
        assert forall|x: Seq<char>| #[trigger] reg.contains_key(x) implies reg[x].point_id
            <= top by {
            if x != k {
                assert(rest.contains_key(x));
            }
        }
        if top != 0 {
            if top == reg[k].point_id {
                assert(reg.contains_key(k));
            } else {
                let x = choose|x: Seq<char>| #[trigger]
                    rest.contains_key(x) && rest[x].point_id == t;
                assert(reg.contains_key(x) && reg[x].point_id == top);
            }
        }
        assert(is_top(reg, top));
    }
}

/// Registers some points and gives each its id.
pub fn register(reg: &mut Table<PointRow>, ds: &[PointDescriptor]) -> (r: Vec<PointDefinition>)
    requires
        has_room(old(reg)@, descriptor_keys(descriptors_view(ds@))),
        descriptor_keys(descriptors_view(ds@)).no_duplicates(),
    ensures
        final(reg)@ == assigned(old(reg)@, descriptors_view(ds@)),
        r@.len() == ds@.len(),
        forall|i: int|
            0 <= i < r@.len() ==> defines(
                #[trigger] r@[i],
                ds@[i]@,
                assigned_id(old(reg)@, descriptor_keys(descriptors_view(ds@)), i),
            ),
{
    let ghost before = reg@;
    let ghost dv = descriptors_view(ds@);
    let ghost keys = descriptor_keys(dv);
    let top: u32 = greatest_id(reg);
    let mut next: u32 = top + 1;
    let mut out: Vec<PointDefinition> = Vec::new();
    let mut i: usize = 0;
    while i < ds.len()
        invariant
            i <= ds.len(),
            dv == descriptors_view(ds@),
            keys == descriptor_keys(dv),
            keys.no_duplicates(),
            top == top_id(before),
            has_room(before, keys),
            next == top + 1 + new_keys(before, keys, i as int),
            reg@ == registered(before, dv, i as int),
            out@.len() == i,
            forall|j: int|
                0 <= j < i ==> defines(#[trigger] out@[j], dv[j], assigned_id(before, keys, j)),
        decreases ds.len() - i,
    {
        let d: &PointDescriptor = &ds[i];
        proof {
            assert(keys[i as int] == d.point_key@);
            lemma_new_keys_grow(before, keys, i + 1, keys.len() as int);
            lemma_registered_key(before, dv, i as int);
        }
        let id: u32 = match reg.get(d.point_key.as_str()) {
            Some(row) => row.point_id,
            None => {
                let id: u32 = next;
                next = next + 1;
                id
            },
        };
        assert(id == assigned_id(before, keys, i as int));
        let row: PointRow = PointRow {
            point_id: id,
            data_type: d.data_type.as_str().to_owned(),
            unit: copy_label(&d.unit),
            deleted: false,
            source_label: copy_label(&d.source_label),
        };
        reg.set(d.point_key.clone(), row);
        out.push(
            PointDefinition {
                point_id: id,
                point_key: d.point_key.clone(),
                data_type: d.data_type,
                unit: copy_label(&d.unit),
                source_label: copy_label(&d.source_label),
                display_name: None,
            },
        );
        i = i + 1;
    }
    bury(reg, ds);
    out
}

proof fn lemma_registered_key(reg: Registry, ds: Seq<DescriptorV>, i: int)
    requires
        0 <= i < ds.len(),
        descriptor_keys(ds).no_duplicates(),
    ensures
        registered(reg, ds, i).contains_key(ds[i].point_key) <==> reg.contains_key(
            ds[i].point_key,
        ),
        registered(reg, ds, i)[ds[i].point_key] == reg[ds[i].point_key],
{
    lemma_registered_other(reg, ds, i, i);
}

proof fn lemma_registered_other(reg: Registry, ds: Seq<DescriptorV>, n: int, i: int)
    requires
        0 <= n <= i < ds.len(),
        descriptor_keys(ds).no_duplicates(),
    ensures
        registered(reg, ds, n).contains_key(ds[i].point_key) <==> reg.contains_key(
            ds[i].point_key,
        ),
        registered(reg, ds, n)[ds[i].point_key] == reg[ds[i].point_key],
    decreases n,
{
    if n > 0 {
        lemma_registered_other(reg, ds, n - 1, i);
        let keys = descriptor_keys(ds);
        assert(keys[n - 1] != keys[i]);
    }
}

fn listed(ds: &[PointDescriptor], key: &str) -> (r: bool)
    ensures
        r == descriptor_keys(descriptors_view(ds@)).contains(key@),
{
    let ghost keys = descriptor_keys(descriptors_view(ds@));
    let mut i: usize = 0;
    while i < ds.len()
        invariant
            i <= ds.len(),
            keys == descriptor_keys(descriptors_view(ds@)),
            forall|j: int| 0 <= j < i ==> #[trigger] keys[j] != key@,
        decreases ds.len() - i,
    {
        if same_text(ds[i].point_key.as_str(), key) {
            assert(keys[i as int] == key@);
            return true;
        }
        i = i + 1;
    }
    false
}

fn bury(reg: &mut Table<PointRow>, ds: &[PointDescriptor])
    ensures
        final(reg)@ == buried(old(reg)@, descriptor_keys(descriptors_view(ds@))),
{
    let ghost before = reg@;
    let ghost wanted = descriptor_keys(descriptors_view(ds@));
    let n: usize = reg.len();
    let ghost keys = reg.keys();
    let mut names: Vec<String> = Vec::new();
    let mut i: usize = 0;
    while i < n
        invariant
            i <= n,
            n == keys.len(),
            keys == reg.keys(),
            reg@ == before,
            names@.len() == i,
            forall|j: int| 0 <= j < i ==> (#[trigger] names@[j])@ == keys[j],
        decreases n - i,
    {
        names.push(reg.key_at(i).clone());
        i = i + 1;
    }
    let mut k: usize = 0;
    while k < n
        invariant
            k <= n,
            n == keys.len(),
            names@.len() == n,
            forall|j: int| 0 <= j < n ==> (#[trigger] names@[j])@ == keys[j],
            wanted == descriptor_keys(descriptors_view(ds@)),
            ascending(keys),
            keys.to_set() == before.dom(),
            reg@.dom() == before.dom(),
            forall|j: int|
                0 <= j < k ==> #[trigger] reg@[keys[j]] == buried(before, wanted)[keys[j]],
            forall|j: int| k <= j < n ==> #[trigger] reg@[keys[j]] == before[keys[j]],
        decreases n - k,
    {
        let ghost now = reg@;
        proof {
            assert(keys.to_set().contains(keys[k as int]));
            assert(before.contains_key(keys[k as int]));
            assert forall|j: int| 0 <= j < n && j != k implies #[trigger] keys[j]
                != keys[k as int] by {
                crate::text::lemma_text_before_irreflexive(keys[k as int]);
            }
        }
        if !listed(ds, names[k].as_str()) {
            match reg.take(names[k].as_str()) {
                Some(mut row) => {
                    row.deleted = true;
                    let ghost v = row@;
                    reg.set(names[k].clone(), row);
                    proof {
                        assert(reg@ =~= now.insert(keys[k as int], v));
                        assert(reg@.dom() =~= before.dom());
                        assert(reg@[keys[k as int]] == buried(before, wanted)[keys[k as int]]);
                        assert forall|j: int| 0 <= j < k implies #[trigger] reg@[keys[j]]
                            == buried(before, wanted)[keys[j]] by {
                            assert(now[keys[j]] == buried(before, wanted)[keys[j]]);
                        }
                        assert forall|j: int| k + 1 <= j < n implies #[trigger] reg@[keys[j]]
                            == before[keys[j]] by {
                            assert(now[keys[j]] == before[keys[j]]);
                        }
                    }
                },
                None => {},
            }
        } else {
            assert(now[keys[k as int]] == before[keys[k as int]]);
        }
        k = k + 1;
    }
    proof {
        assert forall|x: Seq<char>| #[trigger] reg@.contains_key(x) implies reg@[x] == buried(
            before,
            wanted,
        )[x] by {
            assert(keys.to_set().contains(x));
            let j = choose|j: int| 0 <= j < keys.len() && keys[j] == x;
            assert(reg@[keys[j]] == buried(before, wanted)[keys[j]]);
        }
        assert(reg@ =~= buried(before, wanted));
    }
}

// ---------------------------------------------------------------------------
// What holds of the ids
// ---------------------------------------------------------------------------

/// Whether no two rows have the same id.
pub open spec fn ids_are_distinct(reg: Registry) -> bool {
    forall|a: Seq<char>, b: Seq<char>|
        #![trigger reg.contains_key(a), reg.contains_key(b)]
        reg.contains_key(a) && reg.contains_key(b) && a != b ==> reg[a].point_id
            != reg[b].point_id
}

proof fn lemma_new_ids(reg: Registry, keys: Seq<Seq<char>>, i: int, j: int)
    requires
        0 <= i < j < keys.len(),
        !reg.contains_key(keys[i]),
    ensures
        new_keys(reg, keys, i) < new_keys(reg, keys, j),
{
    lemma_new_keys_grow(reg, keys, i + 1, j);
}

proof fn lemma_assigned_row(reg: Registry, ds: Seq<DescriptorV>, n: int, k: Seq<char>)
    requires
        0 <= n <= ds.len(),
        descriptor_keys(ds).no_duplicates(),
    ensures
        registered(reg, ds, n).contains_key(k) ==> (reg.contains_key(k) && registered(
            reg,
            ds,
            n,
        )[k].point_id == reg[k].point_id) || (!reg.contains_key(k) && exists|i: int|
            0 <= i < n && descriptor_keys(ds)[i] == k && #[trigger] registered(
                reg,
                ds,
                n,
            )[descriptor_keys(ds)[i]].point_id == assigned_id(reg, descriptor_keys(ds), i) as u32),
        reg.contains_key(k) ==> registered(reg, ds, n).contains_key(k),
    decreases n,
{
    let keys = descriptor_keys(ds);
    if n > 0 {
        lemma_assigned_row(reg, ds, n - 1, k);
        assert(keys[n - 1] == ds[n - 1].point_key);
        let now = registered(reg, ds, n);
        let was = registered(reg, ds, n - 1);
        if k == keys[n - 1] {
            assert(now[keys[n - 1]].point_id == assigned_id(reg, keys, n - 1) as u32);
        } else if was.contains_key(k) && !reg.contains_key(k) {
            let i = choose|i: int|
                0 <= i < n - 1 && keys[i] == k && #[trigger] was[keys[i]].point_id == assigned_id(
                    reg,
                    keys,
                    i,
                ) as u32;
            assert(now[keys[i]].point_id == assigned_id(reg, keys, i) as u32);
        }
    }
}

/// A key that has an id keeps it for good, whether its point is configured or not.
pub proof fn point_ids_are_stable(reg: Registry, ds: Seq<DescriptorV>, k: Seq<char>)
    requires
        descriptor_keys(ds).no_duplicates(),
        reg.contains_key(k),
    ensures
        assigned(reg, ds).contains_key(k),
        assigned(reg, ds)[k].point_id == reg[k].point_id,
{
    lemma_assigned_row(reg, ds, ds.len() as int, k);
}

/// A point that is configured no longer keeps its row, marked as such.
pub proof fn points_left_out_are_buried(reg: Registry, ds: Seq<DescriptorV>, k: Seq<char>)
    requires
        descriptor_keys(ds).no_duplicates(),
        reg.contains_key(k),
        !descriptor_keys(ds).contains(k),
    ensures
        assigned(reg, ds).contains_key(k),
        assigned(reg, ds)[k] == (PointRowV { deleted: true, ..reg[k] }),
{
    lemma_registered_row(reg, ds, ds.len() as int, k);
}

/// A point that is configured has the row of its descriptor, its label with it.
pub proof fn configured_points_are_active(reg: Registry, ds: Seq<DescriptorV>, i: int)
    requires
        descriptor_keys(ds).no_duplicates(),
        0 <= i < ds.len(),
    ensures
        assigned(reg, ds).contains_key(ds[i].point_key),
        assigned(reg, ds)[ds[i].point_key] == active_row(
            ds[i],
            assigned_id(reg, descriptor_keys(ds), i),
        ),
{
    let keys = descriptor_keys(ds);
    assert(keys[i] == ds[i].point_key);
    assert(keys.contains(ds[i].point_key));
    lemma_row_after(reg, ds, ds.len() as int, i);
}

proof fn lemma_row_after(reg: Registry, ds: Seq<DescriptorV>, n: int, i: int)
    requires
        descriptor_keys(ds).no_duplicates(),
        0 <= i < n <= ds.len(),
    ensures
        registered(reg, ds, n).contains_key(ds[i].point_key),
        registered(reg, ds, n)[ds[i].point_key] == active_row(
            ds[i],
            assigned_id(reg, descriptor_keys(ds), i),
        ),
    decreases n,
{
    if n - 1 > i {
        lemma_row_after(reg, ds, n - 1, i);
        let keys = descriptor_keys(ds);
        assert(keys[n - 1] != keys[i]);
    }
}

/// A new key gets an id above all that were ever given, so that no id goes to a second key.
pub proof fn new_ids_were_never_given(reg: Registry, ds: Seq<DescriptorV>, i: int, k: Seq<char>)
    requires
        0 <= i < ds.len(),
        !reg.contains_key(ds[i].point_key),
        reg.contains_key(k),
        reg.dom().finite(),
    ensures
        assigned_id(reg, descriptor_keys(ds), i) > reg[k].point_id,
{
    lemma_some_top(reg);
    assert(descriptor_keys(ds)[i] == ds[i].point_key);
}

/// Distinct ids stay distinct.
pub proof fn ids_stay_distinct(reg: Registry, ds: Seq<DescriptorV>)
    requires
        descriptor_keys(ds).no_duplicates(),
        has_room(reg, descriptor_keys(ds)),
        reg.dom().finite(),
        ids_are_distinct(reg),
    ensures
        ids_are_distinct(assigned(reg, ds)),
{
    let keys = descriptor_keys(ds);
    let n = ds.len() as int;
    let mid = registered(reg, ds, n);
    let after = assigned(reg, ds);
    lemma_some_top(reg);
    assert forall|a: Seq<char>, b: Seq<char>|
        #![trigger after.contains_key(a), after.contains_key(b)]
        after.contains_key(a) && after.contains_key(b) && a != b implies after[a].point_id
        != after[b].point_id by {
        lemma_assigned_row(reg, ds, n, a);
        lemma_assigned_row(reg, ds, n, b);
        if !reg.contains_key(a) {
            let i = choose|i: int|
                0 <= i < n && keys[i] == a && #[trigger] mid[keys[i]].point_id == assigned_id(
                    reg,
                    keys,
                    i,
                ) as u32;
            lemma_new_keys_grow(reg, keys, i + 1, n);
            if !reg.contains_key(b) {
                let j = choose|j: int|
                    0 <= j < n && keys[j] == b && #[trigger] mid[keys[j]].point_id == assigned_id(
                        reg,
                        keys,
                        j,
                    ) as u32;
                lemma_new_keys_grow(reg, keys, j + 1, n);
                if i < j {
                    lemma_new_ids(reg, keys, i, j);
                } else {
                    lemma_new_ids(reg, keys, j, i);
                }
            } else {
                assert(reg[b].point_id <= top_id(reg));
            }
        } else if !reg.contains_key(b) {
            let j = choose|j: int|
                0 <= j < n && keys[j] == b && #[trigger] mid[keys[j]].point_id == assigned_id(
                    reg,
                    keys,
                    j,
                ) as u32;
            lemma_new_keys_grow(reg, keys, j + 1, n);
            assert(reg[a].point_id <= top_id(reg));
        }
    }
}

// ---------------------------------------------------------------------------
// Over any number of assignments
// ---------------------------------------------------------------------------

/// The registry after the first `n` of some assignments.
pub open spec fn assigned_in_turn(reg: Registry, calls: Seq<Seq<DescriptorV>>, n: int) -> Registry
    decreases n,
{
    if n <= 0 {
        reg
    } else {
        assigned(assigned_in_turn(reg, calls, n - 1), calls[n - 1])
    }
}

/// Whether each of the first `n` assignments is one that is carried out: no key stands twice, and
/// the ids suffice.
pub open spec fn carried_out(reg: Registry, calls: Seq<Seq<DescriptorV>>, n: int) -> bool {
    forall|m: int|
        0 <= m < n ==> descriptor_keys(#[trigger] calls[m]).no_duplicates() && has_room(
            assigned_in_turn(reg, calls, m),
            descriptor_keys(calls[m]),
        )
}

/// The id that the point at `i` gets in the assignment at `a`.
pub open spec fn id_in_turn(reg: Registry, calls: Seq<Seq<DescriptorV>>, a: int, i: int) -> int {
    assigned_id(assigned_in_turn(reg, calls, a), descriptor_keys(calls[a]), i)
}

/// Whether a key was known before the assignment at `n`.
pub open spec fn seen_before(
    reg: Registry,
    calls: Seq<Seq<DescriptorV>>,
    n: int,
    k: Seq<char>,
) -> bool {
    reg.contains_key(k) || exists|m: int|
        0 <= m < n && descriptor_keys(#[trigger] calls[m]).contains(k)
}

proof fn lemma_assigned_dom(reg: Registry, ds: Seq<DescriptorV>, n: int)
    requires
        0 <= n <= ds.len(),
    ensures
        registered(reg, ds, n).dom() == reg.dom().union(descriptor_keys(ds).subrange(0, n).to_set()),
    decreases n,
{
    let keys = descriptor_keys(ds);
    if n == 0 {
        assert(keys.subrange(0, 0).to_set() =~= Set::empty());
        assert(registered(reg, ds, n).dom() =~= reg.dom().union(keys.subrange(0, n).to_set()));
    } else {
        lemma_assigned_dom(reg, ds, n - 1);
        let a = keys.subrange(0, n - 1);
        let b = keys.subrange(0, n);
        assert(b =~= a.push(ds[n - 1].point_key));
        assert forall|k: Seq<char>| #[trigger] b.contains(k) <==> a.contains(k) || k
            == ds[n - 1].point_key by {
            if b.contains(k) {
                let i = choose|i: int| 0 <= i < b.len() && b[i] == k;
                if i < n - 1 {
                    assert(a[i] == k);
                }
            }
            if a.contains(k) {
                let i = choose|i: int| 0 <= i < a.len() && a[i] == k;
                assert(b[i] == k);
            }
            if k == ds[n - 1].point_key {
                assert(b[n - 1] == k);
            }
        }
        assert(registered(reg, ds, n).dom() =~= reg.dom().union(b.to_set()));
    }
}

proof fn lemma_in_turn(reg: Registry, calls: Seq<Seq<DescriptorV>>, n: int)
    requires
        reg.dom().finite(),
        ids_are_distinct(reg),
        0 <= n <= calls.len(),
        carried_out(reg, calls, n),
    ensures
        assigned_in_turn(reg, calls, n).dom().finite(),
        ids_are_distinct(assigned_in_turn(reg, calls, n)),
        forall|k: Seq<char>| #[trigger]
            assigned_in_turn(reg, calls, n).contains_key(k) <==> seen_before(reg, calls, n, k),
    decreases n,
{
    if n > 0 {
        assert(carried_out(reg, calls, n - 1));
        lemma_in_turn(reg, calls, n - 1);
        let before = assigned_in_turn(reg, calls, n - 1);
        let after = assigned_in_turn(reg, calls, n);
        let ds = calls[n - 1];
        let keys = descriptor_keys(ds);
        ids_stay_distinct(before, ds);
        lemma_assigned_dom(before, ds, ds.len() as int);
        assert(keys.subrange(0, ds.len() as int) =~= keys);
        assert(after.dom() =~= before.dom().union(keys.to_set()));
        vstd::seq_lib::seq_to_set_is_finite(keys);
        assert forall|k: Seq<char>| #[trigger] after.contains_key(k) <==> seen_before(
            reg,
            calls,
            n,
            k,
        ) by {
            assert(before.contains_key(k) <==> seen_before(reg, calls, n - 1, k));
            if seen_before(reg, calls, n - 1, k) && !reg.contains_key(k) {
                let m = choose|m: int|
                    0 <= m < n - 1 && descriptor_keys(#[trigger] calls[m]).contains(k);
                assert(descriptor_keys(calls[m]).contains(k));
            }
            if keys.contains(k) {
                assert(descriptor_keys(calls[n - 1]).contains(k));
            }
        }
    }
}

proof fn lemma_kept_in_turn(
    reg: Registry,
    calls: Seq<Seq<DescriptorV>>,
    a: int,
    b: int,
    k: Seq<char>,
)
    requires
        0 <= a <= b <= calls.len(),
        carried_out(reg, calls, b),
        assigned_in_turn(reg, calls, a).contains_key(k),
    ensures
        assigned_in_turn(reg, calls, b).contains_key(k),
        assigned_in_turn(reg, calls, b)[k].point_id == assigned_in_turn(reg, calls, a)[k].point_id,
    decreases b,
{
    if a < b {
        assert(carried_out(reg, calls, b - 1));
        lemma_kept_in_turn(reg, calls, a, b - 1, k);
        point_ids_are_stable(assigned_in_turn(reg, calls, b - 1), calls[b - 1], k);
    }
}

proof fn lemma_id_given(reg: Registry, calls: Seq<Seq<DescriptorV>>, a: int, b: int, i: int)
    requires
        reg.dom().finite(),
        ids_are_distinct(reg),
        0 <= a < b <= calls.len(),
        carried_out(reg, calls, b),
        0 <= i < calls[a].len(),
    ensures
        assigned_in_turn(reg, calls, b).contains_key(calls[a][i].point_key),
        assigned_in_turn(reg, calls, b)[calls[a][i].point_key].point_id == id_in_turn(
            reg,
            calls,
            a,
            i,
        ),
{
    let before = assigned_in_turn(reg, calls, a);
    let keys = descriptor_keys(calls[a]);
    assert(descriptor_keys(calls[a]).no_duplicates());
    configured_points_are_active(before, calls[a], i);
    assert(keys[i] == calls[a][i].point_key);
    lemma_new_keys_grow(before, keys, i + 1, keys.len() as int);
    assert(assigned_in_turn(reg, calls, a + 1) == assigned(before, calls[a]));
    lemma_kept_in_turn(reg, calls, a + 1, b, calls[a][i].point_key);
}

/// Ids hold over any number of assignments: a key gets the same id whenever it is assigned, even if
/// it was left out in between; two keys never get the same id; and a key that was never known
/// before gets an id above all that were given before.
pub proof fn ids_hold_in_turn(
    reg: Registry,
    calls: Seq<Seq<DescriptorV>>,
    a: int,
    i: int,
    b: int,
    j: int,
)
    requires
        reg.dom().finite(),
        ids_are_distinct(reg),
        carried_out(reg, calls, calls.len() as int),
        0 <= a <= b < calls.len(),
        0 <= i < calls[a].len(),
        0 <= j < calls[b].len(),
    ensures
        calls[a][i].point_key == calls[b][j].point_key <==> id_in_turn(reg, calls, a, i)
            == id_in_turn(reg, calls, b, j),
        a < b && !seen_before(reg, calls, b, calls[b][j].point_key) ==> id_in_turn(
            reg,
            calls,
            a,
            i,
        ) < id_in_turn(reg, calls, b, j),
{
    let n = b + 1;
    assert(carried_out(reg, calls, n));
    assert(carried_out(reg, calls, b));
    let all = assigned_in_turn(reg, calls, n);
    lemma_in_turn(reg, calls, n);
    lemma_id_given(reg, calls, a, n, i);
    lemma_id_given(reg, calls, b, n, j);
    assert(all.contains_key(calls[a][i].point_key) && all.contains_key(calls[b][j].point_key));
    if a < b && !seen_before(reg, calls, b, calls[b][j].point_key) {
        let before = assigned_in_turn(reg, calls, b);
        lemma_in_turn(reg, calls, b);
        assert(!before.contains_key(calls[b][j].point_key));
        lemma_id_given(reg, calls, a, b, i);
        new_ids_were_never_given(before, calls[b], j, calls[a][i].point_key);
    }
}

// ---------------------------------------------------------------------------
// Room
// ---------------------------------------------------------------------------

/// Whether the ids suffice for some keys.
pub fn room_for(reg: &Table<PointRow>, keys: &Vec<String>) -> (r: bool)
    ensures
        r == has_room(reg@, texts_view(keys@)),
{
    let top: u32 = greatest_id(reg);
    let ghost all = texts_view(keys@);
    let mut left: u32 = u32::MAX - top;
    if left == 0 {
        return false;
    }
    left = left - 1;
    let mut i: usize = 0;
    while i < keys.len()
        invariant
            i <= keys.len(),
            all == texts_view(keys@),
            top == top_id(reg@),
            left == u32::MAX - top - 1 - new_keys(reg@, all, i as int),
        decreases keys.len() - i,
    {
        assert(all[i as int] == keys@[i as int]@);
        if !reg.has(keys[i].as_str()) {
            if left == 0 {
                proof {
                    lemma_new_keys_grow(reg@, all, i + 1, all.len() as int);
                }
                return false;
            }
            left = left - 1;
        }
        i = i + 1;
    }
    true
}

/// A point that is known keeps its id; new ones get the numbers above the highest that was ever
/// given, one after the other.
pub proof fn new_points_get_the_next_ids(reg: Registry, keys: Seq<Seq<char>>, i: int)
    requires
        reg.dom().finite(),
        0 <= i < keys.len(),
    ensures
        reg.contains_key(keys[i]) ==> assigned_id(reg, keys, i) == reg[keys[i]].point_id,
        !reg.contains_key(keys[i]) ==> assigned_id(reg, keys, i) == top_id(reg) + 1 + new_keys(
            reg,
            keys,
            i,
        ),
        new_keys(reg, keys, 0) == 0,
        !reg.contains_key(keys[i]) ==> new_keys(reg, keys, i + 1) == new_keys(reg, keys, i) + 1,
        reg.contains_key(keys[i]) ==> new_keys(reg, keys, i + 1) == new_keys(reg, keys, i),
        forall|k: Seq<char>| #[trigger]
            reg.contains_key(k) ==> reg[k].point_id <= top_id(reg),
        top_id(reg) == 0 || exists|k: Seq<char>| #[trigger]
            reg.contains_key(k) && reg[k].point_id == top_id(reg),
{
    lemma_some_top(reg);
}

/// The row of a point that is configured says what its descriptor says.
pub proof fn rows_say_what_descriptors_say(d: DescriptorV, id: int)
    requires
        0 <= id <= u32::MAX,
    ensures
        active_row(d, id).point_id == id,
        active_row(d, id).data_type == data_type_name(d.data_type),
        active_row(d, id).unit == d.unit,
        !active_row(d, id).deleted,
        active_row(d, id).source_label == d.source_label,
{
}

/// A definition says of its point what the descriptor says, under the id that was given.
pub proof fn definitions_say_what_descriptors_say(def: PointDefinition, d: DescriptorV, id: int)
    ensures
        defines(def, d, id) <==> (def.point_id == id && def.point_key@ == d.point_key
            && def.data_type == d.data_type && maybe_text(def.unit) == d.unit && maybe_text(
            def.source_label,
        ) == d.source_label && def.display_name is None),
{
}

} // verus!
