//! Where points get their ids from.
use vstd::prelude::*;

use crate::points::{
    assigned, assigned_id, descriptor_keys, descriptors_view, has_room,
};
use crate::store::{
    points_refused, registry_of, revision_of, store_fault_text, store_ok, ConfigStore, StoreV,
};
use crate::table::Table;
use crate::text::{first_repeat, first_repeat_is_first, texts_view};
use crate::types::{ensure_unique_point_keys, point_keys, PointDescriptor};

verus! {

/// What is said of a key that stands twice.
pub open spec fn duplicate_key_text(key: Seq<char>) -> Seq<char> {
    "duplicate point_key: `"@ + key + "`"@
}

/// Gives points ids that they keep.
pub trait PointIdSource {
    /// The ids of the points of an endpoint that are known, by key.
    spec fn known(&self, endpoint: Seq<char>) -> Map<Seq<char>, u32>;

    /// The revision of an endpoint.
    spec fn revision_at(&self, endpoint: Seq<char>) -> u64;

    /// Whether there are ids left for some points.
    spec fn ready(&self, endpoint: Seq<char>, keys: Seq<Seq<char>>) -> bool;

    /// Why some points of an endpoint get no ids, if they do not.
    spec fn refuses(&self, endpoint: Seq<char>, keys: Seq<Seq<char>>) -> Option<Seq<char>>;

    /// The ids of some points, in their order. A point that was known keeps its id.
    fn assign(&mut self, endpoint_id: &str, descriptors: &[PointDescriptor]) -> (r: Result<
        Vec<u32>,
        String,
    >)
        requires
            old(self).ready(endpoint_id@, point_keys(descriptors@)),
        ensures
            match r {
                Ok(ids) => {
                    &&& first_repeat(point_keys(descriptors@)) is None
                    &&& ids@.len() == descriptors@.len()
                    &&& forall|i: int|
                        0 <= i < ids@.len() ==> final(self).known(endpoint_id@).contains_key(
                            (#[trigger] descriptors@[i]).point_key@,
                        ) && final(self).known(endpoint_id@)[descriptors@[i].point_key@] == ids@[i]
                    &&& forall|i: int|
                        0 <= i < ids@.len() && old(self).known(endpoint_id@).contains_key(
                            (#[trigger] descriptors@[i]).point_key@,
                        ) ==> ids@[i] == old(self).known(endpoint_id@)[descriptors@[i].point_key@]
                },
                Err(e) => final(self).known(endpoint_id@) == old(self).known(endpoint_id@),
            },
            match old(self).refuses(endpoint_id@, point_keys(descriptors@)) {
                None => r is Ok,
                Some(m) => r is Err && r->Err_0@ == m,
            },
            first_repeat(point_keys(descriptors@)) is Some ==> r is Err,
    ;

    /// The ids of the points of an endpoint that are known, by key.
    fn known_map(&self, endpoint_id: &str) -> (r: Table<u32>)
        ensures
            r@ == self.known(endpoint_id@),
    ;

    /// The revision of an endpoint.
    fn revision(&self, endpoint_id: &str) -> (r: u64)
        ensures
            r == self.revision_at(endpoint_id@),
    ;
}

// ---------------------------------------------------------------------------
// Ids that are kept in memory
// ---------------------------------------------------------------------------

/// Gives ids that are kept as long as the process runs.
pub struct PointIdAllocator {
    next: u64,
    maps: Table<Table<u32>>,
    revisions: Table<u64>,
}

/// What a [`PointIdAllocator`] holds.
pub struct AllocatorV {
    pub next: u64,
    pub maps: Map<Seq<char>, Map<Seq<char>, u32>>,
    pub revisions: Map<Seq<char>, u64>,
}

impl View for PointIdAllocator {
    type V = AllocatorV;

    closed spec fn view(&self) -> AllocatorV {
        AllocatorV { next: self.next, maps: self.maps@, revisions: self.revisions@ }
    }
}

/// The ids of an endpoint, and how many ids were given.
pub struct AllocationV {
    pub map: Map<Seq<char>, u32>,
    pub next: int,
}

/// The ids of an endpoint after the first `n` of some keys got theirs.
pub open spec fn allocated(start: AllocationV, keys: Seq<Seq<char>>, n: int) -> AllocationV
    decreases n,
{
    if n <= 0 {
        start
    } else {
        let before = allocated(start, keys, n - 1);
        if before.map.contains_key(keys[n - 1]) {
            before
        } else {
            AllocationV {
                map: before.map.insert(keys[n - 1], (before.next + 1) as u32),
                next: before.next + 1,
            }
        }
    }
}

/// The ids of an endpoint.
pub open spec fn allocation(a: AllocatorV, endpoint: Seq<char>) -> AllocationV {
    AllocationV {
        map: if a.maps.contains_key(endpoint) {
            a.maps[endpoint]
        } else {
            Map::empty()
        },
        next: a.next as int,
    }
}

/// The ids after some keys of an endpoint got theirs.
pub open spec fn after_allocation(
    a: AllocatorV,
    endpoint: Seq<char>,
    keys: Seq<Seq<char>>,
) -> AllocatorV {
    let out = allocated(allocation(a, endpoint), keys, keys.len() as int);
    AllocatorV {
        next: out.next as u64,
        maps: a.maps.insert(endpoint, out.map),
        revisions: if a.revisions.contains_key(endpoint) {
            a.revisions
        } else {
            a.revisions.insert(endpoint, 1)
        },
    }
}

proof fn lemma_allocated(start: AllocationV, keys: Seq<Seq<char>>, n: int)
    requires
        0 <= n <= keys.len(),
        0 <= start.next,
        start.next + keys.len() <= u32::MAX,
    ensures
        start.next <= allocated(start, keys, n).next <= start.next + n,
        forall|k: Seq<char>| #[trigger]
            start.map.contains_key(k) ==> allocated(start, keys, n).map.contains_key(k)
                && allocated(start, keys, n).map[k] == start.map[k],
        forall|k: Seq<char>| #[trigger]
            allocated(start, keys, n).map.contains_key(k) <==> start.map.contains_key(k) || exists|
                i: int,
            |
                0 <= i < n && #[trigger] keys[i] == k,
        forall|k: Seq<char>| #[trigger]
            allocated(start, keys, n).map.contains_key(k) ==> start.map.contains_key(k) || (
            start.next < allocated(start, keys, n).map[k] && allocated(start, keys, n).map[k]
                <= allocated(start, keys, n).next),
    decreases n,
{
    if n > 0 {
        lemma_allocated(start, keys, n - 1);
        let before = allocated(start, keys, n - 1);
        let after = allocated(start, keys, n);
        assert forall|k: Seq<char>| #[trigger] after.map.contains_key(k) <==> start.map.contains_key(
            k,
        ) || exists|i: int| 0 <= i < n && #[trigger] keys[i] == k by {
            if after.map.contains_key(k) && !start.map.contains_key(k) {
                if k == keys[n - 1] {
                    assert(keys[n - 1] == k);
                } else {
                    assert(before.map.contains_key(k));
                    let i = choose|i: int| 0 <= i < n - 1 && #[trigger] keys[i] == k;
                    assert(keys[i] == k);
                }
            }
            if exists|i: int| 0 <= i < n && #[trigger] keys[i] == k {
                let i = choose|i: int| 0 <= i < n && #[trigger] keys[i] == k;
                if i < n - 1 {
                    assert(before.map.contains_key(k));
                }
            }
        }
    }
}

/// To ask again for the ids of some points changes nothing.
pub proof fn ids_are_given_once(start: AllocationV, keys: Seq<Seq<char>>, n: int)
    requires
        0 <= n <= keys.len(),
        0 <= start.next,
        start.next + keys.len() <= u32::MAX,
    ensures
        allocated(allocated(start, keys, keys.len() as int), keys, n) == allocated(
            start,
            keys,
            keys.len() as int,
        ),
    decreases n,
{
    if n > 0 {
        let done = allocated(start, keys, keys.len() as int);
        ids_are_given_once(start, keys, n - 1);
        lemma_allocated(start, keys, keys.len() as int);
        assert(done.map.contains_key(keys[n - 1]));
    }
}

/// A new point gets an id that is greater than all that were given before.
pub proof fn new_points_get_new_ids(start: AllocationV, keys: Seq<Seq<char>>, k: Seq<char>)
    requires
        0 <= start.next,
        start.next + keys.len() <= u32::MAX,
        keys.contains(k),
        !start.map.contains_key(k),
    ensures
        allocated(start, keys, keys.len() as int).map.contains_key(k),
        allocated(start, keys, keys.len() as int).map[k] > start.next,
{
    lemma_allocated(start, keys, keys.len() as int);
    let i = choose|i: int| 0 <= i < keys.len() && keys[i] == k;
    assert(keys[i] == k);
}

impl PointIdAllocator {
    /// An allocator that has given no id.
    pub fn new() -> (r: PointIdAllocator)
        ensures
            r@ == (AllocatorV { next: 0, maps: Map::empty(), revisions: Map::empty() }),
    {
        PointIdAllocator { next: 0, maps: Table::new(), revisions: Table::new() }
    }

    /// Whether there are ids left for some points, of whatever endpoint.
    pub fn is_ready(&self, keys: &Vec<String>) -> (r: bool)
        ensures
            forall|endpoint: Seq<char>| r == #[trigger] self.ready(endpoint, texts_view(keys@)),
    {
        self.next <= u32::MAX as u64 && keys.len() <= (u32::MAX as u64 - self.next) as usize
    }
}

impl Default for PointIdAllocator {
    fn default() -> (r: PointIdAllocator)
        ensures
            r@ == (AllocatorV { next: 0, maps: Map::empty(), revisions: Map::empty() }),
    {
        PointIdAllocator::new()
    }
}

fn copy_map(t: &Table<u32>) -> (r: Table<u32>)
    ensures
        r@ == t@,
{
    let n: usize = t.len();
    let ghost keys = t.keys();
    let mut out: Table<u32> = Table::new();
    let mut i: usize = 0;
    while i < n
        invariant
            i <= n,
            n == keys.len(),
            keys == t.keys(),
            keys.to_set() == t@.dom(),
            forall|k: Seq<char>| #[trigger]
                out@.contains_key(k) <==> exists|j: int| 0 <= j < i && #[trigger] keys[j] == k,
            forall|k: Seq<char>| #[trigger] out@.contains_key(k) ==> out@[k] == t@[k],
        decreases n - i,
    {
        out.set(t.key_at(i).clone(), *t.at(i));
        i = i + 1;
    }
    proof {
        assert forall|k: Seq<char>| #[trigger] out@.contains_key(k) <==> t@.contains_key(k) by {
            if t@.contains_key(k) {
                assert(keys.to_set().contains(k));
                let j = choose|j: int| 0 <= j < keys.len() && keys[j] == k;
                assert(0 <= j < i && keys[j] == k);
            }
            if out@.contains_key(k) {
                let j = choose|j: int| 0 <= j < i && #[trigger] keys[j] == k;
                assert(keys.contains(keys[j]));
                assert(keys.to_set().contains(k));
            }
        }
        assert(out@ =~= t@);
    }
    out
}

impl PointIdSource for PointIdAllocator {
    open spec fn known(&self, endpoint: Seq<char>) -> Map<Seq<char>, u32> {
        allocation(self@, endpoint).map
    }

    open spec fn revision_at(&self, endpoint: Seq<char>) -> u64 {
        if self@.revisions.contains_key(endpoint) {
            self@.revisions[endpoint]
        } else {
            1
        }
    }

    open spec fn ready(&self, endpoint: Seq<char>, keys: Seq<Seq<char>>) -> bool {
        self@.next + keys.len() <= u32::MAX
    }

    open spec fn refuses(&self, endpoint: Seq<char>, keys: Seq<Seq<char>>) -> Option<Seq<char>> {
        match first_repeat(keys) {
            Some(p) => Some(duplicate_key_text(keys[p])),
            None => None,
        }
    }

    fn assign(&mut self, endpoint_id: &str, descriptors: &[PointDescriptor]) -> (r: Result<
        Vec<u32>,
        String,
    >)
        ensures
            first_repeat(point_keys(descriptors@)) is None ==> r is Ok && final(self)@
                == after_allocation(old(self)@, endpoint_id@, point_keys(descriptors@)),
            first_repeat(point_keys(descriptors@)) matches Some(p) ==> final(self)@ == old(self)@
                && r is Err && r->Err_0@ == duplicate_key_text(point_keys(descriptors@)[p]),
    {
        let ghost keys = point_keys(descriptors@);
        let ghost start = allocation(self@, endpoint_id@);
        match ensure_unique_point_keys(descriptors) {
            Ok(()) => {},
            Err(e) => {
                return Err(e.message());
            },
        }
        let mut map: Table<u32> = match self.maps.take(endpoint_id) {
            Some(m) => m,
            None => Table::new(),
        };
        let mut next: u64 = self.next;
        let mut out: Vec<u32> = Vec::new();
        let mut i: usize = 0;
        while i < descriptors.len()
            invariant
                i <= descriptors.len(),
                keys == point_keys(descriptors@),
                start.next >= 0,
                start.next + keys.len() <= u32::MAX,
                map@ == allocated(start, keys, i as int).map,
                next == allocated(start, keys, i as int).next,
                out@.len() == i,
                forall|j: int|
                    0 <= j < i ==> map@.contains_key(#[trigger] keys[j]) && map@[keys[j]]
                        == out@[j],
            decreases descriptors.len() - i,
        {
            let key: &String = &descriptors[i].point_key;
            proof {
                assert(keys[i as int] == key@);
                lemma_allocated(start, keys, i as int);
            }
            match map.get(key.as_str()) {
                Some(id) => {
                    out.push(*id);
                },
                None => {
                    next = next + 1;
                    let id: u32 = next as u32;
                    map.set(key.clone(), id);
                    out.push(id);
                },
            }
            i = i + 1;
        }
        proof {
            lemma_allocated(start, keys, i as int);
        }
        let ghost mv = map@;
        self.next = next;
        self.maps.set(endpoint_id.to_owned(), map);
        if !self.revisions.has(endpoint_id) {
            self.revisions.set(endpoint_id.to_owned(), 1);
        }
        proof {
            let want = after_allocation(old(self)@, endpoint_id@, keys);
            assert(self@.maps =~= want.maps);
            assert(self@.revisions =~= want.revisions);
            assert forall|j: int| 0 <= j < out@.len() implies self.known(
                endpoint_id@,
            ).contains_key((#[trigger] descriptors@[j]).point_key@) && self.known(
                endpoint_id@,
            )[descriptors@[j].point_key@] == out@[j] by {
                assert(keys[j] == descriptors@[j].point_key@);
            }
            assert forall|j: int|
                0 <= j < out@.len() && old(self).known(endpoint_id@).contains_key(
                    (#[trigger] descriptors@[j]).point_key@,
                ) implies out@[j] == old(self).known(endpoint_id@)[descriptors@[j].point_key@] by {
                assert(keys[j] == descriptors@[j].point_key@);
                assert(start.map.contains_key(keys[j]));
            }
        }
        Ok(out)
    }

    fn known_map(&self, endpoint_id: &str) -> Table<u32> {
        match self.maps.get(endpoint_id) {
            Some(m) => copy_map(m),
            None => Table::new(),
        }
    }

    fn revision(&self, endpoint_id: &str) -> u64 {
        match self.revisions.get(endpoint_id) {
            Some(n) => *n,
            None => 1,
        }
    }
}

// ---------------------------------------------------------------------------
// Ids that the store keeps
// ---------------------------------------------------------------------------

/// Gives ids that the store keeps.
pub struct StorePointIdSource {
    pub store: ConfigStore,
}

impl StorePointIdSource {
    pub fn new(store: ConfigStore) -> (r: StorePointIdSource)
        ensures
            r.store == store,
    {
        StorePointIdSource { store }
    }

    /// Whether there are ids left for some points.
    pub fn is_ready(&self, endpoint_id: &str, keys: &Vec<String>) -> (r: bool)
        requires
            store_ok(self.store@),
        ensures
            r == self.ready(endpoint_id@, texts_view(keys@)),
    {
        self.store.has_room_for(endpoint_id, keys)
    }
}

impl PointIdSource for StorePointIdSource {
    open spec fn known(&self, endpoint: Seq<char>) -> Map<Seq<char>, u32> {
        crate::store::active_points(registry_of(self.store@, endpoint))
    }

    open spec fn revision_at(&self, endpoint: Seq<char>) -> u64 {
        if revision_of(self.store@, endpoint) > 1 {
            revision_of(self.store@, endpoint)
        } else {
            1
        }
    }

    open spec fn ready(&self, endpoint: Seq<char>, keys: Seq<Seq<char>>) -> bool {
        store_ok(self.store@) && has_room(registry_of(self.store@, endpoint), keys)
    }

    open spec fn refuses(&self, endpoint: Seq<char>, keys: Seq<Seq<char>>) -> Option<Seq<char>> {
        match points_refused(self.store@, endpoint, keys) {
            Some(f) => Some(store_fault_text(f)),
            None => None,
        }
    }

    fn assign(&mut self, endpoint_id: &str, descriptors: &[PointDescriptor]) -> (r: Result<
        Vec<u32>,
        String,
    >)
        ensures
            match r {
                Ok(ids) => points_refused(
                    old(self).store@,
                    endpoint_id@,
                    point_keys(descriptors@),
                ) is None && final(self).store@ == (StoreV {
                    points: old(self).store@.points.insert(
                        endpoint_id@,
                        assigned(
                            registry_of(old(self).store@, endpoint_id@),
                            descriptors_view(descriptors@),
                        ),
                    ),
                    ..old(self).store@
                }),
                Err(e) => points_refused(
                    old(self).store@,
                    endpoint_id@,
                    point_keys(descriptors@),
                ) matches Some(f) && e@ == store_fault_text(f) && final(self).store@ == old(self).store@,
            },
            store_ok(final(self).store@),
    {
        let ghost before = self.store@;
        let ghost reg = registry_of(before, endpoint_id@);
        let ghost ds = descriptors_view(descriptors@);
        let ghost keys = descriptor_keys(ds);
        assert(keys =~= point_keys(descriptors@));
        match self.store.assign_point_ids(endpoint_id, descriptors) {
            Ok(defs) => {
                let mut out: Vec<u32> = Vec::new();
                let mut i: usize = 0;
                while i < defs.len()
                    invariant
                        i <= defs.len(),
                        out@.len() == i,
                        forall|j: int| 0 <= j < i ==> #[trigger] out@[j] == defs@[j].point_id,
                    decreases defs.len() - i,
                {
                    out.push(defs[i].point_id);
                    i = i + 1;
                }
                proof {
                    first_repeat_is_first(keys);
                    let after = assigned(reg, ds);
                    assert forall|j: int| 0 <= j < out@.len() implies self.known(
                        endpoint_id@,
                    ).contains_key((#[trigger] descriptors@[j]).point_key@) && self.known(
                        endpoint_id@,
                    )[descriptors@[j].point_key@] == out@[j] by {
                        assert(crate::points::defines(
                            defs@[j],
                            descriptors@[j]@,
                            assigned_id(reg, keys, j),
                        ));
                        crate::points::configured_points_are_active(reg, ds, j);
                        assert(ds[j] == descriptors@[j]@);
                    }
                    assert forall|j: int|
                        0 <= j < out@.len() && old(self).known(endpoint_id@).contains_key(
                            (#[trigger] descriptors@[j]).point_key@,
                        ) implies out@[j] == old(self).known(
                        endpoint_id@,
                    )[descriptors@[j].point_key@] by {
                        assert(crate::points::defines(
                            defs@[j],
                            descriptors@[j]@,
                            assigned_id(reg, keys, j),
                        ));
                        assert(keys[j] == descriptors@[j].point_key@);
                    }
                }
                Ok(out)
            },
            Err(e) => Err(e.message()),
        }
    }

    fn known_map(&self, endpoint_id: &str) -> Table<u32> {
        self.store.point_map(endpoint_id)
    }

    fn revision(&self, endpoint_id: &str) -> u64 {
        let n: u64 = self.store.current_revision(endpoint_id);
        if n > 1 {
            n
        } else {
            1
        }
    }
}

/// A key that has an id keeps it, and a new one gets the next.
pub proof fn new_keys_get_the_next_id(start: AllocationV, keys: Seq<Seq<char>>, n: int)
    requires
        0 < n <= keys.len(),
        0 <= start.next,
        start.next + keys.len() <= u32::MAX,
    ensures
        allocated(start, keys, 0) == start,
        ({
            let before = allocated(start, keys, n - 1);
            let after = allocated(start, keys, n);
            &&& before.map.contains_key(keys[n - 1]) ==> after == before
            &&& !before.map.contains_key(keys[n - 1]) ==> after.map == before.map.insert(
                keys[n - 1],
                (before.next + 1) as u32,
            ) && after.next == before.next + 1
        }),
{
}

/// After some keys got their ids, only this endpoint's are changed; its first time is revision one.
pub proof fn ids_are_kept_by_endpoint(
    a: AllocatorV,
    endpoint: Seq<char>,
    keys: Seq<Seq<char>>,
    other: Seq<char>,
)
    ensures
        ({
            let after = after_allocation(a, endpoint, keys);
            let start = AllocationV {
                map: if a.maps.contains_key(endpoint) {
                    a.maps[endpoint]
                } else {
                    Map::empty()
                },
                next: a.next as int,
            };
            &&& after.maps.contains_key(endpoint)
            &&& after.maps[endpoint] == allocated(start, keys, keys.len() as int).map
            &&& other != endpoint ==> (after.maps.contains_key(other) <==> a.maps.contains_key(
                other,
            )) && after.maps[other] == a.maps[other]
            &&& a.revisions.contains_key(endpoint) ==> after.revisions == a.revisions
            &&& !a.revisions.contains_key(endpoint) ==> after.revisions == a.revisions.insert(
                endpoint,
                1,
            )
        }),
{
}

} // verus!
