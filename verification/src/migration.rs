//! What has to be done to a database of any age before it is used.
use vstd::prelude::*;

use crate::text::{blank, decimal, is_blank, parse_i64, parsed_i64};

verus! {

/// The version of the schema.
pub const SCHEMA_VERSION: i64 = 7;

// ---------------------------------------------------------------------------
// What a database is like
// ---------------------------------------------------------------------------

/// What a database says of itself, its tables having been made where they were missing: the
/// version that it names, the versions that its list of migrations holds, and whether some columns
/// are there.
#[derive(Debug, Clone, PartialEq)]
pub struct SchemaFacts {
    pub version: Option<String>,
    pub recorded: Vec<i64>,
    pub device_profile: bool,
    pub endpoint_name: bool,
    pub point_source_label: bool,
}

/// What [`SchemaFacts`] say.
#[verifier::ext_equal]
pub struct SchemaV {
    pub version: Option<Seq<char>>,
    pub recorded: Set<int>,
    pub device_profile: bool,
    pub endpoint_name: bool,
    pub point_source_label: bool,
}

/// The versions of a list.
pub open spec fn versions(list: Seq<i64>) -> Set<int> {
    list.map_values(|n: i64| n as int).to_set()
}

impl View for SchemaFacts {
    type V = SchemaV;

    open spec fn view(&self) -> SchemaV {
        SchemaV {
            version: match self.version {
                Some(v) => Some(v@),
                None => None,
            },
            recorded: versions(self.recorded@),
            device_profile: self.device_profile,
            endpoint_name: self.endpoint_name,
            point_source_label: self.point_source_label,
        }
    }
}

// ---------------------------------------------------------------------------
// Steps
// ---------------------------------------------------------------------------

/// One step.
#[derive(Debug, Clone, Copy, PartialEq, Eq, Structural)]
pub enum MigrationStep {
    /// Records the first migration, if it is not recorded.
    RecordInitial,
    /// Names a version, if none is named.
    NameVersion { version: i64 },
    /// In one transaction: runs the statements of a migration where they are to be run, records
    /// it, and names its version. The fifth also gives endpoints without a name their id as name.
    Apply { version: i64, run_sql: bool },
    /// Names a version in place of the one that is named.
    SetVersion { version: i64 },
}

/// What a step makes of a database.
pub open spec fn stepped(s: SchemaV, step: MigrationStep) -> SchemaV {
    match step {
        MigrationStep::RecordInitial => SchemaV { recorded: s.recorded.insert(1), ..s },
        MigrationStep::NameVersion { version } => SchemaV {
            version: match s.version {
                Some(v) => Some(v),
                None => Some(decimal(version as nat)),
            },
            ..s
        },
        MigrationStep::Apply { version, run_sql } => SchemaV {
            version: Some(decimal(version as nat)),
            recorded: s.recorded.insert(version as int),
            device_profile: s.device_profile && !(version == 4 && run_sql),
            endpoint_name: s.endpoint_name || (version == 5 && run_sql),
            point_source_label: s.point_source_label || (version == 7 && run_sql),
        },
        MigrationStep::SetVersion { version } => SchemaV {
            version: Some(decimal(version as nat)),
            ..s
        },
    }
}

/// What some steps make of a database.
pub open spec fn all_stepped(s: SchemaV, steps: Seq<MigrationStep>) -> SchemaV
    decreases steps.len(),
{
    if steps.len() == 0 {
        s
    } else {
        stepped(all_stepped(s, steps.drop_last()), steps.last())
    }
}

/// The version that a database names; zero where it names none.
pub open spec fn named_version(s: SchemaV) -> int {
    match s.version {
        Some(v) => match parsed_i64(v) {
            Some(n) => n,
            None => 0,
        },
        None => 0,
    }
}

/// Whether the statements of a migration are to be run: those that take a column away or add one
/// only where it is there or is missing.
pub open spec fn needs_sql(s: SchemaV, version: int) -> bool {
    if version == 4 {
        s.device_profile
    } else if version == 5 {
        !s.endpoint_name
    } else if version == 7 {
        !s.point_source_label
    } else {
        true
    }
}

/// The first steps, and the version from which to go on.
pub open spec fn first_steps(s: SchemaV) -> (Seq<MigrationStep>, int) {
    let initial = if s.recorded.len() == 0 {
        seq![MigrationStep::RecordInitial]
    } else {
        Seq::empty()
    };
    let named = if s.recorded.len() == 0 && s.version is None {
        (initial.push(MigrationStep::NameVersion { version: 1 }), 1int)
    } else {
        (initial, named_version(s))
    };
    if named.1 < 1 {
        (named.0.push(MigrationStep::NameVersion { version: SCHEMA_VERSION }), SCHEMA_VERSION as int)
    } else {
        named
    }
}

/// The migrations from the second up to `n`, from a version on: those above the version that is
/// reached so far and not recorded. One that is recorded is passed over and does not count as
/// reached.
pub open spec fn later_steps(s: SchemaV, from: int, n: int) -> (Seq<MigrationStep>, int)
    decreases n,
{
    if n < 2 {
        (Seq::empty(), from)
    } else {
        let before = later_steps(s, from, n - 1);
        if before.1 < n && !s.recorded.contains(n) {
            (
                before.0.push(
                    MigrationStep::Apply { version: n as i64, run_sql: needs_sql(s, n) },
                ),
                n,
            )
        } else {
            before
        }
    }
}

/// All steps.
pub open spec fn plan(s: SchemaV) -> Seq<MigrationStep> {
    let first = first_steps(s);
    let later = later_steps(s, first.1, 7);
    let steps = first.0 + later.0;
    if later.1 < SCHEMA_VERSION {
        steps.push(MigrationStep::SetVersion { version: SCHEMA_VERSION })
    } else {
        steps
    }
}

fn is_recorded(list: &Vec<i64>, n: i64) -> (r: bool)
    ensures
        r == versions(list@).contains(n as int),
{
    let ghost all = list@.map_values(|n: i64| n as int);
    let mut i: usize = 0;
    while i < list.len()
        invariant
            i <= list.len(),
            all == list@.map_values(|n: i64| n as int),
            forall|j: int| 0 <= j < i ==> #[trigger] all[j] != n,
        decreases list.len() - i,
    {
        if list[i] == n {
            assert(all[i as int] == n);
            return true;
        }
        i = i + 1;
    }
    false
}

/// The steps that bring a database to the version of the schema.
pub fn migrate(facts: &SchemaFacts) -> (r: Vec<MigrationStep>)
    ensures
        r@ == plan(facts@),
{
    let ghost s = facts@;
    let mut steps: Vec<MigrationStep> = Vec::new();
    let mut at: i64 = match &facts.version {
        Some(v) => match parse_i64(v.as_str()) {
            Some(n) => n,
            None => 0,
        },
        None => 0,
    };
    assert(at == named_version(s));
    proof {
        let all = facts.recorded@.map_values(|n: i64| n as int);
        vstd::seq_lib::seq_to_set_is_finite(all);
        if facts.recorded@.len() > 0 {
            assert(all.to_set().contains(all[0]));
            vstd::set_lib::lemma_set_empty_equivalency_len(all.to_set());
        } else {
            assert(all.to_set() =~= Set::empty());
        }
    }
    if facts.recorded.len() == 0 {
        steps.push(MigrationStep::RecordInitial);
        if facts.version.is_none() {
            steps.push(MigrationStep::NameVersion { version: 1 });
            at = 1;
        }
    }
    if at < 1 {
        steps.push(MigrationStep::NameVersion { version: SCHEMA_VERSION });
        at = SCHEMA_VERSION;
    }
    let ghost first = first_steps(s);
    assert(steps@ =~= first.0);
    assert(at == first.1);
    let mut n: i64 = 2;
    assert(first.0 + later_steps(s, first.1, 1).0 =~= first.0);
    while n <= 7
        invariant
            2 <= n <= 8,
            s == facts@,
            first == first_steps(s),
            steps@ == first.0 + later_steps(s, first.1, n - 1).0,
            at == later_steps(s, first.1, n - 1).1,
        decreases 8 - n,
    {
        let ghost before = later_steps(s, first.1, n - 1);
        if at < n && !is_recorded(&facts.recorded, n) {
            let run_sql: bool = if n == 4 {
                facts.device_profile
            } else if n == 5 {
                !facts.endpoint_name
            } else if n == 7 {
                !facts.point_source_label
            } else {
                true
            };
            steps.push(MigrationStep::Apply { version: n, run_sql });
            at = n;
            assert(steps@ =~= first.0 + later_steps(s, first.1, n as int).0);
        }
        n = n + 1;
    }
    if at < SCHEMA_VERSION {
        steps.push(MigrationStep::SetVersion { version: SCHEMA_VERSION });
    }
    steps
}

// ---------------------------------------------------------------------------
// What holds of the steps
// ---------------------------------------------------------------------------

/// The name that an endpoint has after the fifth migration: its own, or its id where it has none.
pub fn migrated_name(id: &str, name: &str) -> (r: String)
    ensures
        r@ == (if blank(name@) {
            id@
        } else {
            name@
        }),
{
    if is_blank(name) {
        id.to_owned()
    } else {
        name.to_owned()
    }
}

/// Whether a database is one that was made here: it names no version or one from the first to the
/// present one.
pub open spec fn is_known(s: SchemaV) -> bool {
    &&& s.recorded.finite()
    &&& s.version is Some ==> 1 <= named_version(s) <= SCHEMA_VERSION
}

proof fn lemma_decimals()
    ensures
        parsed_i64(decimal(1)) == Some(1int),
        parsed_i64(decimal(2)) == Some(2int),
        parsed_i64(decimal(3)) == Some(3int),
        parsed_i64(decimal(4)) == Some(4int),
        parsed_i64(decimal(5)) == Some(5int),
        parsed_i64(decimal(6)) == Some(6int),
        parsed_i64(decimal(7)) == Some(7int),
{
    reveal_with_fuel(decimal, 2);
    reveal_with_fuel(crate::text::digits_value, 3);
    assert forall|n: nat| 1 <= n <= 7 implies #[trigger] parsed_i64(decimal(n)) == Some(
        n as int,
    ) by {
        let s = decimal(n);
        assert(s =~= seq![crate::text::digit(n as int)]);
        assert(s.drop_last() =~= Seq::<char>::empty());
    }
    assert(parsed_i64(decimal(1)) == Some(1int));
    assert(parsed_i64(decimal(2)) == Some(2int));
    assert(parsed_i64(decimal(3)) == Some(3int));
    assert(parsed_i64(decimal(4)) == Some(4int));
    assert(parsed_i64(decimal(5)) == Some(5int));
    assert(parsed_i64(decimal(6)) == Some(6int));
    assert(parsed_i64(decimal(7)) == Some(7int));
}

proof fn lemma_decimal_of(n: int)
    requires
        1 <= n <= 7,
    ensures
        parsed_i64(decimal(n as nat)) == Some(n),
{
    lemma_decimals();
}

proof fn lemma_all_stepped(s: SchemaV, a: Seq<MigrationStep>, b: Seq<MigrationStep>)
    ensures
        all_stepped(s, a + b) == all_stepped(all_stepped(s, a), b),
    decreases b.len(),
{
    if b.len() == 0 {
        assert(a + b =~= a);
    } else {
        lemma_all_stepped(s, a, b.drop_last());
        assert((a + b).drop_last() =~= a + b.drop_last());
        assert((a + b).last() == b.last());
    }
}

proof fn lemma_first_steps(s: SchemaV)
    requires
        is_known(s),
    ensures
        ({
            let f = first_steps(s);
            let t = all_stepped(s, f.0);
            &&& 1 <= f.1 <= 7
            &&& named_version(t) == f.1
            &&& t.version is Some
            &&& t.recorded.finite()
            &&& t.recorded.len() > 0
            &&& forall|n: int| n != 1 ==> (#[trigger] t.recorded.contains(n) <==> s.recorded.contains(n))
            &&& t.device_profile == s.device_profile
            &&& t.endpoint_name == s.endpoint_name
            &&& t.point_source_label == s.point_source_label
        }),
{
    lemma_decimals();
    reveal_with_fuel(all_stepped, 4);
    let f = first_steps(s);
    if s.recorded.len() == 0 {
        let initial = seq![MigrationStep::RecordInitial];
        assert(initial.drop_last() =~= Seq::empty());
        if s.version is None {
            assert(f.0 =~= initial.push(MigrationStep::NameVersion { version: 1 }));
            assert(f.0.drop_last() =~= initial);
        } else {
            assert(f.0 =~= initial);
        }
        assert(s.recorded.insert(1).len() > 0);
    } else if s.version is None {
        assert(f.0 =~= seq![MigrationStep::NameVersion { version: SCHEMA_VERSION }]);
        assert(f.0.drop_last() =~= Seq::empty());
    } else {
        assert(f.0 =~= Seq::empty());
    }
}

proof fn lemma_later_steps(s: SchemaV, t: SchemaV, from: int, n: int)
    requires
        1 <= from <= 7,
        1 <= n <= 7,
        named_version(t) == from,
        t.version is Some,
        t.recorded.finite(),
        t.recorded.len() > 0,
    ensures
        ({
            let l = later_steps(s, from, n);
            let u = all_stepped(t, l.0);
            &&& from <= l.1 <= 7
            &&& l.1 == from || l.1 <= n
            &&& named_version(u) == l.1
            &&& u.version is Some
            &&& u.recorded.finite()
            &&& u.recorded.len() > 0
            &&& u.device_profile == (t.device_profile && !(n >= 4 && from < 4 && !s.recorded.contains(4)
                && s.device_profile))
            &&& u.endpoint_name == (t.endpoint_name || (n >= 5 && from < 5 && !s.recorded.contains(5)
                && !s.endpoint_name))
            &&& u.point_source_label == (t.point_source_label || (n >= 7 && from < 7
                && !s.recorded.contains(7) && !s.point_source_label))
        }),
    decreases n,
{
    if n >= 2 {
        lemma_later_steps(s, t, from, n - 1);
        lemma_decimal_of(n);
        let before = later_steps(s, from, n - 1);
        let l = later_steps(s, from, n);
        if before.1 < n && !s.recorded.contains(n) {
            assert(l.0.drop_last() =~= before.0);
            let u = all_stepped(t, before.0);
            assert(u.recorded.insert(n).len() >= u.recorded.len());
        }
    }
}

proof fn lemma_plan(s: SchemaV)
    requires
        is_known(s),
    ensures
        ({
            let u = all_stepped(s, plan(s));
            let from = first_steps(s).1;
            &&& named_version(u) == SCHEMA_VERSION
            &&& u.version is Some
            &&& u.recorded.finite()
            &&& u.recorded.len() > 0
            &&& u.device_profile == (s.device_profile && !(from < 4 && !s.recorded.contains(4)))
            &&& u.endpoint_name == (s.endpoint_name || (from < 5 && !s.recorded.contains(5)))
            &&& u.point_source_label == (s.point_source_label || (from < 7 && !s.recorded.contains(7)))
        }),
{
    lemma_decimals();
    lemma_first_steps(s);
    let first = first_steps(s);
    let t = all_stepped(s, first.0);
    lemma_later_steps(s, t, first.1, 7);
    let later = later_steps(s, first.1, 7);
    lemma_all_stepped(s, first.0, later.0);
    let steps = first.0 + later.0;
    if later.1 < SCHEMA_VERSION {
        assert(plan(s).drop_last() =~= steps);
        assert(plan(s).last() == (MigrationStep::SetVersion { version: SCHEMA_VERSION }));
    }
}

/// A database that was made here ends at the version of the schema.
pub proof fn migration_reaches_the_version(s: SchemaV)
    requires
        is_known(s),
    ensures
        named_version(all_stepped(s, plan(s))) == SCHEMA_VERSION,
{
    lemma_plan(s);
}

/// After the steps nothing is left to do.
pub proof fn migration_is_done_once(s: SchemaV)
    requires
        is_known(s),
    ensures
        plan(all_stepped(s, plan(s))) == Seq::<MigrationStep>::empty(),
{
    lemma_plan(s);
    let u = all_stepped(s, plan(s));
    assert(first_steps(u).0 =~= Seq::empty());
    assert(first_steps(u).1 == 7);
    lemma_nothing_later(u, 7);
    assert(plan(u) =~= Seq::empty());
}

proof fn lemma_nothing_later(s: SchemaV, n: int)
    requires
        n <= 7,
    ensures
        later_steps(s, 7, n) == (Seq::<MigrationStep>::empty(), 7int),
    decreases n,
{
    if n >= 2 {
        lemma_nothing_later(s, n - 1);
    }
}

/// Whether the columns of a database are those of the version that it names and of the migrations
/// that it has recorded.
pub open spec fn columns_fit(s: SchemaV) -> bool {
    &&& s.device_profile ==> s.version is Some && named_version(s) < 4 && !s.recorded.contains(4)
    &&& !s.endpoint_name ==> s.version is Some && named_version(s) < 5 && !s.recorded.contains(5)
    &&& !s.point_source_label ==> s.version is Some && named_version(s) < 7
        && !s.recorded.contains(7)
}

/// After the steps the columns are those of the schema: devices without profile, endpoints with a
/// name, points with a label.
pub proof fn migration_settles_the_columns(s: SchemaV)
    requires
        is_known(s),
        columns_fit(s),
    ensures
        !all_stepped(s, plan(s)).device_profile,
        all_stepped(s, plan(s)).endpoint_name,
        all_stepped(s, plan(s)).point_source_label,
{
    lemma_plan(s);
}

/// What is recorded and written down by each step of a migration.
pub proof fn steps_do_what_they_are_called(s: SchemaV, version: i64, run_sql: bool)
    requires
        version >= 0,
    ensures
        stepped(s, MigrationStep::RecordInitial).recorded == s.recorded.insert(1),
        stepped(s, MigrationStep::RecordInitial).version == s.version,
        s.version is Some ==> stepped(s, MigrationStep::NameVersion { version }).version
            == s.version,
        s.version is None ==> stepped(s, MigrationStep::NameVersion { version }).version == Some(
            decimal(version as nat),
        ),
        stepped(s, MigrationStep::NameVersion { version }).recorded == s.recorded,
        stepped(s, MigrationStep::SetVersion { version }).version == Some(decimal(version as nat)),
        stepped(s, MigrationStep::SetVersion { version }).recorded == s.recorded,
        ({
            let after = stepped(s, MigrationStep::Apply { version, run_sql });
            &&& after.version == Some(decimal(version as nat))
            &&& after.recorded == s.recorded.insert(version as int)
            &&& after.device_profile <==> s.device_profile && !(version == 4 && run_sql)
            &&& after.endpoint_name <==> s.endpoint_name || (version == 5 && run_sql)
            &&& after.point_source_label <==> s.point_source_label || (version == 7 && run_sql)
        }),
{
}

/// A migration changes the tables only where they are not yet as it wants them: the fourth where the
/// profile is still there, the fifth where the name of an endpoint is not, the seventh where the
/// label of a point is not, and any other always.
pub proof fn tables_are_changed_when_they_need_it(s: SchemaV, version: int)
    ensures
        needs_sql(s, 4) <==> s.device_profile,
        needs_sql(s, 5) <==> !s.endpoint_name,
        needs_sql(s, 7) <==> !s.point_source_label,
        version != 4 && version != 5 && version != 7 ==> needs_sql(s, version),
{
}

/// A migration is applied exactly where it is above the version that was reached and was not
/// recorded, in rising order.
pub proof fn migrations_are_applied_when_they_are_due(s: SchemaV, from: int, n: int)
    requires
        2 <= n <= 7,
    ensures
        later_steps(s, from, 1).0.len() == 0,
        later_steps(s, from, 1).1 == from,
        later_steps(s, from, n - 1).1 < n && !s.recorded.contains(n) ==> {
            &&& later_steps(s, from, n).1 == n
            &&& later_steps(s, from, n).0.len() == later_steps(s, from, n - 1).0.len() + 1
            &&& later_steps(s, from, n).0.last() == (MigrationStep::Apply {
                version: n as i64,
                run_sql: needs_sql(s, n),
            })
        },
        !(later_steps(s, from, n - 1).1 < n && !s.recorded.contains(n)) ==> later_steps(s, from, n)
            == later_steps(s, from, n - 1),
{
}

/// The version that is written down, and zero where none is or it is no number.
pub proof fn versions_are_numbers(s: SchemaV)
    ensures
        s.version is None ==> named_version(s) == 0,
        s.version matches Some(v) ==> (parsed_i64(v) is None ==> named_version(s) == 0) && (
        parsed_i64(v) matches Some(n) ==> named_version(s) == n),
{
}

/// How a migration begins: a store in which nothing is recorded is recorded, one without a version
/// is given one, and one with a version goes on from it.
pub proof fn migrations_begin_where_the_store_stands(s: SchemaV)
    ensures
        s.recorded.len() > 0 && named_version(s) >= 1 ==> first_steps(s).0.len() == 0
            && first_steps(s).1 == named_version(s),
        s.recorded.len() == 0 && s.version is None ==> first_steps(s).0.len() == 2
            && first_steps(s).0[0] is RecordInitial && first_steps(s).0[1] == (
        MigrationStep::NameVersion { version: 1 }) && first_steps(s).1 == 1,
        s.recorded.len() == 0 && s.version is Some && named_version(s) >= 1 ==> first_steps(
            s,
        ).0.len() == 1 && first_steps(s).0[0] is RecordInitial && first_steps(s).1
            == named_version(s),
        s.recorded.len() > 0 && named_version(s) < 1 ==> first_steps(s).0.len() == 1
            && first_steps(s).0[0] == (MigrationStep::NameVersion { version: 7 })
            && first_steps(s).1 == 7,
{
}

/// A plan ends with the version of the program where no step reached it.
pub proof fn plans_end_at_the_version(s: SchemaV)
    ensures
        ({
            let first = first_steps(s);
            let later = later_steps(s, first.1, 7);
            &&& later.1 < 7 ==> plan(s) == (first.0 + later.0).push(
                MigrationStep::SetVersion { version: 7 },
            )
            &&& later.1 >= 7 ==> plan(s) == first.0 + later.0
        }),
{
}

/// The version of the tables that this program keeps.
pub proof fn stores_are_of_this_version()
    ensures
        SCHEMA_VERSION == 7,
{
}

} // verus!
