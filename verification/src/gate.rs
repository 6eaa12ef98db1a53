//! What tasks select, held against what their driver offers.
use vstd::prelude::*;

use crate::api::{error_reply, validity, validity_reply, ApiResponse, ReplyV};
use crate::descriptor::DriverDescriptor;
use crate::endpoints::{undescribed, undescribed_reply};
use crate::manager::DescriptorError;
use crate::protocol::tasks_view;
use crate::resource::{
    task_set_issues, validate_task_set_against, GenericBinding, TaskSelections,
    GENERIC_BINDING_KIND,
};
use crate::schema::{issue, issues_view, IssueV, ValidationIssue};
use crate::text::{cat4, decimal, decimal_text, same_text};
use crate::types::{AcquisitionTask, TaskV};

verus! {

/// Whether a task selects resources of its driver.
pub open spec fn generic(t: TaskV) -> bool {
    t.kind == GENERIC_BINDING_KIND@
}

/// The places of the tasks that select resources, among the first `n`.
pub open spec fn generic_places(ts: Seq<TaskV>, n: int) -> Seq<int>
    decreases n,
{
    if n <= 0 {
        Seq::empty()
    } else if generic(ts[n - 1]) {
        generic_places(ts, n - 1).push(n - 1)
    } else {
        generic_places(ts, n - 1)
    }
}

/// The path to a part of a task, in a list of tasks that stands under `root`.
pub open spec fn task_path(root: Seq<char>, i: int, part: Seq<char>) -> Seq<char> {
    root + "["@ + decimal(i as nat) + part
}

/// The tasks among the first `n` that should select resources and cannot be read.
pub open spec fn unread_issues(
    root: Seq<char>,
    ts: Seq<TaskV>,
    bindings: Seq<Result<GenericBinding, String>>,
    n: int,
) -> Seq<IssueV>
    decreases n,
{
    if n <= 0 {
        Seq::empty()
    } else {
        let before = unread_issues(root, ts, bindings, n - 1);
        match bindings[n - 1] {
            Err(m) if generic(ts[n - 1]) => before.push(
                IssueV {
                    path: task_path(root, n - 1, "].binding"@),
                    code: "INVALID_BINDING_CONFIG"@,
                    message: m@,
                },
            ),
            _ => before,
        }
    }
}

/// Whether some selections are those of the tasks that select resources, in order.
pub open spec fn selections_of(
    inputs: Seq<TaskSelections>,
    root: Seq<char>,
    ts: Seq<TaskV>,
    bindings: Seq<Result<GenericBinding, String>>,
) -> bool {
    let places = generic_places(ts, ts.len() as int);
    &&& inputs.len() == places.len()
    &&& forall|k: int|
        0 <= k < inputs.len() ==> {
            &&& (#[trigger] inputs[k]).0 == ts[places[k]].mode
            &&& bindings[places[k]] is Ok
            &&& inputs[k].1@ == bindings[places[k]]->Ok_0.selections@
            &&& inputs[k].2@ == task_path(root, places[k], "].selections"@)
        }
}

/// What is wrong with some tasks. Those that cannot be read are named alone; where all
/// can be, what they select is looked into together.
pub open spec fn acquisition_issues(
    d: DriverDescriptor,
    root: Seq<char>,
    ts: Seq<TaskV>,
    bindings: Seq<Result<GenericBinding, String>>,
) -> Seq<IssueV> {
    let unread = unread_issues(root, ts, bindings, ts.len() as int);
    if unread.len() > 0 {
        unread
    } else {
        task_set_issues(d, choose|inputs: Seq<TaskSelections>| selections_of(inputs, root, ts, bindings))
    }
}

proof fn lemma_same_selections(d: DriverDescriptor, a: Seq<TaskSelections>, b: Seq<TaskSelections>)
    requires
        a.len() == b.len(),
        forall|k: int|
            #![trigger a[k]]
            #![trigger b[k]]
            0 <= k < a.len() ==> a[k].0 == b[k].0 && a[k].1@ == b[k].1@ && a[k].2@ == b[k].2@,
    ensures
        task_set_issues(d, a) == task_set_issues(d, b),
        crate::resource::tasks_seen(d, a) == crate::resource::tasks_seen(d, b),
    decreases a.len(),
{
    if a.len() > 0 {
        let x = a.drop_last();
        let y = b.drop_last();
        assert forall|k: int|
            #![trigger x[k]]
            #![trigger y[k]]
            0 <= k < x.len() implies x[k].0 == y[k].0 && x[k].1@ == y[k].1@ && x[k].2@
            == y[k].2@ by {
            assert(x[k] == a[k] && y[k] == b[k]);
        }
        lemma_same_selections(d, x, y);
        let p = a.last();
        let q = b.last();
        assert(p == a[a.len() - 1] && q == b[a.len() - 1]);
        assert(p.1@ == q.1@ && p.2@ == q.2@);
    }
}

proof fn lemma_generic_places(ts: Seq<TaskV>, n: int, k: int)
    requires
        n <= ts.len(),
        0 <= k < generic_places(ts, n).len(),
    ensures
        0 <= generic_places(ts, n)[k] < n,
        generic(ts[generic_places(ts, n)[k]]),
    decreases n,
{
    if n > 0 {
        if k < generic_places(ts, n - 1).len() {
            lemma_generic_places(ts, n - 1, k);
        }
    }
}

proof fn lemma_unread(
    root: Seq<char>,
    ts: Seq<TaskV>,
    bindings: Seq<Result<GenericBinding, String>>,
    n: int,
    i: int,
)
    requires
        0 <= i < n <= ts.len(),
        generic(ts[i]),
        bindings[i] is Err,
    ensures
        unread_issues(root, ts, bindings, n).len() > 0,
    decreases n,
{
    if i < n - 1 {
        lemma_unread(root, ts, bindings, n - 1, i);
    }
}

/// What is wrong with some tasks that stand under `root`. `bindings` says of each task what it selects, or why
/// that cannot be read; it counts only of tasks that select resources.
pub fn check_acquisition(
    descriptor: &DriverDescriptor,
    root: &str,
    tasks: &[AcquisitionTask],
    bindings: &[Result<GenericBinding, String>],
) -> (r: Vec<ValidationIssue>)
    requires
        bindings@.len() == tasks@.len(),
    ensures
        issues_view(r@) == acquisition_issues(*descriptor, root@, tasks_view(tasks@), bindings@),
{
    let ghost ts = tasks_view(tasks@);
    let mut issues: Vec<ValidationIssue> = Vec::new();
    let mut places: Vec<usize> = Vec::new();
    let mut roots: Vec<String> = Vec::new();
    assert(issues_view(issues@) =~= Seq::<IssueV>::empty());
    let mut i: usize = 0;
    while i < tasks.len()
        invariant
            i <= tasks.len(),
            bindings@.len() == tasks@.len(),
            ts == tasks_view(tasks@),
            issues_view(issues@) == unread_issues(root@, ts, bindings@, i as int),
            places@.len() == generic_places(ts, i as int).len(),
            roots@.len() == places@.len(),
            forall|k: int|
                0 <= k < places@.len() ==> (#[trigger] places@[k]) as int == generic_places(
                    ts,
                    i as int,
                )[k],
            forall|k: int|
                0 <= k < places@.len() ==> (#[trigger] roots@[k])@ == task_path(
                    root@,
                    places@[k] as int,
                    "].selections"@,
                ),
        decreases tasks.len() - i,
    {
        assert(ts[i as int] == tasks@[i as int]@);
        let ghost before = issues@;
        if same_text(tasks[i].binding.kind.as_str(), GENERIC_BINDING_KIND) {
            let number: String = decimal_text(i as u64);
            places.push(i);
            roots.push(cat4(root, "[", number.as_str(), "].selections"));
            match &bindings[i] {
                Ok(_) => {},
                Err(m) => {
                    let path: String = cat4(root, "[", number.as_str(), "].binding");
                    issues.push(issue(path.as_str(), "INVALID_BINDING_CONFIG", m.clone()));
                    assert(issues_view(issues@) =~= issues_view(before).push(
                        issues@.last()@,
                    ));
                },
            }
        }
        i = i + 1;
    }
    if issues.len() > 0 {
        return issues;
    }
    let mut inputs: Vec<TaskSelections> = Vec::new();
    let mut k: usize = 0;
    let ghost all = generic_places(ts, ts.len() as int);
    assert(unread_issues(root@, ts, bindings@, ts.len() as int).len() == 0);
    while k < places.len()
        invariant
            k <= places.len(),
            bindings@.len() == tasks@.len(),
            ts == tasks_view(tasks@),
            all == generic_places(ts, ts.len() as int),
            places@.len() == all.len(),
            roots@.len() == places@.len(),
            unread_issues(root@, ts, bindings@, ts.len() as int).len() == 0,
            forall|j: int| 0 <= j < places@.len() ==> (#[trigger] places@[j]) as int == all[j],
            forall|j: int|
                0 <= j < places@.len() ==> (#[trigger] roots@[j])@ == task_path(
                    root@,
                    places@[j] as int,
                    "].selections"@,
                ),
            inputs@.len() == k,
            forall|j: int|
                0 <= j < k ==> {
                    &&& (#[trigger] inputs@[j]).0 == ts[all[j]].mode
                    &&& bindings@[all[j]] is Ok
                    &&& inputs@[j].1@ == bindings@[all[j]]->Ok_0.selections@
                    &&& inputs@[j].2@ == task_path(root@, all[j], "].selections"@)
                },
        decreases places.len() - k,
    {
        let p: usize = places[k];
        proof {
            assert(places@[k as int] as int == all[k as int]);
            lemma_generic_places(ts, ts.len() as int, k as int);
            if bindings@[p as int] is Err {
                lemma_unread(root@, ts, bindings@, ts.len() as int, p as int);
            }
            assert(ts[p as int] == tasks@[p as int]@);
        }
        match &bindings[p] {
            Ok(b) => {
                let one: TaskSelections = (
                    tasks[p].mode,
                    b.selections.as_slice(),
                    roots[k].as_str(),
                );
                inputs.push(one);
            },
            Err(_) => {},
        }
        k = k + 1;
    }
    let r: Vec<ValidationIssue> = validate_task_set_against(descriptor, inputs.as_slice());
    proof {
        assert(selections_of(inputs@, root@, ts, bindings@));
        let other = choose|x: Seq<TaskSelections>| selections_of(x, root@, ts, bindings@);
        assert forall|k: int|
            #![trigger inputs@[k]]
            #![trigger other[k]]
            0 <= k < inputs@.len() implies inputs@[k].0 == other[k].0 && inputs@[k].1@
            == other[k].1@ && inputs@[k].2@ == other[k].2@ by {}
        lemma_same_selections(*descriptor, inputs@, other);
    }
    r
}

/// Whether any task selects resources of its driver.
pub fn any_generic(tasks: &[AcquisitionTask]) -> (r: bool)
    ensures
        r == (generic_places(tasks_view(tasks@), tasks@.len() as int).len() > 0),
{
    let ghost ts = tasks_view(tasks@);
    let mut r: bool = false;
    let mut i: usize = 0;
    while i < tasks.len()
        invariant
            i <= tasks.len(),
            ts == tasks_view(tasks@),
            r == (generic_places(ts, i as int).len() > 0),
        decreases tasks.len() - i,
    {
        assert(ts[i as int] == tasks@[i as int]@);
        if same_text(tasks[i].binding.kind.as_str(), GENERIC_BINDING_KIND) {
            r = true;
        }
        i = i + 1;
    }
    r
}

/// Why some tasks can neither be kept nor run: what they select is not what their driver offers, or
/// the driver does not tell what it offers. Tasks that select no resources pass.
pub open spec fn gate(
    descriptor: Result<DriverDescriptor, DescriptorError>,
    ts: Seq<TaskV>,
    bindings: Seq<Result<GenericBinding, String>>,
) -> Option<ReplyV> {
    if generic_places(ts, ts.len() as int).len() == 0 {
        None
    } else {
        match descriptor {
            Err(e) => Some(undescribed_reply(e@)),
            Ok(d) => {
                let issues = acquisition_issues(d, "tasks"@, ts, bindings);
                if issues.len() > 0 {
                    Some(validity_reply(issues))
                } else {
                    None
                }
            },
        }
    }
}

/// Holds tasks against what their driver offers.
pub fn gate_data_tasks(
    descriptor: &Result<DriverDescriptor, DescriptorError>,
    tasks: &[AcquisitionTask],
    bindings: &[Result<GenericBinding, String>],
) -> (r: Option<ApiResponse>)
    requires
        bindings@.len() == tasks@.len(),
    ensures
        match r {
            Some(e) => gate(*descriptor, tasks_view(tasks@), bindings@) == Some(e@),
            None => gate(*descriptor, tasks_view(tasks@), bindings@) is None,
        },
{
    assert(tasks_view(tasks@).len() == tasks@.len());
    if !any_generic(tasks) {
        return None;
    }
    match descriptor {
        Err(e) => Some(undescribed(e)),
        Ok(d) => {
            let issues: Vec<ValidationIssue> = check_acquisition(d, "tasks", tasks, bindings);
            if issues.len() > 0 {
                Some(validity(&issues))
            } else {
                None
            }
        },
    }
}

/// What does not pass is answered with an error.
pub proof fn the_gate_answers_with_an_error(
    descriptor: Result<DriverDescriptor, DescriptorError>,
    ts: Seq<TaskV>,
    bindings: Seq<Result<GenericBinding, String>>,
)
    ensures
        gate(descriptor, ts, bindings) matches Some(r) ==> r.status == 400 || r.status == 503,
{
}

/// The tasks that are looked at are those that say nothing of their own driver.
pub proof fn generic_tasks_are_looked_at(ts: Seq<TaskV>, n: int, k: int)
    requires
        0 <= n <= ts.len(),
    ensures
        generic_places(ts, n).contains(k) <==> 0 <= k < n && ts[k].kind == "mesa.resources.v1"@,
    decreases n,
{
    if n > 0 {
        generic_tasks_are_looked_at(ts, n - 1, k);
        let a = generic_places(ts, n - 1);
        let b = generic_places(ts, n);
        if a.contains(k) {
            let i = choose|i: int| 0 <= i < a.len() && a[i] == k;
            assert(b[i] == k);
        }
        if b.contains(k) {
            let i = choose|i: int| 0 <= i < b.len() && b[i] == k;
            if i < a.len() {
                assert(a[i] == k);
            }
        }
        if k == n - 1 && generic(ts[n - 1]) {
            assert(b[a.len() as int] == k);
        }
    }
}

/// A binding that cannot be read is complained of, where its task is looked at, and no other.
pub proof fn bindings_that_cannot_be_read_are_complained_of(
    root: Seq<char>,
    ts: Seq<TaskV>,
    bindings: Seq<Result<GenericBinding, String>>,
    n: int,
)
    requires
        0 <= n <= ts.len(),
        bindings.len() == ts.len(),
    ensures
        unread_issues(root, ts, bindings, n).len() == 0 <==> forall|k: int|
            0 <= k < n && (#[trigger] ts[k]).kind == "mesa.resources.v1"@ ==> bindings[k] is Ok,
        forall|i: int|
            0 <= i < unread_issues(root, ts, bindings, n).len() ==> (#[trigger] unread_issues(
                root,
                ts,
                bindings,
                n,
            )[i]).code == "INVALID_BINDING_CONFIG"@,
    decreases n,
{
    if n > 0 {
        bindings_that_cannot_be_read_are_complained_of(root, ts, bindings, n - 1);
    }
}

/// Tasks that say nothing of their own driver are let through exactly where the driver describes
/// itself and nothing is wrong with them; where there are none, nothing is asked of the driver.
pub proof fn the_gate_is_open_when_nothing_is_wrong(
    descriptor: Result<DriverDescriptor, DescriptorError>,
    ts: Seq<TaskV>,
    bindings: Seq<Result<GenericBinding, String>>,
)
    ensures
        (forall|k: int| 0 <= k < ts.len() ==> (#[trigger] ts[k]).kind != "mesa.resources.v1"@) ==> gate(
            descriptor,
            ts,
            bindings,
        ) is None,
        (exists|k: int| 0 <= k < ts.len() && (#[trigger] ts[k]).kind == "mesa.resources.v1"@) ==> match descriptor {
            Err(e) => gate(descriptor, ts, bindings) == Some(
                error_reply(503, e@.code, e@.message),
            ),
            Ok(d) => {
                let issues = acquisition_issues(d, "tasks"@, ts, bindings);
                &&& gate(descriptor, ts, bindings) is None <==> issues.len() == 0
                &&& issues.len() > 0 ==> gate(descriptor, ts, bindings) == Some(
                    validity_reply(issues),
                )
            },
        },
{
    let places = generic_places(ts, ts.len() as int);
    if places.len() > 0 {
        assert(places.contains(places[0]));
        generic_tasks_are_looked_at(ts, ts.len() as int, places[0]);
    }
    if exists|k: int| 0 <= k < ts.len() && (#[trigger] ts[k]).kind == "mesa.resources.v1"@ {
        let k = choose|k: int| 0 <= k < ts.len() && (#[trigger] ts[k]).kind == "mesa.resources.v1"@;
        generic_tasks_are_looked_at(ts, ts.len() as int, k);
    }
}

/// The tasks that are looked at are handed on as they are: each with its own mode, the selections of
/// its own binding, and the place it stands at.
pub proof fn tasks_are_looked_at_as_they_are(
    d: DriverDescriptor,
    root: Seq<char>,
    ts: Seq<TaskV>,
    bindings: Seq<Result<GenericBinding, String>>,
)
    requires
        unread_issues(root, ts, bindings, ts.len() as int).len() == 0,
        exists|inputs: Seq<TaskSelections>| selections_of(inputs, root, ts, bindings),
    ensures
        exists|inputs: Seq<TaskSelections>| #[trigger]
            task_set_issues(d, inputs) == acquisition_issues(d, root, ts, bindings) && inputs.len()
                == generic_places(ts, ts.len() as int).len() && forall|k: int|
                0 <= k < inputs.len() ==> (#[trigger] inputs[k]).0 == ts[generic_places(
                    ts,
                    ts.len() as int,
                )[k]].mode && inputs[k].1@ == bindings[generic_places(
                    ts,
                    ts.len() as int,
                )[k]]->Ok_0.selections@ && inputs[k].2@ == root + "["@ + decimal(
                    generic_places(ts, ts.len() as int)[k] as nat,
                ) + "].selections"@,
{
    let inputs = choose|inputs: Seq<TaskSelections>| selections_of(inputs, root, ts, bindings);
    assert(task_set_issues(d, inputs) == acquisition_issues(d, root, ts, bindings));
}

} // verus!
