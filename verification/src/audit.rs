//! The log of control operations.
use vstd::prelude::*;

use crate::schema::maybe_text;
use crate::text::{parse_i64, parsed_i64, same_text};

verus! {

/// One control operation: what was asked, by whom, and what came of it.
#[derive(Debug, Clone, PartialEq)]
pub struct ControlAuditRecord {
    pub request_id: String,
    pub endpoint_id: String,
    pub actor: String,
    pub operation_type: String,
    pub operation_id: String,
    pub request_json: String,
    pub result_json: Option<String>,
    pub status: String,
    pub started_at_ns: i64,
    pub finished_at_ns: Option<i64>,
}

/// What a [`ControlAuditRecord`] is.
pub struct AuditV {
    pub request_id: Seq<char>,
    pub endpoint_id: Seq<char>,
    pub actor: Seq<char>,
    pub operation_type: Seq<char>,
    pub operation_id: Seq<char>,
    pub request_json: Seq<char>,
    pub result_json: Option<Seq<char>>,
    pub status: Seq<char>,
    pub started_at_ns: i64,
    pub finished_at_ns: Option<i64>,
}

impl View for ControlAuditRecord {
    type V = AuditV;

    open spec fn view(&self) -> AuditV {
        AuditV {
            request_id: self.request_id@,
            endpoint_id: self.endpoint_id@,
            actor: self.actor@,
            operation_type: self.operation_type@,
            operation_id: self.operation_id@,
            request_json: self.request_json@,
            result_json: maybe_text(self.result_json),
            status: self.status@,
            started_at_ns: self.started_at_ns,
            finished_at_ns: self.finished_at_ns,
        }
    }
}

impl ControlAuditRecord {
    /// An equal record.
    pub fn copy(&self) -> (r: ControlAuditRecord)
        ensures
            r@ == self@,
    {
        ControlAuditRecord {
            request_id: self.request_id.clone(),
            endpoint_id: self.endpoint_id.clone(),
            actor: self.actor.clone(),
            operation_type: self.operation_type.clone(),
            operation_id: self.operation_id.clone(),
            request_json: self.request_json.clone(),
            result_json: match &self.result_json {
                Some(s) => Some(s.clone()),
                None => None,
            },
            status: self.status.clone(),
            started_at_ns: self.started_at_ns,
            finished_at_ns: self.finished_at_ns,
        }
    }
}

/// What some records are.
pub open spec fn audits_view(log: Seq<ControlAuditRecord>) -> Seq<AuditV> {
    log.map_values(|r: ControlAuditRecord| r@)
}

// ---------------------------------------------------------------------------
// Looking up
// ---------------------------------------------------------------------------

/// Whether a record has an id.
pub open spec fn is_request(r: AuditV, id: Seq<char>) -> bool {
    r.request_id == id
}

/// Whether the log has a record with an id.
pub open spec fn has_request(log: Seq<AuditV>, id: Seq<char>) -> bool {
    exists|i: int| 0 <= i < log.len() && is_request(#[trigger] log[i], id)
}

/// Where the record with an id stands, or the length of the log.
pub fn find_request(log: &Vec<ControlAuditRecord>, id: &str) -> (r: usize)
    ensures
        r <= log@.len(),
        forall|i: int| 0 <= i < r ==> !is_request(#[trigger] audits_view(log@)[i], id@),
        r < log@.len() ==> is_request(audits_view(log@)[r as int], id@),
        has_request(audits_view(log@), id@) == (r < log@.len()),
{
    let ghost all = audits_view(log@);
    let mut i: usize = 0;
    while i < log.len()
        invariant
            i <= log.len(),
            all == audits_view(log@),
            forall|j: int| 0 <= j < i ==> !is_request(#[trigger] all[j], id@),
        decreases log.len() - i,
    {
        if same_text(log[i].request_id.as_str(), id) {
            assert(is_request(all[i as int], id@));
            return i;
        }
        i = i + 1;
    }
    i
}

// ---------------------------------------------------------------------------
// Listing
// ---------------------------------------------------------------------------

/// Which records are asked for.
pub struct AuditFilterV {
    pub endpoint_id: Option<Seq<char>>,
    pub status: Option<Seq<char>>,
    pub from_ns: Option<i64>,
    pub to_ns: Option<i64>,
    pub cursor: Option<Seq<char>>,
}

/// Whether a record is asked for: of the endpoint, in the state, begun at the time or after it,
/// ended by the time or not at all, and begun before the cursor. A cursor that is no number
/// sets no bound.
pub open spec fn is_asked_for(r: AuditV, f: AuditFilterV) -> bool {
    &&& f.endpoint_id matches Some(e) ==> r.endpoint_id == e
    &&& f.status matches Some(s) ==> r.status == s
    &&& f.from_ns matches Some(t) ==> r.started_at_ns >= t
    &&& f.to_ns matches Some(t) ==> (r.finished_at_ns matches Some(x) ==> x <= t)
    &&& f.cursor matches Some(c) ==> (parsed_i64(c) matches Some(t) ==> r.started_at_ns < t)
}

/// Records from the latest to the earliest, with one more among them; behind those that began at
/// the same time.
pub open spec fn audit_put(list: Seq<AuditV>, r: AuditV) -> Seq<AuditV>
    decreases list.len(),
{
    if list.len() == 0 || list.last().started_at_ns >= r.started_at_ns {
        list.push(r)
    } else {
        audit_put(list.drop_last(), r).push(list.last())
    }
}

/// The records that are asked for, from the latest to the earliest.
pub open spec fn audits_found(log: Seq<AuditV>, f: AuditFilterV) -> Seq<AuditV>
    decreases log.len(),
{
    if log.len() == 0 {
        Seq::empty()
    } else if is_asked_for(log.last(), f) {
        audit_put(audits_found(log.drop_last(), f), log.last())
    } else {
        audits_found(log.drop_last(), f)
    }
}

/// The first of the records that are asked for.
pub open spec fn audits_page(log: Seq<AuditV>, f: AuditFilterV, limit: int) -> Seq<AuditV> {
    let found = audits_found(log, f);
    if found.len() <= limit {
        found
    } else {
        found.subrange(0, limit)
    }
}

/// A text that may be missing.
pub open spec fn maybe_str(s: Option<&str>) -> Option<Seq<char>> {
    match s {
        Some(x) => Some(x@),
        None => None,
    }
}

fn wants(wanted: Option<&str>, s: &str) -> (r: bool)
    ensures
        r == (maybe_str(wanted) matches Some(w) ==> s@ == w),
{
    match wanted {
        Some(w) => same_text(s, w),
        None => true,
    }
}

fn put_record(list: &mut Vec<ControlAuditRecord>, r: ControlAuditRecord)
    ensures
        audits_view(final(list)@) == audit_put(audits_view(old(list)@), r@),
{
    let ghost all = audits_view(list@);
    let ghost one = r@;
    let n: usize = list.len();
    let mut i: usize = n;
    assert(all.subrange(0, n as int) =~= all);
    assert(audit_put(all, one) + all.subrange(n as int, n as int) =~= audit_put(all, one));
    while i > 0 && list[i - 1].started_at_ns < r.started_at_ns
        invariant
            i <= n,
            n == list.len(),
            list@ == old(list)@,
            all == audits_view(list@),
            one == r@,
            audit_put(all, one) == audit_put(all.subrange(0, i as int), one) + all.subrange(
                i as int,
                n as int,
            ),
        decreases i,
    {
        let ghost front = all.subrange(0, i as int);
        assert(front.last() == all[i - 1]);
        assert(front.drop_last() =~= all.subrange(0, i - 1));
        assert(audit_put(front.drop_last(), one).push(front.last()) + all.subrange(
            i as int,
            n as int,
        ) =~= audit_put(front.drop_last(), one) + all.subrange(i - 1, n as int));
        i = i - 1;
    }
    proof {
        let front = all.subrange(0, i as int);
        if i > 0 {
            assert(front.last() == all[i - 1]);
        }
        assert(audit_put(front, one) == front.push(one));
    }
    list.insert(i, r);
    assert(audits_view(list@) =~= all.subrange(0, i as int).push(one) + all.subrange(
        i as int,
        n as int,
    ));
}

/// The first of the records that are asked for, from the latest to the earliest.
pub fn list_audits(
    log: &Vec<ControlAuditRecord>,
    endpoint_id: Option<&str>,
    status: Option<&str>,
    from_ns: Option<i64>,
    to_ns: Option<i64>,
    limit: u32,
    cursor: Option<&str>,
) -> (r: Vec<ControlAuditRecord>)
    ensures
        audits_view(r@) == audits_page(
            audits_view(log@),
            (AuditFilterV {
                endpoint_id: maybe_str(endpoint_id),
                status: maybe_str(status),
                from_ns,
                to_ns,
                cursor: maybe_str(cursor),
            }),
            limit as int,
        ),
{
    let ghost f = AuditFilterV {
        endpoint_id: maybe_str(endpoint_id),
        status: maybe_str(status),
        from_ns,
        to_ns,
        cursor: maybe_str(cursor),
    };
    let ghost all = audits_view(log@);
    let before: Option<i64> = match cursor {
        Some(c) => parse_i64(c),
        None => None,
    };
    let mut found: Vec<ControlAuditRecord> = Vec::new();
    assert(audits_view(found@) =~= Seq::<AuditV>::empty());
    let mut i: usize = 0;
    while i < log.len()
        invariant
            i <= log.len(),
            all == audits_view(log@),
            f == (AuditFilterV {
                endpoint_id: maybe_str(endpoint_id),
                status: maybe_str(status),
                from_ns,
                to_ns,
                cursor: maybe_str(cursor),
            }),
            match before {
                Some(t) => cursor is Some && parsed_i64(cursor->0@) == Some(t as int),
                None => cursor is None || parsed_i64(cursor->0@) is None,
            },
            audits_view(found@) == audits_found(all.subrange(0, i as int), f),
        decreases log.len() - i,
    {
        let ghost part = all.subrange(0, i + 1);
        proof {
            assert(part.drop_last() =~= all.subrange(0, i as int));
            assert(part.last() == log@[i as int]@);
        }
        let r: &ControlAuditRecord = &log[i];
        let late_enough: bool = match from_ns {
            Some(t) => r.started_at_ns >= t,
            None => true,
        };
        let ended: bool = match (to_ns, r.finished_at_ns) {
            (Some(t), Some(x)) => x <= t,
            _ => true,
        };
        let early_enough: bool = match before {
            Some(t) => r.started_at_ns < t,
            None => true,
        };
        if wants(endpoint_id, r.endpoint_id.as_str()) && wants(status, r.status.as_str())
            && late_enough && ended && early_enough {
            assert(is_asked_for(part.last(), f));
            put_record(&mut found, r.copy());
        } else {
            assert(!is_asked_for(part.last(), f));
        }
        i = i + 1;
    }
    assert(all.subrange(0, all.len() as int) =~= all);
    let ghost whole = audits_view(found@);
    if found.len() > limit as usize {
        found.truncate(limit as usize);
        assert(audits_view(found@) =~= whole.subrange(0, limit as int));
    }
    found
}

// ---------------------------------------------------------------------------
// What holds of a page
// ---------------------------------------------------------------------------

proof fn lemma_put(list: Seq<AuditV>, r: AuditV)
    requires
        forall|i: int, j: int|
            0 <= i < j < list.len() ==> (#[trigger] list[i]).started_at_ns >= (
            #[trigger] list[j]).started_at_ns,
    ensures
        forall|i: int, j: int|
            0 <= i < j < audit_put(list, r).len() ==> (#[trigger] audit_put(
                list,
                r,
            )[i]).started_at_ns >= (#[trigger] audit_put(list, r)[j]).started_at_ns,
        forall|i: int|
            0 <= i < audit_put(list, r).len() ==> #[trigger] audit_put(list, r)[i] == r
                || list.contains(audit_put(list, r)[i]),
    decreases list.len(),
{
    let after = audit_put(list, r);
    if list.len() == 0 || list.last().started_at_ns >= r.started_at_ns {
        assert forall|i: int, j: int| 0 <= i < j < after.len() implies (
        #[trigger] after[i]).started_at_ns >= (#[trigger] after[j]).started_at_ns by {
            if j == list.len() {
                assert(list[i].started_at_ns >= list[list.len() - 1].started_at_ns);
            } else {
                assert(list[i].started_at_ns >= list[j].started_at_ns);
            }
        }
        assert forall|i: int| 0 <= i < after.len() implies #[trigger] after[i] == r
            || list.contains(after[i]) by {
            if i < list.len() {
                assert(list[i] == after[i]);
            }
        }
    } else {
        let front = list.drop_last();
        let last = list.last();
        assert forall|i: int, j: int| 0 <= i < j < front.len() implies (
        #[trigger] front[i]).started_at_ns >= (#[trigger] front[j]).started_at_ns by {
            assert(list[i].started_at_ns >= list[j].started_at_ns);
        }
        lemma_put(front, r);
        let f = audit_put(front, r);
        assert(after == f.push(last));
        assert forall|i: int| 0 <= i < after.len() implies #[trigger] after[i] == r
            || list.contains(after[i]) by {
            if i < f.len() {
                assert(after[i] == f[i]);
                if f[i] != r {
                    let k = choose|k: int| 0 <= k < front.len() && front[k] == f[i];
                    assert(list[k] == after[i]);
                }
            } else {
                assert(list[list.len() - 1] == after[i]);
            }
        }
        assert forall|i: int, j: int| 0 <= i < j < after.len() implies (
        #[trigger] after[i]).started_at_ns >= (#[trigger] after[j]).started_at_ns by {
            assert(after[i] == f[i]);
            if j < f.len() {
                assert(after[j] == f[j]);
            } else if f[i] != r {
                assert(front.contains(f[i]));
                let k = choose|k: int| 0 <= k < front.len() && front[k] == f[i];
                assert(list[k].started_at_ns >= list[list.len() - 1].started_at_ns);
            }
        }
    }
}

proof fn lemma_found(log: Seq<AuditV>, f: AuditFilterV)
    ensures
        forall|i: int, j: int|
            0 <= i < j < audits_found(log, f).len() ==> (#[trigger] audits_found(
                log,
                f,
            )[i]).started_at_ns >= (#[trigger] audits_found(log, f)[j]).started_at_ns,
        forall|i: int|
            0 <= i < audits_found(log, f).len() ==> is_asked_for(
                #[trigger] audits_found(log, f)[i],
                f,
            ),
    decreases log.len(),
{
    if log.len() > 0 {
        lemma_found(log.drop_last(), f);
        let before = audits_found(log.drop_last(), f);
        if is_asked_for(log.last(), f) {
            lemma_put(before, log.last());
            let after = audits_found(log, f);
            assert(after == audit_put(before, log.last()));
            assert forall|i: int| 0 <= i < after.len() implies is_asked_for(
                #[trigger] after[i],
                f,
            ) by {
                if after[i] != log.last() {
                    assert(before.contains(after[i]));
                    let k = choose|k: int| 0 <= k < before.len() && before[k] == after[i];
                    assert(is_asked_for(before[k], f));
                }
            }
        }
    }
}

/// A page goes from the latest to the earliest, holds only what is asked for, and holds no more
/// than the limit.
pub proof fn page_is_as_asked(log: Seq<AuditV>, f: AuditFilterV, limit: int)
    requires
        limit >= 0,
    ensures
        audits_page(log, f, limit).len() <= limit,
        forall|i: int, j: int|
            0 <= i < j < audits_page(log, f, limit).len() ==> (#[trigger] audits_page(
                log,
                f,
                limit,
            )[i]).started_at_ns >= (#[trigger] audits_page(log, f, limit)[j]).started_at_ns,
        forall|i: int|
            0 <= i < audits_page(log, f, limit).len() ==> is_asked_for(
                #[trigger] audits_page(log, f, limit)[i],
                f,
            ),
{
    lemma_found(log, f);
    let found = audits_found(log, f);
    let page = audits_page(log, f, limit);
    assert forall|i: int, j: int| 0 <= i < j < page.len() implies (
    #[trigger] page[i]).started_at_ns >= (#[trigger] page[j]).started_at_ns by {
        assert(page[i] == found[i] && page[j] == found[j]);
    }
    assert forall|i: int| 0 <= i < page.len() implies is_asked_for(#[trigger] page[i], f) by {
        assert(page[i] == found[i]);
    }
}

/// A record is asked for exactly where it is of the endpoint and in the state that are named, began
/// at or after the first time, did not end after the second, and began before the cursor.
pub proof fn records_are_asked_for_by_what_they_say(r: AuditV, f: AuditFilterV)
    ensures
        is_asked_for(r, f) <==> ((f.endpoint_id is None || f.endpoint_id == Some(r.endpoint_id)) && (
        f.status is None || f.status == Some(r.status)) && (f.from_ns is None || r.started_at_ns
            >= f.from_ns->0) && (f.to_ns is None || r.finished_at_ns is None
            || r.finished_at_ns->0 <= f.to_ns->0) && (f.cursor is None || parsed_i64(f.cursor->0)
            is None || r.started_at_ns < parsed_i64(f.cursor->0)->0)),
{
}

proof fn lemma_put_holds(list: Seq<AuditV>, r: AuditV, x: AuditV)
    ensures
        audit_put(list, r).len() == list.len() + 1,
        audit_put(list, r).contains(x) <==> list.contains(x) || x == r,
    decreases list.len(),
{
    let after = audit_put(list, r);
    if list.len() == 0 || list.last().started_at_ns >= r.started_at_ns {
        if list.contains(x) {
            let i = choose|i: int| 0 <= i < list.len() && list[i] == x;
            assert(after[i] == x);
        }
        if x == r {
            assert(after[list.len() as int] == x);
        }
        if after.contains(x) {
            let i = choose|i: int| 0 <= i < after.len() && after[i] == x;
            if i < list.len() {
                assert(list[i] == x);
            }
        }
    } else {
        let front = list.drop_last();
        lemma_put_holds(front, r, x);
        let mid = audit_put(front, r);
        assert(list =~= front.push(list.last()));
        if list.contains(x) {
            let i = choose|i: int| 0 <= i < list.len() && list[i] == x;
            if i < front.len() {
                assert(front[i] == x);
            } else {
                assert(after[mid.len() as int] == x);
            }
        }
        if mid.contains(x) {
            let i = choose|i: int| 0 <= i < mid.len() && mid[i] == x;
            assert(after[i] == x);
        }
        if front.contains(x) {
            let i = choose|i: int| 0 <= i < front.len() && front[i] == x;
            assert(list[i] == x);
        }
        if after.contains(x) {
            let i = choose|i: int| 0 <= i < after.len() && after[i] == x;
            if i < mid.len() {
                assert(mid[i] == x);
            } else {
                assert(list[list.len() - 1] == x);
            }
        }
    }
}

/// The records that are found are all those that are asked for, and none else.
pub proof fn all_records_that_are_asked_for_are_found(
    log: Seq<AuditV>,
    f: AuditFilterV,
    x: AuditV,
)
    ensures
        audits_found(log, f).contains(x) <==> log.contains(x) && is_asked_for(x, f),
    decreases log.len(),
{
    if log.len() > 0 {
        let front = log.drop_last();
        all_records_that_are_asked_for_are_found(front, f, x);
        lemma_put_holds(audits_found(front, f), log.last(), x);
        if front.contains(x) {
            let i = choose|i: int| 0 <= i < front.len() && front[i] == x;
            assert(log[i] == x);
        }
        if log.contains(x) {
            let i = choose|i: int| 0 <= i < log.len() && log[i] == x;
            if i < front.len() {
                assert(front[i] == x);
            }
        }
        if log.last() == x {
            assert(log[log.len() - 1] == x);
        }
    }
}

/// Each record that is asked for is found once: as many are found as are asked for.
pub proof fn each_record_is_found_once(log: Seq<AuditV>, f: AuditFilterV, r: AuditV)
    ensures
        audits_found(Seq::empty(), f).len() == 0,
        is_asked_for(r, f) ==> audits_found(log.push(r), f).len() == audits_found(log, f).len() + 1,
        !is_asked_for(r, f) ==> audits_found(log.push(r), f) == audits_found(log, f),
{
    assert(log.push(r).drop_last() =~= log);
    lemma_put_holds(audits_found(log, f), r, r);
}

/// A page holds the first of the records that are found: all of them, or as many as the limit says.
pub proof fn pages_hold_the_latest_records(log: Seq<AuditV>, f: AuditFilterV, limit: int, i: int)
    requires
        limit >= 0,
    ensures
        audits_page(log, f, limit).len() == (if audits_found(log, f).len() <= limit {
            audits_found(log, f).len() as int
        } else {
            limit
        }),
        0 <= i < audits_page(log, f, limit).len() ==> audits_page(log, f, limit)[i] == audits_found(
            log,
            f,
        )[i],
{
}

/// A request is known exactly where the log has a record with its id.
pub proof fn requests_are_known_by_their_id(log: Seq<AuditV>, id: Seq<char>, r: AuditV)
    ensures
        has_request(log, id) <==> exists|i: int|
            0 <= i < log.len() && (#[trigger] log[i]).request_id == id,
        is_request(r, id) <==> r.request_id == id,
{
    if exists|i: int| 0 <= i < log.len() && (#[trigger] log[i]).request_id == id {
        let i = choose|i: int| 0 <= i < log.len() && (#[trigger] log[i]).request_id == id;
        assert(is_request(log[i], id));
    }
}

} // verus!
