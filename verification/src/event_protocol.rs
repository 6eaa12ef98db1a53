//! Events as messages: what is sent, and what of that which comes is accepted.
use vstd::prelude::*;

use crate::event::{
    attributes_view, record_fault, record_fault_text, transition_name, ConditionTransition,
    ConditionV, EventBatch, EventCondition, EventRecord, RecordV, EVENT_BATCH_MAX_BYTES,
};
use crate::pb::{
    AttributeMsgV, ConditionMsgV, EventAttributeMsg, EventBatchMsg, EventBatchMsgV,
    EventConditionMsg, EventRecordMsg, RecordMsgV,
};
use crate::protocol::{required_value, shown, value_from_pb, value_to_pb, ConvertError, ConvertFault};
use crate::schema::maybe_text;
use crate::table::ascending;
use crate::text::{cat2, cat3, comes_before, decimal, decimal_text, repeats, same_text, text_before};
use crate::types::{TimestampNs, TypedValue, ValueV};
use crate::wire::{batch_length, capped};

verus! {

// ---------------------------------------------------------------------------
// Conditions
// ---------------------------------------------------------------------------

/// A condition as a message.
pub open spec fn condition_encoded(c: ConditionV) -> ConditionMsgV {
    ConditionMsgV {
        condition_id: c.condition_id,
        transition: transition_name(c.transition),
        active: c.active,
        acknowledged: c.acknowledged,
        confirmed: c.confirmed,
        retain: c.retain,
    }
}

/// The transition that a text names.
pub open spec fn transition_decoded(s: Seq<char>) -> Result<ConditionTransition, ConvertFault> {
    if s == "raised"@ {
        Ok(ConditionTransition::Raised)
    } else if s == "updated"@ {
        Ok(ConditionTransition::Updated)
    } else if s == "acknowledged"@ {
        Ok(ConditionTransition::Acknowledged)
    } else if s == "confirmed"@ {
        Ok(ConditionTransition::Confirmed)
    } else if s == "cleared"@ {
        Ok(ConditionTransition::Cleared)
    } else {
        Err(ConvertFault::InvalidEventRecord("transition 非法: "@ + s))
    }
}

/// The condition that a message holds.
pub open spec fn condition_decoded(m: Option<ConditionMsgV>) -> Result<
    Option<ConditionV>,
    ConvertFault,
> {
    match m {
        None => Ok(None),
        Some(c) => match transition_decoded(c.transition) {
            Err(e) => Err(e),
            Ok(transition) => Ok(
                Some(
                    ConditionV {
                        condition_id: c.condition_id,
                        transition,
                        active: c.active,
                        acknowledged: c.acknowledged,
                        confirmed: c.confirmed,
                        retain: c.retain,
                    },
                ),
            ),
        },
    }
}

fn transition_from_str(s: &str) -> (r: Result<ConditionTransition, ConvertError>)
    ensures
        match r {
            Ok(t) => transition_decoded(s@) == Ok::<ConditionTransition, ConvertFault>(t),
            Err(e) => transition_decoded(s@) == Err::<ConditionTransition, ConvertFault>(e@),
        },
{
    if same_text(s, "raised") {
        Ok(ConditionTransition::Raised)
    } else if same_text(s, "updated") {
        Ok(ConditionTransition::Updated)
    } else if same_text(s, "acknowledged") {
        Ok(ConditionTransition::Acknowledged)
    } else if same_text(s, "confirmed") {
        Ok(ConditionTransition::Confirmed)
    } else if same_text(s, "cleared") {
        Ok(ConditionTransition::Cleared)
    } else {
        Err(ConvertError::InvalidEventRecord(cat2("transition 非法: ", s)))
    }
}

/// A transition comes back as it was sent.
pub proof fn transition_reads_back(t: ConditionTransition)
    ensures
        transition_decoded(transition_name(t)) == Ok::<ConditionTransition, ConvertFault>(t),
{
    reveal_strlit("raised");
    reveal_strlit("updated");
    reveal_strlit("acknowledged");
    reveal_strlit("confirmed");
    reveal_strlit("cleared");
    assert("raised"@.len() == 6 && "updated"@.len() == 7 && "acknowledged"@.len() == 12
        && "confirmed"@.len() == 9 && "cleared"@.len() == 7);
    assert("updated"@[0] == 'u' && "cleared"@[0] == 'c');
}

// ---------------------------------------------------------------------------
// Attributes
// ---------------------------------------------------------------------------

/// An attribute: its key and its value.
pub type AttributeV = (Seq<char>, ValueV);

/// The keys of some attributes.
pub open spec fn attribute_keys(a: Seq<AttributeV>) -> Seq<Seq<char>> {
    a.map_values(|e: AttributeV| e.0)
}

/// The keys of some attribute messages.
pub open spec fn attribute_msg_keys(a: Seq<AttributeMsgV>) -> Seq<Seq<char>> {
    a.map_values(|e: AttributeMsgV| e.0)
}

/// Attributes in the order of their keys, with one more among them.
pub open spec fn attribute_put(list: Seq<AttributeV>, e: AttributeV) -> Seq<AttributeV>
    decreases list.len(),
{
    if list.len() == 0 || text_before(list.last().0, e.0) {
        list.push(e)
    } else {
        attribute_put(list.drop_last(), e).push(list.last())
    }
}

/// The attributes of some messages in the order of their keys, or what is wrong with the first bad
/// one: no key stands twice, and each has a value.
pub open spec fn attributes_decoded(ms: Seq<AttributeMsgV>) -> Result<Seq<AttributeV>, ConvertFault>
    decreases ms.len(),
{
    if ms.len() == 0 {
        Ok(Seq::empty())
    } else {
        match attributes_decoded(ms.drop_last()) {
            Err(e) => Err(e),
            Ok(front) => if repeats(attribute_msg_keys(ms), ms.len() - 1) {
                Err(
                    ConvertFault::InvalidEventRecord(
                        "duplicate attribute key: "@ + ms.last().0,
                    ),
                )
            } else {
                match required_value(ms.last().1) {
                    Err(e) => Err(e),
                    Ok(v) => Ok(attribute_put(front, (ms.last().0, v))),
                }
            },
        }
    }
}

/// Attributes as messages.
pub open spec fn attributes_encoded(a: Seq<AttributeV>) -> Seq<AttributeMsgV> {
    a.map_values(|e: AttributeV| (e.0, Some(Some(e.1))))
}

fn put_attribute(list: &mut Vec<(String, TypedValue)>, key: String, v: TypedValue)
    ensures
        attributes_view(final(list)@) == attribute_put(attributes_view(old(list)@), (key@, v@)),
{
    let ghost all = attributes_view(list@);
    let ghost one: AttributeV = (key@, v@);
    let n: usize = list.len();
    let mut i: usize = n;
    assert(all.subrange(0, n as int) =~= all);
    assert(attribute_put(all, one) + all.subrange(n as int, n as int) =~= attribute_put(all, one));
    while i > 0 && !comes_before(list[i - 1].0.as_str(), key.as_str())
        invariant
            i <= n,
            n == list.len(),
            list@ == old(list)@,
            all == attributes_view(list@),
            one == (key@, v@),
            attribute_put(all, one) == attribute_put(all.subrange(0, i as int), one)
                + all.subrange(i as int, n as int),
        decreases i,
    {
        let ghost front = all.subrange(0, i as int);
        assert(front.last() == all[i - 1]);
        assert(front.drop_last() =~= all.subrange(0, i - 1));
        assert(attribute_put(front.drop_last(), one).push(front.last()) + all.subrange(
            i as int,
            n as int,
        ) =~= attribute_put(front.drop_last(), one) + all.subrange(i - 1, n as int));
        i = i - 1;
    }
    proof {
        let front = all.subrange(0, i as int);
        if i > 0 {
            assert(front.last() == all[i - 1]);
        }
        assert(attribute_put(front, one) == front.push(one));
    }
    list.insert(i, (key, v));
    assert(attributes_view(list@) =~= all.subrange(0, i as int).push(one) + all.subrange(
        i as int,
        n as int,
    ));
}

proof fn lemma_put_keys(list: Seq<AttributeV>, e: AttributeV, k: Seq<char>)
    ensures
        attribute_keys(attribute_put(list, e)).contains(k) <==> k == e.0 || attribute_keys(
            list,
        ).contains(k),
    decreases list.len(),
{
    let r = attribute_put(list, e);
    if list.len() == 0 || text_before(list.last().0, e.0) {
        assert(attribute_keys(r) =~= attribute_keys(list).push(e.0));
        lemma_push_contains(attribute_keys(list), e.0, k);
    } else {
        let front = list.drop_last();
        lemma_put_keys(front, e, k);
        assert(attribute_keys(r) =~= attribute_keys(attribute_put(front, e)).push(list.last().0));
        assert(attribute_keys(list) =~= attribute_keys(front).push(list.last().0));
        lemma_push_contains(attribute_keys(attribute_put(front, e)), list.last().0, k);
        lemma_push_contains(attribute_keys(front), list.last().0, k);
    }
}

proof fn lemma_push_contains(s: Seq<Seq<char>>, x: Seq<char>, k: Seq<char>)
    ensures
        s.push(x).contains(k) <==> k == x || s.contains(k),
{
    let p = s.push(x);
    assert(p[s.len() as int] == x);
    if s.contains(k) {
        let i = choose|i: int| 0 <= i < s.len() && s[i] == k;
        assert(p[i] == k);
    }
    if p.contains(k) && k != x {
        let i = choose|i: int| 0 <= i < p.len() && p[i] == k;
        assert(s[i] == k);
    }
}

proof fn lemma_decoded_keys(ms: Seq<AttributeMsgV>, k: Seq<char>)
    requires
        attributes_decoded(ms) is Ok,
    ensures
        attribute_keys(attributes_decoded(ms)->Ok_0).contains(k) <==> attribute_msg_keys(
            ms,
        ).contains(k),
    decreases ms.len(),
{
    if ms.len() > 0 {
        let front = ms.drop_last();
        lemma_decoded_keys(front, k);
        lemma_put_keys(
            attributes_decoded(front)->Ok_0,
            (ms.last().0, required_value(ms.last().1)->Ok_0),
            k,
        );
        assert(attribute_msg_keys(ms) =~= attribute_msg_keys(front).push(ms.last().0));
        lemma_push_contains(attribute_msg_keys(front), ms.last().0, k);
    }
}

proof fn lemma_attributes_fail(ms: Seq<AttributeMsgV>, n: int)
    requires
        0 <= n <= ms.len(),
        attributes_decoded(ms.subrange(0, n)) is Err,
    ensures
        attributes_decoded(ms) == attributes_decoded(ms.subrange(0, n)),
    decreases ms.len() - n,
{
    if n == ms.len() {
        assert(ms.subrange(0, n) =~= ms);
    } else {
        assert(ms.subrange(0, n + 1).drop_last() =~= ms.subrange(0, n));
        lemma_attributes_fail(ms, n + 1);
    }
}

fn has_key(list: &Vec<(String, TypedValue)>, key: &str) -> (r: bool)
    ensures
        r == attribute_keys(attributes_view(list@)).contains(key@),
{
    let ghost keys = attribute_keys(attributes_view(list@));
    let mut i: usize = 0;
    while i < list.len()
        invariant
            i <= list.len(),
            keys == attribute_keys(attributes_view(list@)),
            forall|j: int| 0 <= j < i ==> #[trigger] keys[j] != key@,
        decreases list.len() - i,
    {
        if same_text(list[i].0.as_str(), key) {
            assert(keys[i as int] == key@);
            return true;
        }
        i = i + 1;
    }
    false
}

fn attributes_from_pb(ms: Vec<EventAttributeMsg>) -> (r: Result<
    Vec<(String, TypedValue)>,
    ConvertError,
>)
    ensures
        match r {
            Ok(a) => attributes_decoded(ms@.map_values(|m: EventAttributeMsg| m@)) == Ok::<
                Seq<AttributeV>,
                ConvertFault,
            >(attributes_view(a@)),
            Err(e) => attributes_decoded(ms@.map_values(|m: EventAttributeMsg| m@)) == Err::<
                Seq<AttributeV>,
                ConvertFault,
            >(e@),
        },
{
    let ghost all = ms@;
    let ghost mv = all.map_values(|m: EventAttributeMsg| m@);
    let mut out: Vec<(String, TypedValue)> = Vec::new();
    proof {
        assert(attributes_view(out@) =~= Seq::<AttributeV>::empty());
        assert(mv.subrange(0, 0) =~= Seq::<AttributeMsgV>::empty());
    }
    for m in messages: ms
        invariant
            messages.seq() == all,
            ms@ == all,
            mv == all.map_values(|m: EventAttributeMsg| m@),
            attributes_decoded(mv.subrange(0, messages.index() as int)) == Ok::<
                Seq<AttributeV>,
                ConvertFault,
            >(attributes_view(out@)),
    {
        let ghost i = messages.index() as int;
        let ghost part = mv.subrange(0, i + 1);
        let ghost keys = attribute_msg_keys(part);
        proof {
            assert(m == all[i]);
            assert(part.drop_last() =~= mv.subrange(0, i));
            assert(part.last() == m@);
            lemma_decoded_keys(mv.subrange(0, i), m.key@);
            let earlier = attribute_msg_keys(mv.subrange(0, i));
            assert(keys =~= earlier.push(m.key@));
            if earlier.contains(m.key@) {
                let j = choose|j: int| 0 <= j < earlier.len() && earlier[j] == m.key@;
                assert(keys[j] == keys[i]);
                assert(repeats(keys, i));
            }
            if repeats(keys, i) {
                let j = choose|j: int| 0 <= j < i && #[trigger] keys[j] == keys[i];
                assert(earlier[j] == m.key@);
            }
        }
        if has_key(&out, m.key.as_str()) {
            proof {
                lemma_attributes_fail(mv, i + 1);
            }
            return Err(
                ConvertError::InvalidEventRecord(
                    cat2("duplicate attribute key: ", m.key.as_str()),
                ),
            );
        }
        let value: Result<TypedValue, ConvertError> = match m.value {
            Some(v) => value_from_pb(v),
            None => Err(ConvertError::EmptyValue),
        };
        match value {
            Ok(v) => {
                put_attribute(&mut out, m.key, v);
            },
            Err(e) => {
                proof {
                    lemma_attributes_fail(mv, i + 1);
                }
                return Err(e);
            },
        }
    }
    assert(mv.subrange(0, all.len() as int) =~= mv);
    Ok(out)
}

fn attributes_to_pb(a: &Vec<(String, TypedValue)>) -> (r: Vec<EventAttributeMsg>)
    ensures
        r@.map_values(|m: EventAttributeMsg| m@) == attributes_encoded(attributes_view(a@)),
{
    let mut r: Vec<EventAttributeMsg> = Vec::new();
    let mut i: usize = 0;
    while i < a.len()
        invariant
            i <= a.len(),
            r.len() == i,
            forall|j: int|
                0 <= j < i ==> (#[trigger] r@[j])@ == (a@[j].0@, Some(Some(a@[j].1@))),
        decreases a.len() - i,
    {
        r.push(EventAttributeMsg { key: a[i].0.clone(), value: Some(value_to_pb(&a[i].1)) });
        i = i + 1;
    }
    assert(r@.map_values(|m: EventAttributeMsg| m@) =~= attributes_encoded(attributes_view(a@)));
    r
}

proof fn lemma_attributes_read_back(a: Seq<AttributeV>)
    requires
        ascending(attribute_keys(a)),
    ensures
        attributes_decoded(attributes_encoded(a)) == Ok::<Seq<AttributeV>, ConvertFault>(a),
    decreases a.len(),
{
    let ms = attributes_encoded(a);
    if a.len() == 0 {
        assert(a =~= Seq::<AttributeV>::empty());
    } else {
        let front = a.drop_last();
        let keys = attribute_keys(a);
        assert forall|i: int, j: int|
            0 <= i < j < attribute_keys(front).len() implies text_before(
            #[trigger] attribute_keys(front)[i],
            #[trigger] attribute_keys(front)[j],
        ) by {
            assert(text_before(keys[i], keys[j]));
        }
        lemma_attributes_read_back(front);
        assert(ms.drop_last() =~= attributes_encoded(front));
        assert(attribute_msg_keys(ms) =~= keys);
        if repeats(keys, a.len() - 1) {
            let j = choose|j: int| 0 <= j < a.len() - 1 && #[trigger] keys[j] == keys[a.len() - 1];
            assert(text_before(keys[j], keys[a.len() - 1]));
            crate::text::lemma_text_before_irreflexive(keys[j]);
        }
        if front.len() > 0 {
            assert(text_before(keys[a.len() - 2], keys[a.len() - 1]));
            assert(front.last().0 == keys[a.len() - 2]);
        }
        assert(attribute_put(front, a.last()) =~= a);
    }
}

// ---------------------------------------------------------------------------
// Records
// ---------------------------------------------------------------------------

/// A record as a message, if it is accepted.
pub open spec fn record_encoded(r: RecordV) -> Result<RecordMsgV, ConvertFault> {
    match record_fault(r) {
        Some(f) => Err(ConvertFault::InvalidEventRecord(record_fault_text(f))),
        None => Ok(
            RecordMsgV {
                event_id: r.event_id,
                category: r.category,
                kind: r.kind,
                source: r.source,
                severity: r.severity as u32,
                code: r.code,
                message: r.message,
                message_locale: r.message_locale,
                occurred_at_ns: r.occurred_at_ns,
                condition: match r.condition {
                    Some(c) => Some(condition_encoded(c)),
                    None => None,
                },
                correlation_id: r.correlation_id,
                attributes: attributes_encoded(r.attributes),
            },
        ),
    }
}

/// The record that a message holds, if it is accepted. Nothing is cut to fit.
pub open spec fn record_decoded(m: RecordMsgV) -> Result<RecordV, ConvertFault> {
    match attributes_decoded(m.attributes) {
        Err(e) => Err(e),
        Ok(attributes) => match condition_decoded(m.condition) {
            Err(e) => Err(e),
            Ok(condition) => if m.severity > 65535 {
                Err(
                    ConvertFault::InvalidEventRecord(
                        "severity overflow: "@ + decimal(m.severity as nat),
                    ),
                )
            } else {
                let r = RecordV {
                    event_id: m.event_id,
                    category: m.category,
                    kind: m.kind,
                    source: m.source,
                    severity: m.severity as u16,
                    code: m.code,
                    message: m.message,
                    message_locale: m.message_locale,
                    occurred_at_ns: m.occurred_at_ns,
                    condition,
                    correlation_id: m.correlation_id,
                    attributes,
                };
                match record_fault(r) {
                    Some(f) => Err(ConvertFault::InvalidEventRecord(record_fault_text(f))),
                    None => Ok(r),
                }
            },
        },
    }
}

fn copy_text(s: &Option<String>) -> (r: Option<String>)
    ensures
        maybe_text(r) == maybe_text(*s),
{
    match s {
        Some(x) => Some(x.clone()),
        None => None,
    }
}

pub fn event_record_to_pb(e: &EventRecord) -> (r: Result<EventRecordMsg, ConvertError>)
    ensures
        shown(r) == record_encoded(e@),
{
    match e.validate() {
        Ok(()) => {},
        Err(f) => {
            return Err(ConvertError::InvalidEventRecord(f.message()));
        },
    }
    let condition: Option<EventConditionMsg> = match &e.condition {
        Some(c) => Some(
            EventConditionMsg {
                condition_id: c.condition_id.clone(),
                transition: c.transition.name().to_owned(),
                active: c.active,
                acknowledged: c.acknowledged,
                confirmed: c.confirmed,
                retain: c.retain,
            },
        ),
        None => None,
    };
    Ok(
        EventRecordMsg {
            event_id: e.event_id.clone(),
            category: e.category.clone(),
            kind: e.kind.clone(),
            source: e.source.clone(),
            severity: e.severity as u32,
            code: copy_text(&e.code),
            message: copy_text(&e.message),
            message_locale: copy_text(&e.message_locale),
            occurred_at_ns: e.occurred_at_ns,
            condition,
            correlation_id: copy_text(&e.correlation_id),
            attributes: attributes_to_pb(&e.attributes),
        },
    )
}

pub fn event_record_from_pb(e: EventRecordMsg) -> (r: Result<EventRecord, ConvertError>)
    ensures
        shown(r) == record_decoded(e@),
{
    let attributes: Vec<(String, TypedValue)> = match attributes_from_pb(e.attributes) {
        Ok(a) => a,
        Err(f) => {
            return Err(f);
        },
    };
    let condition: Option<EventCondition> = match e.condition {
        None => None,
        Some(c) => match transition_from_str(c.transition.as_str()) {
            Err(f) => {
                return Err(f);
            },
            Ok(transition) => Some(
                EventCondition {
                    condition_id: c.condition_id,
                    transition,
                    active: c.active,
                    acknowledged: c.acknowledged,
                    confirmed: c.confirmed,
                    retain: c.retain,
                },
            ),
        },
    };
    if e.severity > 65535 {
        return Err(
            ConvertError::InvalidEventRecord(
                cat2("severity overflow: ", decimal_text(e.severity as u64).as_str()),
            ),
        );
    }
    let r: EventRecord = EventRecord {
        event_id: e.event_id,
        category: e.category,
        kind: e.kind,
        source: e.source,
        severity: e.severity as u16,
        code: e.code,
        message: e.message,
        message_locale: e.message_locale,
        occurred_at_ns: e.occurred_at_ns,
        condition,
        correlation_id: e.correlation_id,
        attributes,
    };
    match r.validate() {
        Ok(()) => Ok(r),
        Err(f) => Err(ConvertError::InvalidEventRecord(f.message())),
    }
}

/// A record that is accepted comes back as it was sent.
pub proof fn record_reads_back(r: RecordV)
    requires
        record_fault(r) is None,
        ascending(attribute_keys(r.attributes)),
    ensures
        record_encoded(r) is Ok,
        record_decoded(record_encoded(r)->Ok_0) == Ok::<RecordV, ConvertFault>(r),
{
    lemma_attributes_read_back(r.attributes);
    match r.condition {
        Some(c) => transition_reads_back(c.transition),
        None => {},
    }
}

// ---------------------------------------------------------------------------
// Batches
// ---------------------------------------------------------------------------

/// What an [`EventBatch`] is.
pub struct EventBatchV {
    pub connection_handle: u32,
    pub stream_epoch: u64,
    pub sequence: u64,
    pub timestamp_ns: TimestampNs,
    pub events: Seq<RecordV>,
    pub mono_ns: Option<u64>,
}

/// What some records are.
pub open spec fn records_view(r: Seq<EventRecord>) -> Seq<RecordV> {
    r.map_values(|e: EventRecord| e@)
}

/// What some record messages are.
pub open spec fn record_msgs_view(r: Seq<EventRecordMsg>) -> Seq<RecordMsgV> {
    r.map_values(|e: EventRecordMsg| e@)
}

impl View for EventBatch {
    type V = EventBatchV;

    open spec fn view(&self) -> EventBatchV {
        EventBatchV {
            connection_handle: self.connection_handle,
            stream_epoch: self.stream_epoch,
            sequence: self.sequence,
            timestamp_ns: self.timestamp_ns,
            events: records_view(self.events@),
            mono_ns: self.mono_ns,
        }
    }
}

/// Records as messages, or what is wrong with the first bad one.
pub open spec fn records_encoded(rs: Seq<RecordV>) -> Result<Seq<RecordMsgV>, ConvertFault>
    decreases rs.len(),
{
    if rs.len() == 0 {
        Ok(Seq::empty())
    } else {
        match records_encoded(rs.drop_last()) {
            Err(e) => Err(e),
            Ok(front) => match record_encoded(rs.last()) {
                Err(e) => Err(e),
                Ok(m) => Ok(front.push(m)),
            },
        }
    }
}

/// The records of some messages, or what is wrong with the first bad one.
pub open spec fn records_decoded(ms: Seq<RecordMsgV>) -> Result<Seq<RecordV>, ConvertFault>
    decreases ms.len(),
{
    if ms.len() == 0 {
        Ok(Seq::empty())
    } else {
        match records_decoded(ms.drop_last()) {
            Err(e) => Err(e),
            Ok(front) => match record_decoded(ms.last()) {
                Err(e) => Err(e),
                Ok(r) => Ok(front.push(r)),
            },
        }
    }
}

/// A batch longer than the limit is refused.
pub open spec fn batch_size_fault(m: EventBatchMsgV) -> Option<ConvertFault> {
    if batch_length(m) > EVENT_BATCH_MAX_BYTES {
        Some(
            ConvertFault::EventBatchTooLarge(
                "event batch "@ + decimal(capped(batch_length(m)) as nat) + " > 262144 bytes"@,
            ),
        )
    } else {
        None
    }
}

/// A batch as a message: all of it, with its header, or nothing.
pub open spec fn event_batch_encoded(b: EventBatchV) -> Result<EventBatchMsgV, ConvertFault> {
    match records_encoded(b.events) {
        Err(e) => Err(e),
        Ok(events) => {
            let m = EventBatchMsgV {
                connection_handle: b.connection_handle,
                stream_epoch: b.stream_epoch,
                sequence: b.sequence,
                timestamp_ns: b.timestamp_ns,
                events,
                mono_ns: b.mono_ns,
            };
            match batch_size_fault(m) {
                Some(f) => Err(f),
                None => Ok(m),
            }
        },
    }
}

/// The batch that a message holds: all of it, with its header, or nothing.
pub open spec fn event_batch_decoded(m: EventBatchMsgV) -> Result<EventBatchV, ConvertFault> {
    match batch_size_fault(m) {
        Some(f) => Err(f),
        None => match records_decoded(m.events) {
            Err(e) => Err(e),
            Ok(events) => Ok(
                EventBatchV {
                    connection_handle: m.connection_handle,
                    stream_epoch: m.stream_epoch,
                    sequence: m.sequence,
                    timestamp_ns: m.timestamp_ns,
                    events,
                    mono_ns: m.mono_ns,
                },
            ),
        },
    }
}

fn check_event_batch_size(b: &EventBatchMsg) -> (r: Result<(), ConvertError>)
    ensures
        match r {
            Ok(()) => batch_size_fault(b@) is None,
            Err(e) => batch_size_fault(b@) == Some(e@),
        },
{
    let n: u64 = b.encoded_len();
    if n > EVENT_BATCH_MAX_BYTES as u64 {
        return Err(
            ConvertError::EventBatchTooLarge(
                cat3("event batch ", decimal_text(n).as_str(), " > 262144 bytes"),
            ),
        );
    }
    Ok(())
}

proof fn lemma_encoding_fails(rs: Seq<RecordV>, n: int)
    requires
        0 <= n <= rs.len(),
        records_encoded(rs.subrange(0, n)) is Err,
    ensures
        records_encoded(rs) == records_encoded(rs.subrange(0, n)),
    decreases rs.len() - n,
{
    if n == rs.len() {
        assert(rs.subrange(0, n) =~= rs);
    } else {
        assert(rs.subrange(0, n + 1).drop_last() =~= rs.subrange(0, n));
        lemma_encoding_fails(rs, n + 1);
    }
}

proof fn lemma_decoding_fails(ms: Seq<RecordMsgV>, n: int)
    requires
        0 <= n <= ms.len(),
        records_decoded(ms.subrange(0, n)) is Err,
    ensures
        records_decoded(ms) == records_decoded(ms.subrange(0, n)),
    decreases ms.len() - n,
{
    if n == ms.len() {
        assert(ms.subrange(0, n) =~= ms);
    } else {
        assert(ms.subrange(0, n + 1).drop_last() =~= ms.subrange(0, n));
        lemma_decoding_fails(ms, n + 1);
    }
}

pub fn event_batch_to_pb(batch: &EventBatch) -> (r: Result<EventBatchMsg, ConvertError>)
    ensures
        shown(r) == event_batch_encoded(batch@),
{
    let ghost rs = batch@.events;
    let mut events: Vec<EventRecordMsg> = Vec::new();
    proof {
        assert(record_msgs_view(events@) =~= Seq::<RecordMsgV>::empty());
        assert(rs.subrange(0, 0) =~= Seq::<RecordV>::empty());
    }
    let mut i: usize = 0;
    while i < batch.events.len()
        invariant
            i <= batch.events.len(),
            rs == batch@.events,
            records_encoded(rs.subrange(0, i as int)) == Ok::<Seq<RecordMsgV>, ConvertFault>(
                record_msgs_view(events@),
            ),
        decreases batch.events.len() - i,
    {
        proof {
            assert(rs.subrange(0, i + 1).drop_last() =~= rs.subrange(0, i as int));
            assert(rs.subrange(0, i + 1).last() == batch.events@[i as int]@);
        }
        match event_record_to_pb(&batch.events[i]) {
            Ok(m) => {
                let ghost front = record_msgs_view(events@);
                events.push(m);
                assert(record_msgs_view(events@) =~= front.push(m@));
            },
            Err(e) => {
                proof {
                    lemma_encoding_fails(rs, i + 1);
                }
                return Err(e);
            },
        }
        i = i + 1;
    }
    assert(rs.subrange(0, rs.len() as int) =~= rs);
    let wire: EventBatchMsg = EventBatchMsg {
        connection_handle: batch.connection_handle,
        stream_epoch: batch.stream_epoch,
        sequence: batch.sequence,
        timestamp_ns: batch.timestamp_ns,
        events,
        mono_ns: batch.mono_ns,
    };
    match check_event_batch_size(&wire) {
        Ok(()) => Ok(wire),
        Err(e) => Err(e),
    }
}

pub fn event_batch_from_pb(b: EventBatchMsg) -> (r: Result<EventBatch, ConvertError>)
    ensures
        shown(r) == event_batch_decoded(b@),
{
    match check_event_batch_size(&b) {
        Ok(()) => {},
        Err(e) => {
            return Err(e);
        },
    }
    let ghost all = b.events@;
    let ghost ms = b@.events;
    let mut events: Vec<EventRecord> = Vec::new();
    proof {
        assert(records_view(events@) =~= Seq::<RecordV>::empty());
        assert(ms.subrange(0, 0) =~= Seq::<RecordMsgV>::empty());
    }
    for m in messages: b.events
        invariant
            messages.seq() == all,
            ms == record_msgs_view(all),
            b@.events == ms,
            batch_size_fault(b@) is None,
            records_decoded(ms.subrange(0, messages.index() as int)) == Ok::<
                Seq<RecordV>,
                ConvertFault,
            >(records_view(events@)),
    {
        proof {
            let i = messages.index() as int;
            assert(m == all[i]);
            assert(ms.subrange(0, i + 1).drop_last() =~= ms.subrange(0, i));
            assert(ms.subrange(0, i + 1).last() == m@);
        }
        match event_record_from_pb(m) {
            Ok(e) => {
                let ghost front = records_view(events@);
                events.push(e);
                assert(records_view(events@) =~= front.push(e@));
            },
            Err(e) => {
                proof {
                    lemma_decoding_fails(ms, messages.index() + 1);
                }
                return Err(e);
            },
        }
    }
    assert(ms.subrange(0, all.len() as int) =~= ms);
    Ok(
        EventBatch {
            connection_handle: b.connection_handle,
            stream_epoch: b.stream_epoch,
            sequence: b.sequence,
            timestamp_ns: b.timestamp_ns,
            events,
            mono_ns: b.mono_ns,
        },
    )
}

proof fn lemma_records_read_back(rs: Seq<RecordV>)
    requires
        records_encoded(rs) is Ok,
        forall|i: int|
            0 <= i < rs.len() ==> ascending(attribute_keys((#[trigger] rs[i]).attributes)),
    ensures
        records_decoded(records_encoded(rs)->Ok_0) == Ok::<Seq<RecordV>, ConvertFault>(rs),
    decreases rs.len(),
{
    if rs.len() == 0 {
        assert(rs =~= Seq::<RecordV>::empty());
    } else {
        let front = rs.drop_last();
        assert forall|i: int| 0 <= i < front.len() implies ascending(
            attribute_keys((#[trigger] front[i]).attributes),
        ) by {
            assert(front[i] == rs[i]);
        }
        lemma_records_read_back(front);
        record_reads_back(rs.last());
        let ms = records_encoded(rs)->Ok_0;
        assert(ms.drop_last() =~= records_encoded(front)->Ok_0);
        assert(front.push(rs.last()) =~= rs);
    }
}

/// A batch that can be sent comes back as it was sent, its header with it.
pub proof fn event_batch_reads_back(b: EventBatchV)
    requires
        event_batch_encoded(b) is Ok,
        forall|i: int|
            0 <= i < b.events.len() ==> ascending(
                attribute_keys((#[trigger] b.events[i]).attributes),
            ),
    ensures
        event_batch_decoded(event_batch_encoded(b)->Ok_0) == Ok::<EventBatchV, ConvertFault>(b),
{
    lemma_records_read_back(b.events);
}

/// The change of a condition is read from its name, and no other text is one.
pub proof fn transitions_are_read_by_name(s: Seq<char>)
    ensures
        s == "raised"@ ==> transition_decoded(s) == Ok::<ConditionTransition, ConvertFault>(
            ConditionTransition::Raised,
        ),
        s == "updated"@ ==> transition_decoded(s) == Ok::<ConditionTransition, ConvertFault>(
            ConditionTransition::Updated,
        ),
        s == "acknowledged"@ ==> transition_decoded(s) == Ok::<ConditionTransition, ConvertFault>(
            ConditionTransition::Acknowledged,
        ),
        s == "confirmed"@ ==> transition_decoded(s) == Ok::<ConditionTransition, ConvertFault>(
            ConditionTransition::Confirmed,
        ),
        s == "cleared"@ ==> transition_decoded(s) == Ok::<ConditionTransition, ConvertFault>(
            ConditionTransition::Cleared,
        ),
        transition_decoded(s) is Err <==> s != "raised"@ && s != "updated"@ && s
            != "acknowledged"@ && s != "confirmed"@ && s != "cleared"@,
{
    reveal_strlit("raised");
    reveal_strlit("updated");
    reveal_strlit("acknowledged");
    reveal_strlit("confirmed");
    reveal_strlit("cleared");
    assert("raised"@.len() == 6);
    assert("updated"@.len() == 7);
    assert("acknowledged"@.len() == 12);
    assert("confirmed"@.len() == 9);
    assert("cleared"@.len() == 7);
    assert("updated"@[0] == 'u');
    assert("cleared"@[0] == 'c');
}

/// A condition is sent field by field.
pub proof fn conditions_are_sent_field_by_field(c: ConditionV)
    ensures
        condition_encoded(c).condition_id == c.condition_id,
        condition_encoded(c).transition == transition_name(c.transition),
        condition_encoded(c).active == c.active,
        condition_encoded(c).acknowledged == c.acknowledged,
        condition_encoded(c).confirmed == c.confirmed,
        condition_encoded(c).retain == c.retain,
{
}

/// A record is sent exactly where it makes sense, field by field.
pub proof fn records_are_sent_field_by_field(r: RecordV)
    ensures
        record_encoded(r) is Ok <==> record_fault(r) is None,
        record_encoded(r) matches Ok(m) ==> {
            &&& m.event_id == r.event_id
            &&& m.category == r.category
            &&& m.kind == r.kind
            &&& m.source == r.source
            &&& m.severity == r.severity
            &&& m.code == r.code
            &&& m.message == r.message
            &&& m.message_locale == r.message_locale
            &&& m.occurred_at_ns == r.occurred_at_ns
            &&& m.correlation_id == r.correlation_id
            &&& m.condition is Some <==> r.condition is Some
            &&& r.condition matches Some(c) ==> m.condition == Some(condition_encoded(c))
            &&& m.attributes.len() == r.attributes.len()
            &&& forall|i: int|
                0 <= i < m.attributes.len() ==> (#[trigger] m.attributes[i]).0 == r.attributes[i].0
                    && m.attributes[i].1 == Some(Some(r.attributes[i].1))
        },
{
}

/// A record is taken exactly where its attributes and its condition can be read, its severity is no
/// larger than it can be, and it makes sense; field by field.
pub proof fn records_are_taken_field_by_field(m: RecordMsgV)
    ensures
        record_decoded(m) matches Ok(r) ==> {
            &&& r.event_id == m.event_id
            &&& r.category == m.category
            &&& r.kind == m.kind
            &&& r.source == m.source
            &&& r.severity == m.severity
            &&& r.code == m.code
            &&& r.message == m.message
            &&& r.message_locale == m.message_locale
            &&& r.occurred_at_ns == m.occurred_at_ns
            &&& r.correlation_id == m.correlation_id
            &&& condition_decoded(m.condition) == Ok::<Option<ConditionV>, ConvertFault>(
                r.condition,
            )
            &&& attributes_decoded(m.attributes) == Ok::<Seq<AttributeV>, ConvertFault>(
                r.attributes,
            )
            &&& record_fault(r) is None
            &&& m.severity <= 65535
        },
        attributes_decoded(m.attributes) is Err ==> record_decoded(m) is Err,
        condition_decoded(m.condition) is Err ==> record_decoded(m) is Err,
        m.severity > 65535 ==> record_decoded(m) is Err,
{
}

/// A batch of events is taken exactly where it has no more than 262144 bytes and each of its
/// records is taken; all it says of itself stays.
pub proof fn batches_are_taken_field_by_field(m: EventBatchMsgV)
    ensures
        event_batch_decoded(m) is Ok <==> batch_length(m) <= 262144 && records_decoded(m.events)
            is Ok,
        event_batch_decoded(m) matches Ok(b) ==> {
            &&& b.connection_handle == m.connection_handle
            &&& b.stream_epoch == m.stream_epoch
            &&& b.sequence == m.sequence
            &&& b.timestamp_ns == m.timestamp_ns
            &&& b.mono_ns == m.mono_ns
            &&& records_decoded(m.events) == Ok::<Seq<RecordV>, ConvertFault>(b.events)
        },
{
}

/// Records are taken one by one; the first that is not stops it.
pub proof fn records_are_taken_one_by_one(ms: Seq<RecordMsgV>, m: RecordMsgV)
    ensures
        records_decoded(Seq::empty()) matches Ok(rs) && rs.len() == 0,
        records_decoded(ms) matches Ok(rs) ==> (record_decoded(m) matches Ok(r) ==> records_decoded(
            ms.push(m),
        ) == Ok::<Seq<RecordV>, ConvertFault>(rs.push(r))),
        records_decoded(ms) is Err || record_decoded(m) is Err ==> records_decoded(ms.push(m))
            is Err,
{
    assert(ms.push(m).drop_last() =~= ms);
}

/// A batch of events is sent exactly where each of its records is and it has no more than 262144
/// bytes; all it says of itself stays.
pub proof fn batches_are_sent_field_by_field(b: EventBatchV)
    ensures
        event_batch_encoded(b) matches Ok(m) ==> {
            &&& m.connection_handle == b.connection_handle
            &&& m.stream_epoch == b.stream_epoch
            &&& m.sequence == b.sequence
            &&& m.timestamp_ns == b.timestamp_ns
            &&& m.mono_ns == b.mono_ns
            &&& records_encoded(b.events) == Ok::<Seq<RecordMsgV>, ConvertFault>(m.events)
            &&& batch_length(m) <= 262144
        },
        records_encoded(b.events) is Err ==> event_batch_encoded(b) is Err,
{
}

/// Records are sent one by one; the first that does not make sense stops it.
pub proof fn records_are_sent_one_by_one(rs: Seq<RecordV>, r: RecordV)
    ensures
        records_encoded(Seq::empty()) matches Ok(ms) && ms.len() == 0,
        records_encoded(rs) matches Ok(ms) ==> (record_encoded(r) matches Ok(m) ==> records_encoded(
            rs.push(r),
        ) == Ok::<Seq<RecordMsgV>, ConvertFault>(ms.push(m))),
        records_encoded(rs) is Err || record_encoded(r) is Err ==> records_encoded(rs.push(r))
            is Err,
{
    assert(rs.push(r).drop_last() =~= rs);
}

/// Attributes are taken exactly where each has a value and no key is there twice.
pub proof fn attributes_are_taken_once(ms: Seq<AttributeMsgV>, e: AttributeMsgV)
    requires
        attributes_decoded(ms) is Ok,
    ensures
        attributes_decoded(ms.push(e)) is Ok <==> ((e.1 matches Some(v) && v is Some) && forall|j: int|
            0 <= j < ms.len() ==> (#[trigger] ms[j]).0 != e.0),
        attributes_decoded(ms.push(e)) is Ok ==> attributes_decoded(ms.push(e))->Ok_0.len()
            == attributes_decoded(ms)->Ok_0.len() + 1,
{
    let all = ms.push(e);
    assert(all.drop_last() =~= ms);
    let keys = attribute_msg_keys(all);
    assert(repeats(keys, ms.len() as int) <==> exists|j: int|
        0 <= j < ms.len() && (#[trigger] ms[j]).0 == e.0) by {
        if repeats(keys, ms.len() as int) {
            let j = choose|j: int|
                0 <= j < ms.len() && #[trigger] keys[j] == keys[ms.len() as int];
            assert(ms[j].0 == e.0);
        }
        if exists|j: int| 0 <= j < ms.len() && (#[trigger] ms[j]).0 == e.0 {
            let j = choose|j: int| 0 <= j < ms.len() && (#[trigger] ms[j]).0 == e.0;
            assert(keys[j] == keys[ms.len() as int]);
        }
    }
    if required_value(e.1) is Ok {
        lemma_attribute_put_longer(
            attributes_decoded(ms)->Ok_0,
            (e.0, required_value(e.1)->Ok_0),
        );
    }
}

proof fn lemma_attribute_put_longer(list: Seq<AttributeV>, e: AttributeV)
    ensures
        attribute_put(list, e).len() == list.len() + 1,
    decreases list.len(),
{
    if list.len() > 0 && !text_before(list.last().0, e.0) {
        lemma_attribute_put_longer(list.drop_last(), e);
    }
}

} // verus!
