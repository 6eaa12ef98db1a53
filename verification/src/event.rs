//! Events: what one is, when a record of one is accepted, and what a driver says it can report.
use vstd::prelude::*;

use crate::float::{double_json, double_json_text, single_json, single_json_text, Double, Single};
use crate::json::{
    bool_json, bool_text, braced, braced_text, bracketed, bracketed_text, json_quoted, member,
    member_text, push_member, push_text, quoted, text_member,
};
use crate::schema::{definition_defect, first_of, maybe_text, LocalizedText, SchemaDescriptor};
use crate::text::{
    blank, byte_len, byte_length, cat2, cat3, cat4, decimal, decimal_text, is_blank, same_text,
    signed_decimal, signed_decimal_text, texts_view,
};
use crate::types::{
    task_fault, DriverBinding, TaskFault, TaskMode, TaskV, TimestampNs, TypedValue, ValueV,
};

verus! {

/// The greatest length of a record as JSON, in bytes.
pub const EVENT_RECORD_MAX_BYTES: usize = 16384;

/// The greatest length of a batch on the wire, in bytes.
pub const EVENT_BATCH_MAX_BYTES: usize = 262144;

/// The greatest number of attributes of an event.
pub const EVENT_ATTRIBUTES_MAX_FIELDS: usize = 64;

/// The greatest severity.
pub const EVENT_SEVERITY_MAX: u16 = 1000;

// ---------------------------------------------------------------------------
// Types
// ---------------------------------------------------------------------------

/// What happened to a condition.
#[derive(Debug, Clone, Copy, PartialEq, Eq, Structural)]
pub enum ConditionTransition {
    Raised,
    Updated,
    Acknowledged,
    Confirmed,
    Cleared,
}

/// The condition that an event belongs to, and its state after the event.
#[derive(Debug, Clone, PartialEq)]
pub struct EventCondition {
    pub condition_id: String,
    pub transition: ConditionTransition,
    pub active: Option<bool>,
    pub acknowledged: Option<bool>,
    pub confirmed: Option<bool>,
    pub retain: Option<bool>,
}

/// One occurrence of an event. The attributes stand in the order of their keys.
#[derive(Debug, Clone, PartialEq)]
pub struct EventRecord {
    pub event_id: String,
    pub category: String,
    pub kind: String,
    pub source: String,
    pub severity: u16,
    pub code: Option<String>,
    pub message: Option<String>,
    pub message_locale: Option<String>,
    pub occurred_at_ns: Option<TimestampNs>,
    pub condition: Option<EventCondition>,
    pub correlation_id: Option<String>,
    pub attributes: Vec<(String, TypedValue)>,
}

/// What a condition is.
pub struct ConditionV {
    pub condition_id: Seq<char>,
    pub transition: ConditionTransition,
    pub active: Option<bool>,
    pub acknowledged: Option<bool>,
    pub confirmed: Option<bool>,
    pub retain: Option<bool>,
}

/// What a record is.
pub struct RecordV {
    pub event_id: Seq<char>,
    pub category: Seq<char>,
    pub kind: Seq<char>,
    pub source: Seq<char>,
    pub severity: u16,
    pub code: Option<Seq<char>>,
    pub message: Option<Seq<char>>,
    pub message_locale: Option<Seq<char>>,
    pub occurred_at_ns: Option<TimestampNs>,
    pub condition: Option<ConditionV>,
    pub correlation_id: Option<Seq<char>>,
    pub attributes: Seq<(Seq<char>, ValueV)>,
}

impl View for EventCondition {
    type V = ConditionV;

    open spec fn view(&self) -> ConditionV {
        ConditionV {
            condition_id: self.condition_id@,
            transition: self.transition,
            active: self.active,
            acknowledged: self.acknowledged,
            confirmed: self.confirmed,
            retain: self.retain,
        }
    }
}

/// What some attributes are.
pub open spec fn attributes_view(a: Seq<(String, TypedValue)>) -> Seq<(Seq<char>, ValueV)> {
    a.map_values(|e: (String, TypedValue)| (e.0@, e.1@))
}

impl View for EventRecord {
    type V = RecordV;

    open spec fn view(&self) -> RecordV {
        RecordV {
            event_id: self.event_id@,
            category: self.category@,
            kind: self.kind@,
            source: self.source@,
            severity: self.severity,
            code: maybe_text(self.code),
            message: maybe_text(self.message),
            message_locale: maybe_text(self.message_locale),
            occurred_at_ns: self.occurred_at_ns,
            condition: match self.condition {
                Some(c) => Some(c@),
                None => None,
            },
            correlation_id: maybe_text(self.correlation_id),
            attributes: attributes_view(self.attributes@),
        }
    }
}

/// Why a record is refused.
#[derive(Debug, Clone, PartialEq)]
pub enum EventRecordError {
    Invalid(String),
    TooLarge(String),
}

/// A task that watches for events.
#[derive(Debug, Clone, PartialEq)]
pub struct EventTask {
    pub id: String,
    pub mode: TaskMode,
    pub interval_ms: Option<u64>,
    pub binding: DriverBinding,
}

/// What is wrong with an event task.
#[derive(Debug, Clone, PartialEq)]
pub enum EventTaskError {
    EmptyTaskId,
    PollRequiresInterval { task: String },
}

/// An attribute that the events of a stream may have.
#[derive(Debug, Clone, PartialEq)]
pub struct EventFieldDescriptor {
    pub key: String,
    pub label: LocalizedText,
    pub data_type: Option<String>,
}

/// A source of events that a driver has.
#[derive(Debug, Clone, PartialEq)]
pub struct EventStreamDescriptor {
    pub id: String,
    pub label: LocalizedText,
    pub modes: Vec<TaskMode>,
    pub parameters: SchemaDescriptor,
    pub fields: Vec<EventFieldDescriptor>,
}

/// The sources of events that a driver has.
#[derive(Debug, Clone, PartialEq)]
pub struct EventCatalog {
    pub streams: Vec<EventStreamDescriptor>,
}

/// Events that a connection delivers together.
#[derive(Debug, Clone, PartialEq)]
pub struct EventBatch {
    pub connection_handle: u32,
    pub stream_epoch: u64,
    pub sequence: u64,
    pub timestamp_ns: TimestampNs,
    pub events: Vec<EventRecord>,
    pub mono_ns: Option<u64>,
}

// ---------------------------------------------------------------------------
// A record as JSON
// ---------------------------------------------------------------------------

/// The name of a transition.
pub open spec fn transition_name(t: ConditionTransition) -> Seq<char> {
    match t {
        ConditionTransition::Raised => "raised"@,
        ConditionTransition::Updated => "updated"@,
        ConditionTransition::Acknowledged => "acknowledged"@,
        ConditionTransition::Confirmed => "confirmed"@,
        ConditionTransition::Cleared => "cleared"@,
    }
}

impl ConditionTransition {
    pub fn name(self) -> (r: &'static str)
        ensures
            r@ == transition_name(self),
    {
        match self {
            ConditionTransition::Raised => "raised",
            ConditionTransition::Updated => "updated",
            ConditionTransition::Acknowledged => "acknowledged",
            ConditionTransition::Confirmed => "confirmed",
            ConditionTransition::Cleared => "cleared",
        }
    }
}

/// A value as JSON: an object with one member, named after the variant.
pub open spec fn value_text(v: ValueV) -> Seq<char> {
    match v {
        ValueV::Bool(x) => braced(seq![member("Bool"@, bool_text(x))]),
        ValueV::I32(x) => braced(seq![member("I32"@, signed_decimal(x as int))]),
        ValueV::U32(x) => braced(seq![member("U32"@, decimal(x as nat))]),
        ValueV::I64(x) => braced(seq![member("I64"@, signed_decimal(x as int))]),
        ValueV::U64(x) => braced(seq![member("U64"@, decimal(x as nat))]),
        ValueV::F32(x) => braced(seq![member("F32"@, single_json(x.bits))]),
        ValueV::F64(x) => braced(seq![member("F64"@, double_json(x.bits))]),
        ValueV::String(x) => braced(seq![member("String"@, json_quoted(x))]),
        ValueV::Bytes(x) => braced(
            seq![member("Bytes"@, bracketed(x.map_values(|b: u8| decimal(b as nat))))],
        ),
        ValueV::DateTime(x) => braced(seq![member("DateTime"@, signed_decimal(x as int))]),
        ValueV::BoolArray(x) => braced(
            seq![member("BoolArray"@, bracketed(x.map_values(|b: bool| bool_text(b))))],
        ),
        ValueV::I32Array(x) => braced(
            seq![
                member("I32Array"@, bracketed(x.map_values(|n: i32| signed_decimal(n as int)))),
            ],
        ),
        ValueV::U32Array(x) => braced(
            seq![member("U32Array"@, bracketed(x.map_values(|n: u32| decimal(n as nat))))],
        ),
        ValueV::I64Array(x) => braced(
            seq![
                member("I64Array"@, bracketed(x.map_values(|n: i64| signed_decimal(n as int)))),
            ],
        ),
        ValueV::U64Array(x) => braced(
            seq![member("U64Array"@, bracketed(x.map_values(|n: u64| decimal(n as nat))))],
        ),
        ValueV::F32Array(x) => braced(
            seq![
                member(
                    "F32Array"@,
                    bracketed(x.map_values(|n: crate::float::Single| single_json(n.bits))),
                ),
            ],
        ),
        ValueV::F64Array(x) => braced(
            seq![
                member(
                    "F64Array"@,
                    bracketed(x.map_values(|n: crate::float::Double| double_json(n.bits))),
                ),
            ],
        ),
        ValueV::StringArray(x) => braced(
            seq![
                member("StringArray"@, bracketed(x.map_values(|s: Seq<char>| json_quoted(s)))),
            ],
        ),
        ValueV::DateTimeArray(x) => braced(
            seq![
                member(
                    "DateTimeArray"@,
                    bracketed(x.map_values(|n: i64| signed_decimal(n as int))),
                ),
            ],
        ),
    }
}

fn tagged_text(name: &str, value: &str) -> (r: String)
    ensures
        r@ == braced(seq![member(name@, value@)]),
{
    let mut members: Vec<String> = Vec::new();
    members.push(member_text(name, value));
    assert(texts_view(members@) =~= seq![member(name@, value@)]);
    braced_text(&members)
}


fn bytes_text(x: &Vec<u8>) -> (r: String)
    ensures
        r@ == bracketed(x@.map_values(|b: u8| decimal(b as nat))),
{
    let mut items: Vec<String> = Vec::new();
    let mut i: usize = 0;
    while i < x.len()
        invariant
            i <= x.len(),
            items.len() == i,
            forall|j: int| 0 <= j < i ==> (#[trigger] items@[j])@ == decimal(x@[j] as nat),
        decreases x.len() - i,
    {
        items.push(decimal_text(x[i] as u64));
        i = i + 1;
    }
    assert(texts_view(items@) =~= x@.map_values(|b: u8| decimal(b as nat)));
    bracketed_text(&items)
}

fn bools_text(x: &Vec<bool>) -> (r: String)
    ensures
        r@ == bracketed(x@.map_values(|b: bool| bool_text(b))),
{
    let mut items: Vec<String> = Vec::new();
    let mut i: usize = 0;
    while i < x.len()
        invariant
            i <= x.len(),
            items.len() == i,
            forall|j: int| 0 <= j < i ==> (#[trigger] items@[j])@ == bool_text(x@[j]),
        decreases x.len() - i,
    {
        items.push(bool_json(x[i]));
        i = i + 1;
    }
    assert(texts_view(items@) =~= x@.map_values(|b: bool| bool_text(b)));
    bracketed_text(&items)
}

fn i32s_text(x: &Vec<i32>) -> (r: String)
    ensures
        r@ == bracketed(x@.map_values(|n: i32| signed_decimal(n as int))),
{
    let mut items: Vec<String> = Vec::new();
    let mut i: usize = 0;
    while i < x.len()
        invariant
            i <= x.len(),
            items.len() == i,
            forall|j: int| 0 <= j < i ==> (#[trigger] items@[j])@ == signed_decimal(x@[j] as int),
        decreases x.len() - i,
    {
        items.push(signed_decimal_text(x[i] as i64));
        i = i + 1;
    }
    assert(texts_view(items@) =~= x@.map_values(|n: i32| signed_decimal(n as int)));
    bracketed_text(&items)
}

fn u32s_text(x: &Vec<u32>) -> (r: String)
    ensures
        r@ == bracketed(x@.map_values(|n: u32| decimal(n as nat))),
{
    let mut items: Vec<String> = Vec::new();
    let mut i: usize = 0;
    while i < x.len()
        invariant
            i <= x.len(),
            items.len() == i,
            forall|j: int| 0 <= j < i ==> (#[trigger] items@[j])@ == decimal(x@[j] as nat),
        decreases x.len() - i,
    {
        items.push(decimal_text(x[i] as u64));
        i = i + 1;
    }
    assert(texts_view(items@) =~= x@.map_values(|n: u32| decimal(n as nat)));
    bracketed_text(&items)
}

fn i64s_text(x: &Vec<i64>) -> (r: String)
    ensures
        r@ == bracketed(x@.map_values(|n: i64| signed_decimal(n as int))),
{
    let mut items: Vec<String> = Vec::new();
    let mut i: usize = 0;
    while i < x.len()
        invariant
            i <= x.len(),
            items.len() == i,
            forall|j: int| 0 <= j < i ==> (#[trigger] items@[j])@ == signed_decimal(x@[j] as int),
        decreases x.len() - i,
    {
        items.push(signed_decimal_text(x[i]));
        i = i + 1;
    }
    assert(texts_view(items@) =~= x@.map_values(|n: i64| signed_decimal(n as int)));
    bracketed_text(&items)
}

fn u64s_text(x: &Vec<u64>) -> (r: String)
    ensures
        r@ == bracketed(x@.map_values(|n: u64| decimal(n as nat))),
{
    let mut items: Vec<String> = Vec::new();
    let mut i: usize = 0;
    while i < x.len()
        invariant
            i <= x.len(),
            items.len() == i,
            forall|j: int| 0 <= j < i ==> (#[trigger] items@[j])@ == decimal(x@[j] as nat),
        decreases x.len() - i,
    {
        items.push(decimal_text(x[i]));
        i = i + 1;
    }
    assert(texts_view(items@) =~= x@.map_values(|n: u64| decimal(n as nat)));
    bracketed_text(&items)
}

fn singles_text(x: &Vec<crate::float::Single>) -> (r: String)
    ensures
        r@ == bracketed(x@.map_values(|n: crate::float::Single| single_json(n.bits))),
{
    let mut items: Vec<String> = Vec::new();
    let mut i: usize = 0;
    while i < x.len()
        invariant
            i <= x.len(),
            items.len() == i,
            forall|j: int| 0 <= j < i ==> (#[trigger] items@[j])@ == single_json(x@[j].bits),
        decreases x.len() - i,
    {
        items.push(single_json_text(x[i].bits));
        i = i + 1;
    }
    assert(texts_view(items@) =~= x@.map_values(|n: crate::float::Single| single_json(n.bits)));
    bracketed_text(&items)
}

fn doubles_text(x: &Vec<crate::float::Double>) -> (r: String)
    ensures
        r@ == bracketed(x@.map_values(|n: crate::float::Double| double_json(n.bits))),
{
    let mut items: Vec<String> = Vec::new();
    let mut i: usize = 0;
    while i < x.len()
        invariant
            i <= x.len(),
            items.len() == i,
            forall|j: int| 0 <= j < i ==> (#[trigger] items@[j])@ == double_json(x@[j].bits),
        decreases x.len() - i,
    {
        items.push(double_json_text(x[i].bits));
        i = i + 1;
    }
    assert(texts_view(items@) =~= x@.map_values(|n: crate::float::Double| double_json(n.bits)));
    bracketed_text(&items)
}

fn texts_text(x: &Vec<String>) -> (r: String)
    ensures
        r@ == bracketed(texts_view(x@).map_values(|s: Seq<char>| json_quoted(s))),
{
    let mut items: Vec<String> = Vec::new();
    let mut i: usize = 0;
    while i < x.len()
        invariant
            i <= x.len(),
            items.len() == i,
            forall|j: int| 0 <= j < i ==> (#[trigger] items@[j])@ == json_quoted(x@[j]@),
        decreases x.len() - i,
    {
        items.push(quoted(x[i].as_str()));
        i = i + 1;
    }
    assert(texts_view(items@) =~= texts_view(x@).map_values(|s: Seq<char>| json_quoted(s)));
    bracketed_text(&items)
}

impl TypedValue {
    /// The value as JSON: an object with one member, named after the variant.
    pub fn json_text(&self) -> (r: String)
        ensures
            r@ == value_text(self@),
    {
        match self {
            TypedValue::Bool(x) => tagged_text("Bool", bool_json(*x).as_str()),
            TypedValue::I32(x) => tagged_text("I32", signed_decimal_text(*x as i64).as_str()),
            TypedValue::U32(x) => tagged_text("U32", decimal_text(*x as u64).as_str()),
            TypedValue::I64(x) => tagged_text("I64", signed_decimal_text(*x).as_str()),
            TypedValue::U64(x) => tagged_text("U64", decimal_text(*x).as_str()),
            TypedValue::F32(x) => tagged_text("F32", single_json_text(x.bits).as_str()),
            TypedValue::F64(x) => tagged_text("F64", double_json_text(x.bits).as_str()),
            TypedValue::String(x) => tagged_text("String", quoted(x.as_str()).as_str()),
            TypedValue::Bytes(x) => tagged_text("Bytes", bytes_text(x).as_str()),
            TypedValue::DateTime(x) => tagged_text("DateTime", signed_decimal_text(*x).as_str()),
            TypedValue::BoolArray(x) => tagged_text("BoolArray", bools_text(x).as_str()),
            TypedValue::I32Array(x) => tagged_text("I32Array", i32s_text(x).as_str()),
            TypedValue::U32Array(x) => tagged_text("U32Array", u32s_text(x).as_str()),
            TypedValue::I64Array(x) => tagged_text("I64Array", i64s_text(x).as_str()),
            TypedValue::U64Array(x) => tagged_text("U64Array", u64s_text(x).as_str()),
            TypedValue::F32Array(x) => tagged_text("F32Array", singles_text(x).as_str()),
            TypedValue::F64Array(x) => tagged_text("F64Array", doubles_text(x).as_str()),
            TypedValue::StringArray(x) => tagged_text("StringArray", texts_text(x).as_str()),
            TypedValue::DateTimeArray(x) => tagged_text("DateTimeArray", i64s_text(x).as_str()),
        }
    }
}

/// A truth value that is left out where it is not said.
pub open spec fn bool_member(name: Seq<char>, v: Option<bool>) -> Seq<Seq<char>> {
    match v {
        Some(b) => seq![member(name, bool_text(b))],
        None => Seq::empty(),
    }
}

/// The members of a condition.
pub open spec fn condition_members(c: ConditionV) -> Seq<Seq<char>> {
    seq![
        member("condition_id"@, json_quoted(c.condition_id)),
        member("transition"@, json_quoted(transition_name(c.transition))),
    ] + bool_member("active"@, c.active) + bool_member("acknowledged"@, c.acknowledged)
        + bool_member("confirmed"@, c.confirmed) + bool_member("retain"@, c.retain)
}

/// The members that the attributes are.
pub open spec fn attribute_members(a: Seq<(Seq<char>, ValueV)>) -> Seq<Seq<char>> {
    a.map_values(|e: (Seq<char>, ValueV)| member(e.0, value_text(e.1)))
}

/// The members of a record.
pub open spec fn record_members(r: RecordV) -> Seq<Seq<char>> {
    seq![
        member("event_id"@, json_quoted(r.event_id)),
        member("category"@, json_quoted(r.category)),
        member("kind"@, json_quoted(r.kind)),
        member("source"@, json_quoted(r.source)),
        member("severity"@, decimal(r.severity as nat)),
    ] + text_member("code"@, r.code) + text_member("message"@, r.message) + text_member(
        "message_locale"@,
        r.message_locale,
    ) + (match r.occurred_at_ns {
        Some(t) => seq![member("occurred_at_ns"@, signed_decimal(t as int))],
        None => Seq::empty(),
    }) + (match r.condition {
        Some(c) => seq![member("condition"@, braced(condition_members(c)))],
        None => Seq::empty(),
    }) + text_member("correlation_id"@, r.correlation_id) + seq![
        member("attributes"@, braced(attribute_members(r.attributes))),
    ]
}

/// A record as JSON.
pub open spec fn record_text(r: RecordV) -> Seq<char> {
    braced(record_members(r))
}

fn push_bool(members: &mut Vec<String>, name: &str, v: Option<bool>)
    ensures
        texts_view(final(members)@) == texts_view(old(members)@) + bool_member(name@, v),
{
    match v {
        Some(b) => {
            let t: String = bool_json(b);
            members.push(member_text(name, t.as_str()));
        },
        None => {},
    }
    assert(texts_view(members@) =~= texts_view(old(members)@) + bool_member(name@, v));
}

impl EventCondition {
    fn json_text(&self) -> (r: String)
        ensures
            r@ == braced(condition_members(self@)),
    {
        let mut m: Vec<String> = Vec::new();
        push_member(&mut m, "condition_id", quoted(self.condition_id.as_str()).as_str());
        push_member(&mut m, "transition", quoted(self.transition.name()).as_str());
        assert(texts_view(m@) =~= seq![
            member("condition_id"@, json_quoted(self.condition_id@)),
            member("transition"@, json_quoted(transition_name(self.transition))),
        ]);
        push_bool(&mut m, "active", self.active);
        push_bool(&mut m, "acknowledged", self.acknowledged);
        push_bool(&mut m, "confirmed", self.confirmed);
        push_bool(&mut m, "retain", self.retain);
        braced_text(&m)
    }
}

impl EventRecord {
    /// The record as JSON.
    pub fn json_text(&self) -> (r: String)
        ensures
            r@ == record_text(self@),
    {
        let mut m: Vec<String> = Vec::new();
        push_member(&mut m, "event_id", quoted(self.event_id.as_str()).as_str());
        push_member(&mut m, "category", quoted(self.category.as_str()).as_str());
        push_member(&mut m, "kind", quoted(self.kind.as_str()).as_str());
        push_member(&mut m, "source", quoted(self.source.as_str()).as_str());
        push_member(&mut m, "severity", decimal_text(self.severity as u64).as_str());
        assert(texts_view(m@) =~= seq![
            member("event_id"@, json_quoted(self.event_id@)),
            member("category"@, json_quoted(self.category@)),
            member("kind"@, json_quoted(self.kind@)),
            member("source"@, json_quoted(self.source@)),
            member("severity"@, decimal(self.severity as nat)),
        ]);
        push_text(&mut m, "code", &self.code);
        push_text(&mut m, "message", &self.message);
        push_text(&mut m, "message_locale", &self.message_locale);
        match self.occurred_at_ns {
            Some(t) => {
                push_member(&mut m, "occurred_at_ns", signed_decimal_text(t).as_str());
            },
            None => {
                assert(texts_view(m@) =~= texts_view(m@) + Seq::<Seq<char>>::empty());
            },
        }
        match &self.condition {
            Some(c) => {
                push_member(&mut m, "condition", c.json_text().as_str());
            },
            None => {
                assert(texts_view(m@) =~= texts_view(m@) + Seq::<Seq<char>>::empty());
            },
        }
        push_text(&mut m, "correlation_id", &self.correlation_id);
        let mut a: Vec<String> = Vec::new();
        let mut i: usize = 0;
        while i < self.attributes.len()
            invariant
                i <= self.attributes.len(),
                a.len() == i,
                forall|j: int|
                    0 <= j < i ==> (#[trigger] a@[j])@ == member(
                        self.attributes@[j].0@,
                        value_text(self.attributes@[j].1@),
                    ),
            decreases self.attributes.len() - i,
        {
            let v: String = self.attributes[i].1.json_text();
            a.push(member_text(self.attributes[i].0.as_str(), v.as_str()));
            i = i + 1;
        }
        assert(texts_view(a@) =~= attribute_members(self@.attributes));
        push_member(&mut m, "attributes", braced_text(&a).as_str());
        braced_text(&m)
    }
}

// ---------------------------------------------------------------------------
// Whether a record is accepted
// ---------------------------------------------------------------------------

/// Why a record is refused.
pub enum RecordFault {
    Invalid(Seq<char>),
    TooLarge(Seq<char>),
}

/// The bytes of a text that may be missing.
pub open spec fn optional_length(s: Option<Seq<char>>) -> nat {
    match s {
        Some(x) => byte_length(x),
        None => 0,
    }
}

/// The first reason to refuse a record, its length as JSON aside.
pub open spec fn record_shape_fault(r: RecordV) -> Option<RecordFault> {
    if blank(r.event_id) {
        Some(RecordFault::Invalid("event_id 不能为空"@))
    } else if byte_length(r.event_id) > 256 {
        Some(RecordFault::TooLarge("event_id 超过 256 bytes"@))
    } else if byte_length(r.category) > 128 {
        Some(RecordFault::TooLarge("category 超过 128 bytes"@))
    } else if byte_length(r.kind) > 128 {
        Some(RecordFault::TooLarge("kind 超过 128 bytes"@))
    } else if optional_length(r.code) > 128 {
        Some(RecordFault::TooLarge("code 超过 128 bytes"@))
    } else if blank(r.category) || blank(r.kind) {
        Some(RecordFault::Invalid("category/kind 不能为空"@))
    } else if byte_length(r.source) > 512 {
        Some(RecordFault::TooLarge("source 超过 512 bytes"@))
    } else if optional_length(r.message) > 4096 {
        Some(RecordFault::TooLarge("message 超过 4096 bytes"@))
    } else if r.severity > EVENT_SEVERITY_MAX {
        Some(
            RecordFault::Invalid("severity "@ + decimal(r.severity as nat) + " 超出 0..=1000"@),
        )
    } else if r.attributes.len() > EVENT_ATTRIBUTES_MAX_FIELDS {
        Some(RecordFault::TooLarge("attributes 超过 64 fields"@))
    } else if exists|i: int|
        0 <= i < r.attributes.len() && byte_length((#[trigger] r.attributes[i]).0) > 128 {
        Some(RecordFault::TooLarge("attribute key 超过 128 bytes"@))
    } else if r.condition is Some && blank(r.condition->0.condition_id) {
        Some(RecordFault::Invalid("condition_id 不能为空"@))
    } else {
        None
    }
}

/// The first reason to refuse a record.
pub open spec fn record_fault(r: RecordV) -> Option<RecordFault> {
    match record_shape_fault(r) {
        Some(f) => Some(f),
        None => if byte_length(record_text(r)) > EVENT_RECORD_MAX_BYTES {
            Some(
                RecordFault::TooLarge(
                    "record 序列化 "@ + decimal(byte_length(record_text(r)))
                        + " > 16384 bytes"@,
                ),
            )
        } else {
            None
        },
    }
}

impl View for EventRecordError {
    type V = RecordFault;

    open spec fn view(&self) -> RecordFault {
        match self {
            EventRecordError::Invalid(m) => RecordFault::Invalid(m@),
            EventRecordError::TooLarge(m) => RecordFault::TooLarge(m@),
        }
    }
}

/// How the refusal of a record reads.
pub open spec fn record_fault_text(f: RecordFault) -> Seq<char> {
    match f {
        RecordFault::Invalid(m) => "EVENT_RECORD_INVALID: "@ + m,
        RecordFault::TooLarge(m) => "EVENT_RECORD_TOO_LARGE: "@ + m,
    }
}

impl EventRecordError {
    pub fn message(&self) -> (r: String)
        ensures
            r@ == record_fault_text(self@),
    {
        match self {
            EventRecordError::Invalid(m) => cat2("EVENT_RECORD_INVALID: ", m.as_str()),
            EventRecordError::TooLarge(m) => cat2("EVENT_RECORD_TOO_LARGE: ", m.as_str()),
        }
    }
}

fn invalid(m: &str) -> (r: Result<(), EventRecordError>)
    ensures
        r matches Err(e) && e@ == RecordFault::Invalid(m@),
{
    Err(EventRecordError::Invalid(m.to_owned()))
}

fn too_large(m: &str) -> (r: Result<(), EventRecordError>)
    ensures
        r matches Err(e) && e@ == RecordFault::TooLarge(m@),
{
    Err(EventRecordError::TooLarge(m.to_owned()))
}

fn optional_len(s: &Option<String>) -> (n: usize)
    ensures
        n == optional_length(maybe_text(*s)),
{
    match s {
        Some(x) => byte_len(x.as_str()),
        None => 0,
    }
}

impl EventRecord {
    /// Whether the record is accepted; else the first reason to refuse it. Nothing is cut short.
    pub fn validate(&self) -> (r: Result<(), EventRecordError>)
        ensures
            match r {
                Ok(()) => record_fault(self@) is None,
                Err(e) => record_fault(self@) == Some(e@),
            },
    {
        if is_blank(self.event_id.as_str()) {
            return invalid("event_id 不能为空");
        }
        if byte_len(self.event_id.as_str()) > 256 {
            return too_large("event_id 超过 256 bytes");
        }
        if byte_len(self.category.as_str()) > 128 {
            return too_large("category 超过 128 bytes");
        }
        if byte_len(self.kind.as_str()) > 128 {
            return too_large("kind 超过 128 bytes");
        }
        if optional_len(&self.code) > 128 {
            return too_large("code 超过 128 bytes");
        }
        if is_blank(self.category.as_str()) || is_blank(self.kind.as_str()) {
            return invalid("category/kind 不能为空");
        }
        if byte_len(self.source.as_str()) > 512 {
            return too_large("source 超过 512 bytes");
        }
        if optional_len(&self.message) > 4096 {
            return too_large("message 超过 4096 bytes");
        }
        if self.severity > EVENT_SEVERITY_MAX {
            let n: String = decimal_text(self.severity as u64);
            return invalid(cat3("severity ", n.as_str(), " 超出 0..=1000").as_str());
        }
        if self.attributes.len() > EVENT_ATTRIBUTES_MAX_FIELDS {
            return too_large("attributes 超过 64 fields");
        }
        let mut i: usize = 0;
        while i < self.attributes.len()
            invariant
                i <= self.attributes.len(),
                forall|j: int|
                    0 <= j < i ==> byte_length((#[trigger] self.attributes@[j]).0@) <= 128,
                !blank(self.event_id@),
                byte_length(self.event_id@) <= 256,
                byte_length(self.category@) <= 128,
                byte_length(self.kind@) <= 128,
                optional_length(self@.code) <= 128,
                !blank(self.category@),
                !blank(self.kind@),
                byte_length(self.source@) <= 512,
                optional_length(self@.message) <= 4096,
                self.severity <= EVENT_SEVERITY_MAX,
                self.attributes@.len() <= EVENT_ATTRIBUTES_MAX_FIELDS,
            decreases self.attributes.len() - i,
        {
            if byte_len(self.attributes[i].0.as_str()) > 128 {
                assert(byte_length(self@.attributes[i as int].0) > 128);
                return too_large("attribute key 超过 128 bytes");
            }
            i = i + 1;
        }
        assert forall|j: int| 0 <= j < self@.attributes.len() implies byte_length(
            (#[trigger] self@.attributes[j]).0,
        ) <= 128 by {
            assert(byte_length(self.attributes@[j].0@) <= 128);
        }
        match &self.condition {
            Some(c) => {
                if is_blank(c.condition_id.as_str()) {
                    return invalid("condition_id 不能为空");
                }
            },
            None => {},
        }
        assert(record_shape_fault(self@) is None);
        let text: String = self.json_text();
        let n: usize = byte_len(text.as_str());
        if n > EVENT_RECORD_MAX_BYTES {
            let size: String = decimal_text(n as u64);
            return too_large(cat3("record 序列化 ", size.as_str(), " > 16384 bytes").as_str());
        }
        Ok(())
    }
}

// ---------------------------------------------------------------------------
// Tasks
// ---------------------------------------------------------------------------

impl View for EventTask {
    type V = TaskV;

    open spec fn view(&self) -> TaskV {
        TaskV {
            id: self.id@,
            mode: self.mode,
            interval_ms: self.interval_ms,
            kind: self.binding.kind@,
            config: self.binding.config@,
        }
    }
}

/// How the complaint about an event task reads.
pub open spec fn event_task_fault_text(f: TaskFault, id: Seq<char>) -> Seq<char> {
    match f {
        TaskFault::EmptyTaskId => "event task id 不能为空"@,
        TaskFault::PollRequiresInterval => "Poll 事件任务 `"@ + id
            + "` 必须提供正整数 interval_ms"@,
    }
}

impl EventTaskError {
    /// What the error says, of which task.
    pub open spec fn says(self, f: TaskFault, id: Seq<char>) -> bool {
        match self {
            EventTaskError::EmptyTaskId => f is EmptyTaskId,
            EventTaskError::PollRequiresInterval { task } => f is PollRequiresInterval && task@
                == id,
        }
    }

    pub fn message(&self) -> (r: String)
        ensures
            forall|f: TaskFault, id: Seq<char>| #[trigger]
                self.says(f, id) ==> r@ == event_task_fault_text(f, id),
    {
        match self {
            EventTaskError::EmptyTaskId => "event task id 不能为空".to_owned(),
            EventTaskError::PollRequiresInterval { task } => cat3(
                "Poll 事件任务 `",
                task.as_str(),
                "` 必须提供正整数 interval_ms",
            ),
        }
    }
}

impl EventTask {
    pub fn validate(&self) -> (r: Result<(), EventTaskError>)
        ensures
            match r {
                Ok(()) => task_fault(self@) is None,
                Err(e) => task_fault(self@) is Some && e.says(task_fault(self@)->0, self@.id),
            },
    {
        if is_blank(self.id.as_str()) {
            return Err(EventTaskError::EmptyTaskId);
        }
        let interval: u64 = match self.interval_ms {
            Some(n) => n,
            None => 0,
        };
        if self.mode == TaskMode::Poll && interval == 0 {
            return Err(EventTaskError::PollRequiresInterval { task: self.id.clone() });
        }
        Ok(())
    }

    /// An equal task.
    pub fn copy(&self) -> (r: EventTask)
        ensures
            r@ == self@,
    {
        EventTask {
            id: self.id.clone(),
            mode: self.mode,
            interval_ms: self.interval_ms,
            binding: DriverBinding {
                kind: self.binding.kind.clone(),
                config: self.binding.config.copy(),
            },
        }
    }
}

// ---------------------------------------------------------------------------
// Catalogue
// ---------------------------------------------------------------------------

impl Default for EventCatalog {
    fn default() -> (r: EventCatalog)
        ensures
            r.streams@ == Seq::<EventStreamDescriptor>::empty(),
    {
        EventCatalog { streams: Vec::new() }
    }
}

/// Whether one of the streams has an id.
pub open spec fn has_stream(streams: Seq<EventStreamDescriptor>, id: Seq<char>) -> bool {
    exists|i: int| 0 <= i < streams.len() && (#[trigger] streams[i]).id@ == id
}

/// Whether one of the fields has a key.
pub open spec fn has_event_field(fields: Seq<EventFieldDescriptor>, key: Seq<char>) -> bool {
    exists|i: int| 0 <= i < fields.len() && (#[trigger] fields[i]).key@ == key
}

/// The first thing that is wrong with the fields of a stream from `i` on.
pub open spec fn event_fields_defect(
    id: Seq<char>,
    fields: Seq<EventFieldDescriptor>,
    i: int,
) -> Option<Seq<char>>
    decreases fields.len() - i,
{
    if i >= fields.len() {
        None
    } else if blank(fields[i].key@) {
        Some("event stream "@ + id + " field key 不能为空"@)
    } else if has_event_field(fields.subrange(0, i), fields[i].key@) {
        Some("event stream "@ + id + " field key 重复: "@ + fields[i].key@)
    } else {
        event_fields_defect(id, fields, i + 1)
    }
}

/// The first thing that is wrong with the stream at `i`.
pub open spec fn stream_defect(streams: Seq<EventStreamDescriptor>, i: int) -> Option<Seq<char>> {
    if blank(streams[i].id@) {
        Some("event stream id 不能为空"@)
    } else if has_stream(streams.subrange(0, i), streams[i].id@) {
        Some("event stream id 重复: "@ + streams[i].id@)
    } else {
        first_of(
            definition_defect(streams[i].parameters.fields@),
            event_fields_defect(streams[i].id@, streams[i].fields@, 0),
        )
    }
}

/// The first thing that is wrong with the streams from `i` on.
pub open spec fn streams_defect(streams: Seq<EventStreamDescriptor>, i: int) -> Option<Seq<char>>
    decreases streams.len() - i,
{
    if i >= streams.len() {
        None
    } else {
        first_of(stream_defect(streams, i), streams_defect(streams, i + 1))
    }
}

impl EventStreamDescriptor {
    fn fields_fault(&self) -> (r: Option<String>)
        ensures
            maybe_text(r) == event_fields_defect(self.id@, self.fields@, 0),
    {
        let mut i: usize = 0;
        while i < self.fields.len()
            invariant
                i <= self.fields.len(),
                event_fields_defect(self.id@, self.fields@, 0) == event_fields_defect(
                    self.id@,
                    self.fields@,
                    i as int,
                ),
            decreases self.fields.len() - i,
        {
            let key: &str = self.fields[i].key.as_str();
            if is_blank(key) {
                return Some(cat3("event stream ", self.id.as_str(), " field key 不能为空"));
            }
            let ghost part = self.fields@.subrange(0, i as int);
            let mut j: usize = 0;
            while j < i
                invariant
                    j <= i < self.fields.len(),
                    key@ == self.fields@[i as int].key@,
                    !blank(key@),
                    part == self.fields@.subrange(0, i as int),
                    event_fields_defect(self.id@, self.fields@, 0) == event_fields_defect(
                        self.id@,
                        self.fields@,
                        i as int,
                    ),
                    forall|k: int| 0 <= k < j ==> (#[trigger] part[k]).key@ != key@,
                decreases i - j,
            {
                if same_text(self.fields[j].key.as_str(), key) {
                    assert(part[j as int].key@ == key@);
                    return Some(
                        cat4("event stream ", self.id.as_str(), " field key 重复: ", key),
                    );
                }
                j = j + 1;
            }
            i = i + 1;
        }
        None
    }
}

impl EventCatalog {
    /// Whether the catalogue makes sense; else the first thing that is wrong with it.
    pub fn validate(&self) -> (r: Result<(), String>)
        ensures
            match r {
                Ok(()) => streams_defect(self.streams@, 0) is None,
                Err(m) => streams_defect(self.streams@, 0) == Some(m@),
            },
    {
        let mut i: usize = 0;
        while i < self.streams.len()
            invariant
                i <= self.streams.len(),
                streams_defect(self.streams@, 0) == streams_defect(self.streams@, i as int),
            decreases self.streams.len() - i,
        {
            let s: &EventStreamDescriptor = &self.streams[i];
            if is_blank(s.id.as_str()) {
                return Err("event stream id 不能为空".to_owned());
            }
            let ghost part = self.streams@.subrange(0, i as int);
            let mut j: usize = 0;
            while j < i
                invariant
                    j <= i < self.streams.len(),
                    s == &self.streams@[i as int],
                    !blank(s.id@),
                    part == self.streams@.subrange(0, i as int),
                    streams_defect(self.streams@, 0) == streams_defect(self.streams@, i as int),
                    forall|k: int| 0 <= k < j ==> (#[trigger] part[k]).id@ != s.id@,
                decreases i - j,
            {
                if same_text(self.streams[j].id.as_str(), s.id.as_str()) {
                    assert(part[j as int].id@ == s.id@);
                    return Err(cat2("event stream id 重复: ", s.id.as_str()));
                }
                j = j + 1;
            }
            match s.parameters.validate_definition() {
                Ok(()) => {},
                Err(m) => {
                    return Err(m);
                },
            }
            match s.fields_fault() {
                Some(m) => {
                    return Err(m);
                },
                None => {},
            }
            i = i + 1;
        }
        Ok(())
    }
}

proof fn lemma_no_streams_defect(streams: Seq<EventStreamDescriptor>, i: int, k: int)
    requires
        streams_defect(streams, i) is None,
        i <= k < streams.len(),
    ensures
        stream_defect(streams, k) is None,
    decreases streams.len() - i,
{
    if i < k {
        lemma_no_streams_defect(streams, i + 1, k);
    }
}

/// In a catalogue that makes sense no two streams have the same id, none has a blank one, and the
/// parameters of each make sense.
pub proof fn sound_catalog_has_distinct_streams(
    streams: Seq<EventStreamDescriptor>,
    a: int,
    b: int,
)
    requires
        streams_defect(streams, 0) is None,
        0 <= a < streams.len(),
        0 <= b < streams.len(),
    ensures
        !blank(streams[a].id@),
        definition_defect(streams[a].parameters.fields@) is None,
        streams[a].id@ == streams[b].id@ ==> a == b,
{
    lemma_no_streams_defect(streams, 0, a);
    lemma_no_streams_defect(streams, 0, b);
    if a != b && streams[a].id@ == streams[b].id@ {
        let (x, y) = if a < b {
            (a, b)
        } else {
            (b, a)
        };
        let part = streams.subrange(0, y);
        assert(part[x].id@ == streams[y].id@);
        assert(has_stream(part, streams[y].id@));
    }
}

// ---------------------------------------------------------------------------
// The order of batches
// ---------------------------------------------------------------------------

/// What a sequence number says of a batch.
#[derive(Debug, Clone, Copy, PartialEq, Eq, Structural)]
pub enum SequenceVerdict {
    Accept,
    Gap { expected: u64, got: u64 },
    Duplicate,
    Regression,
}

/// The last batch that was seen of a stream: its epoch and its number.
#[derive(Debug, Clone, Copy, PartialEq, Eq)]
pub struct EventSequenceTracker {
    pub last: Option<(u64, u64)>,
}

/// The number of the last batch of an epoch; zero where there was none.
pub open spec fn last_of_epoch(last: Option<(u64, u64)>, epoch: u64) -> u64 {
    match last {
        Some(l) => if l.0 == epoch {
            l.1
        } else {
            0
        },
        None => 0,
    }
}

/// The numbers of an epoch go up from one, one at a time. A greater number leaves a gap, the last
/// one is a duplicate, a smaller one goes back.
pub open spec fn verdict(last: Option<(u64, u64)>, epoch: u64, sequence: u64) -> SequenceVerdict {
    let before = last_of_epoch(last, epoch);
    if sequence == before + 1 {
        SequenceVerdict::Accept
    } else if sequence > before {
        SequenceVerdict::Gap { expected: (before + 1) as u64, got: sequence }
    } else if last matches Some(l) && l.0 == epoch && l.1 == sequence {
        SequenceVerdict::Duplicate
    } else {
        SequenceVerdict::Regression
    }
}

impl EventSequenceTracker {
    pub fn new() -> (r: EventSequenceTracker)
        ensures
            r.last is None,
    {
        EventSequenceTracker { last: None }
    }

    /// The verdict on a batch. What is accepted, with a gap or without, is the last from then on.
    pub fn check(&mut self, epoch: u64, sequence: u64) -> (r: SequenceVerdict)
        ensures
            r == verdict(old(self).last, epoch, sequence),
            final(self).last == (if r is Accept || r is Gap {
                Some((epoch, sequence))
            } else {
                old(self).last
            }),
    {
        let before: u64 = match self.last {
            Some(l) => if l.0 == epoch {
                l.1
            } else {
                0
            },
            None => 0,
        };
        if sequence > before {
            self.last = Some((epoch, sequence));
            if sequence - 1 == before {
                return SequenceVerdict::Accept;
            }
            return SequenceVerdict::Gap { expected: before + 1, got: sequence };
        }
        match self.last {
            Some(l) => if l.0 == epoch && l.1 == sequence {
                return SequenceVerdict::Duplicate;
            },
            None => {},
        }
        SequenceVerdict::Regression
    }
}

/// Within an epoch an accepted batch has a greater number than the one before it, and the same
/// batch again is a duplicate.
pub proof fn accepted_numbers_go_up(last: Option<(u64, u64)>, epoch: u64, sequence: u64)
    requires
        verdict(last, epoch, sequence) is Accept || verdict(last, epoch, sequence) is Gap,
    ensures
        sequence > last_of_epoch(last, epoch),
        verdict(Some((epoch, sequence)), epoch, sequence) is Duplicate,
        forall|s: u64|
            s < sequence ==> #[trigger] verdict(Some((epoch, sequence)), epoch, s) is Regression,
{
}

/// The changes of a condition have their names.
pub proof fn transitions_have_their_names(t: ConditionTransition)
    ensures
        t is Raised ==> transition_name(t) == "raised"@,
        t is Updated ==> transition_name(t) == "updated"@,
        t is Acknowledged ==> transition_name(t) == "acknowledged"@,
        t is Confirmed ==> transition_name(t) == "confirmed"@,
        t is Cleared ==> transition_name(t) == "cleared"@,
{
}

/// A record has the right shape exactly where what it must name is not blank and nothing is longer
/// than it may be.
pub proof fn records_have_the_right_shape_when_nothing_is_too_long(r: RecordV)
    ensures
        record_shape_fault(r) is None <==> (!blank(r.event_id) && byte_length(r.event_id) <= 256
            && !blank(r.category) && byte_length(r.category) <= 128 && !blank(r.kind)
            && byte_length(r.kind) <= 128 && (r.code is Some ==> byte_length(r.code->0) <= 128)
            && byte_length(r.source) <= 512 && (r.message is Some ==> byte_length(r.message->0)
            <= 4096) && r.severity <= 1000 && r.attributes.len() <= 64 && (forall|i: int|
            0 <= i < r.attributes.len() ==> byte_length((#[trigger] r.attributes[i]).0) <= 128) && (
        r.condition is Some ==> !blank(r.condition->0.condition_id))),
{
}

/// A record makes sense exactly where it has the right shape and its text has no more than 16384
/// bytes.
pub proof fn records_make_sense_when_they_are_short(r: RecordV)
    ensures
        record_fault(r) is None <==> record_shape_fault(r) is None && byte_length(record_text(r))
            <= 16384,
        record_shape_fault(r) is None && byte_length(record_text(r)) > 16384 ==> (record_fault(
            r,
        ) matches Some(f) && f is TooLarge),
{
}

/// The number of a batch is the next exactly where it is one more than the last of its epoch; a
/// higher one leaves a gap, the same one again is there already, and a lower one goes back.
pub proof fn batches_are_held_against_the_last_of_their_epoch(
    last: Option<(u64, u64)>,
    epoch: u64,
    sequence: u64,
)
    ensures
        ({
            let before: int = if last is Some && last->Some_0.0 == epoch {
                last->Some_0.1 as int
            } else {
                0
            };
            let seen = last is Some && last->Some_0.0 == epoch;
            &&& verdict(last, epoch, sequence) is Accept <==> sequence == before + 1
            &&& verdict(last, epoch, sequence) is Gap <==> sequence > before + 1
            &&& verdict(last, epoch, sequence) is Duplicate <==> seen && sequence == before
            &&& verdict(last, epoch, sequence) is Regression <==> sequence <= before && !(seen
                && sequence == before)
            &&& verdict(last, epoch, sequence) matches SequenceVerdict::Gap { expected, got }
                ==> expected == before + 1 && got == sequence
        }),
{
}

/// Whether a field of an event has a key of its own among those before it.
pub open spec fn event_field_is_new(fields: Seq<EventFieldDescriptor>, j: int) -> bool {
    !blank(fields[j].key@) && forall|k: int| 0 <= k < j ==> (#[trigger] fields[k]).key@
        != fields[j].key@
}

proof fn lemma_event_fields(id: Seq<char>, fields: Seq<EventFieldDescriptor>, i: int)
    requires
        0 <= i <= fields.len(),
    ensures
        event_fields_defect(id, fields, i) is None <==> forall|j: int|
            i <= j < fields.len() ==> #[trigger] event_field_is_new(fields, j),
    decreases fields.len() - i,
{
    if i < fields.len() {
        lemma_event_fields(id, fields, i + 1);
        let part = fields.subrange(0, i);
        assert(has_event_field(part, fields[i].key@) <==> exists|k: int|
            0 <= k < i && (#[trigger] fields[k]).key@ == fields[i].key@) by {
            if has_event_field(part, fields[i].key@) {
                let k = choose|k: int|
                    0 <= k < part.len() && (#[trigger] part[k]).key@ == fields[i].key@;
                assert(fields[k].key@ == fields[i].key@);
            }
            if exists|k: int| 0 <= k < i && (#[trigger] fields[k]).key@ == fields[i].key@ {
                let k = choose|k: int|
                    0 <= k < i && (#[trigger] fields[k]).key@ == fields[i].key@;
                assert(part[k].key@ == fields[i].key@);
            }
        }
        assert(event_field_is_new(fields, i) <==> !blank(fields[i].key@) && !has_event_field(
            part,
            fields[i].key@,
        ));
        if event_fields_defect(id, fields, i) is None {
            assert forall|j: int| i <= j < fields.len() implies #[trigger] event_field_is_new(
                fields,
                j,
            ) by {}
        }
        if forall|j: int| i <= j < fields.len() ==> #[trigger] event_field_is_new(fields, j) {
            assert(event_field_is_new(fields, i));
        }
    }
}

/// A stream of events makes sense exactly where it has an id of its own, parameters that make
/// sense, and fields with keys of their own.
pub proof fn streams_make_sense_when_their_parts_do(streams: Seq<EventStreamDescriptor>, i: int)
    requires
        0 <= i < streams.len(),
    ensures
        stream_defect(streams, i) is None <==> (!blank(streams[i].id@) && (forall|k: int|
            0 <= k < i ==> (#[trigger] streams[k]).id@ != streams[i].id@) && definition_defect(
            streams[i].parameters.fields@,
        ) is None && (forall|j: int|
            0 <= j < streams[i].fields@.len() ==> #[trigger] event_field_is_new(
                streams[i].fields@,
                j,
            ))),
{
    lemma_event_fields(streams[i].id@, streams[i].fields@, 0);
    let part = streams.subrange(0, i);
    let fresh = forall|k: int| 0 <= k < i ==> (#[trigger] streams[k]).id@ != streams[i].id@;
    assert(fresh <==> !has_stream(part, streams[i].id@)) by {
        if has_stream(part, streams[i].id@) {
            let k = choose|k: int|
                0 <= k < part.len() && (#[trigger] part[k]).id@ == streams[i].id@;
            assert(streams[k].id@ == streams[i].id@);
        }
        if !fresh {
            let k = choose|k: int| 0 <= k < i && (#[trigger] streams[k]).id@ == streams[i].id@;
            assert(part[k].id@ == streams[i].id@);
        }
    }
    let keys = forall|j: int|
        0 <= j < streams[i].fields@.len() ==> #[trigger] event_field_is_new(streams[i].fields@, j);
    assert(keys <==> event_fields_defect(streams[i].id@, streams[i].fields@, 0) is None);
}

/// Streams make sense exactly where each does.
pub proof fn all_streams_make_sense_when_each_does(streams: Seq<EventStreamDescriptor>, i: int)
    requires
        0 <= i <= streams.len(),
    ensures
        streams_defect(streams, i) is None <==> forall|j: int|
            i <= j < streams.len() ==> #[trigger] stream_defect(streams, j) is None,
    decreases streams.len() - i,
{
    if i < streams.len() {
        all_streams_make_sense_when_each_does(streams, i + 1);
    }
}

/// A value is written under the name of its kind.
pub proof fn values_are_written_under_their_kind(
    b: bool,
    i: i32,
    u: u32,
    l: i64,
    m: u64,
    s: Seq<char>,
)
    ensures
        value_text(ValueV::Bool(b)) == braced(seq![member("Bool"@, bool_text(b))]),
        value_text(ValueV::I32(i)) == braced(seq![member("I32"@, signed_decimal(i as int))]),
        value_text(ValueV::U32(u)) == braced(seq![member("U32"@, decimal(u as nat))]),
        value_text(ValueV::I64(l)) == braced(seq![member("I64"@, signed_decimal(l as int))]),
        value_text(ValueV::U64(m)) == braced(seq![member("U64"@, decimal(m as nat))]),
        value_text(ValueV::String(s)) == braced(seq![member("String"@, json_quoted(s))]),
        value_text(ValueV::DateTime(l)) == braced(
            seq![member("DateTime"@, signed_decimal(l as int))],
        ),
{
}

/// A record is written field by field; what is not known is left out.
pub proof fn records_are_written_field_by_field(r: RecordV)
    ensures
        ({
            let m = record_members(r);
            &&& m.len() >= 6
            &&& m[0] == member("event_id"@, json_quoted(r.event_id))
            &&& m[1] == member("category"@, json_quoted(r.category))
            &&& m[2] == member("kind"@, json_quoted(r.kind))
            &&& m[3] == member("source"@, json_quoted(r.source))
            &&& m[4] == member("severity"@, decimal(r.severity as nat))
            &&& m.last() == member("attributes"@, braced(attribute_members(r.attributes)))
            &&& r.code is Some ==> m[5] == member("code"@, json_quoted(r.code->0))
        }),
        record_text(r) == braced(record_members(r)),
{
}

/// How a record or a task for events that makes no sense is told.
pub proof fn bad_records_are_told(m: Seq<char>, id: Seq<char>)
    ensures
        record_fault_text(RecordFault::Invalid(m)) == "EVENT_RECORD_INVALID: "@ + m,
        record_fault_text(RecordFault::TooLarge(m)) == "EVENT_RECORD_TOO_LARGE: "@ + m,
        event_task_fault_text(TaskFault::EmptyTaskId, id) == "event task id 不能为空"@,
        event_task_fault_text(TaskFault::PollRequiresInterval, id) == "Poll 事件任务 `"@ + id
            + "` 必须提供正整数 interval_ms"@,
{
}

/// A condition is written field by field; what is not known is left out.
pub proof fn conditions_are_written_field_by_field(c: ConditionV)
    ensures
        ({
            let m = condition_members(c);
            &&& m.len() >= 2
            &&& m[0] == member("condition_id"@, json_quoted(c.condition_id))
            &&& m[1] == member("transition"@, json_quoted(transition_name(c.transition)))
            &&& c.active is Some ==> m[2] == member("active"@, bool_text(c.active->0))
            &&& c.retain is Some ==> m.last() == member("retain"@, bool_text(c.retain->0))
        }),
{
}

/// How large a record and a batch may be, how many attributes it may have, and how severe it may be.
pub proof fn events_keep_to_these_limits()
    ensures
        EVENT_RECORD_MAX_BYTES == 16384,
        EVENT_BATCH_MAX_BYTES == 262144,
        EVENT_ATTRIBUTES_MAX_FIELDS == 64,
        EVENT_SEVERITY_MAX == 1000,
{
}

/// A list of values is written item by item, under the name of its kind.
pub proof fn lists_are_written_item_by_item(
    x: Seq<u8>,
    b: Seq<bool>,
    i: Seq<i32>,
    u: Seq<u32>,
    l: Seq<i64>,
    m: Seq<u64>,
    s: Seq<Seq<char>>,
    f: Single,
    d: Double,
)
    ensures
        value_text(ValueV::F32(f)) == braced(seq![member("F32"@, single_json(f.bits))]),
        value_text(ValueV::F64(d)) == braced(seq![member("F64"@, double_json(d.bits))]),
        value_text(ValueV::Bytes(x)) == braced(
            seq![member("Bytes"@, bracketed(x.map_values(|n: u8| decimal(n as nat))))],
        ),
        value_text(ValueV::BoolArray(b)) == braced(
            seq![member("BoolArray"@, bracketed(b.map_values(|n: bool| bool_text(n))))],
        ),
        value_text(ValueV::I32Array(i)) == braced(
            seq![member("I32Array"@, bracketed(i.map_values(|n: i32| signed_decimal(n as int))))],
        ),
        value_text(ValueV::U32Array(u)) == braced(
            seq![member("U32Array"@, bracketed(u.map_values(|n: u32| decimal(n as nat))))],
        ),
        value_text(ValueV::I64Array(l)) == braced(
            seq![member("I64Array"@, bracketed(l.map_values(|n: i64| signed_decimal(n as int))))],
        ),
        value_text(ValueV::U64Array(m)) == braced(
            seq![member("U64Array"@, bracketed(m.map_values(|n: u64| decimal(n as nat))))],
        ),
        value_text(ValueV::DateTimeArray(l)) == braced(
            seq![
                member("DateTimeArray"@, bracketed(l.map_values(|n: i64| signed_decimal(n as int)))),
            ],
        ),
        value_text(ValueV::StringArray(s)) == braced(
            seq![member("StringArray"@, bracketed(s.map_values(|n: Seq<char>| json_quoted(n))))],
        ),
{
}

} // verus!
