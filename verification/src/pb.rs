//! The messages that go to and come from a driver, field by field.
use vstd::prelude::*;

use crate::float::{Double, Single};
use crate::schema::maybe_text;
use crate::text::texts_view;
use crate::types::{TimestampNs, ValueV};

verus! {

/// The origin of a sample that says nothing of it.
pub const ORIGIN_UNSPECIFIED: i32 = 0;

/// The origin of a sample that was just read.
pub const ORIGIN_CURRENT: i32 = 1;

/// The origin of a sample that was read before.
pub const ORIGIN_LAST_KNOWN: i32 = 2;

/// The origin of a sample that stands for one that could not be read.
pub const ORIGIN_PLACEHOLDER: i32 = 3;

#[derive(Debug, Clone, PartialEq)]
pub enum ValueKind {
    BoolV(bool),
    I32V(i32),
    U32V(u32),
    I64V(i64),
    U64V(u64),
    F32V(Single),
    F64V(Double),
    StringV(String),
    BytesV(Vec<u8>),
    DatetimeNsV(i64),
    BoolArrayV(Vec<bool>),
    I32ArrayV(Vec<i32>),
    U32ArrayV(Vec<u32>),
    I64ArrayV(Vec<i64>),
    U64ArrayV(Vec<u64>),
    F32ArrayV(Vec<Single>),
    F64ArrayV(Vec<Double>),
    StringArrayV(Vec<String>),
    DatetimeArrayV(Vec<i64>),
}

#[derive(Debug, Clone, PartialEq)]
pub struct ValueMsg {
    pub kind: Option<ValueKind>,
}

impl View for ValueKind {
    type V = ValueV;

    open spec fn view(&self) -> ValueV {
        match self {
            ValueKind::BoolV(x) => ValueV::Bool(*x),
            ValueKind::I32V(x) => ValueV::I32(*x),
            ValueKind::U32V(x) => ValueV::U32(*x),
            ValueKind::I64V(x) => ValueV::I64(*x),
            ValueKind::U64V(x) => ValueV::U64(*x),
            ValueKind::F32V(x) => ValueV::F32(*x),
            ValueKind::F64V(x) => ValueV::F64(*x),
            ValueKind::StringV(x) => ValueV::String(x@),
            ValueKind::BytesV(x) => ValueV::Bytes(x@),
            ValueKind::DatetimeNsV(x) => ValueV::DateTime(*x),
            ValueKind::BoolArrayV(x) => ValueV::BoolArray(x@),
            ValueKind::I32ArrayV(x) => ValueV::I32Array(x@),
            ValueKind::U32ArrayV(x) => ValueV::U32Array(x@),
            ValueKind::I64ArrayV(x) => ValueV::I64Array(x@),
            ValueKind::U64ArrayV(x) => ValueV::U64Array(x@),
            ValueKind::F32ArrayV(x) => ValueV::F32Array(x@),
            ValueKind::F64ArrayV(x) => ValueV::F64Array(x@),
            ValueKind::StringArrayV(x) => ValueV::StringArray(texts_view(x@)),
            ValueKind::DatetimeArrayV(x) => ValueV::DateTimeArray(x@),
        }
    }
}

impl View for ValueMsg {
    type V = Option<ValueV>;

    open spec fn view(&self) -> Option<ValueV> {
        match self.kind {
            Some(k) => Some(k@),
            None => None,
        }
    }
}

/// What a value message is, where there is one.
pub open spec fn value_msg_view(v: Option<ValueMsg>) -> Option<Option<ValueV>> {
    match v {
        Some(m) => Some(m@),
        None => None,
    }
}

#[derive(Debug, Clone, PartialEq)]
pub struct PointValueMsg {
    pub point_id: u32,
    pub value: Option<ValueMsg>,
    pub quality: String,
    pub quality_code: Option<i32>,
    pub source_timestamp_ns: Option<TimestampNs>,
    pub value_origin: i32,
}

/// What a [`PointValueMsg`] is.
pub struct PointMsgV {
    pub point_id: u32,
    pub value: Option<Option<ValueV>>,
    pub quality: Seq<char>,
    pub quality_code: Option<i32>,
    pub source_timestamp_ns: Option<TimestampNs>,
    pub value_origin: i32,
}

impl View for PointValueMsg {
    type V = PointMsgV;

    open spec fn view(&self) -> PointMsgV {
        PointMsgV {
            point_id: self.point_id,
            value: value_msg_view(self.value),
            quality: self.quality@,
            quality_code: self.quality_code,
            source_timestamp_ns: self.source_timestamp_ns,
            value_origin: self.value_origin,
        }
    }
}

#[derive(Debug, Clone, PartialEq)]
pub struct DataBatchMsg {
    pub connection_handle: u32,
    pub stream_epoch: u64,
    pub sequence: u64,
    pub timestamp_ns: TimestampNs,
    pub values: Vec<PointValueMsg>,
    pub mono_ns: Option<u64>,
}

/// What a [`DataBatchMsg`] is.
pub struct BatchMsgV {
    pub connection_handle: u32,
    pub stream_epoch: u64,
    pub sequence: u64,
    pub timestamp_ns: TimestampNs,
    pub values: Seq<PointMsgV>,
    pub mono_ns: Option<u64>,
}

impl View for DataBatchMsg {
    type V = BatchMsgV;

    open spec fn view(&self) -> BatchMsgV {
        BatchMsgV {
            connection_handle: self.connection_handle,
            stream_epoch: self.stream_epoch,
            sequence: self.sequence,
            timestamp_ns: self.timestamp_ns,
            values: self.values@.map_values(|m: PointValueMsg| m@),
            mono_ns: self.mono_ns,
        }
    }
}

#[derive(Debug, Clone, PartialEq)]
pub struct EventConditionMsg {
    pub condition_id: String,
    pub transition: String,
    pub active: Option<bool>,
    pub acknowledged: Option<bool>,
    pub confirmed: Option<bool>,
    pub retain: Option<bool>,
}

/// What an [`EventConditionMsg`] is.
pub struct ConditionMsgV {
    pub condition_id: Seq<char>,
    pub transition: Seq<char>,
    pub active: Option<bool>,
    pub acknowledged: Option<bool>,
    pub confirmed: Option<bool>,
    pub retain: Option<bool>,
}

impl View for EventConditionMsg {
    type V = ConditionMsgV;

    open spec fn view(&self) -> ConditionMsgV {
        ConditionMsgV {
            condition_id: self.condition_id@,
            transition: self.transition@,
            active: self.active,
            acknowledged: self.acknowledged,
            confirmed: self.confirmed,
            retain: self.retain,
        }
    }
}

#[derive(Debug, Clone, PartialEq)]
pub struct EventAttributeMsg {
    pub key: String,
    pub value: Option<ValueMsg>,
}

/// What an [`EventAttributeMsg`] is: its key and its value.
pub type AttributeMsgV = (Seq<char>, Option<Option<ValueV>>);

impl View for EventAttributeMsg {
    type V = AttributeMsgV;

    open spec fn view(&self) -> AttributeMsgV {
        (self.key@, value_msg_view(self.value))
    }
}

#[derive(Debug, Clone, PartialEq)]
pub struct EventRecordMsg {
    pub event_id: String,
    pub category: String,
    pub kind: String,
    pub source: String,
    pub severity: u32,
    pub code: Option<String>,
    pub message: Option<String>,
    pub message_locale: Option<String>,
    pub occurred_at_ns: Option<TimestampNs>,
    pub condition: Option<EventConditionMsg>,
    pub correlation_id: Option<String>,
    pub attributes: Vec<EventAttributeMsg>,
}

/// What an [`EventRecordMsg`] is.
pub struct RecordMsgV {
    pub event_id: Seq<char>,
    pub category: Seq<char>,
    pub kind: Seq<char>,
    pub source: Seq<char>,
    pub severity: u32,
    pub code: Option<Seq<char>>,
    pub message: Option<Seq<char>>,
    pub message_locale: Option<Seq<char>>,
    pub occurred_at_ns: Option<TimestampNs>,
    pub condition: Option<ConditionMsgV>,
    pub correlation_id: Option<Seq<char>>,
    pub attributes: Seq<AttributeMsgV>,
}

impl View for EventRecordMsg {
    type V = RecordMsgV;

    open spec fn view(&self) -> RecordMsgV {
        RecordMsgV {
            event_id: self.event_id@,
            category: self.category@,
            kind: self.kind@,
            source: self.source@,
            severity: self.severity,
            code: maybe_text(self.code),
            message: maybe_text(self.message),
            message_locale: maybe_text(self.message_locale),
            occurred_at_ns: self.occurred_at_ns,
            condition: match self.condition {
                Some(c) => Some(c@),
                None => None,
            },
            correlation_id: maybe_text(self.correlation_id),
            attributes: self.attributes@.map_values(|a: EventAttributeMsg| a@),
        }
    }
}

#[derive(Debug, Clone, PartialEq)]
pub struct EventBatchMsg {
    pub connection_handle: u32,
    pub stream_epoch: u64,
    pub sequence: u64,
    pub timestamp_ns: TimestampNs,
    pub events: Vec<EventRecordMsg>,
    pub mono_ns: Option<u64>,
}

/// What an [`EventBatchMsg`] is.
pub struct EventBatchMsgV {
    pub connection_handle: u32,
    pub stream_epoch: u64,
    pub sequence: u64,
    pub timestamp_ns: TimestampNs,
    pub events: Seq<RecordMsgV>,
    pub mono_ns: Option<u64>,
}

impl View for EventBatchMsg {
    type V = EventBatchMsgV;

    open spec fn view(&self) -> EventBatchMsgV {
        EventBatchMsgV {
            connection_handle: self.connection_handle,
            stream_epoch: self.stream_epoch,
            sequence: self.sequence,
            timestamp_ns: self.timestamp_ns,
            events: self.events@.map_values(|m: EventRecordMsg| m@),
            mono_ns: self.mono_ns,
        }
    }
}

/// What a task message is.
pub struct TaskMsgV {
    pub id: Seq<char>,
    pub mode: Seq<char>,
    pub interval_ms: Option<u64>,
    pub binding_kind: Seq<char>,
    pub binding_config_json: Seq<char>,
}

#[derive(Debug, Clone, PartialEq)]
pub struct AcquisitionTaskProto {
    pub id: String,
    pub mode: String,
    pub interval_ms: Option<u64>,
    pub binding_kind: String,
    pub binding_config_json: String,
}

impl View for AcquisitionTaskProto {
    type V = TaskMsgV;

    open spec fn view(&self) -> TaskMsgV {
        TaskMsgV {
            id: self.id@,
            mode: self.mode@,
            interval_ms: self.interval_ms,
            binding_kind: self.binding_kind@,
            binding_config_json: self.binding_config_json@,
        }
    }
}

#[derive(Debug, Clone, PartialEq)]
pub struct EventTaskProto {
    pub id: String,
    pub mode: String,
    pub interval_ms: Option<u64>,
    pub binding_kind: String,
    pub binding_config_json: String,
}

impl View for EventTaskProto {
    type V = TaskMsgV;

    open spec fn view(&self) -> TaskMsgV {
        TaskMsgV {
            id: self.id@,
            mode: self.mode@,
            interval_ms: self.interval_ms,
            binding_kind: self.binding_kind@,
            binding_config_json: self.binding_config_json@,
        }
    }
}

#[derive(Debug, Clone, PartialEq)]
pub struct PointDescriptorProto {
    pub point_key: String,
    pub data_type: String,
    pub unit: Option<String>,
}

#[derive(Debug, Clone, PartialEq)]
pub struct ErrorDetail {
    pub kind: String,
    pub code: String,
    pub message: String,
}

/// What an [`ErrorDetail`] is.
pub struct DetailV {
    pub kind: Seq<char>,
    pub code: Seq<char>,
    pub message: Seq<char>,
}

impl View for ErrorDetail {
    type V = DetailV;

    open spec fn view(&self) -> DetailV {
        DetailV { kind: self.kind@, code: self.code@, message: self.message@ }
    }
}

#[derive(Debug, Clone, PartialEq)]
pub struct GenericResult {
    pub ok: bool,
    pub error: Option<ErrorDetail>,
}

} // verus!
