//! The protocol between the core and its drivers: versions, frames, and what the messages say.
use vstd::prelude::*;

use crate::event::{EventTask, event_task_fault_text};
use crate::json::{json_parsed, json_text, plain, Json, JsonV};
use crate::pb::{
    AcquisitionTaskProto, BatchMsgV, DataBatchMsg, DetailV, ErrorDetail, EventTaskProto,
    GenericResult, PointDescriptorProto, PointMsgV, PointValueMsg, TaskMsgV, ValueKind, ValueMsg,
    value_msg_view, ORIGIN_CURRENT, ORIGIN_LAST_KNOWN, ORIGIN_PLACEHOLDER, ORIGIN_UNSPECIFIED,
};
use crate::text::{cat2, cat4, cat5, decimal, decimal_text, lowered, same_text};
use crate::types::{
    copy_bools, copy_bytes, copy_doubles, copy_i32s, copy_i64s, copy_singles, copy_texts,
    copy_u32s, copy_u64s, data_type_name, error_kind_name, mode_name, normalized_origin,
    normalized_point, quality_name, state_name, task_fault, AcquisitionTask, ConnectionState,
    DataBatch, DataType, DriverBinding, ErrorKind, PointDescriptor, PointValue, PointValueV,
    Quality, TaskMode, TaskV, TimestampNs, TypedValue, UnknownDataType, ValueOrigin, ValueV,
};

verus! {

/// The major version. Another one is not spoken with.
pub const PROTOCOL_MAJOR: u32 = 1;

/// The minor version. The smaller of both sides' is spoken.
pub const PROTOCOL_MINOR: u32 = 3;

/// The first minor version with probes.
pub const PROBE_RPC_MIN_MINOR: u32 = 2;

/// The first minor version with events.
pub const EVENT_PLANE_MIN_MINOR: u32 = 3;

/// The greatest length of a frame's body, in bytes.
pub const MAX_FRAME_LEN: u32 = 4194304;

// ---------------------------------------------------------------------------
// Versions
// ---------------------------------------------------------------------------

/// Two major versions that do not go together.
#[derive(Debug, Clone, Copy, PartialEq, Eq, Structural)]
pub struct IncompatibleProtocol {
    pub driver_major: u32,
    pub core_major: u32,
}

impl IncompatibleProtocol {
    pub fn message(&self) -> (r: String)
        ensures
            r@ == "incompatible protocol major: driver="@ + decimal(self.driver_major as nat)
                + ", core="@ + decimal(self.core_major as nat),
    {
        cat4(
            "incompatible protocol major: driver=",
            decimal_text(self.driver_major as u64).as_str(),
            ", core=",
            decimal_text(self.core_major as u64).as_str(),
        )
    }
}

/// The version that both sides speak: the common major version, and the smaller minor version.
pub fn negotiate(driver: (u32, u32), core: (u32, u32)) -> (r: Result<(u32, u32), IncompatibleProtocol>)
    ensures
        match r {
            Ok(v) => driver.0 == core.0 && v.0 == core.0 && v.1 == if driver.1 < core.1 {
                driver.1
            } else {
                core.1
            },
            Err(e) => driver.0 != core.0 && e.driver_major == driver.0 && e.core_major == core.0,
        },
{
    if driver.0 != core.0 {
        return Err(IncompatibleProtocol { driver_major: driver.0, core_major: core.0 });
    }
    Ok(
        (
            core.0,
            if driver.1 < core.1 {
                driver.1
            } else {
                core.1
            },
        ),
    )
}

// ---------------------------------------------------------------------------
// Frames
// ---------------------------------------------------------------------------

/// What is wrong with a frame, or with reading or writing one.
#[derive(Debug, Clone, PartialEq)]
pub enum ProtocolError {
    Io(String),
    FrameTooLarge { size: u64, max: u32 },
    Decode(String),
    Encode(String),
}

/// How a [`ProtocolError`] reads.
pub open spec fn protocol_error_text(e: ProtocolError) -> Seq<char> {
    match e {
        ProtocolError::Io(m) => "io error: "@ + m@,
        ProtocolError::FrameTooLarge { size, max } => "frame too large: "@ + decimal(size as nat)
            + " bytes (max "@ + decimal(max as nat) + ")"@,
        ProtocolError::Decode(m) => "protobuf decode error: "@ + m@,
        ProtocolError::Encode(m) => "protobuf encode error: "@ + m@,
    }
}

impl ProtocolError {
    pub fn message(&self) -> (r: String)
        ensures
            r@ == protocol_error_text(*self),
    {
        match self {
            ProtocolError::Io(m) => cat2("io error: ", m.as_str()),
            ProtocolError::FrameTooLarge { size, max } => cat5(
                "frame too large: ",
                decimal_text(*size).as_str(),
                " bytes (max ",
                decimal_text(*max as u64).as_str(),
                ")",
            ),
            ProtocolError::Decode(m) => cat2("protobuf decode error: ", m.as_str()),
            ProtocolError::Encode(m) => cat2("protobuf encode error: ", m.as_str()),
        }
    }
}

/// A number as four bytes, the least one first.
pub open spec fn four_bytes(n: int) -> Seq<u8> {
    seq![
        (n % 256) as u8,
        (n / 256 % 256) as u8,
        (n / 65536 % 256) as u8,
        (n / 16777216 % 256) as u8,
    ]
}

/// The number that four bytes stand for.
pub open spec fn four_bytes_value(b: Seq<u8>) -> int {
    b[0] + 256 * b[1] + 65536 * b[2] + 16777216 * b[3]
}

/// Four bytes give back the number that they were made from.
pub proof fn four_bytes_read_back(n: int)
    requires
        0 <= n < 0x1_0000_0000,
    ensures
        four_bytes(n).len() == 4,
        four_bytes_value(four_bytes(n)) == n,
{
}

/// A frame: the length of its body, as four bytes, and the body. A length that four bytes cannot
/// hold loses what is above them.
pub fn write_envelope(body: &Vec<u8>) -> (r: Vec<u8>)
    ensures
        r@ == four_bytes(body@.len() as int) + body@,
{
    let n: u64 = body.len() as u64;
    let mut r: Vec<u8> = Vec::new();
    r.push((n % 256) as u8);
    r.push((n / 256 % 256) as u8);
    r.push((n / 65536 % 256) as u8);
    r.push((n / 16777216 % 256) as u8);
    assert(r@ =~= four_bytes(n as int));
    let mut i: usize = 0;
    while i < body.len()
        invariant
            i <= body.len(),
            r@ == four_bytes(n as int) + body@.subrange(0, i as int),
        decreases body.len() - i,
    {
        r.push(body[i]);
        assert(r@ =~= four_bytes(n as int) + body@.subrange(0, i + 1));
        i = i + 1;
    }
    assert(body@.subrange(0, body@.len() as int) =~= body@);
    r
}

/// The length of the body that follows the first four bytes of a frame.
pub fn read_envelope(header: [u8; 4]) -> (r: Result<u32, ProtocolError>)
    ensures
        match r {
            Ok(n) => n == four_bytes_value(header@) && n <= MAX_FRAME_LEN,
            Err(e) => four_bytes_value(header@) > MAX_FRAME_LEN && e
                == (ProtocolError::FrameTooLarge {
                size: four_bytes_value(header@) as u64,
                max: MAX_FRAME_LEN,
            }),
        },
{
    let n: u32 = header[0] as u32 + 256 * header[1] as u32 + 65536 * header[2] as u32 + 16777216
        * header[3] as u32;
    if n > MAX_FRAME_LEN {
        return Err(ProtocolError::FrameTooLarge { size: n as u64, max: MAX_FRAME_LEN });
    }
    Ok(n)
}

/// The start of a frame gives back the length of its body, and the rest is the body.
pub proof fn frame_reads_back(body: Seq<u8>)
    requires
        body.len() <= MAX_FRAME_LEN,
    ensures
        four_bytes_value((four_bytes(body.len() as int) + body).subrange(0, 4)) == body.len(),
        (four_bytes(body.len() as int) + body).subrange(4, 4 + body.len() as int) == body,
{
    let header = four_bytes(body.len() as int);
    assert((header + body).subrange(0, 4) =~= header);
    assert((header + body).subrange(4, 4 + body.len() as int) =~= body);
    four_bytes_read_back(body.len() as int);
}

// ---------------------------------------------------------------------------
// What can be wrong with a message
// ---------------------------------------------------------------------------

/// What is wrong with a message.
#[derive(Debug, Clone, PartialEq)]
pub enum ConvertError {
    EmptyValue,
    DataType(UnknownDataType),
    InvalidMode(String),
    InvalidState(String),
    InvalidQuality(String),
    Json(String),
    InvalidEventTask(String),
    InvalidEventRecord(String),
    EventBatchTooLarge(String),
}

/// What a [`ConvertError`] says.
pub enum ConvertFault {
    EmptyValue,
    DataType(Seq<char>),
    InvalidMode(Seq<char>),
    InvalidState(Seq<char>),
    InvalidQuality(Seq<char>),
    Json(Seq<char>),
    InvalidEventTask(Seq<char>),
    InvalidEventRecord(Seq<char>),
    EventBatchTooLarge(Seq<char>),
}

impl View for ConvertError {
    type V = ConvertFault;

    open spec fn view(&self) -> ConvertFault {
        match self {
            ConvertError::EmptyValue => ConvertFault::EmptyValue,
            ConvertError::DataType(t) => ConvertFault::DataType(t.0@),
            ConvertError::InvalidMode(s) => ConvertFault::InvalidMode(s@),
            ConvertError::InvalidState(s) => ConvertFault::InvalidState(s@),
            ConvertError::InvalidQuality(s) => ConvertFault::InvalidQuality(s@),
            ConvertError::Json(s) => ConvertFault::Json(s@),
            ConvertError::InvalidEventTask(s) => ConvertFault::InvalidEventTask(s@),
            ConvertError::InvalidEventRecord(s) => ConvertFault::InvalidEventRecord(s@),
            ConvertError::EventBatchTooLarge(s) => ConvertFault::EventBatchTooLarge(s@),
        }
    }
}

/// How the error reads.
pub open spec fn convert_fault_text(f: ConvertFault) -> Seq<char> {
    match f {
        ConvertFault::EmptyValue => "value message has empty oneof"@,
        ConvertFault::DataType(s) => "unknown data type: "@ + s,
        ConvertFault::InvalidMode(s) => "invalid mode: "@ + s,
        ConvertFault::InvalidState(s) => "invalid state: "@ + s,
        ConvertFault::InvalidQuality(s) => "invalid quality: "@ + s,
        ConvertFault::Json(s) => "json error: "@ + s,
        ConvertFault::InvalidEventTask(s) => "invalid event task: "@ + s,
        ConvertFault::InvalidEventRecord(s) => "invalid event record: "@ + s,
        ConvertFault::EventBatchTooLarge(s) => "event batch too large: "@ + s,
    }
}

impl ConvertError {
    pub fn message(&self) -> (r: String)
        ensures
            r@ == convert_fault_text(self@),
    {
        match self {
            ConvertError::EmptyValue => "value message has empty oneof".to_owned(),
            ConvertError::DataType(t) => t.message(),
            ConvertError::InvalidMode(s) => cat2("invalid mode: ", s.as_str()),
            ConvertError::InvalidState(s) => cat2("invalid state: ", s.as_str()),
            ConvertError::InvalidQuality(s) => cat2("invalid quality: ", s.as_str()),
            ConvertError::Json(s) => cat2("json error: ", s.as_str()),
            ConvertError::InvalidEventTask(s) => cat2("invalid event task: ", s.as_str()),
            ConvertError::InvalidEventRecord(s) => cat2("invalid event record: ", s.as_str()),
            ConvertError::EventBatchTooLarge(s) => cat2("event batch too large: ", s.as_str()),
        }
    }
}

/// A result by what it holds.
pub open spec fn shown<T: View>(r: Result<T, ConvertError>) -> Result<T::V, ConvertFault> {
    match r {
        Ok(v) => Ok(v@),
        Err(e) => Err(e@),
    }
}

// ---------------------------------------------------------------------------
// Values
// ---------------------------------------------------------------------------

pub fn value_to_pb(v: &TypedValue) -> (r: ValueMsg)
    ensures
        r@ == Some(v@),
{
    let kind: ValueKind = match v {
        TypedValue::Bool(x) => ValueKind::BoolV(*x),
        TypedValue::I32(x) => ValueKind::I32V(*x),
        TypedValue::U32(x) => ValueKind::U32V(*x),
        TypedValue::I64(x) => ValueKind::I64V(*x),
        TypedValue::U64(x) => ValueKind::U64V(*x),
        TypedValue::F32(x) => ValueKind::F32V(*x),
        TypedValue::F64(x) => ValueKind::F64V(*x),
        TypedValue::String(x) => ValueKind::StringV(x.clone()),
        TypedValue::Bytes(x) => ValueKind::BytesV(copy_bytes(x)),
        TypedValue::DateTime(x) => ValueKind::DatetimeNsV(*x),
        TypedValue::BoolArray(x) => ValueKind::BoolArrayV(copy_bools(x)),
        TypedValue::I32Array(x) => ValueKind::I32ArrayV(copy_i32s(x)),
        TypedValue::U32Array(x) => ValueKind::U32ArrayV(copy_u32s(x)),
        TypedValue::I64Array(x) => ValueKind::I64ArrayV(copy_i64s(x)),
        TypedValue::U64Array(x) => ValueKind::U64ArrayV(copy_u64s(x)),
        TypedValue::F32Array(x) => ValueKind::F32ArrayV(copy_singles(x)),
        TypedValue::F64Array(x) => ValueKind::F64ArrayV(copy_doubles(x)),
        TypedValue::StringArray(x) => ValueKind::StringArrayV(copy_texts(x)),
        TypedValue::DateTimeArray(x) => ValueKind::DatetimeArrayV(copy_i64s(x)),
    };
    ValueMsg { kind: Some(kind) }
}

/// The value that a message holds.
pub open spec fn value_decoded(m: Option<ValueV>) -> Result<ValueV, ConvertFault> {
    match m {
        Some(v) => Ok(v),
        None => Err(ConvertFault::EmptyValue),
    }
}

pub fn value_from_pb(v: ValueMsg) -> (r: Result<TypedValue, ConvertError>)
    ensures
        shown(r) == value_decoded(v@),
{
    match v.kind {
        None => Err(ConvertError::EmptyValue),
        Some(ValueKind::BoolV(x)) => Ok(TypedValue::Bool(x)),
        Some(ValueKind::I32V(x)) => Ok(TypedValue::I32(x)),
        Some(ValueKind::U32V(x)) => Ok(TypedValue::U32(x)),
        Some(ValueKind::I64V(x)) => Ok(TypedValue::I64(x)),
        Some(ValueKind::U64V(x)) => Ok(TypedValue::U64(x)),
        Some(ValueKind::F32V(x)) => Ok(TypedValue::F32(x)),
        Some(ValueKind::F64V(x)) => Ok(TypedValue::F64(x)),
        Some(ValueKind::StringV(x)) => Ok(TypedValue::String(x)),
        Some(ValueKind::BytesV(x)) => Ok(TypedValue::Bytes(x)),
        Some(ValueKind::DatetimeNsV(x)) => Ok(TypedValue::DateTime(x)),
        Some(ValueKind::BoolArrayV(x)) => Ok(TypedValue::BoolArray(x)),
        Some(ValueKind::I32ArrayV(x)) => Ok(TypedValue::I32Array(x)),
        Some(ValueKind::U32ArrayV(x)) => Ok(TypedValue::U32Array(x)),
        Some(ValueKind::I64ArrayV(x)) => Ok(TypedValue::I64Array(x)),
        Some(ValueKind::U64ArrayV(x)) => Ok(TypedValue::U64Array(x)),
        Some(ValueKind::F32ArrayV(x)) => Ok(TypedValue::F32Array(x)),
        Some(ValueKind::F64ArrayV(x)) => Ok(TypedValue::F64Array(x)),
        Some(ValueKind::StringArrayV(x)) => Ok(TypedValue::StringArray(x)),
        Some(ValueKind::DatetimeArrayV(x)) => Ok(TypedValue::DateTimeArray(x)),
    }
}

/// A value of any type comes back as it was sent.
pub proof fn value_reads_back(v: ValueV)
    ensures
        value_decoded(Some(v)) == Ok::<ValueV, ConvertFault>(v),
{
}

pub fn quality_to_pb(q: Quality) -> (r: String)
    ensures
        r@ == quality_name(q),
{
    q.as_str().to_owned()
}

/// The quality that a text names; no text stands for a good one.
pub open spec fn quality_decoded(s: Seq<char>) -> Result<Quality, ConvertFault> {
    if s == ""@ || s == "GOOD"@ {
        Ok(Quality::Good)
    } else if s == "UNCERTAIN"@ {
        Ok(Quality::Uncertain)
    } else if s == "BAD"@ {
        Ok(Quality::Bad)
    } else {
        Err(ConvertFault::InvalidQuality(s))
    }
}

pub fn quality_from_pb(s: &str) -> (r: Result<Quality, ConvertError>)
    ensures
        match r {
            Ok(q) => quality_decoded(s@) == Ok::<Quality, ConvertFault>(q),
            Err(e) => quality_decoded(s@) == Err::<Quality, ConvertFault>(e@),
        },
{
    if same_text(s, "") || same_text(s, "GOOD") {
        Ok(Quality::Good)
    } else if same_text(s, "UNCERTAIN") {
        Ok(Quality::Uncertain)
    } else if same_text(s, "BAD") {
        Ok(Quality::Bad)
    } else {
        Err(ConvertError::InvalidQuality(s.to_owned()))
    }
}

/// A quality comes back as it was sent.
pub proof fn quality_reads_back(q: Quality)
    ensures
        quality_decoded(quality_name(q)) == Ok::<Quality, ConvertFault>(q),
{
    reveal_strlit("");
    reveal_strlit("GOOD");
    reveal_strlit("UNCERTAIN");
    reveal_strlit("BAD");
    assert("UNCERTAIN"@.len() == 9 && "GOOD"@.len() == 4 && "BAD"@.len() == 3 && ""@.len() == 0);
}

/// The number that stands for an origin.
pub open spec fn origin_number(o: ValueOrigin) -> i32 {
    match o {
        ValueOrigin::Unspecified => ORIGIN_UNSPECIFIED,
        ValueOrigin::Current => ORIGIN_CURRENT,
        ValueOrigin::LastKnown => ORIGIN_LAST_KNOWN,
        ValueOrigin::Placeholder => ORIGIN_PLACEHOLDER,
    }
}

/// The origin that a number stands for; an unknown one says nothing.
pub open spec fn origin_decoded(n: i32) -> ValueOrigin {
    if n == ORIGIN_CURRENT {
        ValueOrigin::Current
    } else if n == ORIGIN_LAST_KNOWN {
        ValueOrigin::LastKnown
    } else if n == ORIGIN_PLACEHOLDER {
        ValueOrigin::Placeholder
    } else {
        ValueOrigin::Unspecified
    }
}

pub fn value_origin_to_pb(vo: ValueOrigin) -> (r: i32)
    ensures
        r == origin_number(vo),
{
    match vo {
        ValueOrigin::Unspecified => ORIGIN_UNSPECIFIED,
        ValueOrigin::Current => ORIGIN_CURRENT,
        ValueOrigin::LastKnown => ORIGIN_LAST_KNOWN,
        ValueOrigin::Placeholder => ORIGIN_PLACEHOLDER,
    }
}

pub fn value_origin_from_pb(v: i32) -> (r: ValueOrigin)
    ensures
        r == origin_decoded(v),
{
    if v == ORIGIN_CURRENT {
        ValueOrigin::Current
    } else if v == ORIGIN_LAST_KNOWN {
        ValueOrigin::LastKnown
    } else if v == ORIGIN_PLACEHOLDER {
        ValueOrigin::Placeholder
    } else {
        ValueOrigin::Unspecified
    }
}

/// An origin comes back as it was sent.
pub proof fn origin_reads_back(o: ValueOrigin)
    ensures
        origin_decoded(origin_number(o)) == o,
{
}

// ---------------------------------------------------------------------------
// Samples
// ---------------------------------------------------------------------------

/// A sample as a message: its origin is always said.
pub open spec fn point_encoded(p: PointValueV) -> PointMsgV {
    PointMsgV {
        point_id: p.point_id,
        value: Some(Some(p.value)),
        quality: quality_name(p.quality),
        quality_code: p.quality_code,
        source_timestamp_ns: p.source_timestamp_ns,
        value_origin: origin_number(normalized_origin(p.value_origin, p.quality)),
    }
}

/// A value that must be there.
pub open spec fn required_value(m: Option<Option<ValueV>>) -> Result<ValueV, ConvertFault> {
    match m {
        Some(v) => value_decoded(v),
        None => Err(ConvertFault::EmptyValue),
    }
}

/// The sample that a message holds, its origin settled.
pub open spec fn point_decoded(m: PointMsgV) -> Result<PointValueV, ConvertFault> {
    match quality_decoded(m.quality) {
        Err(e) => Err(e),
        Ok(q) => match required_value(m.value) {
            Err(e) => Err(e),
            Ok(v) => Ok(
                PointValueV {
                    point_id: m.point_id,
                    value: v,
                    quality: q,
                    quality_code: m.quality_code,
                    source_timestamp_ns: m.source_timestamp_ns,
                    value_origin: normalized_origin(origin_decoded(m.value_origin), q),
                },
            ),
        },
    }
}

pub fn point_value_to_pb(pv: &PointValue) -> (r: PointValueMsg)
    ensures
        r@ == point_encoded(pv@),
{
    PointValueMsg {
        point_id: pv.point_id,
        value: Some(value_to_pb(&pv.value)),
        quality: quality_to_pb(pv.quality),
        quality_code: pv.quality_code,
        source_timestamp_ns: pv.source_timestamp_ns,
        value_origin: value_origin_to_pb(pv.value_origin.normalize_unspecified(pv.quality)),
    }
}

fn value_of(m: Option<ValueMsg>) -> (r: Result<TypedValue, ConvertError>)
    ensures
        shown(r) == required_value(value_msg_view(m)),
{
    match m {
        Some(v) => value_from_pb(v),
        None => Err(ConvertError::EmptyValue),
    }
}

pub fn point_value_from_pb(pv: PointValueMsg) -> (r: Result<PointValue, ConvertError>)
    ensures
        shown(r) == point_decoded(pv@),
{
    let quality: Quality = match quality_from_pb(pv.quality.as_str()) {
        Ok(q) => q,
        Err(e) => {
            return Err(e);
        },
    };
    let origin: ValueOrigin = value_origin_from_pb(pv.value_origin);
    let value: TypedValue = match value_of(pv.value) {
        Ok(v) => v,
        Err(e) => {
            return Err(e);
        },
    };
    Ok(
        PointValue {
            point_id: pv.point_id,
            value,
            quality,
            quality_code: pv.quality_code,
            source_timestamp_ns: pv.source_timestamp_ns,
            value_origin: origin.normalize_unspecified(quality),
        },
    )
}

/// A sample comes back as it was sent, its origin said.
pub proof fn point_reads_back(p: PointValueV)
    ensures
        point_decoded(point_encoded(p)) == Ok::<PointValueV, ConvertFault>(normalized_point(p)),
{
    quality_reads_back(p.quality);
    origin_reads_back(normalized_origin(p.value_origin, p.quality));
}

/// A sample that does not say where it comes from is current if it is good, and else stands for
/// one that could not be read.
pub proof fn unspecified_origin_is_settled(m: PointMsgV, p: PointValueV)
    requires
        origin_decoded(m.value_origin) is Unspecified,
        point_decoded(m) == Ok::<PointValueV, ConvertFault>(p),
    ensures
        p.value_origin == if p.quality is Good {
            ValueOrigin::Current
        } else {
            ValueOrigin::Placeholder
        },
{
}

/// What a [`DataBatch`] is.
pub struct BatchV {
    pub connection_handle: u32,
    pub stream_epoch: u64,
    pub sequence: u64,
    pub timestamp_ns: TimestampNs,
    pub values: Seq<PointValueV>,
    pub mono_ns: Option<u64>,
}

/// What some samples are.
pub open spec fn points_view(p: Seq<PointValue>) -> Seq<PointValueV> {
    p.map_values(|v: PointValue| v@)
}

impl View for DataBatch {
    type V = BatchV;

    open spec fn view(&self) -> BatchV {
        BatchV {
            connection_handle: self.connection_handle,
            stream_epoch: self.stream_epoch,
            sequence: self.sequence,
            timestamp_ns: self.timestamp_ns,
            values: points_view(self.values@),
            mono_ns: self.mono_ns,
        }
    }
}

/// A batch as a message.
pub open spec fn batch_encoded(b: BatchV) -> BatchMsgV {
    BatchMsgV {
        connection_handle: b.connection_handle,
        stream_epoch: b.stream_epoch,
        sequence: b.sequence,
        timestamp_ns: b.timestamp_ns,
        values: b.values.map_values(|p: PointValueV| point_encoded(p)),
        mono_ns: b.mono_ns,
    }
}

/// The samples of some messages, or what is wrong with the first bad one.
pub open spec fn points_decoded(ms: Seq<PointMsgV>) -> Result<Seq<PointValueV>, ConvertFault>
    decreases ms.len(),
{
    if ms.len() == 0 {
        Ok(Seq::empty())
    } else {
        match points_decoded(ms.drop_last()) {
            Err(e) => Err(e),
            Ok(front) => match point_decoded(ms.last()) {
                Err(e) => Err(e),
                Ok(p) => Ok(front.push(p)),
            },
        }
    }
}

/// The batch that a message holds; all of it or nothing.
pub open spec fn batch_decoded(m: BatchMsgV) -> Result<BatchV, ConvertFault> {
    match points_decoded(m.values) {
        Err(e) => Err(e),
        Ok(values) => Ok(
            BatchV {
                connection_handle: m.connection_handle,
                stream_epoch: m.stream_epoch,
                sequence: m.sequence,
                timestamp_ns: m.timestamp_ns,
                values,
                mono_ns: m.mono_ns,
            },
        ),
    }
}

pub fn batch_to_pb(b: &DataBatch) -> (r: DataBatchMsg)
    ensures
        r@ == batch_encoded(b@),
{
    let mut values: Vec<PointValueMsg> = Vec::new();
    let mut i: usize = 0;
    while i < b.values.len()
        invariant
            i <= b.values.len(),
            values.len() == i,
            forall|j: int| 0 <= j < i ==> (#[trigger] values@[j])@ == point_encoded(b.values@[j]@),
        decreases b.values.len() - i,
    {
        values.push(point_value_to_pb(&b.values[i]));
        i = i + 1;
    }
    let r: DataBatchMsg = DataBatchMsg {
        connection_handle: b.connection_handle,
        stream_epoch: b.stream_epoch,
        sequence: b.sequence,
        timestamp_ns: b.timestamp_ns,
        values,
        mono_ns: b.mono_ns,
    };
    assert(r@.values =~= batch_encoded(b@).values);
    r
}

proof fn lemma_points_fail(ms: Seq<PointMsgV>, n: int)
    requires
        0 <= n <= ms.len(),
        points_decoded(ms.subrange(0, n)) is Err,
    ensures
        points_decoded(ms) == points_decoded(ms.subrange(0, n)),
    decreases ms.len() - n,
{
    if n == ms.len() {
        assert(ms.subrange(0, n) =~= ms);
    } else {
        assert(ms.subrange(0, n + 1).drop_last() =~= ms.subrange(0, n));
        lemma_points_fail(ms, n + 1);
    }
}

pub fn batch_from_pb(b: DataBatchMsg) -> (r: Result<DataBatch, ConvertError>)
    ensures
        shown(r) == batch_decoded(b@),
{
    let ghost all = b.values@;
    let ghost ms = b@.values;
    let mut values: Vec<PointValue> = Vec::new();
    proof {
        assert(points_view(values@) =~= Seq::<PointValueV>::empty());
        assert(ms.subrange(0, 0) =~= Seq::<PointMsgV>::empty());
    }
    for m in messages: b.values
        invariant
            messages.seq() == all,
            ms == all.map_values(|m: PointValueMsg| m@),
            points_decoded(ms.subrange(0, messages.index() as int)) == Ok::<
                Seq<PointValueV>,
                ConvertFault,
            >(points_view(values@)),
            b@.values == ms,
    {
        proof {
            let i = messages.index() as int;
            assert(m == all[i]);
            assert(ms.subrange(0, i + 1).drop_last() =~= ms.subrange(0, i));
            assert(ms.subrange(0, i + 1).last() == m@);
        }
        match point_value_from_pb(m) {
            Ok(p) => {
                let ghost front = points_view(values@);
                values.push(p);
                assert(points_view(values@) =~= front.push(p@));
            },
            Err(e) => {
                proof {
                    lemma_points_fail(ms, messages.index() + 1);
                }
                return Err(e);
            },
        }
    }
    assert(ms.subrange(0, all.len() as int) =~= ms);
    Ok(
        DataBatch {
            connection_handle: b.connection_handle,
            stream_epoch: b.stream_epoch,
            sequence: b.sequence,
            timestamp_ns: b.timestamp_ns,
            values,
            mono_ns: b.mono_ns,
        },
    )
}

proof fn lemma_points_read_back(ps: Seq<PointValueV>)
    ensures
        points_decoded(ps.map_values(|p: PointValueV| point_encoded(p))) == Ok::<
            Seq<PointValueV>,
            ConvertFault,
        >(ps.map_values(|p: PointValueV| normalized_point(p))),
    decreases ps.len(),
{
    let ms = ps.map_values(|p: PointValueV| point_encoded(p));
    let normal = ps.map_values(|p: PointValueV| normalized_point(p));
    if ps.len() == 0 {
        assert(normal =~= Seq::<PointValueV>::empty());
    } else {
        let front = ps.drop_last();
        lemma_points_read_back(front);
        point_reads_back(ps.last());
        assert(ms.drop_last() =~= front.map_values(|p: PointValueV| point_encoded(p)));
        assert(normal =~= front.map_values(|p: PointValueV| normalized_point(p)).push(
            normalized_point(ps.last()),
        ));
    }
}

/// A batch comes back as it was sent, the origin of each sample said.
pub proof fn batch_reads_back(b: BatchV)
    ensures
        batch_decoded(batch_encoded(b)) == Ok::<BatchV, ConvertFault>(
            (BatchV { values: b.values.map_values(|p: PointValueV| normalized_point(p)), ..b }),
        ),
{
    lemma_points_read_back(b.values);
}

// ---------------------------------------------------------------------------
// Tasks
// ---------------------------------------------------------------------------

/// A task as a message.
pub open spec fn task_encoded(t: TaskV) -> TaskMsgV {
    TaskMsgV {
        id: t.id,
        mode: mode_name(t.mode),
        interval_ms: t.interval_ms,
        binding_kind: t.kind,
        binding_config_json: json_text(t.config),
    }
}

/// The mode that a text names.
pub open spec fn mode_decoded(s: Seq<char>) -> Result<TaskMode, ConvertFault> {
    if s == "poll"@ {
        Ok(TaskMode::Poll)
    } else if s == "subscribe"@ {
        Ok(TaskMode::Subscribe)
    } else {
        Err(ConvertFault::InvalidMode(s))
    }
}

/// The task that a message holds.
pub open spec fn task_decoded(m: TaskMsgV) -> Result<TaskV, ConvertFault> {
    match mode_decoded(m.mode) {
        Err(e) => Err(e),
        Ok(mode) => match json_parsed(m.binding_config_json) {
            Err(e) => Err(ConvertFault::Json(e)),
            Ok(config) => Ok(
                TaskV { id: m.id, mode, interval_ms: m.interval_ms, kind: m.binding_kind, config },
            ),
        },
    }
}

/// The event task that a message holds, if it makes sense.
pub open spec fn event_task_decoded(m: TaskMsgV) -> Result<TaskV, ConvertFault> {
    match task_decoded(m) {
        Err(e) => Err(e),
        Ok(t) => match task_fault(t) {
            Some(f) => Err(ConvertFault::InvalidEventTask(event_task_fault_text(f, t.id))),
            None => Ok(t),
        },
    }
}

fn mode_of(s: &str) -> (r: Result<TaskMode, ConvertError>)
    ensures
        match r {
            Ok(m) => mode_decoded(s@) == Ok::<TaskMode, ConvertFault>(m),
            Err(e) => mode_decoded(s@) == Err::<TaskMode, ConvertFault>(e@),
        },
{
    if same_text(s, "poll") {
        Ok(TaskMode::Poll)
    } else if same_text(s, "subscribe") {
        Ok(TaskMode::Subscribe)
    } else {
        Err(ConvertError::InvalidMode(s.to_owned()))
    }
}

pub fn event_task_to_pb(t: &EventTask) -> (r: EventTaskProto)
    ensures
        r@ == task_encoded(t@),
{
    EventTaskProto {
        id: t.id.clone(),
        mode: t.mode.as_str().to_owned(),
        interval_ms: t.interval_ms,
        binding_kind: t.binding.kind.clone(),
        binding_config_json: t.binding.config.to_text(),
    }
}

/// The event task that a message holds. A plain configuration comes back as it was sent.
pub fn event_task_from_pb(t: EventTaskProto) -> (r: Result<EventTask, ConvertError>)
    ensures
        shown(r) == event_task_decoded(t@),
        forall|sent: TaskV|
            plain(sent.config, 127) && task_fault(sent) is None && #[trigger] task_encoded(sent)
                == t@ ==> event_task_decoded(t@) == Ok::<TaskV, ConvertFault>(sent),
{
    let m: Result<TaskMode, ConvertError> = mode_of(t.mode.as_str());
    let c: Result<Json, String> = Json::parse(t.binding_config_json.as_str());
    proof {
        assert forall|sent: TaskV|
            plain(sent.config, 127) && task_fault(sent) is None && #[trigger] task_encoded(sent)
                == t@ implies event_task_decoded(t@) == Ok::<TaskV, ConvertFault>(sent) by {
            task_reads_back_if_its_configuration_does(sent);
        }
    }
    let mode: TaskMode = match m {
        Ok(m) => m,
        Err(e) => {
            return Err(e);
        },
    };
    let config: Json = match c {
        Ok(c) => c,
        Err(e) => {
            return Err(ConvertError::Json(e));
        },
    };
    let task: EventTask = EventTask {
        id: t.id,
        mode,
        interval_ms: t.interval_ms,
        binding: DriverBinding { kind: t.binding_kind, config },
    };
    match task.validate() {
        Ok(()) => Ok(task),
        Err(e) => Err(ConvertError::InvalidEventTask(e.message())),
    }
}

pub fn task_to_pb(t: &AcquisitionTask) -> (r: AcquisitionTaskProto)
    ensures
        r@ == task_encoded(t@),
{
    AcquisitionTaskProto {
        id: t.id.clone(),
        mode: t.mode.as_str().to_owned(),
        interval_ms: t.interval_ms,
        binding_kind: t.binding.kind.clone(),
        binding_config_json: t.binding.config.to_text(),
    }
}

/// The task that a message holds. A plain configuration comes back as it was sent.
pub fn task_from_pb(t: AcquisitionTaskProto) -> (r: Result<AcquisitionTask, ConvertError>)
    ensures
        shown(r) == task_decoded(t@),
        forall|sent: TaskV|
            plain(sent.config, 127) && #[trigger] task_encoded(sent) == t@ ==> task_decoded(t@)
                == Ok::<TaskV, ConvertFault>(sent),
{
    let m: Result<TaskMode, ConvertError> = mode_of(t.mode.as_str());
    let c: Result<Json, String> = Json::parse(t.binding_config_json.as_str());
    proof {
        assert forall|sent: TaskV|
            plain(sent.config, 127) && #[trigger] task_encoded(sent) == t@ implies task_decoded(t@)
            == Ok::<TaskV, ConvertFault>(sent) by {
            task_reads_back_if_its_configuration_does(sent);
        }
    }
    let mode: TaskMode = match m {
        Ok(m) => m,
        Err(e) => {
            return Err(e);
        },
    };
    let config: Json = match c {
        Ok(c) => c,
        Err(e) => {
            return Err(ConvertError::Json(e));
        },
    };
    Ok(
        AcquisitionTask {
            id: t.id,
            mode,
            interval_ms: t.interval_ms,
            binding: DriverBinding { kind: t.binding_kind, config },
        },
    )
}

/// A task comes back as it was sent wherever the text of its configuration does.
pub proof fn task_reads_back_if_its_configuration_does(t: TaskV)
    requires
        json_parsed(json_text(t.config)) == Ok::<JsonV, Seq<char>>(t.config),
    ensures
        task_decoded(task_encoded(t)) == Ok::<TaskV, ConvertFault>(t),
        task_fault(t) is None ==> event_task_decoded(task_encoded(t)) == Ok::<TaskV, ConvertFault>(
            t,
        ),
{
    reveal_strlit("poll");
    reveal_strlit("subscribe");
    assert("poll"@.len() == 4 && "subscribe"@.len() == 9);
}

/// What some tasks are.
pub open spec fn tasks_view(ts: Seq<AcquisitionTask>) -> Seq<TaskV> {
    ts.map_values(|t: AcquisitionTask| t@)
}

/// What some task messages are.
pub open spec fn task_msgs_view(ts: Seq<AcquisitionTaskProto>) -> Seq<TaskMsgV> {
    ts.map_values(|t: AcquisitionTaskProto| t@)
}

pub fn tasks_to_pb(tasks: &[AcquisitionTask]) -> (r: Vec<AcquisitionTaskProto>)
    ensures
        task_msgs_view(r@) == tasks_view(tasks@).map_values(|t: TaskV| task_encoded(t)),
{
    let mut r: Vec<AcquisitionTaskProto> = Vec::new();
    let mut i: usize = 0;
    while i < tasks.len()
        invariant
            i <= tasks.len(),
            r.len() == i,
            forall|j: int| 0 <= j < i ==> (#[trigger] r@[j])@ == task_encoded(tasks@[j]@),
        decreases tasks.len() - i,
    {
        r.push(task_to_pb(&tasks[i]));
        i = i + 1;
    }
    assert(task_msgs_view(r@) =~= tasks_view(tasks@).map_values(|t: TaskV| task_encoded(t)));
    r
}

/// The tasks of some messages, or what is wrong with the first bad one.
pub open spec fn tasks_decoded(ms: Seq<TaskMsgV>) -> Result<Seq<TaskV>, ConvertFault>
    decreases ms.len(),
{
    if ms.len() == 0 {
        Ok(Seq::empty())
    } else {
        match tasks_decoded(ms.drop_last()) {
            Err(e) => Err(e),
            Ok(front) => match task_decoded(ms.last()) {
                Err(e) => Err(e),
                Ok(t) => Ok(front.push(t)),
            },
        }
    }
}

proof fn lemma_tasks_fail(ms: Seq<TaskMsgV>, n: int)
    requires
        0 <= n <= ms.len(),
        tasks_decoded(ms.subrange(0, n)) is Err,
    ensures
        tasks_decoded(ms) == tasks_decoded(ms.subrange(0, n)),
    decreases ms.len() - n,
{
    if n == ms.len() {
        assert(ms.subrange(0, n) =~= ms);
    } else {
        assert(ms.subrange(0, n + 1).drop_last() =~= ms.subrange(0, n));
        lemma_tasks_fail(ms, n + 1);
    }
}

pub fn tasks_from_pb(tasks: Vec<AcquisitionTaskProto>) -> (r: Result<
    Vec<AcquisitionTask>,
    ConvertError,
>)
    ensures
        match r {
            Ok(ts) => tasks_decoded(task_msgs_view(tasks@)) == Ok::<Seq<TaskV>, ConvertFault>(
                tasks_view(ts@),
            ),
            Err(e) => tasks_decoded(task_msgs_view(tasks@)) == Err::<Seq<TaskV>, ConvertFault>(e@),
        },
{
    let ghost all = tasks@;
    let ghost ms = task_msgs_view(all);
    let mut out: Vec<AcquisitionTask> = Vec::new();
    proof {
        assert(tasks_view(out@) =~= Seq::<TaskV>::empty());
        assert(ms.subrange(0, 0) =~= Seq::<TaskMsgV>::empty());
    }
    for m in messages: tasks
        invariant
            messages.seq() == all,
            ms == task_msgs_view(all),
            tasks_decoded(ms.subrange(0, messages.index() as int)) == Ok::<
                Seq<TaskV>,
                ConvertFault,
            >(tasks_view(out@)),
            tasks@ == all,
    {
        proof {
            let i = messages.index() as int;
            assert(m == all[i]);
            assert(ms.subrange(0, i + 1).drop_last() =~= ms.subrange(0, i));
            assert(ms.subrange(0, i + 1).last() == m@);
        }
        match task_from_pb(m) {
            Ok(t) => {
                let ghost front = tasks_view(out@);
                out.push(t);
                assert(tasks_view(out@) =~= front.push(t@));
            },
            Err(e) => {
                proof {
                    lemma_tasks_fail(ms, messages.index() + 1);
                }
                return Err(e);
            },
        }
    }
    assert(ms.subrange(0, all.len() as int) =~= ms);
    Ok(out)
}

// ---------------------------------------------------------------------------
// Small things
// ---------------------------------------------------------------------------

pub fn data_type_to_pb(dt: DataType) -> (r: String)
    ensures
        r@ == data_type_name(dt),
{
    dt.as_str().to_owned()
}

pub fn data_type_from_pb(s: &str) -> (r: Result<DataType, ConvertError>)
    ensures
        match r {
            Ok(t) => lowered(s@) == data_type_name(t),
            Err(e) => e@ == ConvertFault::DataType(s@) && forall|t: DataType|
                lowered(s@) != #[trigger] data_type_name(t),
        },
{
    match DataType::parse(s) {
        Ok(t) => Ok(t),
        Err(e) => Err(ConvertError::DataType(e)),
    }
}

pub fn descriptor_from_pb(d: PointDescriptorProto) -> (r: Result<PointDescriptor, ConvertError>)
    ensures
        match r {
            Ok(p) => p.point_key == d.point_key && lowered(d.data_type@) == data_type_name(
                p.data_type,
            ) && p.unit == d.unit && p.source_label is None,
            Err(e) => e@ == ConvertFault::DataType(d.data_type@) && forall|t: DataType|
                lowered(d.data_type@) != #[trigger] data_type_name(t),
        },
{
    match data_type_from_pb(d.data_type.as_str()) {
        Ok(data_type) => Ok(
            PointDescriptor { point_key: d.point_key, data_type, unit: d.unit, source_label: None },
        ),
        Err(e) => Err(e),
    }
}

pub fn connection_state_from_pb(s: &str) -> (r: Result<ConnectionState, ConvertError>)
    ensures
        match r {
            Ok(c) => s@ == state_name(c),
            Err(e) => e@ == ConvertFault::InvalidState(s@) && forall|c: ConnectionState|
                s@ != #[trigger] state_name(c),
        },
{
    if same_text(s, "STOPPED") {
        Ok(ConnectionState::Stopped)
    } else if same_text(s, "CONNECTING") {
        Ok(ConnectionState::Connecting)
    } else if same_text(s, "RUNNING") {
        Ok(ConnectionState::Running)
    } else if same_text(s, "RECONNECTING") {
        Ok(ConnectionState::Reconnecting)
    } else if same_text(s, "FAILED") {
        Ok(ConnectionState::Failed)
    } else {
        Err(ConvertError::InvalidState(s.to_owned()))
    }
}

// ---------------------------------------------------------------------------
// Results
// ---------------------------------------------------------------------------

pub fn ok_result() -> (r: GenericResult)
    ensures
        r.ok,
        r.error is None,
{
    GenericResult { ok: true, error: None }
}

pub fn error_detail(kind: ErrorKind, code: &str, message: &str) -> (r: ErrorDetail)
    ensures
        r@ == (DetailV { kind: error_kind_name(kind), code: code@, message: message@ }),
{
    ErrorDetail { kind: kind.as_str().to_owned(), code: code.to_owned(), message: message.to_owned() }
}

pub fn err_result(kind: ErrorKind, code: &str, message: &str) -> (r: GenericResult)
    ensures
        !r.ok,
        r.error matches Some(d) && d@ == (DetailV {
            kind: error_kind_name(kind),
            code: code@,
            message: message@,
        }),
{
    GenericResult { ok: false, error: Some(error_detail(kind, code, message)) }
}

/// The error in a result, if it is one. A failure that says nothing is an internal one.
pub fn result_into_error(r: GenericResult) -> (e: Option<ErrorDetail>)
    ensures
        match e {
            None => r.ok,
            Some(d) => !r.ok && match r.error {
                Some(x) => d == x,
                None => d@ == (DetailV {
                    kind: error_kind_name(ErrorKind::Internal),
                    code: ""@,
                    message: "peer returned failure without detail"@,
                }),
            },
        },
{
    if r.ok {
        return None;
    }
    match r.error {
        Some(d) => Some(d),
        None => Some(
            error_detail(ErrorKind::Internal, "", "peer returned failure without detail"),
        ),
    }
}

/// An error as the core speaks of it.
#[derive(Debug, Clone, PartialEq, Eq)]
pub struct ErrorDetailBox {
    pub kind: String,
    pub code: String,
    pub message: String,
}

impl View for ErrorDetailBox {
    type V = DetailV;

    open spec fn view(&self) -> DetailV {
        DetailV { kind: self.kind@, code: self.code@, message: self.message@ }
    }
}

impl ErrorDetailBox {
    /// The same error.
    pub fn of(d: &ErrorDetail) -> (r: ErrorDetailBox)
        ensures
            r@ == d@,
    {
        ErrorDetailBox { kind: d.kind.clone(), code: d.code.clone(), message: d.message.clone() }
    }

    /// Whether the configuration is at fault, so that trying again is of no use.
    pub fn is_configuration_error(&self) -> (r: bool)
        ensures
            r == (self.kind@ == error_kind_name(ErrorKind::Configuration)),
    {
        same_text(self.kind.as_str(), ErrorKind::Configuration.as_str())
    }
}

/// A length is sent in four bytes, the least first.
pub proof fn lengths_are_sent_least_byte_first(n: int)
    requires
        0 <= n <= 0xffff_ffff,
    ensures
        four_bytes(n).len() == 4,
        four_bytes(n)[0] == n % 256,
        four_bytes(n)[1] == (n / 256) % 256,
        four_bytes(n)[2] == (n / 65536) % 256,
        four_bytes(n)[3] == (n / 16777216) % 256,
{
}

/// A quality is read from its name; nothing said means good, and no other text is one.
pub proof fn qualities_are_read_by_name(s: Seq<char>)
    ensures
        s == ""@ ==> quality_decoded(s) == Ok::<Quality, ConvertFault>(Quality::Good),
        s == "GOOD"@ ==> quality_decoded(s) == Ok::<Quality, ConvertFault>(Quality::Good),
        s == "UNCERTAIN"@ ==> quality_decoded(s) == Ok::<Quality, ConvertFault>(Quality::Uncertain),
        s == "BAD"@ ==> quality_decoded(s) == Ok::<Quality, ConvertFault>(Quality::Bad),
        quality_decoded(s) is Err <==> s != ""@ && s != "GOOD"@ && s != "UNCERTAIN"@ && s
            != "BAD"@,
{
    reveal_strlit("");
    reveal_strlit("GOOD");
    reveal_strlit("UNCERTAIN");
    reveal_strlit("BAD");
    assert(""@.len() == 0);
    assert("GOOD"@.len() == 4);
    assert("UNCERTAIN"@.len() == 9);
    assert("BAD"@.len() == 3);
}

/// The origin of a value is sent as a number, and a number that is none of these says nothing.
pub proof fn origins_are_sent_as_numbers(n: i32)
    ensures
        origin_number(ValueOrigin::Unspecified) == 0,
        origin_number(ValueOrigin::Current) == 1,
        origin_number(ValueOrigin::LastKnown) == 2,
        origin_number(ValueOrigin::Placeholder) == 3,
        origin_decoded(n) is Current <==> n == 1,
        origin_decoded(n) is LastKnown <==> n == 2,
        origin_decoded(n) is Placeholder <==> n == 3,
        origin_decoded(n) is Unspecified <==> n != 1 && n != 2 && n != 3,
{
}

/// A value of a point is sent field by field.
pub proof fn points_are_sent_field_by_field(p: PointValueV)
    ensures
        point_encoded(p).point_id == p.point_id,
        point_encoded(p).value == Some(Some(p.value)),
        point_encoded(p).quality == quality_name(p.quality),
        point_encoded(p).quality_code == p.quality_code,
        point_encoded(p).source_timestamp_ns == p.source_timestamp_ns,
        point_encoded(p).value_origin == origin_number(
            normalized_origin(p.value_origin, p.quality),
        ),
{
}

/// A value of a point is taken exactly where its quality is one and it has a value; field by field.
pub proof fn points_are_taken_field_by_field(m: PointMsgV)
    ensures
        point_decoded(m) is Ok <==> quality_decoded(m.quality) is Ok && (m.value matches Some(v)
            && v is Some),
        point_decoded(m) matches Ok(p) ==> {
            &&& p.point_id == m.point_id
            &&& m.value == Some(Some(p.value))
            &&& quality_decoded(m.quality) == Ok::<Quality, ConvertFault>(p.quality)
            &&& p.quality_code == m.quality_code
            &&& p.source_timestamp_ns == m.source_timestamp_ns
            &&& p.value_origin == normalized_origin(origin_decoded(m.value_origin), p.quality)
        },
{
}

/// A batch is sent field by field, its values in their order.
pub proof fn batches_are_sent_field_by_field(b: BatchV)
    ensures
        batch_encoded(b).connection_handle == b.connection_handle,
        batch_encoded(b).stream_epoch == b.stream_epoch,
        batch_encoded(b).sequence == b.sequence,
        batch_encoded(b).timestamp_ns == b.timestamp_ns,
        batch_encoded(b).mono_ns == b.mono_ns,
        batch_encoded(b).values.len() == b.values.len(),
        forall|i: int|
            0 <= i < b.values.len() ==> #[trigger] batch_encoded(b).values[i] == point_encoded(
                b.values[i],
            ),
{
}

/// A batch is taken exactly where each of its values is; field by field, its values in their order.
pub proof fn batches_are_taken_field_by_field(m: BatchMsgV, i: int)
    requires
        0 <= i < m.values.len(),
    ensures
        batch_decoded(m) is Ok <==> forall|j: int|
            0 <= j < m.values.len() ==> point_decoded(#[trigger] m.values[j]) is Ok,
        batch_decoded(m) matches Ok(b) ==> {
            &&& b.connection_handle == m.connection_handle
            &&& b.stream_epoch == m.stream_epoch
            &&& b.sequence == m.sequence
            &&& b.timestamp_ns == m.timestamp_ns
            &&& b.mono_ns == m.mono_ns
            &&& b.values.len() == m.values.len()
            &&& point_decoded(m.values[i]) == Ok::<PointValueV, ConvertFault>(b.values[i])
        },
{
    lemma_points_taken(m.values, i);
}

proof fn lemma_points_taken(ms: Seq<PointMsgV>, i: int)
    ensures
        points_decoded(ms) is Ok <==> forall|j: int|
            0 <= j < ms.len() ==> point_decoded(#[trigger] ms[j]) is Ok,
        points_decoded(ms) matches Ok(ps) ==> ps.len() == ms.len() && (0 <= i < ms.len()
            ==> point_decoded(ms[i]) == Ok::<PointValueV, ConvertFault>(ps[i])),
    decreases ms.len(),
{
    if ms.len() > 0 {
        let front = ms.drop_last();
        lemma_points_taken(front, i);
        if forall|j: int| 0 <= j < ms.len() ==> point_decoded(#[trigger] ms[j]) is Ok {
            assert forall|j: int| 0 <= j < front.len() implies point_decoded(
                #[trigger] front[j],
            ) is Ok by {
                assert(ms[j] == front[j]);
            }
            assert(point_decoded(ms[ms.len() - 1]) is Ok);
        }
        if points_decoded(ms) is Ok {
            assert forall|j: int| 0 <= j < ms.len() implies point_decoded(
                #[trigger] ms[j],
            ) is Ok by {
                if j < front.len() {
                    assert(front[j] == ms[j]);
                }
            }
        }
    }
}

/// A task is sent field by field, and taken exactly where its mode is one of the two and its
/// binding is JSON; a task for events must make sense too.
pub proof fn tasks_are_sent_and_taken_field_by_field(t: TaskV, m: TaskMsgV)
    ensures
        task_encoded(t).id == t.id,
        t.mode is Poll ==> task_encoded(t).mode == "poll"@,
        t.mode is Subscribe ==> task_encoded(t).mode == "subscribe"@,
        task_encoded(t).interval_ms == t.interval_ms,
        task_encoded(t).binding_kind == t.kind,
        task_encoded(t).binding_config_json == json_text(t.config),
        task_decoded(m) is Ok <==> (m.mode == "poll"@ || m.mode == "subscribe"@) && json_parsed(
            m.binding_config_json,
        ) is Ok,
        task_decoded(m) matches Ok(x) ==> {
            &&& x.id == m.id
            &&& x.mode is Poll <==> m.mode == "poll"@
            &&& x.interval_ms == m.interval_ms
            &&& x.kind == m.binding_kind
            &&& json_parsed(m.binding_config_json) == Ok::<JsonV, Seq<char>>(x.config)
        },
        event_task_decoded(m) is Ok <==> (task_decoded(m) matches Ok(x) && task_fault(x) is None),
        event_task_decoded(m) matches Ok(x) ==> task_decoded(m) == Ok::<TaskV, ConvertFault>(x),
{
    reveal_strlit("poll");
    reveal_strlit("subscribe");
    assert("poll"@.len() == 4);
    assert("subscribe"@.len() == 9);
}

/// How a message that cannot be read is told.
pub proof fn unreadable_messages_are_told(s: Seq<char>)
    ensures
        convert_fault_text(ConvertFault::EmptyValue) == "value message has empty oneof"@,
        convert_fault_text(ConvertFault::DataType(s)) == "unknown data type: "@ + s,
        convert_fault_text(ConvertFault::InvalidMode(s)) == "invalid mode: "@ + s,
        convert_fault_text(ConvertFault::InvalidState(s)) == "invalid state: "@ + s,
        convert_fault_text(ConvertFault::InvalidQuality(s)) == "invalid quality: "@ + s,
        convert_fault_text(ConvertFault::Json(s)) == "json error: "@ + s,
        convert_fault_text(ConvertFault::InvalidEventTask(s)) == "invalid event task: "@ + s,
        convert_fault_text(ConvertFault::InvalidEventRecord(s)) == "invalid event record: "@ + s,
        convert_fault_text(ConvertFault::EventBatchTooLarge(s)) == "event batch too large: "@ + s,
{
}

/// Tasks are taken one by one; the first that cannot be read stops it.
pub proof fn tasks_are_taken_one_by_one(ms: Seq<TaskMsgV>, m: TaskMsgV)
    ensures
        tasks_decoded(Seq::empty()) matches Ok(ts) && ts.len() == 0,
        tasks_decoded(ms) matches Ok(ts) ==> (task_decoded(m) matches Ok(t) ==> tasks_decoded(
            ms.push(m),
        ) == Ok::<Seq<TaskV>, ConvertFault>(ts.push(t))),
        tasks_decoded(ms) is Err || task_decoded(m) is Err ==> tasks_decoded(ms.push(m)) is Err,
{
    assert(ms.push(m).drop_last() =~= ms);
}

/// The version of the protocol, from which on probes and events are spoken of, and how long a frame may be.
pub proof fn the_protocol_is_of_this_version()
    ensures
        PROTOCOL_MAJOR == 1,
        PROTOCOL_MINOR == 3,
        PROBE_RPC_MIN_MINOR == 2,
        EVENT_PLANE_MIN_MINOR == 3,
        MAX_FRAME_LEN == 4194304,
{
}

} // verus!
