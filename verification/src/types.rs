//! The values, points and tasks that core and drivers share.
use vstd::prelude::*;

use crate::float::{Double, Single};
use crate::json::{Json, JsonV};
use crate::text::{blank, cat2, cat3, find_repeat, first_repeat, is_blank, lowered, lowers_to};

verus! {

/// A time in nanoseconds since the start of 1970, UTC.
pub type TimestampNs = i64;

/// The nanoseconds since the start of 1970 that the clock of the machine shows, where it shows a
/// time after it: `std::time::SystemTime::now` and `duration_since`. Nothing is promised of it.
#[verifier::external_body]
fn nanos_since_epoch() -> (r: Option<u128>) {
    std::time::SystemTime::now().duration_since(std::time::UNIX_EPOCH).ok().map(|d| d.as_nanos())
}

/// A clock reading as a timestamp; zero for a clock that stands before 1970.
pub open spec fn clock_time(nanos: Option<u128>) -> TimestampNs {
    match nanos {
        Some(n) => n as i64,
        None => 0,
    }
}

/// A clock reading as a timestamp.
pub fn timestamp_of(nanos: Option<u128>) -> (r: TimestampNs)
    ensures
        r == clock_time(nanos),
{
    match nanos {
        Some(n) => #[verifier::truncate] (n as i64),
        None => 0,
    }
}

/// The time now.
pub fn now_unix_ns() -> (r: TimestampNs)
    ensures
        exists|nanos: Option<u128>| r == #[trigger] clock_time(nanos),
{
    timestamp_of(nanos_since_epoch())
}

// ---------------------------------------------------------------------------
// Data types
// ---------------------------------------------------------------------------

/// The type of a point's value.
#[derive(Debug, Clone, Copy, PartialEq, Eq, Hash, Structural)]
pub enum DataType {
    Bool,
    I32,
    U32,
    I64,
    U64,
    F32,
    F64,
    String,
    Bytes,
    DateTime,
    BoolArray,
    I32Array,
    U32Array,
    I64Array,
    U64Array,
    F32Array,
    F64Array,
    StringArray,
    DateTimeArray,
}

/// The name of a data type.
pub open spec fn data_type_name(t: DataType) -> Seq<char> {
    match t {
        DataType::Bool => "bool"@,
        DataType::I32 => "i32"@,
        DataType::U32 => "u32"@,
        DataType::I64 => "i64"@,
        DataType::U64 => "u64"@,
        DataType::F32 => "f32"@,
        DataType::F64 => "f64"@,
        DataType::String => "string"@,
        DataType::Bytes => "bytes"@,
        DataType::DateTime => "datetime"@,
        DataType::BoolArray => "bool[]"@,
        DataType::I32Array => "i32[]"@,
        DataType::U32Array => "u32[]"@,
        DataType::I64Array => "i64[]"@,
        DataType::U64Array => "u64[]"@,
        DataType::F32Array => "f32[]"@,
        DataType::F64Array => "f64[]"@,
        DataType::StringArray => "string[]"@,
        DataType::DateTimeArray => "datetime[]"@,
    }
}

/// A text that names no data type.
#[derive(Debug, Clone, PartialEq)]
pub struct UnknownDataType(pub String);

impl UnknownDataType {
    pub fn message(&self) -> (r: String)
        ensures
            r@ == "unknown data type: "@ + self.0@,
    {
        cat2("unknown data type: ", self.0.as_str())
    }
}

impl DataType {
    pub fn as_str(&self) -> (r: &'static str)
        ensures
            r@ == data_type_name(*self),
    {
        match self {
            DataType::Bool => "bool",
            DataType::I32 => "i32",
            DataType::U32 => "u32",
            DataType::I64 => "i64",
            DataType::U64 => "u64",
            DataType::F32 => "f32",
            DataType::F64 => "f64",
            DataType::String => "string",
            DataType::Bytes => "bytes",
            DataType::DateTime => "datetime",
            DataType::BoolArray => "bool[]",
            DataType::I32Array => "i32[]",
            DataType::U32Array => "u32[]",
            DataType::I64Array => "i64[]",
            DataType::U64Array => "u64[]",
            DataType::F32Array => "f32[]",
            DataType::F64Array => "f64[]",
            DataType::StringArray => "string[]",
            DataType::DateTimeArray => "datetime[]",
        }
    }

    /// The data type that a text names, in capital or small letters.
    pub fn parse(s: &str) -> (r: Result<DataType, UnknownDataType>)
        ensures
            match r {
                Ok(t) => lowered(s@) == data_type_name(t),
                Err(e) => e.0@ == s@ && forall|t: DataType|
                    lowered(s@) != #[trigger] data_type_name(t),
            },
    {
        if lowers_to(s, "bool") {
            return Ok(DataType::Bool);
        }
        if lowers_to(s, "i32") {
            return Ok(DataType::I32);
        }
        if lowers_to(s, "u32") {
            return Ok(DataType::U32);
        }
        if lowers_to(s, "i64") {
            return Ok(DataType::I64);
        }
        if lowers_to(s, "u64") {
            return Ok(DataType::U64);
        }
        if lowers_to(s, "f32") {
            return Ok(DataType::F32);
        }
        if lowers_to(s, "f64") {
            return Ok(DataType::F64);
        }
        if lowers_to(s, "string") {
            return Ok(DataType::String);
        }
        if lowers_to(s, "bytes") {
            return Ok(DataType::Bytes);
        }
        if lowers_to(s, "datetime") {
            return Ok(DataType::DateTime);
        }
        if lowers_to(s, "bool[]") {
            return Ok(DataType::BoolArray);
        }
        if lowers_to(s, "i32[]") {
            return Ok(DataType::I32Array);
        }
        if lowers_to(s, "u32[]") {
            return Ok(DataType::U32Array);
        }
        if lowers_to(s, "i64[]") {
            return Ok(DataType::I64Array);
        }
        if lowers_to(s, "u64[]") {
            return Ok(DataType::U64Array);
        }
        if lowers_to(s, "f32[]") {
            return Ok(DataType::F32Array);
        }
        if lowers_to(s, "f64[]") {
            return Ok(DataType::F64Array);
        }
        if lowers_to(s, "string[]") {
            return Ok(DataType::StringArray);
        }
        if lowers_to(s, "datetime[]") {
            return Ok(DataType::DateTimeArray);
        }
        Err(UnknownDataType(s.to_owned()))
    }
}

impl std::str::FromStr for DataType {
    type Err = UnknownDataType;

    fn from_str(s: &str) -> (r: Result<DataType, UnknownDataType>)
        ensures
            match r {
                Ok(t) => lowered(s@) == data_type_name(t),
                Err(e) => e.0@ == s@ && forall|t: DataType|
                    lowered(s@) != #[trigger] data_type_name(t),
            },
    {
        DataType::parse(s)
    }
}

/// The name of a data type is read as that data type and as no other.
pub proof fn data_type_name_parses_back(t: DataType, u: DataType)
    ensures
        lowered(data_type_name(t)) == data_type_name(t),
        data_type_name(t) == data_type_name(u) ==> t == u,
{
    reveal_strlit("bool");
    reveal_strlit("i32");
    reveal_strlit("u32");
    reveal_strlit("i64");
    reveal_strlit("u64");
    reveal_strlit("f32");
    reveal_strlit("f64");
    reveal_strlit("string");
    reveal_strlit("bytes");
    reveal_strlit("datetime");
    reveal_strlit("bool[]");
    reveal_strlit("i32[]");
    reveal_strlit("u32[]");
    reveal_strlit("i64[]");
    reveal_strlit("u64[]");
    reveal_strlit("f32[]");
    reveal_strlit("f64[]");
    reveal_strlit("string[]");
    reveal_strlit("datetime[]");
    assert(lowered(data_type_name(t)) =~= data_type_name(t));
    let a = data_type_name(t);
    let b = data_type_name(u);
    if a == b {
        assert(a.len() == b.len());
        assert(a[0] == b[0]);
        assert(a[1] == b[1]);
        assert(a[2] == b[2]);
        assert(a.len() > 3 ==> a[3] == b[3]);
        assert(a.len() > 4 ==> a[4] == b[4]);
    }
}

// ---------------------------------------------------------------------------
// Quality and origin
// ---------------------------------------------------------------------------

/// How far a value can be relied on.
#[derive(Debug, Clone, Copy, PartialEq, Eq, Structural)]
pub enum Quality {
    Good,
    Uncertain,
    Bad,
}

/// The name of a quality.
pub open spec fn quality_name(q: Quality) -> Seq<char> {
    match q {
        Quality::Good => "GOOD"@,
        Quality::Uncertain => "UNCERTAIN"@,
        Quality::Bad => "BAD"@,
    }
}

impl Quality {
    pub fn as_str(&self) -> (r: &'static str)
        ensures
            r@ == quality_name(*self),
    {
        match self {
            Quality::Good => "GOOD",
            Quality::Uncertain => "UNCERTAIN",
            Quality::Bad => "BAD",
        }
    }
}

/// The quality of a value of which nothing else is said.
pub fn default_quality() -> (r: Quality)
    ensures
        r == Quality::Good,
{
    Quality::Good
}

/// Where a value comes from: just read, the last good one, a placeholder, or not said.
#[derive(Debug, Clone, Copy, PartialEq, Eq, Structural)]
pub enum ValueOrigin {
    Unspecified,
    Current,
    LastKnown,
    Placeholder,
}

/// The name of an origin.
pub open spec fn origin_name(o: ValueOrigin) -> Seq<char> {
    match o {
        ValueOrigin::Unspecified => "UNSPECIFIED"@,
        ValueOrigin::Current => "CURRENT"@,
        ValueOrigin::LastKnown => "LAST_KNOWN"@,
        ValueOrigin::Placeholder => "PLACEHOLDER"@,
    }
}

/// An origin that was not said: a good value was just read, any other is a placeholder.
pub open spec fn normalized_origin(o: ValueOrigin, q: Quality) -> ValueOrigin {
    match o {
        ValueOrigin::Unspecified => if q is Good {
            ValueOrigin::Current
        } else {
            ValueOrigin::Placeholder
        },
        _ => o,
    }
}

impl Default for ValueOrigin {
    fn default() -> (r: ValueOrigin)
        ensures
            r == ValueOrigin::Unspecified,
    {
        ValueOrigin::Unspecified
    }
}

impl ValueOrigin {
    pub fn as_str(&self) -> (r: &'static str)
        ensures
            r@ == origin_name(*self),
    {
        match self {
            ValueOrigin::Unspecified => "UNSPECIFIED",
            ValueOrigin::Current => "CURRENT",
            ValueOrigin::LastKnown => "LAST_KNOWN",
            ValueOrigin::Placeholder => "PLACEHOLDER",
        }
    }

    pub fn normalize_unspecified(self, quality: Quality) -> (r: ValueOrigin)
        ensures
            r == normalized_origin(self, quality),
    {
        match self {
            ValueOrigin::Unspecified => if quality == Quality::Good {
                ValueOrigin::Current
            } else {
                ValueOrigin::Placeholder
            },
            other => other,
        }
    }
}

/// A normalized origin is said, a second normalization changes nothing, and what was said stays.
pub proof fn normalization_settles(o: ValueOrigin, q: Quality)
    ensures
        !(normalized_origin(o, q) is Unspecified),
        normalized_origin(normalized_origin(o, q), q) == normalized_origin(o, q),
        !(o is Unspecified) ==> normalized_origin(o, q) == o,
{
}

// ---------------------------------------------------------------------------
// Values
// ---------------------------------------------------------------------------

/// A value of a point or an event attribute.
#[derive(Debug, Clone, PartialEq)]
pub enum TypedValue {
    Bool(bool),
    I32(i32),
    U32(u32),
    I64(i64),
    U64(u64),
    F32(Single),
    F64(Double),
    String(String),
    Bytes(Vec<u8>),
    DateTime(i64),
    BoolArray(Vec<bool>),
    I32Array(Vec<i32>),
    U32Array(Vec<u32>),
    I64Array(Vec<i64>),
    U64Array(Vec<u64>),
    F32Array(Vec<Single>),
    F64Array(Vec<Double>),
    StringArray(Vec<String>),
    DateTimeArray(Vec<i64>),
}

/// What a [`TypedValue`] is.
pub enum ValueV {
    Bool(bool),
    I32(i32),
    U32(u32),
    I64(i64),
    U64(u64),
    F32(Single),
    F64(Double),
    String(Seq<char>),
    Bytes(Seq<u8>),
    DateTime(i64),
    BoolArray(Seq<bool>),
    I32Array(Seq<i32>),
    U32Array(Seq<u32>),
    I64Array(Seq<i64>),
    U64Array(Seq<u64>),
    F32Array(Seq<Single>),
    F64Array(Seq<Double>),
    StringArray(Seq<Seq<char>>),
    DateTimeArray(Seq<i64>),
}

impl View for TypedValue {
    type V = ValueV;

    open spec fn view(&self) -> ValueV {
        match self {
            TypedValue::Bool(x) => ValueV::Bool(*x),
            TypedValue::I32(x) => ValueV::I32(*x),
            TypedValue::U32(x) => ValueV::U32(*x),
            TypedValue::I64(x) => ValueV::I64(*x),
            TypedValue::U64(x) => ValueV::U64(*x),
            TypedValue::F32(x) => ValueV::F32(*x),
            TypedValue::F64(x) => ValueV::F64(*x),
            TypedValue::String(x) => ValueV::String(x@),
            TypedValue::Bytes(x) => ValueV::Bytes(x@),
            TypedValue::DateTime(x) => ValueV::DateTime(*x),
            TypedValue::BoolArray(x) => ValueV::BoolArray(x@),
            TypedValue::I32Array(x) => ValueV::I32Array(x@),
            TypedValue::U32Array(x) => ValueV::U32Array(x@),
            TypedValue::I64Array(x) => ValueV::I64Array(x@),
            TypedValue::U64Array(x) => ValueV::U64Array(x@),
            TypedValue::F32Array(x) => ValueV::F32Array(x@),
            TypedValue::F64Array(x) => ValueV::F64Array(x@),
            TypedValue::StringArray(x) => ValueV::StringArray(x@.map_values(|s: String| s@)),
            TypedValue::DateTimeArray(x) => ValueV::DateTimeArray(x@),
        }
    }
}

/// The data type of a value.
pub open spec fn value_type(v: ValueV) -> DataType {
    match v {
        ValueV::Bool(_) => DataType::Bool,
        ValueV::I32(_) => DataType::I32,
        ValueV::U32(_) => DataType::U32,
        ValueV::I64(_) => DataType::I64,
        ValueV::U64(_) => DataType::U64,
        ValueV::F32(_) => DataType::F32,
        ValueV::F64(_) => DataType::F64,
        ValueV::String(_) => DataType::String,
        ValueV::Bytes(_) => DataType::Bytes,
        ValueV::DateTime(_) => DataType::DateTime,
        ValueV::BoolArray(_) => DataType::BoolArray,
        ValueV::I32Array(_) => DataType::I32Array,
        ValueV::U32Array(_) => DataType::U32Array,
        ValueV::I64Array(_) => DataType::I64Array,
        ValueV::U64Array(_) => DataType::U64Array,
        ValueV::F32Array(_) => DataType::F32Array,
        ValueV::F64Array(_) => DataType::F64Array,
        ValueV::StringArray(_) => DataType::StringArray,
        ValueV::DateTimeArray(_) => DataType::DateTimeArray,
    }
}

/// The neutral value of a data type: zero, false, nothing in it.
pub open spec fn placeholder(t: DataType) -> ValueV {
    match t {
        DataType::Bool => ValueV::Bool(false),
        DataType::I32 => ValueV::I32(0),
        DataType::U32 => ValueV::U32(0),
        DataType::I64 => ValueV::I64(0),
        DataType::U64 => ValueV::U64(0),
        DataType::F32 => ValueV::F32(Single { bits: 0 }),
        DataType::F64 => ValueV::F64(Double { bits: 0 }),
        DataType::String => ValueV::String(Seq::empty()),
        DataType::Bytes => ValueV::Bytes(Seq::empty()),
        DataType::DateTime => ValueV::DateTime(0),
        DataType::BoolArray => ValueV::BoolArray(Seq::empty()),
        DataType::I32Array => ValueV::I32Array(Seq::empty()),
        DataType::U32Array => ValueV::U32Array(Seq::empty()),
        DataType::I64Array => ValueV::I64Array(Seq::empty()),
        DataType::U64Array => ValueV::U64Array(Seq::empty()),
        DataType::F32Array => ValueV::F32Array(Seq::empty()),
        DataType::F64Array => ValueV::F64Array(Seq::empty()),
        DataType::StringArray => ValueV::StringArray(Seq::empty()),
        DataType::DateTimeArray => ValueV::DateTimeArray(Seq::empty()),
    }
}

/// The neutral value of a data type is of that data type.
pub proof fn placeholder_is_typed(t: DataType)
    ensures
        value_type(placeholder(t)) == t,
{
}

impl TypedValue {
    pub fn data_type(&self) -> (r: DataType)
        ensures
            r == value_type(self@),
    {
        match self {
            TypedValue::Bool(_) => DataType::Bool,
            TypedValue::I32(_) => DataType::I32,
            TypedValue::U32(_) => DataType::U32,
            TypedValue::I64(_) => DataType::I64,
            TypedValue::U64(_) => DataType::U64,
            TypedValue::F32(_) => DataType::F32,
            TypedValue::F64(_) => DataType::F64,
            TypedValue::String(_) => DataType::String,
            TypedValue::Bytes(_) => DataType::Bytes,
            TypedValue::DateTime(_) => DataType::DateTime,
            TypedValue::BoolArray(_) => DataType::BoolArray,
            TypedValue::I32Array(_) => DataType::I32Array,
            TypedValue::U32Array(_) => DataType::U32Array,
            TypedValue::I64Array(_) => DataType::I64Array,
            TypedValue::U64Array(_) => DataType::U64Array,
            TypedValue::F32Array(_) => DataType::F32Array,
            TypedValue::F64Array(_) => DataType::F64Array,
            TypedValue::StringArray(_) => DataType::StringArray,
            TypedValue::DateTimeArray(_) => DataType::DateTimeArray,
        }
    }

    /// The neutral value of a data type, for a point without any good value yet.
    pub fn typed_placeholder(data_type: DataType) -> (r: TypedValue)
        ensures
            r@ == placeholder(data_type),
    {
        let r: TypedValue = match data_type {
            DataType::Bool => TypedValue::Bool(false),
            DataType::I32 => TypedValue::I32(0),
            DataType::U32 => TypedValue::U32(0),
            DataType::I64 => TypedValue::I64(0),
            DataType::U64 => TypedValue::U64(0),
            DataType::F32 => TypedValue::F32(Single { bits: 0 }),
            DataType::F64 => TypedValue::F64(Double { bits: 0 }),
            DataType::String => TypedValue::String(String::new()),
            DataType::Bytes => TypedValue::Bytes(Vec::new()),
            DataType::DateTime => TypedValue::DateTime(0),
            DataType::BoolArray => TypedValue::BoolArray(Vec::new()),
            DataType::I32Array => TypedValue::I32Array(Vec::new()),
            DataType::U32Array => TypedValue::U32Array(Vec::new()),
            DataType::I64Array => TypedValue::I64Array(Vec::new()),
            DataType::U64Array => TypedValue::U64Array(Vec::new()),
            DataType::F32Array => TypedValue::F32Array(Vec::new()),
            DataType::F64Array => TypedValue::F64Array(Vec::new()),
            DataType::StringArray => TypedValue::StringArray(Vec::new()),
            DataType::DateTimeArray => TypedValue::DateTimeArray(Vec::new()),
        };
        assert(r matches TypedValue::StringArray(x) ==> x@.map_values(|s: String| s@) =~= Seq::<
            Seq<char>,
        >::empty());
        r
    }

    /// An equal value.
    pub fn copy(&self) -> (r: TypedValue)
        ensures
            r@ == self@,
    {
        match self {
            TypedValue::Bool(x) => TypedValue::Bool(*x),
            TypedValue::I32(x) => TypedValue::I32(*x),
            TypedValue::U32(x) => TypedValue::U32(*x),
            TypedValue::I64(x) => TypedValue::I64(*x),
            TypedValue::U64(x) => TypedValue::U64(*x),
            TypedValue::F32(x) => TypedValue::F32(*x),
            TypedValue::F64(x) => TypedValue::F64(*x),
            TypedValue::String(x) => TypedValue::String(x.clone()),
            TypedValue::Bytes(x) => TypedValue::Bytes(copy_bytes(x)),
            TypedValue::DateTime(x) => TypedValue::DateTime(*x),
            TypedValue::BoolArray(x) => TypedValue::BoolArray(copy_bools(x)),
            TypedValue::I32Array(x) => TypedValue::I32Array(copy_i32s(x)),
            TypedValue::U32Array(x) => TypedValue::U32Array(copy_u32s(x)),
            TypedValue::I64Array(x) => TypedValue::I64Array(copy_i64s(x)),
            TypedValue::U64Array(x) => TypedValue::U64Array(copy_u64s(x)),
            TypedValue::F32Array(x) => TypedValue::F32Array(copy_singles(x)),
            TypedValue::F64Array(x) => TypedValue::F64Array(copy_doubles(x)),
            TypedValue::StringArray(x) => TypedValue::StringArray(copy_texts(x)),
            TypedValue::DateTimeArray(x) => TypedValue::DateTimeArray(copy_i64s(x)),
        }
    }
}

pub fn copy_bytes(x: &Vec<u8>) -> (r: Vec<u8>)
    ensures
        r@ == x@,
{
    let r: Vec<u8> = x.clone();
    assert(r@ =~= x@);
    r
}

pub fn copy_bools(x: &Vec<bool>) -> (r: Vec<bool>)
    ensures
        r@ == x@,
{
    let r: Vec<bool> = x.clone();
    assert(r@ =~= x@);
    r
}

pub fn copy_i32s(x: &Vec<i32>) -> (r: Vec<i32>)
    ensures
        r@ == x@,
{
    let r: Vec<i32> = x.clone();
    assert(r@ =~= x@);
    r
}

pub fn copy_u32s(x: &Vec<u32>) -> (r: Vec<u32>)
    ensures
        r@ == x@,
{
    let r: Vec<u32> = x.clone();
    assert(r@ =~= x@);
    r
}

pub fn copy_i64s(x: &Vec<i64>) -> (r: Vec<i64>)
    ensures
        r@ == x@,
{
    let r: Vec<i64> = x.clone();
    assert(r@ =~= x@);
    r
}

pub fn copy_u64s(x: &Vec<u64>) -> (r: Vec<u64>)
    ensures
        r@ == x@,
{
    let r: Vec<u64> = x.clone();
    assert(r@ =~= x@);
    r
}

pub fn copy_singles(x: &Vec<Single>) -> (r: Vec<Single>)
    ensures
        r@ == x@,
{
    let r: Vec<Single> = x.clone();
    assert(r@ =~= x@);
    r
}

pub fn copy_doubles(x: &Vec<Double>) -> (r: Vec<Double>)
    ensures
        r@ == x@,
{
    let r: Vec<Double> = x.clone();
    assert(r@ =~= x@);
    r
}

pub fn copy_texts(x: &Vec<String>) -> (r: Vec<String>)
    ensures
        r@ == x@,
{
    let mut r: Vec<String> = Vec::new();
    let mut i: usize = 0;
    while i < x.len()
        invariant
            i <= x.len(),
            r@ == x@.subrange(0, i as int),
        decreases x.len() - i,
    {
        r.push(x[i].clone());
        assert(r@ =~= x@.subrange(0, i + 1));
        i = i + 1;
    }
    assert(x@.subrange(0, x@.len() as int) =~= x@);
    r
}

/// One sample of a point.
#[derive(Debug, Clone, PartialEq)]
pub struct PointValue {
    pub point_id: u32,
    pub value: TypedValue,
    pub quality: Quality,
    pub quality_code: Option<i32>,
    pub source_timestamp_ns: Option<TimestampNs>,
    pub value_origin: ValueOrigin,
}

/// What a [`PointValue`] is.
pub struct PointValueV {
    pub point_id: u32,
    pub value: ValueV,
    pub quality: Quality,
    pub quality_code: Option<i32>,
    pub source_timestamp_ns: Option<TimestampNs>,
    pub value_origin: ValueOrigin,
}

impl View for PointValue {
    type V = PointValueV;

    open spec fn view(&self) -> PointValueV {
        PointValueV {
            point_id: self.point_id,
            value: self.value@,
            quality: self.quality,
            quality_code: self.quality_code,
            source_timestamp_ns: self.source_timestamp_ns,
            value_origin: self.value_origin,
        }
    }
}

/// A sample with its origin said.
pub open spec fn normalized_point(p: PointValueV) -> PointValueV {
    PointValueV { value_origin: normalized_origin(p.value_origin, p.quality), ..p }
}

impl PointValue {
    /// A good value that was just read.
    pub fn good(point_id: u32, value: TypedValue) -> (r: PointValue)
        ensures
            r == (PointValue {
                point_id,
                value,
                quality: Quality::Good,
                quality_code: None,
                source_timestamp_ns: None,
                value_origin: ValueOrigin::Current,
            }),
    {
        PointValue {
            point_id,
            value,
            quality: Quality::Good,
            quality_code: None,
            source_timestamp_ns: None,
            value_origin: ValueOrigin::Current,
        }
    }

    pub fn normalized(self) -> (r: PointValue)
        ensures
            r@ == normalized_point(self@),
            r.value == self.value,
    {
        let mut p: PointValue = self;
        p.value_origin = p.value_origin.normalize_unspecified(p.quality);
        p
    }
}

/// Samples that a connection delivers together.
#[derive(Debug, Clone, PartialEq)]
pub struct DataBatch {
    pub connection_handle: u32,
    pub stream_epoch: u64,
    pub sequence: u64,
    pub timestamp_ns: TimestampNs,
    pub values: Vec<PointValue>,
    pub mono_ns: Option<u64>,
}

// ---------------------------------------------------------------------------
// Tasks
// ---------------------------------------------------------------------------

/// How a task gets its data: by asking or by being told.
#[derive(Debug, Clone, Copy, PartialEq, Eq, Structural)]
pub enum TaskMode {
    Poll,
    Subscribe,
}

/// The name of a task mode.
pub open spec fn mode_name(m: TaskMode) -> Seq<char> {
    match m {
        TaskMode::Poll => "poll"@,
        TaskMode::Subscribe => "subscribe"@,
    }
}

impl TaskMode {
    pub fn as_str(&self) -> (r: &'static str)
        ensures
            r@ == mode_name(*self),
    {
        match self {
            TaskMode::Poll => "poll",
            TaskMode::Subscribe => "subscribe",
        }
    }
}

/// What a driver is to do, in the driver's own terms.
#[derive(Debug, Clone, PartialEq)]
pub struct DriverBinding {
    pub kind: String,
    pub config: Json,
}

/// A task that acquires points.
#[derive(Debug, Clone, PartialEq)]
pub struct AcquisitionTask {
    pub id: String,
    pub mode: TaskMode,
    pub interval_ms: Option<u64>,
    pub binding: DriverBinding,
}

/// What a task is.
pub struct TaskV {
    pub id: Seq<char>,
    pub mode: TaskMode,
    pub interval_ms: Option<u64>,
    pub kind: Seq<char>,
    pub config: JsonV,
}

impl View for AcquisitionTask {
    type V = TaskV;

    open spec fn view(&self) -> TaskV {
        TaskV {
            id: self.id@,
            mode: self.mode,
            interval_ms: self.interval_ms,
            kind: self.binding.kind@,
            config: self.binding.config@,
        }
    }
}

/// What is wrong with a task.
pub enum TaskFault {
    EmptyTaskId,
    PollRequiresInterval,
}

/// A task has an id that is not blank, and one that polls says how often.
pub open spec fn task_fault(t: TaskV) -> Option<TaskFault> {
    if blank(t.id) {
        Some(TaskFault::EmptyTaskId)
    } else if t.mode is Poll && (t.interval_ms is None || t.interval_ms->0 == 0) {
        Some(TaskFault::PollRequiresInterval)
    } else {
        None
    }
}

/// What is wrong with an acquisition task.
#[derive(Debug, Clone, PartialEq)]
pub enum TaskValidationError {
    EmptyTaskId,
    PollRequiresInterval { task: String },
}

/// How the complaint about a task reads.
pub open spec fn task_fault_text(f: TaskFault, id: Seq<char>) -> Seq<char> {
    match f {
        TaskFault::EmptyTaskId => "task id 不能为空"@,
        TaskFault::PollRequiresInterval => "Poll 任务 `"@ + id + "` 必须提供正整数 interval_ms"@,
    }
}

impl TaskValidationError {
    /// What the error says, of which task.
    pub open spec fn says(self, f: TaskFault, id: Seq<char>) -> bool {
        match self {
            TaskValidationError::EmptyTaskId => f is EmptyTaskId,
            TaskValidationError::PollRequiresInterval { task } => f is PollRequiresInterval
                && task@ == id,
        }
    }

    pub fn message(&self) -> (r: String)
        ensures
            forall|f: TaskFault, id: Seq<char>| #[trigger]
                self.says(f, id) ==> r@ == task_fault_text(f, id),
    {
        match self {
            TaskValidationError::EmptyTaskId => "task id 不能为空".to_owned(),
            TaskValidationError::PollRequiresInterval { task } => cat3(
                "Poll 任务 `",
                task.as_str(),
                "` 必须提供正整数 interval_ms",
            ),
        }
    }
}

impl AcquisitionTask {
    pub fn validate(&self) -> (r: Result<(), TaskValidationError>)
        ensures
            match r {
                Ok(()) => task_fault(self@) is None,
                Err(e) => task_fault(self@) is Some && e.says(task_fault(self@)->0, self@.id),
            },
    {
        if is_blank(self.id.as_str()) {
            return Err(TaskValidationError::EmptyTaskId);
        }
        match self.mode {
            TaskMode::Poll => {
                let interval: u64 = match self.interval_ms {
                    Some(n) => n,
                    None => 0,
                };
                if interval == 0 {
                    return Err(
                        TaskValidationError::PollRequiresInterval { task: self.id.clone() },
                    );
                }
            },
            TaskMode::Subscribe => {},
        }
        Ok(())
    }

    /// An equal task.
    pub fn copy(&self) -> (r: AcquisitionTask)
        ensures
            r@ == self@,
    {
        AcquisitionTask {
            id: self.id.clone(),
            mode: self.mode,
            interval_ms: self.interval_ms,
            binding: DriverBinding {
                kind: self.binding.kind.clone(),
                config: self.binding.config.copy(),
            },
        }
    }
}

// ---------------------------------------------------------------------------
// Points
// ---------------------------------------------------------------------------

/// A point as a driver describes it, without an id.
#[derive(Debug, Clone, PartialEq)]
pub struct PointDescriptor {
    pub point_key: String,
    pub data_type: DataType,
    pub unit: Option<String>,
    pub source_label: Option<String>,
}

/// A point with the id that it keeps.
#[derive(Debug, Clone, PartialEq)]
pub struct PointDefinition {
    pub point_id: u32,
    pub point_key: String,
    pub data_type: DataType,
    pub unit: Option<String>,
    pub source_label: Option<String>,
    pub display_name: Option<String>,
}

/// A key that two points of an endpoint have.
#[derive(Debug, Clone, PartialEq)]
pub struct DuplicatePointKey(pub String);

impl DuplicatePointKey {
    pub fn message(&self) -> (r: String)
        ensures
            r@ == "duplicate point_key: `"@ + self.0@ + "`"@,
    {
        cat3("duplicate point_key: `", self.0.as_str(), "`")
    }
}

/// The keys of some points.
pub open spec fn point_keys(descriptors: Seq<PointDescriptor>) -> Seq<Seq<char>> {
    descriptors.map_values(|d: PointDescriptor| d.point_key@)
}

/// No two points with the same key; else the first key that stands earlier too.
pub fn ensure_unique_point_keys(descriptors: &[PointDescriptor]) -> (r: Result<
    (),
    DuplicatePointKey,
>)
    ensures
        match r {
            Ok(()) => first_repeat(point_keys(descriptors@)) is None,
            Err(e) => first_repeat(point_keys(descriptors@)) is Some && e.0@ == point_keys(
                descriptors@,
            )[first_repeat(point_keys(descriptors@))->0],
        },
{
    let mut keys: Vec<String> = Vec::new();
    let mut i: usize = 0;
    while i < descriptors.len()
        invariant
            i <= descriptors.len(),
            keys.len() == i,
            forall|j: int| 0 <= j < i ==> (#[trigger] keys@[j])@ == descriptors@[j].point_key@,
        decreases descriptors.len() - i,
    {
        keys.push(descriptors[i].point_key.clone());
        i = i + 1;
    }
    assert(crate::text::texts_view(keys@) =~= point_keys(descriptors@));
    match find_repeat(&keys) {
        Some(p) => Err(DuplicatePointKey(keys[p].clone())),
        None => Ok(()),
    }
}

// ---------------------------------------------------------------------------
// States, errors, drivers
// ---------------------------------------------------------------------------

/// What a connection is doing.
#[derive(Debug, Clone, Copy, PartialEq, Eq, Structural)]
pub enum ConnectionState {
    Stopped,
    Connecting,
    Running,
    Reconnecting,
    Failed,
}

/// The name of a connection state.
pub open spec fn state_name(s: ConnectionState) -> Seq<char> {
    match s {
        ConnectionState::Stopped => "STOPPED"@,
        ConnectionState::Connecting => "CONNECTING"@,
        ConnectionState::Running => "RUNNING"@,
        ConnectionState::Reconnecting => "RECONNECTING"@,
        ConnectionState::Failed => "FAILED"@,
    }
}

impl ConnectionState {
    pub fn as_str(&self) -> (r: &'static str)
        ensures
            r@ == state_name(*self),
    {
        match self {
            ConnectionState::Stopped => "STOPPED",
            ConnectionState::Connecting => "CONNECTING",
            ConnectionState::Running => "RUNNING",
            ConnectionState::Reconnecting => "RECONNECTING",
            ConnectionState::Failed => "FAILED",
        }
    }
}

/// What kind of error a driver reports.
#[derive(Debug, Clone, Copy, PartialEq, Eq, Structural)]
pub enum ErrorKind {
    Configuration,
    Connection,
    Timeout,
    Address,
    Protocol,
    Decode,
    Device,
    Unsupported,
    Internal,
}

/// The name of an error kind.
pub open spec fn error_kind_name(k: ErrorKind) -> Seq<char> {
    match k {
        ErrorKind::Configuration => "ConfigurationError"@,
        ErrorKind::Connection => "ConnectionError"@,
        ErrorKind::Timeout => "Timeout"@,
        ErrorKind::Address => "AddressError"@,
        ErrorKind::Protocol => "ProtocolError"@,
        ErrorKind::Decode => "DecodeError"@,
        ErrorKind::Device => "DeviceError"@,
        ErrorKind::Unsupported => "Unsupported"@,
        ErrorKind::Internal => "InternalError"@,
    }
}

impl ErrorKind {
    pub fn as_str(&self) -> (r: &'static str)
        ensures
            r@ == error_kind_name(*self),
    {
        match self {
            ErrorKind::Configuration => "ConfigurationError",
            ErrorKind::Connection => "ConnectionError",
            ErrorKind::Timeout => "Timeout",
            ErrorKind::Address => "AddressError",
            ErrorKind::Protocol => "ProtocolError",
            ErrorKind::Decode => "DecodeError",
            ErrorKind::Device => "DeviceError",
            ErrorKind::Unsupported => "Unsupported",
            ErrorKind::Internal => "InternalError",
        }
    }
}

/// What a driver says of itself.
#[derive(Debug, Clone, PartialEq)]
pub struct DriverMetadata {
    pub driver_id: String,
    pub name: String,
    pub version: String,
    pub protocol_major: u32,
    pub protocol_minor: u32,
}

// ---------------------------------------------------------------------------
// What names and kinds stand for
// ---------------------------------------------------------------------------

/// A value is of the data type that has its name, and of no other.
pub proof fn values_are_of_their_own_type(v: ValueV)
    ensures
        v is Bool <==> value_type(v) is Bool,
        v is I32 <==> value_type(v) is I32,
        v is U32 <==> value_type(v) is U32,
        v is I64 <==> value_type(v) is I64,
        v is U64 <==> value_type(v) is U64,
        v is F32 <==> value_type(v) is F32,
        v is F64 <==> value_type(v) is F64,
        v is String <==> value_type(v) is String,
        v is Bytes <==> value_type(v) is Bytes,
        v is DateTime <==> value_type(v) is DateTime,
        v is BoolArray <==> value_type(v) is BoolArray,
        v is I32Array <==> value_type(v) is I32Array,
        v is U32Array <==> value_type(v) is U32Array,
        v is I64Array <==> value_type(v) is I64Array,
        v is U64Array <==> value_type(v) is U64Array,
        v is F32Array <==> value_type(v) is F32Array,
        v is F64Array <==> value_type(v) is F64Array,
        v is StringArray <==> value_type(v) is StringArray,
        v is DateTimeArray <==> value_type(v) is DateTimeArray,
{
}

/// A data type is called by the word that drivers use for it.
pub proof fn data_types_have_their_names(t: DataType)
    ensures
        t is Bool ==> data_type_name(t) == "bool"@,
        t is I32 ==> data_type_name(t) == "i32"@,
        t is U32 ==> data_type_name(t) == "u32"@,
        t is I64 ==> data_type_name(t) == "i64"@,
        t is U64 ==> data_type_name(t) == "u64"@,
        t is F32 ==> data_type_name(t) == "f32"@,
        t is F64 ==> data_type_name(t) == "f64"@,
        t is String ==> data_type_name(t) == "string"@,
        t is Bytes ==> data_type_name(t) == "bytes"@,
        t is DateTime ==> data_type_name(t) == "datetime"@,
        t is BoolArray ==> data_type_name(t) == "bool[]"@,
        t is I32Array ==> data_type_name(t) == "i32[]"@,
        t is U32Array ==> data_type_name(t) == "u32[]"@,
        t is I64Array ==> data_type_name(t) == "i64[]"@,
        t is U64Array ==> data_type_name(t) == "u64[]"@,
        t is F32Array ==> data_type_name(t) == "f32[]"@,
        t is F64Array ==> data_type_name(t) == "f64[]"@,
        t is StringArray ==> data_type_name(t) == "string[]"@,
        t is DateTimeArray ==> data_type_name(t) == "datetime[]"@,
{
}

/// The neutral value of a data type counts nothing and holds nothing.
pub proof fn neutral_values_are_empty(t: DataType)
    ensures
        match placeholder(t) {
            ValueV::Bool(b) => t is Bool && !b,
            ValueV::I32(n) => t is I32 && n == 0,
            ValueV::U32(n) => t is U32 && n == 0,
            ValueV::I64(n) => t is I64 && n == 0,
            ValueV::U64(n) => t is U64 && n == 0,
            ValueV::F32(x) => t is F32 && x.bits == 0,
            ValueV::F64(x) => t is F64 && x.bits == 0,
            ValueV::String(s) => t is String && s.len() == 0,
            ValueV::Bytes(s) => t is Bytes && s.len() == 0,
            ValueV::DateTime(n) => t is DateTime && n == 0,
            ValueV::BoolArray(s) => t is BoolArray && s.len() == 0,
            ValueV::I32Array(s) => t is I32Array && s.len() == 0,
            ValueV::U32Array(s) => t is U32Array && s.len() == 0,
            ValueV::I64Array(s) => t is I64Array && s.len() == 0,
            ValueV::U64Array(s) => t is U64Array && s.len() == 0,
            ValueV::F32Array(s) => t is F32Array && s.len() == 0,
            ValueV::F64Array(s) => t is F64Array && s.len() == 0,
            ValueV::StringArray(s) => t is StringArray && s.len() == 0,
            ValueV::DateTimeArray(s) => t is DateTimeArray && s.len() == 0,
        },
{
}

/// An origin that was not said is told by the quality: only a good value was just read.
pub proof fn unsaid_origins_follow_the_quality(q: Quality)
    ensures
        normalized_origin(ValueOrigin::Unspecified, q) is Current <==> q is Good,
        normalized_origin(ValueOrigin::Unspecified, q) is Placeholder <==> !(q is Good),
{
}

/// To say the origin of a sample changes nothing else of it.
pub proof fn saying_the_origin_keeps_the_sample(p: PointValueV)
    ensures
        normalized_point(p).point_id == p.point_id,
        normalized_point(p).value == p.value,
        normalized_point(p).quality == p.quality,
        normalized_point(p).quality_code == p.quality_code,
        normalized_point(p).source_timestamp_ns == p.source_timestamp_ns,
        !(p.value_origin is Unspecified) ==> normalized_point(p).value_origin == p.value_origin,
        p.value_origin is Unspecified ==> (normalized_point(p).value_origin is Current
            <==> p.quality is Good),
        p.value_origin is Unspecified ==> (normalized_point(p).value_origin is Placeholder
            <==> !(p.quality is Good)),
{
}

/// Qualities are told apart by their names.
pub proof fn qualities_have_their_names(q: Quality)
    ensures
        quality_name(q) == "GOOD"@ <==> q is Good,
        quality_name(q) == "UNCERTAIN"@ <==> q is Uncertain,
        quality_name(q) == "BAD"@ <==> q is Bad,
{
    reveal_strlit("GOOD");
    reveal_strlit("UNCERTAIN");
    reveal_strlit("BAD");
    assert("GOOD"@.len() == 4 && "UNCERTAIN"@.len() == 9 && "BAD"@.len() == 3);
}

/// Origins are told apart by their names.
pub proof fn origins_have_their_names(o: ValueOrigin)
    ensures
        origin_name(o) == "UNSPECIFIED"@ <==> o is Unspecified,
        origin_name(o) == "CURRENT"@ <==> o is Current,
        origin_name(o) == "LAST_KNOWN"@ <==> o is LastKnown,
        origin_name(o) == "PLACEHOLDER"@ <==> o is Placeholder,
{
    reveal_strlit("UNSPECIFIED");
    reveal_strlit("CURRENT");
    reveal_strlit("LAST_KNOWN");
    reveal_strlit("PLACEHOLDER");
    assert("PLACEHOLDER"@[0] == 'P');
    assert("LAST_KNOWN"@[0] == 'L');
    assert("CURRENT"@[0] == 'C');
    assert("UNSPECIFIED"@[0] == 'U');
}

/// Modes are told apart by their names.
pub proof fn modes_have_their_names(m: TaskMode)
    ensures
        mode_name(m) == "poll"@ <==> m is Poll,
        mode_name(m) == "subscribe"@ <==> m is Subscribe,
{
    reveal_strlit("poll");
    reveal_strlit("subscribe");
    assert("poll"@.len() == 4 && "subscribe"@.len() == 9);
}

/// States are told apart by their names.
pub proof fn states_have_their_names(s: ConnectionState)
    ensures
        state_name(s) == "STOPPED"@ <==> s is Stopped,
        state_name(s) == "CONNECTING"@ <==> s is Connecting,
        state_name(s) == "RUNNING"@ <==> s is Running,
        state_name(s) == "RECONNECTING"@ <==> s is Reconnecting,
        state_name(s) == "FAILED"@ <==> s is Failed,
{
    reveal_strlit("STOPPED");
    reveal_strlit("CONNECTING");
    reveal_strlit("RUNNING");
    reveal_strlit("RECONNECTING");
    reveal_strlit("FAILED");
    assert("STOPPED"@[0] == 'S');
    assert("CONNECTING"@[0] == 'C');
    assert("RUNNING"@.len() == 7);
    assert("RECONNECTING"@.len() == 12);
    assert("RUNNING"@[0] == 'R' && "RECONNECTING"@[0] == 'R');
    assert("FAILED"@[0] == 'F');
}

/// Kinds of errors are called by the words that drivers use for them.
pub proof fn errors_have_their_names(k: ErrorKind)
    ensures
        k is Configuration ==> error_kind_name(k) == "ConfigurationError"@,
        k is Connection ==> error_kind_name(k) == "ConnectionError"@,
        k is Timeout ==> error_kind_name(k) == "Timeout"@,
        k is Address ==> error_kind_name(k) == "AddressError"@,
        k is Protocol ==> error_kind_name(k) == "ProtocolError"@,
        k is Decode ==> error_kind_name(k) == "DecodeError"@,
        k is Device ==> error_kind_name(k) == "DeviceError"@,
        k is Unsupported ==> error_kind_name(k) == "Unsupported"@,
        k is Internal ==> error_kind_name(k) == "InternalError"@,
{
}

/// A task is sound exactly where its id says something and, if it polls, it does so at intervals
/// that take time. An id that says nothing is the first complaint.
pub proof fn sound_tasks_have_an_id_and_poll_at_intervals(t: TaskV)
    ensures
        task_fault(t) is None <==> !blank(t.id) && (t.mode is Poll ==> (t.interval_ms matches Some(n)
            && n > 0)),
        task_fault(t) matches Some(f) ==> (f is EmptyTaskId <==> blank(t.id)),
        t.mode is Subscribe && !blank(t.id) ==> task_fault(t) is None,
{
}

/// A time before 1970 counts as its start; any other is the nanoseconds since, as far as they fit.
pub proof fn clocks_count_from_1970(nanos: u128)
    ensures
        clock_time(None) == 0,
        nanos <= i64::MAX ==> clock_time(Some(nanos)) == nanos,
{
}

/// How a task that makes no sense is told.
pub proof fn bad_tasks_are_told(id: Seq<char>)
    ensures
        task_fault_text(TaskFault::EmptyTaskId, id) == "task id 不能为空"@,
        task_fault_text(TaskFault::PollRequiresInterval, id) == "Poll 任务 `"@ + id
            + "` 必须提供正整数 interval_ms"@,
{
}

} // verus!
