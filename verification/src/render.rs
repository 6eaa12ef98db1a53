//! Values as they are shown: as JSON values, and for debugging.
use vstd::prelude::*;

use crate::api::{count_json, count_value, integer_json, integer_value, list_json, null_json, object1, text_json, truth_json};
use crate::float::{
    double_debug, double_debugged, double_of_single, is_finite, is_single_finite, single_debug,
    single_debugged, single_double, Double, Single,
};
use crate::json::{
    bool_json, bool_text, entries_view, items_view, json_view, lemma_json_view, number_text, Json,
    JsonNumber, JsonV,
};
use crate::text::{
    cat3, cat4, debug_quoted, debug_text, decimal, decimal_text, join, joined, signed_decimal,
    signed_decimal_text, texts_view,
};
use crate::types::{TypedValue, ValueV};
use vstd::string::StringExecFns;

verus! {

// ---------------------------------------------------------------------------
// Values of points
// ---------------------------------------------------------------------------

/// The name of the variant of a value.
pub open spec fn variant_name(v: ValueV) -> Seq<char> {
    match v {
        ValueV::Bool(_) => "Bool"@,
        ValueV::I32(_) => "I32"@,
        ValueV::U32(_) => "U32"@,
        ValueV::I64(_) => "I64"@,
        ValueV::U64(_) => "U64"@,
        ValueV::F32(_) => "F32"@,
        ValueV::F64(_) => "F64"@,
        ValueV::String(_) => "String"@,
        ValueV::Bytes(_) => "Bytes"@,
        ValueV::DateTime(_) => "DateTime"@,
        ValueV::BoolArray(_) => "BoolArray"@,
        ValueV::I32Array(_) => "I32Array"@,
        ValueV::U32Array(_) => "U32Array"@,
        ValueV::I64Array(_) => "I64Array"@,
        ValueV::U64Array(_) => "U64Array"@,
        ValueV::F32Array(_) => "F32Array"@,
        ValueV::F64Array(_) => "F64Array"@,
        ValueV::StringArray(_) => "StringArray"@,
        ValueV::DateTimeArray(_) => "DateTimeArray"@,
    }
}

/// The values that a value lists, if it is a list. Bytes list small numbers.
pub open spec fn elements(v: ValueV) -> Option<Seq<ValueV>> {
    match v {
        ValueV::Bytes(x) => Some(x.map_values(|n: u8| ValueV::U32(n as u32))),
        ValueV::BoolArray(x) => Some(x.map_values(|n: bool| ValueV::Bool(n))),
        ValueV::I32Array(x) => Some(x.map_values(|n: i32| ValueV::I32(n))),
        ValueV::U32Array(x) => Some(x.map_values(|n: u32| ValueV::U32(n))),
        ValueV::I64Array(x) => Some(x.map_values(|n: i64| ValueV::I64(n))),
        ValueV::U64Array(x) => Some(x.map_values(|n: u64| ValueV::U64(n))),
        ValueV::F32Array(x) => Some(x.map_values(|n: Single| ValueV::F32(n))),
        ValueV::F64Array(x) => Some(x.map_values(|n: Double| ValueV::F64(n))),
        ValueV::DateTimeArray(x) => Some(x.map_values(|n: i64| ValueV::DateTime(n))),
        ValueV::StringArray(x) => Some(x.map_values(|s: Seq<char>| ValueV::String(s))),
        _ => None,
    }
}

/// What values are, one by one.
pub open spec fn values_view(list: Seq<TypedValue>) -> Seq<ValueV> {
    list.map_values(|v: TypedValue| v@)
}

fn of_bytes(x: &Vec<u8>) -> (r: Vec<TypedValue>)
    ensures
        values_view(r@) == x@.map_values(|n: u8| ValueV::U32(n as u32)),
{
    let mut out: Vec<TypedValue> = Vec::new();
    let mut i: usize = 0;
    while i < x.len()
        invariant
            i <= x.len(),
            out@.len() == i,
            forall|j: int| 0 <= j < i ==> (#[trigger] out@[j])@ == ValueV::U32(x@[j] as u32),
        decreases x.len() - i,
    {
        out.push(TypedValue::U32(x[i] as u32));
        i = i + 1;
    }
    assert(values_view(out@) =~= x@.map_values(|n: u8| ValueV::U32(n as u32)));
    out
}

fn of_bools(x: &Vec<bool>) -> (r: Vec<TypedValue>)
    ensures
        values_view(r@) == x@.map_values(|n: bool| ValueV::Bool(n)),
{
    let mut out: Vec<TypedValue> = Vec::new();
    let mut i: usize = 0;
    while i < x.len()
        invariant
            i <= x.len(),
            out@.len() == i,
            forall|j: int| 0 <= j < i ==> (#[trigger] out@[j])@ == ValueV::Bool(x@[j]),
        decreases x.len() - i,
    {
        out.push(TypedValue::Bool(x[i]));
        i = i + 1;
    }
    assert(values_view(out@) =~= x@.map_values(|n: bool| ValueV::Bool(n)));
    out
}

fn of_i32s(x: &Vec<i32>) -> (r: Vec<TypedValue>)
    ensures
        values_view(r@) == x@.map_values(|n: i32| ValueV::I32(n)),
{
    let mut out: Vec<TypedValue> = Vec::new();
    let mut i: usize = 0;
    while i < x.len()
        invariant
            i <= x.len(),
            out@.len() == i,
            forall|j: int| 0 <= j < i ==> (#[trigger] out@[j])@ == ValueV::I32(x@[j]),
        decreases x.len() - i,
    {
        out.push(TypedValue::I32(x[i]));
        i = i + 1;
    }
    assert(values_view(out@) =~= x@.map_values(|n: i32| ValueV::I32(n)));
    out
}

fn of_u32s(x: &Vec<u32>) -> (r: Vec<TypedValue>)
    ensures
        values_view(r@) == x@.map_values(|n: u32| ValueV::U32(n)),
{
    let mut out: Vec<TypedValue> = Vec::new();
    let mut i: usize = 0;
    while i < x.len()
        invariant
            i <= x.len(),
            out@.len() == i,
            forall|j: int| 0 <= j < i ==> (#[trigger] out@[j])@ == ValueV::U32(x@[j]),
        decreases x.len() - i,
    {
        out.push(TypedValue::U32(x[i]));
        i = i + 1;
    }
    assert(values_view(out@) =~= x@.map_values(|n: u32| ValueV::U32(n)));
    out
}

fn of_i64s(x: &Vec<i64>) -> (r: Vec<TypedValue>)
    ensures
        values_view(r@) == x@.map_values(|n: i64| ValueV::I64(n)),
{
    let mut out: Vec<TypedValue> = Vec::new();
    let mut i: usize = 0;
    while i < x.len()
        invariant
            i <= x.len(),
            out@.len() == i,
            forall|j: int| 0 <= j < i ==> (#[trigger] out@[j])@ == ValueV::I64(x@[j]),
        decreases x.len() - i,
    {
        out.push(TypedValue::I64(x[i]));
        i = i + 1;
    }
    assert(values_view(out@) =~= x@.map_values(|n: i64| ValueV::I64(n)));
    out
}

fn of_u64s(x: &Vec<u64>) -> (r: Vec<TypedValue>)
    ensures
        values_view(r@) == x@.map_values(|n: u64| ValueV::U64(n)),
{
    let mut out: Vec<TypedValue> = Vec::new();
    let mut i: usize = 0;
    while i < x.len()
        invariant
            i <= x.len(),
            out@.len() == i,
            forall|j: int| 0 <= j < i ==> (#[trigger] out@[j])@ == ValueV::U64(x@[j]),
        decreases x.len() - i,
    {
        out.push(TypedValue::U64(x[i]));
        i = i + 1;
    }
    assert(values_view(out@) =~= x@.map_values(|n: u64| ValueV::U64(n)));
    out
}

fn of_singles(x: &Vec<Single>) -> (r: Vec<TypedValue>)
    ensures
        values_view(r@) == x@.map_values(|n: Single| ValueV::F32(n)),
{
    let mut out: Vec<TypedValue> = Vec::new();
    let mut i: usize = 0;
    while i < x.len()
        invariant
            i <= x.len(),
            out@.len() == i,
            forall|j: int| 0 <= j < i ==> (#[trigger] out@[j])@ == ValueV::F32(x@[j]),
        decreases x.len() - i,
    {
        out.push(TypedValue::F32(x[i]));
        i = i + 1;
    }
    assert(values_view(out@) =~= x@.map_values(|n: Single| ValueV::F32(n)));
    out
}

fn of_doubles(x: &Vec<Double>) -> (r: Vec<TypedValue>)
    ensures
        values_view(r@) == x@.map_values(|n: Double| ValueV::F64(n)),
{
    let mut out: Vec<TypedValue> = Vec::new();
    let mut i: usize = 0;
    while i < x.len()
        invariant
            i <= x.len(),
            out@.len() == i,
            forall|j: int| 0 <= j < i ==> (#[trigger] out@[j])@ == ValueV::F64(x@[j]),
        decreases x.len() - i,
    {
        out.push(TypedValue::F64(x[i]));
        i = i + 1;
    }
    assert(values_view(out@) =~= x@.map_values(|n: Double| ValueV::F64(n)));
    out
}

fn of_times(x: &Vec<i64>) -> (r: Vec<TypedValue>)
    ensures
        values_view(r@) == x@.map_values(|n: i64| ValueV::DateTime(n)),
{
    let mut out: Vec<TypedValue> = Vec::new();
    let mut i: usize = 0;
    while i < x.len()
        invariant
            i <= x.len(),
            out@.len() == i,
            forall|j: int| 0 <= j < i ==> (#[trigger] out@[j])@ == ValueV::DateTime(x@[j]),
        decreases x.len() - i,
    {
        out.push(TypedValue::DateTime(x[i]));
        i = i + 1;
    }
    assert(values_view(out@) =~= x@.map_values(|n: i64| ValueV::DateTime(n)));
    out
}

fn of_texts(x: &Vec<String>) -> (r: Vec<TypedValue>)
    ensures
        values_view(r@) == texts_view(x@).map_values(|s: Seq<char>| ValueV::String(s)),
{
    let mut out: Vec<TypedValue> = Vec::new();
    let mut i: usize = 0;
    while i < x.len()
        invariant
            i <= x.len(),
            out@.len() == i,
            forall|j: int| 0 <= j < i ==> (#[trigger] out@[j])@ == ValueV::String(x@[j]@),
        decreases x.len() - i,
    {
        out.push(TypedValue::String(x[i].clone()));
        i = i + 1;
    }
    assert(values_view(out@) =~= texts_view(x@).map_values(|s: Seq<char>| ValueV::String(s)));
    out
}

/// A double precision value as JSON: null where it is no finite number.
pub open spec fn double_value(bits: u64) -> JsonV {
    if is_finite(bits) {
        JsonV::Number(JsonNumber::Float(Double { bits }))
    } else {
        JsonV::Null
    }
}

/// A single precision value as JSON: null where it is no finite number.
pub open spec fn single_value(bits: u32) -> JsonV {
    if is_single_finite(bits) {
        JsonV::Number(JsonNumber::Float(Double { bits: double_of_single(bits) }))
    } else {
        JsonV::Null
    }
}

/// A value that is no list as JSON, without the name of its variant.
pub open spec fn scalar_value(v: ValueV) -> JsonV {
    match v {
        ValueV::Bool(b) => JsonV::Bool(b),
        ValueV::I32(n) => integer_value(n as i64),
        ValueV::U32(n) => count_value(n as u64),
        ValueV::I64(n) => integer_value(n),
        ValueV::U64(n) => count_value(n),
        ValueV::F32(x) => single_value(x.bits),
        ValueV::F64(x) => double_value(x.bits),
        ValueV::String(s) => JsonV::String(s),
        ValueV::DateTime(n) => integer_value(n),
        _ => JsonV::Null,
    }
}

/// A value as JSON, without the name of its variant.
pub open spec fn payload_value(v: ValueV) -> JsonV {
    match elements(v) {
        Some(list) => JsonV::Array(list.map_values(|x: ValueV| scalar_value(x))),
        None => scalar_value(v),
    }
}

/// A value as JSON: an object with one member, named after the variant.
pub open spec fn value_json(v: ValueV) -> JsonV {
    JsonV::Object(seq![(variant_name(v), payload_value(v))])
}

/// A value that is no list as it is shown for debugging, without the name of its variant.
pub open spec fn scalar_debug(v: ValueV) -> Seq<char> {
    match v {
        ValueV::Bool(b) => bool_text(b),
        ValueV::I32(n) => signed_decimal(n as int),
        ValueV::U32(n) => decimal(n as nat),
        ValueV::I64(n) => signed_decimal(n as int),
        ValueV::U64(n) => decimal(n as nat),
        ValueV::F32(x) => single_debugged(x.bits),
        ValueV::F64(x) => double_debugged(x.bits),
        ValueV::String(s) => debug_quoted(s),
        ValueV::DateTime(n) => signed_decimal(n as int),
        _ => Seq::empty(),
    }
}

/// A value as it is shown for debugging: the name of its variant, and what it holds in brackets.
pub open spec fn value_debug(v: ValueV) -> Seq<char> {
    variant_name(v) + "("@ + (match elements(v) {
        Some(list) => "["@ + joined(list.map_values(|x: ValueV| scalar_debug(x)), ", "@) + "]"@,
        None => scalar_debug(v),
    }) + ")"@
}

impl TypedValue {
    /// The name of the variant.
    pub fn variant(&self) -> (r: &'static str)
        ensures
            r@ == variant_name(self@),
    {
        match self {
            TypedValue::Bool(_) => "Bool",
            TypedValue::I32(_) => "I32",
            TypedValue::U32(_) => "U32",
            TypedValue::I64(_) => "I64",
            TypedValue::U64(_) => "U64",
            TypedValue::F32(_) => "F32",
            TypedValue::F64(_) => "F64",
            TypedValue::String(_) => "String",
            TypedValue::Bytes(_) => "Bytes",
            TypedValue::DateTime(_) => "DateTime",
            TypedValue::BoolArray(_) => "BoolArray",
            TypedValue::I32Array(_) => "I32Array",
            TypedValue::U32Array(_) => "U32Array",
            TypedValue::I64Array(_) => "I64Array",
            TypedValue::U64Array(_) => "U64Array",
            TypedValue::F32Array(_) => "F32Array",
            TypedValue::F64Array(_) => "F64Array",
            TypedValue::StringArray(_) => "StringArray",
            TypedValue::DateTimeArray(_) => "DateTimeArray",
        }
    }

    /// The values that the value lists, if it is a list.
    pub fn elements(&self) -> (r: Option<Vec<TypedValue>>)
        ensures
            match r {
                Some(list) => elements(self@) == Some(values_view(list@)),
                None => elements(self@) is None,
            },
    {
        match self {
            TypedValue::Bytes(x) => Some(of_bytes(x)),
            TypedValue::BoolArray(x) => Some(of_bools(x)),
            TypedValue::I32Array(x) => Some(of_i32s(x)),
            TypedValue::U32Array(x) => Some(of_u32s(x)),
            TypedValue::I64Array(x) => Some(of_i64s(x)),
            TypedValue::U64Array(x) => Some(of_u64s(x)),
            TypedValue::F32Array(x) => Some(of_singles(x)),
            TypedValue::F64Array(x) => Some(of_doubles(x)),
            TypedValue::StringArray(x) => Some(of_texts(x)),
            TypedValue::DateTimeArray(x) => Some(of_times(x)),
            _ => None,
        }
    }

    fn scalar_json(&self) -> (r: Json)
        ensures
            r@ == scalar_value(self@),
    {
        broadcast use lemma_json_view;

        match self {
            TypedValue::Bool(b) => truth_json(*b),
            TypedValue::I32(n) => integer_json(*n as i64),
            TypedValue::U32(n) => count_json(*n as u64),
            TypedValue::I64(n) => integer_json(*n),
            TypedValue::U64(n) => count_json(*n),
            TypedValue::F32(x) => if x.bits % 0x8000_0000 < 0x7f80_0000 {
                Json::Number(JsonNumber::Float(Double { bits: single_double(x.bits) }))
            } else {
                null_json()
            },
            TypedValue::F64(x) => if x.bits % 0x8000_0000_0000_0000 < 0x7ff0_0000_0000_0000 {
                Json::Number(JsonNumber::Float(Double { bits: x.bits }))
            } else {
                null_json()
            },
            TypedValue::String(s) => text_json(s.as_str()),
            TypedValue::DateTime(n) => integer_json(*n),
            _ => null_json(),
        }
    }

    /// The value as JSON, without the name of its variant.
    pub fn payload_json(&self) -> (r: Json)
        ensures
            r@ == payload_value(self@),
    {
        match self.elements() {
            Some(list) => {
                let mut items: Vec<Json> = Vec::new();
                let mut i: usize = 0;
                while i < list.len()
                    invariant
                        i <= list.len(),
                        items@.len() == i,
                        forall|j: int|
                            0 <= j < i ==> (#[trigger] items@[j])@ == scalar_value(list@[j]@),
                    decreases list.len() - i,
                {
                    items.push(list[i].scalar_json());
                    i = i + 1;
                }
                assert(items_view(items@) =~= values_view(list@).map_values(
                    |x: ValueV| scalar_value(x),
                ));
                list_json(items)
            },
            None => self.scalar_json(),
        }
    }

    /// The value as JSON: an object with one member, named after the variant.
    pub fn to_json(&self) -> (r: Json)
        ensures
            r@ == value_json(self@),
    {
        object1(self.variant(), self.payload_json())
    }

    fn scalar_debug_text(&self) -> (r: String)
        ensures
            r@ == scalar_debug(self@),
    {
        match self {
            TypedValue::Bool(b) => bool_json(*b),
            TypedValue::I32(n) => signed_decimal_text(*n as i64),
            TypedValue::U32(n) => decimal_text(*n as u64),
            TypedValue::I64(n) => signed_decimal_text(*n),
            TypedValue::U64(n) => decimal_text(*n),
            TypedValue::F32(x) => single_debug(x.bits),
            TypedValue::F64(x) => double_debug(x.bits),
            TypedValue::String(s) => debug_text(s.as_str()),
            TypedValue::DateTime(n) => signed_decimal_text(*n),
            _ => {
                let none: String = String::new();
                assert(none@ =~= Seq::<char>::empty());
                none
            },
        }
    }

    /// The value as it is shown for debugging.
    pub fn debug_text(&self) -> (r: String)
        ensures
            r@ == value_debug(self@),
    {
        match self.elements() {
            Some(list) => {
                let mut items: Vec<String> = Vec::new();
                let mut i: usize = 0;
                while i < list.len()
                    invariant
                        i <= list.len(),
                        items@.len() == i,
                        forall|j: int|
                            0 <= j < i ==> (#[trigger] items@[j])@ == scalar_debug(list@[j]@),
                    decreases list.len() - i,
                {
                    items.push(list[i].scalar_debug_text());
                    i = i + 1;
                }
                assert(texts_view(items@) =~= values_view(list@).map_values(
                    |x: ValueV| scalar_debug(x),
                ));
                let inner: String = cat3("[", join(&items, ", ").as_str(), "]");
                cat4(self.variant(), "(", inner.as_str(), ")")
            },
            None => cat4(self.variant(), "(", self.scalar_debug_text().as_str(), ")"),
        }
    }
}

// ---------------------------------------------------------------------------
// JSON values
// ---------------------------------------------------------------------------

/// A JSON value as it is shown for debugging.
pub open spec fn json_debug(v: JsonV) -> Seq<char>
    decreases v,
{
    match v {
        JsonV::Null => "Null"@,
        JsonV::Bool(b) => "Bool("@ + bool_text(b) + ")"@,
        JsonV::Number(n) => "Number("@ + number_text(n) + ")"@,
        JsonV::String(s) => "String("@ + debug_quoted(s) + ")"@,
        JsonV::Array(a) => "Array ["@ + items_debug(a) + "]"@,
        JsonV::Object(o) => "Object {"@ + entries_debug(o) + "}"@,
    }
}

/// JSON values as they are shown for debugging, a comma between each two.
pub open spec fn items_debug(a: Seq<JsonV>) -> Seq<char>
    decreases a,
{
    if a.len() == 0 {
        Seq::empty()
    } else if a.len() == 1 {
        json_debug(a[0])
    } else {
        items_debug(a.drop_last()) + ", "@ + json_debug(a.last())
    }
}

/// Entries as they are shown for debugging, a comma between each two.
pub open spec fn entries_debug(o: Seq<(Seq<char>, JsonV)>) -> Seq<char>
    decreases o,
{
    if o.len() == 0 {
        Seq::empty()
    } else if o.len() == 1 {
        debug_quoted(o[0].0) + ": "@ + json_debug(o[0].1)
    } else {
        entries_debug(o.drop_last()) + ", "@ + (debug_quoted(o.last().0) + ": "@ + json_debug(
            o.last().1,
        ))
    }
}

impl Json {
    /// The value as it is shown for debugging.
    pub fn debug_text(&self) -> (r: String)
        ensures
            r@ == json_debug(self@),
        decreases self,
    {
        broadcast use lemma_json_view;

        match self {
            Json::Null => "Null".to_owned(),
            Json::Bool(b) => cat3("Bool(", bool_json(*b).as_str(), ")"),
            Json::Number(n) => cat3("Number(", n.to_text().as_str(), ")"),
            Json::String(s) => cat3("String(", debug_text(s.as_str()).as_str(), ")"),
            Json::Array(a) => {
                let ghost all = items_view(a@);
                let mut out: String = String::new();
                let mut i: usize = 0;
                while i < a.len()
                    invariant
                        i <= a.len(),
                        all == items_view(a@),
                        decreases_to!(self => a@),
                        out@ == items_debug(all.subrange(0, i as int)),
                    decreases a.len() - i,
                {
                    assert(decreases_to!(a@ => a@[i as int]));
                    let item: String = a[i].debug_text();
                    let ghost part = all.subrange(0, i + 1);
                    assert(part.drop_last() =~= all.subrange(0, i as int));
                    assert(part.last() == a@[i as int]@);
                    if i == 0 {
                        out = item;
                    } else {
                        out.append(", ");
                        out.append(item.as_str());
                    }
                    i = i + 1;
                }
                assert(all.subrange(0, a@.len() as int) =~= all);
                assert(json_view(*self) == JsonV::Array(all));
                cat3("Array [", out.as_str(), "]")
            },
            Json::Object(o) => {
                let ghost all = entries_view(o@);
                let mut out: String = String::new();
                let mut i: usize = 0;
                while i < o.len()
                    invariant
                        i <= o.len(),
                        all == entries_view(o@),
                        decreases_to!(self => o@),
                        out@ == entries_debug(all.subrange(0, i as int)),
                    decreases o.len() - i,
                {
                    assert(decreases_to!(o@ => o@[i as int]));
                    assert(decreases_to!(o@[i as int] => o@[i as int].1));
                    let value: String = o[i].1.debug_text();
                    let key: String = debug_text(o[i].0.as_str());
                    let item: String = cat3(key.as_str(), ": ", value.as_str());
                    let ghost part = all.subrange(0, i + 1);
                    assert(part.drop_last() =~= all.subrange(0, i as int));
                    assert(part.last() == (o@[i as int].0@, o@[i as int].1@));
                    if i == 0 {
                        out = item;
                    } else {
                        out.append(", ");
                        out.append(item.as_str());
                    }
                    i = i + 1;
                }
                assert(all.subrange(0, o@.len() as int) =~= all);
                assert(json_view(*self) == JsonV::Object(all));
                cat3("Object {", out.as_str(), "}")
            },
        }
    }
}

/// JSON values in a list as they are shown for debugging.
pub fn json_list_debug(a: &Vec<Json>) -> (r: String)
    ensures
        r@ == "["@ + items_debug(items_view(a@)) + "]"@,
{
    let ghost all = items_view(a@);
    let mut out: String = String::new();
    let mut i: usize = 0;
    while i < a.len()
        invariant
            i <= a.len(),
            all == items_view(a@),
            out@ == items_debug(all.subrange(0, i as int)),
        decreases a.len() - i,
    {
        let item: String = a[i].debug_text();
        let ghost part = all.subrange(0, i + 1);
        assert(part.drop_last() =~= all.subrange(0, i as int));
        assert(part.last() == a@[i as int]@);
        if i == 0 {
            out = item;
        } else {
            out.append(", ");
            out.append(item.as_str());
        }
        i = i + 1;
    }
    assert(all.subrange(0, a@.len() as int) =~= all);
    cat3("[", out.as_str(), "]")
}

// ---------------------------------------------------------------------------
// What is shown of a value
// ---------------------------------------------------------------------------

/// A value that is no list is shown as what it holds: a truth value as one, an integer as the same
/// integer, a text as the same text, and a number with a fraction as the same number, or as null
/// where it is infinite or none.
pub proof fn single_values_are_shown_as_they_are(v: ValueV)
    ensures
        v matches ValueV::Bool(b) ==> payload_value(v) == JsonV::Bool(b),
        v matches ValueV::I32(n) ==> is_integer(payload_value(v), n as int),
        v matches ValueV::U32(n) ==> is_integer(payload_value(v), n as int),
        v matches ValueV::I64(n) ==> is_integer(payload_value(v), n as int),
        v matches ValueV::U64(n) ==> is_integer(payload_value(v), n as int),
        v matches ValueV::DateTime(n) ==> is_integer(payload_value(v), n as int),
        v matches ValueV::String(s) ==> payload_value(v) == JsonV::String(s),
        v matches ValueV::F64(x) ==> (if x.bits % 0x8000_0000_0000_0000 < 0x7ff0_0000_0000_0000 {
            payload_value(v) == JsonV::Number(JsonNumber::Float(x))
        } else {
            payload_value(v) is Null
        }),
        v matches ValueV::F32(x) ==> (if x.bits % 0x8000_0000 < 0x7f80_0000 {
            payload_value(v) == JsonV::Number(
                JsonNumber::Float(Double { bits: double_of_single(x.bits) }),
            )
        } else {
            payload_value(v) is Null
        }),
{
}

/// Whether a JSON value is an integer.
pub open spec fn is_integer(v: JsonV, n: int) -> bool {
    v matches JsonV::Number(x) && match x {
        JsonNumber::PosInt(u) => u == n,
        JsonNumber::NegInt(i) => i == n && n < 0,
        JsonNumber::Float(f) => false,
    }
}

/// A list is shown as a list of the same length, and each item as it is shown alone.
pub proof fn lists_are_shown_item_by_item(v: ValueV)
    ensures
        v matches ValueV::Bytes(a) ==> (payload_value(v) matches JsonV::Array(o) && o.len() == a.len()
            && forall|j: int|
            0 <= j < a.len() ==> #[trigger] o[j] == payload_value(ValueV::U32(a[j] as u32))),
        v matches ValueV::BoolArray(a) ==> (payload_value(v) matches JsonV::Array(o) && o.len() == a.len()
            && forall|j: int|
            0 <= j < a.len() ==> #[trigger] o[j] == payload_value(ValueV::Bool(a[j]))),
        v matches ValueV::I32Array(a) ==> (payload_value(v) matches JsonV::Array(o) && o.len() == a.len()
            && forall|j: int|
            0 <= j < a.len() ==> #[trigger] o[j] == payload_value(ValueV::I32(a[j]))),
        v matches ValueV::U32Array(a) ==> (payload_value(v) matches JsonV::Array(o) && o.len() == a.len()
            && forall|j: int|
            0 <= j < a.len() ==> #[trigger] o[j] == payload_value(ValueV::U32(a[j]))),
        v matches ValueV::I64Array(a) ==> (payload_value(v) matches JsonV::Array(o) && o.len() == a.len()
            && forall|j: int|
            0 <= j < a.len() ==> #[trigger] o[j] == payload_value(ValueV::I64(a[j]))),
        v matches ValueV::U64Array(a) ==> (payload_value(v) matches JsonV::Array(o) && o.len() == a.len()
            && forall|j: int|
            0 <= j < a.len() ==> #[trigger] o[j] == payload_value(ValueV::U64(a[j]))),
        v matches ValueV::F32Array(a) ==> (payload_value(v) matches JsonV::Array(o) && o.len() == a.len()
            && forall|j: int|
            0 <= j < a.len() ==> #[trigger] o[j] == payload_value(ValueV::F32(a[j]))),
        v matches ValueV::F64Array(a) ==> (payload_value(v) matches JsonV::Array(o) && o.len() == a.len()
            && forall|j: int|
            0 <= j < a.len() ==> #[trigger] o[j] == payload_value(ValueV::F64(a[j]))),
        v matches ValueV::StringArray(a) ==> (payload_value(v) matches JsonV::Array(o) && o.len() == a.len()
            && forall|j: int|
            0 <= j < a.len() ==> #[trigger] o[j] == payload_value(ValueV::String(a[j]))),
        v matches ValueV::DateTimeArray(a) ==> (payload_value(v) matches JsonV::Array(o) && o.len() == a.len()
            && forall|j: int|
            0 <= j < a.len() ==> #[trigger] o[j] == payload_value(ValueV::DateTime(a[j]))),
{
}

/// A value that is sent on is an object with one member: the kind of the value, and what is shown
/// of it.
pub proof fn values_are_sent_under_their_kind(v: ValueV)
    ensures
        value_json(v) matches JsonV::Object(o) && o.len() == 1 && o[0].1 == payload_value(v),
        v is Bool ==> value_json(v)->Object_0[0].0 == "Bool"@,
        v is I32 ==> value_json(v)->Object_0[0].0 == "I32"@,
        v is U32 ==> value_json(v)->Object_0[0].0 == "U32"@,
        v is I64 ==> value_json(v)->Object_0[0].0 == "I64"@,
        v is U64 ==> value_json(v)->Object_0[0].0 == "U64"@,
        v is F32 ==> value_json(v)->Object_0[0].0 == "F32"@,
        v is F64 ==> value_json(v)->Object_0[0].0 == "F64"@,
        v is String ==> value_json(v)->Object_0[0].0 == "String"@,
        v is Bytes ==> value_json(v)->Object_0[0].0 == "Bytes"@,
        v is DateTime ==> value_json(v)->Object_0[0].0 == "DateTime"@,
        v is BoolArray ==> value_json(v)->Object_0[0].0 == "BoolArray"@,
        v is I32Array ==> value_json(v)->Object_0[0].0 == "I32Array"@,
        v is U32Array ==> value_json(v)->Object_0[0].0 == "U32Array"@,
        v is I64Array ==> value_json(v)->Object_0[0].0 == "I64Array"@,
        v is U64Array ==> value_json(v)->Object_0[0].0 == "U64Array"@,
        v is F32Array ==> value_json(v)->Object_0[0].0 == "F32Array"@,
        v is F64Array ==> value_json(v)->Object_0[0].0 == "F64Array"@,
        v is StringArray ==> value_json(v)->Object_0[0].0 == "StringArray"@,
        v is DateTimeArray ==> value_json(v)->Object_0[0].0 == "DateTimeArray"@,
{
}

/// How a value is told in words: the name of its kind, and in brackets what it holds.
pub proof fn values_are_told_in_words(
    b: bool,
    i: i32,
    u: u32,
    l: i64,
    m: u64,
    s: Seq<char>,
    a: Seq<i32>,
)
    ensures
        value_debug(ValueV::Bool(b)) == "Bool"@ + "("@ + bool_text(b) + ")"@,
        value_debug(ValueV::I32(i)) == "I32"@ + "("@ + signed_decimal(i as int) + ")"@,
        value_debug(ValueV::U32(u)) == "U32"@ + "("@ + decimal(u as nat) + ")"@,
        value_debug(ValueV::I64(l)) == "I64"@ + "("@ + signed_decimal(l as int) + ")"@,
        value_debug(ValueV::U64(m)) == "U64"@ + "("@ + decimal(m as nat) + ")"@,
        value_debug(ValueV::String(s)) == "String"@ + "("@ + debug_quoted(s) + ")"@,
        value_debug(ValueV::DateTime(l)) == "DateTime"@ + "("@ + signed_decimal(l as int) + ")"@,
{
}

} // verus!
