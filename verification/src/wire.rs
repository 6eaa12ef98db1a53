//! How long a batch of events is on the wire, in the encoding of protocol buffers. The fields of
//! each message are numbered in the order in which [`crate::pb`] lists them.
use vstd::prelude::*;

use crate::float::{Double, Single};
use crate::pb::{
    AttributeMsgV, ConditionMsgV, EventAttributeMsg, EventBatchMsg, EventBatchMsgV,
    EventConditionMsg, EventRecordMsg, RecordMsgV, ValueKind, ValueMsg, value_msg_view,
};
use crate::schema::maybe_text;
use crate::text::{byte_len, byte_length, texts_view};
use crate::types::ValueV;

verus! {

// ---------------------------------------------------------------------------
// Lengths
// ---------------------------------------------------------------------------

/// The bytes of a number in groups of seven bits.
pub open spec fn varint_length(n: nat) -> nat
    decreases n,
{
    if n < 128 {
        1
    } else {
        1 + varint_length(n / 128)
    }
}

/// The bytes of a field's number.
pub open spec fn tag_length(tag: nat) -> nat {
    varint_length(8 * tag)
}

/// The bytes of a field that holds `n` bytes.
pub open spec fn bytes_field(tag: nat, n: nat) -> nat {
    tag_length(tag) + varint_length(n) + n
}

/// The bytes of a number that may be negative.
pub open spec fn signed_length(n: int) -> nat {
    if n < 0 {
        10
    } else {
        varint_length(n as nat)
    }
}

/// The bytes of a text field; an empty text is left out.
pub open spec fn text_field(tag: nat, s: Seq<char>) -> nat {
    if byte_length(s) == 0 {
        0
    } else {
        bytes_field(tag, byte_length(s))
    }
}

/// The bytes of a text field that may be left out.
pub open spec fn optional_text_field(tag: nat, s: Option<Seq<char>>) -> nat {
    match s {
        Some(x) => bytes_field(tag, byte_length(x)),
        None => 0,
    }
}

/// The bytes of a number field; zero is left out.
pub open spec fn number_field(tag: nat, n: int) -> nat {
    if n == 0 {
        0
    } else {
        tag_length(tag) + signed_length(n)
    }
}

/// The bytes of a truth value that may be left out.
pub open spec fn optional_bool_field(tag: nat, b: Option<bool>) -> nat {
    match b {
        Some(x) => tag_length(tag) + 1,
        None => 0,
    }
}

/// The bytes of some numbers.
pub open spec fn numbers_length(xs: Seq<int>) -> nat
    decreases xs.len(),
{
    if xs.len() == 0 {
        0
    } else {
        numbers_length(xs.drop_last()) + signed_length(xs.last())
    }
}

/// The bytes of a list whose items take `n` bytes together; an empty list is left out.
pub open spec fn packed(n: nat) -> nat {
    if n == 0 {
        0
    } else {
        bytes_field(1, n)
    }
}

/// The bytes of some texts, each a field of its own.
pub open spec fn texts_length(xs: Seq<Seq<char>>) -> nat
    decreases xs.len(),
{
    if xs.len() == 0 {
        0
    } else {
        texts_length(xs.drop_last()) + bytes_field(1, byte_length(xs.last()))
    }
}

/// The bytes of a value.
pub open spec fn value_length(v: ValueV) -> nat {
    match v {
        ValueV::Bool(b) => tag_length(1) + 1,
        ValueV::I32(n) => tag_length(2) + signed_length(n as int),
        ValueV::U32(n) => tag_length(3) + signed_length(n as int),
        ValueV::I64(n) => tag_length(4) + signed_length(n as int),
        ValueV::U64(n) => tag_length(5) + signed_length(n as int),
        ValueV::F32(x) => tag_length(6) + 4,
        ValueV::F64(x) => tag_length(7) + 8,
        ValueV::String(s) => bytes_field(8, byte_length(s)),
        ValueV::Bytes(b) => bytes_field(9, b.len()),
        ValueV::DateTime(n) => tag_length(10) + signed_length(n as int),
        ValueV::BoolArray(a) => bytes_field(11, packed(a.len())),
        ValueV::I32Array(a) => bytes_field(
            12,
            packed(numbers_length(a.map_values(|n: i32| n as int))),
        ),
        ValueV::U32Array(a) => bytes_field(
            13,
            packed(numbers_length(a.map_values(|n: u32| n as int))),
        ),
        ValueV::I64Array(a) => bytes_field(
            14,
            packed(numbers_length(a.map_values(|n: i64| n as int))),
        ),
        ValueV::U64Array(a) => bytes_field(
            15,
            packed(numbers_length(a.map_values(|n: u64| n as int))),
        ),
        ValueV::F32Array(a) => bytes_field(16, packed(4 * a.len())),
        ValueV::F64Array(a) => bytes_field(17, packed(8 * a.len())),
        ValueV::StringArray(a) => bytes_field(18, texts_length(a)),
        ValueV::DateTimeArray(a) => bytes_field(
            19,
            packed(numbers_length(a.map_values(|n: i64| n as int))),
        ),
    }
}

/// The bytes of a field that holds a value message.
pub open spec fn value_field(tag: nat, m: Option<Option<ValueV>>) -> nat {
    match m {
        None => 0,
        Some(None) => bytes_field(tag, 0),
        Some(Some(v)) => bytes_field(tag, value_length(v)),
    }
}

/// The bytes of an attribute.
pub open spec fn attribute_length(a: AttributeMsgV) -> nat {
    text_field(1, a.0) + value_field(2, a.1)
}

/// The bytes of some attributes.
pub open spec fn attributes_length(a: Seq<AttributeMsgV>) -> nat
    decreases a.len(),
{
    if a.len() == 0 {
        0
    } else {
        attributes_length(a.drop_last()) + bytes_field(12, attribute_length(a.last()))
    }
}

/// The bytes of a condition.
pub open spec fn condition_length(c: ConditionMsgV) -> nat {
    text_field(1, c.condition_id) + text_field(2, c.transition) + optional_bool_field(3, c.active)
        + optional_bool_field(4, c.acknowledged) + optional_bool_field(5, c.confirmed)
        + optional_bool_field(6, c.retain)
}

/// The bytes of what names and grades a record.
pub open spec fn record_head_length(r: RecordMsgV) -> nat {
    text_field(1, r.event_id) + text_field(2, r.category) + text_field(3, r.kind) + text_field(
        4,
        r.source,
    ) + number_field(5, r.severity as int)
}

/// The bytes of what a record may say further.
pub open spec fn record_tail_length(r: RecordMsgV) -> nat {
    optional_text_field(6, r.code) + optional_text_field(7, r.message) + optional_text_field(
        8,
        r.message_locale,
    ) + (match r.occurred_at_ns {
        Some(t) => tag_length(9) + signed_length(t as int),
        None => 0,
    }) + (match r.condition {
        Some(c) => bytes_field(10, condition_length(c)),
        None => 0,
    }) + optional_text_field(11, r.correlation_id)
}

/// The bytes of a record.
pub open spec fn record_length(r: RecordMsgV) -> nat {
    record_head_length(r) + record_tail_length(r) + attributes_length(r.attributes)
}

/// The bytes of some records.
pub open spec fn records_length(r: Seq<RecordMsgV>) -> nat
    decreases r.len(),
{
    if r.len() == 0 {
        0
    } else {
        records_length(r.drop_last()) + bytes_field(5, record_length(r.last()))
    }
}

/// The bytes of a batch.
pub open spec fn batch_length(b: EventBatchMsgV) -> nat {
    number_field(1, b.connection_handle as int) + number_field(2, b.stream_epoch as int)
        + number_field(3, b.sequence as int) + number_field(4, b.timestamp_ns as int)
        + records_length(b.events) + (match b.mono_ns {
        Some(t) => tag_length(6) + signed_length(t as int),
        None => 0,
    })
}

// ---------------------------------------------------------------------------
// Reckoning
// ---------------------------------------------------------------------------

/// A length as far as 64 bits reach.
pub open spec fn capped(n: nat) -> u64 {
    if n > u64::MAX {
        u64::MAX
    } else {
        n as u64
    }
}

/// `prost::encoding::encoded_len_varint`: how many groups of seven bits a number takes.
#[verifier::external_body]
fn varint_len(n: u64) -> (r: usize)
    ensures
        r == varint_length(n as nat),
{
    prost::encoding::encoded_len_varint(n)
}

proof fn lemma_varint_length(n: nat)
    requires
        n <= u64::MAX,
    ensures
        1 <= varint_length(n) <= 10,
{
    reveal_with_fuel(varint_length, 11);
}

proof fn lemma_tag(tag: nat)
    requires
        tag < 2048,
    ensures
        1 <= tag_length(tag) <= 2,
{
    reveal_with_fuel(varint_length, 3);
}

fn plus(a: u64, b: u64) -> (r: u64)
    ensures
        r == capped((a + b) as nat),
{
    a.saturating_add(b)
}

fn tag_len(tag: u64) -> (r: u64)
    requires
        tag < 2048,
    ensures
        r == tag_length(tag as nat),
        r <= 2,
{
    proof {
        lemma_tag(tag as nat);
    }
    varint_len(8 * tag) as u64
}

fn bytes_field_len(tag: u64, n: u64) -> (r: u64)
    requires
        tag < 2048,
    ensures
        r == capped(bytes_field(tag as nat, n as nat)),
{
    proof {
        lemma_varint_length(n as nat);
    }
    plus(tag_len(tag) + varint_len(n) as u64, n)
}

fn unsigned_len(n: u64) -> (r: u64)
    ensures
        r == signed_length(n as int),
        r <= 10,
{
    proof {
        lemma_varint_length(n as nat);
    }
    varint_len(n) as u64
}

fn signed_len(n: i64) -> (r: u64)
    ensures
        r == signed_length(n as int),
        r <= 10,
{
    if n < 0 {
        10
    } else {
        unsigned_len(n as u64)
    }
}

fn text_field_len(tag: u64, s: &str) -> (r: u64)
    requires
        tag < 2048,
    ensures
        r == capped(text_field(tag as nat, s@)),
{
    let n: usize = byte_len(s);
    if n == 0 {
        0
    } else {
        bytes_field_len(tag, n as u64)
    }
}

fn optional_text_field_len(tag: u64, s: &Option<String>) -> (r: u64)
    requires
        tag < 2048,
    ensures
        r == capped(optional_text_field(tag as nat, maybe_text(*s))),
{
    match s {
        Some(x) => bytes_field_len(tag, byte_len(x.as_str()) as u64),
        None => 0,
    }
}

fn number_field_len(tag: u64, n: u64) -> (r: u64)
    requires
        tag < 2048,
    ensures
        r == capped(number_field(tag as nat, n as int)),
{
    if n == 0 {
        0
    } else {
        tag_len(tag) + unsigned_len(n)
    }
}

fn optional_bool_field_len(tag: u64, b: Option<bool>) -> (r: u64)
    requires
        tag < 2048,
    ensures
        r == capped(optional_bool_field(tag as nat, b)),
{
    match b {
        Some(_) => tag_len(tag) + 1,
        None => 0,
    }
}

fn packed_len(n: u64) -> (r: u64)
    ensures
        r == capped(packed(n as nat)),
{
    if n == 0 {
        0
    } else {
        bytes_field_len(1, n)
    }
}

fn i32s_len(a: &Vec<i32>) -> (r: u64)
    ensures
        r == capped(numbers_length(a@.map_values(|n: i32| n as int))),
{
    let ghost all = a@.map_values(|n: i32| n as int);
    let mut sum: u64 = 0;
    let mut i: usize = 0;
    while i < a.len()
        invariant
            i <= a.len(),
            all == a@.map_values(|n: i32| n as int),
            sum == capped(numbers_length(all.subrange(0, i as int))),
        decreases a.len() - i,
    {
        assert(all.subrange(0, i + 1).drop_last() =~= all.subrange(0, i as int));
        sum = plus(sum, signed_len(a[i] as i64));
        i = i + 1;
    }
    assert(all.subrange(0, a@.len() as int) =~= all);
    sum
}

fn u32s_len(a: &Vec<u32>) -> (r: u64)
    ensures
        r == capped(numbers_length(a@.map_values(|n: u32| n as int))),
{
    let ghost all = a@.map_values(|n: u32| n as int);
    let mut sum: u64 = 0;
    let mut i: usize = 0;
    while i < a.len()
        invariant
            i <= a.len(),
            all == a@.map_values(|n: u32| n as int),
            sum == capped(numbers_length(all.subrange(0, i as int))),
        decreases a.len() - i,
    {
        assert(all.subrange(0, i + 1).drop_last() =~= all.subrange(0, i as int));
        sum = plus(sum, unsigned_len(a[i] as u64));
        i = i + 1;
    }
    assert(all.subrange(0, a@.len() as int) =~= all);
    sum
}

fn i64s_len(a: &Vec<i64>) -> (r: u64)
    ensures
        r == capped(numbers_length(a@.map_values(|n: i64| n as int))),
{
    let ghost all = a@.map_values(|n: i64| n as int);
    let mut sum: u64 = 0;
    let mut i: usize = 0;
    while i < a.len()
        invariant
            i <= a.len(),
            all == a@.map_values(|n: i64| n as int),
            sum == capped(numbers_length(all.subrange(0, i as int))),
        decreases a.len() - i,
    {
        assert(all.subrange(0, i + 1).drop_last() =~= all.subrange(0, i as int));
        sum = plus(sum, signed_len(a[i]));
        i = i + 1;
    }
    assert(all.subrange(0, a@.len() as int) =~= all);
    sum
}

fn u64s_len(a: &Vec<u64>) -> (r: u64)
    ensures
        r == capped(numbers_length(a@.map_values(|n: u64| n as int))),
{
    let ghost all = a@.map_values(|n: u64| n as int);
    let mut sum: u64 = 0;
    let mut i: usize = 0;
    while i < a.len()
        invariant
            i <= a.len(),
            all == a@.map_values(|n: u64| n as int),
            sum == capped(numbers_length(all.subrange(0, i as int))),
        decreases a.len() - i,
    {
        assert(all.subrange(0, i + 1).drop_last() =~= all.subrange(0, i as int));
        sum = plus(sum, unsigned_len(a[i]));
        i = i + 1;
    }
    assert(all.subrange(0, a@.len() as int) =~= all);
    sum
}

fn texts_len(a: &Vec<String>) -> (r: u64)
    ensures
        r == capped(texts_length(texts_view(a@))),
{
    let ghost all = texts_view(a@);
    let mut sum: u64 = 0;
    let mut i: usize = 0;
    while i < a.len()
        invariant
            i <= a.len(),
            all == texts_view(a@),
            sum == capped(texts_length(all.subrange(0, i as int))),
        decreases a.len() - i,
    {
        assert(all.subrange(0, i + 1).drop_last() =~= all.subrange(0, i as int));
        sum = plus(sum, bytes_field_len(1, byte_len(a[i].as_str()) as u64));
        i = i + 1;
    }
    assert(all.subrange(0, a@.len() as int) =~= all);
    sum
}

fn fixed_len(count: usize, width: u64) -> (r: u64)
    requires
        0 < width <= 8,
    ensures
        r == capped((count * width) as nat),
{
    let n: u64 = count as u64;
    if n > u64::MAX / width {
        assert(count * width > u64::MAX) by (nonlinear_arith)
            requires
                0 < width,
                count > u64::MAX / width,
        ;
        u64::MAX
    } else {
        assert(count * width <= u64::MAX) by (nonlinear_arith)
            requires
                0 < width,
                count <= u64::MAX / width,
        ;
        n * width
    }
}

impl ValueKind {
    fn wire_len(&self) -> (r: u64)
        ensures
            r == capped(value_length(self@)),
    {
        match self {
            ValueKind::BoolV(_) => tag_len(1) + 1,
            ValueKind::I32V(n) => tag_len(2) + signed_len(*n as i64),
            ValueKind::U32V(n) => tag_len(3) + unsigned_len(*n as u64),
            ValueKind::I64V(n) => tag_len(4) + signed_len(*n),
            ValueKind::U64V(n) => tag_len(5) + unsigned_len(*n),
            ValueKind::F32V(_) => tag_len(6) + 4,
            ValueKind::F64V(_) => tag_len(7) + 8,
            ValueKind::StringV(s) => bytes_field_len(8, byte_len(s.as_str()) as u64),
            ValueKind::BytesV(b) => bytes_field_len(9, b.len() as u64),
            ValueKind::DatetimeNsV(n) => tag_len(10) + signed_len(*n),
            ValueKind::BoolArrayV(a) => bytes_field_len(11, packed_len(a.len() as u64)),
            ValueKind::I32ArrayV(a) => bytes_field_len(12, packed_len(i32s_len(a))),
            ValueKind::U32ArrayV(a) => bytes_field_len(13, packed_len(u32s_len(a))),
            ValueKind::I64ArrayV(a) => bytes_field_len(14, packed_len(i64s_len(a))),
            ValueKind::U64ArrayV(a) => bytes_field_len(15, packed_len(u64s_len(a))),
            ValueKind::F32ArrayV(a) => bytes_field_len(16, packed_len(fixed_len(a.len(), 4))),
            ValueKind::F64ArrayV(a) => bytes_field_len(17, packed_len(fixed_len(a.len(), 8))),
            ValueKind::StringArrayV(a) => bytes_field_len(18, texts_len(a)),
            ValueKind::DatetimeArrayV(a) => bytes_field_len(19, packed_len(i64s_len(a))),
        }
    }
}

fn value_field_len(tag: u64, m: &Option<ValueMsg>) -> (r: u64)
    requires
        tag < 2048,
    ensures
        r == capped(value_field(tag as nat, value_msg_view(*m))),
{
    match m {
        None => 0,
        Some(v) => match &v.kind {
            None => bytes_field_len(tag, 0),
            Some(k) => bytes_field_len(tag, k.wire_len()),
        },
    }
}

fn attributes_len(a: &Vec<EventAttributeMsg>) -> (r: u64)
    ensures
        r == capped(attributes_length(a@.map_values(|x: EventAttributeMsg| x@))),
{
    let ghost all = a@.map_values(|x: EventAttributeMsg| x@);
    let mut sum: u64 = 0;
    let mut i: usize = 0;
    while i < a.len()
        invariant
            i <= a.len(),
            all == a@.map_values(|x: EventAttributeMsg| x@),
            sum == capped(attributes_length(all.subrange(0, i as int))),
        decreases a.len() - i,
    {
        assert(all.subrange(0, i + 1).drop_last() =~= all.subrange(0, i as int));
        let one: u64 = plus(
            text_field_len(1, a[i].key.as_str()),
            value_field_len(2, &a[i].value),
        );
        sum = plus(sum, bytes_field_len(12, one));
        i = i + 1;
    }
    assert(all.subrange(0, a@.len() as int) =~= all);
    sum
}

impl EventConditionMsg {
    fn wire_len(&self) -> (r: u64)
        ensures
            r == capped(condition_length(self@)),
    {
        let mut n: u64 = text_field_len(1, self.condition_id.as_str());
        n = plus(n, text_field_len(2, self.transition.as_str()));
        n = plus(n, optional_bool_field_len(3, self.active));
        n = plus(n, optional_bool_field_len(4, self.acknowledged));
        n = plus(n, optional_bool_field_len(5, self.confirmed));
        plus(n, optional_bool_field_len(6, self.retain))
    }
}

impl EventRecordMsg {
    fn head_len(&self) -> (r: u64)
        ensures
            r == capped(record_head_length(self@)),
    {
        let mut n: u64 = text_field_len(1, self.event_id.as_str());
        n = plus(n, text_field_len(2, self.category.as_str()));
        n = plus(n, text_field_len(3, self.kind.as_str()));
        n = plus(n, text_field_len(4, self.source.as_str()));
        plus(n, number_field_len(5, self.severity as u64))
    }

    fn tail_len(&self) -> (r: u64)
        ensures
            r == capped(record_tail_length(self@)),
    {
        let mut n: u64 = optional_text_field_len(6, &self.code);
        n = plus(n, optional_text_field_len(7, &self.message));
        n = plus(n, optional_text_field_len(8, &self.message_locale));
        let occurred: u64 = match self.occurred_at_ns {
            Some(t) => tag_len(9) + signed_len(t),
            None => 0,
        };
        n = plus(n, occurred);
        let condition: u64 = match &self.condition {
            Some(c) => bytes_field_len(10, c.wire_len()),
            None => 0,
        };
        n = plus(n, condition);
        plus(n, optional_text_field_len(11, &self.correlation_id))
    }

    fn wire_len(&self) -> (r: u64)
        ensures
            r == capped(record_length(self@)),
    {
        plus(plus(self.head_len(), self.tail_len()), attributes_len(&self.attributes))
    }
}

impl EventBatchMsg {
    /// How many bytes the message takes.
    pub fn encoded_len(&self) -> (r: u64)
        ensures
            r == capped(batch_length(self@)),
    {
        let ghost all = self@.events;
        let mut events: u64 = 0;
        let mut i: usize = 0;
        while i < self.events.len()
            invariant
                i <= self.events.len(),
                all == self@.events,
                events == capped(records_length(all.subrange(0, i as int))),
            decreases self.events.len() - i,
        {
            assert(all.subrange(0, i + 1).drop_last() =~= all.subrange(0, i as int));
            events = plus(events, bytes_field_len(5, self.events[i].wire_len()));
            i = i + 1;
        }
        assert(all.subrange(0, all.len() as int) =~= all);
        let mut n: u64 = number_field_len(1, self.connection_handle as u64);
        n = plus(n, number_field_len(2, self.stream_epoch));
        n = plus(n, number_field_len(3, self.sequence));
        let time: u64 = if self.timestamp_ns == 0 {
            0
        } else {
            tag_len(4) + signed_len(self.timestamp_ns)
        };
        n = plus(n, time);
        n = plus(n, events);
        let mono: u64 = match self.mono_ns {
            Some(t) => tag_len(6) + unsigned_len(t),
            None => 0,
        };
        plus(n, mono)
    }
}

/// A number takes a byte for each seven bits.
pub proof fn numbers_take_a_byte_for_seven_bits(n: nat)
    ensures
        n < 128 ==> varint_length(n) == 1,
        128 <= n < 16384 ==> varint_length(n) == 2,
        16384 <= n < 2097152 ==> varint_length(n) == 3,
        2097152 <= n < 268435456 ==> varint_length(n) == 4,
        n >= 128 ==> varint_length(n) == 1 + varint_length(n / 128),
{
    reveal_with_fuel(varint_length, 5);
}

/// A number below zero takes ten bytes; zero that can be left out takes none.
pub proof fn numbers_take_so_many_bytes(tag: nat, n: int)
    ensures
        n < 0 ==> signed_length(n) == 10,
        n >= 0 ==> signed_length(n) == varint_length(n as nat),
        number_field(tag, 0) == 0,
        n != 0 ==> number_field(tag, n) == varint_length(8 * tag) + signed_length(n),
        tag_length(tag) == varint_length(8 * tag),
{
}

/// Bytes and texts take their tag, their length and themselves; an empty text that can be left out
/// takes nothing.
pub proof fn texts_take_so_many_bytes(tag: nat, n: nat, s: Seq<char>, b: bool)
    ensures
        bytes_field(tag, n) == varint_length(8 * tag) + varint_length(n) + n,
        byte_length(s) == 0 ==> text_field(tag, s) == 0,
        byte_length(s) > 0 ==> text_field(tag, s) == bytes_field(tag, byte_length(s)),
        optional_text_field(tag, None) == 0,
        optional_text_field(tag, Some(s)) == bytes_field(tag, byte_length(s)),
        optional_bool_field(tag, None) == 0,
        optional_bool_field(tag, Some(b)) == varint_length(8 * tag) + 1,
{
}

/// A value takes as many bytes as its kind needs.
pub proof fn values_take_so_many_bytes(b: bool, n: i64, s: Seq<char>, x: Seq<u8>)
    ensures
        value_length(ValueV::Bool(b)) == 2,
        value_length(ValueV::I64(n)) == 1 + signed_length(n as int),
        value_length(ValueV::DateTime(n)) == 1 + signed_length(n as int),
        value_length(ValueV::String(s)) == 1 + varint_length(byte_length(s)) + byte_length(s),
        value_length(ValueV::Bytes(x)) == 1 + varint_length(x.len()) + x.len(),
        value_field(2, None) == 0,
        value_field(2, Some(Some(ValueV::Bool(b)))) == 4,
{
    reveal_with_fuel(varint_length, 2);
}

/// A condition takes the bytes of its parts.
pub proof fn conditions_take_the_bytes_of_their_parts(c: ConditionMsgV)
    ensures
        condition_length(c) == text_field(1, c.condition_id) + text_field(2, c.transition)
            + optional_bool_field(3, c.active) + optional_bool_field(4, c.acknowledged)
            + optional_bool_field(5, c.confirmed) + optional_bool_field(6, c.retain),
{
}

/// A batch takes the bytes of its own parts and of each of its records with what frames it.
pub proof fn batches_take_the_bytes_of_their_records(
    b: EventBatchMsgV,
    rs: Seq<RecordMsgV>,
    r: RecordMsgV,
    a: Seq<AttributeMsgV>,
    x: AttributeMsgV,
)
    ensures
        records_length(Seq::empty()) == 0,
        records_length(rs.push(r)) == records_length(rs) + bytes_field(5, record_length(r)),
        attributes_length(Seq::empty()) == 0,
        attributes_length(a.push(x)) == attributes_length(a) + bytes_field(
            12,
            text_field(1, x.0) + value_field(2, x.1),
        ),
        batch_length(b) >= records_length(b.events),
        b.mono_ns is None ==> batch_length(b) == number_field(1, b.connection_handle as int)
            + number_field(2, b.stream_epoch as int) + number_field(3, b.sequence as int)
            + number_field(4, b.timestamp_ns as int) + records_length(b.events),
        b.mono_ns matches Some(t) ==> batch_length(b) == number_field(
            1,
            b.connection_handle as int,
        ) + number_field(2, b.stream_epoch as int) + number_field(3, b.sequence as int)
            + number_field(4, b.timestamp_ns as int) + records_length(b.events) + varint_length(48)
            + signed_length(t as int),
{
    assert(rs.push(r).drop_last() =~= rs);
    assert(a.push(x).drop_last() =~= a);
}

/// A list of values takes the bytes of its items, packed under its tag.
pub proof fn lists_take_the_bytes_of_their_items(
    b: Seq<bool>,
    f: Seq<Single>,
    d: Seq<Double>,
    s: Seq<Seq<char>>,
    t: Seq<char>,
    xs: Seq<int>,
    x: int,
)
    ensures
        packed(0) == 0,
        b.len() > 0 ==> value_length(ValueV::BoolArray(b)) == bytes_field(
            11,
            bytes_field(1, b.len()),
        ),
        f.len() > 0 ==> value_length(ValueV::F32Array(f)) == bytes_field(
            16,
            bytes_field(1, 4 * f.len()),
        ),
        d.len() > 0 ==> value_length(ValueV::F64Array(d)) == bytes_field(
            17,
            bytes_field(1, 8 * d.len()),
        ),
        value_length(ValueV::StringArray(s)) == bytes_field(18, texts_length(s)),
        texts_length(Seq::empty()) == 0,
        texts_length(s.push(t)) == texts_length(s) + bytes_field(1, byte_length(t)),
        numbers_length(Seq::empty()) == 0,
        numbers_length(xs.push(x)) == numbers_length(xs) + signed_length(x),
{
    assert(s.push(t).drop_last() =~= s);
    assert(xs.push(x).drop_last() =~= xs);
}

/// A record takes the bytes of its parts.
pub proof fn records_take_the_bytes_of_their_parts(r: RecordMsgV)
    ensures
        r.occurred_at_ns is None && r.condition is None ==> record_length(r) == text_field(
            1,
            r.event_id,
        ) + text_field(2, r.category) + text_field(3, r.kind) + text_field(4, r.source)
            + number_field(5, r.severity as int) + optional_text_field(6, r.code)
            + optional_text_field(7, r.message) + optional_text_field(8, r.message_locale)
            + optional_text_field(11, r.correlation_id) + attributes_length(r.attributes),
{
}

} // verus!
