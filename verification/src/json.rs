//! JSON values, as the configuration and the driver contracts hold them.
use serde_json::Value;
use vstd::prelude::*;

use crate::schema::maybe_text;
use crate::table::ascending;
use crate::float::{
    double_json, double_json_text, double_of_int, double_of_uint, int_double, uint_double, Double,
};
use crate::text::{
    cat3, comes_before, decimal, decimal_text, hex_digit, join, joined,
    lemma_text_before_asymmetric, lemma_text_before_irreflexive, lemma_text_before_total,
    lemma_text_before_transitive, same_text, signed_decimal, signed_decimal_text, text_before,
    texts_view,
};
use vstd::string::StringExecFns;

verus! {

/// A JSON number: one that is not negative, a negative one, or one with a fraction or an exponent.
#[derive(Debug, Clone, Copy, PartialEq, Eq, Structural)]
pub enum JsonNumber {
    PosInt(u64),
    NegInt(i64),
    Float(Double),
}

/// A JSON value. The entries of an object stand in the order of their keys.
#[derive(Debug, PartialEq)]
pub enum Json {
    Null,
    Bool(bool),
    Number(JsonNumber),
    String(String),
    Array(Vec<Json>),
    Object(Vec<(String, Json)>),
}

/// What a [`Json`] value is.
pub enum JsonV {
    Null,
    Bool(bool),
    Number(JsonNumber),
    String(Seq<char>),
    Array(Seq<JsonV>),
    Object(Seq<(Seq<char>, JsonV)>),
}

/// A number as an `i64`, where it is one.
pub open spec fn number_int(n: JsonNumber) -> Option<i64> {
    match n {
        JsonNumber::PosInt(u) => if u <= i64::MAX {
            Some(u as i64)
        } else {
            None
        },
        JsonNumber::NegInt(i) => Some(i),
        JsonNumber::Float(_) => None,
    }
}

/// The bit pattern of a number as a double precision value.
pub open spec fn number_bits(n: JsonNumber) -> u64 {
    match n {
        JsonNumber::PosInt(u) => double_of_uint(u),
        JsonNumber::NegInt(i) => double_of_int(i),
        JsonNumber::Float(f) => f.bits,
    }
}

/// A number as JSON text.
pub open spec fn number_text(n: JsonNumber) -> Seq<char> {
    match n {
        JsonNumber::PosInt(u) => decimal(u as nat),
        JsonNumber::NegInt(i) => signed_decimal(i as int),
        JsonNumber::Float(f) => double_json(f.bits),
    }
}

impl JsonNumber {
    pub fn as_i64(self) -> (r: Option<i64>)
        ensures
            r == number_int(self),
    {
        match self {
            JsonNumber::PosInt(u) => if u <= i64::MAX as u64 {
                Some(u as i64)
            } else {
                None
            },
            JsonNumber::NegInt(i) => Some(i),
            JsonNumber::Float(_) => None,
        }
    }

    /// The bit pattern of the number as a double precision value.
    pub fn double_bits(self) -> (r: u64)
        ensures
            r == number_bits(self),
    {
        match self {
            JsonNumber::PosInt(u) => uint_double(u),
            JsonNumber::NegInt(i) => int_double(i),
            JsonNumber::Float(f) => f.bits,
        }
    }

    pub fn to_text(self) -> (r: String)
        ensures
            r@ == number_text(self),
    {
        match self {
            JsonNumber::PosInt(u) => decimal_text(u),
            JsonNumber::NegInt(i) => signed_decimal_text(i),
            JsonNumber::Float(f) => double_json_text(f.bits),
        }
    }
}

/// The value that a [`Json`] stands for.
pub open spec fn json_view(v: Json) -> JsonV
    decreases v,
{
    match v {
        Json::Null => JsonV::Null,
        Json::Bool(b) => JsonV::Bool(b),
        Json::Number(n) => JsonV::Number(n),
        Json::String(s) => JsonV::String(s@),
        Json::Array(a) => JsonV::Array(
            Seq::new(
                a@.len(),
                |i: int|
                    if 0 <= i < a@.len() {
                        json_view(a@[i])
                    } else {
                        JsonV::Null
                    },
            ),
        ),
        Json::Object(o) => JsonV::Object(
            Seq::new(
                o@.len(),
                |i: int|
                    if 0 <= i < o@.len() {
                        (o@[i].0@, json_view(o@[i].1))
                    } else {
                        (Seq::<char>::empty(), JsonV::Null)
                    },
            ),
        ),
    }
}

impl View for Json {
    type V = JsonV;

    open spec fn view(&self) -> JsonV {
        json_view(*self)
    }
}

/// The entries of an object.
pub open spec fn entries_view(o: Seq<(String, Json)>) -> Seq<(Seq<char>, JsonV)> {
    o.map_values(|e: (String, Json)| (e.0@, e.1@))
}

/// The items of an array.
pub open spec fn items_view(a: Seq<Json>) -> Seq<JsonV> {
    a.map_values(|v: Json| v@)
}

/// An object is its entries; an array is its items.
pub broadcast proof fn lemma_json_view(v: Json)
    ensures
        v matches Json::Object(o) ==> #[trigger] json_view(v) == JsonV::Object(entries_view(o@)),
        v matches Json::Array(a) ==> json_view(v) == JsonV::Array(items_view(a@)),
{
    match v {
        Json::Object(o) => {
            assert(json_view(v)->Object_0 =~= entries_view(o@));
        },
        Json::Array(a) => {
            assert(json_view(v)->Array_0 =~= items_view(a@));
        },
        _ => {},
    }
}

// ---------------------------------------------------------------------------
// Looking things up
// ---------------------------------------------------------------------------

/// The value under a key: that of the first entry with it.
pub open spec fn object_get(o: Seq<(Seq<char>, JsonV)>, key: Seq<char>) -> Option<JsonV>
    decreases o.len(),
{
    if o.len() == 0 {
        None
    } else if o[0].0 == key {
        Some(o[0].1)
    } else {
        object_get(o.drop_first(), key)
    }
}

/// The value under a key of a value: nothing where it is no object.
pub open spec fn json_get(v: JsonV, key: Seq<char>) -> Option<JsonV> {
    match v {
        JsonV::Object(o) => object_get(o, key),
        _ => None,
    }
}

/// The place of the first entry with a key, or the number of entries.
pub fn entry_place(o: &Vec<(String, Json)>, key: &str) -> (r: usize)
    ensures
        r <= o.len(),
        forall|j: int| 0 <= j < r ==> (#[trigger] o@[j]).0@ != key@,
        r < o.len() ==> o@[r as int].0@ == key@,
        object_get(entries_view(o@), key@) == (if r < o.len() {
            Some(o@[r as int].1@)
        } else {
            None
        }),
{
    let ghost all = entries_view(o@);
    assert(all.subrange(0, all.len() as int) =~= all);
    let mut i: usize = 0;
    while i < o.len()
        invariant
            i <= o.len(),
            all == entries_view(o@),
            forall|j: int| 0 <= j < i ==> (#[trigger] o@[j]).0@ != key@,
            object_get(all, key@) == object_get(all.subrange(i as int, all.len() as int), key@),
        decreases o.len() - i,
    {
        let ghost rest = all.subrange(i as int, all.len() as int);
        assert(rest[0] == (o@[i as int].0@, o@[i as int].1@));
        if same_text(o[i].0.as_str(), key) {
            return i;
        }
        assert(rest.drop_first() =~= all.subrange(i + 1, all.len() as int));
        i = i + 1;
    }
    i
}

/// The value under a key of an object's entries.
pub fn entry<'a>(o: &'a Vec<(String, Json)>, key: &str) -> (r: Option<&'a Json>)
    ensures
        match r {
            Some(v) => object_get(entries_view(o@), key@) == Some(v@),
            None => object_get(entries_view(o@), key@) is None,
        },
{
    let i: usize = entry_place(o, key);
    if i < o.len() {
        Some(&o[i].1)
    } else {
        None
    }
}

impl Json {
    pub fn get<'a>(&'a self, key: &str) -> (r: Option<&'a Json>)
        ensures
            match r {
                Some(v) => json_get(self@, key@) == Some(v@),
                None => json_get(self@, key@) is None,
            },
    {
        broadcast use lemma_json_view;

        match self {
            Json::Object(o) => entry(o, key),
            _ => None,
        }
    }

    pub fn is_object(&self) -> (r: bool)
        ensures
            r == (self@ is Object),
    {
        match self {
            Json::Object(_) => true,
            _ => false,
        }
    }

    pub fn as_str<'a>(&'a self) -> (r: Option<&'a str>)
        ensures
            match r {
                Some(s) => self@ == JsonV::String(s@),
                None => !(self@ is String),
            },
    {
        match self {
            Json::String(s) => Some(s.as_str()),
            _ => None,
        }
    }

    /// An equal value.
    pub fn copy(&self) -> (r: Json)
        ensures
            r@ == self@,
        decreases self,
    {
        broadcast use lemma_json_view;

        match self {
            Json::Null => Json::Null,
            Json::Bool(b) => Json::Bool(*b),
            Json::Number(n) => Json::Number(*n),
            Json::String(s) => Json::String(s.clone()),
            Json::Array(a) => {
                let mut out: Vec<Json> = Vec::new();
                let mut i: usize = 0;
                while i < a.len()
                    invariant
                        i <= a.len(),
                        out.len() == i,
                        decreases_to!(self => a@),
                        forall|j: int| 0 <= j < i ==> (#[trigger] out@[j])@ == a@[j]@,
                    decreases a.len() - i,
                {
                    assert(decreases_to!(a@ => a@[i as int]));
                    let item: Json = a[i].copy();
                    out.push(item);
                    i = i + 1;
                }
                assert(items_view(out@) =~= items_view(a@));
                let r: Json = Json::Array(out);
                assert(json_view(r) == JsonV::Array(items_view(out@)));
                assert(json_view(*self) == JsonV::Array(items_view(a@)));
                r
            },
            Json::Object(o) => {
                let mut out: Vec<(String, Json)> = Vec::new();
                let mut i: usize = 0;
                while i < o.len()
                    invariant
                        i <= o.len(),
                        out.len() == i,
                        decreases_to!(self => o@),
                        forall|j: int|
                            0 <= j < i ==> (#[trigger] out@[j]).0@ == o@[j].0@ && out@[j].1@
                                == o@[j].1@,
                    decreases o.len() - i,
                {
                    assert(decreases_to!(o@ => o@[i as int]));
                    assert(decreases_to!(o@[i as int] => o@[i as int].1));
                    let item: Json = o[i].1.copy();
                    out.push((o[i].0.clone(), item));
                    i = i + 1;
                }
                assert(entries_view(out@) =~= entries_view(o@));
                let r: Json = Json::Object(out);
                assert(json_view(r) == JsonV::Object(entries_view(out@)));
                assert(json_view(*self) == JsonV::Object(entries_view(o@)));
                r
            },
        }
    }
}

impl Clone for Json {
    fn clone(&self) -> (r: Json)
        ensures
            r@ == self@,
    {
        self.copy()
    }
}

// ---------------------------------------------------------------------------
// Changing an object
// ---------------------------------------------------------------------------

/// The entries with `v` under `key`: in place of what was there, else before the first entry
/// with a greater key.
pub open spec fn object_set(
    o: Seq<(Seq<char>, JsonV)>,
    key: Seq<char>,
    v: JsonV,
) -> Seq<(Seq<char>, JsonV)>
    decreases o.len(),
{
    if o.len() == 0 {
        seq![(key, v)]
    } else if o[0].0 == key {
        seq![(key, v)] + o.drop_first()
    } else if text_before(key, o[0].0) {
        seq![(key, v)] + o
    } else {
        seq![o[0]] + object_set(o.drop_first(), key, v)
    }
}

/// What was set under a key is found there, and every other key keeps its value.
pub proof fn object_get_after_set(
    o: Seq<(Seq<char>, JsonV)>,
    key: Seq<char>,
    v: JsonV,
    other: Seq<char>,
)
    ensures
        object_get(object_set(o, key, v), other) == (if other == key {
            Some(v)
        } else {
            object_get(o, other)
        }),
    decreases o.len(),
{
    let r = object_set(o, key, v);
    if o.len() == 0 {
        assert(r.drop_first() =~= o);
    } else if o[0].0 == key {
        assert(r.drop_first() =~= o.drop_first());
    } else if text_before(key, o[0].0) {
        assert(r.drop_first() =~= o);
    } else {
        object_get_after_set(o.drop_first(), key, v, other);
        assert(r.drop_first() =~= object_set(o.drop_first(), key, v));
    }
}

/// A key is looked for in the first of two lists of entries, and then in the second.
pub proof fn object_get_of_both(
    a: Seq<(Seq<char>, JsonV)>,
    b: Seq<(Seq<char>, JsonV)>,
    key: Seq<char>,
)
    ensures
        object_get(a + b, key) == (match object_get(a, key) {
            Some(v) => Some(v),
            None => object_get(b, key),
        }),
    decreases a.len(),
{
    if a.len() == 0 {
        assert(a + b =~= b);
    } else {
        assert((a + b).drop_first() =~= a.drop_first() + b);
        object_get_of_both(a.drop_first(), b, key);
    }
}

pub fn set_entry(o: &mut Vec<(String, Json)>, key: &str, v: Json)
    ensures
        entries_view(final(o)@) == object_set(entries_view(old(o)@), key@, v@),
{
    let ghost all = entries_view(o@);
    let n: usize = o.len();
    assert(all.subrange(0, n as int) =~= all);
    let mut i: usize = 0;
    while i < n && !same_text(o[i].0.as_str(), key) && !comes_before(key, o[i].0.as_str())
        invariant
            i <= n,
            n == o.len(),
            o@ == old(o)@,
            all == entries_view(o@),
            object_set(all, key@, v@) == all.subrange(0, i as int) + object_set(
                all.subrange(i as int, n as int),
                key@,
                v@,
            ),
        decreases n - i,
    {
        let ghost rest = all.subrange(i as int, n as int);
        assert(rest[0] == (o@[i as int].0@, o@[i as int].1@));
        assert(rest.drop_first() =~= all.subrange(i + 1, n as int));
        assert(all.subrange(0, i as int) + (seq![rest[0]] + object_set(
            rest.drop_first(),
            key@,
            v@,
        )) =~= all.subrange(0, i + 1) + object_set(rest.drop_first(), key@, v@));
        i = i + 1;
    }
    let ghost rest = all.subrange(i as int, n as int);
    let ghost given = v@;
    if i < n && same_text(o[i].0.as_str(), key) {
        assert(rest[0].0 == key@);
        let k: String = key.to_owned();
        o.set(i, (k, v));
        assert(entries_view(o@) =~= all.subrange(0, i as int) + (seq![(key@, given)]
            + rest.drop_first()));
    } else {
        if i < n {
            assert(rest[0] == (o@[i as int].0@, o@[i as int].1@));
        }
        o.insert(i, (key.to_owned(), v));
        assert(entries_view(o@) =~= all.subrange(0, i as int) + (seq![(key@, given)] + rest));
    }
}

// ---------------------------------------------------------------------------
// Values as text
// ---------------------------------------------------------------------------

/// A character as it stands in a JSON string: quotes, backslashes and the control characters below
/// the space are escaped, those with a letter of their own by it and the others by their code.
pub open spec fn escaped(c: char) -> Seq<char> {
    if c == '"' || c == '\\' {
        seq!['\\', c]
    } else if c == '\u{8}' {
        seq!['\\', 'b']
    } else if c == '\u{c}' {
        seq!['\\', 'f']
    } else if c == '\n' {
        seq!['\\', 'n']
    } else if c == '\r' {
        seq!['\\', 'r']
    } else if c == '\t' {
        seq!['\\', 't']
    } else if (c as u32) < 0x20 {
        seq!['\\', 'u', '0', '0', hex_digit(c as int / 16, false), hex_digit(c as int % 16, false)]
    } else {
        seq![c]
    }
}

/// The characters of a text as they stand in a JSON string.
pub open spec fn all_escaped(s: Seq<char>) -> Seq<char>
    decreases s.len(),
{
    if s.len() == 0 {
        Seq::empty()
    } else {
        all_escaped(s.drop_last()) + escaped(s.last())
    }
}

/// A text as a JSON string.
pub open spec fn json_quoted(s: Seq<char>) -> Seq<char> {
    seq!['"'] + all_escaped(s) + seq!['"']
}

/// `serde_json::to_string` of a text: its characters between quotes, escaped as JSON wants it.
#[verifier::external_body]
pub(crate) fn quoted(s: &str) -> (r: String)
    ensures
        r@ == json_quoted(s@),
{
    serde_json::to_string(s).unwrap_or_default()
}

/// A value as JSON text, without any space.
pub open spec fn json_text(v: JsonV) -> Seq<char>
    decreases v,
{
    match v {
        JsonV::Null => "null"@,
        JsonV::Bool(b) => if b {
            "true"@
        } else {
            "false"@
        },
        JsonV::Number(n) => number_text(n),
        JsonV::String(s) => json_quoted(s),
        JsonV::Array(a) => "["@ + items_text(a) + "]"@,
        JsonV::Object(o) => "{"@ + entries_text(o) + "}"@,
    }
}

/// Values as JSON text, a comma between each two.
pub open spec fn items_text(a: Seq<JsonV>) -> Seq<char>
    decreases a,
{
    if a.len() == 0 {
        Seq::empty()
    } else if a.len() == 1 {
        json_text(a[0])
    } else {
        items_text(a.drop_last()) + ","@ + json_text(a.last())
    }
}

/// Entries as JSON text, a comma between each two.
pub open spec fn entries_text(o: Seq<(Seq<char>, JsonV)>) -> Seq<char>
    decreases o,
{
    if o.len() == 0 {
        Seq::empty()
    } else if o.len() == 1 {
        json_quoted(o[0].0) + ":"@ + json_text(o[0].1)
    } else {
        entries_text(o.drop_last()) + ","@ + (json_quoted(o.last().0) + ":"@ + json_text(
            o.last().1,
        ))
    }
}

impl Json {
    /// The value as JSON text, without any space.
    pub fn to_text(&self) -> (r: String)
        ensures
            r@ == json_text(self@),
        decreases self,
    {
        broadcast use lemma_json_view;

        match self {
            Json::Null => "null".to_owned(),
            Json::Bool(b) => if *b {
                "true".to_owned()
            } else {
                "false".to_owned()
            },
            Json::Number(n) => n.to_text(),
            Json::String(s) => quoted(s.as_str()),
            Json::Array(a) => {
                let ghost all = items_view(a@);
                let mut out: String = String::new();
                let mut i: usize = 0;
                while i < a.len()
                    invariant
                        i <= a.len(),
                        all == items_view(a@),
                        decreases_to!(self => a@),
                        out@ == items_text(all.subrange(0, i as int)),
                    decreases a.len() - i,
                {
                    assert(decreases_to!(a@ => a@[i as int]));
                    let item: String = a[i].to_text();
                    let ghost part = all.subrange(0, i + 1);
                    assert(part.drop_last() =~= all.subrange(0, i as int));
                    assert(part.last() == a@[i as int]@);
                    if i == 0 {
                        out = item;
                    } else {
                        out.append(",");
                        out.append(item.as_str());
                    }
                    i = i + 1;
                }
                assert(all.subrange(0, a@.len() as int) =~= all);
                assert(json_view(*self) == JsonV::Array(all));
                cat3("[", out.as_str(), "]")
            },
            Json::Object(o) => {
                let ghost all = entries_view(o@);
                let mut out: String = String::new();
                let mut i: usize = 0;
                while i < o.len()
                    invariant
                        i <= o.len(),
                        all == entries_view(o@),
                        decreases_to!(self => o@),
                        out@ == entries_text(all.subrange(0, i as int)),
                    decreases o.len() - i,
                {
                    assert(decreases_to!(o@ => o@[i as int]));
                    assert(decreases_to!(o@[i as int] => o@[i as int].1));
                    let value: String = o[i].1.to_text();
                    let key: String = quoted(o[i].0.as_str());
                    let item: String = cat3(key.as_str(), ":", value.as_str());
                    let ghost part = all.subrange(0, i + 1);
                    assert(part.drop_last() =~= all.subrange(0, i as int));
                    assert(part.last() == (o@[i as int].0@, o@[i as int].1@));
                    if i == 0 {
                        out = item;
                    } else {
                        out.append(",");
                        out.append(item.as_str());
                    }
                    i = i + 1;
                }
                assert(all.subrange(0, o@.len() as int) =~= all);
                assert(json_view(*self) == JsonV::Object(all));
                cat3("{", out.as_str(), "}")
            },
        }
    }
}

// ---------------------------------------------------------------------------
// Text of objects and arrays by their parts
// ---------------------------------------------------------------------------

/// A member of an object as JSON.
pub open spec fn member(name: Seq<char>, value: Seq<char>) -> Seq<char> {
    json_quoted(name) + ":"@ + value
}

/// An object as JSON, by its members.
pub open spec fn braced(members: Seq<Seq<char>>) -> Seq<char> {
    "{"@ + joined(members, ","@) + "}"@
}

/// An array as JSON, by its items.
pub open spec fn bracketed(items: Seq<Seq<char>>) -> Seq<char> {
    "["@ + joined(items, ","@) + "]"@
}

/// A truth value as JSON.
pub open spec fn bool_text(b: bool) -> Seq<char> {
    if b {
        "true"@
    } else {
        "false"@
    }
}

pub(crate) fn member_text(name: &str, value: &str) -> (r: String)
    ensures
        r@ == member(name@, value@),
{
    let q: String = quoted(name);
    cat3(q.as_str(), ":", value)
}

pub(crate) fn braced_text(members: &Vec<String>) -> (r: String)
    ensures
        r@ == braced(texts_view(members@)),
{
    let inner: String = join(members, ",");
    cat3("{", inner.as_str(), "}")
}

pub(crate) fn bracketed_text(items: &Vec<String>) -> (r: String)
    ensures
        r@ == bracketed(texts_view(items@)),
{
    let inner: String = join(items, ",");
    cat3("[", inner.as_str(), "]")
}

pub(crate) fn bool_json(b: bool) -> (r: String)
    ensures
        r@ == bool_text(b),
{
    if b {
        "true".to_owned()
    } else {
        "false".to_owned()
    }
}

/// A member that is left out where there is nothing to say.
pub open spec fn text_member(name: Seq<char>, v: Option<Seq<char>>) -> Seq<Seq<char>> {
    match v {
        Some(s) => seq![member(name, json_quoted(s))],
        None => Seq::empty(),
    }
}

pub(crate) fn push_text(members: &mut Vec<String>, name: &str, v: &Option<String>)
    ensures
        texts_view(final(members)@) == texts_view(old(members)@) + text_member(
            name@,
            maybe_text(*v),
        ),
{
    match v {
        Some(s) => {
            let q: String = quoted(s.as_str());
            members.push(member_text(name, q.as_str()));
        },
        None => {},
    }
    assert(texts_view(members@) =~= texts_view(old(members)@) + text_member(
            name@,
            maybe_text(*v),
        ));
}

pub(crate) fn push_member(members: &mut Vec<String>, name: &str, value: &str)
    ensures
        texts_view(final(members)@) == texts_view(old(members)@) + seq![member(name@, value@)],
{
    members.push(member_text(name, value));
    assert(texts_view(members@) =~= texts_view(old(members)@) + seq![member(name@, value@)]);
}

// ---------------------------------------------------------------------------
// Text as values
// ---------------------------------------------------------------------------

/// A value as `serde_json` holds it.
#[verifier::external_type_specification]
#[verifier::external_body]
pub struct ExValue(serde_json::Value);

/// What a `serde_json::Value` holds.
pub uninterp spec fn value_view(v: serde_json::Value) -> JsonV;

/// What a text says as JSON, by `serde_json::from_str`, or how the error reads.
pub uninterp spec fn json_parsed(text: Seq<char>) -> Result<JsonV, Seq<char>>;

/// The keys of some entries.
pub open spec fn entry_keys(o: Seq<(Seq<char>, JsonV)>) -> Seq<Seq<char>> {
    o.map_values(|e: (Seq<char>, JsonV)| e.0)
}

/// Whether an object is written as one. An object whose first key is this one stands for a value
/// that `serde_json` keeps as text, and is read as what that text says.
pub open spec fn written_as_object(o: Seq<(Seq<char>, JsonV)>) -> bool {
    o.len() > 0 ==> o[0].0 != "$serde_json::private::RawValue"@
}

/// An object whose first key is not of the length of the one that is kept for raw values is written
/// as an object.
pub proof fn other_keys_are_written_as_objects(o: Seq<(Seq<char>, JsonV)>)
    requires
        o.len() > 0 ==> o[0].0.len() != 30,
    ensures
        written_as_object(o),
{
    reveal_strlit("$serde_json::private::RawValue");
}

/// Whether a value holds no fractions and no object that stands for a raw value, stands at most
/// `depth` lists and objects deep, and has the keys of each object in order.
pub open spec fn plain(v: JsonV, depth: nat) -> bool
    decreases v,
{
    match v {
        JsonV::Null => true,
        JsonV::Bool(b) => true,
        JsonV::Number(n) => match n {
            JsonNumber::PosInt(u) => true,
            JsonNumber::NegInt(i) => i < 0,
            JsonNumber::Float(f) => false,
        },
        JsonV::String(s) => true,
        JsonV::Array(a) => depth > 0 && plain_items(a, (depth - 1) as nat),
        JsonV::Object(o) => depth > 0 && written_as_object(o) && ascending(entry_keys(o))
            && plain_entries(o, (depth - 1) as nat),
    }
}

/// Whether each of some values is plain.
pub open spec fn plain_items(a: Seq<JsonV>, depth: nat) -> bool
    decreases a,
{
    a.len() == 0 || (plain_items(a.drop_last(), depth) && plain(a.last(), depth))
}

/// Whether the value of each of some entries is plain.
pub open spec fn plain_entries(o: Seq<(Seq<char>, JsonV)>, depth: nat) -> bool
    decreases o,
{
    o.len() == 0 || (plain_entries(o.drop_last(), depth) && plain(o.last().1, depth))
}

/// Whether a value holds no fractions and no object that stands for a raw value, and stands at most
/// `depth` lists and objects deep.
pub open spec fn whole(v: JsonV, depth: nat) -> bool
    decreases v,
{
    match v {
        JsonV::Number(JsonNumber::NegInt(i)) => i < 0,
        JsonV::Number(JsonNumber::Float(f)) => false,
        JsonV::Array(a) => depth > 0 && whole_items(a, (depth - 1) as nat),
        JsonV::Object(o) => depth > 0 && written_as_object(o) && whole_entries(
            o,
            (depth - 1) as nat,
        ),
        _ => true,
    }
}

/// Whether each of some values is whole.
pub open spec fn whole_items(a: Seq<JsonV>, depth: nat) -> bool
    decreases a,
{
    a.len() == 0 || (whole_items(a.drop_last(), depth) && whole(a.last(), depth))
}

/// Whether the value of each of some entries is whole.
pub open spec fn whole_entries(o: Seq<(Seq<char>, JsonV)>, depth: nat) -> bool
    decreases o,
{
    o.len() == 0 || (whole_entries(o.drop_last(), depth) && whole(o.last().1, depth))
}

/// A value with the entries of each object in the order of their keys. Of entries with the same
/// key the last one counts.
pub open spec fn ordered(v: JsonV) -> JsonV
    decreases v,
{
    match v {
        JsonV::Array(a) => JsonV::Array(ordered_items(a)),
        JsonV::Object(o) => JsonV::Object(ordered_entries(o)),
        _ => v,
    }
}

/// Some values, each with its entries in order.
pub open spec fn ordered_items(a: Seq<JsonV>) -> Seq<JsonV>
    decreases a,
{
    if a.len() == 0 {
        Seq::empty()
    } else {
        ordered_items(a.drop_last()).push(ordered(a.last()))
    }
}

/// Some entries in the order of their keys, the value of each with its own in order.
pub open spec fn ordered_entries(o: Seq<(Seq<char>, JsonV)>) -> Seq<(Seq<char>, JsonV)>
    decreases o,
{
    if o.len() == 0 {
        Seq::empty()
    } else {
        object_set(ordered_entries(o.drop_last()), o.last().0, ordered(o.last().1))
    }
}

proof fn lemma_rest_ascending(o: Seq<(Seq<char>, JsonV)>)
    requires
        ascending(entry_keys(o)),
        o.len() > 0,
    ensures
        ascending(entry_keys(o.drop_first())),
        forall|j: int| 0 < j < o.len() ==> text_before(o[0].0, (#[trigger] o[j]).0),
{
    let keys = entry_keys(o);
    let rest = o.drop_first();
    assert forall|i: int, j: int| 0 <= i < j < rest.len() implies text_before(
        #[trigger] entry_keys(rest)[i],
        #[trigger] entry_keys(rest)[j],
    ) by {
        assert(entry_keys(rest)[i] == keys[i + 1] && entry_keys(rest)[j] == keys[j + 1]);
    }
    assert forall|j: int| 0 < j < o.len() implies text_before(o[0].0, (#[trigger] o[j]).0) by {
        assert(text_before(keys[0], keys[j]));
    }
}

proof fn lemma_ascending_after(o: Seq<(Seq<char>, JsonV)>, first: (Seq<char>, JsonV))
    requires
        ascending(entry_keys(o)),
        forall|j: int| 0 <= j < o.len() ==> text_before(first.0, (#[trigger] o[j]).0),
    ensures
        ascending(entry_keys(seq![first] + o)),
{
    let all = seq![first] + o;
    assert forall|i: int, j: int| 0 <= i < j < all.len() implies text_before(
        #[trigger] entry_keys(all)[i],
        #[trigger] entry_keys(all)[j],
    ) by {
        assert(all[j] == o[j - 1]);
        if i > 0 {
            assert(entry_keys(o)[i - 1] == all[i].0 && entry_keys(o)[j - 1] == all[j].0);
        }
    }
}

/// Setting a key keeps the keys of ascending entries ascending, and adds no other key.
pub proof fn object_set_stays_ascending(o: Seq<(Seq<char>, JsonV)>, key: Seq<char>, v: JsonV)
    requires
        ascending(entry_keys(o)),
    ensures
        ascending(entry_keys(object_set(o, key, v))),
        forall|j: int|
            0 <= j < object_set(o, key, v).len() ==> (#[trigger] object_set(o, key, v)[j]).0 == key
                || exists|i: int| 0 <= i < o.len() && (#[trigger] o[i]).0 == object_set(o, key, v)[j].0,
    decreases o.len(),
{
    let r = object_set(o, key, v);
    if o.len() == 0 {
        assert(r == seq![(key, v)]);
    } else {
        lemma_rest_ascending(o);
        let rest = o.drop_first();
        if o[0].0 == key {
            lemma_ascending_after(rest, (key, v));
            assert forall|j: int| 0 <= j < r.len() implies (#[trigger] r[j]).0 == key || exists|i: int|
                0 <= i < o.len() && (#[trigger] o[i]).0 == r[j].0 by {
                assert(j > 0 ==> o[j].0 == r[j].0);
            }
        } else if text_before(key, o[0].0) {
            assert forall|j: int| 0 <= j < o.len() implies text_before(key, (#[trigger] o[j]).0) by {
                if j > 0 {
                    lemma_text_before_transitive(key, o[0].0, o[j].0);
                }
            }
            lemma_ascending_after(o, (key, v));
            assert forall|j: int| 0 <= j < r.len() implies (#[trigger] r[j]).0 == key || exists|i: int|
                0 <= i < o.len() && (#[trigger] o[i]).0 == r[j].0 by {
                assert(j > 0 ==> o[j - 1].0 == r[j].0);
            }
        } else {
            object_set_stays_ascending(rest, key, v);
            lemma_text_before_total(key, o[0].0);
            let tail = object_set(rest, key, v);
            assert forall|j: int| 0 <= j < tail.len() implies text_before(
                o[0].0,
                (#[trigger] tail[j]).0,
            ) by {
                if tail[j].0 != key {
                    let i = choose|i: int|
                        0 <= i < rest.len() && (#[trigger] rest[i]).0 == tail[j].0;
                    assert(o[i + 1] == rest[i]);
                }
            }
            lemma_ascending_after(tail, o[0]);
            assert forall|j: int| 0 <= j < r.len() implies (#[trigger] r[j]).0 == key || exists|i: int|
                0 <= i < o.len() && (#[trigger] o[i]).0 == r[j].0 by {
                if j == 0 {
                    assert(o[0].0 == r[j].0);
                } else {
                    assert(tail[j - 1] == r[j]);
                    if r[j].0 != key {
                        let i = choose|i: int|
                            0 <= i < rest.len() && (#[trigger] rest[i]).0 == tail[j - 1].0;
                        assert(o[i + 1].0 == r[j].0);
                    }
                }
            }
        }
    }
}

proof fn lemma_set_at_end(o: Seq<(Seq<char>, JsonV)>, key: Seq<char>, v: JsonV)
    requires
        forall|j: int| 0 <= j < o.len() ==> text_before((#[trigger] o[j]).0, key),
    ensures
        object_set(o, key, v) == o.push((key, v)),
    decreases o.len(),
{
    broadcast use lemma_text_before_irreflexive;

    if o.len() > 0 {
        lemma_text_before_asymmetric(o[0].0, key);
        let rest = o.drop_first();
        assert forall|j: int| 0 <= j < rest.len() implies text_before((#[trigger] rest[j]).0, key) by {
            assert(rest[j] == o[j + 1]);
        }
        lemma_set_at_end(rest, key, v);
    }
    assert(object_set(o, key, v) =~= o.push((key, v)));
}

/// Entries that were put in order have ascending keys.
pub proof fn ordered_entries_ascend(o: Seq<(Seq<char>, JsonV)>)
    ensures
        ascending(entry_keys(ordered_entries(o))),
    decreases o.len(),
{
    if o.len() > 0 {
        ordered_entries_ascend(o.drop_last());
        object_set_stays_ascending(
            ordered_entries(o.drop_last()),
            o.last().0,
            ordered(o.last().1),
        );
    }
}

/// Putting entries in order changes no value but for the order of its own entries, where no key
/// stands twice.
pub proof fn ordered_entries_hold_the_same(o: Seq<(Seq<char>, JsonV)>, key: Seq<char>)
    requires
        entry_keys(o).no_duplicates(),
    ensures
        object_get(ordered_entries(o), key) == (match object_get(o, key) {
            Some(v) => Some(ordered(v)),
            None => None,
        }),
    decreases o.len(),
{
    if o.len() > 0 {
        let init = o.drop_last();
        let last = seq![o.last()];
        assert(entry_keys(init) =~= entry_keys(o).drop_last());
        assert(o =~= init + last);
        ordered_entries_hold_the_same(init, key);
        object_get_after_set(ordered_entries(init), o.last().0, ordered(o.last().1), key);
        object_get_of_both(init, last, key);
        assert(last.drop_first().len() == 0);
        assert(object_get(last, key) == (if o.last().0 == key {
            Some(o.last().1)
        } else {
            None
        })) by {
            reveal_with_fuel(object_get, 2);
        }
        if key == o.last().0 && object_get(init, key) is Some {
            let p = object_get_found(init, key);
            assert(entry_keys(o)[p] == entry_keys(o)[o.len() - 1]);
        }
    }
}

/// A plain value is whole, and its entries are in order.
pub proof fn plain_values_are_ordered(v: JsonV, depth: nat)
    requires
        plain(v, depth),
    ensures
        whole(v, depth),
        ordered(v) == v,
    decreases v,
{
    match v {
        JsonV::Array(a) => {
            lemma_plain_items_ordered(a, (depth - 1) as nat);
        },
        JsonV::Object(o) => {
            lemma_plain_entries_ordered(o, (depth - 1) as nat);
        },
        _ => {},
    }
}

proof fn lemma_plain_items_ordered(a: Seq<JsonV>, depth: nat)
    requires
        plain_items(a, depth),
    ensures
        whole_items(a, depth),
        ordered_items(a) == a,
    decreases a,
{
    if a.len() > 0 {
        lemma_plain_items_ordered(a.drop_last(), depth);
        plain_values_are_ordered(a.last(), depth);
        assert(a.drop_last().push(a.last()) =~= a);
    } else {
        assert(a =~= Seq::<JsonV>::empty());
    }
}

proof fn lemma_plain_entries_ordered(o: Seq<(Seq<char>, JsonV)>, depth: nat)
    requires
        plain_entries(o, depth),
        ascending(entry_keys(o)),
    ensures
        whole_entries(o, depth),
        ordered_entries(o) == o,
    decreases o,
{
    if o.len() > 0 {
        let init = o.drop_last();
        let keys = entry_keys(o);
        assert(entry_keys(init) =~= keys.drop_last());
        assert(ascending(entry_keys(init)));
        lemma_plain_entries_ordered(init, depth);
        plain_values_are_ordered(o.last().1, depth);
        assert forall|j: int| 0 <= j < init.len() implies text_before(
            (#[trigger] init[j]).0,
            o.last().0,
        ) by {
            assert(text_before(keys[j], keys[o.len() - 1]));
        }
        lemma_set_at_end(init, o.last().0, o.last().1);
        assert(init.push((o.last().0, o.last().1)) =~= o);
    } else {
        assert(o =~= Seq::<(Seq<char>, JsonV)>::empty());
    }
}

/// Where ascending entries have a key, setting it changes that entry and no other.
pub proof fn object_set_in_place(o: Seq<(Seq<char>, JsonV)>, p: int, v: JsonV)
    requires
        ascending(entry_keys(o)),
        0 <= p < o.len(),
    ensures
        object_get(o, o[p].0) == Some(o[p].1),
        object_set(o, o[p].0, v) == o.update(p, (o[p].0, v)),
    decreases p,
{
    broadcast use lemma_text_before_irreflexive;

    let keys = entry_keys(o);
    let key = o[p].0;
    if p == 0 {
        assert(object_set(o, key, v) =~= o.update(p, (key, v)));
    } else {
        let rest = o.drop_first();
        assert(text_before(keys[0], keys[p]));
        lemma_text_before_asymmetric(keys[0], keys[p]);
        assert forall|i: int, j: int| 0 <= i < j < rest.len() implies text_before(
            #[trigger] entry_keys(rest)[i],
            #[trigger] entry_keys(rest)[j],
        ) by {
            assert(entry_keys(rest)[i] == keys[i + 1] && entry_keys(rest)[j] == keys[j + 1]);
        }
        assert(rest[p - 1] == o[p]);
        object_set_in_place(rest, p - 1, v);
        assert(object_set(o, key, v) =~= o.update(p, (key, v)));
    }
}

/// What is found under a key stands in an entry.
pub proof fn object_get_found(o: Seq<(Seq<char>, JsonV)>, key: Seq<char>) -> (p: int)
    requires
        object_get(o, key) is Some,
    ensures
        0 <= p < o.len(),
        o[p].0 == key,
        object_get(o, key) == Some(o[p].1),
    decreases o.len(),
{
    if o[0].0 == key {
        0
    } else {
        let p = object_get_found(o.drop_first(), key);
        p + 1
    }
}

/// Entries are plain where the value of each is.
pub proof fn plain_entries_one_by_one(o: Seq<(Seq<char>, JsonV)>, depth: nat)
    ensures
        plain_entries(o, depth) <==> forall|i: int|
            0 <= i < o.len() ==> plain((#[trigger] o[i]).1, depth),
    decreases o.len(),
{
    if o.len() > 0 {
        let init = o.drop_last();
        plain_entries_one_by_one(init, depth);
        if plain_entries(o, depth) {
            assert forall|i: int| 0 <= i < o.len() implies plain((#[trigger] o[i]).1, depth) by {
                if i < o.len() - 1 {
                    assert(init[i] == o[i]);
                }
            }
        }
        if forall|i: int| 0 <= i < o.len() ==> plain((#[trigger] o[i]).1, depth) {
            assert forall|i: int| 0 <= i < init.len() implies plain(
                (#[trigger] init[i]).1,
                depth,
            ) by {
                assert(init[i] == o[i]);
            }
            assert(o[o.len() - 1] == o.last());
        }
    }
}

/// `serde_json::from_str` into a `serde_json::Value`. Whether the text is JSON, and what it says,
/// depend on the text alone, and so does the wording of the error. The text that a whole value is
/// written as says that value, its entries in order: integers and texts are read as they were
/// written, an object is a map that is walked in the order of its keys and in which a later entry
/// takes the place of an earlier one, and 127 levels are within the reader's limit. An object whose
/// first key is the one that `serde_json` keeps for raw values is read otherwise. That, and the
/// rest of the grammar, is left unsaid.
#[verifier::external_body]
fn parse_value(text: &str) -> (r: Result<serde_json::Value, String>)
    ensures
        match r {
            Ok(v) => json_parsed(text@) == Ok::<JsonV, Seq<char>>(value_view(v)),
            Err(e) => json_parsed(text@) == Err::<JsonV, Seq<char>>(e@),
        },
        forall|w: JsonV|
            whole(w, 127) && #[trigger] json_text(w) == text@ ==> r is Ok && value_view(r->Ok_0)
                == ordered(w),
{
    serde_json::from_str(text).map_err(|e| e.to_string())
}

/// A `serde_json::Value` as a [`Json`]: the same value, variant by variant, the entries of an
/// object in the order in which `serde_json::Map` gives them.
#[verifier::external_body]
fn lifted(v: Value) -> (r: Json)
    ensures
        r@ == value_view(v),
{
    match v {
        Value::Null => Json::Null,
        Value::Bool(b) => Json::Bool(b),
        Value::Number(n) => Json::Number(match (n.as_u64(), n.as_i64()) {
            (Some(u), _) => JsonNumber::PosInt(u),
            (None, Some(i)) => JsonNumber::NegInt(i),
            _ => JsonNumber::Float(Double { bits: n.as_f64().unwrap_or_default().to_bits() }),
        }),
        Value::String(s) => Json::String(s),
        Value::Array(a) => Json::Array(a.into_iter().map(lifted).collect()),
        Value::Object(o) => Json::Object(o.into_iter().map(|(k, v)| (k, lifted(v))).collect()),
    }
}

impl Json {
    /// The value that a text says, or the wording of what is wrong with it.
    pub fn parse(text: &str) -> (r: Result<Json, String>)
        ensures
            match r {
                Ok(v) => json_parsed(text@) == Ok::<JsonV, Seq<char>>(v@),
                Err(e) => json_parsed(text@) == Err::<JsonV, Seq<char>>(e@),
            },
            forall|w: JsonV|
                plain(w, 127) && #[trigger] json_text(w) == text@ ==> json_parsed(text@) == Ok::<
                    JsonV,
                    Seq<char>,
                >(w),
            forall|w: JsonV|
                whole(w, 127) && #[trigger] json_text(w) == text@ ==> json_parsed(text@) == Ok::<
                    JsonV,
                    Seq<char>,
                >(ordered(w)),
    {
        proof {
            assert forall|w: JsonV| #[trigger] json_text(w) == text@ && plain(w, 127) implies whole(
                w,
                127,
            ) && ordered(w) == w by {
                plain_values_are_ordered(w, 127);
            }
        }
        match parse_value(text) {
            Ok(v) => Ok(lifted(v)),
            Err(e) => Err(e),
        }
    }
}

/// Of entries with different keys each is found under its own.
pub proof fn object_get_of_distinct(o: Seq<(Seq<char>, JsonV)>, p: int)
    requires
        0 <= p < o.len(),
        forall|i: int, j: int| 0 <= i < j < o.len() ==> (#[trigger] o[i]).0 != (#[trigger] o[j]).0,
    ensures
        object_get(o, o[p].0) == Some(o[p].1),
    decreases o.len(),
{
    if p > 0 {
        let rest = o.drop_first();
        assert(o[0].0 != o[p].0);
        assert forall|i: int, j: int| 0 <= i < j < rest.len() implies (#[trigger] rest[i]).0 != (
        #[trigger] rest[j]).0 by {
            assert(rest[i] == o[i + 1] && rest[j] == o[j + 1]);
        }
        assert(rest[p - 1] == o[p]);
        object_get_of_distinct(rest, p - 1);
    }
}

/// Under a key that no entry has nothing is found.
pub proof fn object_get_of_none(o: Seq<(Seq<char>, JsonV)>, key: Seq<char>)
    requires
        forall|i: int| 0 <= i < o.len() ==> (#[trigger] o[i]).0 != key,
    ensures
        object_get(o, key) is None,
    decreases o.len(),
{
    if o.len() > 0 {
        let rest = o.drop_first();
        assert(o[0].0 != key);
        assert forall|i: int| 0 <= i < rest.len() implies (#[trigger] rest[i]).0 != key by {
            assert(rest[i] == o[i + 1]);
        }
        object_get_of_none(rest, key);
    }
}

/// A number is an integer exactly where it has no fraction and fits 64 bits with a sign.
pub proof fn integers_are_numbers_without_a_fraction(u: u64, i: i64, f: Double)
    ensures
        u <= i64::MAX ==> number_int(JsonNumber::PosInt(u)) == Some(u as i64),
        u > i64::MAX ==> number_int(JsonNumber::PosInt(u)) is None,
        number_int(JsonNumber::NegInt(i)) == Some(i),
        number_int(JsonNumber::Float(f)) is None,
        number_bits(JsonNumber::Float(f)) == f.bits,
{
}

} // verus!
