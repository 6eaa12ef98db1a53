//! Reports of what a probe found out about a device.
use vstd::prelude::*;

use crate::json::{
    entries_view, entry, entry_keys, items_view, json_get, json_parsed, json_text, json_view,
    lemma_json_view, object_get, object_get_of_both, ordered, ordered_entries_hold_the_same,
    ordered_items, other_keys_are_written_as_objects, whole, whole_entries, whole_items, Json, JsonV,
};
use crate::outline::{
    after_space, chars_of, field_place, is_at, is_once, items, items_at, members, members_at,
    members_view, once, place_of_field, plainly_written, space_end, stands, text_at, times,
    times_in_both, worded, worded_entries, worded_items, written_items_are_found,
    written_members_are_found, written_members_are_named, written_members_have_their_names,
    written_strings_begin_with_a_quote, Member,
};
use crate::schema::maybe_text;
use crate::text::{blank, byte_len, byte_length, cat2, decimal, decimal_text, is_blank, same_text};

verus! {

/// The greatest length of a report as JSON, in bytes.
pub const PROBE_REPORT_MAX_BYTES: usize = 65536;

// ---------------------------------------------------------------------------
// Types
// ---------------------------------------------------------------------------

/// Whether a device has a capability.
#[derive(Debug, Clone, Copy, PartialEq, Eq, Structural)]
pub enum CapabilityState {
    Available,
    AccessDenied,
    NotPresent,
    Unknown,
}

/// A capability of a device.
#[derive(Debug, Clone, PartialEq)]
pub struct CapabilityItem {
    pub id: String,
    pub state: CapabilityState,
    pub detail: Option<String>,
}

/// Something that a probe warns of.
#[derive(Debug, Clone, PartialEq)]
pub struct ProbeWarning {
    pub code: String,
    pub message: String,
}

/// What a probe found out.
#[derive(Debug, Clone, PartialEq)]
pub struct ProbeReport {
    pub reachable: bool,
    pub vendor: Option<String>,
    pub family: Option<String>,
    pub model: Option<String>,
    pub firmware: Option<String>,
    pub model_confidence: Option<String>,
    pub capabilities: Vec<CapabilityItem>,
    pub warnings: Vec<ProbeWarning>,
}

/// What a [`CapabilityItem`] says.
pub struct CapabilityV {
    pub id: Seq<char>,
    pub state: CapabilityState,
    pub detail: Option<Seq<char>>,
}

/// What a [`ProbeWarning`] says.
pub struct WarningV {
    pub code: Seq<char>,
    pub message: Seq<char>,
}

/// What a [`ProbeReport`] says.
pub struct ReportV {
    pub reachable: bool,
    pub vendor: Option<Seq<char>>,
    pub family: Option<Seq<char>>,
    pub model: Option<Seq<char>>,
    pub firmware: Option<Seq<char>>,
    pub model_confidence: Option<Seq<char>>,
    pub capabilities: Seq<CapabilityV>,
    pub warnings: Seq<WarningV>,
}

impl View for CapabilityItem {
    type V = CapabilityV;

    open spec fn view(&self) -> CapabilityV {
        CapabilityV { id: self.id@, state: self.state, detail: maybe_text(self.detail) }
    }
}

impl View for ProbeWarning {
    type V = WarningV;

    open spec fn view(&self) -> WarningV {
        WarningV { code: self.code@, message: self.message@ }
    }
}

impl View for ProbeReport {
    type V = ReportV;

    open spec fn view(&self) -> ReportV {
        ReportV {
            reachable: self.reachable,
            vendor: maybe_text(self.vendor),
            family: maybe_text(self.family),
            model: maybe_text(self.model),
            firmware: maybe_text(self.firmware),
            model_confidence: maybe_text(self.model_confidence),
            capabilities: self.capabilities@.map_values(|c: CapabilityItem| c@),
            warnings: self.warnings@.map_values(|w: ProbeWarning| w@),
        }
    }
}

// ---------------------------------------------------------------------------
// Whether a report makes sense
// ---------------------------------------------------------------------------

/// The first blank or repeated id among the capabilities from `i` on.
pub open spec fn capabilities_fault(c: Seq<CapabilityV>, i: int) -> Option<Seq<char>>
    decreases c.len() - i,
{
    if i >= c.len() {
        None
    } else if blank(c[i].id) {
        Some("capability id 不能为空"@)
    } else if exists|j: int| 0 <= j < i && (#[trigger] c[j]).id == c[i].id {
        Some("capability id 重复: "@ + c[i].id)
    } else {
        capabilities_fault(c, i + 1)
    }
}

/// The first thing that is wrong with a report. A capability has an id of its own, a warning has a
/// code, and a report on a device that was not reached says why and nothing else.
pub open spec fn report_fault(r: ReportV) -> Option<Seq<char>> {
    match capabilities_fault(r.capabilities, 0) {
        Some(m) => Some(m),
        None => if exists|i: int|
            0 <= i < r.warnings.len() && blank((#[trigger] r.warnings[i]).code) {
            Some("probe warning code 不能为空"@)
        } else if r.reachable {
            None
        } else if r.vendor is Some || r.family is Some || r.model is Some || r.firmware is Some
            || r.model_confidence is Some {
            Some("unreachable 报告不得携带设备身份"@)
        } else if r.capabilities.len() > 0 {
            Some("unreachable 报告不得携带 capabilities"@)
        } else if r.warnings.len() == 0 {
            Some("unreachable 报告必须至少一个 warning 道明原因"@)
        } else {
            None
        },
    }
}

/// The report on a device that was not reached.
pub open spec fn unreachable_report(code: Seq<char>, message: Seq<char>) -> ReportV {
    ReportV {
        reachable: false,
        vendor: None,
        family: None,
        model: None,
        firmware: None,
        model_confidence: None,
        capabilities: Seq::empty(),
        warnings: seq![WarningV { code, message }],
    }
}

impl ProbeReport {
    /// The report on a device that was not reached: the reason, and nothing of the device.
    pub fn unreachable(code: &str, message: &str) -> (r: ProbeReport)
        ensures
            r@ == unreachable_report(code@, message@),
    {
        let mut warnings: Vec<ProbeWarning> = Vec::new();
        warnings.push(ProbeWarning { code: code.to_owned(), message: message.to_owned() });
        let r: ProbeReport = ProbeReport {
            reachable: false,
            vendor: None,
            family: None,
            model: None,
            firmware: None,
            model_confidence: None,
            capabilities: Vec::new(),
            warnings,
        };
        assert(r@.warnings =~= unreachable_report(code@, message@).warnings);
        assert(r@.capabilities =~= Seq::<CapabilityV>::empty());
        r
    }

    fn capabilities_check(&self) -> (r: Option<String>)
        ensures
            maybe_text(r) == capabilities_fault(self@.capabilities, 0),
    {
        let ghost all = self@.capabilities;
        let mut i: usize = 0;
        while i < self.capabilities.len()
            invariant
                i <= self.capabilities.len(),
                all == self@.capabilities,
                capabilities_fault(all, 0) == capabilities_fault(all, i as int),
            decreases self.capabilities.len() - i,
        {
            let id: &str = self.capabilities[i].id.as_str();
            assert(all[i as int].id == id@);
            if is_blank(id) {
                return Some("capability id 不能为空".to_owned());
            }
            let mut j: usize = 0;
            while j < i
                invariant
                    j <= i < self.capabilities.len(),
                    all == self@.capabilities,
                    id@ == all[i as int].id,
                    !blank(id@),
                    capabilities_fault(all, 0) == capabilities_fault(all, i as int),
                    forall|k: int| 0 <= k < j ==> (#[trigger] all[k]).id != id@,
                decreases i - j,
            {
                if same_text(self.capabilities[j].id.as_str(), id) {
                    assert(all[j as int].id == id@);
                    return Some(cat2("capability id 重复: ", id));
                }
                j = j + 1;
            }
            i = i + 1;
        }
        None
    }

    /// Whether the report makes sense; else the first thing that is wrong with it.
    pub fn validate(&self) -> (r: Result<(), String>)
        ensures
            match r {
                Ok(()) => report_fault(self@) is None,
                Err(m) => report_fault(self@) == Some(m@),
            },
    {
        match self.capabilities_check() {
            Some(m) => {
                return Err(m);
            },
            None => {},
        }
        let ghost warnings = self@.warnings;
        let mut i: usize = 0;
        while i < self.warnings.len()
            invariant
                i <= self.warnings.len(),
                warnings == self@.warnings,
                capabilities_fault(self@.capabilities, 0) is None,
                forall|j: int| 0 <= j < i ==> !blank((#[trigger] warnings[j]).code),
            decreases self.warnings.len() - i,
        {
            assert(warnings[i as int].code == self.warnings@[i as int].code@);
            if is_blank(self.warnings[i].code.as_str()) {
                assert(blank(self@.warnings[i as int].code));
                return Err("probe warning code 不能为空".to_owned());
            }
            i = i + 1;
        }
        if !self.reachable {
            if self.vendor.is_some() || self.family.is_some() || self.model.is_some()
                || self.firmware.is_some() || self.model_confidence.is_some() {
                return Err("unreachable 报告不得携带设备身份".to_owned());
            }
            if !self.capabilities.is_empty() {
                return Err("unreachable 报告不得携带 capabilities".to_owned());
            }
            if self.warnings.is_empty() {
                return Err("unreachable 报告必须至少一个 warning 道明原因".to_owned());
            }
        }
        Ok(())
    }
}

/// The report on a device that was not reached makes sense, whatever the reason, as long as the
/// reason has a code.
pub proof fn unreachable_report_makes_sense(code: Seq<char>, message: Seq<char>)
    ensures
        report_fault(unreachable_report(code, message)) is None <==> !blank(code),
{
    let r = unreachable_report(code, message);
    assert(capabilities_fault(r.capabilities, 0) is None);
    assert(r.warnings[0].code == code);
}

// ---------------------------------------------------------------------------
// A report as JSON
// ---------------------------------------------------------------------------

/// The name of a capability state.
pub open spec fn capability_state_name(s: CapabilityState) -> Seq<char> {
    match s {
        CapabilityState::Available => "available"@,
        CapabilityState::AccessDenied => "access_denied"@,
        CapabilityState::NotPresent => "not_present"@,
        CapabilityState::Unknown => "unknown"@,
    }
}

/// The state with a name.
pub open spec fn capability_state_of(name: Seq<char>) -> Option<CapabilityState> {
    if name == "available"@ {
        Some(CapabilityState::Available)
    } else if name == "access_denied"@ {
        Some(CapabilityState::AccessDenied)
    } else if name == "not_present"@ {
        Some(CapabilityState::NotPresent)
    } else if name == "unknown"@ {
        Some(CapabilityState::Unknown)
    } else {
        None
    }
}

/// An entry that is left out where there is nothing to say.
pub open spec fn text_entry(name: Seq<char>, v: Option<Seq<char>>) -> Seq<(Seq<char>, JsonV)> {
    match v {
        Some(s) => seq![(name, JsonV::String(s))],
        None => Seq::empty(),
    }
}

/// A capability as JSON.
pub open spec fn capability_json(c: CapabilityV) -> JsonV {
    JsonV::Object(
        seq![
            ("id"@, JsonV::String(c.id)),
            ("state"@, JsonV::String(capability_state_name(c.state))),
        ] + text_entry("detail"@, c.detail),
    )
}

/// A warning as JSON.
pub open spec fn warning_json(w: WarningV) -> JsonV {
    JsonV::Object(
        seq![("code"@, JsonV::String(w.code)), ("message"@, JsonV::String(w.message))],
    )
}

/// A report as JSON.
pub open spec fn report_json(r: ReportV) -> JsonV {
    JsonV::Object(
        seq![("reachable"@, JsonV::Bool(r.reachable))] + text_entry("vendor"@, r.vendor)
            + text_entry("family"@, r.family) + text_entry("model"@, r.model) + text_entry(
            "firmware"@,
            r.firmware,
        ) + text_entry("model_confidence"@, r.model_confidence) + seq![
            (
                "capabilities"@,
                JsonV::Array(r.capabilities.map_values(|c: CapabilityV| capability_json(c))),
            ),
            ("warnings"@, JsonV::Array(r.warnings.map_values(|w: WarningV| warning_json(w)))),
        ],
    )
}

fn state_text(s: CapabilityState) -> (r: &'static str)
    ensures
        r@ == capability_state_name(s),
{
    match s {
        CapabilityState::Available => "available",
        CapabilityState::AccessDenied => "access_denied",
        CapabilityState::NotPresent => "not_present",
        CapabilityState::Unknown => "unknown",
    }
}

fn push_entry(o: &mut Vec<(String, Json)>, name: &str, v: Json)
    ensures
        entries_view(final(o)@) == entries_view(old(o)@) + seq![(name@, v@)],
{
    let ghost value = v@;
    o.push((name.to_owned(), v));
    assert(entries_view(o@) =~= entries_view(old(o)@) + seq![(name@, value)]);
}

fn push_text_entry(o: &mut Vec<(String, Json)>, name: &str, v: &Option<String>)
    ensures
        entries_view(final(o)@) == entries_view(old(o)@) + text_entry(name@, maybe_text(*v)),
{
    match v {
        Some(s) => push_entry(o, name, Json::String(s.clone())),
        None => {
            assert(entries_view(o@) =~= entries_view(o@) + Seq::<(Seq<char>, JsonV)>::empty());
        },
    }
}

impl CapabilityItem {
    fn to_json(&self) -> (r: Json)
        ensures
            r@ == capability_json(self@),
    {
        broadcast use lemma_json_view;

        let mut o: Vec<(String, Json)> = Vec::new();
        push_entry(&mut o, "id", Json::String(self.id.clone()));
        push_entry(&mut o, "state", Json::String(state_text(self.state).to_owned()));
        assert(entries_view(o@) =~= seq![
            ("id"@, JsonV::String(self.id@)),
            ("state"@, JsonV::String(capability_state_name(self.state))),
        ]);
        push_text_entry(&mut o, "detail", &self.detail);
        let r: Json = Json::Object(o);
        assert(json_view(r) == JsonV::Object(entries_view(o@)));
        r
    }
}

impl ProbeWarning {
    fn to_json(&self) -> (r: Json)
        ensures
            r@ == warning_json(self@),
    {
        broadcast use lemma_json_view;

        let mut o: Vec<(String, Json)> = Vec::new();
        push_entry(&mut o, "code", Json::String(self.code.clone()));
        push_entry(&mut o, "message", Json::String(self.message.clone()));
        assert(entries_view(o@) =~= seq![
            ("code"@, JsonV::String(self.code@)),
            ("message"@, JsonV::String(self.message@)),
        ]);
        let r: Json = Json::Object(o);
        assert(json_view(r) == JsonV::Object(entries_view(o@)));
        r
    }
}

impl ProbeReport {
    /// The report as JSON, the entries in the order of the fields.
    pub fn to_json(&self) -> (r: Json)
        ensures
            r@ == report_json(self@),
    {
        broadcast use lemma_json_view;

        let mut capabilities: Vec<Json> = Vec::new();
        let mut i: usize = 0;
        while i < self.capabilities.len()
            invariant
                i <= self.capabilities.len(),
                capabilities.len() == i,
                forall|j: int|
                    0 <= j < i ==> (#[trigger] capabilities@[j])@ == capability_json(
                        self.capabilities@[j]@,
                    ),
            decreases self.capabilities.len() - i,
        {
            capabilities.push(self.capabilities[i].to_json());
            i = i + 1;
        }
        let mut warnings: Vec<Json> = Vec::new();
        let mut k: usize = 0;
        while k < self.warnings.len()
            invariant
                k <= self.warnings.len(),
                warnings.len() == k,
                forall|j: int|
                    0 <= j < k ==> (#[trigger] warnings@[j])@ == warning_json(self.warnings@[j]@),
            decreases self.warnings.len() - k,
        {
            warnings.push(self.warnings[k].to_json());
            k = k + 1;
        }
        assert(items_view(capabilities@) =~= self@.capabilities.map_values(
            |c: CapabilityV| capability_json(c),
        ));
        assert(items_view(warnings@) =~= self@.warnings.map_values(|w: WarningV| warning_json(w)));
        let ghost c = items_view(capabilities@);
        let ghost w = items_view(warnings@);
        let capabilities: Json = Json::Array(capabilities);
        let warnings: Json = Json::Array(warnings);
        assert(json_view(capabilities) == JsonV::Array(c));
        assert(json_view(warnings) == JsonV::Array(w));
        let mut o: Vec<(String, Json)> = Vec::new();
        push_entry(&mut o, "reachable", Json::Bool(self.reachable));
        assert(entries_view(o@) =~= seq![("reachable"@, JsonV::Bool(self.reachable))]);
        push_text_entry(&mut o, "vendor", &self.vendor);
        push_text_entry(&mut o, "family", &self.family);
        push_text_entry(&mut o, "model", &self.model);
        push_text_entry(&mut o, "firmware", &self.firmware);
        push_text_entry(&mut o, "model_confidence", &self.model_confidence);
        let ghost head = entries_view(o@);
        push_entry(&mut o, "capabilities", capabilities);
        push_entry(&mut o, "warnings", warnings);
        assert(entries_view(o@) =~= head + seq![
            ("capabilities"@, JsonV::Array(c)),
            ("warnings"@, JsonV::Array(w)),
        ]);
        let r: Json = Json::Object(o);
        assert(json_view(r) == JsonV::Object(entries_view(o@)));
        r
    }

    /// The report as JSON text, unless it is too long.
    pub fn to_report_json(&self) -> (r: Result<String, String>)
        ensures
            match r {
                Ok(s) => s@ == json_text(report_json(self@)) && size_fault(s@) is None,
                Err(m) => size_fault(json_text(report_json(self@))) == Some(m@),
            },
    {
        let s: String = self.to_json().to_text();
        match check_report_size(s.as_str()) {
            Ok(()) => Ok(s),
            Err(m) => Err(m),
        }
    }
}

/// A report that is too long.
pub open spec fn size_fault(s: Seq<char>) -> Option<Seq<char>> {
    if byte_length(s) > PROBE_REPORT_MAX_BYTES {
        Some("ProbeReport 超限 "@ + decimal(byte_length(s)) + " > 65536 bytes"@)
    } else {
        None
    }
}

/// Whether the text of a report is short enough.
pub fn check_report_size(s: &str) -> (r: Result<(), String>)
    ensures
        match r {
            Ok(()) => size_fault(s@) is None,
            Err(m) => size_fault(s@) == Some(m@),
        },
{
    let n: usize = byte_len(s);
    if n > PROBE_REPORT_MAX_BYTES {
        let size: String = decimal_text(n as u64);
        return Err(crate::text::cat3("ProbeReport 超限 ", size.as_str(), " > 65536 bytes"));
    }
    Ok(())
}

// ---------------------------------------------------------------------------
// JSON as a report
// ---------------------------------------------------------------------------

/// The field at `i` of a value that says its fields by name, as an object, or one after the other,
/// as an array.
pub open spec fn field_in(v: JsonV, name: Seq<char>, i: int) -> Option<JsonV> {
    match v {
        JsonV::Object(o) => object_get(o, name),
        JsonV::Array(a) => if 0 <= i < a.len() {
            Some(a[i])
        } else {
            None
        },
        _ => None,
    }
}

/// Whether a value says no more than `n` fields one after the other.
pub open spec fn says_at_most(v: JsonV, n: int) -> bool {
    v matches JsonV::Array(a) ==> a.len() <= n
}

/// An optional text in a value: missing and null are the same, anything but a text is wrong.
pub open spec fn text_field(v: JsonV, name: Seq<char>, i: int) -> Option<Option<Seq<char>>> {
    match field_in(v, name, i) {
        None => Some(None),
        Some(JsonV::Null) => Some(None),
        Some(JsonV::String(s)) => Some(Some(s)),
        _ => None,
    }
}

/// The state that a value names: by a text, or by an object with nothing under that name.
pub open spec fn state_decoded(v: JsonV) -> Option<CapabilityState> {
    match v {
        JsonV::String(s) => capability_state_of(s),
        JsonV::Object(o) => if o.len() == 1 && o[0].1 is Null {
            capability_state_of(o[0].0)
        } else {
            None
        },
        _ => None,
    }
}

/// What a value says as a capability.
pub open spec fn capability_decoded(v: JsonV) -> Option<CapabilityV> {
    match (field_in(v, "id"@, 0), field_in(v, "state"@, 1), text_field(v, "detail"@, 2)) {
        (Some(JsonV::String(id)), Some(state), Some(detail)) => match state_decoded(state) {
            Some(state) if says_at_most(v, 3) => Some(CapabilityV { id, state, detail }),
            _ => None,
        },
        _ => None,
    }
}

/// What a value says as a warning.
pub open spec fn warning_decoded(v: JsonV) -> Option<WarningV> {
    match (field_in(v, "code"@, 0), field_in(v, "message"@, 1)) {
        (Some(JsonV::String(code)), Some(JsonV::String(message))) if says_at_most(v, 2) => Some(
            WarningV { code, message },
        ),
        _ => None,
    }
}

/// What an array says as capabilities.
pub open spec fn capabilities_decoded(a: Seq<JsonV>) -> Option<Seq<CapabilityV>>
    decreases a.len(),
{
    if a.len() == 0 {
        Some(Seq::empty())
    } else {
        match (capabilities_decoded(a.drop_last()), capability_decoded(a.last())) {
            (Some(front), Some(c)) => Some(front.push(c)),
            _ => None,
        }
    }
}

/// What an array says as warnings.
pub open spec fn warnings_decoded(a: Seq<JsonV>) -> Option<Seq<WarningV>>
    decreases a.len(),
{
    if a.len() == 0 {
        Some(Seq::empty())
    } else {
        match (warnings_decoded(a.drop_last()), warning_decoded(a.last())) {
            (Some(front), Some(w)) => Some(front.push(w)),
            _ => None,
        }
    }
}

/// The items of an array in a value: none where it is missing, wrong where it is no array.
pub open spec fn array_field(v: JsonV, name: Seq<char>, i: int) -> Option<Seq<JsonV>> {
    match field_in(v, name, i) {
        None => Some(Seq::empty()),
        Some(JsonV::Array(a)) => Some(a),
        _ => None,
    }
}

/// What a value says as a report. Entries that no field has the name of are passed over.
pub open spec fn report_decoded(v: JsonV) -> Option<ReportV> {
    match (
        field_in(v, "reachable"@, 0),
        text_field(v, "vendor"@, 1),
        text_field(v, "family"@, 2),
        text_field(v, "model"@, 3),
        text_field(v, "firmware"@, 4),
        text_field(v, "model_confidence"@, 5),
        array_field(v, "capabilities"@, 6),
        array_field(v, "warnings"@, 7),
    ) {
        (
            Some(JsonV::Bool(reachable)),
            Some(vendor),
            Some(family),
            Some(model),
            Some(firmware),
            Some(model_confidence),
            Some(c),
            Some(w),
        ) if says_at_most(v, 8) => match (capabilities_decoded(c), warnings_decoded(w)) {
            (Some(capabilities), Some(warnings)) => Some(
                ReportV {
                    reachable,
                    vendor,
                    family,
                    model,
                    firmware,
                    model_confidence,
                    capabilities,
                    warnings,
                },
            ),
            _ => None,
        },
        _ => None,
    }
}

fn find_field<'a>(v: &'a Json, name: &str, i: usize) -> (r: Option<&'a Json>)
    ensures
        match r {
            Some(x) => field_in(v@, name@, i as int) == Some(x@),
            None => field_in(v@, name@, i as int) is None,
        },
{
    broadcast use lemma_json_view;

    match v {
        Json::Object(o) => entry(o, name),
        Json::Array(a) => {
            assert(json_view(*v) == JsonV::Array(items_view(a@)));
            if i < a.len() {
                Some(&a[i])
            } else {
                None
            }
        },
        _ => None,
    }
}

fn fields_fit(v: &Json, n: usize) -> (r: bool)
    ensures
        r == says_at_most(v@, n as int),
{
    broadcast use lemma_json_view;

    match v {
        Json::Array(a) => {
            assert(json_view(*v) == JsonV::Array(items_view(a@)));
            a.len() <= n
        },
        _ => true,
    }
}

fn take_text(v: &Json, name: &str, i: usize) -> (r: Option<Option<String>>)
    ensures
        match r {
            Some(s) => text_field(v@, name@, i as int) == Some(maybe_text(s)),
            None => text_field(v@, name@, i as int) is None,
        },
{
    match find_field(v, name, i) {
        None => Some(None),
        Some(x) => match x {
            Json::Null => Some(None),
            Json::String(s) => Some(Some(s.clone())),
            _ => None,
        },
    }
}

fn state_from(name: &str) -> (r: Option<CapabilityState>)
    ensures
        r == capability_state_of(name@),
{
    if same_text(name, "available") {
        Some(CapabilityState::Available)
    } else if same_text(name, "access_denied") {
        Some(CapabilityState::AccessDenied)
    } else if same_text(name, "not_present") {
        Some(CapabilityState::NotPresent)
    } else if same_text(name, "unknown") {
        Some(CapabilityState::Unknown)
    } else {
        None
    }
}

fn take_state(v: &Json) -> (r: Option<CapabilityState>)
    ensures
        r == state_decoded(v@),
{
    broadcast use lemma_json_view;

    match v {
        Json::String(s) => state_from(s.as_str()),
        Json::Object(o) => {
            assert(json_view(*v) == JsonV::Object(entries_view(o@)));
            if o.len() == 1 {
                assert(entries_view(o@)[0] == (o@[0].0@, o@[0].1@));
                match &o[0].1 {
                    Json::Null => state_from(o[0].0.as_str()),
                    _ => None,
                }
            } else {
                None
            }
        },
        _ => None,
    }
}

impl CapabilityItem {
    fn from_json(v: &Json) -> (r: Option<CapabilityItem>)
        ensures
            match r {
                Some(c) => capability_decoded(v@) == Some(c@),
                None => capability_decoded(v@) is None,
            },
    {
        let id: String = match find_field(v, "id", 0) {
            Some(x) => match x {
                Json::String(s) => s.clone(),
                _ => {
                    return None;
                },
            },
            None => {
                return None;
            },
        };
        let state: CapabilityState = match find_field(v, "state", 1) {
            Some(x) => match take_state(x) {
                Some(state) => state,
                None => {
                    return None;
                },
            },
            None => {
                return None;
            },
        };
        if !fields_fit(v, 3) {
            return None;
        }
        match take_text(v, "detail", 2) {
            Some(detail) => Some(CapabilityItem { id, state, detail }),
            None => None,
        }
    }
}

impl ProbeWarning {
    fn from_json(v: &Json) -> (r: Option<ProbeWarning>)
        ensures
            match r {
                Some(w) => warning_decoded(v@) == Some(w@),
                None => warning_decoded(v@) is None,
            },
    {
        let code: String = match find_field(v, "code", 0) {
            Some(x) => match x {
                Json::String(s) => s.clone(),
                _ => {
                    return None;
                },
            },
            None => {
                return None;
            },
        };
        if !fields_fit(v, 2) {
            return None;
        }
        match find_field(v, "message", 1) {
            Some(x) => match x {
                Json::String(s) => Some(ProbeWarning { code, message: s.clone() }),
                _ => None,
            },
            None => None,
        }
    }
}

fn capabilities_from(v: &Json) -> (r: Option<Vec<CapabilityItem>>)
    ensures
        match r {
            Some(c) => array_field(v@, "capabilities"@, 6) is Some && capabilities_decoded(
                array_field(v@, "capabilities"@, 6)->0,
            ) == Some(c@.map_values(|c: CapabilityItem| c@)),
            None => array_field(v@, "capabilities"@, 6) is None || capabilities_decoded(
                array_field(v@, "capabilities"@, 6)->0,
            ) is None,
        },
{
    broadcast use lemma_json_view;

    let mut out: Vec<CapabilityItem> = Vec::new();
    match find_field(v, "capabilities", 6) {
        None => {
            assert(out@.map_values(|c: CapabilityItem| c@) =~= Seq::<CapabilityV>::empty());
            Some(out)
        },
        Some(x) => match x {
            Json::Array(a) => {
                let ghost all = items_view(a@);
                assert(json_view(*x) == JsonV::Array(all));
                assert(out@.map_values(|c: CapabilityItem| c@) =~= Seq::<CapabilityV>::empty());
                let mut i: usize = 0;
                while i < a.len()
                    invariant
                        i <= a.len(),
                        all == items_view(a@),
                        array_field(v@, "capabilities"@, 6) == Some(all),
                        capabilities_decoded(all.subrange(0, i as int)) == Some(
                            out@.map_values(|c: CapabilityItem| c@),
                        ),
                    decreases a.len() - i,
                {
                    let ghost part = all.subrange(0, i + 1);
                    assert(part.drop_last() =~= all.subrange(0, i as int));
                    assert(part.last() == a@[i as int]@);
                    match CapabilityItem::from_json(&a[i]) {
                        Some(c) => {
                            let ghost before = out@.map_values(|c: CapabilityItem| c@);
                            out.push(c);
                            assert(out@.map_values(|c: CapabilityItem| c@) =~= before.push(c@));
                        },
                        None => {
                            proof {
                                assert(capabilities_decoded(part) is None);
                                lemma_capabilities_prefix(all, i + 1);
                            }
                            return None;
                        },
                    }
                    i = i + 1;
                }
                assert(all.subrange(0, a@.len() as int) =~= all);
                Some(out)
            },
            _ => None,
        },
    }
}

proof fn lemma_capabilities_prefix(a: Seq<JsonV>, n: int)
    requires
        0 <= n <= a.len(),
        capabilities_decoded(a.subrange(0, n)) is None,
    ensures
        capabilities_decoded(a) is None,
    decreases a.len() - n,
{
    if n == a.len() {
        assert(a.subrange(0, n) =~= a);
    } else {
        let next = a.subrange(0, n + 1);
        assert(next.drop_last() =~= a.subrange(0, n));
        lemma_capabilities_prefix(a, n + 1);
    }
}

fn warnings_from(v: &Json) -> (r: Option<Vec<ProbeWarning>>)
    ensures
        match r {
            Some(w) => array_field(v@, "warnings"@, 7) is Some && warnings_decoded(
                array_field(v@, "warnings"@, 7)->0,
            ) == Some(w@.map_values(|w: ProbeWarning| w@)),
            None => array_field(v@, "warnings"@, 7) is None || warnings_decoded(
                array_field(v@, "warnings"@, 7)->0,
            ) is None,
        },
{
    broadcast use lemma_json_view;

    let mut out: Vec<ProbeWarning> = Vec::new();
    match find_field(v, "warnings", 7) {
        None => {
            assert(out@.map_values(|w: ProbeWarning| w@) =~= Seq::<WarningV>::empty());
            Some(out)
        },
        Some(x) => match x {
            Json::Array(a) => {
                let ghost all = items_view(a@);
                assert(json_view(*x) == JsonV::Array(all));
                assert(out@.map_values(|w: ProbeWarning| w@) =~= Seq::<WarningV>::empty());
                let mut i: usize = 0;
                while i < a.len()
                    invariant
                        i <= a.len(),
                        all == items_view(a@),
                        array_field(v@, "warnings"@, 7) == Some(all),
                        warnings_decoded(all.subrange(0, i as int)) == Some(
                            out@.map_values(|w: ProbeWarning| w@),
                        ),
                    decreases a.len() - i,
                {
                    let ghost part = all.subrange(0, i + 1);
                    assert(part.drop_last() =~= all.subrange(0, i as int));
                    assert(part.last() == a@[i as int]@);
                    match ProbeWarning::from_json(&a[i]) {
                        Some(w) => {
                            let ghost before = out@.map_values(|w: ProbeWarning| w@);
                            out.push(w);
                            assert(out@.map_values(|w: ProbeWarning| w@) =~= before.push(w@));
                        },
                        None => {
                            proof {
                                assert(warnings_decoded(part) is None);
                                lemma_warnings_prefix(all, i + 1);
                            }
                            return None;
                        },
                    }
                    i = i + 1;
                }
                assert(all.subrange(0, a@.len() as int) =~= all);
                Some(out)
            },
            _ => None,
        },
    }
}

proof fn lemma_warnings_prefix(a: Seq<JsonV>, n: int)
    requires
        0 <= n <= a.len(),
        warnings_decoded(a.subrange(0, n)) is None,
    ensures
        warnings_decoded(a) is None,
    decreases a.len() - n,
{
    if n == a.len() {
        assert(a.subrange(0, n) =~= a);
    } else {
        let next = a.subrange(0, n + 1);
        assert(next.drop_last() =~= a.subrange(0, n));
        lemma_warnings_prefix(a, n + 1);
    }
}

/// Whether the capability at a place in a text is said once: each field of it, and its state.
pub open spec fn capability_said_once(t: Seq<char>, i: int) -> bool {
    let ms = members_at(t, i);
    &&& stands(t, i, '{') ==> once(ms, "id"@) && once(ms, "state"@) && once(ms, "detail"@)
    &&& match field_place(t, i, "state"@, 1) {
        Some(p) => stands(t, p, '{') ==> members_at(t, p).len() == 1,
        None => true,
    }
}

/// Whether each field of the warning at a place in a text is said once.
pub open spec fn warning_said_once(t: Seq<char>, i: int) -> bool {
    let ms = members_at(t, i);
    stands(t, i, '{') ==> once(ms, "code"@) && once(ms, "message"@)
}

/// Whether each field of the report in a text is said once. Members that no field has the name of
/// may be said more often.
pub open spec fn report_said_once(t: Seq<char>) -> bool {
    let i = space_end(t, 0);
    let ms = members_at(t, i);
    &&& stands(t, i, '{') ==> {
        &&& once(ms, "reachable"@)
        &&& once(ms, "vendor"@)
        &&& once(ms, "family"@)
        &&& once(ms, "model"@)
        &&& once(ms, "firmware"@)
        &&& once(ms, "model_confidence"@)
        &&& once(ms, "capabilities"@)
        &&& once(ms, "warnings"@)
    }
    &&& match field_place(t, i, "capabilities"@, 6) {
        Some(p) => stands(t, p, '[') ==> forall|k: int|
            0 <= k < items_at(t, p).len() ==> capability_said_once(t, #[trigger] items_at(t, p)[k]),
        None => true,
    }
    &&& match field_place(t, i, "warnings"@, 7) {
        Some(p) => stands(t, p, '[') ==> forall|k: int|
            0 <= k < items_at(t, p).len() ==> warning_said_once(t, #[trigger] items_at(t, p)[k]),
        None => true,
    }
}

fn is_capability_once(t: &Vec<char>, i: usize) -> (r: bool)
    requires
        i <= t@.len(),
    ensures
        r == capability_said_once(t@, i as int),
{
    if is_at(t, i, '{') {
        let ms: Vec<Member> = members(t, i);
        if !is_once(&ms, "id") || !is_once(&ms, "state") || !is_once(&ms, "detail") {
            return false;
        }
    }
    match place_of_field(t, i, "state", 1) {
        Some(p) => if is_at(t, p, '{') {
            let ms: Vec<Member> = members(t, p);
            assert(members_view(ms@).len() == ms@.len());
            ms.len() == 1
        } else {
            true
        },
        None => true,
    }
}

fn is_warning_once(t: &Vec<char>, i: usize) -> (r: bool)
    requires
        i <= t@.len(),
    ensures
        r == warning_said_once(t@, i as int),
{
    if is_at(t, i, '{') {
        let ms: Vec<Member> = members(t, i);
        is_once(&ms, "code") && is_once(&ms, "message")
    } else {
        true
    }
}

fn are_capabilities_once(t: &Vec<char>, p: usize) -> (r: bool)
    requires
        p <= t@.len(),
    ensures
        r == (forall|k: int|
            0 <= k < items_at(t@, p as int).len() ==> capability_said_once(
                t@,
                #[trigger] items_at(t@, p as int)[k],
            )),
{
    let ps: Vec<usize> = items(t, p);
    let ghost places = items_at(t@, p as int);
    assert(places.len() == ps@.len());
    let mut k: usize = 0;
    while k < ps.len()
        invariant
            k <= ps@.len(),
            places == items_at(t@, p as int),
            places == ps@.map_values(|p: usize| p as int),
            forall|j: int| 0 <= j < ps@.len() ==> (#[trigger] ps@[j]) <= t@.len(),
            forall|j: int| 0 <= j < k ==> capability_said_once(t@, #[trigger] places[j]),
        decreases ps@.len() - k,
    {
        assert(places[k as int] == ps@[k as int] as int);
        if !is_capability_once(t, ps[k]) {
            return false;
        }
        k = k + 1;
    }
    assert(places.len() == ps@.len());
    true
}

fn are_warnings_once(t: &Vec<char>, p: usize) -> (r: bool)
    requires
        p <= t@.len(),
    ensures
        r == (forall|k: int|
            0 <= k < items_at(t@, p as int).len() ==> warning_said_once(
                t@,
                #[trigger] items_at(t@, p as int)[k],
            )),
{
    let ps: Vec<usize> = items(t, p);
    let ghost places = items_at(t@, p as int);
    assert(places.len() == ps@.len());
    let mut k: usize = 0;
    while k < ps.len()
        invariant
            k <= ps@.len(),
            places == items_at(t@, p as int),
            places == ps@.map_values(|p: usize| p as int),
            forall|j: int| 0 <= j < ps@.len() ==> (#[trigger] ps@[j]) <= t@.len(),
            forall|j: int| 0 <= j < k ==> warning_said_once(t@, #[trigger] places[j]),
        decreases ps@.len() - k,
    {
        assert(places[k as int] == ps@[k as int] as int);
        if !is_warning_once(t, ps[k]) {
            return false;
        }
        k = k + 1;
    }
    assert(places.len() == ps@.len());
    true
}

fn is_report_once(s: &str) -> (r: bool)
    ensures
        r == report_said_once(s@),
{
    let t: Vec<char> = chars_of(s);
    let i: usize = after_space(&t, 0);
    if is_at(&t, i, '{') {
        let ms: Vec<Member> = members(&t, i);
        if !is_once(&ms, "reachable") || !is_once(&ms, "vendor") || !is_once(&ms, "family")
            || !is_once(&ms, "model") || !is_once(&ms, "firmware") || !is_once(
            &ms,
            "model_confidence",
        ) || !is_once(&ms, "capabilities") || !is_once(&ms, "warnings") {
            return false;
        }
    }
    let capabilities: bool = match place_of_field(&t, i, "capabilities", 6) {
        Some(p) => if is_at(&t, p, '[') {
            are_capabilities_once(&t, p)
        } else {
            true
        },
        None => true,
    };
    let warnings: bool = match place_of_field(&t, i, "warnings", 7) {
        Some(p) => if is_at(&t, p, '[') {
            are_warnings_once(&t, p)
        } else {
            true
        },
        None => true,
    };
    assert(match field_place(t@, i as int, "capabilities"@, 6) {
        Some(p) => stands(t@, p, '[') ==> forall|k: int|
            0 <= k < items_at(t@, p).len() ==> capability_said_once(
                t@,
                #[trigger] items_at(t@, p)[k],
            ),
        None => true,
    } == capabilities);
    capabilities && warnings
}

/// What a text says as a report, or what is wrong with it: that it is too long, that it is no JSON,
/// that it is no report or says a field of one more than once, or that the report makes no sense.
pub open spec fn report_read(s: Seq<char>) -> Result<ReportV, Seq<char>> {
    match size_fault(s) {
        Some(m) => Err(m),
        None => match json_parsed(s) {
            Err(e) => Err("ProbeReport 解析失败: "@ + e),
            Ok(v) => match report_decoded(v) {
                Some(r) if report_said_once(s) => match report_fault(r) {
                    Some(m) => Err(m),
                    None => Ok(r),
                },
                _ => Err("ProbeReport 解析失败: not a report"@),
            },
        },
    }
}

impl ProbeReport {
    /// What a JSON value says as a report.
    pub fn from_json(v: &Json) -> (r: Option<ProbeReport>)
        ensures
            match r {
                Some(x) => report_decoded(v@) == Some(x@),
                None => report_decoded(v@) is None,
            },
    {
        if !fields_fit(v, 8) {
            return None;
        }
        let reachable: bool = match find_field(v, "reachable", 0) {
            Some(x) => match x {
                Json::Bool(b) => *b,
                _ => {
                    return None;
                },
            },
            None => {
                return None;
            },
        };
        let vendor: Option<String> = match take_text(v, "vendor", 1) {
            Some(s) => s,
            None => {
                return None;
            },
        };
        let family: Option<String> = match take_text(v, "family", 2) {
            Some(s) => s,
            None => {
                return None;
            },
        };
        let model: Option<String> = match take_text(v, "model", 3) {
            Some(s) => s,
            None => {
                return None;
            },
        };
        let firmware: Option<String> = match take_text(v, "firmware", 4) {
            Some(s) => s,
            None => {
                return None;
            },
        };
        let model_confidence: Option<String> = match take_text(v, "model_confidence", 5) {
            Some(s) => s,
            None => {
                return None;
            },
        };
        let capabilities: Vec<CapabilityItem> = match capabilities_from(v) {
            Some(c) => c,
            None => {
                return None;
            },
        };
        let warnings: Vec<ProbeWarning> = match warnings_from(v) {
            Some(w) => w,
            None => {
                return None;
            },
        };
        Some(
            ProbeReport {
                reachable,
                vendor,
                family,
                model,
                firmware,
                model_confidence,
                capabilities,
                warnings,
            },
        )
    }

    /// The report in a text; it has to make sense, and to say each field at most once. The text that
    /// a report was written as gives that report.
    pub fn from_report_json(s: &str) -> (r: Result<ProbeReport, String>)
        ensures
            match r {
                Ok(x) => report_read(s@) == Ok::<ReportV, Seq<char>>(x@) && report_fault(x@) is None
                    && byte_length(s@) <= PROBE_REPORT_MAX_BYTES,
                Err(m) => report_read(s@) == Err::<ReportV, Seq<char>>(m@),
            },
            forall|v: ReportV|
                report_fault(v) is None && size_fault(s@) is None && s@ == json_text(
                    #[trigger] report_json(v),
                ) ==> r is Ok && r->Ok_0@ == v,
    {
        proof {
            assert forall|v: ReportV| s@ == json_text(#[trigger] report_json(v)) implies whole(
                report_json(v),
                127,
            ) && report_decoded(ordered(report_json(v))) == Some(v) && report_said_once(s@) by {
                ordered_report_reads_back(v);
                written_reports_say_all_once(v);
            }
        }
        match check_report_size(s) {
            Ok(()) => {},
            Err(m) => {
                return Err(m);
            },
        }
        let v: Json = match Json::parse(s) {
            Ok(v) => v,
            Err(e) => {
                return Err(cat2("ProbeReport 解析失败: ", e.as_str()));
            },
        };
        let report: ProbeReport = match ProbeReport::from_json(&v) {
            Some(report) => report,
            None => {
                return Err("ProbeReport 解析失败: not a report".to_owned());
            },
        };
        if !is_report_once(s) {
            return Err("ProbeReport 解析失败: not a report".to_owned());
        }
        match report.validate() {
            Ok(()) => Ok(report),
            Err(m) => Err(m),
        }
    }
}

// ---------------------------------------------------------------------------
// What is written is read back
// ---------------------------------------------------------------------------

proof fn lemma_text_entry(name: Seq<char>, v: Option<Seq<char>>, key: Seq<char>)
    ensures
        object_get(text_entry(name, v), key) == (if key == name && v is Some {
            Some(JsonV::String(v->0))
        } else {
            None::<JsonV>
        }),
{
    reveal_with_fuel(object_get, 2);
    let e = text_entry(name, v);
    if v is Some {
        assert(e[0] == (name, JsonV::String(v->0)));
        assert(e.drop_first().len() == 0);
    }
}

proof fn lemma_pair(
    a: Seq<char>,
    x: JsonV,
    b: Seq<char>,
    y: JsonV,
    key: Seq<char>,
)
    ensures
        object_get(seq![(a, x), (b, y)], key) == (if key == a {
            Some(x)
        } else if key == b {
            Some(y)
        } else {
            None
        }),
{
    reveal_with_fuel(object_get, 3);
    let e = seq![(a, x), (b, y)];
    assert(e.drop_first() =~= seq![(b, y)]);
    assert(seq![(b, y)].drop_first().len() == 0);
}

proof fn lemma_state_reads_back(s: CapabilityState)
    ensures
        capability_state_of(capability_state_name(s)) == Some(s),
{
    reveal_strlit("available");
    reveal_strlit("access_denied");
    reveal_strlit("not_present");
    reveal_strlit("unknown");
    assert("access_denied"@[1] == 'c');
    assert("available"@.len() != "access_denied"@.len());
    assert("available"@.len() != "not_present"@.len());
    assert("available"@.len() != "unknown"@.len());
    assert("access_denied"@.len() != "not_present"@.len());
    assert("access_denied"@.len() != "unknown"@.len());
    assert("not_present"@.len() != "unknown"@.len());
}

proof fn lemma_capability_reads_back(c: CapabilityV)
    ensures
        capability_decoded(capability_json(c)) == Some(c),
{
    reveal_strlit("id");
    reveal_strlit("state");
    reveal_strlit("detail");
    assert("id"@.len() == 2 && "state"@.len() == 5 && "detail"@.len() == 6);
    let head = seq![
        ("id"@, JsonV::String(c.id)),
        ("state"@, JsonV::String(capability_state_name(c.state))),
    ];
    let tail = text_entry("detail"@, c.detail);
    object_get_of_both(head, tail, "id"@);
    object_get_of_both(head, tail, "state"@);
    object_get_of_both(head, tail, "detail"@);
    lemma_pair(
        "id"@,
        JsonV::String(c.id),
        "state"@,
        JsonV::String(capability_state_name(c.state)),
        "id"@,
    );
    lemma_pair(
        "id"@,
        JsonV::String(c.id),
        "state"@,
        JsonV::String(capability_state_name(c.state)),
        "state"@,
    );
    lemma_pair(
        "id"@,
        JsonV::String(c.id),
        "state"@,
        JsonV::String(capability_state_name(c.state)),
        "detail"@,
    );
    lemma_text_entry("detail"@, c.detail, "detail"@);
    lemma_state_reads_back(c.state);
}

proof fn lemma_warning_reads_back(w: WarningV)
    ensures
        warning_decoded(warning_json(w)) == Some(w),
{
    reveal_strlit("code");
    reveal_strlit("message");
    assert("code"@.len() != "message"@.len());
    lemma_pair("code"@, JsonV::String(w.code), "message"@, JsonV::String(w.message), "code"@);
    lemma_pair("code"@, JsonV::String(w.code), "message"@, JsonV::String(w.message), "message"@);
}

proof fn lemma_capabilities_read_back(c: Seq<CapabilityV>)
    ensures
        capabilities_decoded(c.map_values(|c: CapabilityV| capability_json(c))) == Some(c),
    decreases c.len(),
{
    let a = c.map_values(|c: CapabilityV| capability_json(c));
    if c.len() == 0 {
        assert(c =~= Seq::<CapabilityV>::empty());
    } else {
        lemma_capabilities_read_back(c.drop_last());
        lemma_capability_reads_back(c.last());
        assert(a.drop_last() =~= c.drop_last().map_values(|c: CapabilityV| capability_json(c)));
        assert(c.drop_last().push(c.last()) =~= c);
    }
}

proof fn lemma_warnings_read_back(w: Seq<WarningV>)
    ensures
        warnings_decoded(w.map_values(|w: WarningV| warning_json(w))) == Some(w),
    decreases w.len(),
{
    let a = w.map_values(|w: WarningV| warning_json(w));
    if w.len() == 0 {
        assert(w =~= Seq::<WarningV>::empty());
    } else {
        lemma_warnings_read_back(w.drop_last());
        lemma_warning_reads_back(w.last());
        assert(a.drop_last() =~= w.drop_last().map_values(|w: WarningV| warning_json(w)));
        assert(w.drop_last().push(w.last()) =~= w);
    }
}

proof fn lemma_report_entry(r: ReportV, key: Seq<char>)
    ensures
        report_json(r) is Object,
        json_get(report_json(r), key) == (if key == "reachable"@ {
            Some(JsonV::Bool(r.reachable))
        } else if key == "vendor"@ && r.vendor is Some {
            Some(JsonV::String(r.vendor->0))
        } else if key == "family"@ && r.family is Some {
            Some(JsonV::String(r.family->0))
        } else if key == "model"@ && r.model is Some {
            Some(JsonV::String(r.model->0))
        } else if key == "firmware"@ && r.firmware is Some {
            Some(JsonV::String(r.firmware->0))
        } else if key == "model_confidence"@ && r.model_confidence is Some {
            Some(JsonV::String(r.model_confidence->0))
        } else if key == "capabilities"@ {
            Some(JsonV::Array(r.capabilities.map_values(|c: CapabilityV| capability_json(c))))
        } else if key == "warnings"@ {
            Some(JsonV::Array(r.warnings.map_values(|w: WarningV| warning_json(w))))
        } else {
            None
        }),
{
    reveal_with_fuel(object_get, 2);
    let first = seq![("reachable"@, JsonV::Bool(r.reachable))];
    let vendor = text_entry("vendor"@, r.vendor);
    let family = text_entry("family"@, r.family);
    let model = text_entry("model"@, r.model);
    let firmware = text_entry("firmware"@, r.firmware);
    let confidence = text_entry("model_confidence"@, r.model_confidence);
    let c = JsonV::Array(r.capabilities.map_values(|c: CapabilityV| capability_json(c)));
    let w = JsonV::Array(r.warnings.map_values(|w: WarningV| warning_json(w)));
    let last = seq![("capabilities"@, c), ("warnings"@, w)];
    object_get_of_both(first + vendor + family + model + firmware + confidence, last, key);
    object_get_of_both(first + vendor + family + model + firmware, confidence, key);
    object_get_of_both(first + vendor + family + model, firmware, key);
    object_get_of_both(first + vendor + family, model, key);
    object_get_of_both(first + vendor, family, key);
    object_get_of_both(first, vendor, key);
    lemma_text_entry("vendor"@, r.vendor, key);
    lemma_text_entry("family"@, r.family, key);
    lemma_text_entry("model"@, r.model, key);
    lemma_text_entry("firmware"@, r.firmware, key);
    lemma_text_entry("model_confidence"@, r.model_confidence, key);
    lemma_pair("capabilities"@, c, "warnings"@, w, key);
    assert(first[0] == ("reachable"@, JsonV::Bool(r.reachable)));
    assert(first.drop_first().len() == 0);
}

proof fn lemma_names_differ()
    ensures
        "reachable"@.len() == 9,
        "vendor"@.len() == 6,
        "family"@.len() == 6,
        "model"@.len() == 5,
        "firmware"@.len() == 8,
        "model_confidence"@.len() == 16,
        "capabilities"@.len() == 12,
        "warnings"@.len() == 8,
        "vendor"@ != "family"@,
        "firmware"@ != "warnings"@,
{
    reveal_strlit("reachable");
    reveal_strlit("vendor");
    reveal_strlit("family");
    reveal_strlit("model");
    reveal_strlit("firmware");
    reveal_strlit("model_confidence");
    reveal_strlit("capabilities");
    reveal_strlit("warnings");
    assert("vendor"@[0] == 'v');
    assert("family"@[0] == 'f');
    assert("firmware"@[0] == 'f');
    assert("warnings"@[0] == 'w');
}

/// The JSON of a report is read as that report.
pub proof fn report_reads_back(r: ReportV)
    ensures
        report_decoded(report_json(r)) == Some(r),
{
    lemma_names_differ();
    lemma_report_entry(r, "reachable"@);
    lemma_report_entry(r, "vendor"@);
    lemma_report_entry(r, "family"@);
    lemma_report_entry(r, "model"@);
    lemma_report_entry(r, "firmware"@);
    lemma_report_entry(r, "model_confidence"@);
    lemma_report_entry(r, "capabilities"@);
    lemma_report_entry(r, "warnings"@);
    lemma_capabilities_read_back(r.capabilities);
    lemma_warnings_read_back(r.warnings);
}

proof fn lemma_one_more(a: Seq<(Seq<char>, JsonV)>, name: Seq<char>, x: JsonV, depth: nat)
    ensures
        forall|key: Seq<char>| #[trigger]
            object_get(a + seq![(name, x)], key) == (match object_get(a, key) {
                Some(v) => Some(v),
                None => if key == name {
                    Some(x)
                } else {
                    None
                },
            }),
        entry_keys(a).no_duplicates() && object_get(a, name) is None ==> entry_keys(
            a + seq![(name, x)],
        ).no_duplicates(),
        whole_entries(a, depth) && whole(x, depth) ==> whole_entries(a + seq![(name, x)], depth),
{
    let one = seq![(name, x)];
    let all = a + one;
    assert forall|key: Seq<char>| #[trigger]
        object_get(all, key) == (match object_get(a, key) {
            Some(v) => Some(v),
            None => if key == name {
                Some(x)
            } else {
                None
            },
        }) by {
        object_get_of_both(a, one, key);
        reveal_with_fuel(object_get, 2);
        assert(one.drop_first().len() == 0);
    }
    if entry_keys(a).no_duplicates() && object_get(a, name) is None {
        let keys = entry_keys(all);
        assert forall|i: int, j: int|
            0 <= i < keys.len() && 0 <= j < keys.len() && i != j implies keys[i] != keys[j] by {
            if i < a.len() {
                lemma_key_is_found(a, i);
                assert(entry_keys(a)[i] == keys[i]);
            }
            if j < a.len() {
                lemma_key_is_found(a, j);
                assert(entry_keys(a)[j] == keys[j]);
            }
        }
    }
    assert(all.drop_last() =~= a);
}

proof fn lemma_key_is_found(a: Seq<(Seq<char>, JsonV)>, i: int)
    requires
        0 <= i < a.len(),
    ensures
        object_get(a, a[i].0) is Some,
    decreases i,
{
    if a[0].0 != a[i].0 {
        assert(a.drop_first()[i - 1] == a[i]);
        lemma_key_is_found(a.drop_first(), i - 1);
    }
}

proof fn lemma_one_more_text(
    a: Seq<(Seq<char>, JsonV)>,
    name: Seq<char>,
    v: Option<Seq<char>>,
    depth: nat,
)
    ensures
        forall|key: Seq<char>| #[trigger]
            object_get(a + text_entry(name, v), key) == (match object_get(a, key) {
                Some(x) => Some(x),
                None => if key == name && v is Some {
                    Some(JsonV::String(v->0))
                } else {
                    None
                },
            }),
        entry_keys(a).no_duplicates() && object_get(a, name) is None ==> entry_keys(
            a + text_entry(name, v),
        ).no_duplicates(),
        whole_entries(a, depth) ==> whole_entries(a + text_entry(name, v), depth),
{
    match v {
        Some(t) => {
            lemma_one_more(a, name, JsonV::String(t), depth);
        },
        None => {
            assert(a + text_entry(name, v) =~= a);
        },
    }
}

proof fn lemma_pair_is_whole(a: Seq<char>, x: JsonV, b: Seq<char>, y: JsonV, depth: nat)
    requires
        a != b,
        whole(x, depth),
        whole(y, depth),
    ensures
        entry_keys(seq![(a, x), (b, y)]).no_duplicates(),
        whole_entries(seq![(a, x), (b, y)], depth),
{
    let none = Seq::<(Seq<char>, JsonV)>::empty();
    lemma_one_more(none, a, x, depth);
    lemma_one_more(none + seq![(a, x)], b, y, depth);
    assert(none + seq![(a, x)] + seq![(b, y)] =~= seq![(a, x), (b, y)]);
}

proof fn lemma_ordered_capability(c: CapabilityV, depth: nat)
    requires
        depth >= 1,
    ensures
        whole(capability_json(c), depth),
        capability_decoded(ordered(capability_json(c))) == Some(c),
{
    reveal_strlit("id");
    reveal_strlit("state");
    reveal_strlit("detail");
    assert("id"@.len() == 2 && "state"@.len() == 5 && "detail"@.len() == 6);
    let x = JsonV::String(c.id);
    let y = JsonV::String(capability_state_name(c.state));
    let head = seq![("id"@, x), ("state"@, y)];
    let d = (depth - 1) as nat;
    lemma_pair_is_whole("id"@, x, "state"@, y, d);
    lemma_pair("id"@, x, "state"@, y, "detail"@);
    lemma_one_more_text(head, "detail"@, c.detail, d);
    let o = head + text_entry("detail"@, c.detail);
    other_keys_are_written_as_objects(o);
    ordered_entries_hold_the_same(o, "id"@);
    ordered_entries_hold_the_same(o, "state"@);
    ordered_entries_hold_the_same(o, "detail"@);
    lemma_pair("id"@, x, "state"@, y, "id"@);
    lemma_pair("id"@, x, "state"@, y, "state"@);
    lemma_capability_reads_back(c);
}

proof fn lemma_ordered_warning(w: WarningV, depth: nat)
    requires
        depth >= 1,
    ensures
        whole(warning_json(w), depth),
        warning_decoded(ordered(warning_json(w))) == Some(w),
{
    reveal_strlit("code");
    reveal_strlit("message");
    assert("code"@.len() != "message"@.len());
    let x = JsonV::String(w.code);
    let y = JsonV::String(w.message);
    let o = seq![("code"@, x), ("message"@, y)];
    assert("code"@.len() == 4);
    other_keys_are_written_as_objects(o);
    lemma_pair_is_whole("code"@, x, "message"@, y, (depth - 1) as nat);
    lemma_pair("code"@, x, "message"@, y, "code"@);
    lemma_pair("code"@, x, "message"@, y, "message"@);
    ordered_entries_hold_the_same(o, "code"@);
    ordered_entries_hold_the_same(o, "message"@);
}

proof fn lemma_ordered_capabilities(c: Seq<CapabilityV>, depth: nat)
    requires
        depth >= 1,
    ensures
        whole_items(c.map_values(|c: CapabilityV| capability_json(c)), depth),
        capabilities_decoded(
            ordered_items(c.map_values(|c: CapabilityV| capability_json(c))),
        ) == Some(c),
    decreases c.len(),
{
    let a = c.map_values(|c: CapabilityV| capability_json(c));
    if c.len() == 0 {
        assert(c =~= Seq::<CapabilityV>::empty());
    } else {
        lemma_ordered_capabilities(c.drop_last(), depth);
        lemma_ordered_capability(c.last(), depth);
        assert(a.drop_last() =~= c.drop_last().map_values(|c: CapabilityV| capability_json(c)));
        assert(ordered_items(a).drop_last() =~= ordered_items(a.drop_last()));
        assert(c.drop_last().push(c.last()) =~= c);
    }
}

proof fn lemma_ordered_warnings(w: Seq<WarningV>, depth: nat)
    requires
        depth >= 1,
    ensures
        whole_items(w.map_values(|w: WarningV| warning_json(w)), depth),
        warnings_decoded(ordered_items(w.map_values(|w: WarningV| warning_json(w)))) == Some(w),
    decreases w.len(),
{
    let a = w.map_values(|w: WarningV| warning_json(w));
    if w.len() == 0 {
        assert(w =~= Seq::<WarningV>::empty());
    } else {
        lemma_ordered_warnings(w.drop_last(), depth);
        lemma_ordered_warning(w.last(), depth);
        assert(a.drop_last() =~= w.drop_last().map_values(|w: WarningV| warning_json(w)));
        assert(ordered_items(a).drop_last() =~= ordered_items(a.drop_last()));
        assert(w.drop_last().push(w.last()) =~= w);
    }
}

proof fn lemma_report_entries(r: ReportV)
    ensures
        entry_keys(report_json(r)->Object_0).no_duplicates(),
        whole_entries(report_json(r)->Object_0, 126),
{
    lemma_names_differ();
    let none = Seq::<(Seq<char>, JsonV)>::empty();
    let first = seq![("reachable"@, JsonV::Bool(r.reachable))];
    let vendor = text_entry("vendor"@, r.vendor);
    let family = text_entry("family"@, r.family);
    let model = text_entry("model"@, r.model);
    let firmware = text_entry("firmware"@, r.firmware);
    let confidence = text_entry("model_confidence"@, r.model_confidence);
    let c = JsonV::Array(r.capabilities.map_values(|c: CapabilityV| capability_json(c)));
    let w = JsonV::Array(r.warnings.map_values(|w: WarningV| warning_json(w)));
    lemma_ordered_capabilities(r.capabilities, 125);
    lemma_ordered_warnings(r.warnings, 125);
    lemma_one_more(none, "reachable"@, JsonV::Bool(r.reachable), 126);
    assert(none + first =~= first);
    lemma_one_more_text(first, "vendor"@, r.vendor, 126);
    lemma_one_more_text(first + vendor, "family"@, r.family, 126);
    lemma_one_more_text(first + vendor + family, "model"@, r.model, 126);
    lemma_one_more_text(first + vendor + family + model, "firmware"@, r.firmware, 126);
    lemma_one_more_text(
        first + vendor + family + model + firmware,
        "model_confidence"@,
        r.model_confidence,
        126,
    );
    let texts = first + vendor + family + model + firmware + confidence;
    lemma_one_more(texts, "capabilities"@, c, 126);
    lemma_one_more(texts + seq![("capabilities"@, c)], "warnings"@, w, 126);
    assert(texts + seq![("capabilities"@, c)] + seq![("warnings"@, w)] =~= texts + seq![
        ("capabilities"@, c),
        ("warnings"@, w),
    ]);
}

/// A report that was written as JSON is read as that report, in whatever order its entries stand.
pub proof fn ordered_report_reads_back(r: ReportV)
    ensures
        whole(report_json(r), 127),
        report_decoded(ordered(report_json(r))) == Some(r),
{
    lemma_names_differ();
    lemma_report_entries(r);
    let o = report_json(r)->Object_0;
    assert(o[0].0 == "reachable"@);
    other_keys_are_written_as_objects(o);
    ordered_entries_hold_the_same(o, "reachable"@);
    ordered_entries_hold_the_same(o, "vendor"@);
    ordered_entries_hold_the_same(o, "family"@);
    ordered_entries_hold_the_same(o, "model"@);
    ordered_entries_hold_the_same(o, "firmware"@);
    ordered_entries_hold_the_same(o, "model_confidence"@);
    ordered_entries_hold_the_same(o, "capabilities"@);
    ordered_entries_hold_the_same(o, "warnings"@);
    lemma_report_entry(r, "reachable"@);
    lemma_report_entry(r, "vendor"@);
    lemma_report_entry(r, "family"@);
    lemma_report_entry(r, "model"@);
    lemma_report_entry(r, "firmware"@);
    lemma_report_entry(r, "model_confidence"@);
    lemma_report_entry(r, "capabilities"@);
    lemma_report_entry(r, "warnings"@);
    lemma_ordered_capabilities(r.capabilities, 125);
    lemma_ordered_warnings(r.warnings, 125);
}

// ---------------------------------------------------------------------------
// What is written says each field once
// ---------------------------------------------------------------------------

/// Whether entries have plain names and hold no number.
pub open spec fn simple_entries(o: Seq<(Seq<char>, JsonV)>) -> bool {
    forall|j: int|
        0 <= j < o.len() ==> plainly_written((#[trigger] o[j]).0) && worded(o[j].1)
}

proof fn lemma_simple_both(a: Seq<(Seq<char>, JsonV)>, b: Seq<(Seq<char>, JsonV)>)
    requires
        simple_entries(a),
        simple_entries(b),
    ensures
        simple_entries(a + b),
{
    let o = a + b;
    assert forall|j: int| 0 <= j < o.len() implies plainly_written((#[trigger] o[j]).0) && worded(
        o[j].1,
    ) by {
        if j < a.len() {
            assert(o[j] == a[j]);
        } else {
            assert(o[j] == b[j - a.len()]);
        }
    }
}

proof fn lemma_simple_worded(o: Seq<(Seq<char>, JsonV)>)
    requires
        simple_entries(o),
    ensures
        worded_entries(o),
    decreases o.len(),
{
    if o.len() > 0 {
        let front = o.drop_last();
        assert forall|j: int| 0 <= j < front.len() implies plainly_written(
            (#[trigger] front[j]).0,
        ) && worded(front[j].1) by {
            assert(front[j] == o[j]);
        }
        lemma_simple_worded(front);
        assert(o.last() == o[o.len() - 1]);
    }
}

proof fn lemma_worded_all(a: Seq<JsonV>)
    requires
        forall|j: int| 0 <= j < a.len() ==> worded(#[trigger] a[j]),
    ensures
        worded_items(a),
    decreases a.len(),
{
    if a.len() > 0 {
        let front = a.drop_last();
        assert forall|j: int| 0 <= j < front.len() implies worded(#[trigger] front[j]) by {
            assert(front[j] == a[j]);
        }
        lemma_worded_all(front);
        assert(a.last() == a[a.len() - 1]);
    }
}

proof fn lemma_plain_names()
    ensures
        plainly_written("reachable"@),
        plainly_written("vendor"@),
        plainly_written("family"@),
        plainly_written("model"@),
        plainly_written("firmware"@),
        plainly_written("model_confidence"@),
        plainly_written("capabilities"@),
        plainly_written("warnings"@),
        plainly_written("id"@),
        plainly_written("state"@),
        plainly_written("detail"@),
        plainly_written("code"@),
        plainly_written("message"@),
{
    reveal_strlit("reachable");
    reveal_strlit("vendor");
    reveal_strlit("family");
    reveal_strlit("model");
    reveal_strlit("firmware");
    reveal_strlit("model_confidence");
    reveal_strlit("capabilities");
    reveal_strlit("warnings");
    reveal_strlit("id");
    reveal_strlit("state");
    reveal_strlit("detail");
    reveal_strlit("code");
    reveal_strlit("message");
}

proof fn lemma_simple_text(name: Seq<char>, v: Option<Seq<char>>, key: Seq<char>)
    requires
        plainly_written(name),
    ensures
        simple_entries(text_entry(name, v)),
        times(text_entry(name, v), key) <= (if name == key {
            1nat
        } else {
            0nat
        }),
{
    reveal_with_fuel(times, 2);
    let e = text_entry(name, v);
    if v is Some {
        assert(e.drop_last().len() == 0);
        assert(e.last() == (name, JsonV::String(v->0)));
    }
}

proof fn lemma_simple_pair(a: Seq<char>, x: JsonV, b: Seq<char>, y: JsonV, key: Seq<char>)
    requires
        plainly_written(a) && plainly_written(b),
        worded(x) && worded(y),
        a != b,
    ensures
        simple_entries(seq![(a, x), (b, y)]),
        times(seq![(a, x), (b, y)], key) == (if a == key || b == key {
            1nat
        } else {
            0nat
        }),
{
    reveal_with_fuel(times, 3);
    let e = seq![(a, x), (b, y)];
    assert(e.drop_last() =~= seq![(a, x)]);
    assert(seq![(a, x)].drop_last().len() == 0);
}

proof fn lemma_capability_once(c: CapabilityV, t: Seq<char>, i: int)
    requires
        text_at(t, i, json_text(capability_json(c))),
    ensures
        capability_said_once(t, i),
{
    let name = JsonV::String(capability_state_name(c.state));
    let head = seq![("id"@, JsonV::String(c.id)), ("state"@, name)];
    let tail = text_entry("detail"@, c.detail);
    let o = head + tail;
    let ms = members_at(t, i);
    reveal_strlit("id");
    reveal_strlit("state");
    reveal_strlit("detail");
    lemma_plain_names();
    assert("id"@.len() == 2 && "state"@.len() == 5 && "detail"@.len() == 6);
    lemma_simple_pair("id"@, JsonV::String(c.id), "state"@, name, "id"@);
    lemma_simple_pair("id"@, JsonV::String(c.id), "state"@, name, "state"@);
    lemma_simple_pair("id"@, JsonV::String(c.id), "state"@, name, "detail"@);
    lemma_simple_text("detail"@, c.detail, "id"@);
    lemma_simple_text("detail"@, c.detail, "state"@);
    lemma_simple_text("detail"@, c.detail, "detail"@);
    lemma_simple_both(head, tail);
    lemma_simple_worded(o);
    written_members_are_found(o, t, i);
    times_in_both(head, tail, "id"@);
    times_in_both(head, tail, "state"@);
    times_in_both(head, tail, "detail"@);
    written_members_have_their_names(ms, t, o, "id"@);
    written_members_have_their_names(ms, t, o, "state"@);
    written_members_have_their_names(ms, t, o, "detail"@);
    written_members_are_named(ms, t, o, 0, "state"@);
    assert(o.skip(0) =~= o);
    object_get_of_both(head, tail, "state"@);
    lemma_pair("id"@, JsonV::String(c.id), "state"@, name, "state"@);
    let p = field_place(t, i, "state"@, 1)->0;
    assert(text_at(t, p, json_text(name)));
    written_strings_begin_with_a_quote(t, p, capability_state_name(c.state));
}

proof fn lemma_warning_once(w: WarningV, t: Seq<char>, i: int)
    requires
        text_at(t, i, json_text(warning_json(w))),
    ensures
        warning_said_once(t, i),
{
    let code = JsonV::String(w.code);
    let message = JsonV::String(w.message);
    let o = seq![("code"@, code), ("message"@, message)];
    let ms = members_at(t, i);
    reveal_strlit("code");
    reveal_strlit("message");
    lemma_plain_names();
    assert("code"@.len() == 4 && "message"@.len() == 7);
    lemma_simple_pair("code"@, code, "message"@, message, "code"@);
    lemma_simple_pair("code"@, code, "message"@, message, "message"@);
    lemma_simple_worded(o);
    written_members_are_found(o, t, i);
    written_members_have_their_names(ms, t, o, "code"@);
    written_members_have_their_names(ms, t, o, "message"@);
}

proof fn lemma_capability_worded(c: CapabilityV)
    ensures
        worded(capability_json(c)),
{
    let name = JsonV::String(capability_state_name(c.state));
    let head = seq![("id"@, JsonV::String(c.id)), ("state"@, name)];
    reveal_strlit("id");
    reveal_strlit("state");
    assert("id"@.len() == 2 && "state"@.len() == 5);
    lemma_plain_names();
    lemma_simple_pair("id"@, JsonV::String(c.id), "state"@, name, "id"@);
    lemma_simple_text("detail"@, c.detail, "id"@);
    lemma_simple_both(head, text_entry("detail"@, c.detail));
    lemma_simple_worded(head + text_entry("detail"@, c.detail));
}

proof fn lemma_warning_worded(w: WarningV)
    ensures
        worded(warning_json(w)),
{
    let code = JsonV::String(w.code);
    let message = JsonV::String(w.message);
    reveal_strlit("code");
    reveal_strlit("message");
    assert("code"@.len() == 4 && "message"@.len() == 7);
    lemma_plain_names();
    lemma_simple_pair("code"@, code, "message"@, message, "code"@);
    lemma_simple_worded(seq![("code"@, code), ("message"@, message)]);
}

proof fn lemma_report_names(r: ReportV, key: Seq<char>)
    ensures
        simple_entries(report_json(r)->Object_0),
        once(report_json(r)->Object_0, key),
{
    lemma_names_differ();
    lemma_plain_names();
    reveal_with_fuel(times, 2);
    let first = seq![("reachable"@, JsonV::Bool(r.reachable))];
    let vendor = text_entry("vendor"@, r.vendor);
    let family = text_entry("family"@, r.family);
    let model = text_entry("model"@, r.model);
    let firmware = text_entry("firmware"@, r.firmware);
    let confidence = text_entry("model_confidence"@, r.model_confidence);
    let cs = r.capabilities.map_values(|c: CapabilityV| capability_json(c));
    let ws = r.warnings.map_values(|w: WarningV| warning_json(w));
    assert forall|j: int| 0 <= j < cs.len() implies worded(#[trigger] cs[j]) by {
        lemma_capability_worded(r.capabilities[j]);
    }
    assert forall|j: int| 0 <= j < ws.len() implies worded(#[trigger] ws[j]) by {
        lemma_warning_worded(r.warnings[j]);
    }
    lemma_worded_all(cs);
    lemma_worded_all(ws);
    let last = seq![("capabilities"@, JsonV::Array(cs)), ("warnings"@, JsonV::Array(ws))];
    assert(first.drop_last().len() == 0);
    assert(first.last().0 == "reachable"@);
    assert(simple_entries(first));
    lemma_simple_text("vendor"@, r.vendor, key);
    lemma_simple_text("family"@, r.family, key);
    lemma_simple_text("model"@, r.model, key);
    lemma_simple_text("firmware"@, r.firmware, key);
    lemma_simple_text("model_confidence"@, r.model_confidence, key);
    lemma_simple_pair(
        "capabilities"@,
        JsonV::Array(cs),
        "warnings"@,
        JsonV::Array(ws),
        key,
    );
    lemma_simple_both(first, vendor);
    lemma_simple_both(first + vendor, family);
    lemma_simple_both(first + vendor + family, model);
    lemma_simple_both(first + vendor + family + model, firmware);
    lemma_simple_both(first + vendor + family + model + firmware, confidence);
    lemma_simple_both(first + vendor + family + model + firmware + confidence, last);
    times_in_both(first, vendor, key);
    times_in_both(first + vendor, family, key);
    times_in_both(first + vendor + family, model, key);
    times_in_both(first + vendor + family + model, firmware, key);
    times_in_both(first + vendor + family + model + firmware, confidence, key);
    times_in_both(first + vendor + family + model + firmware + confidence, last, key);
}

/// The text that a report is written as says each field once.
pub proof fn written_reports_say_all_once(r: ReportV)
    ensures
        report_said_once(json_text(report_json(r))),
{
    let t = json_text(report_json(r));
    let o = report_json(r)->Object_0;
    let ms = members_at(t, 0);
    let cs = r.capabilities.map_values(|c: CapabilityV| capability_json(c));
    let ws = r.warnings.map_values(|w: WarningV| warning_json(w));
    assert(t.subrange(0, t.len() as int) =~= t);
    assert(report_json(r) == JsonV::Object(o));
    lemma_report_names(r, "reachable"@);
    lemma_report_names(r, "vendor"@);
    lemma_report_names(r, "family"@);
    lemma_report_names(r, "model"@);
    lemma_report_names(r, "firmware"@);
    lemma_report_names(r, "model_confidence"@);
    lemma_report_names(r, "capabilities"@);
    lemma_report_names(r, "warnings"@);
    lemma_simple_worded(o);
    written_members_are_found(o, t, 0);
    assert(space_end(t, 0) == 0);
    written_members_have_their_names(ms, t, o, "reachable"@);
    written_members_have_their_names(ms, t, o, "vendor"@);
    written_members_have_their_names(ms, t, o, "family"@);
    written_members_have_their_names(ms, t, o, "model"@);
    written_members_have_their_names(ms, t, o, "firmware"@);
    written_members_have_their_names(ms, t, o, "model_confidence"@);
    written_members_have_their_names(ms, t, o, "capabilities"@);
    written_members_have_their_names(ms, t, o, "warnings"@);
    assert(o.skip(0) =~= o);
    written_members_are_named(ms, t, o, 0, "capabilities"@);
    written_members_are_named(ms, t, o, 0, "warnings"@);
    lemma_names_differ();
    lemma_report_entry(r, "capabilities"@);
    lemma_report_entry(r, "warnings"@);
    let p = field_place(t, 0, "capabilities"@, 6)->0;
    let q = field_place(t, 0, "warnings"@, 7)->0;
    written_items_are_found(cs, t, p);
    written_items_are_found(ws, t, q);
    assert forall|k: int| 0 <= k < items_at(t, p).len() implies capability_said_once(
        t,
        #[trigger] items_at(t, p)[k],
    ) by {
        assert(cs[0 + k] == capability_json(r.capabilities[k]));
        lemma_capability_once(r.capabilities[k], t, items_at(t, p)[k]);
    }
    assert forall|k: int| 0 <= k < items_at(t, q).len() implies warning_said_once(
        t,
        #[trigger] items_at(t, q)[k],
    ) by {
        assert(ws[0 + k] == warning_json(r.warnings[k]));
        lemma_warning_once(r.warnings[k], t, items_at(t, q)[k]);
    }
}

proof fn lemma_capabilities(c: Seq<CapabilityV>, i: int)
    requires
        0 <= i <= c.len(),
    ensures
        capabilities_fault(c, i) is None <==> forall|k: int|
            i <= k < c.len() ==> #[trigger] capability_is_new(c, k),
    decreases c.len() - i,
{
    if i < c.len() {
        lemma_capabilities(c, i + 1);
        assert(capability_is_new(c, i) <==> !blank(c[i].id) && !(exists|j: int|
            0 <= j < i && (#[trigger] c[j]).id == c[i].id));
        if capabilities_fault(c, i) is None {
            assert forall|k: int| i <= k < c.len() implies #[trigger] capability_is_new(c, k) by {}
        }
        if forall|k: int| i <= k < c.len() ==> #[trigger] capability_is_new(c, k) {
            assert(capability_is_new(c, i));
        }
    }
}

/// Whether a capability has an id of its own among those before it.
pub open spec fn capability_is_new(c: Seq<CapabilityV>, k: int) -> bool {
    !blank(c[k].id) && forall|j: int| 0 <= j < k ==> (#[trigger] c[j]).id != c[k].id
}

/// A report makes sense exactly where its capabilities have ids of their own, its warnings have
/// codes, and, if the device was not reached, it says nothing of the device and why.
pub proof fn reports_make_sense_when_their_parts_do(r: ReportV)
    ensures
        report_fault(r) is None <==> ((forall|k: int|
            0 <= k < r.capabilities.len() ==> #[trigger] capability_is_new(r.capabilities, k)) && (
        forall|k: int| 0 <= k < r.warnings.len() ==> !blank((#[trigger] r.warnings[k]).code)) && (
        !r.reachable ==> r.vendor is None && r.family is None && r.model is None && r.firmware
            is None && r.model_confidence is None && r.capabilities.len() == 0 && r.warnings.len()
            > 0)),
{
    lemma_capabilities(r.capabilities, 0);
    let caps = forall|k: int|
        0 <= k < r.capabilities.len() ==> #[trigger] capability_is_new(r.capabilities, k);
    let codes = forall|k: int|
        0 <= k < r.warnings.len() ==> !blank((#[trigger] r.warnings[k]).code);
    assert(caps <==> capabilities_fault(r.capabilities, 0) is None);
    assert(codes <==> !(exists|i: int|
        0 <= i < r.warnings.len() && blank((#[trigger] r.warnings[i]).code)));
}

/// The report on a device that was not reached says so, and why, and nothing else.
pub proof fn unreachable_reports_say_why(code: Seq<char>, message: Seq<char>)
    ensures
        !unreachable_report(code, message).reachable,
        unreachable_report(code, message).vendor is None,
        unreachable_report(code, message).family is None,
        unreachable_report(code, message).model is None,
        unreachable_report(code, message).firmware is None,
        unreachable_report(code, message).model_confidence is None,
        unreachable_report(code, message).capabilities.len() == 0,
        unreachable_report(code, message).warnings.len() == 1,
        unreachable_report(code, message).warnings[0].code == code,
        unreachable_report(code, message).warnings[0].message == message,
{
}

/// The states of a capability have their names, and each name means its state.
pub proof fn capability_states_have_their_names(name: Seq<char>)
    ensures
        capability_state_name(CapabilityState::Available) == "available"@,
        capability_state_name(CapabilityState::AccessDenied) == "access_denied"@,
        capability_state_name(CapabilityState::NotPresent) == "not_present"@,
        capability_state_name(CapabilityState::Unknown) == "unknown"@,
        capability_state_of(name) == Some(CapabilityState::Available) <==> name == "available"@,
        capability_state_of(name) == Some(CapabilityState::AccessDenied) <==> name
            == "access_denied"@,
        capability_state_of(name) == Some(CapabilityState::NotPresent) <==> name
            == "not_present"@,
        capability_state_of(name) == Some(CapabilityState::Unknown) <==> name == "unknown"@,
{
    reveal_strlit("available");
    reveal_strlit("access_denied");
    reveal_strlit("not_present");
    reveal_strlit("unknown");
    assert("available"@.len() == 9);
    assert("access_denied"@.len() == 13);
    assert("not_present"@.len() == 11);
    assert("unknown"@.len() == 7);
}

/// A report is written field by field, each under its name; what is not known is left out.
pub proof fn reports_are_written_field_by_field(r: ReportV)
    ensures
        report_json(r) matches JsonV::Object(o) && {
            &&& object_get(o, "reachable"@) == Some(JsonV::Bool(r.reachable))
            &&& o.len() >= 3
            &&& o[0] == ("reachable"@, JsonV::Bool(r.reachable))
            &&& o[o.len() - 2].0 == "capabilities"@
            &&& o[o.len() - 2].1 matches JsonV::Array(a) && a.len() == r.capabilities.len()
            &&& o[o.len() - 1].0 == "warnings"@
            &&& o[o.len() - 1].1 matches JsonV::Array(w) && w.len() == r.warnings.len()
        },
        report_json(r)->Object_0.len() == 3 + (if r.vendor is Some {
            1int
        } else {
            0
        }) + (if r.family is Some {
            1int
        } else {
            0
        }) + (if r.model is Some {
            1int
        } else {
            0
        }) + (if r.firmware is Some {
            1int
        } else {
            0
        }) + (if r.model_confidence is Some {
            1int
        } else {
            0
        }),
{
    let o = report_json(r)->Object_0;
    assert(o[0] == ("reachable"@, JsonV::Bool(r.reachable)));
}

/// A text is read as a report exactly where it is not too long, is JSON that says each field once,
/// and is a report that makes sense.
pub proof fn texts_are_read_as_reports_when_they_make_sense(s: Seq<char>)
    ensures
        report_read(s) is Ok <==> (byte_length(s) <= 65536 && (json_parsed(s) matches Ok(v)
            && report_decoded(v) is Some && report_fault(report_decoded(v)->0) is None)
            && report_said_once(s)),
        report_read(s) matches Ok(r) ==> Some(r) == report_decoded(json_parsed(s)->Ok_0),
{
}

/// What is known of a device is written under its own name, in this order.
pub proof fn what_is_known_is_written_under_its_name(r: ReportV)
    ensures
        ({
            let o = report_json(r)->Object_0;
            let a: int = 1;
            let b: int = if r.vendor is Some {
                a + 1
            } else {
                a
            };
            let c: int = if r.family is Some {
                b + 1
            } else {
                b
            };
            let d: int = if r.model is Some {
                c + 1
            } else {
                c
            };
            let e: int = if r.firmware is Some {
                d + 1
            } else {
                d
            };
            &&& r.vendor is Some ==> o[a] == ("vendor"@, JsonV::String(r.vendor->0))
            &&& r.family is Some ==> o[b] == ("family"@, JsonV::String(r.family->0))
            &&& r.model is Some ==> o[c] == ("model"@, JsonV::String(r.model->0))
            &&& r.firmware is Some ==> o[d] == ("firmware"@, JsonV::String(r.firmware->0))
            &&& r.model_confidence is Some ==> o[e] == (
                "model_confidence"@,
                JsonV::String(r.model_confidence->0),
            )
        }),
{
}

/// A capability and a warning are written field by field, each under its name.
pub proof fn capabilities_and_warnings_are_written_field_by_field(c: CapabilityV, w: WarningV)
    ensures
        capability_json(c) matches JsonV::Object(o) && o.len() >= 2 && o[0] == (
            "id"@,
            JsonV::String(c.id),
        ) && o[1] == ("state"@, JsonV::String(capability_state_name(c.state))) && (c.detail is None
            ==> o.len() == 2) && (c.detail is Some ==> o.len() == 3 && o[2] == (
            "detail"@,
            JsonV::String(c.detail->0),
        )),
        warning_json(w) matches JsonV::Object(o) && o.len() == 2 && o[0] == (
            "code"@,
            JsonV::String(w.code),
        ) && o[1] == ("message"@, JsonV::String(w.message)),
{
}

/// A report is read field by field, each under its name; what is missing or null is not known.
pub proof fn reports_are_read_field_by_field(o: Seq<(Seq<char>, JsonV)>, s: Seq<char>)
    ensures
        report_decoded(JsonV::Object(o)) matches Some(r) ==> {
            &&& object_get(o, "reachable"@) == Some(JsonV::Bool(r.reachable))
            &&& r.vendor == Some(s) <==> object_get(o, "vendor"@) == Some(JsonV::String(s))
            &&& r.family == Some(s) <==> object_get(o, "family"@) == Some(JsonV::String(s))
            &&& r.model == Some(s) <==> object_get(o, "model"@) == Some(JsonV::String(s))
            &&& r.firmware == Some(s) <==> object_get(o, "firmware"@) == Some(JsonV::String(s))
            &&& r.model_confidence == Some(s) <==> object_get(o, "model_confidence"@) == Some(
                JsonV::String(s),
            )
            &&& r.vendor is None <==> object_get(o, "vendor"@) is None || object_get(o, "vendor"@)
                == Some(JsonV::Null)
            &&& object_get(o, "capabilities"@) is None ==> r.capabilities.len() == 0
            &&& object_get(o, "warnings"@) is None ==> r.warnings.len() == 0
        },
        !(object_get(o, "reachable"@) matches Some(v) && v is Bool) ==> report_decoded(
            JsonV::Object(o),
        ) is None,
{
    if object_get(o, "capabilities"@) is None {
        assert(capabilities_decoded(Seq::empty()) matches Some(c) && c.len() == 0);
    }
    if object_get(o, "warnings"@) is None {
        assert(warnings_decoded(Seq::empty()) matches Some(w) && w.len() == 0);
    }
}

/// A text that says a field of a report more than once is no report, whatever else it says.
pub proof fn fields_are_said_at_most_once(t: Seq<char>)
    requires
        stands(t, space_end(t, 0), '{'),
        report_said_once(t),
    ensures
        ({
            let ms = members_at(t, space_end(t, 0));
            &&& times(ms, "reachable"@) <= 1
            &&& times(ms, "vendor"@) <= 1
            &&& times(ms, "family"@) <= 1
            &&& times(ms, "model"@) <= 1
            &&& times(ms, "firmware"@) <= 1
            &&& times(ms, "model_confidence"@) <= 1
            &&& times(ms, "capabilities"@) <= 1
            &&& times(ms, "warnings"@) <= 1
        }),
{
}

/// A text that says no field of a report, of its capabilities and of its warnings twice is taken.
pub proof fn texts_that_say_all_once_are_taken(t: Seq<char>)
    requires
        ({
            let i = space_end(t, 0);
            let ms = members_at(t, i);
            &&& stands(t, i, '{')
            &&& times(ms, "reachable"@) <= 1
            &&& times(ms, "vendor"@) <= 1
            &&& times(ms, "family"@) <= 1
            &&& times(ms, "model"@) <= 1
            &&& times(ms, "firmware"@) <= 1
            &&& times(ms, "model_confidence"@) <= 1
            &&& times(ms, "capabilities"@) == 0
            &&& times(ms, "warnings"@) == 0
        }),
    ensures
        report_said_once(t),
{
    let ms = members_at(t, space_end(t, 0));
    lemma_unnamed(ms, "capabilities"@);
    lemma_unnamed(ms, "warnings"@);
}

proof fn lemma_unnamed(ms: Seq<(Seq<char>, int)>, name: Seq<char>)
    requires
        times(ms, name) == 0,
    ensures
        crate::outline::named(ms, name) is None,
    decreases ms.len(),
{
    if ms.len() > 0 {
        lemma_times_first(ms, name);
        lemma_unnamed(ms.drop_first(), name);
    }
}

proof fn lemma_times_first(ms: Seq<(Seq<char>, int)>, name: Seq<char>)
    requires
        ms.len() > 0,
    ensures
        times(ms, name) == times(ms.drop_first(), name) + (if ms[0].0 == name {
            1nat
        } else {
            0nat
        }),
    decreases ms.len(),
{
    if ms.len() > 1 {
        lemma_times_first(ms.drop_last(), name);
        assert(ms.drop_last().drop_first() =~= ms.drop_first().drop_last());
        assert(ms.drop_first().last() == ms.last());
        assert(ms.drop_last()[0] == ms[0]);
    } else {
        assert(ms.drop_last() =~= Seq::<(Seq<char>, int)>::empty());
        assert(ms.drop_first() =~= Seq::<(Seq<char>, int)>::empty());
    }
}

/// A capability and a warning are read field by field; a capability needs an id and a state, a
/// warning a code and a message.
pub proof fn capabilities_and_warnings_are_read_field_by_field(o: Seq<(Seq<char>, JsonV)>)
    ensures
        capability_decoded(JsonV::Object(o)) matches Some(c) ==> {
            &&& object_get(o, "id"@) == Some(JsonV::String(c.id))
            &&& object_get(o, "state"@) is Some
            &&& state_decoded(object_get(o, "state"@)->0) == Some(c.state)
            &&& c.detail is None <==> object_get(o, "detail"@) is None || object_get(o, "detail"@)
                == Some(JsonV::Null)
            &&& c.detail is Some ==> object_get(o, "detail"@) == Some(JsonV::String(c.detail->0))
        },
        warning_decoded(JsonV::Object(o)) is Some <==> ((object_get(o, "code"@) matches Some(a) && a
            is String) && (object_get(o, "message"@) matches Some(b) && b is String)),
        warning_decoded(JsonV::Object(o)) matches Some(w) ==> object_get(o, "code"@) == Some(
            JsonV::String(w.code),
        ) && object_get(o, "message"@) == Some(JsonV::String(w.message)),
{
}

/// The capabilities and the warnings of a list are read one by one, in their order; one that cannot
/// be read makes the list unreadable.
pub proof fn lists_are_read_item_by_item(a: Seq<JsonV>, v: JsonV)
    ensures
        capabilities_decoded(Seq::empty()) matches Some(c) && c.len() == 0,
        warnings_decoded(Seq::empty()) matches Some(w) && w.len() == 0,
        capabilities_decoded(a.push(v)) is Some <==> capabilities_decoded(a) is Some
            && capability_decoded(v) is Some,
        capabilities_decoded(a.push(v)) matches Some(c) ==> c == capabilities_decoded(a)->0.push(
            capability_decoded(v)->0,
        ),
        warnings_decoded(a.push(v)) is Some <==> warnings_decoded(a) is Some && warning_decoded(v)
            is Some,
        warnings_decoded(a.push(v)) matches Some(w) ==> w == warnings_decoded(a)->0.push(
            warning_decoded(v)->0,
        ),
{
    assert(a.push(v).drop_last() =~= a);
}

/// How long a report may be.
pub proof fn reports_keep_to_this_limit()
    ensures
        PROBE_REPORT_MAX_BYTES == 65536,
{
}

} // verus!
