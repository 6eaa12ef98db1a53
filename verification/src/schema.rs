//! Schemas: what fields a configuration has, whether a schema makes sense, and whether a value
//! fits it.
use vstd::prelude::*;

use crate::float::{
    double_of_uint, double_shown, float_less, less, nearest_keep_their_side, shown, Double,
};
use crate::json::{
    entries_view, entry, json_text, json_view, lemma_json_view, number_bits, number_int, object_get,
    Json, JsonNumber, JsonV,
};
use crate::pattern::{fault_of, found_in, pattern_fault, pattern_found};
use crate::text::{
    blank, cat2, cat3, cat4, cat5, cat6, cat8, cat9, debug_list, debug_list_text, find_repeat,
    first_repeat, is_blank, same_text, texts_contain, texts_hold, texts_view,
};

verus! {

// ---------------------------------------------------------------------------
// Types
// ---------------------------------------------------------------------------

/// A text for people, in a default language and maybe in Chinese.
#[derive(Debug, Clone, PartialEq)]
pub struct LocalizedText {
    pub default: String,
    pub zh_cn: Option<String>,
}

/// What kind of value a field takes.
#[derive(Debug, Clone, Copy, PartialEq, Eq, Structural)]
pub enum FieldType {
    String,
    Integer,
    Number,
    Boolean,
    Enum,
    Secret,
    Duration,
    Host,
    Port,
    Url,
    File,
    CertificateRef,
}

/// How a condition compares a field with its value.
#[derive(Debug, Clone, Copy, PartialEq, Eq, Structural)]
pub enum ConditionOp {
    Eq,
    Neq,
    In,
}

/// When a field is shown: by the value of another field of the same schema.
#[derive(Debug, Clone, PartialEq)]
pub struct Condition {
    pub field: String,
    pub op: ConditionOp,
    pub value: Json,
}

/// How a field is shown.
#[derive(Debug, Clone, PartialEq)]
pub struct UiHints {
    pub group: Option<String>,
    pub order: Option<i32>,
    pub placeholder: Option<String>,
    pub advanced: Option<bool>,
    pub visible_if: Option<Condition>,
}

/// What a field's value has to keep to beyond its type.
#[derive(Debug, Clone, PartialEq)]
pub struct FieldValidation {
    pub min: Option<Double>,
    pub max: Option<Double>,
    pub pattern: Option<String>,
    pub enum_options: Option<Vec<String>>,
}

/// One field of a schema.
#[derive(Debug, Clone, PartialEq)]
pub struct FieldDescriptor {
    pub key: String,
    pub label: String,
    pub description: Option<String>,
    pub field_type: FieldType,
    pub required: bool,
    pub default: Option<Json>,
    pub validation: FieldValidation,
    pub ui: UiHints,
}

/// The fields of a configuration.
#[derive(Debug, Clone, PartialEq)]
pub struct SchemaDescriptor {
    pub fields: Vec<FieldDescriptor>,
}

/// One thing that is wrong with a value, and where.
#[derive(Debug, Clone, PartialEq)]
pub struct ValidationIssue {
    pub path: String,
    pub code: String,
    pub message: String,
}

/// What a [`ValidationIssue`] says.
pub struct IssueV {
    pub path: Seq<char>,
    pub code: Seq<char>,
    pub message: Seq<char>,
}

impl View for ValidationIssue {
    type V = IssueV;

    open spec fn view(&self) -> IssueV {
        IssueV { path: self.path@, code: self.code@, message: self.message@ }
    }
}

/// What a list of issues says.
pub open spec fn issues_view(issues: Seq<ValidationIssue>) -> Seq<IssueV> {
    issues.map_values(|i: ValidationIssue| i@)
}

// ---------------------------------------------------------------------------
// Types of values
// ---------------------------------------------------------------------------

/// The name of a field type.
pub open spec fn field_type_name(t: FieldType) -> Seq<char> {
    match t {
        FieldType::String => "String"@,
        FieldType::Integer => "Integer"@,
        FieldType::Number => "Number"@,
        FieldType::Boolean => "Boolean"@,
        FieldType::Enum => "Enum"@,
        FieldType::Secret => "Secret"@,
        FieldType::Duration => "Duration"@,
        FieldType::Host => "Host"@,
        FieldType::Port => "Port"@,
        FieldType::Url => "Url"@,
        FieldType::File => "File"@,
        FieldType::CertificateRef => "CertificateRef"@,
    }
}

/// The field types whose values are numbers that a range can bound.
pub open spec fn numeric(t: FieldType) -> bool {
    t is Integer || t is Number || t is Port || t is Duration
}

/// The field types whose values are texts that a pattern can bound.
pub open spec fn string_like(t: FieldType) -> bool {
    t is String || t is Host || t is Url || t is File || t is CertificateRef || t is Secret
}

/// Whether a value is of a field type, whatever its range.
pub open spec fn type_matches(t: FieldType, v: JsonV) -> bool {
    match t {
        FieldType::Integer | FieldType::Port => v matches JsonV::Number(n) && number_int(n) is Some,
        FieldType::Number | FieldType::Duration => v is Number,
        FieldType::Boolean => v is Bool,
        _ => v is String,
    }
}

/// The range that a field type has of itself.
pub struct Intrinsic {
    pub lo: u64,
    pub lo_text: Seq<char>,
    pub hi: u64,
    pub hi_text: Seq<char>,
    pub name: Seq<char>,
}

/// Ports go from 1 to 65535; durations are not negative.
pub open spec fn intrinsic(t: FieldType) -> Option<Intrinsic> {
    match t {
        FieldType::Port => Some(
            Intrinsic {
                lo: 0x3ff0_0000_0000_0000,
                lo_text: "1"@,
                hi: 0x40ef_ffe0_0000_0000,
                hi_text: "65535"@,
                name: "Port"@,
            },
        ),
        FieldType::Duration => Some(
            Intrinsic {
                lo: 0,
                lo_text: "0"@,
                hi: 0x7ff0_0000_0000_0000,
                hi_text: "inf"@,
                name: "Duration"@,
            },
        ),
        _ => None,
    }
}

struct IntrinsicRange {
    lo: u64,
    lo_text: &'static str,
    hi: u64,
    hi_text: &'static str,
    name: &'static str,
}

fn intrinsic_range(t: FieldType) -> (r: Option<IntrinsicRange>)
    ensures
        match r {
            Some(x) => intrinsic(t) == Some(
                (Intrinsic {
                    lo: x.lo,
                    lo_text: x.lo_text@,
                    hi: x.hi,
                    hi_text: x.hi_text@,
                    name: x.name@,
                }),
            ),
            None => intrinsic(t) is None,
        },
{
    match t {
        FieldType::Port => Some(
            IntrinsicRange {
                lo: 0x3ff0_0000_0000_0000,
                lo_text: "1",
                hi: 0x40ef_ffe0_0000_0000,
                hi_text: "65535",
                name: "Port",
            },
        ),
        FieldType::Duration => Some(
            IntrinsicRange {
                lo: 0,
                lo_text: "0",
                hi: 0x7ff0_0000_0000_0000,
                hi_text: "inf",
                name: "Duration",
            },
        ),
        _ => None,
    }
}

impl FieldType {
    pub fn name(self) -> (r: &'static str)
        ensures
            r@ == field_type_name(self),
    {
        match self {
            FieldType::String => "String",
            FieldType::Integer => "Integer",
            FieldType::Number => "Number",
            FieldType::Boolean => "Boolean",
            FieldType::Enum => "Enum",
            FieldType::Secret => "Secret",
            FieldType::Duration => "Duration",
            FieldType::Host => "Host",
            FieldType::Port => "Port",
            FieldType::Url => "Url",
            FieldType::File => "File",
            FieldType::CertificateRef => "CertificateRef",
        }
    }

    fn is_numeric(self) -> (r: bool)
        ensures
            r == numeric(self),
    {
        match self {
            FieldType::Integer | FieldType::Number | FieldType::Port | FieldType::Duration => true,
            _ => false,
        }
    }

    fn is_string_like(self) -> (r: bool)
        ensures
            r == string_like(self),
    {
        match self {
            FieldType::String | FieldType::Host | FieldType::Url | FieldType::File
            | FieldType::CertificateRef | FieldType::Secret => true,
            _ => false,
        }
    }
}

pub(crate) fn field_type_matches(t: FieldType, v: &Json) -> (r: bool)
    ensures
        r == type_matches(t, v@),
{
    match t {
        FieldType::Integer | FieldType::Port => match v {
            Json::Number(n) => n.as_i64().is_some(),
            _ => false,
        },
        FieldType::Number | FieldType::Duration => match v {
            Json::Number(_) => true,
            _ => false,
        },
        FieldType::Boolean => match v {
            Json::Bool(_) => true,
            _ => false,
        },
        _ => match v {
            Json::String(_) => true,
            _ => false,
        },
    }
}

// ---------------------------------------------------------------------------
// Whether a value fits
// ---------------------------------------------------------------------------

/// A list of at most one issue.
pub open spec fn at_most_one(i: Option<IssueV>) -> Seq<IssueV> {
    match i {
        Some(x) => seq![x],
        None => Seq::empty(),
    }
}

/// A text that is none of the options that a field offers.
pub open spec fn enum_issue(f: FieldDescriptor, path: Seq<char>, v: JsonV) -> Option<IssueV> {
    match (f.validation.enum_options, v) {
        (Some(options), JsonV::String(s)) => if texts_hold(options@, s) {
            None
        } else {
            Some(
                IssueV {
                    path,
                    code: "INVALID_ENUM"@,
                    message: "field `"@ + f.key@ + "` value `"@ + s + "` not in "@ + debug_list(
                        texts_view(options@),
                    ),
                },
            )
        },
        _ => None,
    }
}

/// A number outside the range that its field type has of itself.
pub open spec fn intrinsic_issue(f: FieldDescriptor, path: Seq<char>, n: u64) -> Option<
    IssueV,
> {
    match intrinsic(f.field_type) {
        Some(x) => if float_less(n, x.lo) || float_less(x.hi, n) {
            Some(
                IssueV {
                    path,
                    code: "OUT_OF_RANGE"@,
                    message: "field `"@ + f.key@ + "` "@ + double_shown(n) + " 不在"@ + x.name
                        + "内禀范围 ["@ + x.lo_text + ", "@ + (x.hi_text + "]"@),
                },
            )
        } else {
            None
        },
        None => None,
    }
}

/// A number below the field's least value.
pub open spec fn min_issue(f: FieldDescriptor, path: Seq<char>, n: u64) -> Option<IssueV> {
    match f.validation.min {
        Some(min) => if float_less(n, min.bits) {
            Some(
                IssueV {
                    path,
                    code: "OUT_OF_RANGE"@,
                    message: "field `"@ + f.key@ + "` "@ + double_shown(n) + " < min "@ + double_shown(min.bits),
                },
            )
        } else {
            None
        },
        None => None,
    }
}

/// A number above the field's greatest value.
pub open spec fn max_issue(f: FieldDescriptor, path: Seq<char>, n: u64) -> Option<IssueV> {
    match f.validation.max {
        Some(max) => if float_less(max.bits, n) {
            Some(
                IssueV {
                    path,
                    code: "OUT_OF_RANGE"@,
                    message: "field `"@ + f.key@ + "` "@ + double_shown(n) + " > max "@ + double_shown(max.bits),
                },
            )
        } else {
            None
        },
        None => None,
    }
}

/// A text in which the field's pattern is not found, or a pattern that is none.
pub open spec fn pattern_issue(f: FieldDescriptor, path: Seq<char>, v: JsonV) -> Option<IssueV> {
    match (f.validation.pattern, v) {
        (Some(pattern), JsonV::String(s)) => match pattern_fault(pattern@) {
            Some(e) => Some(
                IssueV {
                    path,
                    code: "INVALID_PATTERN"@,
                    message: "field `"@ + f.key@ + "` pattern 非法: "@ + e,
                },
            ),
            None => if pattern_found(pattern@, s) {
                None
            } else {
                Some(
                    IssueV {
                        path,
                        code: "PATTERN_MISMATCH"@,
                        message: "field `"@ + f.key@ + "` value `"@ + s + "` 不匹配 "@ + pattern@,
                    },
                )
            },
        },
        _ => None,
    }
}

/// What is wrong with a number in a field.
pub open spec fn number_issues(f: FieldDescriptor, path: Seq<char>, v: JsonV) -> Seq<IssueV> {
    match v {
        JsonV::Number(n) => at_most_one(intrinsic_issue(f, path, number_bits(n))) + at_most_one(
            min_issue(f, path, number_bits(n)),
        ) + at_most_one(max_issue(f, path, number_bits(n))),
        _ => Seq::empty(),
    }
}

/// What is wrong with the value of a field.
pub open spec fn value_issues(f: FieldDescriptor, path: Seq<char>, v: JsonV) -> Seq<IssueV> {
    if !type_matches(f.field_type, v) {
        seq![
            IssueV {
                path,
                code: "INVALID_TYPE"@,
                message: "field `"@ + f.key@ + "` expected "@ + field_type_name(f.field_type)
                    + ", got "@ + json_text(v),
            },
        ]
    } else {
        at_most_one(enum_issue(f, path, v)) + number_issues(f, path, v) + at_most_one(
            pattern_issue(f, path, v),
        )
    }
}

/// What is wrong with an object as far as one field goes.
pub open spec fn field_issues(
    f: FieldDescriptor,
    root: Seq<char>,
    o: Seq<(Seq<char>, JsonV)>,
) -> Seq<IssueV> {
    let path = root + "."@ + f.key@;
    match object_get(o, f.key@) {
        Some(v) => value_issues(f, path, v),
        None => if f.required {
            seq![
                IssueV {
                    path,
                    code: "REQUIRED"@,
                    message: "field `"@ + f.key@ + "` is required"@,
                },
            ]
        } else {
            Seq::empty()
        },
    }
}

/// What is wrong with an object as far as some fields go, field by field.
pub open spec fn fields_issues(
    fields: Seq<FieldDescriptor>,
    root: Seq<char>,
    o: Seq<(Seq<char>, JsonV)>,
) -> Seq<IssueV>
    decreases fields.len(),
{
    if fields.len() == 0 {
        Seq::empty()
    } else {
        fields_issues(fields.drop_last(), root, o) + field_issues(fields.last(), root, o)
    }
}

/// Whether some field has a key.
pub open spec fn has_field(fields: Seq<FieldDescriptor>, key: Seq<char>) -> bool {
    exists|i: int| 0 <= i < fields.len() && (#[trigger] fields[i]).key@ == key
}

/// The entries of an object that no field has the key of.
pub open spec fn unknown_issues(
    fields: Seq<FieldDescriptor>,
    root: Seq<char>,
    o: Seq<(Seq<char>, JsonV)>,
) -> Seq<IssueV>
    decreases o.len(),
{
    if o.len() == 0 {
        Seq::empty()
    } else {
        let before = unknown_issues(fields, root, o.drop_last());
        let key = o.last().0;
        if has_field(fields, key) {
            before
        } else {
            before.push(
                IssueV {
                    path: root + "."@ + key,
                    code: "UNKNOWN_FIELD"@,
                    message: "unknown field `"@ + key + "`"@,
                },
            )
        }
    }
}

/// Everything that is wrong with a value under a schema.
pub open spec fn instance_issues(
    fields: Seq<FieldDescriptor>,
    root: Seq<char>,
    v: JsonV,
) -> Seq<IssueV> {
    match v {
        JsonV::Object(o) => fields_issues(fields, root, o) + unknown_issues(fields, root, o),
        _ => seq![
            IssueV {
                path: root,
                code: "INVALID_TYPE"@,
                message: root + " must be an object"@,
            },
        ],
    }
}

pub(crate) fn issue(path: &str, code: &str, message: String) -> (r: ValidationIssue)
    ensures
        r@ == (IssueV { path: path@, code: code@, message: message@ }),
{
    ValidationIssue { path: path.to_owned(), code: code.to_owned(), message }
}

/// An issue, where there is one, at the end of a list.
pub(crate) fn add_issue(issues: &mut Vec<ValidationIssue>, i: Option<ValidationIssue>)
    ensures
        match i {
            Some(x) => issues_view(final(issues)@) == issues_view(old(issues)@) + at_most_one(
                Some(x@),
            ),
            None => issues_view(final(issues)@) == issues_view(old(issues)@) + at_most_one(None),
        },
{
    match i {
        Some(x) => {
            issues.push(x);
            assert(issues_view(issues@) =~= issues_view(old(issues)@) + at_most_one(Some(x@)));
        },
        None => {
            assert(issues_view(issues@) =~= issues_view(old(issues)@) + at_most_one(None));
        },
    }
}

/// What one optional issue says.
pub open spec fn maybe_issue(i: Option<ValidationIssue>) -> Option<IssueV> {
    match i {
        Some(x) => Some(x@),
        None => None,
    }
}

impl FieldDescriptor {
    pub(crate) fn check_enum(&self, path: &str, v: &Json) -> (r: Option<ValidationIssue>)
        ensures
            maybe_issue(r) == enum_issue(*self, path@, v@),
    {
        match &self.validation.enum_options {
            Some(options) => match v {
                Json::String(s) => if texts_contain(options, s.as_str()) {
                    None
                } else {
                    let list: String = debug_list_text(options);
                    Some(
                        issue(
                            path,
                            "INVALID_ENUM",
                            cat6(
                                "field `",
                                self.key.as_str(),
                                "` value `",
                                s.as_str(),
                                "` not in ",
                                list.as_str(),
                            ),
                        ),
                    )
                },
                _ => None,
            },
            None => None,
        }
    }

    fn check_intrinsic(&self, path: &str, n: u64) -> (r: Option<ValidationIssue>)
        ensures
            maybe_issue(r) == intrinsic_issue(*self, path@, n),
    {
        match intrinsic_range(self.field_type) {
            Some(x) => if less(n, x.lo) || less(x.hi, n) {
                let end: String = cat2(x.hi_text, "]");
                Some(
                    issue(
                        path,
                        "OUT_OF_RANGE",
                        cat2(
                            cat9(
                                "field `",
                                self.key.as_str(),
                                "` ",
                                shown(n).as_str(),
                                " 不在",
                                x.name,
                                "内禀范围 [",
                                x.lo_text,
                                ", ",
                            ).as_str(),
                            end.as_str(),
                        ),
                    ),
                )
            } else {
                None
            },
            None => None,
        }
    }

    pub(crate) fn check_min(&self, path: &str, n: u64) -> (r: Option<ValidationIssue>)
        ensures
            maybe_issue(r) == min_issue(*self, path@, n),
    {
        match &self.validation.min {
            Some(min) => if less(n, min.bits) {
                Some(
                    issue(
                        path,
                        "OUT_OF_RANGE",
                        cat6(
                            "field `",
                            self.key.as_str(),
                            "` ",
                            shown(n).as_str(),
                            " < min ",
                            shown(min.bits).as_str(),
                        ),
                    ),
                )
            } else {
                None
            },
            None => None,
        }
    }

    pub(crate) fn check_max(&self, path: &str, n: u64) -> (r: Option<ValidationIssue>)
        ensures
            maybe_issue(r) == max_issue(*self, path@, n),
    {
        match &self.validation.max {
            Some(max) => if less(max.bits, n) {
                Some(
                    issue(
                        path,
                        "OUT_OF_RANGE",
                        cat6(
                            "field `",
                            self.key.as_str(),
                            "` ",
                            shown(n).as_str(),
                            " > max ",
                            shown(max.bits).as_str(),
                        ),
                    ),
                )
            } else {
                None
            },
            None => None,
        }
    }

    fn check_pattern(&self, path: &str, v: &Json) -> (r: Option<ValidationIssue>)
        ensures
            maybe_issue(r) == pattern_issue(*self, path@, v@),
    {
        match &self.validation.pattern {
            Some(pattern) => match v {
                Json::String(s) => match fault_of(pattern.as_str()) {
                    Some(e) => Some(
                        issue(
                            path,
                            "INVALID_PATTERN",
                            cat4("field `", self.key.as_str(), "` pattern 非法: ", e.as_str()),
                        ),
                    ),
                    None => if found_in(pattern.as_str(), s.as_str()) {
                        None
                    } else {
                        Some(
                            issue(
                                path,
                                "PATTERN_MISMATCH",
                                cat6(
                                    "field `",
                                    self.key.as_str(),
                                    "` value `",
                                    s.as_str(),
                                    "` 不匹配 ",
                                    pattern.as_str(),
                                ),
                            ),
                        )
                    },
                },
                _ => None,
            },
            None => None,
        }
    }

    /// What is wrong with the value of this field.
    pub fn check_value(&self, path: &str, v: &Json) -> (r: Vec<ValidationIssue>)
        ensures
            issues_view(r@) == value_issues(*self, path@, v@),
    {
        let mut out: Vec<ValidationIssue> = Vec::new();
        assert(issues_view(out@) =~= Seq::<IssueV>::empty());
        if !field_type_matches(self.field_type, v) {
            let got: String = v.to_text();
            add_issue(
                &mut out,
                Some(
                    issue(
                        path,
                        "INVALID_TYPE",
                        cat6(
                            "field `",
                            self.key.as_str(),
                            "` expected ",
                            self.field_type.name(),
                            ", got ",
                            got.as_str(),
                        ),
                    ),
                ),
            );
            assert(issues_view(out@) =~= value_issues(*self, path@, v@));
            return out;
        }
        add_issue(&mut out, self.check_enum(path, v));
        let ghost first = issues_view(out@);
        assert(first =~= at_most_one(enum_issue(*self, path@, v@)));
        match v {
            Json::Number(n) => {
                let bits: u64 = n.double_bits();
                add_issue(&mut out, self.check_intrinsic(path, bits));
                add_issue(&mut out, self.check_min(path, bits));
                add_issue(&mut out, self.check_max(path, bits));
            },
            _ => {},
        }
        assert(issues_view(out@) =~= first + number_issues(*self, path@, v@));
        add_issue(&mut out, self.check_pattern(path, v));
        assert(issues_view(out@) =~= value_issues(*self, path@, v@));
        out
    }
}

pub(crate) fn append_issues(issues: &mut Vec<ValidationIssue>, more: Vec<ValidationIssue>)
    ensures
        issues_view(final(issues)@) == issues_view(old(issues)@) + issues_view(more@),
{
    let mut more = more;
    let ghost added = more@;
    issues.append(&mut more);
    assert(issues_view(issues@) =~= issues_view(old(issues)@) + issues_view(added));
}

fn field_known(fields: &Vec<FieldDescriptor>, key: &str) -> (r: bool)
    ensures
        r == has_field(fields@, key@),
{
    let mut i: usize = 0;
    while i < fields.len()
        invariant
            i <= fields.len(),
            forall|j: int| 0 <= j < i ==> (#[trigger] fields@[j]).key@ != key@,
        decreases fields.len() - i,
    {
        if same_text(fields[i].key.as_str(), key) {
            return true;
        }
        i = i + 1;
    }
    false
}

impl SchemaDescriptor {
    pub fn new(fields: Vec<FieldDescriptor>) -> (r: SchemaDescriptor)
        ensures
            r.fields == fields,
    {
        SchemaDescriptor { fields }
    }

    /// Everything that is wrong with a value, field by field and then the unknown keys; nothing
    /// where it fits. Paths start with `root`.
    pub fn validate_instance(&self, root: &str, value: &Json) -> (r: Vec<ValidationIssue>)
        ensures
            issues_view(r@) == instance_issues(self.fields@, root@, value@),
    {
        broadcast use lemma_json_view;

        let mut issues: Vec<ValidationIssue> = Vec::new();
        assert(issues_view(issues@) =~= Seq::<IssueV>::empty());
        match value {
            Json::Object(o) => {
                let ghost entries = entries_view(o@);
                assert(json_view(*value) == JsonV::Object(entries));
                let mut i: usize = 0;
                while i < self.fields.len()
                    invariant
                        i <= self.fields.len(),
                        entries == entries_view(o@),
                        issues_view(issues@) == fields_issues(
                            self.fields@.subrange(0, i as int),
                            root@,
                            entries,
                        ),
                    decreases self.fields.len() - i,
                {
                    let field: &FieldDescriptor = &self.fields[i];
                    let ghost part = self.fields@.subrange(0, i + 1);
                    assert(part.drop_last() =~= self.fields@.subrange(0, i as int));
                    let path: String = cat3(root, ".", field.key.as_str());
                    match entry(o, field.key.as_str()) {
                        Some(v) => {
                            append_issues(&mut issues, field.check_value(path.as_str(), v));
                        },
                        None => {
                            if field.required {
                                add_issue(
                                    &mut issues,
                                    Some(
                                        issue(
                                            path.as_str(),
                                            "REQUIRED",
                                            cat3("field `", field.key.as_str(), "` is required"),
                                        ),
                                    ),
                                );
                            } else {
                                assert(issues_view(issues@) =~= issues_view(issues@) + Seq::<
                                    IssueV,
                                >::empty());
                            }
                        },
                    }
                    assert(issues_view(issues@) =~= fields_issues(part, root@, entries));
                    i = i + 1;
                }
                assert(self.fields@.subrange(0, self.fields@.len() as int) =~= self.fields@);
                let ghost known = issues_view(issues@);
                let mut k: usize = 0;
                assert(known + Seq::<IssueV>::empty() =~= known);
                while k < o.len()
                    invariant
                        k <= o.len(),
                        entries == entries_view(o@),
                        issues_view(issues@) == known + unknown_issues(
                            self.fields@,
                            root@,
                            entries.subrange(0, k as int),
                        ),
                    decreases o.len() - k,
                {
                    let ghost part = entries.subrange(0, k + 1);
                    assert(part.drop_last() =~= entries.subrange(0, k as int));
                    let key: &str = o[k].0.as_str();
                    assert(part.last().0 == key@);
                    if !field_known(&self.fields, key) {
                        let path: String = cat3(root, ".", key);
                        add_issue(
                            &mut issues,
                            Some(
                                issue(
                                    path.as_str(),
                                    "UNKNOWN_FIELD",
                                    cat3("unknown field `", key, "`"),
                                ),
                            ),
                        );
                    }
                    assert(issues_view(issues@) =~= known + unknown_issues(
                        self.fields@,
                        root@,
                        part,
                    ));
                    k = k + 1;
                }
                assert(entries.subrange(0, o@.len() as int) =~= entries);
            },
            _ => {
                add_issue(
                    &mut issues,
                    Some(issue(root, "INVALID_TYPE", cat2(root, " must be an object"))),
                );
                assert(issues_view(issues@) =~= instance_issues(self.fields@, root@, value@));
            },
        }
        issues
    }
}

// ---------------------------------------------------------------------------
// Whether a schema makes sense
// ---------------------------------------------------------------------------

/// The first of two complaints.
pub open spec fn first_of(a: Option<Seq<char>>, b: Option<Seq<char>>) -> Option<Seq<char>> {
    match a {
        Some(_) => a,
        None => b,
    }
}

/// The keys of some fields.
pub open spec fn keys_view(fields: Seq<FieldDescriptor>) -> Seq<Seq<char>> {
    fields.map_values(|f: FieldDescriptor| f.key@)
}

/// A key that is blank or that an earlier field has.
pub open spec fn key_defect(fields: Seq<FieldDescriptor>, i: int) -> Option<Seq<char>> {
    if blank(fields[i].key@) {
        Some("field key 不能为空"@)
    } else if has_field(fields.subrange(0, i), fields[i].key@) {
        Some("field key 重复: "@ + fields[i].key@)
    } else {
        None
    }
}

/// Options on a field that takes none, no options or repeated ones on a field that does.
pub open spec fn enum_defect(f: FieldDescriptor) -> Option<Seq<char>> {
    match f.validation.enum_options {
        Some(options) => if !(f.field_type is Enum) {
            Some("field "@ + f.key@ + " 非 Enum 不得带 enum_options"@)
        } else if options@.len() == 0 {
            Some("field "@ + f.key@ + " enum_options 不得为空"@)
        } else {
            match first_repeat(texts_view(options@)) {
                Some(p) => Some("field "@ + f.key@ + " enum option 重复: "@ + options@[p]@),
                None => None,
            }
        },
        None => if f.field_type is Enum {
            Some("field "@ + f.key@ + " Enum 必须声明 enum_options"@)
        } else {
            None
        },
    }
}

/// A bound on a field that takes none, or bounds that leave no value.
pub open spec fn bounds_defect(f: FieldDescriptor) -> Option<Seq<char>> {
    if (f.validation.min is Some || f.validation.max is Some) && !numeric(f.field_type) {
        Some("field "@ + f.key@ + " 非数值型不得带 min/max"@)
    } else {
        match (f.validation.min, f.validation.max) {
            (Some(min), Some(max)) => if float_less(max.bits, min.bits) {
                Some("field "@ + f.key@ + " min "@ + double_shown(min.bits) + " > max "@ + double_shown(max.bits))
            } else {
                None
            },
            _ => None,
        }
    }
}

/// A lower bound below the one that the field type has of itself.
pub open spec fn low_defect(f: FieldDescriptor) -> Option<Seq<char>> {
    match (intrinsic(f.field_type), f.validation.min) {
        (Some(x), Some(min)) => if float_less(min.bits, x.lo) {
            Some(
                "field "@ + f.key@ + " min "@ + double_shown(min.bits) + " 放宽"@ + x.name + "内禀下界 "@
                    + x.lo_text,
            )
        } else {
            None
        },
        _ => None,
    }
}

/// An upper bound above the one that the field type has of itself.
pub open spec fn high_defect(f: FieldDescriptor) -> Option<Seq<char>> {
    match (intrinsic(f.field_type), f.validation.max) {
        (Some(x), Some(max)) => if float_less(x.hi, max.bits) {
            Some(
                "field "@ + f.key@ + " max "@ + double_shown(max.bits) + " 放宽"@ + x.name + "内禀上界 "@
                    + x.hi_text,
            )
        } else {
            None
        },
        _ => None,
    }
}

/// A pattern on a field that takes none, or one that is no pattern.
pub open spec fn pattern_defect(f: FieldDescriptor) -> Option<Seq<char>> {
    match f.validation.pattern {
        Some(pattern) => if !string_like(f.field_type) {
            Some("field "@ + f.key@ + " 非字符串型不得带 pattern"@)
        } else if pattern_fault(pattern@) is Some {
            Some("field "@ + f.key@ + " pattern 非法 regex: "@ + pattern@)
        } else {
            None
        },
        None => None,
    }
}

/// A default that the field's type refuses.
pub open spec fn default_type_defect(f: FieldDescriptor, v: JsonV) -> Option<Seq<char>> {
    if type_matches(f.field_type, v) {
        None
    } else {
        Some(
            "field "@ + f.key@ + " default 类型与 field_type "@ + field_type_name(f.field_type)
                + " 不匹配: "@ + json_text(v),
        )
    }
}

/// A default that is none of the field's options.
pub open spec fn default_enum_defect(f: FieldDescriptor, v: JsonV) -> Option<Seq<char>> {
    match (f.validation.enum_options, v) {
        (Some(options), JsonV::String(s)) => if texts_hold(options@, s) {
            None
        } else {
            Some("field "@ + f.key@ + " default `"@ + s + "` 不在 enum_options 中"@)
        },
        _ => None,
    }
}

/// A default number, by its bit pattern, out of the field's range.
pub open spec fn default_range_defect(f: FieldDescriptor, n: u64) -> Option<Seq<char>> {
    first_of(
        match intrinsic(f.field_type) {
            Some(x) => if float_less(n, x.lo) || float_less(x.hi, n) {
                Some(
                    "field "@ + f.key@ + " default "@ + double_shown(n) + " 不在"@ + x.name
                        + "内禀范围 ["@ + x.lo_text + ", "@ + (x.hi_text + "]"@),
                )
            } else {
                None
            },
            None => None,
        },
        first_of(
            match f.validation.min {
                Some(min) => if float_less(n, min.bits) {
                    Some(
                        "field "@ + f.key@ + " default "@ + double_shown(n) + " < min "@ + double_shown(min.bits),
                    )
                } else {
                    None
                },
                None => None,
            },
            match f.validation.max {
                Some(max) => if float_less(max.bits, n) {
                    Some(
                        "field "@ + f.key@ + " default "@ + double_shown(n) + " > max "@ + double_shown(max.bits),
                    )
                } else {
                    None
                },
                None => None,
            },
        ),
    )
}

/// A default text in which the field's pattern is not found.
pub open spec fn default_pattern_defect(f: FieldDescriptor, v: JsonV) -> Option<Seq<char>> {
    match (f.validation.pattern, v) {
        (Some(pattern), JsonV::String(s)) => if pattern_fault(pattern@) is None && !pattern_found(
            pattern@,
            s,
        ) {
            Some("field "@ + f.key@ + " default `"@ + s + "` 不匹配 pattern "@ + pattern@)
        } else {
            None
        },
        _ => None,
    }
}

/// What is wrong with a field's default.
pub open spec fn default_defect(f: FieldDescriptor) -> Option<Seq<char>> {
    match f.default {
        Some(d) => first_of(
            default_type_defect(f, d@),
            first_of(
                default_enum_defect(f, d@),
                first_of(
                    match d@ {
                        JsonV::Number(n) => default_range_defect(f, number_bits(n)),
                        _ => None,
                    },
                    default_pattern_defect(f, d@),
                ),
            ),
        ),
        None => None,
    }
}

/// The first thing that is wrong with a field, its place among the others aside.
pub open spec fn own_defect(f: FieldDescriptor) -> Option<Seq<char>> {
    first_of(
        enum_defect(f),
        first_of(
            bounds_defect(f),
            first_of(
                low_defect(f),
                first_of(high_defect(f), first_of(pattern_defect(f), default_defect(f))),
            ),
        ),
    )
}

/// The first thing that is wrong with a field.
pub open spec fn field_defect(fields: Seq<FieldDescriptor>, i: int) -> Option<Seq<char>> {
    first_of(key_defect(fields, i), own_defect(fields[i]))
}

/// A field that is shown by the value of one that is not there.
pub open spec fn reference_defect(fields: Seq<FieldDescriptor>, i: int) -> Option<Seq<char>> {
    match fields[i].ui.visible_if {
        Some(c) => if has_field(fields, c.field@) {
            None
        } else {
            Some("field "@ + fields[i].key@ + " visible_if 引用不存在的字段: "@ + c.field@)
        },
        None => None,
    }
}

/// The first thing that is wrong with the fields from `i` on.
pub open spec fn fields_defect(fields: Seq<FieldDescriptor>, i: int) -> Option<Seq<char>>
    decreases fields.len() - i,
{
    if i >= fields.len() {
        None
    } else {
        first_of(field_defect(fields, i), fields_defect(fields, i + 1))
    }
}

/// The first reference from a field from `i` on that leads nowhere.
pub open spec fn references_defect(fields: Seq<FieldDescriptor>, i: int) -> Option<Seq<char>>
    decreases fields.len() - i,
{
    if i >= fields.len() {
        None
    } else {
        first_of(reference_defect(fields, i), references_defect(fields, i + 1))
    }
}

/// The first thing that is wrong with a schema.
pub open spec fn definition_defect(fields: Seq<FieldDescriptor>) -> Option<Seq<char>> {
    first_of(fields_defect(fields, 0), references_defect(fields, 0))
}

/// What one optional complaint says.
pub open spec fn maybe_text(s: Option<String>) -> Option<Seq<char>> {
    match s {
        Some(x) => Some(x@),
        None => None,
    }
}

impl FieldDescriptor {
    fn enum_fault(&self) -> (r: Option<String>)
        ensures
            maybe_text(r) == enum_defect(*self),
    {
        let key: &str = self.key.as_str();
        match &self.validation.enum_options {
            Some(options) => {
                if self.field_type != FieldType::Enum {
                    return Some(cat3("field ", key, " 非 Enum 不得带 enum_options"));
                }
                if options.is_empty() {
                    return Some(cat3("field ", key, " enum_options 不得为空"));
                }
                match find_repeat(options) {
                    Some(p) => Some(
                        cat4("field ", key, " enum option 重复: ", options[p].as_str()),
                    ),
                    None => None,
                }
            },
            None => {
                if self.field_type == FieldType::Enum {
                    return Some(cat3("field ", key, " Enum 必须声明 enum_options"));
                }
                None
            },
        }
    }

    fn bounds_fault(&self) -> (r: Option<String>)
        ensures
            maybe_text(r) == bounds_defect(*self),
    {
        let key: &str = self.key.as_str();
        if (self.validation.min.is_some() || self.validation.max.is_some())
            && !self.field_type.is_numeric() {
            return Some(cat3("field ", key, " 非数值型不得带 min/max"));
        }
        match (&self.validation.min, &self.validation.max) {
            (Some(min), Some(max)) => {
                if less(max.bits, min.bits) {
                    Some(
                        cat6("field ", key, " min ", shown(min.bits).as_str(), " > max ", shown(max.bits).as_str()),
                    )
                } else {
                    None
                }
            },
            _ => None,
        }
    }

    fn low_fault(&self) -> (r: Option<String>)
        ensures
            maybe_text(r) == low_defect(*self),
    {
        match (intrinsic_range(self.field_type), &self.validation.min) {
            (Some(x), Some(min)) => {
                if less(min.bits, x.lo) {
                    Some(
                        cat8(
                            "field ",
                            self.key.as_str(),
                            " min ",
                            shown(min.bits).as_str(),
                            " 放宽",
                            x.name,
                            "内禀下界 ",
                            x.lo_text,
                        ),
                    )
                } else {
                    None
                }
            },
            _ => None,
        }
    }

    fn high_fault(&self) -> (r: Option<String>)
        ensures
            maybe_text(r) == high_defect(*self),
    {
        match (intrinsic_range(self.field_type), &self.validation.max) {
            (Some(x), Some(max)) => {
                if less(x.hi, max.bits) {
                    Some(
                        cat8(
                            "field ",
                            self.key.as_str(),
                            " max ",
                            shown(max.bits).as_str(),
                            " 放宽",
                            x.name,
                            "内禀上界 ",
                            x.hi_text,
                        ),
                    )
                } else {
                    None
                }
            },
            _ => None,
        }
    }

    fn pattern_fault(&self) -> (r: Option<String>)
        ensures
            maybe_text(r) == pattern_defect(*self),
    {
        match &self.validation.pattern {
            Some(pattern) => {
                if !self.field_type.is_string_like() {
                    return Some(cat3("field ", self.key.as_str(), " 非字符串型不得带 pattern"));
                }
                if fault_of(pattern.as_str()).is_some() {
                    return Some(
                        cat4(
                            "field ",
                            self.key.as_str(),
                            " pattern 非法 regex: ",
                            pattern.as_str(),
                        ),
                    );
                }
                None
            },
            None => None,
        }
    }

    fn default_range_fault(&self, n: u64) -> (r: Option<String>)
        ensures
            maybe_text(r) == default_range_defect(*self, n),
    {
        let key: &str = self.key.as_str();
        match intrinsic_range(self.field_type) {
            Some(x) => {
                if less(n, x.lo) || less(x.hi, n) {
                    let end: String = cat2(x.hi_text, "]");
                    return Some(
                        cat2(
                            cat9(
                                "field ",
                                key,
                                " default ",
                                shown(n).as_str(),
                                " 不在",
                                x.name,
                                "内禀范围 [",
                                x.lo_text,
                                ", ",
                            ).as_str(),
                            end.as_str(),
                        ),
                    );
                }
            },
            None => {},
        }
        match &self.validation.min {
            Some(min) => {
                if less(n, min.bits) {
                    return Some(
                        cat6(
                            "field ",
                            key,
                            " default ",
                            shown(n).as_str(),
                            " < min ",
                            shown(min.bits).as_str(),
                        ),
                    );
                }
            },
            None => {},
        }
        match &self.validation.max {
            Some(max) => {
                if less(max.bits, n) {
                    return Some(
                        cat6(
                            "field ",
                            key,
                            " default ",
                            shown(n).as_str(),
                            " > max ",
                            shown(max.bits).as_str(),
                        ),
                    );
                }
            },
            None => {},
        }
        None
    }

    fn default_fault(&self) -> (r: Option<String>)
        ensures
            maybe_text(r) == default_defect(*self),
    {
        let key: &str = self.key.as_str();
        let d: &Json = match &self.default {
            Some(d) => d,
            None => {
                return None;
            },
        };
        if !field_type_matches(self.field_type, d) {
            let shown: String = d.to_text();
            return Some(
                cat6(
                    "field ",
                    key,
                    " default 类型与 field_type ",
                    self.field_type.name(),
                    " 不匹配: ",
                    shown.as_str(),
                ),
            );
        }
        match d {
            Json::String(s) => {
                match &self.validation.enum_options {
                    Some(options) => {
                        if !texts_contain(options, s.as_str()) {
                            return Some(
                                cat5(
                                    "field ",
                                    key,
                                    " default `",
                                    s.as_str(),
                                    "` 不在 enum_options 中",
                                ),
                            );
                        }
                    },
                    None => {},
                }
                match &self.validation.pattern {
                    Some(pattern) => {
                        if fault_of(pattern.as_str()).is_none() && !found_in(
                            pattern.as_str(),
                            s.as_str(),
                        ) {
                            return Some(
                                cat6(
                                    "field ",
                                    key,
                                    " default `",
                                    s.as_str(),
                                    "` 不匹配 pattern ",
                                    pattern.as_str(),
                                ),
                            );
                        }
                    },
                    None => {},
                }
                None
            },
            Json::Number(n) => {
                self.default_range_fault(n.double_bits())
            },
            _ => None,
        }
    }

    fn own_fault(&self) -> (r: Option<String>)
        ensures
            maybe_text(r) == own_defect(*self),
    {
        match self.enum_fault() {
            Some(m) => {
                return Some(m);
            },
            None => {},
        }
        match self.bounds_fault() {
            Some(m) => {
                return Some(m);
            },
            None => {},
        }
        match self.low_fault() {
            Some(m) => {
                return Some(m);
            },
            None => {},
        }
        match self.high_fault() {
            Some(m) => {
                return Some(m);
            },
            None => {},
        }
        match self.pattern_fault() {
            Some(m) => {
                return Some(m);
            },
            None => {},
        }
        self.default_fault()
    }
}

/// Whether one of the fields before `i` has a key.
fn earlier_field(fields: &Vec<FieldDescriptor>, i: usize, key: &str) -> (r: bool)
    requires
        i <= fields.len(),
    ensures
        r == has_field(fields@.subrange(0, i as int), key@),
{
    let ghost part = fields@.subrange(0, i as int);
    let mut j: usize = 0;
    while j < i
        invariant
            j <= i <= fields.len(),
            part == fields@.subrange(0, i as int),
            forall|k: int| 0 <= k < j ==> (#[trigger] part[k]).key@ != key@,
        decreases i - j,
    {
        if same_text(fields[j].key.as_str(), key) {
            assert(part[j as int].key@ == key@);
            return true;
        }
        j = j + 1;
    }
    false
}

impl SchemaDescriptor {
    /// Whether the schema makes sense; else the first thing that is wrong with it.
    pub fn validate_definition(&self) -> (r: Result<(), String>)
        ensures
            match r {
                Ok(()) => definition_defect(self.fields@) is None,
                Err(m) => definition_defect(self.fields@) == Some(m@),
            },
    {
        let fields: &Vec<FieldDescriptor> = &self.fields;
        let mut i: usize = 0;
        while i < fields.len()
            invariant
                i <= fields.len(),
                fields == &self.fields,
                fields_defect(fields@, 0) == fields_defect(fields@, i as int),
            decreases fields.len() - i,
        {
            let f: &FieldDescriptor = &fields[i];
            if is_blank(f.key.as_str()) {
                return Err("field key 不能为空".to_owned());
            }
            if earlier_field(fields, i, f.key.as_str()) {
                return Err(cat2("field key 重复: ", f.key.as_str()));
            }
            match f.own_fault() {
                Some(m) => {
                    return Err(m);
                },
                None => {},
            }
            i = i + 1;
        }
        let mut k: usize = 0;
        while k < fields.len()
            invariant
                k <= fields.len(),
                fields == &self.fields,
                fields_defect(fields@, 0) is None,
                references_defect(fields@, 0) == references_defect(fields@, k as int),
            decreases fields.len() - k,
        {
            match &fields[k].ui.visible_if {
                Some(c) => {
                    if !field_known(fields, c.field.as_str()) {
                        return Err(
                            cat4(
                                "field ",
                                fields[k].key.as_str(),
                                " visible_if 引用不存在的字段: ",
                                c.field.as_str(),
                            ),
                        );
                    }
                },
                None => {},
            }
            k = k + 1;
        }
        Ok(())
    }
}

// ---------------------------------------------------------------------------
// What a schema that makes sense promises
// ---------------------------------------------------------------------------

proof fn lemma_no_fields_defect(fields: Seq<FieldDescriptor>, i: int, k: int)
    requires
        fields_defect(fields, i) is None,
        i <= k < fields.len(),
    ensures
        field_defect(fields, k) is None,
    decreases fields.len() - i,
{
    if i < k {
        lemma_no_fields_defect(fields, i + 1, k);
    }
}

proof fn lemma_no_references_defect(fields: Seq<FieldDescriptor>, i: int, k: int)
    requires
        references_defect(fields, i) is None,
        i <= k < fields.len(),
    ensures
        reference_defect(fields, k) is None,
    decreases fields.len() - i,
{
    if i < k {
        lemma_no_references_defect(fields, i + 1, k);
    }
}

/// The keys of a schema that makes sense are not blank, no two are the same, and every condition
/// refers to one of them.
pub proof fn sound_schema_has_usable_keys(fields: Seq<FieldDescriptor>)
    requires
        definition_defect(fields) is None,
    ensures
        keys_view(fields).no_duplicates(),
        forall|i: int| 0 <= i < fields.len() ==> !blank((#[trigger] fields[i]).key@),
        forall|i: int|
            0 <= i < fields.len() && (#[trigger] fields[i]).ui.visible_if is Some ==> has_field(
                fields,
                fields[i].ui.visible_if->0.field@,
            ),
{
    assert forall|i: int| 0 <= i < fields.len() implies !blank((#[trigger] fields[i]).key@) by {
        lemma_no_fields_defect(fields, 0, i);
    }
    assert forall|i: int|
        0 <= i < fields.len() && (#[trigger] fields[i]).ui.visible_if is Some implies has_field(
        fields,
        fields[i].ui.visible_if->0.field@,
    ) by {
        lemma_no_references_defect(fields, 0, i);
    }
    let keys = keys_view(fields);
    assert forall|i: int, j: int| 0 <= i < keys.len() && 0 <= j < keys.len() && i
        != j implies keys[i] != keys[j] by {
        let (a, b) = if i < j {
            (i, j)
        } else {
            (j, i)
        };
        lemma_no_fields_defect(fields, 0, b);
        if fields[a].key@ == fields[b].key@ {
            let part = fields.subrange(0, b);
            assert(part[a].key@ == fields[b].key@);
            assert(has_field(part, fields[b].key@));
        }
    }
}

/// In a schema that makes sense every default fits its own field.
pub proof fn sound_schema_has_fitting_defaults(
    fields: Seq<FieldDescriptor>,
    i: int,
    path: Seq<char>,
)
    requires
        definition_defect(fields) is None,
        0 <= i < fields.len(),
        fields[i].default is Some,
    ensures
        value_issues(fields[i], path, fields[i].default->0@) == Seq::<IssueV>::empty(),
{
    lemma_no_fields_defect(fields, 0, i);
    let f = fields[i];
    let v = f.default->0@;
    assert(own_defect(f) is None);
    assert(default_defect(f) is None);
    assert(v matches JsonV::Number(n) ==> default_range_defect(f, number_bits(n)) is None);
    assert(enum_issue(f, path, v) is None);
    assert(pattern_issue(f, path, v) is None);
    assert(number_issues(f, path, v) =~= Seq::<IssueV>::empty());
    assert(value_issues(f, path, v) =~= Seq::<IssueV>::empty());
}

/// In a schema that makes sense a field has options just where its values are one of some options.
pub proof fn sound_schema_has_options(fields: Seq<FieldDescriptor>, i: int)
    requires
        definition_defect(fields) is None,
        0 <= i < fields.len(),
    ensures
        fields[i].field_type is Enum <==> fields[i].validation.enum_options is Some,
{
    lemma_no_fields_defect(fields, 0, i);
    assert(own_defect(fields[i]) is None);
}

proof fn lemma_issues_of_all_fields(
    fields: Seq<FieldDescriptor>,
    root: Seq<char>,
    o: Seq<(Seq<char>, JsonV)>,
    i: int,
)
    requires
        fields_issues(fields, root, o) == Seq::<IssueV>::empty(),
        0 <= i < fields.len(),
    ensures
        field_issues(fields[i], root, o) == Seq::<IssueV>::empty(),
    decreases fields.len(),
{
    let before = fields_issues(fields.drop_last(), root, o);
    let last = field_issues(fields.last(), root, o);
    assert((before + last).len() == before.len() + last.len());
    assert(before =~= Seq::<IssueV>::empty());
    assert(last =~= Seq::<IssueV>::empty());
    if i < fields.len() - 1 {
        lemma_issues_of_all_fields(fields.drop_last(), root, o, i);
    }
}

proof fn lemma_unknown_keys(
    fields: Seq<FieldDescriptor>,
    root: Seq<char>,
    o: Seq<(Seq<char>, JsonV)>,
    k: int,
)
    requires
        unknown_issues(fields, root, o) == Seq::<IssueV>::empty(),
        0 <= k < o.len(),
    ensures
        has_field(fields, o[k].0),
    decreases o.len(),
{
    let before = unknown_issues(fields, root, o.drop_last());
    if !has_field(fields, o.last().0) {
        assert(unknown_issues(fields, root, o).len() == before.len() + 1);
    }
    if k < o.len() - 1 {
        lemma_unknown_keys(fields, root, o.drop_last(), k);
        assert(o.drop_last()[k] == o[k]);
    }
}

/// A value without issues is an object that holds every required field, no key that is not in the
/// schema, and under each key of the schema a value of that field's type.
pub proof fn value_without_issues_fits(fields: Seq<FieldDescriptor>, root: Seq<char>, v: JsonV)
    requires
        instance_issues(fields, root, v) == Seq::<IssueV>::empty(),
    ensures
        v is Object,
        forall|i: int|
            0 <= i < fields.len() ==> match object_get(v->Object_0, (#[trigger] fields[i]).key@) {
                Some(x) => type_matches(fields[i].field_type, x),
                None => !fields[i].required,
            },
        forall|k: int| 0 <= k < v->Object_0.len() ==> has_field(fields, (#[trigger] v->Object_0[k]).0),
{
    match v {
        JsonV::Object(o) => {
            let a = fields_issues(fields, root, o);
            let b = unknown_issues(fields, root, o);
            assert((a + b).len() == a.len() + b.len());
            assert(a =~= Seq::<IssueV>::empty());
            assert(b =~= Seq::<IssueV>::empty());
            assert forall|i: int| 0 <= i < fields.len() implies match object_get(
                o,
                (#[trigger] fields[i]).key@,
            ) {
                Some(x) => type_matches(fields[i].field_type, x),
                None => !fields[i].required,
            } by {
                lemma_issues_of_all_fields(fields, root, o, i);
                assert(field_issues(fields[i], root, o).len() == 0);
            }
            assert forall|k: int| 0 <= k < o.len() implies has_field(
                fields,
                (#[trigger] o[k]).0,
            ) by {
                lemma_unknown_keys(fields, root, o, k);
            }
        },
        _ => {
            assert(instance_issues(fields, root, v).len() == 1);
        },
    }
}

/// Of the integers, those from 1 to 65535 are ports, and no others.
pub proof fn ports_go_from_1_to_65535(f: FieldDescriptor, path: Seq<char>, n: JsonNumber)
    requires
        f.field_type is Port,
        n matches JsonNumber::NegInt(i) ==> i < 0,
        !(n is Float),
    ensures
        intrinsic_issue(f, path, number_bits(n)) is None <==> (n matches JsonNumber::PosInt(u) && 1
            <= u <= 65535),
{
    match n {
        JsonNumber::PosInt(u) => {
            nearest_keep_their_side(u);
        },
        JsonNumber::NegInt(i) => {
            nearest_keep_their_side((-i) as u64);
        },
        JsonNumber::Float(_) => {},
    }
}

/// Of the integers, those that are not negative are durations, and no others.
pub proof fn durations_are_not_negative(f: FieldDescriptor, path: Seq<char>, n: JsonNumber)
    requires
        f.field_type is Duration,
        n matches JsonNumber::NegInt(i) ==> i < 0,
        !(n is Float),
    ensures
        intrinsic_issue(f, path, number_bits(n)) is None <==> n is PosInt,
{
    match n {
        JsonNumber::PosInt(u) => {
            nearest_keep_their_side(u);
        },
        JsonNumber::NegInt(i) => {
            nearest_keep_their_side((-i) as u64);
        },
        JsonNumber::Float(_) => {},
    }
}

/// Under a field with options a value without issues has one of them, if it has a text there.
pub proof fn options_without_issues_fit(
    fields: Seq<FieldDescriptor>,
    root: Seq<char>,
    o: Seq<(Seq<char>, JsonV)>,
    i: int,
)
    requires
        instance_issues(fields, root, JsonV::Object(o)) == Seq::<IssueV>::empty(),
        0 <= i < fields.len(),
    ensures
        match (fields[i].validation.enum_options, object_get(o, fields[i].key@)) {
            (Some(options), Some(JsonV::String(s))) => texts_hold(options@, s),
            _ => true,
        },
{
    let a = fields_issues(fields, root, o);
    let b = unknown_issues(fields, root, o);
    assert((a + b).len() == a.len() + b.len());
    assert(a =~= Seq::<IssueV>::empty());
    lemma_issues_of_all_fields(fields, root, o, i);
    assert(field_issues(fields[i], root, o).len() == 0);
}

// ---------------------------------------------------------------------------
// Building
// ---------------------------------------------------------------------------

impl LocalizedText {
    pub fn new(default: &str) -> (r: LocalizedText)
        ensures
            r.default@ == default@,
            r.zh_cn is None,
    {
        LocalizedText { default: default.to_owned(), zh_cn: None }
    }

    pub fn with_zh(self, zh: &str) -> (r: LocalizedText)
        ensures
            r.default == self.default,
            r.zh_cn is Some,
            r.zh_cn->0@ == zh@,
    {
        LocalizedText { default: self.default, zh_cn: Some(zh.to_owned()) }
    }
}

impl Default for UiHints {
    fn default() -> (r: UiHints)
        ensures
            r.group is None,
            r.order is None,
            r.placeholder is None,
            r.advanced is None,
            r.visible_if is None,
    {
        UiHints { group: None, order: None, placeholder: None, advanced: None, visible_if: None }
    }
}

impl Default for FieldValidation {
    fn default() -> (r: FieldValidation)
        ensures
            r.min is None,
            r.max is None,
            r.pattern is None,
            r.enum_options is None,
    {
        FieldValidation { min: None, max: None, pattern: None, enum_options: None }
    }
}

impl Default for SchemaDescriptor {
    fn default() -> (r: SchemaDescriptor)
        ensures
            r.fields@ == Seq::<FieldDescriptor>::empty(),
    {
        SchemaDescriptor { fields: Vec::new() }
    }
}

impl FieldDescriptor {
    /// A field that is not required, without default, bounds or hints.
    pub fn new(key: &str, label: &str, field_type: FieldType) -> (r: FieldDescriptor)
        ensures
            r.key@ == key@,
            r.label@ == label@,
            r.field_type == field_type,
            r.description is None,
            !r.required,
            r.default is None,
            r.validation.min is None,
            r.validation.max is None,
            r.validation.pattern is None,
            r.validation.enum_options is None,
            r.ui.group is None,
            r.ui.order is None,
            r.ui.placeholder is None,
            r.ui.advanced is None,
            r.ui.visible_if is None,
    {
        FieldDescriptor {
            key: key.to_owned(),
            label: label.to_owned(),
            description: None,
            field_type,
            required: false,
            default: None,
            validation: FieldValidation::default(),
            ui: UiHints::default(),
        }
    }

    pub fn required(self, v: bool) -> (r: FieldDescriptor)
        ensures
            r == (FieldDescriptor { required: v, ..self }),
    {
        let mut f: FieldDescriptor = self;
        f.required = v;
        f
    }

    pub fn default_value(self, v: Json) -> (r: FieldDescriptor)
        ensures
            r == (FieldDescriptor { default: Some(v), ..self }),
    {
        let mut f: FieldDescriptor = self;
        f.default = Some(v);
        f
    }
}

// ---------------------------------------------------------------------------
// What fits, and what makes sense
// ---------------------------------------------------------------------------

/// Whether a field asks no more of a value than its type.
pub open spec fn unbounded(f: FieldDescriptor) -> bool {
    &&& f.validation.min is None
    &&& f.validation.max is None
    &&& f.validation.pattern is None
    &&& f.validation.enum_options is None
}

/// By the kind of the value alone, a field takes: a truth value where it is boolean, any number
/// where it is a number, a whole number of 64 bits with a sign where it is an integer, and a text
/// where it is any of the others. Ports are whole numbers from 1 to 65535, durations are not
/// negative.
pub proof fn fields_take_values_of_their_kind(f: FieldDescriptor, path: Seq<char>, v: JsonV)
    requires
        unbounded(f),
    ensures
        f.field_type is Boolean ==> (value_issues(f, path, v).len() == 0 <==> v is Bool),
        f.field_type is Number ==> (value_issues(f, path, v).len() == 0 <==> v is Number),
        f.field_type is Integer ==> (value_issues(f, path, v).len() == 0 <==> (
        v matches JsonV::Number(n) && match n {
            JsonNumber::PosInt(u) => u <= i64::MAX,
            JsonNumber::NegInt(i) => true,
            JsonNumber::Float(x) => false,
        })),
        f.field_type is String || f.field_type is Enum || f.field_type is Secret || f.field_type
            is Host || f.field_type is Url || f.field_type is File || f.field_type
            is CertificateRef ==> (value_issues(f, path, v).len() == 0 <==> v is String),
        f.field_type is Port && (v matches JsonV::Number(JsonNumber::NegInt(i)) ==> i < 0) ==> (
        value_issues(f, path, v).len() == 0 <==> (v matches JsonV::Number(JsonNumber::PosInt(u)) && 1
            <= u <= 65535)),
        f.field_type is Duration && (v matches JsonV::Number(JsonNumber::NegInt(i)) ==> i < 0)
            && !(v matches JsonV::Number(JsonNumber::Float(x))) ==> (value_issues(f, path, v).len()
            == 0 <==> (v matches JsonV::Number(JsonNumber::PosInt(u)))),
        f.field_type is Duration ==> (v matches JsonV::Number(JsonNumber::Float(x)) ==> (
        value_issues(f, path, v).len() == 0 <==> !float_less(x.bits, 0) && !float_less(
            0x7ff0_0000_0000_0000,
            x.bits,
        ))),
{
    let all = value_issues(f, path, v);
    if f.field_type is Port {
        if v is Number && !(v->Number_0 is Float) && (v->Number_0 matches JsonNumber::NegInt(i)
            ==> i < 0) {
            ports_go_from_1_to_65535(f, path, v->Number_0);
        }
    }
    if f.field_type is Duration {
        if v is Number && !(v->Number_0 is Float) && (v->Number_0 matches JsonNumber::NegInt(i)
            ==> i < 0) {
            durations_are_not_negative(f, path, v->Number_0);
        }
    }
}

/// A value of the wrong kind is one issue, which says so where the value stands.
pub proof fn wrong_kinds_are_told_once(f: FieldDescriptor, path: Seq<char>, v: JsonV)
    ensures
        !type_matches(f.field_type, v) <==> (value_issues(f, path, v).len() == 1 && value_issues(
            f,
            path,
            v,
        )[0].code == "INVALID_TYPE"@),
        forall|i: int|
            0 <= i < value_issues(f, path, v).len() ==> (#[trigger] value_issues(f, path, v)[i]).path
                == path,
        f.field_type is Boolean ==> (type_matches(f.field_type, v) <==> v is Bool),
        f.field_type is Number || f.field_type is Duration ==> (type_matches(f.field_type, v)
            <==> v is Number),
        f.field_type is Integer || f.field_type is Port ==> (type_matches(f.field_type, v) <==> (
        v matches JsonV::Number(n) && match n {
            JsonNumber::PosInt(u) => u <= i64::MAX,
            JsonNumber::NegInt(i) => true,
            JsonNumber::Float(x) => false,
        })),
        f.field_type is String || f.field_type is Enum || f.field_type is Secret || f.field_type
            is Host || f.field_type is Url || f.field_type is File || f.field_type
            is CertificateRef ==> (type_matches(f.field_type, v) <==> v is String),
{
    reveal_strlit("INVALID_TYPE");
    reveal_strlit("INVALID_ENUM");
    reveal_strlit("OUT_OF_RANGE");
    reveal_strlit("INVALID_PATTERN");
    reveal_strlit("PATTERN_MISMATCH");
    assert("INVALID_TYPE"@.len() == 12 && "INVALID_TYPE"@[8] == 'T');
    assert("INVALID_ENUM"@.len() == 12 && "INVALID_ENUM"@[8] == 'E');
    assert("OUT_OF_RANGE"@[0] == 'O');
    assert("INVALID_PATTERN"@.len() == 15);
    assert("PATTERN_MISMATCH"@.len() == 16);
}

/// A value fits a field exactly where it is of its kind, and: a text is one of the options, if
/// there are any, and the pattern, if there is one that makes sense, is found in it; a number is
/// neither below the least nor above the greatest value, nor outside the range that its kind has of
/// itself.
pub proof fn values_fit_when_they_keep_to_all_limits(f: FieldDescriptor, path: Seq<char>, v: JsonV)
    ensures
        value_issues(f, path, v).len() == 0 <==> {
            &&& type_matches(f.field_type, v)
            &&& v matches JsonV::String(s) ==> {
                &&& f.validation.enum_options matches Some(options) ==> exists|i: int|
                    0 <= i < options@.len() && (#[trigger] options@[i])@ == s
                &&& f.validation.pattern matches Some(p) ==> pattern_fault(p@) is None
                    && pattern_found(p@, s)
            }
            &&& v matches JsonV::Number(n) ==> {
                &&& f.validation.min matches Some(min) ==> !float_less(number_bits(n), min.bits)
                &&& f.validation.max matches Some(max) ==> !float_less(max.bits, number_bits(n))
                &&& f.field_type is Port ==> !float_less(number_bits(n), 0x3ff0_0000_0000_0000)
                    && !float_less(0x40ef_ffe0_0000_0000, number_bits(n))
                &&& f.field_type is Duration ==> !float_less(number_bits(n), 0) && !float_less(
                    0x7ff0_0000_0000_0000,
                    number_bits(n),
                )
            }
        },
{
    let a = at_most_one(enum_issue(f, path, v));
    let b = number_issues(f, path, v);
    let c = at_most_one(pattern_issue(f, path, v));
    assert((a + b + c).len() == a.len() + b.len() + c.len());
}

/// A whole number of at most 2^53 keeps to a limit that is such a number exactly where it is on the
/// right side of it.
pub proof fn limits_hold_of_whole_numbers(f: FieldDescriptor, path: Seq<char>, n: u64, m: u64)
    requires
        n < 0x20_0000_0000_0000,
        m < 0x20_0000_0000_0000,
    ensures
        f.validation.min == Some(Double { bits: double_of_uint(m) }) ==> (min_issue(
            f,
            path,
            number_bits(JsonNumber::PosInt(n)),
        ) is None <==> n >= m),
        f.validation.max == Some(Double { bits: double_of_uint(m) }) ==> (max_issue(
            f,
            path,
            number_bits(JsonNumber::PosInt(n)),
        ) is None <==> n <= m),
{
    crate::float::small_numbers_keep_their_order(n, m);
    crate::float::small_numbers_keep_their_order(m, n);
}

proof fn lemma_no_issues_in_fields(
    fields: Seq<FieldDescriptor>,
    root: Seq<char>,
    o: Seq<(Seq<char>, JsonV)>,
)
    requires
        forall|i: int|
            0 <= i < fields.len() ==> field_issues(#[trigger] fields[i], root, o).len() == 0,
    ensures
        fields_issues(fields, root, o).len() == 0,
    decreases fields.len(),
{
    if fields.len() > 0 {
        let front = fields.drop_last();
        assert forall|i: int| 0 <= i < front.len() implies field_issues(
            #[trigger] front[i],
            root,
            o,
        ).len() == 0 by {
            assert(front[i] == fields[i]);
        }
        lemma_no_issues_in_fields(front, root, o);
        assert(fields.last() == fields[fields.len() - 1]);
    }
}

proof fn lemma_no_unknown(
    fields: Seq<FieldDescriptor>,
    root: Seq<char>,
    o: Seq<(Seq<char>, JsonV)>,
)
    requires
        forall|k: int| 0 <= k < o.len() ==> has_field(fields, (#[trigger] o[k]).0),
    ensures
        unknown_issues(fields, root, o).len() == 0,
    decreases o.len(),
{
    if o.len() > 0 {
        let front = o.drop_last();
        assert forall|k: int| 0 <= k < front.len() implies has_field(
            fields,
            (#[trigger] front[k]).0,
        ) by {
            assert(front[k] == o[k]);
        }
        lemma_no_unknown(fields, root, front);
        assert(has_field(fields, o[o.len() - 1].0));
    }
}

/// A value fits a schema exactly where it is an object that has a fitting value under the key of
/// each field, or none where the field is not required, and has no other keys.
pub proof fn instances_fit_when_all_fields_do(fields: Seq<FieldDescriptor>, root: Seq<char>, v: JsonV)
    ensures
        instance_issues(fields, root, v).len() == 0 <==> (v matches JsonV::Object(o) && (forall|
            i: int,
        |
            0 <= i < fields.len() ==> match object_get(o, (#[trigger] fields[i]).key@) {
                Some(x) => value_issues(fields[i], root + "."@ + fields[i].key@, x).len() == 0,
                None => !fields[i].required,
            }) && (forall|k: int|
            0 <= k < o.len() ==> exists|i: int|
                0 <= i < fields.len() && (#[trigger] fields[i]).key@ == (#[trigger] o[k]).0)),
{
    match v {
        JsonV::Object(o) => {
            let a = fields_issues(fields, root, o);
            let b = unknown_issues(fields, root, o);
            assert((a + b).len() == a.len() + b.len());
            if instance_issues(fields, root, v).len() == 0 {
                assert(a =~= Seq::<IssueV>::empty());
                assert(instance_issues(fields, root, v) =~= Seq::<IssueV>::empty());
                value_without_issues_fits(fields, root, v);
                assert forall|i: int| 0 <= i < fields.len() implies match object_get(
                    o,
                    (#[trigger] fields[i]).key@,
                ) {
                    Some(x) => value_issues(fields[i], root + "."@ + fields[i].key@, x).len() == 0,
                    None => !fields[i].required,
                } by {
                    lemma_issues_of_all_fields(fields, root, o, i);
                    assert(field_issues(fields[i], root, o).len() == 0);
                }
                assert forall|k: int| 0 <= k < o.len() implies exists|i: int|
                    0 <= i < fields.len() && (#[trigger] fields[i]).key@ == (#[trigger] o[k]).0 by {
                    assert(has_field(fields, v->Object_0[k].0));
                }
            }
            if (forall|i: int|
                0 <= i < fields.len() ==> match object_get(o, (#[trigger] fields[i]).key@) {
                    Some(x) => value_issues(fields[i], root + "."@ + fields[i].key@, x).len() == 0,
                    None => !fields[i].required,
                }) && (forall|k: int|
                0 <= k < o.len() ==> exists|i: int|
                    0 <= i < fields.len() && (#[trigger] fields[i]).key@ == (#[trigger] o[k]).0) {
                assert forall|i: int| 0 <= i < fields.len() implies field_issues(
                    #[trigger] fields[i],
                    root,
                    o,
                ).len() == 0 by {}
                assert forall|k: int| 0 <= k < o.len() implies has_field(
                    fields,
                    (#[trigger] o[k]).0,
                ) by {}
                lemma_no_issues_in_fields(fields, root, o);
                lemma_no_unknown(fields, root, o);
            }
        },
        _ => {
            assert(instance_issues(fields, root, v).len() == 1);
        },
    }
}

/// A required field that is missing is told under its path; what stands under the key of a field is
/// told as what is wrong with that value.
pub proof fn issues_are_told_under_the_path_of_their_field(
    f: FieldDescriptor,
    root: Seq<char>,
    o: Seq<(Seq<char>, JsonV)>,
)
    ensures
        object_get(o, f.key@) matches Some(v) ==> field_issues(f, root, o) == value_issues(
            f,
            root + "."@ + f.key@,
            v,
        ),
        object_get(o, f.key@) is None && !f.required ==> field_issues(f, root, o).len() == 0,
        object_get(o, f.key@) is None && f.required ==> field_issues(f, root, o).len() == 1
            && field_issues(f, root, o)[0].code == "REQUIRED"@ && field_issues(f, root, o)[0].path
            == root + "."@ + f.key@,
{
}

/// All that is wrong is told, not only what comes first: of each field its issues, and of each key
/// that no field has that it is unknown.
pub proof fn all_issues_are_told(
    fields: Seq<FieldDescriptor>,
    root: Seq<char>,
    o: Seq<(Seq<char>, JsonV)>,
    i: int,
    k: int,
)
    requires
        0 <= i < fields.len(),
        0 <= k < o.len(),
    ensures
        forall|x: IssueV| #[trigger]
            field_issues(fields[i], root, o).contains(x) ==> instance_issues(
                fields,
                root,
                JsonV::Object(o),
            ).contains(x),
        (forall|j: int| 0 <= j < fields.len() ==> (#[trigger] fields[j]).key@ != o[k].0)
            ==> instance_issues(fields, root, JsonV::Object(o)).contains(
            (IssueV {
                path: root + "."@ + o[k].0,
                code: "UNKNOWN_FIELD"@,
                message: "unknown field `"@ + o[k].0 + "`"@,
            }),
        ),
{
    let a = fields_issues(fields, root, o);
    let b = unknown_issues(fields, root, o);
    let all = a + b;
    assert forall|x: IssueV| #[trigger] field_issues(fields[i], root, o).contains(x) implies
        all.contains(x) by {
        lemma_field_is_told(fields, root, o, i, x);
        let p = choose|p: int| 0 <= p < a.len() && a[p] == x;
        assert(all[p] == x);
    }
    if forall|j: int| 0 <= j < fields.len() ==> (#[trigger] fields[j]).key@ != o[k].0 {
        let x = IssueV {
            path: root + "."@ + o[k].0,
            code: "UNKNOWN_FIELD"@,
            message: "unknown field `"@ + o[k].0 + "`"@,
        };
        lemma_unknown_is_told(fields, root, o, k);
        let p = choose|p: int| 0 <= p < b.len() && b[p] == x;
        assert(all[a.len() + p] == x);
    }
}

proof fn lemma_field_is_told(
    fields: Seq<FieldDescriptor>,
    root: Seq<char>,
    o: Seq<(Seq<char>, JsonV)>,
    i: int,
    x: IssueV,
)
    requires
        0 <= i < fields.len(),
        field_issues(fields[i], root, o).contains(x),
    ensures
        fields_issues(fields, root, o).contains(x),
    decreases fields.len(),
{
    let front = fields_issues(fields.drop_last(), root, o);
    let last = field_issues(fields.last(), root, o);
    if i == fields.len() - 1 {
        let p = choose|p: int| 0 <= p < last.len() && last[p] == x;
        assert((front + last)[front.len() + p] == x);
    } else {
        assert(fields.drop_last()[i] == fields[i]);
        lemma_field_is_told(fields.drop_last(), root, o, i, x);
        let p = choose|p: int| 0 <= p < front.len() && front[p] == x;
        assert((front + last)[p] == x);
    }
}

proof fn lemma_unknown_is_told(
    fields: Seq<FieldDescriptor>,
    root: Seq<char>,
    o: Seq<(Seq<char>, JsonV)>,
    k: int,
)
    requires
        0 <= k < o.len(),
        !has_field(fields, o[k].0),
    ensures
        unknown_issues(fields, root, o).contains(
            (IssueV {
                path: root + "."@ + o[k].0,
                code: "UNKNOWN_FIELD"@,
                message: "unknown field `"@ + o[k].0 + "`"@,
            }),
        ),
    decreases o.len(),
{
    let all = unknown_issues(fields, root, o);
    let front = unknown_issues(fields, root, o.drop_last());
    let x = IssueV {
        path: root + "."@ + o[k].0,
        code: "UNKNOWN_FIELD"@,
        message: "unknown field `"@ + o[k].0 + "`"@,
    };
    if k == o.len() - 1 {
        assert(all.last() == x);
        assert(all[all.len() - 1] == x);
    } else {
        assert(o.drop_last()[k] == o[k]);
        lemma_unknown_is_told(fields, root, o.drop_last(), k);
        let p = choose|p: int| 0 <= p < front.len() && front[p] == x;
        assert(all[p] == x);
    }
}

/// A field makes sense of itself exactly where: it has options, and no two the same, just if it
/// takes one of some; limits of numbers stand at numbers only, leave room, and do not go beyond the
/// range that the kind has; a pattern stands at texts only and can be read; and its default fits.
pub proof fn fields_make_sense_of_themselves(f: FieldDescriptor, path: Seq<char>)
    ensures
        own_defect(f) is None <==> {
            &&& f.field_type is Enum <==> f.validation.enum_options is Some
            &&& f.validation.enum_options matches Some(options) ==> options@.len() > 0 && texts_view(
                options@,
            ).no_duplicates()
            &&& f.validation.min is Some || f.validation.max is Some ==> f.field_type is Integer
                || f.field_type is Number || f.field_type is Port || f.field_type is Duration
            &&& f.validation.min matches Some(min) ==> (f.validation.max matches Some(max)
                ==> !float_less(max.bits, min.bits))
            &&& f.validation.min matches Some(min) ==> (f.field_type is Port ==> !float_less(
                min.bits,
                0x3ff0_0000_0000_0000,
            )) && (f.field_type is Duration ==> !float_less(min.bits, 0))
            &&& f.validation.max matches Some(max) ==> (f.field_type is Port ==> !float_less(
                0x40ef_ffe0_0000_0000,
                max.bits,
            )) && (f.field_type is Duration ==> !float_less(0x7ff0_0000_0000_0000, max.bits))
            &&& f.validation.pattern matches Some(p) ==> pattern_fault(p@) is None && (f.field_type
                is String || f.field_type is Host || f.field_type is Url || f.field_type is File
                || f.field_type is CertificateRef || f.field_type is Secret)
            &&& f.default matches Some(d) ==> value_issues(f, path, d@).len() == 0
        },
{
    if f.validation.enum_options is Some {
        crate::text::first_repeat_is_first(texts_view(f.validation.enum_options->0@));
    }
    if f.default is Some {
        values_fit_when_they_keep_to_all_limits(f, path, f.default->0@);
    }
}

proof fn lemma_fields_defect_found(fields: Seq<FieldDescriptor>, i: int)
    requires
        0 <= i <= fields.len(),
        forall|k: int| i <= k < fields.len() ==> #[trigger] field_defect(fields, k) is None,
    ensures
        fields_defect(fields, i) is None,
    decreases fields.len() - i,
{
    if i < fields.len() {
        assert(field_defect(fields, i) is None);
        lemma_fields_defect_found(fields, i + 1);
    }
}

proof fn lemma_references_defect_found(fields: Seq<FieldDescriptor>, i: int)
    requires
        0 <= i <= fields.len(),
        forall|k: int| i <= k < fields.len() ==> #[trigger] reference_defect(fields, k) is None,
    ensures
        references_defect(fields, i) is None,
    decreases fields.len() - i,
{
    if i < fields.len() {
        assert(reference_defect(fields, i) is None);
        lemma_references_defect_found(fields, i + 1);
    }
}

/// Whether the field that another depends on, if it does on any, is one of the fields.
pub open spec fn depends_on_a_field(fields: Seq<FieldDescriptor>, i: int) -> bool {
    fields[i].ui.visible_if matches Some(c) ==> exists|j: int|
        0 <= j < fields.len() && (#[trigger] fields[j]).key@ == c.field@
}

proof fn lemma_schema_sound(fields: Seq<FieldDescriptor>)
    requires
        forall|i: int| 0 <= i < fields.len() ==> !blank((#[trigger] fields[i]).key@),
        forall|i: int, j: int|
            0 <= i < j < fields.len() ==> (#[trigger] fields[i]).key@ != (#[trigger] fields[j]).key@,
        forall|i: int| 0 <= i < fields.len() ==> own_defect(#[trigger] fields[i]) is None,
        forall|i: int| 0 <= i < fields.len() ==> #[trigger] depends_on_a_field(fields, i),
    ensures
        definition_defect(fields) is None,
{
    assert forall|k: int| 0 <= k < fields.len() implies #[trigger] field_defect(fields, k) is None by {
        let part = fields.subrange(0, k);
        assert forall|i: int| 0 <= i < part.len() implies (#[trigger] part[i]).key@
            != fields[k].key@ by {
            assert(part[i] == fields[i]);
        }
        assert(own_defect(fields[k]) is None);
        assert(key_defect(fields, k) is None);
    }
    assert forall|k: int| 0 <= k < fields.len() implies #[trigger] reference_defect(fields, k)
        is None by {
        assert(depends_on_a_field(fields, k));
    }
    lemma_fields_defect_found(fields, 0);
    lemma_references_defect_found(fields, 0);
}

proof fn lemma_sound_keys(fields: Seq<FieldDescriptor>)
    requires
        definition_defect(fields) is None,
    ensures
        forall|i: int| 0 <= i < fields.len() ==> !blank((#[trigger] fields[i]).key@),
        forall|i: int, j: int|
            0 <= i < j < fields.len() ==> (#[trigger] fields[i]).key@ != (#[trigger] fields[j]).key@,
{
    sound_schema_has_usable_keys(fields);
    let keys = keys_view(fields);
    assert forall|i: int, j: int| 0 <= i < j < fields.len() implies (#[trigger] fields[i]).key@ != (
    #[trigger] fields[j]).key@ by {
        assert(keys[i] != keys[j]);
    }
}

proof fn lemma_sound_schema(fields: Seq<FieldDescriptor>)
    requires
        definition_defect(fields) is None,
    ensures
        forall|i: int| 0 <= i < fields.len() ==> !blank((#[trigger] fields[i]).key@),
        forall|i: int, j: int|
            0 <= i < j < fields.len() ==> (#[trigger] fields[i]).key@ != (#[trigger] fields[j]).key@,
        forall|i: int| 0 <= i < fields.len() ==> own_defect(#[trigger] fields[i]) is None,
        forall|i: int| 0 <= i < fields.len() ==> #[trigger] depends_on_a_field(fields, i),
{
    lemma_sound_keys(fields);
    assert forall|i: int| 0 <= i < fields.len() implies own_defect(#[trigger] fields[i]) is None by {
        lemma_no_fields_defect(fields, 0, i);
    }
    assert forall|i: int| 0 <= i < fields.len() implies #[trigger] depends_on_a_field(
        fields,
        i,
    ) by {
        lemma_no_references_defect(fields, 0, i);
        if fields[i].ui.visible_if is Some {
            assert(has_field(fields, fields[i].ui.visible_if->0.field@));
        }
    }
}

/// A schema makes sense exactly where each field has a key that says something and that no other
/// has, makes sense of itself, and depends on a field that there is, if on any.
pub proof fn schemas_make_sense_when_their_fields_do(fields: Seq<FieldDescriptor>)
    ensures
        definition_defect(fields) is None <==> {
            &&& forall|i: int| 0 <= i < fields.len() ==> !blank((#[trigger] fields[i]).key@)
            &&& forall|i: int, j: int|
                0 <= i < j < fields.len() ==> (#[trigger] fields[i]).key@ != (
                #[trigger] fields[j]).key@
            &&& forall|i: int| 0 <= i < fields.len() ==> own_defect(#[trigger] fields[i]) is None
            &&& forall|i: int| 0 <= i < fields.len() ==> #[trigger] depends_on_a_field(fields, i)
        },
{
    if definition_defect(fields) is None {
        lemma_sound_schema(fields);
    } else if {
        &&& forall|i: int| 0 <= i < fields.len() ==> !blank((#[trigger] fields[i]).key@)
        &&& forall|i: int, j: int|
            0 <= i < j < fields.len() ==> (#[trigger] fields[i]).key@ != (#[trigger] fields[j]).key@
        &&& forall|i: int| 0 <= i < fields.len() ==> own_defect(#[trigger] fields[i]) is None
        &&& forall|i: int| 0 <= i < fields.len() ==> #[trigger] depends_on_a_field(fields, i)
    } {
        lemma_schema_sound(fields);
    }
}

/// A field type is called by its own word.
pub proof fn field_types_have_their_names(t: FieldType)
    ensures
        t is String ==> field_type_name(t) == "String"@,
        t is Integer ==> field_type_name(t) == "Integer"@,
        t is Number ==> field_type_name(t) == "Number"@,
        t is Boolean ==> field_type_name(t) == "Boolean"@,
        t is Enum ==> field_type_name(t) == "Enum"@,
        t is Secret ==> field_type_name(t) == "Secret"@,
        t is Duration ==> field_type_name(t) == "Duration"@,
        t is Host ==> field_type_name(t) == "Host"@,
        t is Port ==> field_type_name(t) == "Port"@,
        t is Url ==> field_type_name(t) == "Url"@,
        t is File ==> field_type_name(t) == "File"@,
        t is CertificateRef ==> field_type_name(t) == "CertificateRef"@,
{
}

} // verus!
