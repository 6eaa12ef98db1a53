//! Resources: what a driver offers to acquire or to set, and what a task selects of it.
use vstd::prelude::*;

use crate::descriptor::DriverDescriptor;
use crate::json::{
    entries_view, entry, json_view, lemma_json_view, object_get, Json, JsonV,
};
use crate::schema::{
    definition_defect, field_type_name, first_of, instance_issues, issues_view, maybe_text,
    options_without_issues_fit, sound_schema_has_options, value_without_issues_fits, FieldDescriptor, FieldType, IssueV,
    LocalizedText, SchemaDescriptor, ValidationIssue,
};
use crate::text::{
    blank, cat2, cat3, cat4, cat5, cat6, decimal, decimal_text, is_blank, same_text, texts_contain,
    texts_hold,
};
use crate::types::{DataType, TaskMode};

verus! {

/// The kind of a binding that selects resources.
pub const GENERIC_BINDING_KIND: &'static str = "mesa.resources.v1";

// ---------------------------------------------------------------------------
// Types
// ---------------------------------------------------------------------------

/// What can be done with an output.
#[derive(Debug, Clone, Copy, PartialEq, Eq, Structural)]
pub enum AccessMode {
    Read,
    Write,
    ReadWrite,
}

/// How the data type of an output is found: it is fixed, it goes by the value of a parameter, or
/// the driver says.
#[derive(Debug, Clone, PartialEq)]
pub enum OutputTypeSpec {
    Fixed { data_type: DataType },
    FromParameter { parameter: String, mapping: Vec<(String, DataType)> },
    DriverResolved,
}

/// One output of a resource.
#[derive(Debug, Clone, PartialEq)]
pub struct OutputDescriptor {
    pub id: String,
    pub label: LocalizedText,
    pub type_spec: OutputTypeSpec,
    pub unit: Option<String>,
    pub access: AccessMode,
}

/// A resource of a driver.
#[derive(Debug, Clone, PartialEq)]
pub struct ResourceDescriptor {
    pub id: String,
    pub label: LocalizedText,
    pub parameters: SchemaDescriptor,
    pub outputs: Vec<OutputDescriptor>,
    pub modes: Vec<TaskMode>,
}

/// An output that a task selects, and the key of the point that it becomes.
#[derive(Debug, Clone, PartialEq)]
pub struct SelectedOutput {
    pub output: String,
    pub point_key: String,
}

/// A resource that a task selects.
#[derive(Debug, Clone, PartialEq)]
pub struct ResourceSelection {
    pub resource_id: String,
    pub parameters: Json,
    pub outputs: Vec<SelectedOutput>,
}

/// The resources that a task selects.
#[derive(Debug, Clone, PartialEq)]
pub struct GenericBinding {
    pub selections: Vec<ResourceSelection>,
}

/// The access of an output of which nothing else is said.
pub fn default_access() -> (r: AccessMode)
    ensures
        r == AccessMode::Read,
{
    AccessMode::Read
}

// ---------------------------------------------------------------------------
// The data type of an output
// ---------------------------------------------------------------------------

/// The data type under a key: that of the first entry with it.
pub open spec fn mapped_from(mapping: Seq<(String, DataType)>, key: Seq<char>, i: int) -> Option<
    DataType,
>
    decreases mapping.len() - i,
{
    if i >= mapping.len() {
        None
    } else if mapping[i].0@ == key {
        Some(mapping[i].1)
    } else {
        mapped_from(mapping, key, i + 1)
    }
}

/// The data type of an output under some parameters, where it is known before the driver says.
pub open spec fn resolved_type(
    spec_of: OutputTypeSpec,
    params: Seq<(Seq<char>, JsonV)>,
) -> Option<DataType> {
    match spec_of {
        OutputTypeSpec::Fixed { data_type } => Some(data_type),
        OutputTypeSpec::FromParameter { parameter, mapping } => match object_get(
            params,
            parameter@,
        ) {
            Some(JsonV::String(s)) => mapped_from(mapping@, s, 0),
            _ => None,
        },
        OutputTypeSpec::DriverResolved => None,
    }
}

fn mapped(mapping: &Vec<(String, DataType)>, key: &str) -> (r: Option<DataType>)
    ensures
        r == mapped_from(mapping@, key@, 0),
{
    let mut i: usize = 0;
    while i < mapping.len()
        invariant
            i <= mapping.len(),
            mapped_from(mapping@, key@, 0) == mapped_from(mapping@, key@, i as int),
        decreases mapping.len() - i,
    {
        if same_text(mapping[i].0.as_str(), key) {
            return Some(mapping[i].1);
        }
        i = i + 1;
    }
    None
}

impl OutputTypeSpec {
    /// The data type under some parameters; nothing where only the driver can say, or where the
    /// parameter or its entry is missing.
    pub fn resolve(&self, params: &Vec<(String, Json)>) -> (r: Option<DataType>)
        ensures
            r == resolved_type(*self, entries_view(params@)),
    {
        match self {
            OutputTypeSpec::Fixed { data_type } => Some(*data_type),
            OutputTypeSpec::FromParameter { parameter, mapping } => match entry(
                params,
                parameter.as_str(),
            ) {
                Some(v) => match v {
                    Json::String(s) => mapped(mapping, s.as_str()),
                    _ => None,
                },
                None => None,
            },
            OutputTypeSpec::DriverResolved => None,
        }
    }
}

// ---------------------------------------------------------------------------
// Whether a resource makes sense
// ---------------------------------------------------------------------------

/// Whether one of the outputs has an id.
pub open spec fn has_output(outputs: Seq<OutputDescriptor>, id: Seq<char>) -> bool {
    exists|i: int| 0 <= i < outputs.len() && (#[trigger] outputs[i]).id@ == id
}

/// Whether one of the fields is a secret.
pub open spec fn has_secret(fields: Seq<FieldDescriptor>) -> bool {
    exists|i: int| 0 <= i < fields.len() && (#[trigger] fields[i]).field_type is Secret
}

/// The first blank or repeated id among the outputs from `i` on.
pub open spec fn output_ids_defect(
    id: Seq<char>,
    outputs: Seq<OutputDescriptor>,
    i: int,
) -> Option<Seq<char>>
    decreases outputs.len() - i,
{
    if i >= outputs.len() {
        None
    } else if blank(outputs[i].id@) {
        Some("resource "@ + id + " output id 不能为空"@)
    } else if has_output(outputs.subrange(0, i), outputs[i].id@) {
        Some("resource "@ + id + " output id 重复: "@ + outputs[i].id@)
    } else {
        output_ids_defect(id, outputs, i + 1)
    }
}

/// The first field with a key, from `i` on.
pub open spec fn field_from(fields: Seq<FieldDescriptor>, key: Seq<char>, i: int) -> Option<int>
    decreases fields.len() - i,
{
    if i >= fields.len() {
        None
    } else if fields[i].key@ == key {
        Some(i)
    } else {
        field_from(fields, key, i + 1)
    }
}

/// The options of a field; none where it has none.
pub open spec fn options_of(f: FieldDescriptor) -> Seq<String> {
    match f.validation.enum_options {
        Some(o) => o@,
        None => Seq::empty(),
    }
}

/// The first option from `i` on without an entry in a mapping.
pub open spec fn unmapped_from(
    options: Seq<String>,
    mapping: Seq<(String, DataType)>,
    i: int,
) -> Option<Seq<char>>
    decreases options.len() - i,
{
    if i >= options.len() {
        None
    } else if mapped_from(mapping, options[i]@, 0) is None {
        Some(options[i]@)
    } else {
        unmapped_from(options, mapping, i + 1)
    }
}

/// The first key of a mapping from `i` on that is no option.
pub open spec fn surplus_from(
    options: Seq<String>,
    mapping: Seq<(String, DataType)>,
    i: int,
) -> Option<Seq<char>>
    decreases mapping.len() - i,
{
    if i >= mapping.len() {
        None
    } else if !texts_hold(options, mapping[i].0@) {
        Some(mapping[i].0@)
    } else {
        surplus_from(options, mapping, i + 1)
    }
}

/// What is wrong with how an output's data type is found.
pub open spec fn output_type_defect(
    id: Seq<char>,
    fields: Seq<FieldDescriptor>,
    o: OutputDescriptor,
) -> Option<Seq<char>> {
    let head = "resource "@ + id + " output "@ + o.id@;
    match o.type_spec {
        OutputTypeSpec::FromParameter { parameter, mapping } => match field_from(
            fields,
            parameter@,
            0,
        ) {
            None => Some(head + " 引用不存在的参数: "@ + parameter@),
            Some(k) => if !(fields[k].field_type is Enum) {
                Some(
                    head + " 的类型参数 "@ + parameter@ + " 必须为 Enum（实际 "@
                        + field_type_name(fields[k].field_type) + "）"@,
                )
            } else if !fields[k].required {
                Some(head + " 的类型参数 "@ + parameter@ + " 必须 required"@)
            } else {
                match unmapped_from(options_of(fields[k]), mapping@, 0) {
                    Some(option) => Some(head + " mapping 缺少选项: "@ + option),
                    None => match surplus_from(options_of(fields[k]), mapping@, 0) {
                        Some(key) => Some(head + " mapping 有多余键: "@ + key),
                        None => None,
                    },
                }
            },
        },
        _ => None,
    }
}

/// The first output from `i` on whose data type is badly described.
pub open spec fn output_types_defect(
    id: Seq<char>,
    fields: Seq<FieldDescriptor>,
    outputs: Seq<OutputDescriptor>,
    i: int,
) -> Option<Seq<char>>
    decreases outputs.len() - i,
{
    if i >= outputs.len() {
        None
    } else {
        first_of(
            output_type_defect(id, fields, outputs[i]),
            output_types_defect(id, fields, outputs, i + 1),
        )
    }
}

/// The first thing that is wrong with a resource.
pub open spec fn resource_defect(r: ResourceDescriptor) -> Option<Seq<char>> {
    if blank(r.id@) {
        Some("resource id 不能为空"@)
    } else {
        first_of(
            definition_defect(r.parameters.fields@),
            if has_secret(r.parameters.fields@) {
                Some("resource "@ + r.id@ + " parameters 不得含 Secret 字段"@)
            } else {
                first_of(
                    output_ids_defect(r.id@, r.outputs@, 0),
                    if r.outputs@.len() == 0 {
                        Some("resource "@ + r.id@ + " outputs 不能为空"@)
                    } else {
                        output_types_defect(r.id@, r.parameters.fields@, r.outputs@, 0)
                    },
                )
            },
        )
    }
}

/// The first field with a key.
pub fn find_field(fields: &Vec<FieldDescriptor>, key: &str) -> (r: Option<usize>)
    ensures
        match r {
            Some(k) => field_from(fields@, key@, 0) == Some(k as int) && k < fields.len(),
            None => field_from(fields@, key@, 0) is None,
        },
{
    let mut i: usize = 0;
    while i < fields.len()
        invariant
            i <= fields.len(),
            field_from(fields@, key@, 0) == field_from(fields@, key@, i as int),
        decreases fields.len() - i,
    {
        if same_text(fields[i].key.as_str(), key) {
            return Some(i);
        }
        i = i + 1;
    }
    None
}

fn find_unmapped(options: &Vec<String>, mapping: &Vec<(String, DataType)>) -> (r: Option<String>)
    ensures
        maybe_text(r) == unmapped_from(options@, mapping@, 0),
{
    let mut i: usize = 0;
    while i < options.len()
        invariant
            i <= options.len(),
            unmapped_from(options@, mapping@, 0) == unmapped_from(options@, mapping@, i as int),
        decreases options.len() - i,
    {
        if mapped(mapping, options[i].as_str()).is_none() {
            return Some(options[i].clone());
        }
        i = i + 1;
    }
    None
}

fn find_surplus(options: &Vec<String>, mapping: &Vec<(String, DataType)>) -> (r: Option<String>)
    ensures
        maybe_text(r) == surplus_from(options@, mapping@, 0),
{
    let mut i: usize = 0;
    while i < mapping.len()
        invariant
            i <= mapping.len(),
            surplus_from(options@, mapping@, 0) == surplus_from(options@, mapping@, i as int),
        decreases mapping.len() - i,
    {
        if !texts_contain(options, mapping[i].0.as_str()) {
            return Some(mapping[i].0.clone());
        }
        i = i + 1;
    }
    None
}

impl ResourceDescriptor {
    fn output_ids_fault(&self) -> (r: Option<String>)
        ensures
            maybe_text(r) == output_ids_defect(self.id@, self.outputs@, 0),
    {
        let mut i: usize = 0;
        while i < self.outputs.len()
            invariant
                i <= self.outputs.len(),
                output_ids_defect(self.id@, self.outputs@, 0) == output_ids_defect(
                    self.id@,
                    self.outputs@,
                    i as int,
                ),
            decreases self.outputs.len() - i,
        {
            let id: &str = self.outputs[i].id.as_str();
            if is_blank(id) {
                return Some(cat3("resource ", self.id.as_str(), " output id 不能为空"));
            }
            let ghost part = self.outputs@.subrange(0, i as int);
            let mut j: usize = 0;
            while j < i
                invariant
                    j <= i < self.outputs.len(),
                    id@ == self.outputs@[i as int].id@,
                    !blank(id@),
                    part == self.outputs@.subrange(0, i as int),
                    output_ids_defect(self.id@, self.outputs@, 0) == output_ids_defect(
                        self.id@,
                        self.outputs@,
                        i as int,
                    ),
                    forall|k: int| 0 <= k < j ==> (#[trigger] part[k]).id@ != id@,
                decreases i - j,
            {
                if same_text(self.outputs[j].id.as_str(), id) {
                    assert(part[j as int].id@ == id@);
                    return Some(cat4("resource ", self.id.as_str(), " output id 重复: ", id));
                }
                j = j + 1;
            }
            i = i + 1;
        }
        None
    }

    fn output_type_fault(&self, o: &OutputDescriptor) -> (r: Option<String>)
        ensures
            maybe_text(r) == output_type_defect(self.id@, self.parameters.fields@, *o),
    {
        let head: String = cat4("resource ", self.id.as_str(), " output ", o.id.as_str());
        match &o.type_spec {
            OutputTypeSpec::FromParameter { parameter, mapping } => {
                let fields: &Vec<FieldDescriptor> = &self.parameters.fields;
                match find_field(fields, parameter.as_str()) {
                    None => Some(
                        cat3(head.as_str(), " 引用不存在的参数: ", parameter.as_str()),
                    ),
                    Some(k) => {
                        let field: &FieldDescriptor = &fields[k];
                        if field.field_type != FieldType::Enum {
                            return Some(
                                cat6(
                                    head.as_str(),
                                    " 的类型参数 ",
                                    parameter.as_str(),
                                    " 必须为 Enum（实际 ",
                                    field.field_type.name(),
                                    "）",
                                ),
                            );
                        }
                        if !field.required {
                            return Some(
                                cat4(
                                    head.as_str(),
                                    " 的类型参数 ",
                                    parameter.as_str(),
                                    " 必须 required",
                                ),
                            );
                        }
                        let none: Vec<String> = Vec::new();
                        assert(none@ =~= Seq::<String>::empty());
                        let options: &Vec<String> = match &field.validation.enum_options {
                            Some(o) => o,
                            None => &none,
                        };
                        assert(options@ == options_of(*field));
                        match find_unmapped(options, mapping) {
                            Some(option) => {
                                return Some(
                                    cat3(head.as_str(), " mapping 缺少选项: ", option.as_str()),
                                );
                            },
                            None => {},
                        }
                        match find_surplus(options, mapping) {
                            Some(key) => Some(
                                cat3(head.as_str(), " mapping 有多余键: ", key.as_str()),
                            ),
                            None => None,
                        }
                    },
                }
            },
            _ => None,
        }
    }

    /// Whether the resource makes sense; else the first thing that is wrong with it.
    pub fn validate(&self) -> (r: Result<(), String>)
        ensures
            match r {
                Ok(()) => resource_defect(*self) is None,
                Err(m) => resource_defect(*self) == Some(m@),
            },
    {
        if is_blank(self.id.as_str()) {
            return Err("resource id 不能为空".to_owned());
        }
        match self.parameters.validate_definition() {
            Ok(()) => {},
            Err(m) => {
                return Err(m);
            },
        }
        let fields: &Vec<FieldDescriptor> = &self.parameters.fields;
        let mut s: usize = 0;
        while s < fields.len()
            invariant
                s <= fields.len(),
                fields == &self.parameters.fields,
                !blank(self.id@),
                definition_defect(fields@) is None,
                forall|j: int| 0 <= j < s ==> !((#[trigger] fields@[j]).field_type is Secret),
            decreases fields.len() - s,
        {
            if fields[s].field_type == FieldType::Secret {
                assert(fields@[s as int].field_type is Secret);
                return Err(
                    cat3("resource ", self.id.as_str(), " parameters 不得含 Secret 字段"),
                );
            }
            s = s + 1;
        }
        match self.output_ids_fault() {
            Some(m) => {
                return Err(m);
            },
            None => {},
        }
        if self.outputs.is_empty() {
            return Err(cat3("resource ", self.id.as_str(), " outputs 不能为空"));
        }
        assert(resource_defect(*self) == output_types_defect(self.id@, fields@, self.outputs@, 0));
        let mut i: usize = 0;
        while i < self.outputs.len()
            invariant
                i <= self.outputs.len(),
                fields == &self.parameters.fields,
                resource_defect(*self) == output_types_defect(
                    self.id@,
                    fields@,
                    self.outputs@,
                    i as int,
                ),
            decreases self.outputs.len() - i,
        {
            match self.output_type_fault(&self.outputs[i]) {
                Some(m) => {
                    return Err(m);
                },
                None => {},
            }
            i = i + 1;
        }
        Ok(())
    }
}

proof fn lemma_no_output_types_defect(
    id: Seq<char>,
    fields: Seq<FieldDescriptor>,
    outputs: Seq<OutputDescriptor>,
    i: int,
    k: int,
)
    requires
        output_types_defect(id, fields, outputs, i) is None,
        i <= k < outputs.len(),
    ensures
        output_type_defect(id, fields, outputs[k]) is None,
    decreases outputs.len() - i,
{
    if i < k {
        lemma_no_output_types_defect(id, fields, outputs, i + 1, k);
    }
}

proof fn lemma_all_mapped(options: Seq<String>, mapping: Seq<(String, DataType)>, i: int, k: int)
    requires
        unmapped_from(options, mapping, i) is None,
        i <= k < options.len(),
    ensures
        mapped_from(mapping, options[k]@, 0) is Some,
    decreases options.len() - i,
{
    if i < k {
        lemma_all_mapped(options, mapping, i + 1, k);
    }
}

/// An output of a resource that makes sense, whose data type goes by a parameter, has a data type
/// for every option that the parameter offers.
pub proof fn every_option_has_a_type(r: ResourceDescriptor, k: int, option: Seq<char>)
    requires
        resource_defect(r) is None,
        0 <= k < r.outputs@.len(),
        r.outputs@[k].type_spec is FromParameter,
    ensures
        ({
            let parameter = r.outputs@[k].type_spec->parameter@;
            let f = field_from(r.parameters.fields@, parameter, 0);
            &&& f is Some
            &&& texts_hold(options_of(r.parameters.fields@[f->0]), option) ==> resolved_type(
                r.outputs@[k].type_spec,
                seq![(parameter, JsonV::String(option))],
            ) is Some
        }),
{
    lemma_no_output_types_defect(r.id@, r.parameters.fields@, r.outputs@, 0, k);
    let t = r.outputs@[k].type_spec;
    let f = field_from(r.parameters.fields@, t->parameter@, 0);
    let options = options_of(r.parameters.fields@[f->0]);
    if texts_hold(options, option) {
        let j = choose|j: int| 0 <= j < options.len() && (#[trigger] options[j])@ == option;
        lemma_all_mapped(options, t->mapping@, 0, j);
        let one = seq![(t->parameter@, JsonV::String(option))];
        assert(one[0].0 == t->parameter@);
    }
}

proof fn lemma_field_found(fields: Seq<FieldDescriptor>, key: Seq<char>, i: int)
    requires
        0 <= i,
        field_from(fields, key, i) is Some,
    ensures
        0 <= field_from(fields, key, i)->0 < fields.len(),
        fields[field_from(fields, key, i)->0].key@ == key,
    decreases fields.len() - i,
{
    if i < fields.len() && fields[i].key@ != key {
        lemma_field_found(fields, key, i + 1);
    }
}

/// Parameters that fit a resource that makes sense give each of its outputs a data type, unless
/// the driver alone can say.
pub proof fn fitting_parameters_give_a_type(
    r: ResourceDescriptor,
    k: int,
    root: Seq<char>,
    params: Seq<(Seq<char>, JsonV)>,
)
    requires
        resource_defect(r) is None,
        0 <= k < r.outputs@.len(),
        instance_issues(r.parameters.fields@, root, JsonV::Object(params)).len() == 0,
    ensures
        resolved_type(r.outputs@[k].type_spec, params) is None <==> r.outputs@[k].type_spec
            is DriverResolved,
{
    let fields = r.parameters.fields@;
    let t = r.outputs@[k].type_spec;
    if t is FromParameter {
        lemma_no_output_types_defect(r.id@, fields, r.outputs@, 0, k);
        lemma_field_found(fields, t->parameter@, 0);
        let f = field_from(fields, t->parameter@, 0)->0;
        assert(instance_issues(fields, root, JsonV::Object(params)) =~= Seq::<IssueV>::empty());
        value_without_issues_fits(fields, root, JsonV::Object(params));
        options_without_issues_fit(fields, root, params, f);
        sound_schema_has_options(fields, f);
        let options = options_of(fields[f]);
        let s = object_get(params, t->parameter@)->0->String_0;
        let j = choose|j: int| 0 <= j < options.len() && (#[trigger] options[j])@ == s;
        lemma_all_mapped(options, t->mapping@, 0, j);
    }
}

// ---------------------------------------------------------------------------
// Whether selections have the right shape
// ---------------------------------------------------------------------------

/// The first thing that is wrong with the outputs of a selection from `j` on, given the keys that
/// stand before them.
pub open spec fn outputs_fault(
    outputs: Seq<SelectedOutput>,
    seen: Seq<String>,
    j: int,
) -> Option<Seq<char>>
    decreases outputs.len() - j,
{
    if j >= outputs.len() {
        None
    } else if blank(outputs[j].output@) || blank(outputs[j].point_key@) {
        Some("output/point_key 不能为空"@)
    } else if texts_hold(seen, outputs[j].point_key@) {
        Some("point_key 重复: "@ + outputs[j].point_key@)
    } else {
        outputs_fault(outputs, seen.push(outputs[j].point_key), j + 1)
    }
}

/// The keys of some outputs.
pub open spec fn output_keys(outputs: Seq<SelectedOutput>) -> Seq<String> {
    outputs.map_values(|o: SelectedOutput| o.point_key)
}

/// The first thing that is wrong with the shape of the selections from `i` on, given the keys that
/// stand before them.
pub open spec fn selections_fault(
    selections: Seq<ResourceSelection>,
    seen: Seq<String>,
    i: int,
) -> Option<Seq<char>>
    decreases selections.len() - i,
{
    if i >= selections.len() {
        None
    } else {
        let sel = selections[i];
        if blank(sel.resource_id@) {
            Some("resource_id 不能为空"@)
        } else if sel.outputs@.len() == 0 {
            Some("resource "@ + sel.resource_id@ + " outputs 不能为空"@)
        } else {
            first_of(
                outputs_fault(sel.outputs@, seen, 0),
                if !(sel.parameters@ is Object) && !(sel.parameters@ is Null) {
                    Some("resource "@ + sel.resource_id@ + " parameters 需为对象"@)
                } else {
                    selections_fault(selections, seen + output_keys(sel.outputs@), i + 1)
                },
            )
        }
    }
}

/// Whether the selections of a task have the right shape; else the first thing that is wrong.
pub fn validate_selections_structure(selections: &[ResourceSelection]) -> (r: Result<(), String>)
    ensures
        match r {
            Ok(()) => selections_fault(selections@, Seq::empty(), 0) is None,
            Err(m) => selections_fault(selections@, Seq::empty(), 0) == Some(m@),
        },
{
    let ghost whole = selections_fault(selections@, Seq::empty(), 0);
    let mut seen: Vec<String> = Vec::new();
    assert(seen@ =~= Seq::<String>::empty());
    let mut i: usize = 0;
    while i < selections.len()
        invariant
            i <= selections.len(),
            whole == selections_fault(selections@, Seq::empty(), 0),
            whole == selections_fault(selections@, seen@, i as int),
        decreases selections.len() - i,
    {
        let sel: &ResourceSelection = &selections[i];
        if is_blank(sel.resource_id.as_str()) {
            return Err("resource_id 不能为空".to_owned());
        }
        if sel.outputs.is_empty() {
            return Err(cat3("resource ", sel.resource_id.as_str(), " outputs 不能为空"));
        }
        let ghost before = seen@;
        let mut j: usize = 0;
        assert(before + output_keys(sel.outputs@.subrange(0, 0)) =~= before);
        while j < sel.outputs.len()
            invariant
                j <= sel.outputs.len(),
                i < selections.len(),
                sel == &selections@[i as int],
                !blank(sel.resource_id@),
                sel.outputs@.len() > 0,
                whole == selections_fault(selections@, Seq::empty(), 0),
                whole == selections_fault(selections@, before, i as int),
                seen@ == before + output_keys(sel.outputs@.subrange(0, j as int)),
                outputs_fault(sel.outputs@, before, 0) == outputs_fault(
                    sel.outputs@,
                    seen@,
                    j as int,
                ),
            decreases sel.outputs.len() - j,
        {
            let out: &SelectedOutput = &sel.outputs[j];
            if is_blank(out.output.as_str()) || is_blank(out.point_key.as_str()) {
                return Err("output/point_key 不能为空".to_owned());
            }
            if texts_contain(&seen, out.point_key.as_str()) {
                return Err(cat2("point_key 重复: ", out.point_key.as_str()));
            }
            seen.push(out.point_key.clone());
            assert(seen@ =~= before + output_keys(sel.outputs@.subrange(0, j + 1)));
            j = j + 1;
        }
        assert(sel.outputs@.subrange(0, sel.outputs@.len() as int) =~= sel.outputs@);
        match &sel.parameters {
            Json::Object(_) => {},
            Json::Null => {},
            _ => {
                return Err(
                    cat3("resource ", sel.resource_id.as_str(), " parameters 需为对象"),
                );
            },
        }
        i = i + 1;
    }
    Ok(())
}

// ---------------------------------------------------------------------------
// Whether a set of tasks fits a driver
// ---------------------------------------------------------------------------

/// How a task mode reads in a message.
pub open spec fn mode_shown(m: TaskMode) -> Seq<char> {
    match m {
        TaskMode::Poll => "Poll"@,
        TaskMode::Subscribe => "Subscribe"@,
    }
}

pub fn show_mode(m: TaskMode) -> (r: &'static str)
    ensures
        r@ == mode_shown(m),
{
    match m {
        TaskMode::Poll => "Poll",
        TaskMode::Subscribe => "Subscribe",
    }
}

/// The first resource with an id, from `i` on.
pub open spec fn resource_from(
    resources: Seq<ResourceDescriptor>,
    id: Seq<char>,
    i: int,
) -> Option<int>
    decreases resources.len() - i,
{
    if i >= resources.len() {
        None
    } else if resources[i].id@ == id {
        Some(i)
    } else {
        resource_from(resources, id, i + 1)
    }
}

/// The first output with an id, from `i` on.
pub open spec fn output_from(outputs: Seq<OutputDescriptor>, id: Seq<char>, i: int) -> Option<int>
    decreases outputs.len() - i,
{
    if i >= outputs.len() {
        None
    } else if outputs[i].id@ == id {
        Some(i)
    } else {
        output_from(outputs, id, i + 1)
    }
}

pub fn find_resource(resources: &Vec<ResourceDescriptor>, id: &str) -> (r: Option<usize>)
    ensures
        match r {
            Some(k) => resource_from(resources@, id@, 0) == Some(k as int) && k < resources.len(),
            None => resource_from(resources@, id@, 0) is None,
        },
{
    let mut i: usize = 0;
    while i < resources.len()
        invariant
            i <= resources.len(),
            resource_from(resources@, id@, 0) == resource_from(resources@, id@, i as int),
        decreases resources.len() - i,
    {
        if same_text(resources[i].id.as_str(), id) {
            return Some(i);
        }
        i = i + 1;
    }
    None
}

pub fn find_output(outputs: &Vec<OutputDescriptor>, id: &str) -> (r: Option<usize>)
    ensures
        match r {
            Some(k) => output_from(outputs@, id@, 0) == Some(k as int) && k < outputs.len(),
            None => output_from(outputs@, id@, 0) is None,
        },
{
    let mut i: usize = 0;
    while i < outputs.len()
        invariant
            i <= outputs.len(),
            output_from(outputs@, id@, 0) == output_from(outputs@, id@, i as int),
        decreases outputs.len() - i,
    {
        if same_text(outputs[i].id.as_str(), id) {
            return Some(i);
        }
        i = i + 1;
    }
    None
}

/// Parameters that are not said are an empty object.
pub open spec fn params_or_empty(v: JsonV) -> JsonV {
    match v {
        JsonV::Null => JsonV::Object(Seq::empty()),
        _ => v,
    }
}

/// Whether a resource can be acquired in a mode; one that names no mode can be polled.
pub open spec fn mode_offered(modes: Seq<TaskMode>, m: TaskMode) -> bool {
    if modes.len() == 0 {
        m is Poll
    } else {
        modes.contains(m)
    }
}

/// Whether a driver can run tasks of a mode.
pub open spec fn mode_runs(d: DriverDescriptor, m: TaskMode) -> bool {
    match m {
        TaskMode::Poll => d.capabilities.poll,
        TaskMode::Subscribe => d.capabilities.subscribe,
    }
}

/// Point keys with the place where each was first selected.
pub type SeenKeys = Seq<(Seq<char>, Seq<char>)>;

/// The place where a key was first selected.
pub open spec fn first_place(seen: SeenKeys, key: Seq<char>) -> Option<Seq<char>>
    decreases seen.len(),
{
    if seen.len() == 0 {
        None
    } else if seen[0].0 == key {
        Some(seen[0].1)
    } else {
        first_place(seen.drop_first(), key)
    }
}

/// The keys after one more output.
pub open spec fn seen_with(seen: SeenKeys, key: Seq<char>, base: Seq<char>) -> SeenKeys {
    if first_place(seen, key) is Some {
        seen
    } else {
        seen.push((key, base))
    }
}

/// The keys after some outputs of a selection.
pub open spec fn seen_outputs(
    outputs: Seq<SelectedOutput>,
    base: Seq<char>,
    seen: SeenKeys,
) -> SeenKeys
    decreases outputs.len(),
{
    if outputs.len() == 0 {
        seen
    } else {
        seen_with(
            seen_outputs(outputs.drop_last(), base, seen),
            outputs.last().point_key@,
            base,
        )
    }
}

/// What is wrong with one output of a selection.
pub open spec fn output_issues(
    res: ResourceDescriptor,
    sel: ResourceSelection,
    base: Seq<char>,
    out: SelectedOutput,
    seen: SeenKeys,
) -> Seq<IssueV> {
    let path = base + ".outputs"@;
    let known = match output_from(res.outputs@, out.output@, 0) {
        None => seq![
            IssueV {
                path,
                code: "UNKNOWN_OUTPUT"@,
                message: "resource `"@ + sel.resource_id@ + "` 无 output `"@ + out.output@ + "`"@,
            },
        ],
        Some(k) => if res.outputs@[k].access is Write {
            seq![
                IssueV {
                    path,
                    code: "ACCESS_NOT_SUPPORTED"@,
                    message: "resource `"@ + sel.resource_id@ + "` output `"@ + out.output@
                        + "` 只写，不可采集"@,
                },
            ]
        } else {
            Seq::empty()
        },
    };
    known + (match first_place(seen, out.point_key@) {
        Some(first) => seq![
            IssueV {
                path,
                code: "DUPLICATE_POINT_KEY"@,
                message: "point_key `"@ + out.point_key@ + "` 与 "@ + first
                    + " 重复（endpoint 内必须唯一）"@,
            },
        ],
        None => Seq::empty(),
    })
}

/// What is wrong with some outputs of a selection.
pub open spec fn outputs_issues(
    res: ResourceDescriptor,
    sel: ResourceSelection,
    base: Seq<char>,
    outputs: Seq<SelectedOutput>,
    seen: SeenKeys,
) -> Seq<IssueV>
    decreases outputs.len(),
{
    if outputs.len() == 0 {
        Seq::empty()
    } else {
        outputs_issues(res, sel, base, outputs.drop_last(), seen) + output_issues(
            res,
            sel,
            base,
            outputs.last(),
            seen_outputs(outputs.drop_last(), base, seen),
        )
    }
}

/// What is wrong with the mode of a task for a resource.
pub open spec fn mode_issues(
    d: DriverDescriptor,
    mode: TaskMode,
    res: ResourceDescriptor,
    sel: ResourceSelection,
    base: Seq<char>,
) -> Seq<IssueV> {
    (if mode_offered(res.modes@, mode) {
        Seq::empty()
    } else {
        seq![
            IssueV {
                path: base,
                code: "MODE_NOT_SUPPORTED"@,
                message: "resource `"@ + sel.resource_id@ + "` 不支持 "@ + mode_shown(mode)
                    + " 模式"@,
            },
        ]
    }) + (if mode_runs(d, mode) {
        Seq::empty()
    } else {
        seq![
            IssueV {
                path: base,
                code: "MODE_NOT_SUPPORTED"@,
                message: "driver capabilities 不支持 "@ + mode_shown(mode) + " 模式"@,
            },
        ]
    })
}

/// What is wrong with one selection of a task.
pub open spec fn selection_issues(
    d: DriverDescriptor,
    mode: TaskMode,
    sel: ResourceSelection,
    base: Seq<char>,
    seen: SeenKeys,
) -> Seq<IssueV> {
    match resource_from(d.resources@, sel.resource_id@, 0) {
        None => seq![
            IssueV {
                path: base + ".resource_id"@,
                code: "UNKNOWN_RESOURCE"@,
                message: "resource `"@ + sel.resource_id@ + "` 未声明"@,
            },
        ],
        Some(k) => {
            let res = d.resources@[k];
            mode_issues(d, mode, res, sel, base) + instance_issues(
                res.parameters.fields@,
                base + ".parameters"@,
                params_or_empty(sel.parameters@),
            ) + outputs_issues(res, sel, base, sel.outputs@, seen)
        },
    }
}

/// The keys after one selection. One of an unknown resource adds none.
pub open spec fn selection_seen(
    d: DriverDescriptor,
    sel: ResourceSelection,
    base: Seq<char>,
    seen: SeenKeys,
) -> SeenKeys {
    match resource_from(d.resources@, sel.resource_id@, 0) {
        None => seen,
        Some(_) => seen_outputs(sel.outputs@, base, seen),
    }
}

/// The path of a selection.
pub open spec fn selection_path(root: Seq<char>, i: int) -> Seq<char> {
    root + "["@ + decimal(i as nat) + "]"@
}

/// The keys after some selections of a task.
pub open spec fn selections_seen(
    d: DriverDescriptor,
    selections: Seq<ResourceSelection>,
    root: Seq<char>,
    seen: SeenKeys,
) -> SeenKeys
    decreases selections.len(),
{
    if selections.len() == 0 {
        seen
    } else {
        selection_seen(
            d,
            selections.last(),
            selection_path(root, selections.len() - 1),
            selections_seen(d, selections.drop_last(), root, seen),
        )
    }
}

/// What is wrong with some selections of a task.
pub open spec fn selections_issues(
    d: DriverDescriptor,
    mode: TaskMode,
    selections: Seq<ResourceSelection>,
    root: Seq<char>,
    seen: SeenKeys,
) -> Seq<IssueV>
    decreases selections.len(),
{
    if selections.len() == 0 {
        Seq::empty()
    } else {
        selections_issues(d, mode, selections.drop_last(), root, seen) + selection_issues(
            d,
            mode,
            selections.last(),
            selection_path(root, selections.len() - 1),
            selections_seen(d, selections.drop_last(), root, seen),
        )
    }
}

/// A task as far as its selections go: its mode, what it selects, and the path to that.
pub type TaskSelections<'a> = (TaskMode, &'a [ResourceSelection], &'a str);

/// What is wrong with one task. One whose selections have the wrong shape is not looked into.
pub open spec fn task_issues(d: DriverDescriptor, task: TaskSelections, seen: SeenKeys) -> Seq<
    IssueV,
> {
    match selections_fault(task.1@, Seq::empty(), 0) {
        Some(m) => seq![IssueV { path: task.2@, code: "INVALID_STRUCTURE"@, message: m }],
        None => selections_issues(d, task.0, task.1@, task.2@, seen),
    }
}

/// The keys after one task.
pub open spec fn task_seen(d: DriverDescriptor, task: TaskSelections, seen: SeenKeys) -> SeenKeys {
    match selections_fault(task.1@, Seq::empty(), 0) {
        Some(_) => seen,
        None => selections_seen(d, task.1@, task.2@, seen),
    }
}

/// The keys after some tasks.
pub open spec fn tasks_seen(d: DriverDescriptor, tasks: Seq<TaskSelections>) -> SeenKeys
    decreases tasks.len(),
{
    if tasks.len() == 0 {
        Seq::empty()
    } else {
        task_seen(d, tasks.last(), tasks_seen(d, tasks.drop_last()))
    }
}

/// Everything that is wrong with a set of tasks, task by task.
pub open spec fn task_set_issues(d: DriverDescriptor, tasks: Seq<TaskSelections>) -> Seq<IssueV>
    decreases tasks.len(),
{
    if tasks.len() == 0 {
        Seq::empty()
    } else {
        task_set_issues(d, tasks.drop_last()) + task_issues(
            d,
            tasks.last(),
            tasks_seen(d, tasks.drop_last()),
        )
    }
}

spec fn seen_view(seen: Seq<(String, String)>) -> SeenKeys {
    seen.map_values(|e: (String, String)| (e.0@, e.1@))
}

fn find_place<'a>(seen: &'a Vec<(String, String)>, key: &str) -> (r: Option<&'a str>)
    ensures
        match r {
            Some(p) => first_place(seen_view(seen@), key@) == Some(p@),
            None => first_place(seen_view(seen@), key@) is None,
        },
{
    let ghost all = seen_view(seen@);
    assert(all.subrange(0, all.len() as int) =~= all);
    let mut i: usize = 0;
    while i < seen.len()
        invariant
            i <= seen.len(),
            all == seen_view(seen@),
            first_place(all, key@) == first_place(all.subrange(i as int, all.len() as int), key@),
        decreases seen.len() - i,
    {
        let ghost rest = all.subrange(i as int, all.len() as int);
        assert(rest[0] == (seen@[i as int].0@, seen@[i as int].1@));
        if same_text(seen[i].0.as_str(), key) {
            return Some(seen[i].1.as_str());
        }
        assert(rest.drop_first() =~= all.subrange(i + 1, all.len() as int));
        i = i + 1;
    }
    None
}

fn new_issue(path: &str, code: &str, message: String) -> (r: ValidationIssue)
    ensures
        r@ == (IssueV { path: path@, code: code@, message: message@ }),
{
    ValidationIssue { path: path.to_owned(), code: code.to_owned(), message }
}

fn push_issue(issues: &mut Vec<ValidationIssue>, i: ValidationIssue)
    ensures
        issues_view(final(issues)@) == issues_view(old(issues)@) + seq![i@],
{
    issues.push(i);
    assert(issues_view(issues@) =~= issues_view(old(issues)@) + seq![i@]);
}

fn check_output(
    res: &ResourceDescriptor,
    sel: &ResourceSelection,
    base: &str,
    out: &SelectedOutput,
    seen: &mut Vec<(String, String)>,
    issues: &mut Vec<ValidationIssue>,
)
    ensures
        issues_view(final(issues)@) == issues_view(old(issues)@) + output_issues(
            *res,
            *sel,
            base@,
            *out,
            seen_view(old(seen)@),
        ),
        seen_view(final(seen)@) == seen_with(seen_view(old(seen)@), out.point_key@, base@),
{
    let path: String = cat2(base, ".outputs");
    let ghost start = issues_view(issues@);
    match find_output(&res.outputs, out.output.as_str()) {
        None => {
            push_issue(
                issues,
                new_issue(
                    path.as_str(),
                    "UNKNOWN_OUTPUT",
                    cat5(
                        "resource `",
                        sel.resource_id.as_str(),
                        "` 无 output `",
                        out.output.as_str(),
                        "`",
                    ),
                ),
            );
        },
        Some(k) => {
            if res.outputs[k].access == AccessMode::Write {
                push_issue(
                    issues,
                    new_issue(
                        path.as_str(),
                        "ACCESS_NOT_SUPPORTED",
                        cat5(
                            "resource `",
                            sel.resource_id.as_str(),
                            "` output `",
                            out.output.as_str(),
                            "` 只写，不可采集",
                        ),
                    ),
                );
            }
        },
    }
    let ghost middle = issues_view(issues@);
    let place: Option<String> = match find_place(seen, out.point_key.as_str()) {
        Some(first) => Some(first.to_owned()),
        None => None,
    };
    match place {
        Some(first) => {
            push_issue(
                issues,
                new_issue(
                    path.as_str(),
                    "DUPLICATE_POINT_KEY",
                    cat5(
                        "point_key `",
                        out.point_key.as_str(),
                        "` 与 ",
                        first.as_str(),
                        " 重复（endpoint 内必须唯一）",
                    ),
                ),
            );
        },
        None => {
            seen.push((out.point_key.clone(), base.to_owned()));
            assert(seen_view(seen@) =~= seen_view(old(seen)@).push((out.point_key@, base@)));
        },
    }
    assert(issues_view(issues@) =~= start + output_issues(
        *res,
        *sel,
        base@,
        *out,
        seen_view(old(seen)@),
    ));
}

fn mode_listed(modes: &Vec<TaskMode>, m: TaskMode) -> (r: bool)
    ensures
        r == mode_offered(modes@, m),
{
    if modes.is_empty() {
        return m == TaskMode::Poll;
    }
    let mut i: usize = 0;
    while i < modes.len()
        invariant
            i <= modes.len(),
            modes.len() > 0,
            forall|j: int| 0 <= j < i ==> #[trigger] modes@[j] != m,
        decreases modes.len() - i,
    {
        if modes[i] == m {
            assert(modes@.contains(m));
            return true;
        }
        i = i + 1;
    }
    false
}

/// The issues of parameters against a schema, where nothing said is an empty object.
pub fn check_parameters(schema: &SchemaDescriptor, root: &str, parameters: &Json) -> (r: Vec<
    ValidationIssue,
>)
    ensures
        issues_view(r@) == instance_issues(schema.fields@, root@, params_or_empty(parameters@)),
{
    broadcast use lemma_json_view;

    match parameters {
        Json::Null => {
            let empty: Json = Json::Object(Vec::new());
            assert(json_view(empty) == JsonV::Object(Seq::empty())) by {
                assert(json_view(empty)->Object_0 =~= Seq::<(Seq<char>, JsonV)>::empty());
            }
            schema.validate_instance(root, &empty)
        },
        _ => schema.validate_instance(root, parameters),
    }
}

fn check_mode(
    d: &DriverDescriptor,
    mode: TaskMode,
    res: &ResourceDescriptor,
    sel: &ResourceSelection,
    base: &str,
    issues: &mut Vec<ValidationIssue>,
)
    ensures
        issues_view(final(issues)@) == issues_view(old(issues)@) + mode_issues(
            *d,
            mode,
            *res,
            *sel,
            base@,
        ),
{
    let ghost start = issues_view(issues@);
    if !mode_listed(&res.modes, mode) {
        push_issue(
            issues,
            new_issue(
                base,
                "MODE_NOT_SUPPORTED",
                cat5(
                    "resource `",
                    sel.resource_id.as_str(),
                    "` 不支持 ",
                    show_mode(mode),
                    " 模式",
                ),
            ),
        );
    }
    let runs: bool = match mode {
        TaskMode::Poll => d.capabilities.poll,
        TaskMode::Subscribe => d.capabilities.subscribe,
    };
    if !runs {
        push_issue(
            issues,
            new_issue(
                base,
                "MODE_NOT_SUPPORTED",
                cat3("driver capabilities 不支持 ", show_mode(mode), " 模式"),
            ),
        );
    }
    assert(issues_view(issues@) =~= start + mode_issues(*d, mode, *res, *sel, base@));
}

fn check_outputs(
    res: &ResourceDescriptor,
    sel: &ResourceSelection,
    base: &str,
    seen: &mut Vec<(String, String)>,
    issues: &mut Vec<ValidationIssue>,
)
    ensures
        issues_view(final(issues)@) == issues_view(old(issues)@) + outputs_issues(
            *res,
            *sel,
            base@,
            sel.outputs@,
            seen_view(old(seen)@),
        ),
        seen_view(final(seen)@) == seen_outputs(sel.outputs@, base@, seen_view(old(seen)@)),
{
    let ghost before = issues_view(issues@);
    let ghost seen0 = seen_view(seen@);
    let mut j: usize = 0;
    assert(before + Seq::<IssueV>::empty() =~= before);
    while j < sel.outputs.len()
        invariant
            j <= sel.outputs.len(),
            issues_view(issues@) == before + outputs_issues(
                *res,
                *sel,
                base@,
                sel.outputs@.subrange(0, j as int),
                seen0,
            ),
            seen_view(seen@) == seen_outputs(
                sel.outputs@.subrange(0, j as int),
                base@,
                seen0,
            ),
        decreases sel.outputs.len() - j,
    {
        let ghost part = sel.outputs@.subrange(0, j + 1);
        assert(part.drop_last() =~= sel.outputs@.subrange(0, j as int));
        let ghost sofar = issues_view(issues@);
        check_output(res, sel, base, &sel.outputs[j], seen, issues);
        assert(issues_view(issues@) =~= before + outputs_issues(
            *res,
            *sel,
            base@,
            part,
            seen0,
        ));
        j = j + 1;
    }
    assert(sel.outputs@.subrange(0, sel.outputs@.len() as int) =~= sel.outputs@);
}

fn check_selection(
    d: &DriverDescriptor,
    mode: TaskMode,
    sel: &ResourceSelection,
    base: &str,
    seen: &mut Vec<(String, String)>,
    issues: &mut Vec<ValidationIssue>,
)
    ensures
        issues_view(final(issues)@) == issues_view(old(issues)@) + selection_issues(
            *d,
            mode,
            *sel,
            base@,
            seen_view(old(seen)@),
        ),
        seen_view(final(seen)@) == selection_seen(*d, *sel, base@, seen_view(old(seen)@)),
{
    let ghost start = issues_view(issues@);
    let ghost seen0 = seen_view(seen@);
    match find_resource(&d.resources, sel.resource_id.as_str()) {
        None => {
            let path: String = cat2(base, ".resource_id");
            push_issue(
                issues,
                new_issue(
                    path.as_str(),
                    "UNKNOWN_RESOURCE",
                    cat3("resource `", sel.resource_id.as_str(), "` 未声明"),
                ),
            );
        },
        Some(k) => {
            let res: &ResourceDescriptor = &d.resources[k];
            check_mode(d, mode, res, sel, base, issues);
            let path: String = cat2(base, ".parameters");
            let mut more: Vec<ValidationIssue> = check_parameters(
                &res.parameters,
                path.as_str(),
                &sel.parameters,
            );
            let ghost mid = issues_view(issues@);
            let ghost added = more@;
            issues.append(&mut more);
            assert(issues_view(issues@) =~= mid + issues_view(added));
            check_outputs(res, sel, base, seen, issues);
            assert(issues_view(issues@) =~= start + selection_issues(*d, mode, *sel, base@, seen0));
        },
    }
}

/// Everything that is wrong with the tasks of an endpoint taken together, task by task: the shape
/// of what they select, whether the driver has it and runs it, the parameters, and point keys that
/// two outputs of the endpoint share. Nothing where all of it fits.
pub fn validate_task_set_against(descriptor: &DriverDescriptor, tasks: &[TaskSelections]) -> (r: Vec<
    ValidationIssue,
>)
    ensures
        issues_view(r@) == task_set_issues(*descriptor, tasks@),
{
    let d: &DriverDescriptor = descriptor;
    let mut issues: Vec<ValidationIssue> = Vec::new();
    let mut seen: Vec<(String, String)> = Vec::new();
    assert(issues_view(issues@) =~= Seq::<IssueV>::empty());
    assert(seen_view(seen@) =~= Seq::<(Seq<char>, Seq<char>)>::empty());
    let mut t: usize = 0;
    while t < tasks.len()
        invariant
            t <= tasks.len(),
            issues_view(issues@) == task_set_issues(*d, tasks@.subrange(0, t as int)),
            seen_view(seen@) == tasks_seen(*d, tasks@.subrange(0, t as int)),
        decreases tasks.len() - t,
    {
        let ghost part = tasks@.subrange(0, t + 1);
        assert(part.drop_last() =~= tasks@.subrange(0, t as int));
        let ghost before = issues_view(issues@);
        let ghost seen0 = seen_view(seen@);
        let mode: TaskMode = tasks[t].0;
        let selections: &[ResourceSelection] = tasks[t].1;
        let root: &str = tasks[t].2;
        match validate_selections_structure(selections) {
            Err(m) => {
                push_issue(&mut issues, new_issue(root, "INVALID_STRUCTURE", m));
            },
            Ok(()) => {
                let mut i: usize = 0;
                assert(before + Seq::<IssueV>::empty() =~= before);
                while i < selections.len()
                    invariant
                        i <= selections.len(),
                        issues_view(issues@) == before + selections_issues(
                            *d,
                            mode,
                            selections@.subrange(0, i as int),
                            root@,
                            seen0,
                        ),
                        seen_view(seen@) == selections_seen(
                            *d,
                            selections@.subrange(0, i as int),
                            root@,
                            seen0,
                        ),
                    decreases selections.len() - i,
                {
                    let ghost some = selections@.subrange(0, i + 1);
                    assert(some.drop_last() =~= selections@.subrange(0, i as int));
                    let n: String = decimal_text(i as u64);
                    let base: String = cat4(root, "[", n.as_str(), "]");
                    check_selection(
                        d,
                        mode,
                        &selections[i],
                        base.as_str(),
                        &mut seen,
                        &mut issues,
                    );
                    assert(issues_view(issues@) =~= before + selections_issues(
                        *d,
                        mode,
                        some,
                        root@,
                        seen0,
                    ));
                    i = i + 1;
                }
                assert(selections@.subrange(0, selections@.len() as int) =~= selections@);
            },
        }
        assert(issues_view(issues@) =~= task_set_issues(*d, part));
        t = t + 1;
    }
    assert(tasks@.subrange(0, tasks@.len() as int) =~= tasks@);
    issues
}

/// Everything that is wrong with the selections of one task.
pub fn validate_selections_against(
    descriptor: &DriverDescriptor,
    mode: TaskMode,
    selections: &[ResourceSelection],
    root: &str,
) -> (r: Vec<ValidationIssue>)
    ensures
        issues_view(r@) == task_issues(*descriptor, (mode, selections, root), Seq::empty()),
{
    let one: [TaskSelections; 1] = [(mode, selections, root)];
    let r: Vec<ValidationIssue> = validate_task_set_against(descriptor, &one);
    proof {
        let tasks = one@;
        assert(tasks.len() == 1);
        assert(tasks.last() == (mode, selections, root));
        let none = tasks.drop_last();
        assert(none.len() == 0);
        assert(task_set_issues(*descriptor, none) == Seq::<IssueV>::empty());
        assert(tasks_seen(*descriptor, none) == Seq::<(Seq<char>, Seq<char>)>::empty());
        assert(task_set_issues(*descriptor, tasks) =~= task_issues(
            *descriptor,
            (mode, selections, root),
            Seq::empty(),
        ));
    }
    r
}

// ---------------------------------------------------------------------------
// What a set of tasks without issues promises
// ---------------------------------------------------------------------------

/// The keys that some outputs become points under.
pub open spec fn keys_of_outputs(outputs: Seq<SelectedOutput>) -> Seq<Seq<char>> {
    outputs.map_values(|o: SelectedOutput| o.point_key@)
}

/// The keys that some selections become points under.
pub open spec fn keys_of_selections(selections: Seq<ResourceSelection>) -> Seq<Seq<char>>
    decreases selections.len(),
{
    if selections.len() == 0 {
        Seq::empty()
    } else {
        keys_of_selections(selections.drop_last()) + keys_of_outputs(selections.last().outputs@)
    }
}

/// The keys that some tasks make points under.
pub open spec fn keys_of_tasks(tasks: Seq<TaskSelections>) -> Seq<Seq<char>>
    decreases tasks.len(),
{
    if tasks.len() == 0 {
        Seq::empty()
    } else {
        keys_of_tasks(tasks.drop_last()) + keys_of_selections(tasks.last().1@)
    }
}

spec fn keys_of_seen(seen: SeenKeys) -> Seq<Seq<char>> {
    seen.map_values(|e: (Seq<char>, Seq<char>)| e.0)
}

proof fn lemma_first_place(seen: SeenKeys, key: Seq<char>)
    ensures
        first_place(seen, key) is Some <==> keys_of_seen(seen).contains(key),
    decreases seen.len(),
{
    let keys = keys_of_seen(seen);
    if seen.len() > 0 {
        let rest = seen.drop_first();
        lemma_first_place(rest, key);
        assert(keys_of_seen(rest) =~= keys.drop_first());
        if seen[0].0 == key {
            assert(keys[0] == key);
        } else {
            if keys.contains(key) {
                let i = choose|i: int| 0 <= i < keys.len() && keys[i] == key;
                assert(keys_of_seen(rest)[i - 1] == key);
            }
            if keys_of_seen(rest).contains(key) {
                let i = choose|i: int|
                    0 <= i < keys_of_seen(rest).len() && keys_of_seen(rest)[i] == key;
                assert(keys[i + 1] == key);
            }
        }
    }
}

proof fn lemma_outputs_keys(
    res: ResourceDescriptor,
    sel: ResourceSelection,
    base: Seq<char>,
    outputs: Seq<SelectedOutput>,
    seen: SeenKeys,
)
    requires
        outputs_issues(res, sel, base, outputs, seen) == Seq::<IssueV>::empty(),
        keys_of_seen(seen).no_duplicates(),
    ensures
        keys_of_seen(seen_outputs(outputs, base, seen)) == keys_of_seen(seen) + keys_of_outputs(
            outputs,
        ),
        keys_of_seen(seen_outputs(outputs, base, seen)).no_duplicates(),
    decreases outputs.len(),
{
    if outputs.len() == 0 {
        assert(keys_of_seen(seen) + keys_of_outputs(outputs) =~= keys_of_seen(seen));
    } else {
        let front = outputs.drop_last();
        let a = outputs_issues(res, sel, base, front, seen);
        let s1 = seen_outputs(front, base, seen);
        let b = output_issues(res, sel, base, outputs.last(), s1);
        assert((a + b).len() == a.len() + b.len());
        assert(a =~= Seq::<IssueV>::empty());
        lemma_outputs_keys(res, sel, base, front, seen);
        let key = outputs.last().point_key@;
        lemma_first_place(s1, key);
        assert(b.len() == 0);
        assert(first_place(s1, key) is None);
        let s2 = s1.push((key, base));
        assert(seen_outputs(outputs, base, seen) == s2);
        assert(keys_of_seen(s2) =~= keys_of_seen(s1).push(key));
        assert(keys_of_seen(s1).push(key) =~= keys_of_seen(seen) + keys_of_outputs(outputs));
        let k1 = keys_of_seen(s1);
        assert forall|i: int, j: int|
            0 <= i < k1.push(key).len() && 0 <= j < k1.push(key).len() && i != j implies k1.push(
            key,
        )[i] != k1.push(key)[j] by {
            if i < k1.len() && j < k1.len() {
            } else if i < k1.len() {
                assert(k1.contains(k1[i]));
            } else {
                assert(k1.contains(k1[j]));
            }
        }
    }
}

proof fn lemma_selections_keys(
    d: DriverDescriptor,
    mode: TaskMode,
    selections: Seq<ResourceSelection>,
    root: Seq<char>,
    seen: SeenKeys,
)
    requires
        selections_issues(d, mode, selections, root, seen) == Seq::<IssueV>::empty(),
        keys_of_seen(seen).no_duplicates(),
    ensures
        keys_of_seen(selections_seen(d, selections, root, seen)) == keys_of_seen(seen)
            + keys_of_selections(selections),
        keys_of_seen(selections_seen(d, selections, root, seen)).no_duplicates(),
    decreases selections.len(),
{
    if selections.len() == 0 {
        assert(keys_of_seen(seen) + keys_of_selections(selections) =~= keys_of_seen(seen));
    } else {
        let front = selections.drop_last();
        let base = selection_path(root, selections.len() - 1);
        let s1 = selections_seen(d, front, root, seen);
        let a = selections_issues(d, mode, front, root, seen);
        let sel = selections.last();
        let b = selection_issues(d, mode, sel, base, s1);
        assert((a + b).len() == a.len() + b.len());
        assert(a =~= Seq::<IssueV>::empty());
        assert(b.len() == 0);
        lemma_selections_keys(d, mode, front, root, seen);
        match resource_from(d.resources@, sel.resource_id@, 0) {
            None => {},
            Some(k) => {
                let res = d.resources@[k];
                let m = mode_issues(d, mode, res, sel, base);
                let p = instance_issues(
                    res.parameters.fields@,
                    base + ".parameters"@,
                    params_or_empty(sel.parameters@),
                );
                let o = outputs_issues(res, sel, base, sel.outputs@, s1);
                assert((m + p + o).len() == m.len() + p.len() + o.len());
                assert(o =~= Seq::<IssueV>::empty());
                lemma_outputs_keys(res, sel, base, sel.outputs@, s1);
                assert(keys_of_seen(seen) + keys_of_selections(selections) =~= keys_of_seen(seen)
                    + keys_of_selections(front) + keys_of_outputs(sel.outputs@));
            },
        }
    }
}

proof fn lemma_tasks_keys(d: DriverDescriptor, tasks: Seq<TaskSelections>)
    requires
        task_set_issues(d, tasks) == Seq::<IssueV>::empty(),
    ensures
        keys_of_seen(tasks_seen(d, tasks)) == keys_of_tasks(tasks),
        keys_of_seen(tasks_seen(d, tasks)).no_duplicates(),
    decreases tasks.len(),
{
    if tasks.len() == 0 {
        assert(keys_of_seen(tasks_seen(d, tasks)) =~= keys_of_tasks(tasks));
    } else {
        let front = tasks.drop_last();
        let task = tasks.last();
        let s1 = tasks_seen(d, front);
        let a = task_set_issues(d, front);
        let b = task_issues(d, task, s1);
        assert((a + b).len() == a.len() + b.len());
        assert(a =~= Seq::<IssueV>::empty());
        assert(b =~= Seq::<IssueV>::empty());
        lemma_tasks_keys(d, front);
        assert(selections_fault(task.1@, Seq::empty(), 0) is None);
        lemma_selections_keys(d, task.0, task.1@, task.2@, s1);
    }
}

/// In a set of tasks without issues no two outputs of the endpoint become points under the same
/// key, whichever tasks they belong to.
pub proof fn point_keys_are_unique_in_an_endpoint(d: DriverDescriptor, tasks: Seq<TaskSelections>)
    requires
        task_set_issues(d, tasks) == Seq::<IssueV>::empty(),
    ensures
        keys_of_tasks(tasks).no_duplicates(),
{
    lemma_tasks_keys(d, tasks);
}

/// A resource is found by its id: the first that has it, and none only where no resource has it.
pub proof fn resources_are_found_by_id(resources: Seq<ResourceDescriptor>, id: Seq<char>, i: int)
    requires
        0 <= i <= resources.len(),
    ensures
        resource_from(resources, id, i) matches Some(k) ==> i <= k < resources.len()
            && resources[k].id@ == id && forall|j: int|
            i <= j < k ==> (#[trigger] resources[j]).id@ != id,
        resource_from(resources, id, i) is None <==> forall|j: int|
            i <= j < resources.len() ==> (#[trigger] resources[j]).id@ != id,
    decreases resources.len() - i,
{
    if i < resources.len() && resources[i].id@ != id {
        resources_are_found_by_id(resources, id, i + 1);
    }
}

/// An output is found by its id: the first that has it, and none only where no output has it.
pub proof fn outputs_are_found_by_id(outputs: Seq<OutputDescriptor>, id: Seq<char>, i: int)
    requires
        0 <= i <= outputs.len(),
    ensures
        output_from(outputs, id, i) matches Some(k) ==> i <= k < outputs.len() && outputs[k].id@
            == id && forall|j: int| i <= j < k ==> (#[trigger] outputs[j]).id@ != id,
        output_from(outputs, id, i) is None <==> forall|j: int|
            i <= j < outputs.len() ==> (#[trigger] outputs[j]).id@ != id,
    decreases outputs.len() - i,
{
    if i < outputs.len() && outputs[i].id@ != id {
        outputs_are_found_by_id(outputs, id, i + 1);
    }
}

/// A field is found by its key: the first that has it, and none only where no field has it.
pub proof fn fields_are_found_by_key(fields: Seq<FieldDescriptor>, key: Seq<char>, i: int)
    requires
        0 <= i <= fields.len(),
    ensures
        field_from(fields, key, i) matches Some(k) ==> i <= k < fields.len() && fields[k].key@
            == key && forall|j: int| i <= j < k ==> (#[trigger] fields[j]).key@ != key,
        field_from(fields, key, i) is None <==> forall|j: int|
            i <= j < fields.len() ==> (#[trigger] fields[j]).key@ != key,
    decreases fields.len() - i,
{
    if i < fields.len() && fields[i].key@ != key {
        fields_are_found_by_key(fields, key, i + 1);
    }
}

/// An option is mapped to the type that stands beside its first entry, and to none only where it
/// has no entry.
pub proof fn options_are_mapped_by_name(
    mapping: Seq<(String, DataType)>,
    key: Seq<char>,
    i: int,
)
    requires
        0 <= i <= mapping.len(),
    ensures
        mapped_from(mapping, key, i) is None <==> forall|j: int|
            i <= j < mapping.len() ==> (#[trigger] mapping[j]).0@ != key,
        forall|k: int|
            i <= k < mapping.len() && (#[trigger] mapping[k]).0@ == key && (forall|j: int|
                i <= j < k ==> (#[trigger] mapping[j]).0@ != key) ==> mapped_from(mapping, key, i)
                == Some(mapping[k].1),
    decreases mapping.len() - i,
{
    if i < mapping.len() && mapping[i].0@ != key {
        options_are_mapped_by_name(mapping, key, i + 1);
    }
}

/// The type of an output: the one that is written down, the one that the text under a parameter is
/// mapped to, or none where the driver decides.
pub proof fn outputs_have_the_types_that_are_written_down(
    t: DataType,
    parameter: String,
    mapping: Vec<(String, DataType)>,
    params: Seq<(Seq<char>, JsonV)>,
    v: JsonV,
)
    ensures
        resolved_type(OutputTypeSpec::Fixed { data_type: t }, params) == Some(t),
        resolved_type(OutputTypeSpec::DriverResolved, params) is None,
        object_get(params, parameter@) == Some(v) && v is String ==> resolved_type(
            OutputTypeSpec::FromParameter { parameter, mapping },
            params,
        ) == mapped_from(mapping@, v->String_0, 0),
        object_get(params, parameter@) == Some(v) && !(v is String) ==> resolved_type(
            OutputTypeSpec::FromParameter { parameter, mapping },
            params,
        ) is None,
        object_get(params, parameter@) is None ==> resolved_type(
            OutputTypeSpec::FromParameter { parameter, mapping },
            params,
        ) is None,
{
}

/// Whether the type of an output can be told: by itself, or by a parameter that must be given, is
/// one of some options, and has a type for each option and for nothing else.
pub open spec fn output_type_is_clear(fields: Seq<FieldDescriptor>, o: OutputDescriptor) -> bool {
    o.type_spec matches OutputTypeSpec::FromParameter { parameter, mapping } ==> {
        let k = field_from(fields, parameter@, 0);
        &&& k is Some
        &&& fields[k->0].field_type is Enum
        &&& fields[k->0].required
        &&& forall|i: int|
            0 <= i < options_of(fields[k->0]).len() ==> mapped_from(
                mapping@,
                (#[trigger] options_of(fields[k->0])[i])@,
                0,
            ) is Some
        &&& forall|i: int|
            0 <= i < mapping@.len() ==> texts_hold(
                options_of(fields[k->0]),
                (#[trigger] mapping@[i]).0@,
            )
    }
}

proof fn lemma_unmapped(options: Seq<String>, mapping: Seq<(String, DataType)>, i: int)
    requires
        0 <= i <= options.len(),
    ensures
        unmapped_from(options, mapping, i) is None <==> forall|j: int|
            i <= j < options.len() ==> mapped_from(mapping, (#[trigger] options[j])@, 0) is Some,
    decreases options.len() - i,
{
    if i < options.len() {
        lemma_unmapped(options, mapping, i + 1);
    }
}

proof fn lemma_surplus(options: Seq<String>, mapping: Seq<(String, DataType)>, i: int)
    requires
        0 <= i <= mapping.len(),
    ensures
        surplus_from(options, mapping, i) is None <==> forall|j: int|
            i <= j < mapping.len() ==> texts_hold(options, (#[trigger] mapping[j]).0@),
    decreases mapping.len() - i,
{
    if i < mapping.len() {
        lemma_surplus(options, mapping, i + 1);
    }
}

proof fn lemma_output_type(id: Seq<char>, fields: Seq<FieldDescriptor>, o: OutputDescriptor)
    ensures
        output_type_defect(id, fields, o) is None <==> output_type_is_clear(fields, o),
{
    match o.type_spec {
        OutputTypeSpec::FromParameter { parameter, mapping } => {
            match field_from(fields, parameter@, 0) {
                Some(k) => {
                    lemma_unmapped(options_of(fields[k]), mapping@, 0);
                    lemma_surplus(options_of(fields[k]), mapping@, 0);
                },
                None => {},
            }
        },
        _ => {},
    }
}

proof fn lemma_output_types(
    id: Seq<char>,
    fields: Seq<FieldDescriptor>,
    outputs: Seq<OutputDescriptor>,
    i: int,
)
    requires
        0 <= i <= outputs.len(),
    ensures
        output_types_defect(id, fields, outputs, i) is None <==> forall|j: int|
            i <= j < outputs.len() ==> output_type_is_clear(fields, #[trigger] outputs[j]),
    decreases outputs.len() - i,
{
    if i < outputs.len() {
        lemma_output_type(id, fields, outputs[i]);
        lemma_output_types(id, fields, outputs, i + 1);
    }
}

/// Whether an output has an id of its own among those before it.
pub open spec fn output_is_new(outputs: Seq<OutputDescriptor>, j: int) -> bool {
    !blank(outputs[j].id@) && forall|k: int| 0 <= k < j ==> (#[trigger] outputs[k]).id@
        != outputs[j].id@
}

proof fn lemma_output_ids(id: Seq<char>, outputs: Seq<OutputDescriptor>, i: int)
    requires
        0 <= i <= outputs.len(),
    ensures
        output_ids_defect(id, outputs, i) is None <==> forall|j: int|
            i <= j < outputs.len() ==> #[trigger] output_is_new(outputs, j),
    decreases outputs.len() - i,
{
    if i < outputs.len() {
        lemma_output_ids(id, outputs, i + 1);
        let part = outputs.subrange(0, i);
        assert(has_output(part, outputs[i].id@) <==> exists|k: int|
            0 <= k < i && (#[trigger] outputs[k]).id@ == outputs[i].id@) by {
            if has_output(part, outputs[i].id@) {
                let k = choose|k: int|
                    0 <= k < part.len() && (#[trigger] part[k]).id@ == outputs[i].id@;
                assert(outputs[k].id@ == outputs[i].id@);
            }
            if exists|k: int| 0 <= k < i && (#[trigger] outputs[k]).id@ == outputs[i].id@ {
                let k = choose|k: int|
                    0 <= k < i && (#[trigger] outputs[k]).id@ == outputs[i].id@;
                assert(part[k].id@ == outputs[i].id@);
            }
        }
        assert(output_is_new(outputs, i) <==> !blank(outputs[i].id@) && !has_output(
            part,
            outputs[i].id@,
        ));
        if output_ids_defect(id, outputs, i) is None {
            assert forall|j: int| i <= j < outputs.len() implies #[trigger] output_is_new(
                outputs,
                j,
            ) by {}
        }
        if forall|j: int| i <= j < outputs.len() ==> #[trigger] output_is_new(outputs, j) {
            assert(output_is_new(outputs, i));
        }
    }
}

/// A resource makes sense exactly where it has an id, parameters that make sense and hold no
/// secret, and outputs, at least one, with ids of their own and types that can be told.
pub proof fn resources_make_sense_when_their_parts_do(r: ResourceDescriptor)
    ensures
        resource_defect(r) is None <==> (!blank(r.id@) && definition_defect(
            r.parameters.fields@,
        ) is None && (forall|j: int|
            0 <= j < r.parameters.fields@.len() ==> !((#[trigger] r.parameters.fields@[j]).field_type
                is Secret)) && r.outputs@.len() > 0 && (forall|j: int|
            0 <= j < r.outputs@.len() ==> #[trigger] output_is_new(r.outputs@, j)) && (forall|j: int|
            0 <= j < r.outputs@.len() ==> output_type_is_clear(
                r.parameters.fields@,
                #[trigger] r.outputs@[j],
            ))),
{
    lemma_output_ids(r.id@, r.outputs@, 0);
    lemma_output_types(r.id@, r.parameters.fields@, r.outputs@, 0);
    let ids = forall|j: int|
        0 <= j < r.outputs@.len() ==> #[trigger] output_is_new(r.outputs@, j);
    let types = forall|j: int|
        0 <= j < r.outputs@.len() ==> output_type_is_clear(
            r.parameters.fields@,
            #[trigger] r.outputs@[j],
        );
    let open = forall|j: int|
        0 <= j < r.parameters.fields@.len() ==> !((#[trigger] r.parameters.fields@[j]).field_type
            is Secret);
    assert(ids <==> output_ids_defect(r.id@, r.outputs@, 0) is None);
    assert(types <==> output_types_defect(r.id@, r.parameters.fields@, r.outputs@, 0) is None);
    assert(open <==> !has_secret(r.parameters.fields@));
}

/// A resource that says nothing of modes is polled; one that does offers just those.
pub proof fn modes_are_offered_as_declared(modes: Seq<TaskMode>, m: TaskMode)
    ensures
        modes.len() == 0 ==> mode_offered(modes, TaskMode::Poll) && !mode_offered(
            modes,
            TaskMode::Subscribe,
        ),
        modes.len() > 0 ==> (mode_offered(modes, m) <==> exists|i: int|
            0 <= i < modes.len() && #[trigger] modes[i] == m),
{
}

/// A mode is complained of where the resource does not offer it, and where the driver does not
/// have it: polling and subscribing each by its own capability.
pub proof fn modes_need_the_resource_and_the_driver(
    d: DriverDescriptor,
    res: ResourceDescriptor,
    sel: ResourceSelection,
    base: Seq<char>,
)
    ensures
        mode_issues(d, TaskMode::Poll, res, sel, base).len() == 0 <==> d.capabilities.poll
            && mode_offered(res.modes@, TaskMode::Poll),
        mode_issues(d, TaskMode::Subscribe, res, sel, base).len() == 0 <==> d.capabilities.subscribe
            && mode_offered(res.modes@, TaskMode::Subscribe),
        forall|m: TaskMode, i: int|
            0 <= i < mode_issues(d, m, res, sel, base).len() ==> (#[trigger] mode_issues(
                d,
                m,
                res,
                sel,
                base,
            )[i]).code == "MODE_NOT_SUPPORTED"@ && mode_issues(d, m, res, sel, base)[i].path
                == base,
{
}

/// An output is selected without complaint exactly where the resource has it, it can be read, and
/// its key is new.
pub proof fn outputs_are_selected_when_they_can_be_read(
    res: ResourceDescriptor,
    sel: ResourceSelection,
    base: Seq<char>,
    out: SelectedOutput,
    seen: SeenKeys,
)
    ensures
        output_issues(res, sel, base, out, seen).len() == 0 <==> (output_from(
            res.outputs@,
            out.output@,
            0,
        ) matches Some(k) && (res.outputs@[k].access is Read || res.outputs@[k].access is ReadWrite)
            && forall|i: int| 0 <= i < seen.len() ==> (#[trigger] seen[i]).0 != out.point_key@),
        output_from(res.outputs@, out.output@, 0) is None ==> output_issues(
            res,
            sel,
            base,
            out,
            seen,
        ).len() > 0 && output_issues(res, sel, base, out, seen)[0].code == "UNKNOWN_OUTPUT"@,
        output_from(res.outputs@, out.output@, 0) matches Some(k) && res.outputs@[k].access is Write
            ==> output_issues(res, sel, base, out, seen).len() > 0 && output_issues(
            res,
            sel,
            base,
            out,
            seen,
        )[0].code == "ACCESS_NOT_SUPPORTED"@,
        (exists|i: int| 0 <= i < seen.len() && (#[trigger] seen[i]).0 == out.point_key@)
            ==> output_issues(res, sel, base, out, seen).len() > 0 && output_issues(
            res,
            sel,
            base,
            out,
            seen,
        ).last().code == "DUPLICATE_POINT_KEY"@,
        forall|i: int|
            0 <= i < output_issues(res, sel, base, out, seen).len() ==> (#[trigger] output_issues(
                res,
                sel,
                base,
                out,
                seen,
            )[i]).path == base + ".outputs"@,
{
    keys_are_seen_when_they_were_there(seen, out.point_key@);
}

/// A key has a place exactly where it was seen.
pub proof fn keys_are_seen_when_they_were_there(seen: SeenKeys, key: Seq<char>)
    ensures
        first_place(seen, key) is None <==> forall|i: int|
            0 <= i < seen.len() ==> (#[trigger] seen[i]).0 != key,
    decreases seen.len(),
{
    if seen.len() > 0 {
        let rest = seen.drop_first();
        keys_are_seen_when_they_were_there(rest, key);
        if seen[0].0 != key {
            if first_place(rest, key) is None {
                assert forall|i: int| 0 <= i < seen.len() implies (#[trigger] seen[i]).0 != key by {
                    if i > 0 {
                        assert(rest[i - 1] == seen[i]);
                    }
                }
            } else {
                let i = choose|i: int| 0 <= i < rest.len() && (#[trigger] rest[i]).0 == key;
                assert(seen[i + 1] == rest[i]);
            }
        }
    }
}

/// The place of a key is the one at which it was seen first.
pub proof fn keys_have_the_place_where_they_were_seen_first(
    seen: SeenKeys,
    key: Seq<char>,
    k: int,
)
    requires
        0 <= k < seen.len(),
        seen[k].0 == key,
        forall|j: int| 0 <= j < k ==> (#[trigger] seen[j]).0 != key,
    ensures
        first_place(seen, key) == Some(seen[k].1),
    decreases k,
{
    if k > 0 {
        let rest = seen.drop_first();
        assert(seen[0].0 != key);
        assert(rest[k - 1] == seen[k]);
        assert forall|j: int| 0 <= j < k - 1 implies (#[trigger] rest[j]).0 != key by {
            assert(seen[j + 1] == rest[j]);
        }
        keys_have_the_place_where_they_were_seen_first(rest, key, k - 1);
    }
}

/// A selection is complained of exactly where its resource is not declared, its mode cannot be had,
/// its parameters do not fit, or one of its outputs is complained of.
pub proof fn selections_are_taken_when_all_of_it_can_be_had(
    d: DriverDescriptor,
    mode: TaskMode,
    sel: ResourceSelection,
    base: Seq<char>,
    seen: SeenKeys,
)
    ensures
        resource_from(d.resources@, sel.resource_id@, 0) is None ==> selection_issues(
            d,
            mode,
            sel,
            base,
            seen,
        ).len() == 1 && selection_issues(d, mode, sel, base, seen)[0].code == "UNKNOWN_RESOURCE"@
            && selection_issues(d, mode, sel, base, seen)[0].path == base + ".resource_id"@,
        resource_from(d.resources@, sel.resource_id@, 0) matches Some(k) ==> (selection_issues(
            d,
            mode,
            sel,
            base,
            seen,
        ).len() == 0 <==> (mode_issues(d, mode, d.resources@[k], sel, base).len() == 0
            && instance_issues(
            d.resources@[k].parameters.fields@,
            base + ".parameters"@,
            if sel.parameters@ is Null {
                JsonV::Object(Seq::empty())
            } else {
                sel.parameters@
            },
        ).len() == 0 && outputs_issues(d.resources@[k], sel, base, sel.outputs@, seen).len() == 0)),
{
}

/// The outputs of a selection are looked at one after the other, each against the keys that were
/// seen before it.
pub proof fn outputs_are_looked_at_one_by_one(
    res: ResourceDescriptor,
    sel: ResourceSelection,
    base: Seq<char>,
    outputs: Seq<SelectedOutput>,
    out: SelectedOutput,
    seen: SeenKeys,
)
    ensures
        outputs_issues(res, sel, base, Seq::empty(), seen).len() == 0,
        outputs_issues(res, sel, base, outputs.push(out), seen) == outputs_issues(
            res,
            sel,
            base,
            outputs,
            seen,
        ) + output_issues(res, sel, base, out, seen_outputs(outputs, base, seen)),
        seen_outputs(Seq::empty(), base, seen) == seen,
        first_place(seen_outputs(outputs.push(out), base, seen), out.point_key@) is Some,
{
    assert(outputs.push(out).drop_last() =~= outputs);
    let before = seen_outputs(outputs, base, seen);
    let pushed = before.push((out.point_key@, base));
    keys_are_seen_when_they_were_there(pushed, out.point_key@);
    assert(pushed[before.len() as int].0 == out.point_key@);
}

/// A task whose selections have no shape is answered with that alone; any other is looked at
/// selection by selection.
pub proof fn tasks_are_looked_at_when_they_have_a_shape(
    d: DriverDescriptor,
    task: TaskSelections,
    seen: SeenKeys,
)
    ensures
        selections_fault(task.1@, Seq::empty(), 0) matches Some(m) ==> {
            &&& task_issues(d, task, seen).len() == 1
            &&& task_issues(d, task, seen)[0].code == "INVALID_STRUCTURE"@
            &&& task_issues(d, task, seen)[0].message == m
            &&& task_issues(d, task, seen)[0].path == task.2@
        },
        selections_fault(task.1@, Seq::empty(), 0) is None ==> task_issues(d, task, seen)
            == selections_issues(d, task.0, task.1@, task.2@, seen),
{
}

/// The tasks of a set, and the selections of a task, are looked at one after the other.
pub proof fn tasks_are_looked_at_one_by_one(
    d: DriverDescriptor,
    tasks: Seq<TaskSelections>,
    t: TaskSelections,
    mode: TaskMode,
    selections: Seq<ResourceSelection>,
    sel: ResourceSelection,
    root: Seq<char>,
    seen: SeenKeys,
)
    ensures
        task_set_issues(d, Seq::empty()).len() == 0,
        task_set_issues(d, tasks.push(t)) == task_set_issues(d, tasks) + task_issues(
            d,
            t,
            tasks_seen(d, tasks),
        ),
        selections_issues(d, mode, Seq::empty(), root, seen).len() == 0,
        selections_issues(d, mode, selections.push(sel), root, seen) == selections_issues(
            d,
            mode,
            selections,
            root,
            seen,
        ) + selection_issues(
            d,
            mode,
            sel,
            root + "["@ + decimal(selections.len()) + "]"@,
            selections_seen(d, selections, root, seen),
        ),
{
    assert(tasks.push(t).drop_last() =~= tasks);
    assert(selections.push(sel).drop_last() =~= selections);
}

/// Whether a selection is whole: it names a resource and outputs, each under a name and a key, and
/// its parameters are named.
pub open spec fn selection_is_whole(sel: ResourceSelection) -> bool {
    &&& !blank(sel.resource_id@)
    &&& sel.outputs@.len() > 0
    &&& sel.parameters@ is Object || sel.parameters@ is Null
    &&& forall|j: int|
        0 <= j < sel.outputs@.len() ==> !blank((#[trigger] sel.outputs@[j]).output@) && !blank(
            sel.outputs@[j].point_key@,
        )
}

/// Whether the key of an output was not seen and stands at no output before it.
pub open spec fn key_is_new(
    selections: Seq<ResourceSelection>,
    seen: Seq<String>,
    i: int,
    a: int,
    b: int,
) -> bool {
    &&& !texts_hold(seen, selections[a].outputs@[b].point_key@)
    &&& forall|c: int, e: int|
        i <= c < selections.len() && 0 <= e < selections[c].outputs@.len() && (c < a || (c == a && e
            < b)) ==> (#[trigger] selections[c].outputs@[e]).point_key@
            != selections[a].outputs@[b].point_key@
}

proof fn lemma_outputs_fault(outputs: Seq<SelectedOutput>, seen: Seq<String>, j: int)
    requires
        0 <= j <= outputs.len(),
    ensures
        outputs_fault(outputs, seen, j) is None <==> ((forall|k: int|
            j <= k < outputs.len() ==> !blank((#[trigger] outputs[k]).output@) && !blank(
                outputs[k].point_key@,
            ) && !texts_hold(seen, outputs[k].point_key@)) && forall|k: int, m: int|
            j <= k < m < outputs.len() ==> (#[trigger] outputs[k]).point_key@ != (
            #[trigger] outputs[m]).point_key@),
    decreases outputs.len() - j,
{
    if j < outputs.len() {
        let more = seen.push(outputs[j].point_key);
        lemma_outputs_fault(outputs, more, j + 1);
        assert forall|x: Seq<char>| #[trigger] texts_hold(more, x) <==> texts_hold(seen, x) || x
            == outputs[j].point_key@ by {
            lemma_texts_pushed(seen, outputs[j].point_key, x);
        }
    }
}

proof fn lemma_texts_pushed(seen: Seq<String>, k: String, x: Seq<char>)
    ensures
        texts_hold(seen.push(k), x) <==> texts_hold(seen, x) || x == k@,
{
    let more = seen.push(k);
    if texts_hold(seen, x) {
        let i = choose|i: int| 0 <= i < seen.len() && (#[trigger] seen[i])@ == x;
        assert(more[i]@ == x);
    }
    if x == k@ {
        assert(more[seen.len() as int]@ == x);
    }
    if texts_hold(more, x) {
        let i = choose|i: int| 0 <= i < more.len() && (#[trigger] more[i])@ == x;
        if i < seen.len() {
            assert(seen[i]@ == x);
        }
    }
}

proof fn lemma_texts_added(seen: Seq<String>, outputs: Seq<SelectedOutput>, x: Seq<char>)
    ensures
        texts_hold(seen + output_keys(outputs), x) <==> texts_hold(seen, x) || exists|b: int|
            0 <= b < outputs.len() && (#[trigger] outputs[b]).point_key@ == x,
{
    let keys = output_keys(outputs);
    let more = seen + keys;
    if texts_hold(seen, x) {
        let i = choose|i: int| 0 <= i < seen.len() && (#[trigger] seen[i])@ == x;
        assert(more[i]@ == x);
    }
    if exists|b: int| 0 <= b < outputs.len() && (#[trigger] outputs[b]).point_key@ == x {
        let b = choose|b: int| 0 <= b < outputs.len() && (#[trigger] outputs[b]).point_key@ == x;
        assert(more[seen.len() + b]@ == x);
    }
    if texts_hold(more, x) {
        let i = choose|i: int| 0 <= i < more.len() && (#[trigger] more[i])@ == x;
        if i < seen.len() {
            assert(seen[i]@ == x);
        } else {
            assert(outputs[i - seen.len()].point_key@ == x);
        }
    }
}

/// Selections have a shape exactly where each is whole and each output has a key that no output
/// before it has, in the same selection or in another.
pub proof fn selections_have_a_shape_when_they_are_whole(
    selections: Seq<ResourceSelection>,
    seen: Seq<String>,
    i: int,
)
    requires
        0 <= i <= selections.len(),
    ensures
        selections_fault(selections, seen, i) is None <==> ((forall|a: int|
            i <= a < selections.len() ==> selection_is_whole(#[trigger] selections[a])) && (forall|
            a: int,
            b: int,
        |
            i <= a < selections.len() && 0 <= b < selections[a].outputs@.len()
                ==> #[trigger] key_is_new(selections, seen, i, a, b))),
    decreases selections.len() - i,
{
    if i < selections.len() {
        let sel = selections[i];
        let outs = sel.outputs@;
        let more = seen + output_keys(outs);
        lemma_outputs_fault(outs, seen, 0);
        selections_have_a_shape_when_they_are_whole(selections, more, i + 1);
        let whole = forall|a: int|
            i <= a < selections.len() ==> selection_is_whole(#[trigger] selections[a]);
        let fresh = forall|a: int, b: int|
            i <= a < selections.len() && 0 <= b < selections[a].outputs@.len()
                ==> #[trigger] key_is_new(selections, seen, i, a, b);
        if selections_fault(selections, seen, i) is None {
            assert(selection_is_whole(selections[i]));
            assert(whole);
            assert forall|a: int, b: int|
                i <= a < selections.len() && 0 <= b < selections[a].outputs@.len() implies
                #[trigger] key_is_new(selections, seen, i, a, b) by {
                let x = selections[a].outputs@[b].point_key@;
                if a == i {
                    assert(outs[b].point_key@ == x);
                    assert forall|c: int, e: int|
                        i <= c < selections.len() && 0 <= e < selections[c].outputs@.len() && (c < a
                            || (c == a && e < b)) implies (
                    #[trigger] selections[c].outputs@[e]).point_key@ != x by {
                        assert(outs[e].point_key@ != outs[b].point_key@);
                    }
                } else {
                    assert(key_is_new(selections, more, i + 1, a, b));
                    lemma_texts_added(seen, outs, x);
                    assert forall|c: int, e: int|
                        i <= c < selections.len() && 0 <= e < selections[c].outputs@.len() && (c < a
                            || (c == a && e < b)) implies (
                    #[trigger] selections[c].outputs@[e]).point_key@ != x by {
                        if c == i {
                            assert(outs[e].point_key@ != x);
                        }
                    }
                }
            }
        }
        if whole && fresh {
            assert(selection_is_whole(selections[i]));
            assert forall|k: int| 0 <= k < outs.len() implies !blank((#[trigger] outs[k]).output@)
                && !blank(outs[k].point_key@) && !texts_hold(seen, outs[k].point_key@) by {
                assert(key_is_new(selections, seen, i, i, k));
            }
            assert forall|k: int, m: int| 0 <= k < m < outs.len() implies (
            #[trigger] outs[k]).point_key@ != (#[trigger] outs[m]).point_key@ by {
                assert(key_is_new(selections, seen, i, i, m));
                assert(selections[i].outputs@[k].point_key@ != selections[i].outputs@[m].point_key@);
            }
            assert forall|a: int, b: int|
                i + 1 <= a < selections.len() && 0 <= b < selections[a].outputs@.len() implies
                #[trigger] key_is_new(selections, more, i + 1, a, b) by {
                assert(key_is_new(selections, seen, i, a, b));
                let x = selections[a].outputs@[b].point_key@;
                lemma_texts_added(seen, outs, x);
                assert forall|e: int| 0 <= e < outs.len() implies (#[trigger] outs[e]).point_key@
                    != x by {
                    assert(selections[i].outputs@[e].point_key@ != x);
                }
            }
        }
    }
}

/// A key that was seen stays with its first place; a new one is seen from then on.
pub proof fn seen_keys_keep_their_first_place(
    seen: SeenKeys,
    key: Seq<char>,
    base: Seq<char>,
)
    ensures
        first_place(seen, key) is Some ==> seen_with(seen, key, base) == seen,
        first_place(seen, key) is None ==> seen_with(seen, key, base) == seen.push((key, base)),
{
}

/// The keys of a task that has a shape are seen by the tasks behind it; those of one that has none
/// are not.
pub proof fn keys_are_seen_task_by_task(
    d: DriverDescriptor,
    tasks: Seq<TaskSelections>,
    t: TaskSelections,
)
    ensures
        tasks_seen(d, Seq::empty()).len() == 0,
        selections_fault(t.1@, Seq::empty(), 0) is Some ==> tasks_seen(d, tasks.push(t))
            == tasks_seen(d, tasks),
        selections_fault(t.1@, Seq::empty(), 0) is None ==> tasks_seen(d, tasks.push(t))
            == selections_seen(d, t.1@, t.2@, tasks_seen(d, tasks)),
{
    assert(tasks.push(t).drop_last() =~= tasks);
}

} // verus!
