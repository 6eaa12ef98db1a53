//! What a driver can do, and whether a write or a command may be handed to it.
use vstd::prelude::*;

use crate::descriptor::DriverDescriptor;
use crate::json::{
    entries_view, json_view, lemma_json_view, Json, JsonV,
};
use crate::resource::{
    check_parameters, find_output, find_resource, output_from, params_or_empty, resolved_type,
    resource_from, AccessMode, OutputDescriptor, ResourceDescriptor,
};
use crate::schema::{
    definition_defect, first_of, instance_issues, issues_view, IssueV, LocalizedText,
    SchemaDescriptor, ValidationIssue,
};
use crate::text::{blank, cat2, cat3, cat4, cat5, is_blank, same_text};
use crate::types::{value_type, DataType, TypedValue, ValueV};

verus! {

// ---------------------------------------------------------------------------
// Types
// ---------------------------------------------------------------------------

/// What a driver can do at run time.
#[derive(Debug, Clone, Copy, PartialEq, Eq, Structural)]
pub struct DriverCapabilities {
    pub poll: bool,
    pub subscribe: bool,
    pub write: bool,
    pub method: bool,
    pub events: bool,
}

/// A way to select the resources of a driver.
#[derive(Debug, Clone, Copy, PartialEq, Eq, Hash, Structural)]
pub enum ResourceSelectionMethod {
    Manual,
    Browse,
    Import,
}

/// How much a command puts at stake.
#[derive(Debug, Clone, Copy, PartialEq, Eq, Structural)]
pub enum RiskLevel {
    Low,
    Medium,
    High,
}

/// A command of a driver.
#[derive(Debug, Clone, PartialEq)]
pub struct CommandDescriptor {
    pub id: String,
    pub label: LocalizedText,
    pub description: Option<String>,
    pub input_schema: SchemaDescriptor,
    pub result_schema: SchemaDescriptor,
    pub risk: RiskLevel,
    pub confirmation: bool,
    pub timeout_ms: Option<u64>,
    pub idempotent: bool,
}

/// The commands of a driver.
#[derive(Debug, Clone, PartialEq)]
pub struct ControlCatalog {
    pub commands: Vec<CommandDescriptor>,
}

/// What is written to: an output of a resource under some parameters.
#[derive(Debug, Clone, PartialEq)]
pub struct WriteTarget {
    pub resource_id: String,
    pub parameters: Json,
    pub output: String,
}

/// A write: what to write where, and the value that has to be there before.
#[derive(Debug, Clone, PartialEq)]
pub struct ControlWrite {
    pub target: WriteTarget,
    pub value: TypedValue,
    pub expected: Option<TypedValue>,
}

/// Why a write or a command is not handed to a driver.
#[derive(Debug, Clone, PartialEq)]
pub enum ControlGateError {
    WriteNotSupported,
    MethodNotSupported,
    UnknownResource(String),
    UnknownOutput(String, String),
    OutputNotWritable(String, String),
    CommandNotDeclared(String),
    InvalidCommandInput(String, String),
    InvalidCommandResult(String, String),
    ValueTypeMismatch(String),
}

/// The risk of a command of which nothing else is said.
pub fn default_risk() -> (r: RiskLevel)
    ensures
        r == RiskLevel::Low,
{
    RiskLevel::Low
}

impl Default for DriverCapabilities {
    fn default() -> (r: DriverCapabilities)
        ensures
            r == (DriverCapabilities {
                poll: false,
                subscribe: false,
                write: false,
                method: false,
                events: false,
            }),
    {
        DriverCapabilities {
            poll: false,
            subscribe: false,
            write: false,
            method: false,
            events: false,
        }
    }
}

impl Default for ControlCatalog {
    fn default() -> (r: ControlCatalog)
        ensures
            r.commands@ == Seq::<CommandDescriptor>::empty(),
    {
        ControlCatalog { commands: Vec::new() }
    }
}

impl WriteTarget {
    /// What an audit calls the target: the resource and the output.
    pub fn audit_id(&self) -> (r: String)
        ensures
            r@ == self.resource_id@ + "/"@ + self.output@,
    {
        cat3(self.resource_id.as_str(), "/", self.output.as_str())
    }
}

/// How a refusal reads.
pub open spec fn gate_error_text(e: ControlGateError) -> Seq<char> {
    match e {
        ControlGateError::WriteNotSupported => "driver 不支持写入 (capabilities.write=false)"@,
        ControlGateError::MethodNotSupported => "driver 不支持命令 (capabilities.method=false)"@,
        ControlGateError::UnknownResource(a) => "resource `"@ + a@ + "` 未声明"@,
        ControlGateError::UnknownOutput(a, b) => "resource `"@ + a@ + "` 无 output `"@ + b@ + "`"@,
        ControlGateError::OutputNotWritable(a, b) => "resource `"@ + a@ + "` output `"@ + b@
            + "` 只读，不可写入"@,
        ControlGateError::CommandNotDeclared(a) => "command `"@ + a@ + "` 未声明"@,
        ControlGateError::InvalidCommandInput(a, b) => "command `"@ + a@ + "` 输入非法: "@ + b@,
        ControlGateError::InvalidCommandResult(a, b) => "command `"@ + a@
            + "` 结果违反 result_schema: "@ + b@,
        ControlGateError::ValueTypeMismatch(a) => "写入值类型与 output 类型不一致: "@ + a@,
    }
}

impl ControlGateError {
    pub fn message(&self) -> (r: String)
        ensures
            r@ == gate_error_text(*self),
    {
        match self {
            ControlGateError::WriteNotSupported => {
                "driver 不支持写入 (capabilities.write=false)".to_owned()
            },
            ControlGateError::MethodNotSupported => {
                "driver 不支持命令 (capabilities.method=false)".to_owned()
            },
            ControlGateError::UnknownResource(a) => cat3("resource `", a.as_str(), "` 未声明"),
            ControlGateError::UnknownOutput(a, b) => cat5(
                "resource `",
                a.as_str(),
                "` 无 output `",
                b.as_str(),
                "`",
            ),
            ControlGateError::OutputNotWritable(a, b) => cat5(
                "resource `",
                a.as_str(),
                "` output `",
                b.as_str(),
                "` 只读，不可写入",
            ),
            ControlGateError::CommandNotDeclared(a) => cat3("command `", a.as_str(), "` 未声明"),
            ControlGateError::InvalidCommandInput(a, b) => cat4(
                "command `",
                a.as_str(),
                "` 输入非法: ",
                b.as_str(),
            ),
            ControlGateError::InvalidCommandResult(a, b) => cat4(
                "command `",
                a.as_str(),
                "` 结果违反 result_schema: ",
                b.as_str(),
            ),
            ControlGateError::ValueTypeMismatch(a) => cat2(
                "写入值类型与 output 类型不一致: ",
                a.as_str(),
            ),
        }
    }
}

// ---------------------------------------------------------------------------
// Writes
// ---------------------------------------------------------------------------

/// How a data type reads in a message.
pub open spec fn data_type_shown(t: DataType) -> Seq<char> {
    match t {
        DataType::Bool => "Bool"@,
        DataType::I32 => "I32"@,
        DataType::U32 => "U32"@,
        DataType::I64 => "I64"@,
        DataType::U64 => "U64"@,
        DataType::F32 => "F32"@,
        DataType::F64 => "F64"@,
        DataType::String => "String"@,
        DataType::Bytes => "Bytes"@,
        DataType::DateTime => "DateTime"@,
        DataType::BoolArray => "BoolArray"@,
        DataType::I32Array => "I32Array"@,
        DataType::U32Array => "U32Array"@,
        DataType::I64Array => "I64Array"@,
        DataType::U64Array => "U64Array"@,
        DataType::F32Array => "F32Array"@,
        DataType::F64Array => "F64Array"@,
        DataType::StringArray => "StringArray"@,
        DataType::DateTimeArray => "DateTimeArray"@,
    }
}

pub fn show_data_type(t: DataType) -> (r: &'static str)
    ensures
        r@ == data_type_shown(t),
{
    match t {
        DataType::Bool => "Bool",
        DataType::I32 => "I32",
        DataType::U32 => "U32",
        DataType::I64 => "I64",
        DataType::U64 => "U64",
        DataType::F32 => "F32",
        DataType::F64 => "F64",
        DataType::String => "String",
        DataType::Bytes => "Bytes",
        DataType::DateTime => "DateTime",
        DataType::BoolArray => "BoolArray",
        DataType::I32Array => "I32Array",
        DataType::U32Array => "U32Array",
        DataType::I64Array => "I64Array",
        DataType::U64Array => "U64Array",
        DataType::F32Array => "F32Array",
        DataType::F64Array => "F64Array",
        DataType::StringArray => "StringArray",
        DataType::DateTimeArray => "DateTimeArray",
    }
}

/// A value of another data type than the output's.
pub open spec fn type_issue(
    path: Seq<char>,
    what: Seq<char>,
    v: Option<ValueV>,
    expected: Option<DataType>,
) -> Seq<IssueV> {
    match (v, expected) {
        (Some(x), Some(t)) => if value_type(x) == t {
            Seq::empty()
        } else {
            seq![
                IssueV {
                    path,
                    code: "VALUE_TYPE_MISMATCH"@,
                    message: what + data_type_shown(value_type(x)) + " 与 output 期望 "@
                        + data_type_shown(t) + " 不一致"@,
                },
            ]
        },
        _ => Seq::empty(),
    }
}

/// What an optional value is.
pub open spec fn maybe_value(v: Option<TypedValue>) -> Option<ValueV> {
    match v {
        Some(x) => Some(x@),
        None => None,
    }
}

/// The entries of parameters that are an object, or none.
pub open spec fn object_entries(v: JsonV) -> Seq<(Seq<char>, JsonV)> {
    match v {
        JsonV::Object(o) => o,
        _ => Seq::empty(),
    }
}

/// What is wrong with a write to a resource that is there, and the data type that the output
/// expects, where it is known.
pub open spec fn output_gate(
    res: ResourceDescriptor,
    target: WriteTarget,
    value: ValueV,
    expected: Option<ValueV>,
    root: Seq<char>,
) -> (Seq<IssueV>, Option<DataType>) {
    match output_from(res.outputs@, target.output@, 0) {
        None => (
            seq![
                IssueV {
                    path: root + ".output"@,
                    code: "UNKNOWN_OUTPUT"@,
                    message: "resource `"@ + target.resource_id@ + "` 无 output `"@
                        + target.output@ + "`"@,
                },
            ],
            None,
        ),
        Some(k) => if res.outputs@[k].access is Read {
            (
                seq![
                    IssueV {
                        path: root + ".output"@,
                        code: "ACCESS_NOT_SUPPORTED"@,
                        message: "resource `"@ + target.resource_id@ + "` output `"@
                            + target.output@ + "` 只读，不可写入"@,
                    },
                ],
                None,
            )
        } else {
            let issues = instance_issues(
                res.parameters.fields@,
                root + ".parameters"@,
                params_or_empty(target.parameters@),
            );
            if issues.len() > 0 {
                (issues, None)
            } else {
                let t = resolved_type(
                    res.outputs@[k].type_spec,
                    object_entries(params_or_empty(target.parameters@)),
                );
                (
                    type_issue(root + ".value"@, "写入值类型 "@, Some(value), t) + type_issue(
                        root + ".expected_value"@,
                        "期望值类型 "@,
                        expected,
                        t,
                    ),
                    t,
                )
            }
        },
    }
}

/// What is wrong with a write, and the data type that the output expects, where it is known.
pub open spec fn write_gate(
    d: DriverDescriptor,
    target: WriteTarget,
    value: ValueV,
    expected: Option<ValueV>,
    root: Seq<char>,
) -> (Seq<IssueV>, Option<DataType>) {
    if !d.capabilities.write {
        (
            seq![
                IssueV {
                    path: root,
                    code: "WRITE_NOT_SUPPORTED"@,
                    message: "driver 不支持写入 (capabilities.write=false)"@,
                },
            ],
            None,
        )
    } else {
        match resource_from(d.resources@, target.resource_id@, 0) {
            None => (
                seq![
                    IssueV {
                        path: root + ".resource_id"@,
                        code: "UNKNOWN_RESOURCE"@,
                        message: "resource `"@ + target.resource_id@ + "` 未声明"@,
                    },
                ],
                None,
            ),
            Some(k) => output_gate(d.resources@[k], target, value, expected, root),
        }
    }
}

fn one_issue(path: &str, code: &str, message: String) -> (r: Vec<ValidationIssue>)
    ensures
        issues_view(r@) == seq![IssueV { path: path@, code: code@, message: message@ }],
{
    let mut out: Vec<ValidationIssue> = Vec::new();
    let ghost said = message@;
    out.push(ValidationIssue { path: path.to_owned(), code: code.to_owned(), message });
    assert(issues_view(out@) =~= seq![IssueV { path: path@, code: code@, message: said }]);
    out
}

fn check_type(path: &str, what: &str, v: &TypedValue, t: DataType, issues: &mut Vec<ValidationIssue>)
    ensures
        issues_view(final(issues)@) == issues_view(old(issues)@) + type_issue(
            path@,
            what@,
            Some(v@),
            Some(t),
        ),
{
    let actual: DataType = v.data_type();
    if actual != t {
        let message: String = cat5(
            what,
            show_data_type(actual),
            " 与 output 期望 ",
            show_data_type(t),
            " 不一致",
        );
        issues.push(
            ValidationIssue {
                path: path.to_owned(),
                code: "VALUE_TYPE_MISMATCH".to_owned(),
                message,
            },
        );
    }
    assert(issues_view(issues@) =~= issues_view(old(issues)@) + type_issue(
        path@,
        what@,
        Some(v@),
        Some(t),
    ));
}

/// What is wrong with a write, in the order in which it is looked at: whether the driver writes at
/// all, the resource, the output and its access, the parameters, the type of the value and of the
/// value that is expected before. Beside it the data type of the output, where it is known.
pub fn gate_write_against(
    descriptor: &DriverDescriptor,
    target: &WriteTarget,
    value: &TypedValue,
    expected: &Option<TypedValue>,
    root: &str,
) -> (r: (Vec<ValidationIssue>, Option<DataType>))
    ensures
        (issues_view(r.0@), r.1) == write_gate(
            *descriptor,
            *target,
            value@,
            maybe_value(*expected),
            root@,
        ),
{
    broadcast use lemma_json_view;

    if !descriptor.capabilities.write {
        return (
            one_issue(
                root,
                "WRITE_NOT_SUPPORTED",
                "driver 不支持写入 (capabilities.write=false)".to_owned(),
            ),
            None,
        );
    }
    let res: &ResourceDescriptor = match find_resource(
        &descriptor.resources,
        target.resource_id.as_str(),
    ) {
        Some(k) => &descriptor.resources[k],
        None => {
            let path: String = cat2(root, ".resource_id");
            return (
                one_issue(
                    path.as_str(),
                    "UNKNOWN_RESOURCE",
                    cat3("resource `", target.resource_id.as_str(), "` 未声明"),
                ),
                None,
            );
        },
    };
    let path: String = cat2(root, ".output");
    let out: &OutputDescriptor = match find_output(&res.outputs, target.output.as_str()) {
        Some(k) => &res.outputs[k],
        None => {
            return (
                one_issue(
                    path.as_str(),
                    "UNKNOWN_OUTPUT",
                    cat5(
                        "resource `",
                        target.resource_id.as_str(),
                        "` 无 output `",
                        target.output.as_str(),
                        "`",
                    ),
                ),
                None,
            );
        },
    };
    if out.access != AccessMode::Write && out.access != AccessMode::ReadWrite {
        return (
            one_issue(
                path.as_str(),
                "ACCESS_NOT_SUPPORTED",
                cat5(
                    "resource `",
                    target.resource_id.as_str(),
                    "` output `",
                    target.output.as_str(),
                    "` 只读，不可写入",
                ),
            ),
            None,
        );
    }
    let params_path: String = cat2(root, ".parameters");
    let issues: Vec<ValidationIssue> = check_parameters(
        &res.parameters,
        params_path.as_str(),
        &target.parameters,
    );
    assert(issues_view(issues@).len() == issues@.len());
    if !issues.is_empty() {
        return (issues, None);
    }
    let none: Vec<(String, Json)> = Vec::new();
    assert(entries_view(none@) =~= Seq::<(Seq<char>, JsonV)>::empty());
    let entries: &Vec<(String, Json)> = match &target.parameters {
        Json::Object(o) => o,
        _ => &none,
    };
    assert(entries_view(entries@) == object_entries(params_or_empty(target.parameters@))) by {
        assert(target.parameters@ == json_view(target.parameters));
    }
    let t: Option<DataType> = out.type_spec.resolve(entries);
    let mut found: Vec<ValidationIssue> = Vec::new();
    assert(issues_view(found@) =~= Seq::<IssueV>::empty());
    match t {
        Some(dt) => {
            let value_path: String = cat2(root, ".value");
            check_type(value_path.as_str(), "写入值类型 ", value, dt, &mut found);
            match expected {
                Some(e) => {
                    let expected_path: String = cat2(root, ".expected_value");
                    check_type(expected_path.as_str(), "期望值类型 ", e, dt, &mut found);
                },
                None => {},
            }
        },
        None => {},
    }
    assert(issues_view(found@) =~= output_gate(
        *res,
        *target,
        value@,
        maybe_value(*expected),
        root@,
    ).0);
    (found, t)
}

/// A write without issues goes to an output that the driver has and that can be written, with
/// parameters that fit, and with a value of the output's data type where that is known.
pub proof fn admitted_write_is_declared(
    d: DriverDescriptor,
    target: WriteTarget,
    value: ValueV,
    expected: Option<ValueV>,
    root: Seq<char>,
)
    requires
        write_gate(d, target, value, expected, root).0 == Seq::<IssueV>::empty(),
    ensures
        d.capabilities.write,
        resource_from(d.resources@, target.resource_id@, 0) is Some,
        ({
            let res = d.resources@[resource_from(d.resources@, target.resource_id@, 0)->0];
            let k = output_from(res.outputs@, target.output@, 0);
            let t = write_gate(d, target, value, expected, root).1;
            &&& instance_issues(
                res.parameters.fields@,
                root + ".parameters"@,
                params_or_empty(target.parameters@),
            ).len() == 0
            &&& k is Some
            &&& !(res.outputs@[k->0].access is Read)
            &&& t is Some ==> value_type(value) == t->0
            &&& t is Some && expected is Some ==> value_type(expected->0) == t->0
        }),
{
    assert(write_gate(d, target, value, expected, root).0.len() == 0);
}

// ---------------------------------------------------------------------------
// Commands
// ---------------------------------------------------------------------------

/// The first command with an id, from `i` on.
pub open spec fn command_from(commands: Seq<CommandDescriptor>, id: Seq<char>, i: int) -> Option<
    int,
>
    decreases commands.len() - i,
{
    if i >= commands.len() {
        None
    } else if commands[i].id@ == id {
        Some(i)
    } else {
        command_from(commands, id, i + 1)
    }
}

fn find_command(commands: &Vec<CommandDescriptor>, id: &str) -> (r: Option<usize>)
    ensures
        match r {
            Some(k) => command_from(commands@, id@, 0) == Some(k as int) && k < commands.len(),
            None => command_from(commands@, id@, 0) is None,
        },
{
    let mut i: usize = 0;
    while i < commands.len()
        invariant
            i <= commands.len(),
            command_from(commands@, id@, 0) == command_from(commands@, id@, i as int),
        decreases commands.len() - i,
    {
        if same_text(commands[i].id.as_str(), id) {
            return Some(i);
        }
        i = i + 1;
    }
    None
}

/// What is wrong with a command.
pub open spec fn command_gate(
    d: DriverDescriptor,
    command_id: Seq<char>,
    input: JsonV,
    root: Seq<char>,
) -> Seq<IssueV> {
    if !d.capabilities.method {
        seq![
            IssueV {
                path: root,
                code: "METHOD_NOT_SUPPORTED"@,
                message: "driver 不支持命令 (capabilities.method=false)"@,
            },
        ]
    } else {
        match command_from(d.controls.commands@, command_id, 0) {
            None => seq![
                IssueV {
                    path: root + ".command_id"@,
                    code: "COMMAND_NOT_DECLARED"@,
                    message: "command `"@ + command_id + "` 未声明"@,
                },
            ],
            Some(k) => instance_issues(
                d.controls.commands@[k].input_schema.fields@,
                root + ".input"@,
                params_or_empty(input),
            ),
        }
    }
}

/// What is wrong with a command: whether the driver takes any, whether it has this one, and
/// whether the input fits.
pub fn gate_command_against(
    descriptor: &DriverDescriptor,
    command_id: &str,
    input: &Json,
    root: &str,
) -> (r: Vec<ValidationIssue>)
    ensures
        issues_view(r@) == command_gate(*descriptor, command_id@, input@, root@),
{
    if !descriptor.capabilities.method {
        return one_issue(
            root,
            "METHOD_NOT_SUPPORTED",
            "driver 不支持命令 (capabilities.method=false)".to_owned(),
        );
    }
    match find_command(&descriptor.controls.commands, command_id) {
        None => {
            let path: String = cat2(root, ".command_id");
            one_issue(
                path.as_str(),
                "COMMAND_NOT_DECLARED",
                cat3("command `", command_id, "` 未声明"),
            )
        },
        Some(k) => {
            let path: String = cat2(root, ".input");
            check_parameters(
                &descriptor.controls.commands[k].input_schema,
                path.as_str(),
                input,
            )
        },
    }
}

/// Issues under the code that says that the driver breaks its own contract.
pub open spec fn as_violations(issues: Seq<IssueV>) -> Seq<IssueV> {
    issues.map_values(|i: IssueV| IssueV { code: "DRIVER_CONTRACT_VIOLATION"@, ..i })
}

/// What is wrong with the result of a command.
pub open spec fn command_result_gate(
    d: DriverDescriptor,
    command_id: Seq<char>,
    result: JsonV,
    root: Seq<char>,
) -> Seq<IssueV> {
    match command_from(d.controls.commands@, command_id, 0) {
        None => Seq::empty(),
        Some(k) => as_violations(
            instance_issues(
                d.controls.commands@[k].result_schema.fields@,
                root + ".result"@,
                params_or_empty(result),
            ),
        ),
    }
}

/// Where the result of a command does not fit what the driver said of it.
pub fn gate_command_result_against(
    descriptor: &DriverDescriptor,
    command_id: &str,
    result: &Json,
    root: &str,
) -> (r: Vec<ValidationIssue>)
    ensures
        issues_view(r@) == command_result_gate(*descriptor, command_id@, result@, root@),
{
    let mut out: Vec<ValidationIssue> = Vec::new();
    match find_command(&descriptor.controls.commands, command_id) {
        None => {
            assert(issues_view(out@) =~= Seq::<IssueV>::empty());
        },
        Some(k) => {
            let path: String = cat2(root, ".result");
            let found: Vec<ValidationIssue> = check_parameters(
                &descriptor.controls.commands[k].result_schema,
                path.as_str(),
                result,
            );
            let mut i: usize = 0;
            while i < found.len()
                invariant
                    i <= found.len(),
                    out.len() == i,
                    forall|j: int|
                        0 <= j < i ==> (#[trigger] out@[j])@ == (IssueV {
                            code: "DRIVER_CONTRACT_VIOLATION"@,
                            ..found@[j]@
                        }),
                decreases found.len() - i,
            {
                out.push(
                    ValidationIssue {
                        path: found[i].path.clone(),
                        code: "DRIVER_CONTRACT_VIOLATION".to_owned(),
                        message: found[i].message.clone(),
                    },
                );
                i = i + 1;
            }
            assert(issues_view(out@) =~= as_violations(issues_view(found@)));
        },
    }
    out
}

/// Whether one of the commands has an id.
pub open spec fn has_command(commands: Seq<CommandDescriptor>, id: Seq<char>) -> bool {
    exists|i: int| 0 <= i < commands.len() && (#[trigger] commands[i]).id@ == id
}

/// The first thing that is wrong with the commands from `i` on.
pub open spec fn commands_defect(commands: Seq<CommandDescriptor>, i: int) -> Option<Seq<char>>
    decreases commands.len() - i,
{
    if i >= commands.len() {
        None
    } else if blank(commands[i].id@) {
        Some("command id 不能为空"@)
    } else if has_command(commands.subrange(0, i), commands[i].id@) {
        Some("command id 重复: "@ + commands[i].id@)
    } else {
        first_of(
            definition_defect(commands[i].input_schema.fields@),
            first_of(
                definition_defect(commands[i].result_schema.fields@),
                commands_defect(commands, i + 1),
            ),
        )
    }
}

impl ControlCatalog {
    /// Whether the commands make sense; else the first thing that is wrong with them.
    pub fn validate(&self) -> (r: Result<(), String>)
        ensures
            match r {
                Ok(()) => commands_defect(self.commands@, 0) is None,
                Err(m) => commands_defect(self.commands@, 0) == Some(m@),
            },
    {
        let mut i: usize = 0;
        while i < self.commands.len()
            invariant
                i <= self.commands.len(),
                commands_defect(self.commands@, 0) == commands_defect(self.commands@, i as int),
            decreases self.commands.len() - i,
        {
            let c: &CommandDescriptor = &self.commands[i];
            if is_blank(c.id.as_str()) {
                return Err("command id 不能为空".to_owned());
            }
            let ghost part = self.commands@.subrange(0, i as int);
            let mut j: usize = 0;
            while j < i
                invariant
                    j <= i < self.commands.len(),
                    c == &self.commands@[i as int],
                    !blank(c.id@),
                    part == self.commands@.subrange(0, i as int),
                    commands_defect(self.commands@, 0) == commands_defect(
                        self.commands@,
                        i as int,
                    ),
                    forall|k: int| 0 <= k < j ==> (#[trigger] part[k]).id@ != c.id@,
                decreases i - j,
            {
                if same_text(self.commands[j].id.as_str(), c.id.as_str()) {
                    assert(part[j as int].id@ == c.id@);
                    return Err(cat2("command id 重复: ", c.id.as_str()));
                }
                j = j + 1;
            }
            match c.input_schema.validate_definition() {
                Ok(()) => {},
                Err(m) => {
                    return Err(m);
                },
            }
            match c.result_schema.validate_definition() {
                Ok(()) => {},
                Err(m) => {
                    return Err(m);
                },
            }
            i = i + 1;
        }
        Ok(())
    }
}

/// A command is found by its id: the first that has it, and none only where no command has it.
pub proof fn commands_are_found_by_id(commands: Seq<CommandDescriptor>, id: Seq<char>, i: int)
    requires
        0 <= i <= commands.len(),
    ensures
        command_from(commands, id, i) matches Some(k) ==> i <= k < commands.len() && commands[k].id@
            == id && forall|j: int| i <= j < k ==> (#[trigger] commands[j]).id@ != id,
        command_from(commands, id, i) is None <==> forall|j: int|
            i <= j < commands.len() ==> (#[trigger] commands[j]).id@ != id,
    decreases commands.len() - i,
{
    if i < commands.len() && commands[i].id@ != id {
        commands_are_found_by_id(commands, id, i + 1);
    }
}

/// A value is complained of exactly where the type of the output is known and is not its own.
pub proof fn values_are_of_the_type_of_the_output(
    path: Seq<char>,
    what: Seq<char>,
    v: ValueV,
    t: DataType,
)
    ensures
        type_issue(path, what, None, Some(t)).len() == 0,
        type_issue(path, what, Some(v), None).len() == 0,
        type_issue(path, what, Some(v), Some(t)).len() == 0 <==> value_type(v) == t,
        value_type(v) != t ==> type_issue(path, what, Some(v), Some(t))[0].code
            == "VALUE_TYPE_MISMATCH"@ && type_issue(path, what, Some(v), Some(t))[0].path == path,
{
}

/// A write is admitted exactly where the driver writes, the resource and the output are declared,
/// the output can be written, the parameters fit, and the value and the guard are of the output's
/// type where that is known.
pub proof fn writes_are_admitted_when_all_of_it_fits(
    d: DriverDescriptor,
    target: WriteTarget,
    value: ValueV,
    expected: Option<ValueV>,
    root: Seq<char>,
)
    ensures
        ({
            let r = resource_from(d.resources@, target.resource_id@, 0);
            let res = d.resources@[r->0];
            let o = output_from(res.outputs@, target.output@, 0);
            let params = if target.parameters@ is Null {
                JsonV::Object(Seq::empty())
            } else {
                target.parameters@
            };
            let t = resolved_type(
                res.outputs@[o->0].type_spec,
                if params is Object {
                    params->Object_0
                } else {
                    Seq::empty()
                },
            );
            &&& write_gate(d, target, value, expected, root).0.len() == 0 <==> (d.capabilities.write
                && r is Some && o is Some && (res.outputs@[o->0].access is Write
                || res.outputs@[o->0].access is ReadWrite) && instance_issues(
                res.parameters.fields@,
                root + ".parameters"@,
                params,
            ).len() == 0 && (t is Some ==> value_type(value) == t->0) && (t is Some && expected
                is Some ==> value_type(expected->0) == t->0))
            &&& write_gate(d, target, value, expected, root).0.len() == 0 ==> write_gate(
                d,
                target,
                value,
                expected,
                root,
            ).1 == t
        }),
{
}

/// What a refused write is told: the first thing that is wrong with it, in this order.
pub proof fn refused_writes_are_told_why(
    d: DriverDescriptor,
    target: WriteTarget,
    value: ValueV,
    expected: Option<ValueV>,
    root: Seq<char>,
)
    ensures
        ({
            let r = resource_from(d.resources@, target.resource_id@, 0);
            let res = d.resources@[r->0];
            let o = output_from(res.outputs@, target.output@, 0);
            let got = write_gate(d, target, value, expected, root);
            &&& !d.capabilities.write ==> got.0.len() == 1 && got.0[0].code
                == "WRITE_NOT_SUPPORTED"@ && got.0[0].path == root && got.1 is None
            &&& d.capabilities.write && r is None ==> got.0.len() == 1 && got.0[0].code
                == "UNKNOWN_RESOURCE"@ && got.0[0].path == root + ".resource_id"@ && got.1 is None
            &&& d.capabilities.write && r is Some && o is None ==> got.0.len() == 1 && got.0[0].code
                == "UNKNOWN_OUTPUT"@ && got.0[0].path == root + ".output"@ && got.1 is None
            &&& d.capabilities.write && r is Some && o is Some && res.outputs@[o->0].access is Read
                ==> got.0.len() == 1 && got.0[0].code == "ACCESS_NOT_SUPPORTED"@ && got.0[0].path
                == root + ".output"@ && got.1 is None
        }),
{
}

/// A command is admitted exactly where the driver takes commands, it is declared, and its input
/// fits; what a refused one is told.
pub proof fn commands_are_admitted_when_they_are_declared(
    d: DriverDescriptor,
    command_id: Seq<char>,
    input: JsonV,
    root: Seq<char>,
)
    ensures
        ({
            let c = command_from(d.controls.commands@, command_id, 0);
            let got = command_gate(d, command_id, input, root);
            let given = if input is Null {
                JsonV::Object(Seq::empty())
            } else {
                input
            };
            &&& !d.capabilities.method ==> got.len() == 1 && got[0].code == "METHOD_NOT_SUPPORTED"@
                && got[0].path == root
            &&& d.capabilities.method && c is None ==> got.len() == 1 && got[0].code
                == "COMMAND_NOT_DECLARED"@ && got[0].path == root + ".command_id"@
            &&& d.capabilities.method && c is Some ==> got == instance_issues(
                d.controls.commands@[c->0].input_schema.fields@,
                root + ".input"@,
                given,
            )
        }),
{
}

/// The result of a declared command is held against its own schema, and each complaint is one of
/// the driver's; of a command that is not declared nothing is asked.
pub proof fn results_are_held_against_their_schema(
    d: DriverDescriptor,
    command_id: Seq<char>,
    result: JsonV,
    root: Seq<char>,
)
    ensures
        ({
            let c = command_from(d.controls.commands@, command_id, 0);
            let got = command_result_gate(d, command_id, result, root);
            let found = instance_issues(
                d.controls.commands@[c->0].result_schema.fields@,
                root + ".result"@,
                if result is Null {
                    JsonV::Object(Seq::empty())
                } else {
                    result
                },
            );
            &&& c is None ==> got.len() == 0
            &&& c is Some ==> got.len() == found.len()
            &&& forall|i: int|
                c is Some && 0 <= i < got.len() ==> (#[trigger] got[i]).code
                    == "DRIVER_CONTRACT_VIOLATION"@ && got[i].path == found[i].path
                    && got[i].message == found[i].message
        }),
{
}

/// Whether a command has an id of its own among those before it.
pub open spec fn command_is_new(commands: Seq<CommandDescriptor>, j: int) -> bool {
    !blank(commands[j].id@) && forall|k: int| 0 <= k < j ==> (#[trigger] commands[k]).id@
        != commands[j].id@
}

/// Commands make sense exactly where they have ids of their own and their two schemas make sense.
pub proof fn commands_make_sense_when_their_schemas_do(commands: Seq<CommandDescriptor>, i: int)
    requires
        0 <= i <= commands.len(),
    ensures
        commands_defect(commands, i) is None <==> forall|j: int|
            i <= j < commands.len() ==> #[trigger] command_is_new(commands, j) && definition_defect(
                commands[j].input_schema.fields@,
            ) is None && definition_defect(commands[j].result_schema.fields@) is None,
    decreases commands.len() - i,
{
    if i < commands.len() {
        commands_make_sense_when_their_schemas_do(commands, i + 1);
        let part = commands.subrange(0, i);
        assert(has_command(part, commands[i].id@) <==> exists|k: int|
            0 <= k < i && (#[trigger] commands[k]).id@ == commands[i].id@) by {
            if has_command(part, commands[i].id@) {
                let k = choose|k: int|
                    0 <= k < part.len() && (#[trigger] part[k]).id@ == commands[i].id@;
                assert(commands[k].id@ == commands[i].id@);
            }
            if exists|k: int| 0 <= k < i && (#[trigger] commands[k]).id@ == commands[i].id@ {
                let k = choose|k: int|
                    0 <= k < i && (#[trigger] commands[k]).id@ == commands[i].id@;
                assert(part[k].id@ == commands[i].id@);
            }
        }
        assert(command_is_new(commands, i) <==> !blank(commands[i].id@) && !has_command(
            part,
            commands[i].id@,
        ));
        if commands_defect(commands, i) is None {
            assert forall|j: int| i <= j < commands.len() implies #[trigger] command_is_new(
                commands,
                j,
            ) && definition_defect(commands[j].input_schema.fields@) is None && definition_defect(
                commands[j].result_schema.fields@,
            ) is None by {
                if j > i {
                    assert(command_is_new(commands, j));
                }
            }
        }
        if forall|j: int|
            i <= j < commands.len() ==> #[trigger] command_is_new(commands, j) && definition_defect(
                commands[j].input_schema.fields@,
            ) is None && definition_defect(commands[j].result_schema.fields@) is None {
            assert(command_is_new(commands, i));
        }
    }
}

/// How a write or a command that is refused reads.
pub proof fn refused_controls_read_so(a: String, b: String)
    ensures
        gate_error_text(ControlGateError::WriteNotSupported)
            == "driver 不支持写入 (capabilities.write=false)"@,
        gate_error_text(ControlGateError::MethodNotSupported)
            == "driver 不支持命令 (capabilities.method=false)"@,
        gate_error_text(ControlGateError::UnknownResource(a)) == "resource `"@ + a@ + "` 未声明"@,
        gate_error_text(ControlGateError::UnknownOutput(a, b)) == "resource `"@ + a@
            + "` 无 output `"@ + b@ + "`"@,
        gate_error_text(ControlGateError::OutputNotWritable(a, b)) == "resource `"@ + a@
            + "` output `"@ + b@ + "` 只读，不可写入"@,
        gate_error_text(ControlGateError::CommandNotDeclared(a)) == "command `"@ + a@ + "` 未声明"@,
        gate_error_text(ControlGateError::InvalidCommandInput(a, b)) == "command `"@ + a@
            + "` 输入非法: "@ + b@,
        gate_error_text(ControlGateError::InvalidCommandResult(a, b)) == "command `"@ + a@
            + "` 结果违反 result_schema: "@ + b@,
        gate_error_text(ControlGateError::ValueTypeMismatch(a)) == "写入值类型与 output 类型不一致: "@
            + a@,
{
}

/// The types of values are shown by their names.
pub proof fn types_are_shown_by_their_names()
    ensures
        data_type_shown(DataType::Bool) == "Bool"@,
        data_type_shown(DataType::I32) == "I32"@,
        data_type_shown(DataType::U32) == "U32"@,
        data_type_shown(DataType::I64) == "I64"@,
        data_type_shown(DataType::U64) == "U64"@,
        data_type_shown(DataType::F32) == "F32"@,
        data_type_shown(DataType::F64) == "F64"@,
        data_type_shown(DataType::String) == "String"@,
        data_type_shown(DataType::Bytes) == "Bytes"@,
        data_type_shown(DataType::DateTime) == "DateTime"@,
        data_type_shown(DataType::BoolArray) == "BoolArray"@,
        data_type_shown(DataType::I32Array) == "I32Array"@,
        data_type_shown(DataType::U32Array) == "U32Array"@,
        data_type_shown(DataType::I64Array) == "I64Array"@,
        data_type_shown(DataType::U64Array) == "U64Array"@,
        data_type_shown(DataType::F32Array) == "F32Array"@,
        data_type_shown(DataType::F64Array) == "F64Array"@,
        data_type_shown(DataType::StringArray) == "StringArray"@,
        data_type_shown(DataType::DateTimeArray) == "DateTimeArray"@,
{
}

} // verus!
