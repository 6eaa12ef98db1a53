//! What a driver says of itself: its identity, the parameters of its connections, its resources,
//! commands and event streams.
use vstd::prelude::*;

use crate::capability::{
    commands_defect, ControlCatalog, DriverCapabilities, ResourceSelectionMethod,
};
use crate::event::{streams_defect, EventCatalog};
use crate::resource::{resource_defect, ResourceDescriptor};
use crate::schema::{definition_defect, first_of, SchemaDescriptor};
use crate::text::{blank, cat2, is_blank, same_text};
use crate::types::DriverMetadata;

verus! {

/// The major version of this description.
pub const DESCRIPTOR_CONTRACT_MAJOR: u32 = 2;

/// The minor version of this description.
pub const DESCRIPTOR_CONTRACT_MINOR: u32 = 0;

/// Which driver it is.
#[derive(Debug, Clone, PartialEq)]
pub struct DriverIdentity {
    pub driver_id: String,
    pub name: String,
    pub version: String,
}

/// What a driver says of itself.
#[derive(Debug, Clone, PartialEq)]
pub struct DriverDescriptor {
    pub contract_major: u32,
    pub contract_minor: u32,
    pub identity: DriverIdentity,
    pub connection: SchemaDescriptor,
    pub resources: Vec<ResourceDescriptor>,
    pub controls: ControlCatalog,
    pub resource_selection_methods: Vec<ResourceSelectionMethod>,
    pub capabilities: DriverCapabilities,
    pub events: EventCatalog,
}

/// The name of a way to select resources.
pub open spec fn method_name(m: ResourceSelectionMethod) -> Seq<char> {
    match m {
        ResourceSelectionMethod::Manual => "Manual"@,
        ResourceSelectionMethod::Browse => "Browse"@,
        ResourceSelectionMethod::Import => "Import"@,
    }
}

fn show_method(m: ResourceSelectionMethod) -> (r: &'static str)
    ensures
        r@ == method_name(m),
{
    match m {
        ResourceSelectionMethod::Manual => "Manual",
        ResourceSelectionMethod::Browse => "Browse",
        ResourceSelectionMethod::Import => "Import",
    }
}

/// The first way to select resources from `i` on that is named before.
pub open spec fn methods_defect(methods: Seq<ResourceSelectionMethod>, i: int) -> Option<Seq<char>>
    decreases methods.len() - i,
{
    if i >= methods.len() {
        None
    } else if methods.subrange(0, i).contains(methods[i]) {
        Some("resource_selection_methods 重复: "@ + method_name(methods[i]))
    } else {
        methods_defect(methods, i + 1)
    }
}

/// Whether one of the resources has an id.
pub open spec fn has_resource(resources: Seq<ResourceDescriptor>, id: Seq<char>) -> bool {
    exists|i: int| 0 <= i < resources.len() && (#[trigger] resources[i]).id@ == id
}

/// The first thing that is wrong with the resources from `i` on.
pub open spec fn resources_defect(resources: Seq<ResourceDescriptor>, i: int) -> Option<Seq<char>>
    decreases resources.len() - i,
{
    if i >= resources.len() {
        None
    } else if has_resource(resources.subrange(0, i), resources[i].id@) {
        Some("resource id 重复: "@ + resources[i].id@)
    } else {
        first_of(resource_defect(resources[i]), resources_defect(resources, i + 1))
    }
}

/// The first thing that is wrong with what a driver says of itself.
pub open spec fn descriptor_defect(d: DriverDescriptor) -> Option<Seq<char>> {
    if blank(d.identity.driver_id@) {
        Some("identity.driver_id 不能为空"@)
    } else {
        first_of(
            definition_defect(d.connection.fields@),
            first_of(
                methods_defect(d.resource_selection_methods@, 0),
                first_of(
                    resources_defect(d.resources@, 0),
                    first_of(
                        commands_defect(d.controls.commands@, 0),
                        streams_defect(d.events.streams@, 0),
                    ),
                ),
            ),
        )
    }
}

fn methods_fault(methods: &Vec<ResourceSelectionMethod>) -> (r: Option<String>)
    ensures
        crate::schema::maybe_text(r) == methods_defect(methods@, 0),
{
    let mut i: usize = 0;
    while i < methods.len()
        invariant
            i <= methods.len(),
            methods_defect(methods@, 0) == methods_defect(methods@, i as int),
        decreases methods.len() - i,
    {
        let m: ResourceSelectionMethod = methods[i];
        let ghost part = methods@.subrange(0, i as int);
        let mut j: usize = 0;
        while j < i
            invariant
                j <= i < methods.len(),
                m == methods@[i as int],
                part == methods@.subrange(0, i as int),
                methods_defect(methods@, 0) == methods_defect(methods@, i as int),
                forall|k: int| 0 <= k < j ==> #[trigger] part[k] != m,
            decreases i - j,
        {
            if methods[j] == m {
                assert(part[j as int] == m);
                return Some(cat2("resource_selection_methods 重复: ", show_method(m)));
            }
            j = j + 1;
        }
        i = i + 1;
    }
    None
}

fn resources_fault(resources: &Vec<ResourceDescriptor>) -> (r: Option<String>)
    ensures
        crate::schema::maybe_text(r) == resources_defect(resources@, 0),
{
    let mut i: usize = 0;
    while i < resources.len()
        invariant
            i <= resources.len(),
            resources_defect(resources@, 0) == resources_defect(resources@, i as int),
        decreases resources.len() - i,
    {
        let id: &str = resources[i].id.as_str();
        let ghost part = resources@.subrange(0, i as int);
        let mut j: usize = 0;
        while j < i
            invariant
                j <= i < resources.len(),
                id@ == resources@[i as int].id@,
                part == resources@.subrange(0, i as int),
                resources_defect(resources@, 0) == resources_defect(resources@, i as int),
                forall|k: int| 0 <= k < j ==> (#[trigger] part[k]).id@ != id@,
            decreases i - j,
        {
            if same_text(resources[j].id.as_str(), id) {
                assert(part[j as int].id@ == id@);
                return Some(cat2("resource id 重复: ", id));
            }
            j = j + 1;
        }
        match resources[i].validate() {
            Ok(()) => {},
            Err(m) => {
                return Some(m);
            },
        }
        i = i + 1;
    }
    None
}

impl DriverDescriptor {
    /// Whether the description makes sense; else the first thing that is wrong with it.
    pub fn validate(&self) -> (r: Result<(), String>)
        ensures
            match r {
                Ok(()) => descriptor_defect(*self) is None,
                Err(m) => descriptor_defect(*self) == Some(m@),
            },
    {
        if is_blank(self.identity.driver_id.as_str()) {
            return Err("identity.driver_id 不能为空".to_owned());
        }
        match self.connection.validate_definition() {
            Ok(()) => {},
            Err(m) => {
                return Err(m);
            },
        }
        match methods_fault(&self.resource_selection_methods) {
            Some(m) => {
                return Err(m);
            },
            None => {},
        }
        match resources_fault(&self.resources) {
            Some(m) => {
                return Err(m);
            },
            None => {},
        }
        match self.controls.validate() {
            Ok(()) => {},
            Err(m) => {
                return Err(m);
            },
        }
        self.events.validate()
    }
}

/// The identity in what a driver says when it connects.
pub open spec fn identity_of(m: DriverMetadata) -> DriverIdentity {
    DriverIdentity { driver_id: m.driver_id, name: m.name, version: m.version }
}

impl From<DriverMetadata> for DriverIdentity {
    fn from(m: DriverMetadata) -> (r: DriverIdentity) {
        DriverIdentity { driver_id: m.driver_id, name: m.name, version: m.version }
    }
}

impl vstd::std_specs::convert::FromSpecImpl<DriverMetadata> for DriverIdentity {
    open spec fn obeys_from_spec() -> bool {
        true
    }

    open spec fn from_spec(m: DriverMetadata) -> DriverIdentity {
        identity_of(m)
    }
}

proof fn lemma_methods(methods: Seq<ResourceSelectionMethod>, i: int)
    requires
        0 <= i <= methods.len(),
    ensures
        methods_defect(methods, i) is None <==> forall|j: int, k: int|
            0 <= j < k && i <= k < methods.len() ==> #[trigger] methods[j] != #[trigger] methods[k],
    decreases methods.len() - i,
{
    if i < methods.len() {
        lemma_methods(methods, i + 1);
        let part = methods.subrange(0, i);
        if part.contains(methods[i]) {
            let j = choose|j: int| 0 <= j < part.len() && part[j] == methods[i];
            assert(methods[j] == methods[i]);
        } else {
            assert forall|j: int| 0 <= j < i implies #[trigger] methods[j] != methods[i] by {
                assert(part[j] == methods[j]);
            }
        }
    }
}

/// Whether a resource makes sense and has an id that none before it has.
pub open spec fn resource_is_new(resources: Seq<ResourceDescriptor>, j: int) -> bool {
    resource_defect(resources[j]) is None && forall|k: int|
        0 <= k < j ==> (#[trigger] resources[k]).id@ != resources[j].id@
}

proof fn lemma_resources(resources: Seq<ResourceDescriptor>, i: int)
    requires
        0 <= i <= resources.len(),
    ensures
        resources_defect(resources, i) is None <==> forall|j: int|
            i <= j < resources.len() ==> #[trigger] resource_is_new(resources, j),
    decreases resources.len() - i,
{
    if i < resources.len() {
        lemma_resources(resources, i + 1);
        let part = resources.subrange(0, i);
        assert(has_resource(part, resources[i].id@) <==> exists|k: int|
            0 <= k < i && (#[trigger] resources[k]).id@ == resources[i].id@) by {
            if has_resource(part, resources[i].id@) {
                let k = choose|k: int|
                    0 <= k < part.len() && (#[trigger] part[k]).id@ == resources[i].id@;
                assert(resources[k].id@ == resources[i].id@);
            }
            if exists|k: int| 0 <= k < i && (#[trigger] resources[k]).id@ == resources[i].id@ {
                let k = choose|k: int|
                    0 <= k < i && (#[trigger] resources[k]).id@ == resources[i].id@;
                assert(part[k].id@ == resources[i].id@);
            }
        }
        assert(resource_is_new(resources, i) <==> resource_defect(resources[i]) is None
            && !has_resource(part, resources[i].id@));
        if resources_defect(resources, i) is None {
            assert forall|j: int| i <= j < resources.len() implies #[trigger] resource_is_new(
                resources,
                j,
            ) by {}
        }
        if forall|j: int| i <= j < resources.len() ==> #[trigger] resource_is_new(resources, j) {
            assert(resource_is_new(resources, i));
        }
    }
}

/// A descriptor makes sense exactly where it names its driver, its connection makes sense, it
/// repeats no way to select resources, its resources make sense and have ids of their own, and its
/// commands and its event streams make sense.
pub proof fn descriptors_make_sense_when_their_parts_do(d: DriverDescriptor)
    ensures
        descriptor_defect(d) is None <==> (!blank(d.identity.driver_id@) && definition_defect(
            d.connection.fields@,
        ) is None && (forall|j: int, k: int|
            0 <= j < k < d.resource_selection_methods@.len()
                ==> #[trigger] d.resource_selection_methods@[j]
                != #[trigger] d.resource_selection_methods@[k]) && (forall|j: int|
            0 <= j < d.resources@.len() ==> #[trigger] resource_is_new(d.resources@, j))
            && commands_defect(d.controls.commands@, 0) is None && streams_defect(
            d.events.streams@,
            0,
        ) is None),
{
    lemma_methods(d.resource_selection_methods@, 0);
    lemma_resources(d.resources@, 0);
    let methods = forall|j: int, k: int|
        0 <= j < k < d.resource_selection_methods@.len()
            ==> #[trigger] d.resource_selection_methods@[j]
            != #[trigger] d.resource_selection_methods@[k];
    let resources = forall|j: int|
        0 <= j < d.resources@.len() ==> #[trigger] resource_is_new(d.resources@, j);
    assert(methods <==> methods_defect(d.resource_selection_methods@, 0) is None);
    assert(resources <==> resources_defect(d.resources@, 0) is None);
}

/// A driver is called in its descriptor what it is called in its metadata.
pub proof fn drivers_are_called_what_they_say(m: DriverMetadata)
    ensures
        identity_of(m).driver_id == m.driver_id,
        identity_of(m).name == m.name,
        identity_of(m).version == m.version,
{
}

/// The version of the contract that descriptors keep to.
pub proof fn contracts_are_of_this_version()
    ensures
        DESCRIPTOR_CONTRACT_MAJOR == 2,
        DESCRIPTOR_CONTRACT_MINOR == 0,
{
}

} // verus!
