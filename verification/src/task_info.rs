//! The declared schema of a task: its properties, their types, and the
//! result code of an execution.

use vstd::prelude::*;
use crate::json::{
    Json, JsonModel, RenderError, keys_distinct, lemma_member_trees, lemma_well_formed_object,
    rendered_text,
};
use crate::text::same_text;

verus! {

/// The two-valued result of one execution of a task.
#[derive(Debug, Clone, Copy, PartialEq, Eq, Structural)]
pub enum TaskResult {
    Success,
    Failure,
}

/// The closed set of types a property can be declared with.
#[derive(Debug, Clone, Copy, PartialEq, Eq, Structural)]
pub enum PropertyType {
    String,
    Bool,
    ITaskItem,
    ITaskItemArray,
    StringArray,
    BoolArray,
}

/// The fixed token that names a property type in a task descriptor.
pub open spec fn type_token(property_type: PropertyType) -> Seq<char> {
    match property_type {
        PropertyType::String => "string"@,
        PropertyType::Bool => "bool"@,
        PropertyType::ITaskItem => "ITaskItem"@,
        PropertyType::ITaskItemArray => "ITaskItem[]"@,
        PropertyType::StringArray => "string[]"@,
        PropertyType::BoolArray => "bool[]"@,
    }
}

impl PropertyType {
    /// The token under which the host knows this type.
    pub fn token(&self) -> (token: &'static str)
        ensures
            token@ == type_token(*self),
    {
        match self {
            PropertyType::String => "string",
            PropertyType::Bool => "bool",
            PropertyType::ITaskItem => "ITaskItem",
            PropertyType::ITaskItemArray => "ITaskItem[]",
            PropertyType::StringArray => "string[]",
            PropertyType::BoolArray => "bool[]",
        }
    }
}

/// One declared property of a task.
#[derive(Debug, PartialEq, Eq)]
pub struct Property {
    pub name: String,
    /// The task hands the property back to the host; otherwise the host
    /// hands it to the task.
    pub output: bool,
    /// The host must supply the property.
    pub required: bool,
    pub property_type: PropertyType,
}

/// The schema of a task: its name and its properties in declaration order.
#[derive(Debug, PartialEq, Eq)]
pub struct TaskInfoStruct {
    pub name: String,
    pub properties: Vec<Property>,
}

/// A `Property` with its name as a sequence of characters.
pub struct PropertyModel {
    pub name: Seq<char>,
    pub output: bool,
    pub required: bool,
    pub property_type: PropertyType,
}

/// A `TaskInfoStruct` with its name as a sequence of characters and its
/// properties by their views.
pub struct TaskInfoModel {
    pub name: Seq<char>,
    pub properties: Seq<PropertyModel>,
}

impl View for Property {
    type V = PropertyModel;

    open spec fn view(&self) -> PropertyModel {
        PropertyModel {
            name: self.name@,
            output: self.output,
            required: self.required,
            property_type: self.property_type,
        }
    }
}

/// The properties by their views, in declaration order.
pub open spec fn properties_model(properties: Seq<Property>) -> Seq<PropertyModel> {
    properties.map_values(|property: Property| property@)
}

impl View for TaskInfoStruct {
    type V = TaskInfoModel;

    open spec fn view(&self) -> TaskInfoModel {
        TaskInfoModel { name: self.name@, properties: properties_model(self.properties@) }
    }
}

/// No two properties have the same name.
pub open spec fn names_distinct(properties: Seq<PropertyModel>) -> bool {
    forall|i: int, j: int|
        0 <= i < j < properties.len() ==> (#[trigger] properties[i]).name
            != (#[trigger] properties[j]).name
}

impl TaskInfoModel {
    /// Property names are unique within a task.
    pub open spec fn well_formed(self) -> bool {
        names_distinct(self.properties)
    }
}

/// What a descriptor says of one property.
pub open spec fn property_descriptor(property: PropertyModel) -> JsonModel {
    JsonModel::Object(
        seq![
            ("type"@, JsonModel::Text(type_token(property.property_type))),
            ("required"@, JsonModel::Bool(property.required)),
            ("output"@, JsonModel::Bool(property.output)),
        ],
    )
}

/// The members of a descriptor: one per property, in declaration order.
pub open spec fn descriptor_members(properties: Seq<PropertyModel>) -> Seq<(Seq<char>, JsonModel)> {
    properties.map_values(|property: PropertyModel| (property.name, property_descriptor(property)))
}

/// The descriptor of a task: an object whose single member `Properties`
/// maps each property name to its type token and its two flags.
pub open spec fn descriptor_model(task: TaskInfoModel) -> JsonModel {
    JsonModel::Object(seq![("Properties"@, JsonModel::Object(descriptor_members(task.properties)))])
}

proof fn lemma_descriptor_keys()
    ensures
        "type"@ != "required"@,
        "type"@ != "output"@,
        "required"@ != "output"@,
{
    reveal_strlit("type");
    reveal_strlit("required");
    reveal_strlit("output");
    assert("type"@.len() == 4);
    assert("required"@.len() == 8);
    assert("output"@.len() == 6);
}

/// The descriptor of a task with unique property names has no duplicate key.
pub proof fn lemma_descriptor_well_formed(task: TaskInfoModel)
    requires
        task.well_formed(),
    ensures
        descriptor_model(task).well_formed(),
{
    let members = descriptor_members(task.properties);
    assert forall|i: int| 0 <= i < members.len() implies (#[trigger] members[i]).1.well_formed() by {
        let inner = property_descriptor(task.properties[i])->Object_0;
        lemma_descriptor_keys();
        lemma_well_formed_object(inner);
    }
    assert(keys_distinct(members)) by {
        assert forall|i: int, j: int| 0 <= i < j < members.len() implies (#[trigger] members[i]).0
            != (#[trigger] members[j]).0 by {
            assert(task.properties[i].name != task.properties[j].name);
        }
    }
    lemma_well_formed_object(members);
    let outer = seq![("Properties"@, JsonModel::Object(members))];
    lemma_well_formed_object(outer);
}

impl Property {
    /// What a descriptor says of this property.
    pub fn descriptor(&self) -> (json: Json)
        ensures
            json@ == property_descriptor(self@),
    {
        let mut members: Vec<(String, Json)> = Vec::new();
        members.push(("type".to_owned(), Json::Text(self.property_type.token().to_owned())));
        members.push(("required".to_owned(), Json::Bool(self.required)));
        members.push(("output".to_owned(), Json::Bool(self.output)));
        let json = Json::Object(members);
        proof {
            lemma_member_trees(members@);
            assert(json@->Object_0 =~= property_descriptor(self@)->Object_0);
        }
        json
    }
}

impl TaskInfoStruct {
    /// Whether the property names are unique.
    pub fn is_well_formed(&self) -> (well: bool)
        ensures
            well == self@.well_formed(),
    {
        let ghost all = properties_model(self.properties@);
        let mut i: usize = 0;
        while i < self.properties.len()
            invariant
                i <= self.properties.len(),
                all == properties_model(self.properties@),
                forall|a: int, b: int|
                    0 <= a < b < i ==> (#[trigger] all[a]).name != (#[trigger] all[b]).name,
            decreases self.properties.len() - i,
        {
            let mut j: usize = 0;
            while j < i
                invariant
                    j <= i < self.properties.len(),
                    all == properties_model(self.properties@),
                    forall|a: int| 0 <= a < j ==> (#[trigger] all[a]).name != all[i as int].name,
                decreases i - j,
            {
                if same_text(self.properties[j].name.as_str(), self.properties[i].name.as_str()) {
                    assert(all[j as int].name == all[i as int].name);
                    return false;
                }
                j = j + 1;
            }
            i = i + 1;
        }
        true
    }

    /// The descriptor of the task as a document.
    pub fn descriptor_document(&self) -> (json: Json)
        ensures
            json@ == descriptor_model(self@),
    {
        let ghost wanted = descriptor_members(self@.properties);
        let mut members: Vec<(String, Json)> = Vec::new();
        let mut i: usize = 0;
        while i < self.properties.len()
            invariant
                i <= self.properties.len(),
                wanted == descriptor_members(self@.properties),
                members@.len() == i,
                forall|k: int|
                    0 <= k < i ==> ((#[trigger] members@[k]).0@, members@[k].1@) == wanted[k],
            decreases self.properties.len() - i,
        {
            let property = &self.properties[i];
            assert(self@.properties[i as int] == property@);
            members.push((property.name.clone(), property.descriptor()));
            i = i + 1;
        }
        let inner = Json::Object(members);
        proof {
            lemma_member_trees(members@);
            assert(inner@->Object_0 =~= wanted);
        }
        let mut outer: Vec<(String, Json)> = Vec::new();
        outer.push(("Properties".to_owned(), inner));
        let json = Json::Object(outer);
        proof {
            lemma_member_trees(outer@);
            assert(json@->Object_0 =~= descriptor_model(self@)->Object_0);
        }
        json
    }

    /// The descriptor of the task as one line of JSON, as the host expects
    /// it: `{"Properties":{<name>:{"type":<token>,"required":<bool>,
    /// "output":<bool>},...}}`, the properties in declaration order.
    pub fn describe(&self) -> (result: Result<String, RenderError>)
        requires
            self@.well_formed(),
        ensures
            match rendered_text(descriptor_model(self@)) {
                Some(text) => result matches Ok(line) && line@ == text,
                None => result is Err,
            },
    {
        let document = self.descriptor_document();
        proof {
            lemma_descriptor_well_formed(self@);
        }
        document.render()
    }
}

} // verus!
