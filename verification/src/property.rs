//! Property values and how they are written in JSON.
//!
//! A string and a boolean are written as such; a task item is an object
//! with the members `ItemSpec` and `WasmPath`; the three array types are
//! arrays of these.

use vstd::prelude::*;
use crate::json::{
    Json, JsonModel, lemma_member_trees, lemma_trees, lemma_well_formed_array,
    lemma_well_formed_object, member, trees,
};
use crate::task_info::PropertyType;

verus! {

/// A reference to a file or directory: `item_spec` is the path as the host
/// sees it, `wasm_path` the path under which the guest can open it.
#[derive(Debug, PartialEq, Eq)]
pub struct TaskItem {
    pub item_spec: String,
    pub wasm_path: String,
}

/// A `TaskItem` with its paths as sequences of characters.
pub struct TaskItemModel {
    pub item_spec: Seq<char>,
    pub wasm_path: Seq<char>,
}

impl View for TaskItem {
    type V = TaskItemModel;

    open spec fn view(&self) -> TaskItemModel {
        TaskItemModel { item_spec: self.item_spec@, wasm_path: self.wasm_path@ }
    }
}

/// The value of a property, of one of the six property types.
#[derive(Debug, PartialEq, Eq)]
pub enum PropertyValue {
    String(String),
    Bool(bool),
    ITaskItem(TaskItem),
    ITaskItemArray(Vec<TaskItem>),
    StringArray(Vec<String>),
    BoolArray(Vec<bool>),
}

/// A `PropertyValue` with texts as sequences of characters.
pub enum PropertyValueModel {
    String(Seq<char>),
    Bool(bool),
    ITaskItem(TaskItemModel),
    ITaskItemArray(Seq<TaskItemModel>),
    StringArray(Seq<Seq<char>>),
    BoolArray(Seq<bool>),
}

/// The task items by their views, in order.
pub open spec fn items_model(items: Seq<TaskItem>) -> Seq<TaskItemModel> {
    items.map_values(|item: TaskItem| item@)
}

/// The texts as sequences of characters, in order.
pub open spec fn texts_model(texts: Seq<String>) -> Seq<Seq<char>> {
    texts.map_values(|text: String| text@)
}

impl View for PropertyValue {
    type V = PropertyValueModel;

    open spec fn view(&self) -> PropertyValueModel {
        match self {
            PropertyValue::String(text) => PropertyValueModel::String(text@),
            PropertyValue::Bool(flag) => PropertyValueModel::Bool(*flag),
            PropertyValue::ITaskItem(item) => PropertyValueModel::ITaskItem(item@),
            PropertyValue::ITaskItemArray(items) => PropertyValueModel::ITaskItemArray(
                items_model(items@),
            ),
            PropertyValue::StringArray(texts) => PropertyValueModel::StringArray(
                texts_model(texts@),
            ),
            PropertyValue::BoolArray(flags) => PropertyValueModel::BoolArray(flags@),
        }
    }
}

/// A task item as a JSON object.
pub open spec fn encode_item(item: TaskItemModel) -> JsonModel {
    JsonModel::Object(
        seq![
            ("ItemSpec"@, JsonModel::Text(item.item_spec)),
            ("WasmPath"@, JsonModel::Text(item.wasm_path)),
        ],
    )
}

/// Task items as JSON objects, in order.
pub open spec fn encode_items(items: Seq<TaskItemModel>) -> Seq<JsonModel> {
    Seq::new(items.len(), |i: int| encode_item(items[i]))
}

/// Texts as JSON strings, in order.
pub open spec fn encode_texts(texts: Seq<Seq<char>>) -> Seq<JsonModel> {
    Seq::new(texts.len(), |i: int| JsonModel::Text(texts[i]))
}

/// Booleans as JSON booleans, in order.
pub open spec fn encode_flags(flags: Seq<bool>) -> Seq<JsonModel> {
    Seq::new(flags.len(), |i: int| JsonModel::Bool(flags[i]))
}

impl PropertyValueModel {
    /// The property type that the value is of.
    pub open spec fn property_type(self) -> PropertyType {
        match self {
            PropertyValueModel::String(_) => PropertyType::String,
            PropertyValueModel::Bool(_) => PropertyType::Bool,
            PropertyValueModel::ITaskItem(_) => PropertyType::ITaskItem,
            PropertyValueModel::ITaskItemArray(_) => PropertyType::ITaskItemArray,
            PropertyValueModel::StringArray(_) => PropertyType::StringArray,
            PropertyValueModel::BoolArray(_) => PropertyType::BoolArray,
        }
    }

    /// The value as JSON.
    pub open spec fn encode(self) -> JsonModel {
        match self {
            PropertyValueModel::String(text) => JsonModel::Text(text),
            PropertyValueModel::Bool(flag) => JsonModel::Bool(flag),
            PropertyValueModel::ITaskItem(item) => encode_item(item),
            PropertyValueModel::ITaskItemArray(items) => JsonModel::Array(encode_items(items)),
            PropertyValueModel::StringArray(texts) => JsonModel::Array(encode_texts(texts)),
            PropertyValueModel::BoolArray(flags) => JsonModel::Array(encode_flags(flags)),
        }
    }
}

/// The task item that a JSON value stands for: an object whose `WasmPath`
/// is a string. `ItemSpec` is taken where it is a string, and is empty where
/// it is missing or null. Anything else stands for no task item.
pub open spec fn decode_item(json: JsonModel) -> Option<TaskItemModel> {
    match json.get("WasmPath"@) {
        Some(JsonModel::Text(wasm_path)) => match json.get("ItemSpec"@) {
            Some(JsonModel::Text(item_spec)) => Some(TaskItemModel { item_spec, wasm_path }),
            Some(JsonModel::Null) | None => Some(
                TaskItemModel { item_spec: Seq::empty(), wasm_path },
            ),
            Some(_) => None,
        },
        _ => None,
    }
}

/// The value of the given type that a JSON value stands for, or `None`
/// where its shape is not that of the type.
pub open spec fn decode_value(json: JsonModel, property_type: PropertyType) -> Option<
    PropertyValueModel,
> {
    match property_type {
        PropertyType::String => match json {
            JsonModel::Text(text) => Some(PropertyValueModel::String(text)),
            _ => None,
        },
        PropertyType::Bool => match json {
            JsonModel::Bool(flag) => Some(PropertyValueModel::Bool(flag)),
            _ => None,
        },
        PropertyType::ITaskItem => match decode_item(json) {
            Some(item) => Some(PropertyValueModel::ITaskItem(item)),
            None => None,
        },
        PropertyType::ITaskItemArray => match json {
            JsonModel::Array(items) => if forall|i: int|
                0 <= i < items.len() ==> decode_item(#[trigger] items[i]) is Some {
                Some(
                    PropertyValueModel::ITaskItemArray(
                        Seq::new(items.len(), |i: int| decode_item(items[i])->0),
                    ),
                )
            } else {
                None
            },
            _ => None,
        },
        PropertyType::StringArray => match json {
            JsonModel::Array(items) => if forall|i: int|
                0 <= i < items.len() ==> #[trigger] items[i] is Text {
                Some(
                    PropertyValueModel::StringArray(
                        Seq::new(items.len(), |i: int| items[i]->Text_0),
                    ),
                )
            } else {
                None
            },
            _ => None,
        },
        PropertyType::BoolArray => match json {
            JsonModel::Array(items) => if forall|i: int|
                0 <= i < items.len() ==> #[trigger] items[i] is Bool {
                Some(
                    PropertyValueModel::BoolArray(Seq::new(items.len(), |i: int| items[i]->Bool_0)),
                )
            } else {
                None
            },
            _ => None,
        },
    }
}

proof fn lemma_item_keys()
    ensures
        "ItemSpec"@ != "WasmPath"@,
{
    reveal_strlit("ItemSpec");
    reveal_strlit("WasmPath");
    assert("ItemSpec"@[0] == 'I');
    assert("WasmPath"@[0] == 'W');
}

/// A task item written as JSON is read back as the same task item.
pub proof fn lemma_item_round_trip(item: TaskItemModel)
    ensures
        decode_item(encode_item(item)) == Some(item),
        encode_item(item).well_formed(),
{
    lemma_item_keys();
    let members = encode_item(item)->Object_0;
    assert(members[0] == ("ItemSpec"@, JsonModel::Text(item.item_spec)));
    assert(members[1] == ("WasmPath"@, JsonModel::Text(item.wasm_path)));
    assert(members.drop_first()[0] == members[1]);
    assert(member(members, "ItemSpec"@) == Some(JsonModel::Text(item.item_spec)));
    assert(member(members.drop_first(), "WasmPath"@) == Some(JsonModel::Text(item.wasm_path)));
    assert(member(members, "WasmPath"@) == Some(JsonModel::Text(item.wasm_path)));
    lemma_well_formed_object(members);
}

/// A value written as JSON is read back, at its own type, as the same
/// value; and what is written has no duplicate key and is never `null`.
pub proof fn lemma_value_round_trip(value: PropertyValueModel)
    ensures
        decode_value(value.encode(), value.property_type()) == Some(value),
        value.encode().well_formed(),
        value.encode() !is Null,
{
    match value {
        PropertyValueModel::String(_) => {},
        PropertyValueModel::Bool(_) => {},
        PropertyValueModel::ITaskItem(item) => {
            lemma_item_round_trip(item);
        },
        PropertyValueModel::ITaskItemArray(items) => {
            let written = encode_items(items);
            assert(value.encode()->Array_0 == written);
            assert forall|i: int| 0 <= i < written.len() implies decode_item(#[trigger] written[i])
                == Some(items[i]) && written[i].well_formed() by {
                lemma_item_round_trip(items[i]);
            }
            assert(Seq::new(written.len(), |i: int| decode_item(written[i])->0) =~= items);
            lemma_well_formed_array(written);
        },
        PropertyValueModel::StringArray(texts) => {
            let written = encode_texts(texts);
            assert(value.encode()->Array_0 == written);
            assert(Seq::new(written.len(), |i: int| written[i]->Text_0) =~= texts);
            lemma_well_formed_array(written);
        },
        PropertyValueModel::BoolArray(flags) => {
            let written = encode_flags(flags);
            assert(value.encode()->Array_0 == written);
            assert(Seq::new(written.len(), |i: int| written[i]->Bool_0) =~= flags);
            lemma_well_formed_array(written);
        },
    }
}

impl TaskItem {
    /// The task item as a JSON object.
    pub fn to_json(&self) -> (json: Json)
        ensures
            json@ == encode_item(self@),
    {
        let mut members: Vec<(String, Json)> = Vec::new();
        members.push(("ItemSpec".to_owned(), Json::Text(self.item_spec.clone())));
        members.push(("WasmPath".to_owned(), Json::Text(self.wasm_path.clone())));
        let json = Json::Object(members);
        proof {
            lemma_member_trees(members@);
            assert(json@->Object_0 =~= encode_item(self@)->Object_0);
        }
        json
    }

    /// The task item that a JSON value stands for, if it stands for one.
    pub fn from_json(json: &Json) -> (found: Option<TaskItem>)
        ensures
            match decode_item(json@) {
                Some(item) => found matches Some(read) && read@ == item,
                None => found is None,
            },
    {
        match json.get("WasmPath") {
            Some(Json::Text(wasm_path)) => match json.get("ItemSpec") {
                Some(Json::Text(item_spec)) => Some(
                    TaskItem { item_spec: item_spec.clone(), wasm_path: wasm_path.clone() },
                ),
                Some(Json::Null) | None => Some(
                    TaskItem { item_spec: String::new(), wasm_path: wasm_path.clone() },
                ),
                Some(_) => None,
            },
            _ => None,
        }
    }
}

impl PropertyValue {
    /// The property type that the value is of.
    pub fn property_type(&self) -> (property_type: PropertyType)
        ensures
            property_type == self@.property_type(),
    {
        match self {
            PropertyValue::String(_) => PropertyType::String,
            PropertyValue::Bool(_) => PropertyType::Bool,
            PropertyValue::ITaskItem(_) => PropertyType::ITaskItem,
            PropertyValue::ITaskItemArray(_) => PropertyType::ITaskItemArray,
            PropertyValue::StringArray(_) => PropertyType::StringArray,
            PropertyValue::BoolArray(_) => PropertyType::BoolArray,
        }
    }

    /// The value as JSON.
    pub fn to_json(&self) -> (json: Json)
        ensures
            json@ == self@.encode(),
    {
        match self {
            PropertyValue::String(text) => Json::Text(text.clone()),
            PropertyValue::Bool(flag) => Json::Bool(*flag),
            PropertyValue::ITaskItem(item) => item.to_json(),
            PropertyValue::ITaskItemArray(items) => {
                let mut out: Vec<Json> = Vec::new();
                let mut i: usize = 0;
                while i < items.len()
                    invariant
                        i <= items.len(),
                        out@.len() == i,
                        forall|k: int| 0 <= k < i ==> (#[trigger] out@[k])@ == encode_item(items@[k]@),
                    decreases items.len() - i,
                {
                    out.push(items[i].to_json());
                    i = i + 1;
                }
                let json = Json::Array(out);
                proof {
                    lemma_trees(out@);
                    assert(json@->Array_0 =~= encode_items(items_model(items@)));
                }
                json
            },
            PropertyValue::StringArray(texts) => {
                let mut out: Vec<Json> = Vec::new();
                let mut i: usize = 0;
                while i < texts.len()
                    invariant
                        i <= texts.len(),
                        out@.len() == i,
                        forall|k: int| 0 <= k < i ==> (#[trigger] out@[k])@ == JsonModel::Text(texts@[k]@),
                    decreases texts.len() - i,
                {
                    out.push(Json::Text(texts[i].clone()));
                    i = i + 1;
                }
                let json = Json::Array(out);
                proof {
                    lemma_trees(out@);
                    assert(json@->Array_0 =~= encode_texts(texts_model(texts@)));
                }
                json
            },
            PropertyValue::BoolArray(flags) => {
                let mut out: Vec<Json> = Vec::new();
                let mut i: usize = 0;
                while i < flags.len()
                    invariant
                        i <= flags.len(),
                        out@.len() == i,
                        forall|k: int| 0 <= k < i ==> (#[trigger] out@[k])@ == JsonModel::Bool(flags@[k]),
                    decreases flags.len() - i,
                {
                    out.push(Json::Bool(flags[i]));
                    i = i + 1;
                }
                let json = Json::Array(out);
                proof {
                    lemma_trees(out@);
                    assert(json@->Array_0 =~= encode_flags(flags@));
                }
                json
            },
        }
    }

    /// The value of the given type that a JSON value stands for, or `None`
    /// where its shape is not that of the type.
    pub fn from_json(json: &Json, property_type: PropertyType) -> (found: Option<PropertyValue>)
        ensures
            match decode_value(json@, property_type) {
                Some(value) => found matches Some(read) && read@ == value,
                None => found is None,
            },
    {
        match property_type {
            PropertyType::String => match json {
                Json::Text(text) => Some(PropertyValue::String(text.clone())),
                _ => None,
            },
            PropertyType::Bool => match json {
                Json::Bool(flag) => Some(PropertyValue::Bool(*flag)),
                _ => None,
            },
            PropertyType::ITaskItem => match TaskItem::from_json(json) {
                Some(item) => Some(PropertyValue::ITaskItem(item)),
                None => None,
            },
            PropertyType::ITaskItemArray => match json {
                Json::Array(items) => {
                    let ghost all = trees(items@);
                    proof {
                        lemma_trees(items@);
                        assert(json@ == JsonModel::Array(all));
                    }
                    let mut out: Vec<TaskItem> = Vec::new();
                    let mut i: usize = 0;
                    while i < items.len()
                        invariant
                            i <= items.len(),
                            out@.len() == i,
                            all.len() == items@.len(),
                            json@ == JsonModel::Array(all),
                            property_type == PropertyType::ITaskItemArray,
                            forall|k: int| 0 <= k < items@.len() ==> #[trigger] all[k] == items@[k]@,
                            forall|k: int|
                                0 <= k < i ==> decode_item(#[trigger] all[k]) == Some(out@[k]@),
                        decreases items.len() - i,
                    {
                        match TaskItem::from_json(&items[i]) {
                            Some(item) => {
                                out.push(item);
                            },
                            None => {
                                assert(json@->Array_0 == all);
                                assert(decode_item(all[i as int]) is None);
                                return None;
                            },
                        }
                        i = i + 1;
                    }
                    assert(items_model(out@) =~= Seq::new(all.len(), |k: int| decode_item(all[k])->0));
                    Some(PropertyValue::ITaskItemArray(out))
                },
                _ => None,
            },
            PropertyType::StringArray => match json {
                Json::Array(items) => {
                    let ghost all = trees(items@);
                    proof {
                        lemma_trees(items@);
                        assert(json@ == JsonModel::Array(all));
                    }
                    let mut out: Vec<String> = Vec::new();
                    let mut i: usize = 0;
                    while i < items.len()
                        invariant
                            i <= items.len(),
                            out@.len() == i,
                            all.len() == items@.len(),
                            json@ == JsonModel::Array(all),
                            property_type == PropertyType::StringArray,
                            forall|k: int| 0 <= k < items@.len() ==> #[trigger] all[k] == items@[k]@,
                            forall|k: int|
                                0 <= k < i ==> #[trigger] all[k] == JsonModel::Text(out@[k]@),
                        decreases items.len() - i,
                    {
                        match &items[i] {
                            Json::Text(text) => {
                                out.push(text.clone());
                            },
                            _ => {
                                assert(json@->Array_0 == all);
                                assert(!(all[i as int] is Text));
                                return None;
                            },
                        }
                        i = i + 1;
                    }
                    assert(texts_model(out@) =~= Seq::new(all.len(), |k: int| all[k]->Text_0));
                    Some(PropertyValue::StringArray(out))
                },
                _ => None,
            },
            PropertyType::BoolArray => match json {
                Json::Array(items) => {
                    let ghost all = trees(items@);
                    proof {
                        lemma_trees(items@);
                        assert(json@ == JsonModel::Array(all));
                    }
                    let mut out: Vec<bool> = Vec::new();
                    let mut i: usize = 0;
                    while i < items.len()
                        invariant
                            i <= items.len(),
                            out@.len() == i,
                            all.len() == items@.len(),
                            json@ == JsonModel::Array(all),
                            property_type == PropertyType::BoolArray,
                            forall|k: int| 0 <= k < items@.len() ==> #[trigger] all[k] == items@[k]@,
                            forall|k: int|
                                0 <= k < i ==> #[trigger] all[k] == JsonModel::Bool(out@[k]),
                        decreases items.len() - i,
                    {
                        match &items[i] {
                            Json::Bool(flag) => {
                                out.push(*flag);
                            },
                            _ => {
                                assert(json@->Array_0 == all);
                                assert(!(all[i as int] is Bool));
                                return None;
                            },
                        }
                        i = i + 1;
                    }
                    assert(out@ =~= Seq::new(all.len(), |k: int| all[k]->Bool_0));
                    Some(PropertyValue::BoolArray(out))
                },
                _ => None,
            },
        }
    }
}

} // verus!
