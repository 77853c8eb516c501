use task_bridge::concat_files::concat_task;
use task_bridge::json::Json;
use task_bridge::merge_directories::merge_task;
use task_bridge::task_info::{Property, PropertyType, TaskInfoStruct};

fn property(name: &str, output: bool, required: bool, property_type: PropertyType) -> Property {
    Property { name: name.to_string(), output, required, property_type }
}

#[test]
fn type_tokens_are_the_six_fixed_strings() {
    assert_eq!(PropertyType::String.token(), "string");
    assert_eq!(PropertyType::Bool.token(), "bool");
    assert_eq!(PropertyType::ITaskItem.token(), "ITaskItem");
    assert_eq!(PropertyType::ITaskItemArray.token(), "ITaskItem[]");
    assert_eq!(PropertyType::StringArray.token(), "string[]");
    assert_eq!(PropertyType::BoolArray.token(), "bool[]");
}

#[test]
fn concat_descriptor() {
    let task = concat_task();
    assert_eq!(task.name, "concat2files");
    assert_eq!(
        task.describe().unwrap(),
        "{\"Properties\":{\"InputFile1\":{\"type\":\"ITaskItem\",\"required\":true,\"output\":false},\"InputFile2\":{\"type\":\"ITaskItem\",\"required\":true,\"output\":false},\"OutputName\":{\"type\":\"string\",\"required\":false,\"output\":false},\"OutputFile\":{\"type\":\"ITaskItem\",\"required\":false,\"output\":true}}}"
    );
}

#[test]
fn merge_descriptor() {
    let task = merge_task();
    assert_eq!(task.name, "MergeDirectoriesTask");
    assert_eq!(
        task.describe().unwrap(),
        "{\"Properties\":{\"Dirs\":{\"type\":\"ITaskItem[]\",\"required\":true,\"output\":false},\"MergedName\":{\"type\":\"string\",\"required\":false,\"output\":false},\"MergedDir\":{\"type\":\"ITaskItem\",\"required\":false,\"output\":true}}}"
    );
}

#[test]
fn descriptor_of_a_task_without_properties() {
    let task = TaskInfoStruct { name: "empty".to_string(), properties: vec![] };
    assert!(task.is_well_formed());
    assert_eq!(task.describe().unwrap(), "{\"Properties\":{}}");
}

#[test]
fn descriptor_names_every_type() {
    let task = TaskInfoStruct {
        name: "all".to_string(),
        properties: vec![
            property("s", false, true, PropertyType::String),
            property("b", false, false, PropertyType::Bool),
            property("i", true, false, PropertyType::ITaskItem),
            property("ia", false, true, PropertyType::ITaskItemArray),
            property("sa", true, true, PropertyType::StringArray),
            property("ba", false, false, PropertyType::BoolArray),
        ],
    };
    assert!(task.is_well_formed());
    assert_eq!(
        task.describe().unwrap(),
        "{\"Properties\":{\"s\":{\"type\":\"string\",\"required\":true,\"output\":false},\"b\":{\"type\":\"bool\",\"required\":false,\"output\":false},\"i\":{\"type\":\"ITaskItem\",\"required\":false,\"output\":true},\"ia\":{\"type\":\"ITaskItem[]\",\"required\":true,\"output\":false},\"sa\":{\"type\":\"string[]\",\"required\":true,\"output\":true},\"ba\":{\"type\":\"bool[]\",\"required\":false,\"output\":false}}}"
    );
}

#[test]
fn descriptor_document_has_one_member_per_property() {
    let task = TaskInfoStruct {
        name: "two".to_string(),
        properties: vec![
            property("zz", false, false, PropertyType::Bool),
            property("aa", true, false, PropertyType::String),
        ],
    };
    let document = task.descriptor_document();
    let properties = document.get("Properties").unwrap();
    match properties {
        Json::Object(members) => {
            assert_eq!(members.len(), 2);
            assert_eq!(members[0].0, "zz");
            assert_eq!(members[1].0, "aa");
        }
        _ => panic!("Properties is no object"),
    }
    assert_eq!(
        properties.get("aa").unwrap().get("type"),
        Some(&Json::Text("string".to_string()))
    );
    assert_eq!(properties.get("aa").unwrap().get("output"), Some(&Json::Bool(true)));
    assert_eq!(properties.get("zz").unwrap().get("required"), Some(&Json::Bool(false)));
}

#[test]
fn property_names_must_be_unique() {
    let task = TaskInfoStruct {
        name: "twice".to_string(),
        properties: vec![
            property("a", false, false, PropertyType::Bool),
            property("b", false, false, PropertyType::Bool),
            property("a", true, false, PropertyType::String),
        ],
    };
    assert!(!task.is_well_formed());
    assert!(concat_task().is_well_formed());
    assert!(merge_task().is_well_formed());
}
