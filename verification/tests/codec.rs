use task_bridge::codec::{
    decode_input, decode_properties, encode_output, output_document, outputs_are_complete,
    DecodeError, PropertyBag,
};
use task_bridge::json::{Json, JsonKind};
use task_bridge::property::{PropertyValue, TaskItem};
use task_bridge::task_info::{Property, PropertyType, TaskInfoStruct};
use task_bridge::GetTaskInfo;

fn declared(name: &str, output: bool, required: bool, property_type: PropertyType) -> Property {
    Property { name: name.to_string(), output, required, property_type }
}

fn schema_of_all_types() -> TaskInfoStruct {
    TaskInfoStruct {
        name: "all".to_string(),
        properties: vec![
            declared("Name", false, true, PropertyType::String),
            declared("Flag", false, false, PropertyType::Bool),
            declared("File", false, true, PropertyType::ITaskItem),
            declared("Files", false, false, PropertyType::ITaskItemArray),
            declared("Names", false, false, PropertyType::StringArray),
            declared("Flags", false, false, PropertyType::BoolArray),
            declared("Result", true, false, PropertyType::ITaskItem),
            declared("Log", true, true, PropertyType::StringArray),
        ],
    }
}

fn item(item_spec: &str, wasm_path: &str) -> TaskItem {
    TaskItem { item_spec: item_spec.to_string(), wasm_path: wasm_path.to_string() }
}

fn bag_of(entries: Vec<(&str, PropertyValue)>) -> PropertyBag {
    PropertyBag { entries: entries.into_iter().map(|(n, v)| (n.to_string(), v)).collect() }
}

#[test]
fn decode_reads_every_type() {
    let line = "{\"properties\":{\"Names\":[\"x\",\"y\"],\"Name\":\"n\",\"Flag\":true,\"File\":{\"ItemSpec\":\"host/a\",\"WasmPath\":\"guest/a\"},\"Files\":[{\"ItemSpec\":\"h1\",\"WasmPath\":\"g1\"},{\"WasmPath\":\"g2\"}],\"Flags\":[true,false,true]}}";
    let bag = decode_input(line, &schema_of_all_types()).unwrap();
    let expected = bag_of(vec![
        ("Name", PropertyValue::String("n".to_string())),
        ("Flag", PropertyValue::Bool(true)),
        ("File", PropertyValue::ITaskItem(item("host/a", "guest/a"))),
        ("Files", PropertyValue::ITaskItemArray(vec![item("h1", "g1"), item("", "g2")])),
        ("Names", PropertyValue::StringArray(vec!["x".to_string(), "y".to_string()])),
        ("Flags", PropertyValue::BoolArray(vec![true, false, true])),
    ]);
    assert_eq!(bag, expected);
}

#[test]
fn decode_leaves_out_what_is_not_supplied() {
    let line = "{\"properties\":{\"File\":{\"WasmPath\":\"p\"},\"Name\":\"n\"}}";
    let bag = decode_input(line, &schema_of_all_types()).unwrap();
    let expected = bag_of(vec![
        ("Name", PropertyValue::String("n".to_string())),
        ("File", PropertyValue::ITaskItem(item("", "p"))),
    ]);
    assert_eq!(bag, expected);
    assert_eq!(bag.get("Flag"), None);
    assert_eq!(bag.flag("Flag"), None);
    assert_eq!(bag.text("Name"), Some(&"n".to_string()));
    assert_eq!(bag.item("File"), Some(&item("", "p")));
    assert_eq!(bag.items("Files"), None);
}

#[test]
fn decode_does_not_read_outputs_or_undeclared_members() {
    let line = "{\"properties\":{\"Name\":\"n\",\"File\":{\"WasmPath\":\"p\"},\"Result\":5,\"Log\":\"not an array\",\"Stranger\":[1]},\"more\":true}";
    let bag = decode_input(line, &schema_of_all_types()).unwrap();
    assert_eq!(bag.entries.len(), 2);
    assert_eq!(bag.get("Result"), None);
    assert_eq!(bag.get("Stranger"), None);
}

#[test]
fn decode_reports_the_first_missing_required_input() {
    let schema = schema_of_all_types();
    assert_eq!(
        decode_input("{\"properties\":{\"File\":{\"WasmPath\":\"p\"}}}", &schema),
        Err(DecodeError::MissingRequiredProperty("Name".to_string()))
    );
    assert_eq!(
        decode_input("{\"properties\":{\"Name\":\"n\"}}", &schema),
        Err(DecodeError::MissingRequiredProperty("File".to_string()))
    );
    assert_eq!(
        decode_input("{\"properties\":{}}", &schema),
        Err(DecodeError::MissingRequiredProperty("Name".to_string()))
    );
}

#[test]
fn decode_counts_null_as_absent() {
    let schema = schema_of_all_types();
    assert_eq!(
        decode_input("{\"properties\":{\"Name\":null,\"File\":{\"WasmPath\":\"p\"}}}", &schema),
        Err(DecodeError::MissingRequiredProperty("Name".to_string()))
    );
    let bag = decode_input(
        "{\"properties\":{\"Name\":\"n\",\"File\":{\"WasmPath\":\"p\",\"ItemSpec\":null},\"Flag\":null}}",
        &schema,
    )
    .unwrap();
    assert_eq!(bag.get("Flag"), None);
    assert_eq!(bag.item("File"), Some(&item("", "p")));
}

#[test]
fn decode_takes_a_document_without_properties_as_empty() {
    let schema = schema_of_all_types();
    for line in ["{}", "[]", "3", "{\"properties\":7}", "{\"Properties\":{\"Name\":\"n\"}}"] {
        assert_eq!(
            decode_input(line, &schema),
            Err(DecodeError::MissingRequiredProperty("Name".to_string()))
        );
    }
    let optional = TaskInfoStruct {
        name: "o".to_string(),
        properties: vec![declared("Maybe", false, false, PropertyType::Bool)],
    };
    assert_eq!(decode_input("{}", &optional), Ok(PropertyBag { entries: vec![] }));
    assert_eq!(decode_input("null", &optional), Ok(PropertyBag { entries: vec![] }));
}

#[test]
fn decode_refuses_what_is_no_json() {
    let schema = schema_of_all_types();
    assert_eq!(decode_input("", &schema), Err(DecodeError::InvalidJson));
    assert_eq!(decode_input("{\"properties\":", &schema), Err(DecodeError::InvalidJson));
    assert_eq!(decode_input("properties", &schema), Err(DecodeError::InvalidJson));
}

#[test]
fn decode_reports_a_value_of_the_wrong_shape() {
    let schema = schema_of_all_types();
    let mismatch = |name: &str, expected: PropertyType, actual: JsonKind| {
        Err(DecodeError::TypeMismatch { name: name.to_string(), expected, actual })
    };
    assert_eq!(
        decode_input("{\"properties\":{\"Name\":5,\"File\":{\"WasmPath\":\"p\"}}}", &schema),
        mismatch("Name", PropertyType::String, JsonKind::Number)
    );
    assert_eq!(
        decode_input("{\"properties\":{\"Name\":\"n\",\"File\":\"bare string\"}}", &schema),
        mismatch("File", PropertyType::ITaskItem, JsonKind::String)
    );
    assert_eq!(
        decode_input("{\"properties\":{\"Name\":\"n\",\"File\":{\"ItemSpec\":\"only\"}}}", &schema),
        mismatch("File", PropertyType::ITaskItem, JsonKind::Object)
    );
    assert_eq!(
        decode_input(
            "{\"properties\":{\"Name\":\"n\",\"File\":{\"WasmPath\":\"p\",\"ItemSpec\":3}}}",
            &schema
        ),
        mismatch("File", PropertyType::ITaskItem, JsonKind::Object)
    );
    assert_eq!(
        decode_input(
            "{\"properties\":{\"Name\":\"n\",\"File\":{\"WasmPath\":\"p\"},\"Flag\":\"true\"}}",
            &schema
        ),
        mismatch("Flag", PropertyType::Bool, JsonKind::String)
    );
    assert_eq!(
        decode_input(
            "{\"properties\":{\"Name\":\"n\",\"File\":{\"WasmPath\":\"p\"},\"Files\":[{\"WasmPath\":\"a\"},\"b\"]}}",
            &schema
        ),
        mismatch("Files", PropertyType::ITaskItemArray, JsonKind::Array)
    );
    assert_eq!(
        decode_input(
            "{\"properties\":{\"Name\":\"n\",\"File\":{\"WasmPath\":\"p\"},\"Files\":{\"WasmPath\":\"a\"}}}",
            &schema
        ),
        mismatch("Files", PropertyType::ITaskItemArray, JsonKind::Object)
    );
    assert_eq!(
        decode_input(
            "{\"properties\":{\"Name\":\"n\",\"File\":{\"WasmPath\":\"p\"},\"Names\":[\"a\",true]}}",
            &schema
        ),
        mismatch("Names", PropertyType::StringArray, JsonKind::Array)
    );
    assert_eq!(
        decode_input(
            "{\"properties\":{\"Name\":\"n\",\"File\":{\"WasmPath\":\"p\"},\"Flags\":[true,0]}}",
            &schema
        ),
        mismatch("Flags", PropertyType::BoolArray, JsonKind::Array)
    );
}

#[test]
fn decode_reports_a_missing_input_before_a_wrong_shape() {
    let schema = schema_of_all_types();
    assert_eq!(
        decode_input("{\"properties\":{\"Name\":5,\"Flag\":7}}", &schema),
        Err(DecodeError::MissingRequiredProperty("File".to_string()))
    );
    assert_eq!(
        decode_input(
            "{\"properties\":{\"Flags\":1,\"Flag\":7,\"Name\":\"n\",\"File\":{\"WasmPath\":\"p\"}}}",
            &schema
        ),
        Err(DecodeError::TypeMismatch {
            name: "Flag".to_string(),
            expected: PropertyType::Bool,
            actual: JsonKind::Number
        })
    );
}

#[test]
fn decode_accepts_empty_arrays() {
    let line = "{\"properties\":{\"Name\":\"\",\"File\":{\"WasmPath\":\"\"},\"Files\":[],\"Names\":[],\"Flags\":[]}}";
    let bag = decode_input(line, &schema_of_all_types()).unwrap();
    assert_eq!(bag.get("Files"), Some(&PropertyValue::ITaskItemArray(vec![])));
    assert_eq!(bag.get("Names"), Some(&PropertyValue::StringArray(vec![])));
    assert_eq!(bag.get("Flags"), Some(&PropertyValue::BoolArray(vec![])));
    assert_eq!(bag.text("Name"), Some(&String::new()));
}

#[test]
fn template_requires_its_required_property() {
    let schema = GetTaskInfo();
    assert_eq!(
        decode_input("{\"properties\":{\"TestNormalProperty\":\"x\"}}", &schema),
        Err(DecodeError::MissingRequiredProperty("TestRequiredProperty".to_string()))
    );
    let bag = decode_input(
        "{\"properties\":{\"TestBoolProperty\":false,\"TestRequiredProperty\":\"r\"}}",
        &schema,
    )
    .unwrap();
    assert_eq!(
        bag,
        bag_of(vec![
            ("TestRequiredProperty", PropertyValue::String("r".to_string())),
            ("TestBoolProperty", PropertyValue::Bool(false)),
        ])
    );
}

#[test]
fn decode_properties_works_on_a_document() {
    let document = Json::Object(vec![(
        "properties".to_string(),
        Json::Object(vec![
            ("TestRequiredProperty".to_string(), Json::Text("r".to_string())),
            ("TestBoolProperty".to_string(), Json::Text("yes".to_string())),
        ]),
    )]);
    assert_eq!(
        decode_properties(&document, &GetTaskInfo()),
        Err(DecodeError::TypeMismatch {
            name: "TestBoolProperty".to_string(),
            expected: PropertyType::Bool,
            actual: JsonKind::String
        })
    );
}

#[test]
fn encode_writes_declared_outputs_in_declaration_order() {
    let schema = schema_of_all_types();
    let bag = bag_of(vec![
        ("Log", PropertyValue::StringArray(vec!["one".to_string(), "two".to_string()])),
        ("Name", PropertyValue::String("an input, not written".to_string())),
        ("Undeclared", PropertyValue::Bool(true)),
        ("Result", PropertyValue::ITaskItem(item("out.txt", "guest/out.txt"))),
    ]);
    assert_eq!(
        encode_output(&bag, &schema).unwrap(),
        "{\"properties\":{\"Result\":{\"ItemSpec\":\"out.txt\",\"WasmPath\":\"guest/out.txt\"},\"Log\":[\"one\",\"two\"]}}"
    );
    assert!(outputs_are_complete(&bag, &schema));
}

#[test]
fn encode_writes_what_it_is_given() {
    let schema = schema_of_all_types();
    let partial = bag_of(vec![("Log", PropertyValue::StringArray(vec![]))]);
    assert_eq!(encode_output(&partial, &schema).unwrap(), "{\"properties\":{\"Log\":[]}}");
    assert!(!outputs_are_complete(&partial, &schema));
    let empty = PropertyBag::new();
    assert_eq!(encode_output(&empty, &schema).unwrap(), "{\"properties\":{}}");
    assert!(!outputs_are_complete(&empty, &schema));
    let wrong_type = bag_of(vec![
        ("Result", PropertyValue::Bool(false)),
        ("Log", PropertyValue::String("s".to_string())),
    ]);
    assert_eq!(
        encode_output(&wrong_type, &schema).unwrap(),
        "{\"properties\":{\"Result\":false,\"Log\":\"s\"}}"
    );
}

#[test]
fn encode_writes_the_value_set_last() {
    let schema = schema_of_all_types();
    let mut bag = PropertyBag::new();
    bag.set("Log".to_string(), PropertyValue::StringArray(vec!["old".to_string()]));
    bag.set("Result".to_string(), PropertyValue::ITaskItem(item("a", "b")));
    bag.set("Log".to_string(), PropertyValue::StringArray(vec!["new".to_string()]));
    assert_eq!(bag.get("Log"), Some(&PropertyValue::StringArray(vec!["new".to_string()])));
    assert_eq!(
        output_document(&bag, &schema).render().unwrap(),
        "{\"properties\":{\"Result\":{\"ItemSpec\":\"a\",\"WasmPath\":\"b\"},\"Log\":[\"new\"]}}"
    );
}

#[test]
fn values_know_their_type() {
    assert_eq!(PropertyValue::String(String::new()).property_type(), PropertyType::String);
    assert_eq!(PropertyValue::Bool(true).property_type(), PropertyType::Bool);
    assert_eq!(PropertyValue::ITaskItem(item("", "")).property_type(), PropertyType::ITaskItem);
    assert_eq!(PropertyValue::ITaskItemArray(vec![]).property_type(), PropertyType::ITaskItemArray);
    assert_eq!(PropertyValue::StringArray(vec![]).property_type(), PropertyType::StringArray);
    assert_eq!(PropertyValue::BoolArray(vec![]).property_type(), PropertyType::BoolArray);
}

#[test]
fn values_are_written_and_read_back() {
    let values = vec![
        PropertyValue::String("text \"quoted\"".to_string()),
        PropertyValue::Bool(false),
        PropertyValue::ITaskItem(item("spec", "path")),
        PropertyValue::ITaskItemArray(vec![item("spec", "first"), item("", "second")]),
        PropertyValue::StringArray(vec!["a".to_string(), String::new()]),
        PropertyValue::BoolArray(vec![true, false]),
    ];
    for value in values {
        let json = value.to_json();
        assert!(json.is_well_formed());
        assert_ne!(json, Json::Null);
        assert_eq!(PropertyValue::from_json(&json, value.property_type()), Some(value));
    }
    assert_eq!(
        PropertyValue::ITaskItem(item("spec", "path")).to_json().render().unwrap(),
        "{\"ItemSpec\":\"spec\",\"WasmPath\":\"path\"}"
    );
    assert_eq!(PropertyValue::from_json(&Json::Bool(true), PropertyType::String), None);
    assert_eq!(TaskItem::from_json(&Json::Text("p".to_string())), None);
}

#[test]
fn round_trip_of_a_bag_that_fits_the_schema() {
    let schema = schema_of_all_types();
    let bag = bag_of(vec![
        ("Flags", PropertyValue::BoolArray(vec![false])),
        ("File", PropertyValue::ITaskItem(item("host", "guest"))),
        ("Name", PropertyValue::String("n\n\"é\"".to_string())),
        ("Files", PropertyValue::ITaskItemArray(vec![item("a", "b")])),
    ]);
    let document = bag.to_document();
    assert!(document.is_well_formed());
    let line = document.render().unwrap();
    assert_eq!(
        line,
        "{\"properties\":{\"Flags\":[false],\"File\":{\"ItemSpec\":\"host\",\"WasmPath\":\"guest\"},\"Name\":\"n\\n\\\"é\\\"\",\"Files\":[{\"ItemSpec\":\"a\",\"WasmPath\":\"b\"}]}}"
    );
    let read = decode_input(&line, &schema).unwrap();
    for name in ["Name", "Flag", "File", "Files", "Names", "Flags"] {
        assert_eq!(read.get(name), bag.get(name));
    }
    assert_eq!(decode_properties(&document, &schema), Ok(read));
}

#[test]
fn required_input_present_and_conforming_is_accepted() {
    let schema = TaskInfoStruct {
        name: "one".to_string(),
        properties: vec![declared("Needed", false, true, PropertyType::StringArray)],
    };
    assert_eq!(
        decode_input("{\"properties\":{}}", &schema),
        Err(DecodeError::MissingRequiredProperty("Needed".to_string()))
    );
    assert_eq!(
        decode_input("{\"properties\":{\"Needed\":[\"v\"]}}", &schema),
        Ok(bag_of(vec![("Needed", PropertyValue::StringArray(vec!["v".to_string()]))]))
    );
}

#[test]
fn errors_have_a_diagnostic() {
    assert_eq!(DecodeError::InvalidJson.message(), "Failed to parse task input.");
    assert_eq!(
        DecodeError::MissingRequiredProperty("Dirs".to_string()).message(),
        "Missing required property: Dirs"
    );
    assert_eq!(
        DecodeError::TypeMismatch {
            name: "File".to_string(),
            expected: PropertyType::ITaskItem,
            actual: JsonKind::String
        }
        .message(),
        "Wrong type for property File: expected ITaskItem, found string"
    );
    assert_eq!(
        DecodeError::TypeMismatch {
            name: "L".to_string(),
            expected: PropertyType::BoolArray,
            actual: JsonKind::Null
        }
        .message(),
        "Wrong type for property L: expected bool[], found null"
    );
}
