//! Bridge between a build task running in a sandboxed guest and the build
//! host that invokes it: the declared property schema, the JSON documents
//! exchanged on standard input and output, the texts sent through the host's
//! logging imports, and the plan for merging directory trees.

pub mod codec;
pub mod codec_laws;
pub mod concat_files;
pub mod json;
pub mod logging;
pub mod merge;
pub mod merge_directories;
pub mod merge_model;
pub mod property;
pub mod task;
pub mod task_info;
pub mod text;

use vstd::prelude::*;
use crate::codec::{
    PropertyBag, decode_input, decode_outcome, encode_output, envelope, output_model,
};
use crate::codec_laws::lemma_single_output;
use crate::json::{JsonModel, parsed_text, rendered_text};
use crate::logging::{LogLevel, Outbox, logged};
use crate::property::{PropertyValue, PropertyValueModel};
use crate::task::{Execution, closed, failure, finish, finished, refusal_text, refuse};
use crate::task_info::{
    Property, PropertyModel, PropertyType, TaskInfoModel, TaskInfoStruct, names_distinct,
};

verus! {

/// The schema of the template task: three inputs, one of them required,
/// and one output.
pub open spec fn template_task_info() -> TaskInfoModel {
    TaskInfoModel {
        name: "template"@,
        properties: seq![
            PropertyModel {
                name: "TestNormalProperty"@,
                output: false,
                required: false,
                property_type: PropertyType::String,
            },
            PropertyModel {
                name: "TestOutputProperty"@,
                output: true,
                required: false,
                property_type: PropertyType::String,
            },
            PropertyModel {
                name: "TestRequiredProperty"@,
                output: false,
                required: true,
                property_type: PropertyType::String,
            },
            PropertyModel {
                name: "TestBoolProperty"@,
                output: false,
                required: false,
                property_type: PropertyType::Bool,
            },
        ],
    }
}

/// The document the template task writes: its one output property.
pub open spec fn template_output() -> JsonModel {
    envelope(
        seq![
            (
                "TestOutputProperty"@,
                JsonModel::Text("This is the output property value from WASM task"@),
            ),
        ],
    )
}

proof fn lemma_template_names()
    ensures
        names_distinct(template_task_info().properties),
{
    reveal_strlit("TestNormalProperty");
    reveal_strlit("TestOutputProperty");
    reveal_strlit("TestRequiredProperty");
    reveal_strlit("TestBoolProperty");
    let properties = template_task_info().properties;
    assert(properties[0].name.len() == 18 && properties[0].name[4] == 'N');
    assert(properties[1].name.len() == 18 && properties[1].name[4] == 'O');
    assert(properties[2].name.len() == 20);
    assert(properties[3].name.len() == 16);
}

proof fn lemma_template_output()
    ensures
        output_model(
            seq![
                (
                    "TestOutputProperty"@,
                    PropertyValueModel::String(
                        "This is the output property value from WASM task"@,
                    ),
                ),
            ],
            template_task_info().properties,
        ) == template_output(),
{
    lemma_template_names();
    lemma_single_output(
        template_task_info().properties,
        1,
        PropertyValueModel::String("This is the output property value from WASM task"@),
    );
}

/// The schema of the template task.
#[allow(non_snake_case)]
pub fn GetTaskInfo() -> (task_info_struct: TaskInfoStruct)
    ensures
        task_info_struct@ == template_task_info(),
        task_info_struct@.well_formed(),
{
    let mut properties: Vec<Property> = Vec::new();
    properties.push(
        Property {
            name: "TestNormalProperty".to_owned(),
            output: false,
            required: false,
            property_type: PropertyType::String,
        },
    );
    properties.push(
        Property {
            name: "TestOutputProperty".to_owned(),
            output: true,
            required: false,
            property_type: PropertyType::String,
        },
    );
    properties.push(
        Property {
            name: "TestRequiredProperty".to_owned(),
            output: false,
            required: true,
            property_type: PropertyType::String,
        },
    );
    properties.push(
        Property {
            name: "TestBoolProperty".to_owned(),
            output: false,
            required: false,
            property_type: PropertyType::Bool,
        },
    );
    let task_info_struct = TaskInfoStruct { name: "template".to_owned(), properties };
    proof {
        assert(task_info_struct@.properties =~= template_task_info().properties);
        lemma_template_names();
    }
    task_info_struct
}

/// One execution of the template task. The line of input is decoded
/// against the schema of the task, and an input that is refused ends the
/// execution at once. Otherwise the line is logged as a warning, passed over
/// where it cannot be logged, and the one output property is written.
#[allow(non_snake_case)]
pub fn Execute(input: &str, outbox: &mut Outbox) -> (execution: Execution)
    ensures
        match decode_outcome(parsed_text(input@), template_task_info().properties) {
            Ok(_) => {
                &&& execution@ == finished(rendered_text(template_output()))
                &&& final(outbox)@ == closed(
                    logged(old(outbox)@, LogLevel::Warning, input@),
                    rendered_text(template_output()),
                )
            },
            Err(error) => execution@ == failure() && final(outbox)@ == logged(
                old(outbox)@,
                LogLevel::Error,
                refusal_text(error),
            ),
        },
{
    let task_info_struct = GetTaskInfo();
    match decode_input(input, &task_info_struct) {
        Ok(_) => {
            let _ = outbox.log_warning(input);
            let mut bag = PropertyBag::new();
            bag.set(
                "TestOutputProperty".to_owned(),
                PropertyValue::String(
                    "This is the output property value from WASM task".to_owned(),
                ),
            );
            proof {
                lemma_template_output();
                assert(bag@ =~= seq![
                    (
                        "TestOutputProperty"@,
                        PropertyValueModel::String(
                            "This is the output property value from WASM task"@,
                        ),
                    ),
                ]);
            }
            finish(encode_output(&bag, &task_info_struct), outbox)
        },
        Err(error) => refuse(&error, outbox),
    }
}

} // verus!
