//! The task that concatenates two files.
//!
//! The task reads the two input files, writes their contents one after the
//! other to the output file, and hands the output file back to the host.
//! Opening, reading and writing the files is the caller's work, between
//! `concat_start` and `concat_finish`.

use vstd::prelude::*;
use crate::codec::{
    PropertyBag, decode_input, decode_outcome,
    encode_output, envelope, item_of, text_of,
};
use crate::codec_laws::lemma_single_output;
use crate::json::{JsonModel, parsed_text, rendered_text};
use crate::logging::{LogLevel, Outbox, logged};
use crate::property::{PropertyValue, PropertyValueModel, TaskItem, TaskItemModel, encode_item};
use crate::task::{Execution, closed, failure, finish, finished, refusal_text, refuse};
use crate::task_info::{
    Property, PropertyModel, PropertyType, TaskInfoModel, TaskInfoStruct, names_distinct,
};

verus! {

/// The schema of the task: two required input files, an optional name for
/// the output file, and the output file.
pub open spec fn concat_task_info() -> TaskInfoModel {
    TaskInfoModel {
        name: "concat2files"@,
        properties: seq![
            PropertyModel {
                name: "InputFile1"@,
                output: false,
                required: true,
                property_type: PropertyType::ITaskItem,
            },
            PropertyModel {
                name: "InputFile2"@,
                output: false,
                required: true,
                property_type: PropertyType::ITaskItem,
            },
            PropertyModel {
                name: "OutputName"@,
                output: false,
                required: false,
                property_type: PropertyType::String,
            },
            PropertyModel {
                name: "OutputFile"@,
                output: true,
                required: false,
                property_type: PropertyType::ITaskItem,
            },
        ],
    }
}

/// What one execution has to do: the paths of the two files to read and of
/// the file to write, as the guest sees them.
#[derive(Debug, PartialEq, Eq)]
pub struct ConcatRequest {
    pub first: String,
    pub second: String,
    pub output: String,
}

/// A `ConcatRequest` with its paths as sequences of characters.
pub struct ConcatRequestModel {
    pub first: Seq<char>,
    pub second: Seq<char>,
    pub output: Seq<char>,
}

impl View for ConcatRequest {
    type V = ConcatRequestModel;

    open spec fn view(&self) -> ConcatRequestModel {
        ConcatRequestModel { first: self.first@, second: self.second@, output: self.output@ }
    }
}

/// The guest path of the task item that stands for `name`; the empty path
/// where none does.
pub open spec fn guest_path(bag: Seq<(Seq<char>, PropertyValueModel)>, name: Seq<char>) -> Seq<
    char,
> {
    match item_of(bag, name) {
        Some(item) => item.wasm_path,
        None => Seq::empty(),
    }
}

/// The request that decoded input properties stand for. The files are read
/// under their guest paths; the output file is named `wasmconcatoutput.txt`
/// unless the input names it.
pub open spec fn concat_request(bag: Seq<(Seq<char>, PropertyValueModel)>) -> ConcatRequestModel {
    ConcatRequestModel {
        first: guest_path(bag, "InputFile1"@),
        second: guest_path(bag, "InputFile2"@),
        output: match text_of(bag, "OutputName"@) {
            Some(name) => name,
            None => "wasmconcatoutput.txt"@,
        },
    }
}

/// The document that hands the output file back to the host.
pub open spec fn concat_output(output: Seq<char>) -> JsonModel {
    envelope(
        seq![("OutputFile"@, encode_item(TaskItemModel { item_spec: output, wasm_path: output }))],
    )
}

proof fn lemma_concat_names()
    ensures
        names_distinct(concat_task_info().properties),
{
    reveal_strlit("InputFile1");
    reveal_strlit("InputFile2");
    reveal_strlit("OutputName");
    reveal_strlit("OutputFile");
    let properties = concat_task_info().properties;
    assert(properties[0].name.len() == 10 && properties[0].name[9] == '1' && properties[0].name[0]
        == 'I');
    assert(properties[1].name.len() == 10 && properties[1].name[9] == '2' && properties[1].name[0]
        == 'I');
    assert(properties[2].name.len() == 10 && properties[2].name[6] == 'N' && properties[2].name[0]
        == 'O');
    assert(properties[3].name.len() == 10 && properties[3].name[6] == 'F' && properties[3].name[0]
        == 'O');
}

/// The schema of the task.
pub fn concat_task() -> (task_info_struct: TaskInfoStruct)
    ensures
        task_info_struct@ == concat_task_info(),
        task_info_struct@.well_formed(),
{
    let mut properties: Vec<Property> = Vec::new();
    properties.push(
        Property {
            name: "InputFile1".to_owned(),
            output: false,
            required: true,
            property_type: PropertyType::ITaskItem,
        },
    );
    properties.push(
        Property {
            name: "InputFile2".to_owned(),
            output: false,
            required: true,
            property_type: PropertyType::ITaskItem,
        },
    );
    properties.push(
        Property {
            name: "OutputName".to_owned(),
            output: false,
            required: false,
            property_type: PropertyType::String,
        },
    );
    properties.push(
        Property {
            name: "OutputFile".to_owned(),
            output: true,
            required: false,
            property_type: PropertyType::ITaskItem,
        },
    );
    let task_info_struct = TaskInfoStruct { name: "concat2files".to_owned(), properties };
    proof {
        assert(task_info_struct@.properties =~= concat_task_info().properties);
        lemma_concat_names();
    }
    task_info_struct
}

fn guest_path_in(bag: &PropertyBag, name: &str) -> (path: String)
    ensures
        path@ == guest_path(bag@, name@),
{
    match bag.item(name) {
        Some(item) => item.wasm_path.clone(),
        None => String::new(),
    }
}

impl ConcatRequest {
    /// The request that decoded input properties stand for.
    pub fn from_bag(bag: &PropertyBag) -> (request: ConcatRequest)
        ensures
            request@ == concat_request(bag@),
    {
        let output = match bag.text("OutputName") {
            Some(name) => name.clone(),
            None => "wasmconcatoutput.txt".to_owned(),
        };
        ConcatRequest {
            first: guest_path_in(bag, "InputFile1"),
            second: guest_path_in(bag, "InputFile2"),
            output,
        }
    }
}

/// Begins an execution: decodes the line of input and says which files to
/// read and which to write. An input that is refused ends the execution
/// at once, before anything is read or written.
pub fn concat_start(input: &str, outbox: &mut Outbox) -> (result: Result<ConcatRequest, Execution>)
    ensures
        match decode_outcome(parsed_text(input@), concat_task_info().properties) {
            Ok(bag) => {
                &&& result matches Ok(request)
                &&& request@ == concat_request(bag)
                &&& final(outbox)@ == old(outbox)@
            },
            Err(error) => {
                &&& result matches Err(execution)
                &&& execution@ == failure()
                &&& final(outbox)@ == logged(old(outbox)@, LogLevel::Error, refusal_text(error))
            },
        },
{
    let task_info_struct = concat_task();
    match decode_input(input, &task_info_struct) {
        Ok(bag) => Ok(ConcatRequest::from_bag(&bag)),
        Err(error) => Err(refuse(&error, outbox)),
    }
}

/// The contents of the output file: those of the first file, then those of
/// the second.
pub fn concat_contents(first: &str, second: &str) -> (contents: String)
    ensures
        contents@ == first@ + second@,
{
    let mut contents = first.to_owned();
    contents.append(second);
    contents
}

/// Ends an execution whose output file was written: the file is handed back
/// to the host under the path it was written to.
pub fn concat_finish(request: &ConcatRequest, outbox: &mut Outbox) -> (execution: Execution)
    ensures
        execution@ == finished(rendered_text(concat_output(request@.output))),
        final(outbox)@ == closed(old(outbox)@, rendered_text(concat_output(request@.output))),
{
    let task_info_struct = concat_task();
    let mut bag = PropertyBag::new();
    let item = TaskItem { item_spec: request.output.clone(), wasm_path: request.output.clone() };
    bag.set("OutputFile".to_owned(), PropertyValue::ITaskItem(item));
    proof {
        let value = PropertyValueModel::ITaskItem(
            TaskItemModel { item_spec: request@.output, wasm_path: request@.output },
        );
        lemma_single_output(concat_task_info().properties, 3, value);
        assert(bag@ =~= seq![("OutputFile"@, value)]);
    }
    finish(encode_output(&bag, &task_info_struct), outbox)
}

} // verus!
