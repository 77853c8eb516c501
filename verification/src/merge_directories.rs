//! The task that merges directories.
//!
//! The task unions the directories it is given into one output directory
//! and hands that directory back to the host. Listing the sources and
//! carrying out the plan of `crate::merge` is the caller's work, between
//! `merge_start` and `merge_finish`.

use vstd::prelude::*;
use crate::codec::{
    PropertyBag, decode_input, decode_outcome,
    encode_output, envelope, items_of, text_of,
};
use crate::codec_laws::lemma_single_output;
use crate::json::{JsonModel, parsed_text, rendered_text};
use crate::logging::{BoundaryCallModel, LogLevel, Outbox, logged};
use crate::property::{
    PropertyValue, PropertyValueModel, TaskItem, TaskItemModel, encode_item, items_model,
};
use crate::task::{Execution, closed, failure, finish, finished, refusal_text, refuse};
use crate::task_info::{
    Property, PropertyModel, PropertyType, TaskInfoModel, TaskInfoStruct, names_distinct,
};

verus! {

/// The schema of the task: the directories to merge, an optional name for
/// the merged directory, and the merged directory.
pub open spec fn merge_task_info() -> TaskInfoModel {
    TaskInfoModel {
        name: "MergeDirectoriesTask"@,
        properties: seq![
            PropertyModel {
                name: "Dirs"@,
                output: false,
                required: true,
                property_type: PropertyType::ITaskItemArray,
            },
            PropertyModel {
                name: "MergedName"@,
                output: false,
                required: false,
                property_type: PropertyType::String,
            },
            PropertyModel {
                name: "MergedDir"@,
                output: true,
                required: false,
                property_type: PropertyType::ITaskItem,
            },
        ],
    }
}

/// What one execution has to do: the guest paths of the source directories,
/// in the order in which they are merged, and of the destination.
#[derive(Debug, PartialEq, Eq)]
pub struct MergeRequest {
    pub sources: Vec<String>,
    pub destination: String,
}

/// A `MergeRequest` with its paths as sequences of characters.
pub struct MergeRequestModel {
    pub sources: Seq<Seq<char>>,
    pub destination: Seq<char>,
}

/// The paths as sequences of characters, in order.
pub open spec fn paths_model(paths: Seq<String>) -> Seq<Seq<char>> {
    paths.map_values(|path: String| path@)
}

impl View for MergeRequest {
    type V = MergeRequestModel;

    open spec fn view(&self) -> MergeRequestModel {
        MergeRequestModel { sources: paths_model(self.sources@), destination: self.destination@ }
    }
}

/// The guest paths of task items.
pub open spec fn guest_paths(items: Seq<TaskItemModel>) -> Seq<Seq<char>> {
    items.map_values(|item: TaskItemModel| item.wasm_path)
}

/// The request that decoded input properties stand for. The destination
/// is named `output_dir` unless the input names it.
pub open spec fn merge_request(bag: Seq<(Seq<char>, PropertyValueModel)>) -> MergeRequestModel {
    MergeRequestModel {
        sources: match items_of(bag, "Dirs"@) {
            Some(items) => guest_paths(items),
            None => Seq::empty(),
        },
        destination: match text_of(bag, "MergedName"@) {
            Some(name) => name,
            None => "output_dir"@,
        },
    }
}

/// The document that hands the merged directory back to the host.
pub open spec fn merge_output(destination: Seq<char>) -> JsonModel {
    envelope(
        seq![
            (
                "MergedDir"@,
                encode_item(TaskItemModel { item_spec: destination, wasm_path: destination }),
            ),
        ],
    )
}

/// The calls after each of the paths was logged as a warning, in order.
pub open spec fn paths_logged(calls: Seq<BoundaryCallModel>, paths: Seq<Seq<char>>) -> Seq<
    BoundaryCallModel,
>
    decreases paths.len(),
{
    if paths.len() == 0 {
        calls
    } else {
        logged(paths_logged(calls, paths.drop_last()), LogLevel::Warning, "WasmPath: "@ + paths.last())
    }
}

proof fn lemma_merge_names()
    ensures
        names_distinct(merge_task_info().properties),
{
    reveal_strlit("Dirs");
    reveal_strlit("MergedName");
    reveal_strlit("MergedDir");
    let properties = merge_task_info().properties;
    assert(properties[0].name.len() == 4);
    assert(properties[1].name.len() == 10);
    assert(properties[2].name.len() == 9);
}

/// The schema of the task.
pub fn merge_task() -> (task_info_struct: TaskInfoStruct)
    ensures
        task_info_struct@ == merge_task_info(),
        task_info_struct@.well_formed(),
{
    let mut properties: Vec<Property> = Vec::new();
    properties.push(
        Property {
            name: "Dirs".to_owned(),
            output: false,
            required: true,
            property_type: PropertyType::ITaskItemArray,
        },
    );
    properties.push(
        Property {
            name: "MergedName".to_owned(),
            output: false,
            required: false,
            property_type: PropertyType::String,
        },
    );
    properties.push(
        Property {
            name: "MergedDir".to_owned(),
            output: true,
            required: false,
            property_type: PropertyType::ITaskItem,
        },
    );
    let task_info_struct = TaskInfoStruct { name: "MergeDirectoriesTask".to_owned(), properties };
    proof {
        assert(task_info_struct@.properties =~= merge_task_info().properties);
        lemma_merge_names();
    }
    task_info_struct
}

impl MergeRequest {
    /// The request that decoded input properties stand for.
    pub fn from_bag(bag: &PropertyBag) -> (request: MergeRequest)
        ensures
            request@ == merge_request(bag@),
    {
        let mut sources: Vec<String> = Vec::new();
        match bag.items("Dirs") {
            Some(items) => {
                let mut i: usize = 0;
                while i < items.len()
                    invariant
                        i <= items.len(),
                        sources@.len() == i,
                        forall|k: int| 0 <= k < i ==> (#[trigger] sources@[k])@ == items@[k]@.wasm_path,
                    decreases items.len() - i,
                {
                    sources.push(items[i].wasm_path.clone());
                    i = i + 1;
                }
                assert(paths_model(sources@) =~= guest_paths(items_model(items@)));
            },
            None => {
                assert(paths_model(sources@) =~= Seq::empty());
            },
        }
        let destination = match bag.text("MergedName") {
            Some(name) => name.clone(),
            None => "output_dir".to_owned(),
        };
        MergeRequest { sources, destination }
    }
}

/// Begins an execution: decodes the line of input and says which
/// directories to merge into which. An input that is refused ends the
/// execution at once, before anything is created or copied.
pub fn merge_start(input: &str, outbox: &mut Outbox) -> (result: Result<MergeRequest, Execution>)
    ensures
        match decode_outcome(parsed_text(input@), merge_task_info().properties) {
            Ok(bag) => {
                &&& result matches Ok(request)
                &&& request@ == merge_request(bag)
                &&& final(outbox)@ == old(outbox)@
            },
            Err(error) => {
                &&& result matches Err(execution)
                &&& execution@ == failure()
                &&& final(outbox)@ == logged(old(outbox)@, LogLevel::Error, refusal_text(error))
            },
        },
{
    let task_info_struct = merge_task();
    match decode_input(input, &task_info_struct) {
        Ok(bag) => Ok(MergeRequest::from_bag(&bag)),
        Err(error) => Err(refuse(&error, outbox)),
    }
}

/// Ends an execution whose merge went through: each source path is logged
/// as a warning, and the merged directory is handed back to the host.
pub fn merge_finish(request: &MergeRequest, outbox: &mut Outbox) -> (execution: Execution)
    ensures
        execution@ == finished(rendered_text(merge_output(request@.destination))),
        final(outbox)@ == closed(
            paths_logged(old(outbox)@, request@.sources),
            rendered_text(merge_output(request@.destination)),
        ),
{
    let ghost paths = request@.sources;
    let mut i: usize = 0;
    assert(paths.take(0) =~= Seq::empty());
    while i < request.sources.len()
        invariant
            i <= request.sources.len(),
            paths == request@.sources,
            outbox@ == paths_logged(old(outbox)@, paths.take(i as int)),
        decreases request.sources.len() - i,
    {
        let mut shown = "WasmPath: ".to_owned();
        shown.append(request.sources[i].as_str());
        let _ = outbox.log_warning(shown.as_str());
        proof {
            assert(paths.take(i + 1).drop_last() =~= paths.take(i as int));
            assert(paths.take(i + 1).last() == request.sources@[i as int]@);
        }
        i = i + 1;
    }
    assert(paths.take(request.sources.len() as int) =~= paths);
    let task_info_struct = merge_task();
    let mut bag = PropertyBag::new();
    let item = TaskItem {
        item_spec: request.destination.clone(),
        wasm_path: request.destination.clone(),
    };
    bag.set("MergedDir".to_owned(), PropertyValue::ITaskItem(item));
    proof {
        let value = PropertyValueModel::ITaskItem(
            TaskItemModel { item_spec: request@.destination, wasm_path: request@.destination },
        );
        lemma_single_output(merge_task_info().properties, 2, value);
        assert(bag@ =~= seq![("MergedDir"@, value)]);
    }
    finish(encode_output(&bag, &task_info_struct), outbox)
}

} // verus!
