//! The steps every task shares: reporting its descriptor, refusing an
//! input, and handing back its output.

use vstd::prelude::*;
use crate::codec::{DecodeError, DecodeErrorModel};
use crate::json::{JsonKind, RenderError, rendered_text};
use crate::logging::{
    BoundaryCallModel, LogLevel, MessageImportance, Outbox, encoded, logged,
};
use crate::task_info::{TaskInfoStruct, TaskResult, descriptor_model, type_token};

verus! {

/// How one execution of a task ended: the line for standard output, if
/// there is one, and the result code. Standard output carries the output
/// properties and nothing else, so a failed execution has no line.
#[derive(Debug, PartialEq, Eq)]
pub struct Execution {
    pub output: Option<String>,
    pub result: TaskResult,
}

/// An `Execution` with its line of output as a sequence of characters.
pub struct ExecutionModel {
    pub output: Option<Seq<char>>,
    pub result: TaskResult,
}

impl View for Execution {
    type V = ExecutionModel;

    open spec fn view(&self) -> ExecutionModel {
        ExecutionModel {
            output: match self.output {
                Some(line) => Some(line@),
                None => None,
            },
            result: self.result,
        }
    }
}

/// The execution that failed.
pub open spec fn failure() -> ExecutionModel {
    ExecutionModel { output: None, result: TaskResult::Failure }
}

/// The execution that succeeded with the given line of output.
pub open spec fn success(line: Seq<char>) -> ExecutionModel {
    ExecutionModel { output: Some(line), result: TaskResult::Success }
}

/// The name of a kind of JSON value in a diagnostic.
pub open spec fn kind_name(kind: JsonKind) -> Seq<char> {
    match kind {
        JsonKind::Null => "null"@,
        JsonKind::Bool => "bool"@,
        JsonKind::Number => "number"@,
        JsonKind::String => "string"@,
        JsonKind::Array => "array"@,
        JsonKind::Object => "object"@,
    }
}

/// The diagnostic for an input that was refused.
pub open spec fn refusal_text(error: DecodeErrorModel) -> Seq<char> {
    match error {
        DecodeErrorModel::InvalidJson => "Failed to parse task input."@,
        DecodeErrorModel::MissingRequiredProperty(name) => "Missing required property: "@ + name,
        DecodeErrorModel::TypeMismatch { name, expected, actual } => "Wrong type for property "@
            + name + ": expected "@ + type_token(expected) + ", found "@ + kind_name(actual),
    }
}

/// What was logged when the output could not be written as text.
pub open spec fn output_failure_text() -> Seq<char> {
    "Failed to encode task output."@
}

/// What was logged when the descriptor could not be written as text.
pub open spec fn descriptor_failure_text() -> Seq<char> {
    "Failed to encode task descriptor."@
}

/// How an execution ends whose output was written as the given line, or
/// could not be written as text.
pub open spec fn finished(rendered: Option<Seq<char>>) -> ExecutionModel {
    match rendered {
        Some(line) => success(line),
        None => failure(),
    }
}

/// The calls after such an end: an error is logged where the output could
/// not be written as text.
pub open spec fn closed(calls: Seq<BoundaryCallModel>, rendered: Option<Seq<char>>) -> Seq<
    BoundaryCallModel,
> {
    match rendered {
        Some(_) => calls,
        None => logged(calls, LogLevel::Error, output_failure_text()),
    }
}

/// The calls after a descriptor was reported: a message of low importance
/// that shows the descriptor, then the descriptor itself. Where the
/// descriptor could not be written as text, or cannot cross the boundary,
/// an error is logged in place of the report.
pub open spec fn reported(calls: Seq<BoundaryCallModel>, rendered: Option<Seq<char>>) -> Seq<
    BoundaryCallModel,
> {
    match rendered {
        Some(json) => match encoded(json) {
            Some(bytes) => logged(
                calls,
                LogLevel::Message(MessageImportance::Low),
                "TaskInfo: "@ + json,
            ).push(BoundaryCallModel::TaskInfo { json: bytes }),
            None => logged(calls, LogLevel::Error, descriptor_failure_text()),
        },
        None => logged(calls, LogLevel::Error, descriptor_failure_text()),
    }
}

fn kind_text(kind: JsonKind) -> (name: &'static str)
    ensures
        name@ == kind_name(kind),
{
    match kind {
        JsonKind::Null => "null",
        JsonKind::Bool => "bool",
        JsonKind::Number => "number",
        JsonKind::String => "string",
        JsonKind::Array => "array",
        JsonKind::Object => "object",
    }
}

impl DecodeError {
    /// The diagnostic to log for this error.
    pub fn message(&self) -> (text: String)
        ensures
            text@ == refusal_text(self@),
    {
        match self {
            DecodeError::InvalidJson => "Failed to parse task input.".to_owned(),
            DecodeError::MissingRequiredProperty(name) => {
                let mut text = "Missing required property: ".to_owned();
                text.append(name.as_str());
                text
            },
            DecodeError::TypeMismatch { name, expected, actual } => {
                let mut text = "Wrong type for property ".to_owned();
                text.append(name.as_str());
                text.append(": expected ");
                text.append(expected.token());
                text.append(", found ");
                text.append(kind_text(*actual));
                text
            },
        }
    }
}

/// Ends an execution whose input was refused: the diagnostic is logged as
/// an error, nothing is written to standard output, the result is
/// `Failure`.
pub fn refuse(error: &DecodeError, outbox: &mut Outbox) -> (execution: Execution)
    ensures
        execution@ == failure(),
        final(outbox)@ == logged(old(outbox)@, LogLevel::Error, refusal_text(error@)),
{
    let text = error.message();
    let _ = outbox.log_error(text.as_str());
    Execution { output: None, result: TaskResult::Failure }
}

/// Ends an execution that failed while doing its work: the message is
/// logged as an error, nothing is written to standard output, the result is
/// `Failure`.
pub fn fail(message: &str, outbox: &mut Outbox) -> (execution: Execution)
    ensures
        execution@ == failure(),
        final(outbox)@ == logged(old(outbox)@, LogLevel::Error, message@),
{
    let _ = outbox.log_error(message);
    Execution { output: None, result: TaskResult::Failure }
}

/// Ends an execution with the output that was encoded for it: the line
/// goes to standard output and the result is `Success`. Where encoding
/// failed, an error is logged and the result is `Failure`.
pub fn finish(rendered: Result<String, RenderError>, outbox: &mut Outbox) -> (execution: Execution)
    ensures
        match rendered {
            Ok(line) => execution@ == success(line@) && final(outbox)@ == old(outbox)@,
            Err(_) => execution@ == failure() && final(outbox)@ == logged(
                old(outbox)@,
                LogLevel::Error,
                output_failure_text(),
            ),
        },
{
    match rendered {
        Ok(line) => Execution { output: Some(line), result: TaskResult::Success },
        Err(_) => fail("Failed to encode task output.", outbox),
    }
}

/// Reports a descriptor that was written as text, or that it could not be.
pub fn report(rendered: Result<String, RenderError>, outbox: &mut Outbox)
    ensures
        final(outbox)@ == reported(
            old(outbox)@,
            match rendered {
                Ok(json) => Some(json@),
                Err(_) => None,
            },
        ),
{
    match rendered {
        Ok(json) => {
            match crate::logging::encode_text(json.as_str()) {
                Ok(_) => {
                    let mut shown = "TaskInfo: ".to_owned();
                    shown.append(json.as_str());
                    let _ = outbox.log_message(MessageImportance::Low, shown.as_str());
                    let _ = outbox.task_info(json.as_str());
                },
                Err(_) => {
                    let _ = outbox.log_error("Failed to encode task descriptor.");
                },
            }
        },
        Err(_) => {
            let _ = outbox.log_error("Failed to encode task descriptor.");
        },
    }
}

/// Sends the descriptor of a task to the host: a message of low importance
/// that shows it, then the descriptor itself as one line of JSON.
pub fn task_info(task_info_struct: &TaskInfoStruct, outbox: &mut Outbox)
    requires
        task_info_struct@.well_formed(),
    ensures
        final(outbox)@ == reported(
            old(outbox)@,
            rendered_text(descriptor_model(task_info_struct@)),
        ),
{
    report(task_info_struct.describe(), outbox)
}

} // verus!
