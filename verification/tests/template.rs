use task_bridge::logging::{BoundaryCall, Outbox};
use task_bridge::task::Execution;
use task_bridge::task_info::TaskResult;
use task_bridge::{Execute, GetTaskInfo};

#[test]
fn template_descriptor_lists_properties_in_declaration_order() {
    let info = GetTaskInfo();
    assert!(info.is_well_formed());
    assert_eq!(
        info.describe().unwrap(),
        "{\"Properties\":{\"TestNormalProperty\":{\"type\":\"string\",\"required\":false,\"output\":false},\"TestOutputProperty\":{\"type\":\"string\",\"required\":false,\"output\":true},\"TestRequiredProperty\":{\"type\":\"string\",\"required\":true,\"output\":false},\"TestBoolProperty\":{\"type\":\"bool\",\"required\":false,\"output\":false}}}"
    );
}

#[test]
fn template_execution_logs_input_and_writes_output() {
    let mut outbox = Outbox::new();
    let input = "{\"properties\":{\"TestRequiredProperty\":\"needed\",\"TestBoolProperty\":true}}\n";
    let execution = Execute(input, &mut outbox);
    assert_eq!(execution.result, TaskResult::Success);
    assert_eq!(
        execution.output.unwrap(),
        "{\"properties\":{\"TestOutputProperty\":\"This is the output property value from WASM task\"}}"
    );
    assert_eq!(outbox.calls, vec![BoundaryCall::LogWarning { text: input.as_bytes().to_vec() }]);
    assert!(!outbox.build_failed());
}

#[test]
fn template_execution_refuses_an_input_with_a_terminator() {
    let mut outbox = Outbox::new();
    let input = "{\"properties\":{\"TestRequiredProperty\":\"a\u{0}b\"}}";
    let execution = Execute(input, &mut outbox);
    assert_eq!(execution, Execution { output: None, result: TaskResult::Failure });
    assert_eq!(
        outbox.calls,
        vec![BoundaryCall::LogError { text: b"Failed to parse task input.".to_vec() }]
    );
}

#[test]
fn template_execution_refuses_an_input_without_its_required_property() {
    let mut outbox = Outbox::new();
    let execution = Execute("{\"properties\":{\"TestNormalProperty\":\"n\"}}", &mut outbox);
    assert_eq!(execution, Execution { output: None, result: TaskResult::Failure });
    assert_eq!(
        outbox.calls,
        vec![BoundaryCall::LogError {
            text: b"Missing required property: TestRequiredProperty".to_vec()
        }]
    );
    assert!(outbox.build_failed());
}

#[test]
fn template_execution_refuses_what_is_no_json() {
    let mut outbox = Outbox::new();
    let execution = Execute("TestRequiredProperty=1", &mut outbox);
    assert_eq!(execution, Execution { output: None, result: TaskResult::Failure });
    assert_eq!(
        outbox.calls,
        vec![BoundaryCall::LogError { text: b"Failed to parse task input.".to_vec() }]
    );
}
