use task_bridge::logging::{BoundaryCall, Outbox};
use task_bridge::merge_directories::{merge_finish, merge_start, merge_task, MergeRequest};
use task_bridge::task::Execution;
use task_bridge::task_info::TaskResult;

#[test]
fn merge_task_reads_the_guest_paths_in_order() {
    let mut outbox = Outbox::new();
    let input = "{\"properties\":{\"Dirs\":[{\"ItemSpec\":\"C:\\\\one\",\"WasmPath\":\"one\"},{\"ItemSpec\":\"C:\\\\two\",\"WasmPath\":\"two\"}]}}";
    assert_eq!(
        merge_start(input, &mut outbox),
        Ok(MergeRequest {
            sources: vec!["one".to_string(), "two".to_string()],
            destination: "output_dir".to_string(),
        })
    );
    assert_eq!(outbox.calls, vec![]);
}

#[test]
fn merge_task_takes_the_destination_from_the_input() {
    let mut outbox = Outbox::new();
    let input = "{\"properties\":{\"MergedName\":\"all\",\"Dirs\":[]}}";
    assert_eq!(
        merge_start(input, &mut outbox),
        Ok(MergeRequest { sources: vec![], destination: "all".to_string() })
    );
}

#[test]
fn merge_task_refuses_an_input() {
    let mut outbox = Outbox::new();
    assert_eq!(
        merge_start("{\"properties\":{\"MergedName\":\"all\"}}", &mut outbox),
        Err(Execution { output: None, result: TaskResult::Failure })
    );
    assert_eq!(
        outbox.calls,
        vec![BoundaryCall::LogError { text: b"Missing required property: Dirs".to_vec() }]
    );

    let mut outbox = Outbox::new();
    assert_eq!(
        merge_start("{\"properties\":{\"Dirs\":[{\"ItemSpec\":\"no guest path\"}]}}", &mut outbox),
        Err(Execution { output: None, result: TaskResult::Failure })
    );
    assert_eq!(
        outbox.calls,
        vec![BoundaryCall::LogError {
            text: b"Wrong type for property Dirs: expected ITaskItem[], found array".to_vec()
        }]
    );
}

#[test]
fn merge_task_logs_the_sources_and_hands_back_the_directory() {
    let mut outbox = Outbox::new();
    let request = MergeRequest {
        sources: vec!["one".to_string(), "t\0wo".to_string(), "three".to_string()],
        destination: "output_dir".to_string(),
    };
    assert_eq!(
        merge_finish(&request, &mut outbox),
        Execution {
            output: Some(
                "{\"properties\":{\"MergedDir\":{\"ItemSpec\":\"output_dir\",\"WasmPath\":\"output_dir\"}}}"
                    .to_string()
            ),
            result: TaskResult::Success,
        }
    );
    assert_eq!(
        outbox.calls,
        vec![
            BoundaryCall::LogWarning { text: b"WasmPath: one".to_vec() },
            BoundaryCall::LogWarning { text: b"WasmPath: three".to_vec() },
        ]
    );
    assert!(merge_task().is_well_formed());
}
