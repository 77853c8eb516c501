use task_bridge::codec::decode_input;
use task_bridge::concat_files::{
    concat_contents, concat_finish, concat_start, concat_task, ConcatRequest,
};
use task_bridge::logging::{BoundaryCall, Outbox};
use task_bridge::task::Execution;
use task_bridge::task_info::TaskResult;

#[test]
fn concat_end_to_end() {
    let mut outbox = Outbox::new();
    let task = concat_task();
    assert!(task.is_well_formed());
    let input = "{\"properties\":{\"InputFile1\":{\"WasmPath\":\"a.txt\"},\"InputFile2\":{\"WasmPath\":\"b.txt\"}}}";
    let request = concat_start(input, &mut outbox).unwrap();
    assert_eq!(
        request,
        ConcatRequest {
            first: "a.txt".to_string(),
            second: "b.txt".to_string(),
            output: "wasmconcatoutput.txt".to_string(),
        }
    );
    assert_eq!(concat_contents("fizz", "buzz"), "fizzbuzz");
    let execution = concat_finish(&request, &mut outbox);
    assert_eq!(
        execution,
        Execution {
            output: Some(
                "{\"properties\":{\"OutputFile\":{\"ItemSpec\":\"wasmconcatoutput.txt\",\"WasmPath\":\"wasmconcatoutput.txt\"}}}"
                    .to_string()
            ),
            result: TaskResult::Success,
        }
    );
    assert_eq!(outbox.calls, vec![]);
    assert!(!outbox.build_failed());
}

#[test]
fn concat_takes_the_output_name_from_the_input() {
    let mut outbox = Outbox::new();
    let input = "{\"properties\":{\"OutputName\":\"out/joined.txt\",\"InputFile2\":{\"ItemSpec\":\"C:\\\\b\",\"WasmPath\":\"b\"},\"InputFile1\":{\"ItemSpec\":\"C:\\\\a\",\"WasmPath\":\"a\"}}}\n";
    let request = concat_start(input, &mut outbox).unwrap();
    assert_eq!(request.first, "a");
    assert_eq!(request.second, "b");
    assert_eq!(request.output, "out/joined.txt");
    assert_eq!(
        concat_finish(&request, &mut outbox).output.unwrap(),
        "{\"properties\":{\"OutputFile\":{\"ItemSpec\":\"out/joined.txt\",\"WasmPath\":\"out/joined.txt\"}}}"
    );
}

#[test]
fn concat_refuses_an_input_before_any_side_effect() {
    let failed = Execution { output: None, result: TaskResult::Failure };
    let mut outbox = Outbox::new();
    assert_eq!(
        concat_start("{\"properties\":{\"InputFile1\":{\"WasmPath\":\"a.txt\"}}}", &mut outbox),
        Err(Execution { output: None, result: TaskResult::Failure })
    );
    assert_eq!(
        outbox.calls,
        vec![BoundaryCall::LogError { text: b"Missing required property: InputFile2".to_vec() }]
    );
    assert!(outbox.build_failed());

    let mut outbox = Outbox::new();
    assert_eq!(
        concat_start(
            "{\"properties\":{\"InputFile1\":\"a.txt\",\"InputFile2\":{\"WasmPath\":\"b.txt\"}}}",
            &mut outbox
        ),
        Err(Execution { output: None, result: TaskResult::Failure })
    );
    assert_eq!(
        outbox.calls,
        vec![BoundaryCall::LogError {
            text: b"Wrong type for property InputFile1: expected ITaskItem, found string".to_vec()
        }]
    );

    let mut outbox = Outbox::new();
    assert_eq!(concat_start("not json", &mut outbox), Err(failed));
    assert_eq!(
        outbox.calls,
        vec![BoundaryCall::LogError { text: b"Failed to parse task input.".to_vec() }]
    );
}

#[test]
fn concat_request_from_a_decoded_bag() {
    let bag = decode_input(
        "{\"properties\":{\"InputFile1\":{\"WasmPath\":\"one\"},\"InputFile2\":{\"WasmPath\":\"two\"},\"OutputName\":\"\"}}",
        &concat_task(),
    )
    .unwrap();
    assert_eq!(
        ConcatRequest::from_bag(&bag),
        ConcatRequest { first: "one".to_string(), second: "two".to_string(), output: String::new() }
    );
}

#[test]
fn concat_contents_keeps_both_parts() {
    assert_eq!(concat_contents("", ""), "");
    assert_eq!(concat_contents("a\n", ""), "a\n");
    assert_eq!(concat_contents("", "b"), "b");
    assert_eq!(concat_contents("é", "€\0"), "é€\0");
}
