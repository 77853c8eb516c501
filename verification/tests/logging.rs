use task_bridge::json::RenderError;
use task_bridge::logging::{
    encode_text, log_call, BoundaryCall, EncodingError, LogLevel, MessageImportance, Outbox,
};
use task_bridge::task::{fail, finish, report, task_info, Execution};
use task_bridge::task_info::TaskResult;
use task_bridge::GetTaskInfo;

#[test]
fn text_crosses_as_its_utf8_bytes() {
    assert_eq!(encode_text(""), Ok(vec![]));
    assert_eq!(encode_text("abc"), Ok(vec![0x61, 0x62, 0x63]));
    assert_eq!(encode_text("é"), Ok(vec![0xC3, 0xA9]));
    assert_eq!(encode_text("€"), Ok(vec![0xE2, 0x82, 0xAC]));
    assert_eq!(encode_text("𝄞"), Ok(vec![0xF0, 0x9D, 0x84, 0x9E]));
    assert_eq!(encode_text("a\u{80}\u{7f}"), Ok(vec![0x61, 0xC2, 0x80, 0x7F]));
}

#[test]
fn text_with_a_terminator_does_not_cross() {
    assert_eq!(encode_text("\0"), Err(EncodingError { position: 0 }));
    assert_eq!(encode_text("ab\0cd\0"), Err(EncodingError { position: 2 }));
    assert_eq!(encode_text("é€\0"), Err(EncodingError { position: 5 }));
}

#[test]
fn log_call_picks_the_import() {
    assert_eq!(log_call(LogLevel::Error, "e"), Ok(BoundaryCall::LogError { text: vec![0x65] }));
    assert_eq!(log_call(LogLevel::Warning, "w"), Ok(BoundaryCall::LogWarning { text: vec![0x77] }));
    assert_eq!(
        log_call(LogLevel::Message(MessageImportance::High), "m"),
        Ok(BoundaryCall::LogMessage { importance: MessageImportance::High, text: vec![0x6D] })
    );
    assert_eq!(log_call(LogLevel::Warning, "w\0"), Err(EncodingError { position: 1 }));
}

#[test]
fn outbox_records_calls_in_order() {
    let mut outbox = Outbox::new();
    assert_eq!(outbox.calls, vec![]);
    assert_eq!(outbox.log_message(MessageImportance::Normal, "one"), Ok(()));
    assert_eq!(outbox.log_warning("two"), Ok(()));
    assert_eq!(outbox.log(LogLevel::Message(MessageImportance::Low), "three"), Ok(()));
    assert_eq!(outbox.task_info("{}"), Ok(()));
    assert_eq!(
        outbox.calls,
        vec![
            BoundaryCall::LogMessage { importance: MessageImportance::Normal, text: b"one".to_vec() },
            BoundaryCall::LogWarning { text: b"two".to_vec() },
            BoundaryCall::LogMessage { importance: MessageImportance::Low, text: b"three".to_vec() },
            BoundaryCall::TaskInfo { json: b"{}".to_vec() },
        ]
    );
    assert!(!outbox.build_failed());
}

#[test]
fn a_text_that_cannot_cross_costs_one_call_only() {
    let mut outbox = Outbox::new();
    assert_eq!(outbox.log_warning("kept"), Ok(()));
    assert_eq!(outbox.log_warning("lo\0st"), Err(EncodingError { position: 2 }));
    assert_eq!(outbox.log_error("\0"), Err(EncodingError { position: 0 }));
    assert_eq!(outbox.task_info("{\0}"), Err(EncodingError { position: 1 }));
    assert_eq!(outbox.log_message(MessageImportance::High, "also kept"), Ok(()));
    assert_eq!(
        outbox.calls,
        vec![
            BoundaryCall::LogWarning { text: b"kept".to_vec() },
            BoundaryCall::LogMessage { importance: MessageImportance::High, text: b"also kept".to_vec() },
        ]
    );
    assert!(!outbox.build_failed());
}

#[test]
fn an_error_marks_the_build_as_failed() {
    let mut outbox = Outbox::new();
    assert_eq!(outbox.log_warning("w"), Ok(()));
    assert!(!outbox.build_failed());
    assert_eq!(outbox.log_error("bad"), Ok(()));
    assert!(outbox.build_failed());
    assert_eq!(outbox.log_message(MessageImportance::Low, "later"), Ok(()));
    assert!(outbox.build_failed());
    assert_eq!(outbox.calls[1], BoundaryCall::LogError { text: b"bad".to_vec() });
}

#[test]
fn descriptor_is_shown_and_then_reported() {
    let mut outbox = Outbox::new();
    let info = GetTaskInfo();
    let json = info.describe().unwrap();
    task_info(&info, &mut outbox);
    let mut shown = b"TaskInfo: ".to_vec();
    shown.extend_from_slice(json.as_bytes());
    assert_eq!(
        outbox.calls,
        vec![
            BoundaryCall::LogMessage { importance: MessageImportance::Low, text: shown },
            BoundaryCall::TaskInfo { json: json.as_bytes().to_vec() },
        ]
    );
}

#[test]
fn a_descriptor_that_could_not_be_written_is_an_error() {
    let mut outbox = Outbox::new();
    report(Err(RenderError), &mut outbox);
    assert_eq!(
        outbox.calls,
        vec![BoundaryCall::LogError { text: b"Failed to encode task descriptor.".to_vec() }]
    );
    let mut other = Outbox::new();
    report(Ok("{\"a\":\"\0\"}".to_string()), &mut other);
    assert_eq!(
        other.calls,
        vec![BoundaryCall::LogError { text: b"Failed to encode task descriptor.".to_vec() }]
    );
    assert!(other.build_failed());
}

#[test]
fn finish_hands_the_line_out_or_fails() {
    let mut outbox = Outbox::new();
    assert_eq!(
        finish(Ok("{\"properties\":{}}".to_string()), &mut outbox),
        Execution { output: Some("{\"properties\":{}}".to_string()), result: TaskResult::Success }
    );
    assert_eq!(outbox.calls, vec![]);
    assert_eq!(
        finish(Err(RenderError), &mut outbox),
        Execution { output: None, result: TaskResult::Failure }
    );
    assert_eq!(
        outbox.calls,
        vec![BoundaryCall::LogError { text: b"Failed to encode task output.".to_vec() }]
    );
}

#[test]
fn fail_logs_the_message_as_an_error() {
    let mut outbox = Outbox::new();
    assert_eq!(
        fail("Failed to merge directories: denied", &mut outbox),
        Execution { output: None, result: TaskResult::Failure }
    );
    assert_eq!(
        outbox.calls,
        vec![BoundaryCall::LogError { text: b"Failed to merge directories: denied".to_vec() }]
    );
    assert!(outbox.build_failed());
}
