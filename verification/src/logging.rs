//! What a task sends to the host besides its output: log entries and its
//! descriptor.
//!
//! The host imports take a text as a buffer of bytes with its length. A
//! text crosses the boundary as its UTF-8 encoding, and only where the
//! encoding holds no zero byte, which the buffer representation keeps for
//! its terminator. This module encodes the texts and records the calls; the
//! caller hands each recorded call to the host import of the same name.

use vstd::prelude::*;
use vstd::utf8::{char_is_scalar, char_u32_cast, encode_scalar, encode_utf8, is_scalar};

verus! {

/// How prominently the host shows a message.
#[derive(Debug, Clone, Copy, PartialEq, Eq, Structural)]
pub enum MessageImportance {
    High,
    Normal,
    Low,
}

/// The three levels of a log entry. An entry at level `Error` makes the
/// host count the build step as failed, whatever the task returns.
#[derive(Debug, Clone, Copy, PartialEq, Eq, Structural)]
pub enum LogLevel {
    Error,
    Warning,
    Message(MessageImportance),
}

/// A text cannot cross the boundary: its encoding holds a zero byte, the
/// first at offset `position`.
#[derive(Debug, Clone, Copy, PartialEq, Eq, Structural)]
pub struct EncodingError {
    pub position: usize,
}

/// One call of a host import, with the encoded text it carries.
#[derive(Debug, PartialEq, Eq)]
pub enum BoundaryCall {
    LogError { text: Vec<u8> },
    LogWarning { text: Vec<u8> },
    LogMessage { importance: MessageImportance, text: Vec<u8> },
    TaskInfo { json: Vec<u8> },
}

/// A `BoundaryCall` with its text as a sequence of bytes.
pub enum BoundaryCallModel {
    LogError { text: Seq<u8> },
    LogWarning { text: Seq<u8> },
    LogMessage { importance: MessageImportance, text: Seq<u8> },
    TaskInfo { json: Seq<u8> },
}

impl View for BoundaryCall {
    type V = BoundaryCallModel;

    open spec fn view(&self) -> BoundaryCallModel {
        match self {
            BoundaryCall::LogError { text } => BoundaryCallModel::LogError { text: text@ },
            BoundaryCall::LogWarning { text } => BoundaryCallModel::LogWarning { text: text@ },
            BoundaryCall::LogMessage { importance, text } => BoundaryCallModel::LogMessage {
                importance: *importance,
                text: text@,
            },
            BoundaryCall::TaskInfo { json } => BoundaryCallModel::TaskInfo { json: json@ },
        }
    }
}

/// No byte is zero.
pub open spec fn terminator_free(bytes: Seq<u8>) -> bool {
    forall|i: int| 0 <= i < bytes.len() ==> bytes[i] != 0
}

/// The first zero byte stands at offset `at`.
pub open spec fn first_terminator(bytes: Seq<u8>, at: int) -> bool {
    &&& 0 <= at < bytes.len()
    &&& bytes[at] == 0
    &&& forall|i: int| 0 <= i < at ==> bytes[i] != 0
}

/// The call that logs the encoded text at the given level.
pub open spec fn log_call_model(level: LogLevel, text: Seq<u8>) -> BoundaryCallModel {
    match level {
        LogLevel::Error => BoundaryCallModel::LogError { text },
        LogLevel::Warning => BoundaryCallModel::LogWarning { text },
        LogLevel::Message(importance) => BoundaryCallModel::LogMessage { importance, text },
    }
}

/// What encoding a text for the boundary gives.
pub open spec fn encoded(text: Seq<char>) -> Option<Seq<u8>> {
    if terminator_free(encode_utf8(text)) {
        Some(encode_utf8(text))
    } else {
        None
    }
}

/// The calls after an attempt to log `text`: one more where the text can
/// cross the boundary, the same as before where it cannot.
pub open spec fn logged(calls: Seq<BoundaryCallModel>, level: LogLevel, text: Seq<char>) -> Seq<
    BoundaryCallModel,
> {
    match encoded(text) {
        Some(bytes) => calls.push(log_call_model(level, bytes)),
        None => calls,
    }
}

/// Some recorded call logs an error.
pub open spec fn marks_failure(calls: Seq<BoundaryCallModel>) -> bool {
    exists|i: int| 0 <= i < calls.len() && #[trigger] calls[i] is LogError
}

proof fn lemma_leading_and_continuation_bytes(s: u32)
    by (bit_vector)
    ensures
        s <= 0x7F ==> (((s & 0x7F) as u8 == 0) <==> s == 0),
        0xC0u8 | ((s >> 6) & 0x1F) as u8 != 0,
        0xE0u8 | ((s >> 12) & 0x0F) as u8 != 0,
        0xF0u8 | ((s >> 18) & 0x7) as u8 != 0,
        0x80u8 | (s & 0x3F) as u8 != 0,
        0x80u8 | ((s >> 6) & 0x3F) as u8 != 0,
        0x80u8 | ((s >> 12) & 0x3F) as u8 != 0,
{
}

proof fn lemma_scalar_terminator(s: u32)
    requires
        is_scalar(s),
    ensures
        terminator_free(encode_scalar(s)) <==> s != 0,
{
    lemma_leading_and_continuation_bytes(s);
    let bytes = encode_scalar(s);
    if s == 0 {
        assert(bytes[0] == 0);
    }
}

/// The encoding of a text holds a zero byte exactly when the text holds the
/// character with code zero.
pub proof fn lemma_terminator_is_nul(text: Seq<char>)
    ensures
        terminator_free(encode_utf8(text)) <==> !text.contains('\0'),
    decreases text.len(),
{
    if text.len() > 0 {
        let head = encode_scalar(text[0] as u32);
        let rest = text.drop_first();
        let tail = encode_utf8(rest);
        char_is_scalar(text[0]);
        lemma_scalar_terminator(text[0] as u32);
        lemma_terminator_is_nul(rest);
        assert((text[0] as u32 == 0) <==> text[0] == '\0') by {
            assert('\0' as u32 == 0);
            if text[0] as u32 == 0 {
                char_u32_cast(text[0], 0);
                char_u32_cast('\0', 0);
            }
        }
        if terminator_free(head + tail) {
            assert forall|i: int| 0 <= i < head.len() implies head[i] != 0 by {
                assert((head + tail)[i] == head[i]);
            }
            assert forall|i: int| 0 <= i < tail.len() implies tail[i] != 0 by {
                assert((head + tail)[head.len() + i] == tail[i]);
            }
            assert forall|i: int| 0 <= i < text.len() implies text[i] != '\0' by {
                if i > 0 {
                    assert(rest[i - 1] == text[i]);
                    assert(rest.contains(text[i]));
                }
            }
        }
        if !text.contains('\0') {
            assert(text[0] != '\0');
            assert forall|i: int| 0 <= i < rest.len() implies rest[i] != '\0' by {
                assert(rest[i] == text[i + 1]);
                assert(text.contains(text[i + 1]));
            }
            assert(!rest.contains('\0'));
        }
    }
}

/// Encodes a text for the boundary: its UTF-8 bytes, unless one of them is
/// zero. That is so exactly when the text holds the character with code
/// zero.
pub fn encode_text(text: &str) -> (result: Result<Vec<u8>, EncodingError>)
    ensures
        match result {
            Ok(bytes) => encoded(text@) == Some(bytes@),
            Err(error) => first_terminator(encode_utf8(text@), error.position as int),
        },
        result is Ok <==> !text@.contains('\0'),
{
    let source = text.as_bytes();
    let mut bytes: Vec<u8> = Vec::new();
    let mut i: usize = 0;
    proof {
        lemma_terminator_is_nul(text@);
    }
    while i < source.len()
        invariant
            i <= source.len(),
            source@ == encode_utf8(text@),
            bytes@ == source@.take(i as int),
            forall|k: int| 0 <= k < i ==> source@[k] != 0,
            terminator_free(encode_utf8(text@)) <==> !text@.contains('\0'),
        decreases source.len() - i,
    {
        if source[i] == 0 {
            return Err(EncodingError { position: i });
        }
        bytes.push(source[i]);
        assert(bytes@ =~= source@.take(i + 1));
        i = i + 1;
    }
    assert(bytes@ =~= source@);
    Ok(bytes)
}

/// The call that logs `text` at the given level, where the text can cross
/// the boundary.
pub fn log_call(level: LogLevel, text: &str) -> (result: Result<BoundaryCall, EncodingError>)
    ensures
        match result {
            Ok(call) => encoded(text@) matches Some(bytes) && call@ == log_call_model(level, bytes),
            Err(error) => first_terminator(encode_utf8(text@), error.position as int),
        },
{
    match encode_text(text) {
        Ok(bytes) => Ok(
            match level {
                LogLevel::Error => BoundaryCall::LogError { text: bytes },
                LogLevel::Warning => BoundaryCall::LogWarning { text: bytes },
                LogLevel::Message(importance) => BoundaryCall::LogMessage { importance, text: bytes },
            },
        ),
        Err(error) => Err(error),
    }
}

/// The calls a task has made so far, in order. The caller performs them
/// against the host; a test reads them.
#[derive(Debug, PartialEq, Eq)]
pub struct Outbox {
    pub calls: Vec<BoundaryCall>,
}

/// The calls by their views, in order.
pub open spec fn calls_model(calls: Seq<BoundaryCall>) -> Seq<BoundaryCallModel> {
    calls.map_values(|call: BoundaryCall| call@)
}

impl View for Outbox {
    type V = Seq<BoundaryCallModel>;

    open spec fn view(&self) -> Seq<BoundaryCallModel> {
        calls_model(self.calls@)
    }
}

impl Outbox {
    /// An outbox without calls.
    pub fn new() -> (outbox: Outbox)
        ensures
            outbox@ == Seq::<BoundaryCallModel>::empty(),
    {
        let outbox = Outbox { calls: Vec::new() };
        assert(outbox@ =~= Seq::empty());
        outbox
    }

    /// Logs `text` at the given level. A text that cannot cross the boundary
    /// is reported to the caller and leaves the outbox as it was: the one
    /// log entry is lost, nothing else.
    pub fn log(&mut self, level: LogLevel, text: &str) -> (result: Result<(), EncodingError>)
        ensures
            final(self)@ == logged(old(self)@, level, text@),
            match result {
                Ok(_) => encoded(text@) is Some,
                Err(error) => first_terminator(encode_utf8(text@), error.position as int),
            },
    {
        match log_call(level, text) {
            Ok(call) => {
                let ghost added = call@;
                self.calls.push(call);
                assert(self@ =~= old(self)@.push(added));
                Ok(())
            },
            Err(error) => Err(error),
        }
    }

    /// Logs an error. The host will count the build step as failed.
    pub fn log_error(&mut self, message: &str) -> (result: Result<(), EncodingError>)
        ensures
            final(self)@ == logged(old(self)@, LogLevel::Error, message@),
            match result {
                Ok(_) => encoded(message@) is Some,
                Err(error) => first_terminator(encode_utf8(message@), error.position as int),
            },
    {
        self.log(LogLevel::Error, message)
    }

    /// Logs a warning.
    pub fn log_warning(&mut self, message: &str) -> (result: Result<(), EncodingError>)
        ensures
            final(self)@ == logged(old(self)@, LogLevel::Warning, message@),
            match result {
                Ok(_) => encoded(message@) is Some,
                Err(error) => first_terminator(encode_utf8(message@), error.position as int),
            },
    {
        self.log(LogLevel::Warning, message)
    }

    /// Logs a message of the given importance.
    pub fn log_message(&mut self, message_importance: MessageImportance, message: &str) -> (result:
        Result<(), EncodingError>)
        ensures
            final(self)@ == logged(old(self)@, LogLevel::Message(message_importance), message@),
            match result {
                Ok(_) => encoded(message@) is Some,
                Err(error) => first_terminator(encode_utf8(message@), error.position as int),
            },
    {
        self.log(LogLevel::Message(message_importance), message)
    }

    /// Reports the descriptor of the task, given as JSON text, to the host.
    pub fn task_info(&mut self, task_info_json: &str) -> (result: Result<(), EncodingError>)
        ensures
            match encoded(task_info_json@) {
                Some(bytes) => result is Ok && final(self)@ == old(self)@.push(
                    BoundaryCallModel::TaskInfo { json: bytes },
                ),
                None => result is Err && final(self)@ == old(self)@,
            },
            result matches Err(error) ==> first_terminator(
                encode_utf8(task_info_json@),
                error.position as int,
            ),
    {
        match encode_text(task_info_json) {
            Ok(bytes) => {
                let ghost added = BoundaryCallModel::TaskInfo { json: bytes@ };
                self.calls.push(BoundaryCall::TaskInfo { json: bytes });
                assert(self@ =~= old(self)@.push(added));
                Ok(())
            },
            Err(error) => Err(error),
        }
    }

    /// Whether an error was logged, so that the host counts the build step
    /// as failed.
    pub fn build_failed(&self) -> (failed: bool)
        ensures
            failed == marks_failure(self@),
    {
        let mut i: usize = 0;
        while i < self.calls.len()
            invariant
                i <= self.calls.len(),
                forall|k: int| 0 <= k < i ==> !(#[trigger] self@[k] is LogError),
            decreases self.calls.len() - i,
        {
            assert(self@[i as int] == self.calls@[i as int]@);
            match &self.calls[i] {
                BoundaryCall::LogError { .. } => {
                    return true;
                },
                _ => {},
            }
            i = i + 1;
        }
        false
    }
}

/// An error that is logged marks the build step as failed, and the mark
/// stays whatever is logged afterwards.
pub proof fn logged_error_marks_failure(
    calls: Seq<BoundaryCallModel>,
    level: LogLevel,
    text: Seq<char>,
)
    ensures
        marks_failure(calls) ==> marks_failure(logged(calls, level, text)),
        level is Error && encoded(text) is Some ==> marks_failure(logged(calls, level, text)),
        !(level is Error) ==> marks_failure(logged(calls, level, text)) == marks_failure(calls),
{
    let after = logged(calls, level, text);
    if marks_failure(calls) {
        let i = choose|i: int| 0 <= i < calls.len() && #[trigger] calls[i] is LogError;
        assert(after[i] == calls[i]);
    }
    if encoded(text) is Some {
        assert(after[calls.len() as int] == log_call_model(level, encoded(text)->0));
        if !(level is Error) && marks_failure(after) {
            let i = choose|i: int| 0 <= i < after.len() && #[trigger] after[i] is LogError;
            assert(i < calls.len());
            assert(calls[i] == after[i]);
        }
    }
}

} // verus!
