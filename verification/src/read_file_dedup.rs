//! The last step of a read: a repeated result is replaced by a reference to a stored one where
//! that is shorter.

use vstd::prelude::*;
use vstd::string::*;

use crate::argument_repair::ToolCallSource;
use crate::artifact_id::{artifact_id_of, OutputArtifactId};
use crate::protocol::FunctionCallError;
use crate::read_file::InlineRead;
use crate::read_file_ledger::{
    after_read, observation, KeyModel, ReadLedger, ReadLedgerKey, ReadLedgerObservation,
};
use crate::read_file_output::{inline_result_digest, ReadFileToolOutput, FILE_READ_CONTENT_TYPE};
use crate::read_file_snapshot::FileMetadata;
use crate::read_file_window::{line_fragments, newlines, ReadFileWindow};
use crate::text::{
    byte_len, chars_of, chars_reaching, contains_text, count_reaching, prefix_within,
    take_bytes_at_char_boundary, text_contains, text_of, utf8_len,
};

verus! {

/// By how many bytes a reference has to be shorter than the result that it stands for.
pub const ARTIFACT_SAVINGS_MARGIN: usize = 2;

/// The largest reference.
pub const MAX_READ_FILE_ARTIFACT_ENVELOPE_BYTES: usize = 768;

/// How much of a result a reference previews, at its start and at its end.
pub const ARTIFACT_PREVIEW_BYTES: usize = 384;

/// What identifies a read of a window.
pub open spec fn read_key(
    environment_id: Seq<char>,
    canonical_path: Seq<char>,
    metadata: FileMetadata,
    window: ReadFileWindow,
) -> KeyModel {
    KeyModel {
        environment_id,
        canonical_path,
        file_size: metadata.size,
        created_at_ms: metadata.created_at_ms,
        modified_at_ms: metadata.modified_at_ms,
        start_byte: window.start_byte,
        end_byte: window.end_byte,
        next_offset: window.next_offset,
        eof: window.eof,
        line_continues: window.line_continues,
    }
}

/// What a reference to a result is made from.
#[derive(Debug)]
pub struct EnvelopeRequest {
    pub artifact_id: OutputArtifactId,
    pub content_type: &'static str,
    pub original_bytes: usize,
    pub original_lines: usize,
    pub preview_head: String,
    pub preview_tail: String,
    pub max_bytes: usize,
}

/// The end of a text: from the first character on that begins in its last bytes.
pub open spec fn text_tail(text: Seq<char>, bytes: int) -> Seq<char> {
    let from = utf8_len(text) - bytes;
    text.skip(
        chars_reaching(
            text,
            if from > 0 {
                from
            } else {
                0
            },
        ) as int,
    )
}

impl EnvelopeRequest {
    /// Whether this is what a reference to a result is made from.
    pub open spec fn describes(&self, result: Seq<char>, max_bytes: usize) -> bool {
        &&& self.artifact_id@ == artifact_id_of(result)
        &&& self.content_type@ == FILE_READ_CONTENT_TYPE@
        &&& self.original_bytes == utf8_len(result)
        &&& self.original_lines == line_fragments(result)
        &&& self.preview_head@ == prefix_within(result, ARTIFACT_PREVIEW_BYTES as int)
        &&& self.preview_tail@ == text_tail(result, ARTIFACT_PREVIEW_BYTES as int)
        &&& self.max_bytes == (if max_bytes < MAX_READ_FILE_ARTIFACT_ENVELOPE_BYTES {
            max_bytes
        } else {
            MAX_READ_FILE_ARTIFACT_ENVELOPE_BYTES
        })
    }
}

fn count_lines(chars: &Vec<char>) -> (r: usize)
    ensures
        r == line_fragments(chars@),
{
    let mut count: usize = 0;
    let mut i: usize = 0;
    proof {
        assert(chars@.take(0) =~= Seq::<char>::empty());
    }
    while i < chars.len()
        invariant
            i <= chars@.len(),
            count == newlines(chars@.take(i as int)),
            count <= i,
            i > 0 && chars@[i - 1] != '\n' ==> count < i,
        decreases chars@.len() - i,
    {
        proof {
            assert(chars@.take(i + 1).drop_last() =~= chars@.take(i as int));
        }
        if chars[i] == '\n' {
            count += 1;
        }
        i += 1;
    }
    proof {
        assert(chars@.take(i as int) =~= chars@);
    }
    if chars.len() > 0 && chars[chars.len() - 1] != '\n' {
        count += 1;
    }
    count
}

/// What a reference to a result is made from.
pub fn envelope_request(inline_result: &str, max_bytes: usize) -> (r: EnvelopeRequest)
    ensures
        r.describes(inline_result@, max_bytes),
{
    let chars = chars_of(inline_result);
    let total: usize = byte_len(inline_result);
    let from: usize = total.saturating_sub(ARTIFACT_PREVIEW_BYTES);
    let tail_start: usize = count_reaching(&chars, from);
    proof {
        assert(chars@.subrange(tail_start as int, chars@.len() as int) =~= chars@.skip(
            tail_start as int,
        ));
    }
    EnvelopeRequest {
        artifact_id: OutputArtifactId::for_text(inline_result),
        content_type: FILE_READ_CONTENT_TYPE,
        original_bytes: total,
        original_lines: count_lines(&chars),
        preview_head: take_bytes_at_char_boundary(inline_result, ARTIFACT_PREVIEW_BYTES),
        preview_tail: text_of(&chars, tail_start, chars.len()),
        max_bytes: if max_bytes < MAX_READ_FILE_ARTIFACT_ENVELOPE_BYTES {
            max_bytes
        } else {
            MAX_READ_FILE_ARTIFACT_ENVELOPE_BYTES
        },
    }
}

/// A text for the model, with the rule that chose it and what it is.
#[derive(Debug)]
pub struct ReadResult {
    pub text: String,
    pub rule: &'static str,
    pub outcome: &'static str,
}

/// The model of a [`ReadResult`].
pub struct ResultModel {
    pub text: Seq<char>,
    pub rule: Seq<char>,
    pub outcome: Seq<char>,
}

impl View for ReadResult {
    type V = ResultModel;

    open spec fn view(&self) -> ResultModel {
        ResultModel { text: self.text@, rule: self.rule@, outcome: self.outcome@ }
    }
}

/// A result as it was read.
pub open spec fn inline(text: Seq<char>, rule: Seq<char>) -> ResultModel {
    ResultModel { text, rule, outcome: "inline"@ }
}

/// What is to be done next.
#[derive(Debug)]
pub enum ReadStep {
    /// The result is settled.
    Done(ReadResult),
    /// The result repeats an earlier one: a reference to it is to be made, if that is possible.
    Envelope(EnvelopeRequest),
    /// The result is to be stored, and the reference stands for it then.
    Store { candidate: String },
}

/// What is to be done with a result that was observed.
pub open spec fn observed_step(
    step: ReadStep,
    seen: ReadLedgerObservation,
    source: ToolCallSource,
    result: Seq<char>,
    max_bytes: usize,
) -> bool {
    match seen {
        ReadLedgerObservation::FirstRead => step matches ReadStep::Done(done) && done@ == inline(
            result,
            "inline_v1"@,
        ),
        ReadLedgerObservation::FingerprintChanged => step matches ReadStep::Done(done) && done@
            == inline(result, "fingerprint_changed_v1"@),
        ReadLedgerObservation::ExactDuplicate => if source is CodeMode {
            step matches ReadStep::Done(done) && done@ == inline(result, "code_mode_inline_v1"@)
        } else {
            step matches ReadStep::Envelope(request) && request.describes(result, max_bytes)
        },
    }
}

fn settled(text: &str, rule: &'static str) -> (r: ReadStep)
    ensures
        r matches ReadStep::Done(done) && done@ == inline(text@, rule@),
{
    ReadStep::Done(ReadResult { text: text.to_owned(), rule, outcome: "inline" })
}

/// Remembers a read, and says what is to be done with its result.
pub fn finalize_read(
    ledger: &mut ReadLedger,
    source: &ToolCallSource,
    environment_id: &str,
    canonical_path: &str,
    metadata: FileMetadata,
    read: &InlineRead,
) -> (r: ReadStep)
    ensures
        ({
            let key = read_key(environment_id@, canonical_path@, metadata, read.window);
            let digest = artifact_id_of(read.inline_result@);
            &&& final(ledger)@ == after_read(old(ledger)@, key, digest)
            &&& observed_step(
                r,
                observation(old(ledger)@, key, digest),
                *source,
                read.inline_result@,
                read.response_max_bytes,
            )
        }),
{
    let key = ReadLedgerKey {
        environment_id: environment_id.to_owned(),
        canonical_path: canonical_path.to_owned(),
        file_size: metadata.size,
        created_at_ms: metadata.created_at_ms,
        modified_at_ms: metadata.modified_at_ms,
        start_byte: read.window.start_byte,
        end_byte: read.window.end_byte,
        next_offset: read.window.next_offset,
        eof: read.window.eof,
        line_continues: read.window.line_continues,
    };
    let text = read.inline_result.as_str();
    match ledger.observe(key, inline_result_digest(text)) {
        ReadLedgerObservation::FirstRead => settled(text, "inline_v1"),
        ReadLedgerObservation::FingerprintChanged => settled(text, "fingerprint_changed_v1"),
        ReadLedgerObservation::ExactDuplicate => {
            match source {
                ToolCallSource::CodeMode { .. } => settled(text, "code_mode_inline_v1"),
                ToolCallSource::Direct => ReadStep::Envelope(
                    envelope_request(text, read.response_max_bytes),
                ),
            }
        },
    }
}

/// Whether a reference is short enough to stand for a result.
pub open spec fn economical(candidate: Seq<char>, result: Seq<char>) -> bool {
    utf8_len(candidate) + ARTIFACT_SAVINGS_MARGIN < utf8_len(result)
}

/// What is to be done with a repeated result once the reference to it is known.
pub fn offer_envelope(
    inline_result: &str,
    candidate: Option<String>,
    spilling_supported: bool,
) -> (r: ReadStep)
    ensures
        (match r {
            ReadStep::Done(done) => {
                ||| (candidate is None || !economical(candidate->0@, inline_result@)) && done@
                    == inline(inline_result@, "artifact_not_economical_v1"@)
                ||| candidate is Some && economical(candidate->0@, inline_result@)
                    && !spilling_supported && done@ == inline(
                    inline_result@,
                    "artifact_backend_unavailable_v1"@,
                )
            },
            ReadStep::Envelope(_) => false,
            ReadStep::Store { candidate: text } => candidate is Some && economical(
                candidate->0@,
                inline_result@,
            ) && spilling_supported && text@ == candidate->0@,
        }),
{
    let candidate = match candidate {
        Some(candidate) => candidate,
        None => {
            return settled(inline_result, "artifact_not_economical_v1");
        },
    };
    if byte_len(candidate.as_str()).saturating_add(ARTIFACT_SAVINGS_MARGIN) >= byte_len(
        inline_result,
    ) {
        return settled(inline_result, "artifact_not_economical_v1");
    }
    if !spilling_supported {
        return settled(inline_result, "artifact_backend_unavailable_v1");
    }
    ReadStep::Store { candidate }
}

/// The result once it is known whether it could be stored.
pub open spec fn stored_result(
    result: Seq<char>,
    candidate: Seq<char>,
    stored: bool,
) -> ResultModel {
    if stored {
        ResultModel {
            text: candidate,
            rule: "exact_window_artifact_v1"@,
            outcome: "artifact"@,
        }
    } else {
        inline(result, "artifact_store_fallback_v1"@)
    }
}

/// The result once it is known whether it could be stored.
pub fn settle_stored(inline_result: &str, candidate: String, stored: bool) -> (r: ReadResult)
    ensures
        r@ == stored_result(inline_result@, candidate@, stored),
{
    if stored {
        ReadResult { text: candidate, rule: "exact_window_artifact_v1", outcome: "artifact" }
    } else {
        ReadResult {
            text: inline_result.to_owned(),
            rule: "artifact_store_fallback_v1",
            outcome: "inline",
        }
    }
}

/// A reference stands for a result only where it saves space, and only once the result is
/// stored; otherwise the result itself is handed out, unchanged.
pub proof fn references_save_space(result: Seq<char>, candidate: Seq<char>, stored: bool)
    requires
        economical(candidate, result),
    ensures
        utf8_len(stored_result(result, candidate, stored).text) <= utf8_len(result),
        stored_result(result, candidate, stored).text == result || (stored && utf8_len(
            stored_result(result, candidate, stored).text,
        ) + ARTIFACT_SAVINGS_MARGIN < utf8_len(result)),
{
}

/// Measurements of one read.
#[derive(Clone, Copy, Debug)]
pub struct ReadMetrics {
    pub rule: &'static str,
    pub outcome: &'static str,
    pub source_bytes: i64,
    pub inline_bytes: i64,
}

/// A number as a measurement.
pub open spec fn measured(n: int) -> i64 {
    if n > i64::MAX {
        i64::MAX
    } else {
        n as i64
    }
}

fn measure(n: u64) -> (r: i64)
    ensures
        r == measured(n as int),
{
    if n > i64::MAX as u64 {
        i64::MAX
    } else {
        n as i64
    }
}

/// What is measured of a result.
pub fn result_metrics(window: &ReadFileWindow, result: &ReadResult) -> (r: ReadMetrics)
    ensures
        r.rule@ == result.rule@,
        r.outcome@ == result.outcome@,
        r.source_bytes == measured(
            if window.end_byte > window.start_byte {
                window.end_byte - window.start_byte
            } else {
                0
            },
        ),
        r.inline_bytes == measured(utf8_len(result.text@) as int),
{
    ReadMetrics {
        rule: result.rule,
        outcome: result.outcome,
        source_bytes: measure(window.end_byte.saturating_sub(window.start_byte)),
        inline_bytes: measure(byte_len(result.text.as_str()) as u64),
    }
}

/// The output for a result.
pub fn read_output(result: ReadResult) -> (r: Result<ReadFileToolOutput, FunctionCallError>)
    ensures
        (match r {
            Ok(output) => {
                &&& crate::json::json_read(result.text@) is Ok
                &&& output.spec_text() == result.text@
                &&& output.spec_managed() == (result.outcome@ == "artifact"@)
                &&& output.spec_rule() == result.rule@
            },
            Err(error) => crate::json::json_read(result.text@) matches Err(fault) && error@
                == "read_file produced an invalid structured result: "@ + fault,
        }),
{
    let managed = crate::text::same_text(result.outcome, "artifact");
    ReadFileToolOutput::new(result.text, managed, result.rule)
}

/// The rule that a failure is counted under: one of a few, whatever the message says.
pub open spec fn error_rule(message: Seq<char>) -> Seq<char> {
    if contains_text(message, "not valid UTF-8"@) || contains_text(message, "NUL"@) {
        "binary_rejected_v1"@
    } else if contains_text(message, "sandbox"@) {
        "sandbox_denied_v1"@
    } else if contains_text(message, "max_bytes"@) || contains_text(message, "max_lines"@) {
        "invalid_bounds_v1"@
    } else {
        "read_error_v1"@
    }
}

/// The rule that a failure is counted under.
pub fn error_metric_rule(error: &FunctionCallError) -> (r: &'static str)
    ensures
        r@ == error_rule(error@),
{
    let FunctionCallError::RespondToModel(message) = error;
    let text = message.as_str();
    if text_contains(text, "not valid UTF-8") || text_contains(text, "NUL") {
        "binary_rejected_v1"
    } else if text_contains(text, "sandbox") {
        "sandbox_denied_v1"
    } else if text_contains(text, "max_bytes") || text_contains(text, "max_lines") {
        "invalid_bounds_v1"
    } else {
        "read_error_v1"
    }
}

/// What is measured of a failure.
pub fn error_metrics(error: &FunctionCallError) -> (r: ReadMetrics)
    ensures
        r.rule@ == error_rule(error@),
        r.outcome@ == "error"@,
        r.source_bytes == 0,
        r.inline_bytes == 0,
{
    ReadMetrics {
        rule: error_metric_rule(error),
        outcome: "error",
        source_bytes: 0,
        inline_bytes: 0,
    }
}

} // verus!
