//! What a file read asks for, what is remembered of it, and what its result becomes.

use vstd::prelude::*;

use crate::argument_repair::ToolCallSource;
use crate::artifact_id::artifact_id_of;
use crate::io_error::IoErrorKind;
use crate::json::{
    json_members, json_string, keys_increase, member, text_member, unsigned_member, with_member,
    with_member_ordered, JsonModel, Members,
};
use crate::numbers::decimal;
use crate::protocol::{bytes_for_tokens, TruncationPolicy};
use crate::read_file::{
    bounds_of, filesystem_detail, path_message, plan_of, response_limit, response_of,
    snapshot_message, window_detail, ReadFileArgs,
};
use crate::read_file_dedup::{
    economical, error_rule, measured, observed_step, read_key, stored_result, text_tail,
    EnvelopeRequest, ReadStep, ResultModel,
};
use crate::read_file_ledger::{
    after_read, key_position, observation, one_each, request_position, same_request,
    Entries, KeyModel, ReadLedgerObservation,
};
use crate::read_file_output::{named_fragments, read_log, window_members, window_size};
use crate::read_file_response::{fitted_window, response_text, widest_window, ReadBounds};
use crate::read_file_snapshot::FileMetadata;
use crate::read_file_window::{line_fragments, ReadFileWindow, WindowModel};
use crate::text::{
    chars_reaching, chars_reaching_first, contains_text, prefix_within, utf8_len, utf8_len_prefix,
};

verus! {

/// A call asks for the bytes and the lines that it names, or for 32 KiB and two hundred lines from
/// the start of the file; at least one and at most 128 KiB and two thousand lines are allowed. The
/// bytes are looked at first.
pub proof fn bounds_are_checked(args: ReadFileArgs)
    ensures
        ({
            let bytes: usize = match args.max_bytes {
                Some(n) => n,
                None => 32768,
            };
            let lines: usize = match args.max_lines {
                Some(n) => n,
                None => 200,
            };
            let offset: u64 = match args.offset {
                Some(n) => n,
                None => 0,
            };
            &&& bytes < 1 || bytes > 131072 ==> bounds_of(args) == Err::<ReadBounds, Seq<char>>(
                "read_file max_bytes must be between 1 and 131072"@,
            )
            &&& 1 <= bytes <= 131072 && (lines < 1 || lines > 2000) ==> bounds_of(args) == Err::<
                ReadBounds,
                Seq<char>,
            >("read_file max_lines must be between 1 and 2000"@)
            &&& 1 <= bytes <= 131072 && 1 <= lines <= 2000 ==> bounds_of(args) == Ok::<
                ReadBounds,
                Seq<char>,
            >(ReadBounds { offset, max_bytes: bytes, max_lines: lines })
        }),
{
}

/// A call is refused for a path beyond sixteen KiB first, for an environment beyond four KiB
/// second, and for its bounds last.
pub proof fn calls_are_refused_in_order(args: ReadFileArgs)
    ensures
        utf8_len(args.path@) > 16384 ==> plan_of(args) == Err::<ReadBounds, Seq<char>>(
            "read_file path must be at most 16384 bytes"@,
        ),
        utf8_len(args.path@) <= 16384 && (match args.environment_id {
            Some(id) => utf8_len(id@) > 4096,
            None => false,
        }) ==> plan_of(args) == Err::<ReadBounds, Seq<char>>(
            "read_file environment_id must be at most 4096 bytes"@,
        ),
        utf8_len(args.path@) <= 16384 && (match args.environment_id {
            Some(id) => utf8_len(id@) <= 4096,
            None => true,
        }) ==> plan_of(args) == bounds_of(args),
{
}

/// A failure is told with its path where that takes at most eight KiB, and without it elsewhere.
pub proof fn failures_name_their_path(path: Seq<char>, detail: Seq<char>)
    ensures
        utf8_len("read_file "@ + detail + " at "@ + json_string(path)) <= 8192 ==> path_message(
            path,
            detail,
        ) == "read_file "@ + detail + " at "@ + json_string(path),
        utf8_len("read_file "@ + detail + " at "@ + json_string(path)) > 8192 ==> path_message(
            path,
            detail,
        ) == "read_file could not describe the requested path within the response limit"@,
{
}

/// What the model is told of a failed read: the message of a failure that the reader itself found,
/// and for any other a fixed text for its kind.
pub proof fn failures_are_told_by_kind(
    path: Seq<char>,
    kind: IoErrorKind,
    message: Seq<char>,
)
    ensures
        filesystem_detail(kind) == (if kind is NotFound {
            "could not find the file"@
        } else if kind is PermissionDenied {
            "was denied by the filesystem sandbox"@
        } else if kind is InvalidInput {
            "received an invalid filesystem path"@
        } else {
            "could not access the file"@
        }),
        window_detail((kind, message)) == (if kind is InvalidData || kind is InvalidInput
            || kind is Interrupted {
            message
        } else if kind is PermissionDenied {
            "the filesystem sandbox denied the read"@
        } else if kind is Unsupported {
            "the selected filesystem executor does not support efficient byte-offset reads"@
        } else {
            "the streamed filesystem read failed"@
        }),
        snapshot_message(path, (kind, message)) == (if kind is InvalidInput || kind is Interrupted
            || kind is InvalidData {
            path_message(path, message)
        } else if kind is Unsupported {
            path_message(
                path,
                "the selected filesystem executor does not support efficient byte-offset reads"@,
            )
        } else {
            path_message(path, filesystem_detail(kind))
        }),
{
}

/// The limit of a response is the least of what the call asks for, eight KiB, the policy, and the
/// configured tokens where there are any.
pub proof fn response_limit_is_the_least(
    bounds: ReadBounds,
    policy: TruncationPolicy,
    tokens: Option<usize>,
)
    ensures
        ({
            let limit = response_limit(bounds, policy, tokens);
            &&& limit <= bounds.max_bytes && limit <= 8192 && limit <= policy.budget()
            &&& tokens matches Some(n) ==> limit <= bytes_for_tokens(n)
            &&& limit == bounds.max_bytes || limit == 8192 || limit == policy.budget() || (
            tokens matches Some(n) && limit == bytes_for_tokens(n))
        }),
{
}

/// A budget in tokens is four bytes for each, and one in bytes is as it is.
pub proof fn budgets_are_counted_in_bytes(n: usize)
    ensures
        TruncationPolicy::Bytes(n).budget() == n,
        n * 4 <= usize::MAX ==> TruncationPolicy::Tokens(n).budget() == n * 4,
        n * 4 > usize::MAX ==> TruncationPolicy::Tokens(n).budget() == usize::MAX,
{
}

/// A response is refused without a limit first, then where its longest metadata alone does not
/// fit, then where no character fits beside it; else it is that of the window that fits.
pub proof fn responses_are_refused_in_order(
    path: Seq<char>,
    file_size: nat,
    modified_at_ms: int,
    window: WindowModel,
    bounds: ReadBounds,
    limit: usize,
)
    ensures
        ({
            let base = utf8_len(
                response_text(
                    path,
                    file_size,
                    modified_at_ms,
                    widest_window(bounds.offset, bounds.max_lines),
                ),
            );
            let fitted = fitted_window(path, file_size, modified_at_ms, window, limit as int);
            let response = response_of(path, file_size, modified_at_ms, window, bounds, limit);
            &&& limit == 0 ==> response == Err::<(WindowModel, Seq<char>), Seq<char>>(
                "read_file requires a positive output policy"@,
            )
            &&& limit > 0 && base > limit ==> response == Err::<
                (WindowModel, Seq<char>),
                Seq<char>,
            >(
                "read_file response metadata requires "@ + decimal(base)
                    + " bytes, above the model-facing limit of "@ + decimal(limit as nat),
            )
            &&& limit > 0 && base <= limit && fitted is None ==> response == Err::<
                (WindowModel, Seq<char>),
                Seq<char>,
            >(path_message(path, "response metadata leaves no room for a UTF-8 character"@))
            &&& response matches Ok((shown, text)) ==> limit > 0 && base <= limit && fitted == Some(
                shown,
            ) && text == response_text(path, file_size, modified_at_ms, shown) && utf8_len(text)
                <= limit
            &&& limit > 0 && base <= limit && fitted is Some && utf8_len(
                response_text(path, file_size, modified_at_ms, fitted->0),
            ) <= limit ==> response is Ok
            &&& limit > 0 && base <= limit && fitted is Some && utf8_len(
                response_text(path, file_size, modified_at_ms, fitted->0),
            ) > limit ==> response == Err::<(WindowModel, Seq<char>), Seq<char>>(
                "read_file could not fit a structurally valid response within max_bytes"@,
            )
        }),
{
}

/// Two reads are the same read exactly where the environment, the path, the size and the times of
/// the file, and the window with its end and its continuation are all the same.
pub proof fn reads_are_told_apart(
    a: (Seq<char>, Seq<char>, FileMetadata, ReadFileWindow),
    b: (Seq<char>, Seq<char>, FileMetadata, ReadFileWindow),
)
    ensures
        read_key(a.0, a.1, a.2, a.3) == read_key(b.0, b.1, b.2, b.3) <==> {
            &&& a.0 == b.0 && a.1 == b.1
            &&& a.2.size == b.2.size && a.2.created_at_ms == b.2.created_at_ms
                && a.2.modified_at_ms == b.2.modified_at_ms
            &&& a.3.start_byte == b.3.start_byte && a.3.end_byte == b.3.end_byte
            &&& a.3.next_offset == b.3.next_offset && a.3.eof == b.3.eof
                && a.3.line_continues == b.3.line_continues
        },
        ({
            let key = read_key(a.0, a.1, a.2, a.3);
            &&& key.environment_id == a.0 && key.canonical_path == a.1
            &&& key.file_size == a.2.size && key.start_byte == a.3.start_byte
            &&& key.end_byte == a.3.end_byte && key.next_offset == a.3.next_offset
        }),
{
}

/// Two reads ask for the same window exactly where they differ at most in the size and the times of
/// the file.
pub proof fn same_requests_differ_in_the_file_only(a: KeyModel, b: KeyModel)
    ensures
        same_request(a, b) <==> a == (KeyModel {
            file_size: a.file_size,
            created_at_ms: a.created_at_ms,
            modified_at_ms: a.modified_at_ms,
            ..b
        }),
{
}

proof fn positions_found(entries: Entries, key: KeyModel)
    ensures
        (match key_position(entries, key) {
            Some(i) => 0 <= i < entries.len() && entries[i].0 == key,
            None => forall|i: int| 0 <= i < entries.len() ==> (#[trigger] entries[i]).0 != key,
        }),
        (match request_position(entries, key) {
            Some(i) => 0 <= i < entries.len() && same_request(entries[i].0, key),
            None => forall|i: int|
                0 <= i < entries.len() ==> !same_request((#[trigger] entries[i]).0, key),
        }),
    decreases entries.len(),
{
    if entries.len() > 0 {
        let front = entries.drop_last();
        positions_found(front, key);
        assert forall|i: int| 0 <= i < front.len() implies #[trigger] entries[i] == front[i] by {}
        assert(entries[entries.len() - 1] == entries.last());
    }
}

/// A read is the first one exactly where no remembered read asked for the same window; it repeats
/// one exactly where that had the same key and the same result; and it is a change else. What is
/// remembered of other windows stays, but for the oldest read where the list of two hundred and
/// fifty-six is full and the window is new.
pub proof fn reads_are_compared_and_remembered(
    entries: Entries,
    key: KeyModel,
    digest: Seq<char>,
    i: int,
)
    requires
        one_each(entries),
        entries.len() <= 256,
        0 <= i < entries.len(),
    ensures
        ({
            let seen = observation(entries, key, digest);
            let after = after_read(entries, key, digest);
            &&& seen is FirstRead <==> forall|j: int|
                0 <= j < entries.len() ==> !same_request((#[trigger] entries[j]).0, key)
            &&& seen is ExactDuplicate <==> entries.contains((key, digest))
            &&& !same_request(entries[i].0, key) && !(seen is FirstRead && entries.len() == 256
                && i == 0) ==> after.contains(entries[i])
            &&& after.last() == (key, digest)
            &&& seen is FirstRead ==> after.len() == (if entries.len() < 256 {
                entries.len() + 1
            } else {
                256
            })
            &&& !(seen is FirstRead) ==> after.len() == entries.len()
        }),
{
    positions_found(entries, key);
    let after = after_read(entries, key, digest);
    if entries.contains((key, digest)) {
        let j = entries.index_of((key, digest));
        assert(entries[j].0 == key);
        let k = key_position(entries, key)->0;
        if j < k {
            assert(!same_request(entries[j].0, entries[k].0));
        } else if k < j {
            assert(!same_request(entries[k].0, entries[j].0));
        }
    }
    if observation(entries, key, digest) is ExactDuplicate {
        let k = key_position(entries, key)->0;
        assert(entries[k] == (key, digest));
    }
    if key_position(entries, key) is Some {
        assert(same_request(entries[key_position(entries, key)->0].0, key));
    }
    if !same_request(entries[i].0, key) {
        match key_position(entries, key) {
            Some(k) => {
                if i < k {
                    assert(after[i] == entries[i]);
                } else {
                    assert(after[i - 1] == entries[i]);
                }
            },
            None => match request_position(entries, key) {
                Some(k) => {
                    if i < k {
                        assert(after[i] == entries[i]);
                    } else {
                        assert(after[i - 1] == entries[i]);
                    }
                },
                None => {
                    if entries.len() < 256 {
                        assert(after[i] == entries[i]);
                    } else if i > 0 {
                        assert(after[i - 1] == entries[i]);
                    }
                },
            },
        }
    }
}

/// The end of a text is as much of it as takes at most so many bytes: a longer end takes more.
pub proof fn text_tail_is_the_longest_end(text: Seq<char>, bytes: int)
    requires
        bytes >= 0,
    ensures
        ({
            let tail = text_tail(text, bytes);
            let from = text.len() - tail.len();
            &&& tail.len() <= text.len() && tail == text.skip(from)
            &&& utf8_len(tail) <= bytes
            &&& forall|i: int| 0 <= i < from ==> utf8_len(#[trigger] text.skip(i)) > bytes
        }),
{
    let least: int = if utf8_len(text) - bytes > 0 {
        utf8_len(text) - bytes
    } else {
        0
    };
    chars_reaching_first(text, least);
    let n = chars_reaching(text, least) as int;
    utf8_len_prefix(text, n);
    assert forall|i: int| 0 <= i < n implies utf8_len(#[trigger] text.skip(i)) > bytes by {
        utf8_len_prefix(text, i);
        assert(utf8_len(text.take(i)) < least);
    }
}

/// A reference to a result is made from the identifier of its text, its size and its lines, its
/// first and its last 384 bytes, and takes at most 768 bytes.
pub proof fn references_describe_their_result(
    request: EnvelopeRequest,
    result: Seq<char>,
    max_bytes: usize,
)
    ensures
        request.describes(result, max_bytes) <==> {
            &&& request.artifact_id@ == artifact_id_of(result)
            &&& request.content_type@ == "application/vnd.codex.file-read+json"@
            &&& request.original_bytes == utf8_len(result)
            &&& request.original_lines == line_fragments(result)
            &&& request.preview_head@ == prefix_within(result, 384)
            &&& request.preview_tail@ == text_tail(result, 384)
            &&& request.max_bytes == (if max_bytes < 768 {
                max_bytes
            } else {
                768
            })
        },
{
}

/// A first read and a changed file are shown as they were read; a repeated read is, where it was
/// nested, and else may become a reference.
pub proof fn only_repeated_reads_become_references(
    step: ReadStep,
    source: ToolCallSource,
    result: Seq<char>,
    max_bytes: usize,
)
    ensures
        observed_step(step, ReadLedgerObservation::FirstRead, source, result, max_bytes) <==> (
        step matches ReadStep::Done(done) && done@.text == result && done@.rule == "inline_v1"@
            && done@.outcome == "inline"@),
        observed_step(step, ReadLedgerObservation::FingerprintChanged, source, result, max_bytes)
            <==> (step matches ReadStep::Done(done) && done@.text == result && done@.rule
            == "fingerprint_changed_v1"@ && done@.outcome == "inline"@),
        source is CodeMode ==> (observed_step(
            step,
            ReadLedgerObservation::ExactDuplicate,
            source,
            result,
            max_bytes,
        ) <==> (step matches ReadStep::Done(done) && done@.text == result && done@.rule
            == "code_mode_inline_v1"@ && done@.outcome == "inline"@)),
        source is Direct ==> (observed_step(
            step,
            ReadLedgerObservation::ExactDuplicate,
            source,
            result,
            max_bytes,
        ) <==> (step matches ReadStep::Envelope(request) && request.describes(result, max_bytes))),
{
}

/// A reference stands for a result only where it saves more than two bytes; once the result is
/// stored the reference is shown, and else the result.
pub proof fn references_stand_for_stored_results(
    result: Seq<char>,
    reference: Seq<char>,
)
    ensures
        economical(reference, result) <==> utf8_len(reference) + 2 < utf8_len(result),
        stored_result(result, reference, true) == (ResultModel {
            text: reference,
            rule: "exact_window_artifact_v1"@,
            outcome: "artifact"@,
        }),
        stored_result(result, reference, false) == (ResultModel {
            text: result,
            rule: "artifact_store_fallback_v1"@,
            outcome: "inline"@,
        }),
{
}

/// A failure is counted as one of four: a file that is no text, a denial of the sandbox, bounds that
/// are not allowed, or another one; the first that its message names counts.
pub proof fn failures_are_counted_by_message(message: Seq<char>)
    ensures
        ({
            let binary = contains_text(message, "not valid UTF-8"@) || contains_text(
                message,
                "NUL"@,
            );
            let denied = contains_text(message, "sandbox"@);
            let bounds = contains_text(message, "max_bytes"@) || contains_text(
                message,
                "max_lines"@,
            );
            &&& binary ==> error_rule(message) == "binary_rejected_v1"@
            &&& !binary && denied ==> error_rule(message) == "sandbox_denied_v1"@
            &&& !binary && !denied && bounds ==> error_rule(message) == "invalid_bounds_v1"@
            &&& !binary && !denied && !bounds ==> error_rule(message) == "read_error_v1"@
        }),
{
}

/// A measurement is the number itself, up to the largest one.
pub proof fn measurements_are_exact(n: int)
    requires
        n >= 0,
    ensures
        n <= i64::MAX ==> measured(n) == n,
        n > i64::MAX ==> measured(n) == i64::MAX,
{
}

proof fn log_keys_differ()
    ensures
        "tool_family"@ != "rule"@,
        "tool_family"@ != "outcome"@,
        "tool_family"@ != "serialized_bytes"@,
        "tool_family"@ != "window_bytes"@,
        "tool_family"@ != "line_fragments"@,
        "rule"@ != "outcome"@,
        "rule"@ != "serialized_bytes"@,
        "rule"@ != "window_bytes"@,
        "rule"@ != "line_fragments"@,
        "outcome"@ != "serialized_bytes"@,
        "outcome"@ != "window_bytes"@,
        "outcome"@ != "line_fragments"@,
        "serialized_bytes"@ != "window_bytes"@,
        "serialized_bytes"@ != "line_fragments"@,
        "window_bytes"@ != "line_fragments"@,
{
    reveal_strlit("tool_family");
    reveal_strlit("rule");
    reveal_strlit("outcome");
    reveal_strlit("serialized_bytes");
    reveal_strlit("window_bytes");
    reveal_strlit("line_fragments");
    assert("tool_family"@.len() != "rule"@.len());
    assert("tool_family"@.len() != "outcome"@.len());
    assert("tool_family"@.len() != "serialized_bytes"@.len());
    assert("tool_family"@.len() != "window_bytes"@.len());
    assert("tool_family"@.len() != "line_fragments"@.len());
    assert("rule"@.len() != "outcome"@.len());
    assert("rule"@.len() != "serialized_bytes"@.len());
    assert("rule"@.len() != "window_bytes"@.len());
    assert("rule"@.len() != "line_fragments"@.len());
    assert("outcome"@.len() != "serialized_bytes"@.len());
    assert("outcome"@.len() != "window_bytes"@.len());
    assert("outcome"@.len() != "line_fragments"@.len());
    assert("serialized_bytes"@.len() != "window_bytes"@.len());
    assert("serialized_bytes"@.len() != "line_fragments"@.len());
    assert("window_bytes"@.len() != "line_fragments"@.len());
}

/// What is logged of a read: the tool, the rule, whether the result or a reference was shown, the
/// size of the text, the size of the window that it holds, and its lines; nothing else.
pub proof fn read_log_says(text: Seq<char>, managed: bool, rule: Seq<char>)
    ensures
        ({
            let log = read_log(text, managed, rule);
            &&& keys_increase(log)
            &&& text_member(log, "tool_family"@) == Some("read_file"@)
            &&& text_member(log, "rule"@) == Some(rule)
            &&& text_member(log, "outcome"@) == Some(
                if managed {
                    "artifact"@
                } else {
                    "inline"@
                },
            )
            &&& utf8_len(text) <= u64::MAX ==> unsigned_member(log, "serialized_bytes"@) == Some(
                utf8_len(text) as u64,
            )
            &&& unsigned_member(log, "window_bytes"@) == Some(window_size(text))
            &&& member(log, "line_fragments"@) == Some(named_fragments(text))
            &&& forall|key: Seq<char>|
                key != "tool_family"@ && key != "rule"@ && key != "outcome"@ && key != "serialized_bytes"@ && key != "window_bytes"@ && key != "line_fragments"@ ==> (#[trigger] member(log, key)) is None
        }),
{
    log_keys_differ();
    let d0: Members = Seq::<(Seq<char>, JsonModel)>::empty();
    with_member_ordered(d0, "tool_family"@, JsonModel::Text("read_file"@));
    let d1 = with_member(d0, "tool_family"@, JsonModel::Text("read_file"@));
    with_member_ordered(d1, "rule"@, JsonModel::Text(rule));
    let d2 = with_member(d1, "rule"@, JsonModel::Text(rule));
    with_member_ordered(d2, "outcome"@, JsonModel::Text(
        if managed {
            "artifact"@
        } else {
            "inline"@
        },
    ));
    let d3 = with_member(d2, "outcome"@, JsonModel::Text(
        if managed {
            "artifact"@
        } else {
            "inline"@
        },
    ));
    with_member_ordered(d3, "serialized_bytes"@, JsonModel::Unsigned(utf8_len(text) as u64));
    let d4 = with_member(d3, "serialized_bytes"@, JsonModel::Unsigned(utf8_len(text) as u64));
    with_member_ordered(d4, "window_bytes"@, JsonModel::Unsigned(window_size(text)));
    let d5 = with_member(d4, "window_bytes"@, JsonModel::Unsigned(window_size(text)));
    with_member_ordered(d5, "line_fragments"@, named_fragments(text));
    let d6 = with_member(d5, "line_fragments"@, named_fragments(text));
}

/// The window of a response is the object under `window`; its size lies between its `start_byte`
/// and its `end_byte`, and its lines are named as they stand there.
pub proof fn windows_are_read_from_responses(text: Seq<char>, shown: Seq<char>, window: Members)
    requires
        json_members(text) matches Some(members) && member(members, "window"@) == Some(
            JsonModel::Raw(shown),
        ),
        json_members(shown) == Some(window),
    ensures
        window_members(text) == window,
        member(window, "line_fragments"@) matches Some(value) ==> named_fragments(text) == value,
        member(window, "line_fragments"@) is None ==> named_fragments(text) == JsonModel::Null,
        (unsigned_member(window, "start_byte"@) matches Some(start) && unsigned_member(
            window,
            "end_byte"@,
        ) matches Some(end) && start <= end) ==> window_size(text) == unsigned_member(
            window,
            "end_byte"@,
        )->0 - unsigned_member(window, "start_byte"@)->0,
        (unsigned_member(window, "start_byte"@) matches Some(start) && unsigned_member(
            window,
            "end_byte"@,
        ) matches Some(end) && start > end) ==> window_size(text) == 0,
        unsigned_member(window, "end_byte"@) is None ==> window_size(text) == 0,
{
}

} // verus!
