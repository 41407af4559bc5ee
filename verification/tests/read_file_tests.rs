use codex_context::argument_repair::{ToolCallSource, ToolPayload};
use codex_context::io_error::{IoError, IoErrorKind};
use codex_context::protocol::{FunctionCallError, ToolOutputProvenance, TruncationPolicy};
use codex_context::read_file::{
    effective_model_response_max_bytes, filesystem_error, function_arguments, no_environment,
    parse_bounds, path_error, plan_read, read_window_error, respond, snapshot_error, window_bounds,
    FileSnapshot, ReadFileArgs, MAX_ENVIRONMENT_ID_BYTES, MAX_PATH_ARGUMENT_BYTES,
};
use codex_context::read_file_dedup::{
    envelope_request, error_metric_rule, error_metrics, finalize_read, offer_envelope, read_output,
    result_metrics, settle_stored, ReadStep,
};
use codex_context::read_file_ledger::{
    ReadLedger, ReadLedgerKey, ReadLedgerObservation, MAX_READ_LEDGER_ENTRIES,
};
use codex_context::read_file_output::{inline_result_digest, ReadFileToolOutput};
use codex_context::read_file_response::{
    fit_window_to_response_budget, render_response, response_base_len, ReadBounds,
    DEFAULT_MAX_BYTES, DEFAULT_MAX_LINES, MAX_MODEL_VISIBLE_BYTES, MAX_RESPONSE_BYTES,
    MAX_RESPONSE_LINES, MIN_REQUEST_BYTES,
};
use codex_context::read_file_snapshot::{
    FileMetadata, SnapshotEvent, SnapshotPhase, SnapshotTransaction,
};
use codex_context::read_file_window::{read_file_window, ReadFileWindow, ReadFileWindowBounds};
use codex_context::tool_specs::{create_read_file_tool, create_read_tool_output_tool};

fn message(error: FunctionCallError) -> String {
    let FunctionCallError::RespondToModel(message) = error;
    message
}

fn args(max_bytes: Option<usize>, max_lines: Option<usize>) -> ReadFileArgs {
    ReadFileArgs {
        path: "file.txt".to_string(),
        offset: None,
        max_bytes,
        max_lines,
        environment_id: None,
    }
}

#[test]
fn rejects_bounds_that_could_not_produce_a_bounded_response() {
    for args in [
        args(Some(MIN_REQUEST_BYTES - 1), None),
        args(Some(MAX_RESPONSE_BYTES + 1), None),
        args(None, Some(MAX_RESPONSE_LINES + 1)),
    ] {
        assert!(parse_bounds(&args).is_err());
    }
}

#[test]
fn path_diagnostics_obey_the_independent_model_cap() {
    let error = path_error(
        &"x".repeat(MAX_PATH_ARGUMENT_BYTES),
        &"detail".repeat(MAX_MODEL_VISIBLE_BYTES),
    );
    let FunctionCallError::RespondToModel(message) = error;
    assert!(message.len() <= MAX_MODEL_VISIBLE_BYTES);
}

#[test]
fn zero_model_policy_is_rejected_before_window_rendering() {
    let bounds = ReadBounds {
        offset: 0,
        max_bytes: DEFAULT_MAX_BYTES,
        max_lines: DEFAULT_MAX_LINES,
    };
    assert_eq!(
        effective_model_response_max_bytes(bounds, TruncationPolicy::Bytes(0), None),
        0
    );
}

#[test]
fn limits_are_the_least_of_request_model_and_policies() {
    let bounds = ReadBounds { offset: 0, max_bytes: 100_000, max_lines: 10 };
    let wide = TruncationPolicy::Bytes(1_000_000);
    assert_eq!(effective_model_response_max_bytes(bounds, wide, None), 8_192);
    assert_eq!(effective_model_response_max_bytes(bounds, wide, Some(100)), 400);
    assert_eq!(
        effective_model_response_max_bytes(bounds, TruncationPolicy::Tokens(50), Some(100)),
        200
    );
    let narrow = ReadBounds { offset: 0, max_bytes: 64, max_lines: 10 };
    assert_eq!(effective_model_response_max_bytes(narrow, wide, None), 64);
}

#[test]
fn omitted_bounds_have_defaults() {
    let bounds = plan_read(&args(None, None)).expect("defaults are allowed");
    assert_eq!(bounds, ReadBounds { offset: 0, max_bytes: 32_768, max_lines: 200 });
    assert_eq!(
        window_bounds(bounds),
        ReadFileWindowBounds {
            offset: 0,
            max_bytes: 32_768,
            max_line_fragments: 200,
            max_line_fragment_chars: 2_000,
        }
    );
}

#[test]
fn oversized_arguments_are_refused() {
    let mut long = args(None, None);
    long.path = "x".repeat(MAX_PATH_ARGUMENT_BYTES + 1);
    assert_eq!(
        message(plan_read(&long).expect_err("too long")),
        "read_file path must be at most 16384 bytes"
    );
    let mut environment = args(None, None);
    environment.environment_id = Some("e".repeat(MAX_ENVIRONMENT_ID_BYTES + 1));
    assert_eq!(
        message(plan_read(&environment).expect_err("too long")),
        "read_file environment_id must be at most 4096 bytes"
    );
    assert_eq!(
        message(plan_read(&args(Some(0), None)).expect_err("too small")),
        "read_file max_bytes must be between 1 and 131072"
    );
    assert_eq!(
        message(plan_read(&args(None, Some(0))).expect_err("too small")),
        "read_file max_lines must be between 1 and 2000"
    );
}

#[test]
fn only_function_payloads_are_taken() {
    let payload = ToolPayload::Function { arguments: "{}".to_string() };
    assert_eq!(function_arguments(&payload).ok(), Some("{}"));
    let custom = ToolPayload::Custom { input: "x".to_string() };
    assert_eq!(
        message(function_arguments(&custom).expect_err("not a function")),
        "read_file requires function arguments"
    );
    assert!(message(no_environment()).contains("no execution environment"));
}

#[test]
fn failures_are_told_by_kind() {
    let error = |kind: IoErrorKind| IoError::new(kind, "inner");
    assert_eq!(
        message(filesystem_error("/a", &error(IoErrorKind::NotFound))),
        "read_file could not find the file at \"/a\""
    );
    assert_eq!(
        message(filesystem_error("/a", &error(IoErrorKind::PermissionDenied))),
        "read_file was denied by the filesystem sandbox at \"/a\""
    );
    assert_eq!(
        message(read_window_error("/a", &error(IoErrorKind::InvalidData))),
        "read_file inner at \"/a\""
    );
    assert_eq!(
        message(read_window_error("/a", &error(IoErrorKind::PermissionDenied))),
        "read_file the filesystem sandbox denied the read at \"/a\""
    );
    assert_eq!(
        message(read_window_error("/a", &error(IoErrorKind::Other))),
        "read_file the streamed filesystem read failed at \"/a\""
    );
    assert_eq!(
        message(snapshot_error("/a", &error(IoErrorKind::InvalidInput))),
        "read_file inner at \"/a\""
    );
    assert!(message(snapshot_error("/a", &error(IoErrorKind::Unsupported)))
        .contains("does not support efficient byte-offset reads"));
    assert_eq!(
        message(snapshot_error("/a", &error(IoErrorKind::Other))),
        "read_file could not access the file at \"/a\""
    );
}

#[test]
fn renders_a_structured_utf8_window_without_slicing_json() {
    let window = ReadFileWindow {
        text: "café\n".to_string(),
        start_byte: 4,
        end_byte: 10,
        line_fragments: 1,
        line_continues: false,
        next_offset: Some(10),
        eof: false,
    };

    let rendered = render_response("/tmp/é.txt", 20, 42, &window);
    let parsed: serde_json::Value = serde_json::from_str(&rendered).expect("complete JSON");
    assert_eq!(parsed["type"], "file_read");
    assert_eq!(parsed["path"], "/tmp/é.txt");
    assert_eq!(parsed["window"]["text"], "café\n");
    assert_eq!(parsed["window"]["end_byte"], 10);
}

#[test]
fn responses_have_exactly_the_members_of_their_schema() {
    let window = ReadFileWindow {
        text: "x\n".to_string(),
        start_byte: 0,
        end_byte: 2,
        line_fragments: 1,
        line_continues: false,
        next_offset: None,
        eof: true,
    };
    let rendered = render_response("/a", 2, -5, &window);
    assert!(rendered.starts_with(
        "{\"type\":\"file_read\",\"version\":1,\"path\":\"/a\",\"fingerprint\":{\"size_bytes\":2,\"modified_at_ms\":-5,\"window_digest\":\"sha256:"
    ));
    assert!(rendered.ends_with("\"next_offset\":null,\"eof\":true,\"continuation\":null}"));
    let parsed: serde_json::Value = serde_json::from_str(&rendered).expect("complete JSON");
    let tool = create_read_file_tool(true);
    let schema: serde_json::Value =
        serde_json::from_str(tool.output_schema.expect("a schema")).expect("valid schema");
    let object = &schema["oneOf"][0];
    for key in object["required"].as_array().expect("required members") {
        assert!(parsed.get(key.as_str().expect("a name")).is_some());
    }
    assert_eq!(
        parsed.as_object().map(|members| members.len()),
        object["properties"].as_object().map(|members| members.len())
    );
    for part in ["fingerprint", "window"] {
        assert_eq!(
            parsed[part].as_object().map(|members| members.len()),
            object["properties"][part]["required"].as_array().map(Vec::len)
        );
    }
}

fn window_of(text: &str, file_size: u64) -> ReadFileWindow {
    let bounds = ReadFileWindowBounds {
        offset: 0,
        max_bytes: 100_000,
        max_line_fragments: 2_000,
        max_line_fragment_chars: 100_000,
    };
    read_file_window(&vec![Ok(text.as_bytes().to_vec())], bounds, file_size)
        .expect("window should read")
}

#[test]
fn windows_are_fitted_to_the_response() {
    let text = "zeile é\n".repeat(500);
    let size = text.len() as u64;
    let fitted = fit_window_to_response_budget("/a", size, 1, window_of(&text, size), 1_000)
        .expect("a part fits");
    assert!(render_response("/a", size, 1, &fitted).len() <= 1_000);
    assert!(!fitted.text.is_empty());
    assert!(text.starts_with(&fitted.text));
    assert_eq!(fitted.end_byte, fitted.text.len() as u64);
    assert_eq!(fitted.next_offset, Some(fitted.end_byte));
    let whole = window_of("short", 5);
    let same = fit_window_to_response_budget("/a", 5, 1, whole, 1_000).expect("fits");
    assert_eq!(same.text, "short");
    let error = fit_window_to_response_budget("/a", size, 1, window_of(&text, size), 100)
        .expect_err("no room");
    assert_eq!(error.kind, IoErrorKind::InvalidInput);
    assert_eq!(
        error.message,
        "response metadata leaves no room for a UTF-8 character"
    );
}

#[test]
fn responses_are_bounded_or_refused() {
    let text = "line\n".repeat(5_000);
    let size = text.len() as u64;
    let bounds = plan_read(&args(None, Some(2_000))).expect("allowed");
    let snapshot = |text: &str| FileSnapshot {
        file_size: size,
        modified_at_ms: 7,
        window: window_of(&text[..10_000], size),
    };
    let read = respond("/a", snapshot(&text), bounds, TruncationPolicy::Bytes(50_000), None)
        .expect("a response");
    assert!(read.inline_result.len() <= 8_192);
    assert_eq!(read.response_max_bytes, 8_192);
    assert!(text.starts_with(&read.window.text));
    let refused = respond("/a", snapshot(&text), bounds, TruncationPolicy::Bytes(0), None);
    assert_eq!(
        message(refused.expect_err("no policy")),
        "read_file requires a positive output policy"
    );
    let base = response_base_len("/a", size, 7, 0, 2_000);
    let refused = respond("/a", snapshot(&text), bounds, TruncationPolicy::Bytes(100), None);
    assert_eq!(
        message(refused.expect_err("no room")),
        format!("read_file response metadata requires {base} bytes, above the model-facing limit of 100")
    );
}

fn key(index: usize) -> ReadLedgerKey {
    ReadLedgerKey {
        environment_id: "primary".to_string(),
        canonical_path: format!("/tmp/read-{index}"),
        file_size: 10,
        created_at_ms: 19,
        modified_at_ms: 20,
        start_byte: index as u64,
        end_byte: index as u64 + 1,
        next_offset: Some(index as u64 + 1),
        eof: false,
        line_continues: false,
    }
}

#[test]
fn records_only_exact_duplicate_digests() {
    let mut ledger = ReadLedger::default();

    assert_eq!(
        ledger.observe(key(1), "digest-a".to_string()),
        ReadLedgerObservation::FirstRead
    );
    assert_eq!(
        ledger.observe(key(1), "digest-b".to_string()),
        ReadLedgerObservation::FingerprintChanged
    );
    assert_eq!(
        ledger.observe(key(1), "digest-a".to_string()),
        ReadLedgerObservation::FingerprintChanged
    );
    assert_eq!(
        ledger.observe(key(1), "digest-a".to_string()),
        ReadLedgerObservation::ExactDuplicate
    );
}

#[test]
fn metadata_changes_replace_the_previous_window_entry() {
    let mut ledger = ReadLedger::default();
    let original = key(1);
    let mut changed = original.clone();
    changed.created_at_ms += 1;

    assert_eq!(
        ledger.observe(original, "digest-a".to_string()),
        ReadLedgerObservation::FirstRead
    );
    assert_eq!(
        ledger.observe(changed.clone(), "digest-b".to_string()),
        ReadLedgerObservation::FingerprintChanged
    );
    assert_eq!(
        ledger.observe(changed, "digest-b".to_string()),
        ReadLedgerObservation::ExactDuplicate
    );
}

#[test]
fn evicts_oldest_entry_at_fixed_bound() {
    let mut ledger = ReadLedger::default();

    for index in 0..=MAX_READ_LEDGER_ENTRIES {
        assert_eq!(
            ledger.observe(key(index), format!("digest-{index}")),
            ReadLedgerObservation::FirstRead
        );
    }
    assert_eq!(
        ledger.observe(key(0), "digest-0".to_string()),
        ReadLedgerObservation::FirstRead
    );
    assert_eq!(
        ledger.observe(
            key(MAX_READ_LEDGER_ENTRIES),
            format!("digest-{MAX_READ_LEDGER_ENTRIES}")
        ),
        ReadLedgerObservation::ExactDuplicate
    );
}

#[test]
fn keeps_textual_responses_and_structured_code_mode_values_in_sync() {
    let inline = ReadFileToolOutput::new(
        r#"{"type":"file_read","path":"/private/秘密.txt","window":{"text":"café","start_byte":0,"end_byte":5,"line_fragments":1}}"#.to_string(),
        false,
        "inline_v1",
    )
    .expect("inline result should parse");
    let structured: serde_json::Value =
        serde_json::from_str(inline.text()).expect("structured result");
    assert_eq!(structured["window"]["text"], "café");
    assert_eq!(inline.provenance(), ToolOutputProvenance::Untrusted);
    let log = inline.log_output();
    assert!(log.contains("read_file"));
    assert!(!log.contains("café"));
    assert!(!log.contains("秘密"));
    let logged: serde_json::Value = serde_json::from_str(&log).expect("valid JSON");
    assert_eq!(logged["window_bytes"], 5);
    assert_eq!(logged["line_fragments"], 1);
    assert_eq!(logged["outcome"], "inline");
    assert_eq!(logged["rule"], "inline_v1");
    assert_eq!(logged["serialized_bytes"], inline.text().len());

    let artifact = ReadFileToolOutput::new(
        r#"{"type":"tool_output_artifact","artifact_id":"out_id","retrieval":"Use read_tool_output."}"#.to_string(),
        true,
        "exact_window_artifact_v1",
    )
    .expect("artifact result should parse");
    let structured: serde_json::Value =
        serde_json::from_str(artifact.text()).expect("structured result");
    assert_eq!(structured["type"], "tool_output_artifact");
    assert_eq!(
        artifact.provenance(),
        ToolOutputProvenance::ManagedArtifactReference
    );
    assert!(!artifact.log_output().contains("out_id"));
    assert!(artifact.success_for_logging());
}

#[test]
fn results_that_are_no_json_are_refused() {
    let error = ReadFileToolOutput::new("{".to_string(), false, "inline_v1")
        .expect_err("not JSON");
    assert!(message(error).starts_with("read_file produced an invalid structured result: EOF"));
    assert!(ReadFileToolOutput::new("[1]".to_string(), false, "inline_v1").is_ok());
}

#[test]
fn telemetry_rules_are_bounded_and_content_free() {
    let cases = [
        (
            FunctionCallError::RespondToModel("file is not valid UTF-8".to_string()),
            "binary_rejected_v1",
        ),
        (
            FunctionCallError::RespondToModel("the filesystem sandbox denied the read".to_string()),
            "sandbox_denied_v1",
        ),
        (
            FunctionCallError::RespondToModel("max_bytes must be bounded".to_string()),
            "invalid_bounds_v1",
        ),
        (
            FunctionCallError::RespondToModel(
                "/private/秘密.txt sha256:secret artifact-id".to_string(),
            ),
            "read_error_v1",
        ),
    ];
    for (error, expected_rule) in cases {
        let rule = error_metric_rule(&error);
        assert_eq!(rule, expected_rule);
        assert!(!rule.contains('/'));
        assert!(!rule.contains("秘密"));
        assert!(!rule.contains("sha256"));
        assert!(!rule.contains("artifact"));
    }
    let metrics = error_metrics(&FunctionCallError::respond("NUL byte"));
    assert_eq!(metrics.rule, "binary_rejected_v1");
    assert_eq!(metrics.outcome, "error");
    assert_eq!(metrics.source_bytes, 0);
}

fn inline_read(text: &str) -> codex_context::read_file::InlineRead {
    let size = text.len() as u64;
    let bounds = plan_read(&args(None, None)).expect("allowed");
    respond(
        "/a",
        FileSnapshot { file_size: size, modified_at_ms: 1, window: window_of(text, size) },
        bounds,
        TruncationPolicy::Bytes(50_000),
        None,
    )
    .expect("a response")
}

const METADATA: FileMetadata = FileMetadata {
    is_directory: false,
    is_file: true,
    is_symlink: false,
    size: 4_000,
    created_at_ms: 1,
    modified_at_ms: 1,
};

#[test]
fn repeated_reads_become_references_where_that_is_shorter() {
    let mut ledger = ReadLedger::default();
    let read = inline_read(&"x".repeat(4_000));
    let direct = ToolCallSource::Direct;
    let first = finalize_read(&mut ledger, &direct, "env", "/a", METADATA, &read);
    let ReadStep::Done(first) = first else { panic!("a first read is inline") };
    assert_eq!(first.rule, "inline_v1");
    assert_eq!(first.text, read.inline_result);
    let metrics = result_metrics(&read.window, &first);
    assert_eq!(metrics.source_bytes, 4_000);
    assert_eq!(metrics.inline_bytes, read.inline_result.len() as i64);

    let nested = ToolCallSource::CodeMode {
        cell_id: "cell".to_string(),
        runtime_tool_call_id: "call".to_string(),
    };
    let again = finalize_read(&mut ledger, &nested, "env", "/a", METADATA, &read);
    let ReadStep::Done(again) = again else { panic!("nested reads stay inline") };
    assert_eq!(again.rule, "code_mode_inline_v1");

    let third = finalize_read(&mut ledger, &direct, "env", "/a", METADATA, &read);
    let ReadStep::Envelope(request) = third else { panic!("a duplicate wants a reference") };
    assert_eq!(request.max_bytes, 768);
    assert_eq!(request.original_bytes, read.inline_result.len());
    assert_eq!(request.original_lines, 1);
    assert_eq!(request.preview_head, read.inline_result[..384]);
    assert_eq!(
        request.preview_tail,
        read.inline_result[read.inline_result.len() - 384..]
    );
    assert_eq!(request.artifact_id.as_str(), inline_result_digest(&read.inline_result));

    let candidate = r#"{"type":"tool_output_artifact","artifact_id":"x"}"#.to_string();
    let step = offer_envelope(&read.inline_result, Some(candidate.clone()), true);
    let ReadStep::Store { candidate } = step else { panic!("a short reference is stored") };
    let stored = settle_stored(&read.inline_result, candidate.clone(), true);
    assert_eq!(stored.rule, "exact_window_artifact_v1");
    let output = read_output(stored).expect("valid JSON");
    assert_eq!(
        output.provenance(),
        ToolOutputProvenance::ManagedArtifactReference
    );
    let failed = settle_stored(&read.inline_result, candidate.clone(), false);
    assert_eq!(failed.rule, "artifact_store_fallback_v1");
    assert_eq!(failed.text, read.inline_result);

    let ReadStep::Done(unsupported) = offer_envelope(&read.inline_result, Some(candidate), false)
    else {
        panic!("without a store the result stays inline");
    };
    assert_eq!(unsupported.rule, "artifact_backend_unavailable_v1");
    let ReadStep::Done(missing) = offer_envelope(&read.inline_result, None, true) else {
        panic!("without a reference the result stays inline");
    };
    assert_eq!(missing.rule, "artifact_not_economical_v1");
    let ReadStep::Done(long) =
        offer_envelope(&read.inline_result, Some("y".repeat(read.inline_result.len() - 2)), true)
    else {
        panic!("a long reference saves nothing");
    };
    assert_eq!(long.rule, "artifact_not_economical_v1");
}

#[test]
fn changed_files_are_read_anew() {
    let mut ledger = ReadLedger::default();
    let read = inline_read("same text");
    let direct = ToolCallSource::Direct;
    let _ = finalize_read(&mut ledger, &direct, "env", "/a", METADATA, &read);
    let changed = FileMetadata { modified_at_ms: 2, ..METADATA };
    let ReadStep::Done(second) =
        finalize_read(&mut ledger, &direct, "env", "/a", changed, &read)
    else {
        panic!("a changed file is inline");
    };
    assert_eq!(second.rule, "fingerprint_changed_v1");
}

#[test]
fn previews_never_split_a_character() {
    let request = envelope_request(&"é".repeat(400), 1_000);
    assert_eq!(request.preview_head, "é".repeat(192));
    assert_eq!(request.preview_tail, "é".repeat(192));
    let odd = format!("a{}", "é".repeat(400));
    let request = envelope_request(&odd, 500);
    assert_eq!(request.preview_head.len(), 383);
    assert_eq!(request.preview_tail.len(), 384);
    assert_eq!(request.max_bytes, 500);
}

fn bounds(offset: u64) -> ReadFileWindowBounds {
    ReadFileWindowBounds {
        offset,
        max_bytes: 4,
        max_line_fragments: 1,
        max_line_fragment_chars: 2_000,
    }
}

fn begun(offset: u64) -> SnapshotTransaction {
    SnapshotTransaction::new(bounds(offset), true)
        .advance(SnapshotEvent::Path(Ok("/a".to_string())))
        .expect("a path")
}

fn metadata(size: u64) -> FileMetadata {
    FileMetadata { size, ..METADATA }
}

#[test]
fn snapshot_rejects_same_size_same_timestamp_replacement() {
    let window = |bytes: &[u8]| {
        read_file_window(&vec![Ok(bytes.to_vec())], bounds(0), 4)
    };
    let transaction = begun(0)
        .advance(SnapshotEvent::Metadata(Ok(metadata(4))))
        .expect("a regular file")
        .advance(SnapshotEvent::Window(window(b"old!")))
        .expect("a window")
        .advance(SnapshotEvent::Metadata(Ok(metadata(4))))
        .expect("the same file")
        .advance(SnapshotEvent::Path(Ok("/a".to_string())))
        .expect("the same path");
    assert_eq!(transaction.phase(), SnapshotPhase::WindowAgain);
    let error = transaction
        .advance(SnapshotEvent::Window(window(b"new!")))
        .expect_err("same-metadata replacement must be rejected");
    assert_eq!(error.kind, IoErrorKind::Interrupted);
    assert_eq!(error.message, "file changed during the read; retry read_file");
}

#[test]
fn streams_that_do_not_open_end_a_snapshot_with_their_error() {
    let denied = || IoError::new(IoErrorKind::PermissionDenied, "denied");
    let window = || read_file_window(&vec![Ok(b"same".to_vec())], bounds(0), 4);
    let error = begun(0)
        .advance(SnapshotEvent::Metadata(Ok(metadata(4))))
        .expect("a regular file")
        .advance(SnapshotEvent::Unopened(denied()))
        .expect_err("no stream");
    assert_eq!(error.kind, IoErrorKind::PermissionDenied);
    let again = || {
        begun(0)
            .advance(SnapshotEvent::Metadata(Ok(metadata(4))))
            .expect("a regular file")
            .advance(SnapshotEvent::Window(window()))
            .expect("a window")
            .advance(SnapshotEvent::Metadata(Ok(metadata(4))))
            .expect("the same file")
            .advance(SnapshotEvent::Path(Ok("/a".to_string())))
            .expect("the same path")
    };
    let error = again().advance(SnapshotEvent::Unopened(denied())).expect_err("no stream");
    assert_eq!(error.kind, IoErrorKind::PermissionDenied);
    let error = again().advance(SnapshotEvent::Window(Err(denied()))).expect_err("a failed read");
    assert_eq!(error.kind, IoErrorKind::Interrupted);
}

#[test]
fn snapshots_of_unchanged_files_are_complete() {
    let window = || read_file_window(&vec![Ok(b"same".to_vec())], bounds(0), 4);
    let snapshot = begun(0)
        .advance(SnapshotEvent::Metadata(Ok(metadata(4))))
        .expect("a regular file")
        .advance(SnapshotEvent::Window(window()))
        .expect("a window")
        .advance(SnapshotEvent::Metadata(Ok(metadata(4))))
        .expect("the same file")
        .advance(SnapshotEvent::Path(Ok("/a".to_string())))
        .expect("the same path")
        .advance(SnapshotEvent::Window(window()))
        .expect("the same bytes")
        .into_snapshot()
        .expect("a complete snapshot");
    assert_eq!(snapshot.canonical_path, "/a");
    assert_eq!(snapshot.window.text, "same");
    assert_eq!(snapshot.metadata.size, 4);
}

#[test]
fn snapshots_end_at_the_end_of_the_file() {
    let transaction = begun(4)
        .advance(SnapshotEvent::Metadata(Ok(metadata(4))))
        .expect("the end of the file");
    assert_eq!(transaction.phase(), SnapshotPhase::MetadataAgain);
    let transaction = transaction
        .advance(SnapshotEvent::Metadata(Ok(metadata(4))))
        .expect("the same file")
        .advance(SnapshotEvent::Path(Ok("/a".to_string())))
        .expect("the same path");
    assert_eq!(transaction.phase(), SnapshotPhase::Done);
    let snapshot = transaction.into_snapshot().expect("complete");
    assert!(snapshot.window.eof);
    assert_eq!(snapshot.window.text, "");
}

#[test]
fn files_that_cannot_be_read_are_refused() {
    let directory = FileMetadata { is_file: false, is_directory: true, ..METADATA };
    let error = begun(0)
        .advance(SnapshotEvent::Metadata(Ok(directory)))
        .expect_err("no regular file");
    assert_eq!(error.message, "only regular files can be read");
    let error = begun(5)
        .advance(SnapshotEvent::Metadata(Ok(metadata(4))))
        .expect_err("past the end");
    assert_eq!(error.message, "read offset is beyond the end of the file");
    let error = SnapshotTransaction::new(bounds(1), false)
        .advance(SnapshotEvent::Path(Ok("/a".to_string())))
        .expect("a path")
        .advance(SnapshotEvent::Metadata(Ok(metadata(4))))
        .expect_err("no offset reads");
    assert_eq!(error.kind, IoErrorKind::Unsupported);
    let error = begun(4)
        .advance(SnapshotEvent::Metadata(Ok(metadata(4))))
        .expect("the end of the file")
        .advance(SnapshotEvent::Metadata(Ok(metadata(5))))
        .expect_err("another size");
    assert_eq!(error.kind, IoErrorKind::Interrupted);
}

#[test]
fn tools_are_described_with_their_parameters() {
    let plain = create_read_file_tool(false);
    assert_eq!(
        plain.parameters.iter().map(|p| p.name).collect::<Vec<_>>(),
        vec!["max_bytes", "max_lines", "offset", "path"]
    );
    assert!(plain.parameters.iter().all(|p| p.required == (p.name == "path")));
    assert_eq!(create_read_file_tool(true).parameters[0].name, "environment_id");
    let retrieval = create_read_tool_output_tool();
    assert_eq!(retrieval.name, "read_tool_output");
    assert_eq!(retrieval.parameters.len(), 9);
    assert!(retrieval.output_schema.is_none());
}

#[test]
fn fitted_windows_hold_as_much_as_fits() {
    let text = "ab\n\"é🙂\u{1}\tende\n".repeat(60);
    let size = text.len() as u64 + 1;
    for max in 450..520 {
        let Ok(fitted) = fit_window_to_response_budget("/a", size, 1, window_of(&text, size - 1), max)
        else {
            continue;
        };
        assert!(render_response("/a", size, 1, &fitted).len() <= max);
        let mut longer = fitted.clone();
        longer.text.push_str(&text[longer.text.len()..].chars().take(1).collect::<String>());
        longer.end_byte = longer.text.len() as u64;
        longer.next_offset = Some(longer.end_byte);
        longer.line_continues = !longer.text.ends_with('\n');
        longer.line_fragments = longer.text.lines().count();
        assert!(render_response("/a", size, 1, &longer).len() > max);
    }
}
