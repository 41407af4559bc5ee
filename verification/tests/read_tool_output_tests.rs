use codex_context::artifact_id::OutputArtifactId;
use codex_context::artifact_search::{ArtifactSearch, SearchStep};
use codex_context::io_error::IoErrorKind;
use codex_context::json::{JsonObject, JsonValue};
use codex_context::protocol::{ToolOutputProvenance, TruncationPolicy};
use codex_context::read_tool_output::{
    effective_output_budget, falls_back_to_raw, read_bytes_value, read_lines_value,
    read_raw_bytes_value, retrieval_error, search_value, LineScan, LineStep, ReadToolOutputHandler,
    ReadToolOutputResult, RetrievalArgs, RetrievalMode, RetrievalPlan,
};
use codex_context::read_tool_output_window::{bounded_result, MAX_MATCHES, MAX_SEARCH_SCAN_BYTES};
use base64::engine::general_purpose::STANDARD;
use base64::Engine;
use serde_json::Value;

fn zero_id() -> String {
    format!("out_{}", "0".repeat(64))
}

#[test]
fn retrieval_output_logging_is_content_free() {
    let output = ReadToolOutputResult::new(
        r#"{"artifact_id":"SECRET_ARTIFACT_ID","text":"SECRET_CONTENT","query":"SECRET_QUERY"}"#
            .to_string(),
        RetrievalMode::Bytes,
    );
    let log = output.log_output();
    assert!(log.contains("read_tool_output"));
    assert!(log.contains("serialized_bytes"));
    for secret in ["SECRET_ARTIFACT_ID", "SECRET_CONTENT", "SECRET_QUERY"] {
        assert!(!log.contains(secret));
    }
}

#[test]
fn a_budget_without_a_recovery_handle_stays_untrusted() {
    let output = ReadToolOutputResult::new(
        r#"{"type":"tool_output_error","version":1,"error":"bounded"}"#.to_string(),
        RetrievalMode::Bytes,
    );
    assert_eq!(output.provenance(), ToolOutputProvenance::Untrusted);
    assert!(!output.success_for_logging());
}

#[test]
fn bounded_search_continuation_starts_at_the_omitted_match() {
    let mut value = JsonObject::new();
    value.set_text("type", "tool_output_artifact_search");
    value.set_text("mode", "search");
    value.set_text("artifact_id", &zero_id());
    value.set(
        "byte_offsets",
        JsonValue::Offsets((0..64).map(|offset| offset * 10).collect()),
    );
    value.set("next_offset", JsonValue::Unsigned(640));
    value.set("complete", JsonValue::Bool(false));

    let rendered = bounded_result(value, 200);
    let bounded = serde_json::from_str::<Value>(&rendered).expect("valid bounded search JSON");
    let next = bounded["next_offset"].as_u64().expect("continuation");
    assert_eq!(next, 130);
}

fn line_document(text: &str, next_offset: u64) -> JsonObject {
    let mut value = JsonObject::new();
    value.set_text("type", "tool_output_artifact_window");
    value.set_text("mode", "lines");
    value.set_text("artifact_id", &zero_id());
    value.set("start_line", JsonValue::Unsigned(7));
    value.set("start_byte", JsonValue::Unsigned(100));
    value.set("end_byte", JsonValue::Unsigned(500));
    value.set_text("text", text);
    value.set("next_offset", JsonValue::Unsigned(next_offset));
    value.set("next_byte", JsonValue::Unsigned(500));
    value.set("scan_continues", JsonValue::Bool(false));
    value.set("complete", JsonValue::Bool(false));
    value
}

#[test]
fn bounded_line_window_keeps_line_and_byte_continuations_distinct() {
    let value = line_document(&"x".repeat(400), 8);

    let rendered = bounded_result(value, 240);
    let bounded = serde_json::from_str::<Value>(&rendered).expect("valid bounded line JSON");
    assert_eq!(bounded["mode"], "lines");
    assert_eq!(bounded["next_offset"], 7);
    assert!(bounded["next_byte"].as_u64().unwrap_or_default() > 100);
    assert!(!bounded["text"].as_str().unwrap_or_default().is_empty());
}

#[test]
fn bounded_line_window_advances_line_cursor_for_retained_newlines() {
    let value = line_document(&"first\nsecond\nthird".repeat(10), 10);

    let rendered = bounded_result(value, 300);
    let bounded = serde_json::from_str::<Value>(&rendered).expect("valid bounded line JSON");
    let text = bounded["text"].as_str().expect("text");
    let retained_lines = text.bytes().filter(|byte| *byte == b'\n').count();
    assert_eq!(
        bounded["next_offset"],
        7 + u64::try_from(retained_lines).expect("line count")
    );
}

#[test]
fn low_policy_line_scan_continuation_keeps_a_resumable_cursor() {
    let mut value = JsonObject::new();
    value.set_text("type", "tool_output_artifact_window");
    value.set_text("mode", "lines");
    value.set_text("artifact_id", &zero_id());
    value.set("start_line", JsonValue::Unsigned(2));
    value.set("start_byte", JsonValue::Unsigned(524_288));
    value.set("end_byte", JsonValue::Unsigned(524_288));
    value.set_text("text", "");
    value.set("next_offset", JsonValue::Unsigned(2));
    value.set("next_byte", JsonValue::Unsigned(524_288));
    value.set("scan_continues", JsonValue::Bool(true));
    value.set("scan_lines_remaining", JsonValue::Unsigned(1));
    value.set("complete", JsonValue::Bool(false));

    let rendered = bounded_result(value, 200);
    assert!(rendered.len() <= 200);
    let bounded = serde_json::from_str::<Value>(&rendered).expect("valid continuation JSON");
    assert_eq!(bounded["next_byte"], 524_288);
    assert_eq!(bounded["scan_lines_remaining"], 1);
    assert_eq!(bounded["next_offset"], 2);
}

#[test]
fn retrieval_documents_remain_structurally_valid_when_bounded() {
    let source = "quoted \" text \\ and more".repeat(100);
    let mut value = JsonObject::new();
    value.set_text("type", "tool_output_artifact_window");
    value.set_text("mode", "bytes");
    value.set_text("artifact_id", &zero_id());
    value.set("start_byte", JsonValue::Unsigned(0));
    value.set("end_byte", JsonValue::Unsigned(2_600));
    value.set_text("text", &source);
    value.set("next_offset", JsonValue::Unsigned(42));
    value.set("complete", JsonValue::Bool(false));

    let rendered = bounded_result(value, 512);

    assert!(rendered.len() <= 512);
    let bounded = serde_json::from_str::<Value>(&rendered).expect("valid bounded JSON");
    assert_eq!(bounded["type"], "tool_output_artifact_window");
    let text = bounded["text"].as_str().expect("bounded text");
    assert!(source.starts_with(text));
    assert_eq!(bounded["end_byte"], text.len() as u64);
    assert_eq!(bounded["next_offset"], text.len() as u64);
}

/// Runs a search over bytes in memory, in reads of at most `max_read` bytes.
fn search(stored: &[u8], query: &str, limit: usize, max_read: usize) -> (Vec<u64>, Option<u64>) {
    let mut search = ArtifactSearch::new(query, 0, limit, MAX_MATCHES).expect("valid query");
    loop {
        let (offset, size) = search.request(max_read);
        let start = (offset as usize).min(stored.len());
        let end = (start + size).min(stored.len());
        if size == 0 {
            return search.exhausted();
        }
        match search.supply(&stored[start..end], end < stored.len()) {
            SearchStep::Found { offsets, next } => return (offsets, next),
            SearchStep::More => {}
        }
    }
}

#[test]
fn absent_search_returns_a_bounded_scan_continuation() {
    let stored = "x".repeat(MAX_SEARCH_SCAN_BYTES * 2);
    let (matches, next) = search(stored.as_bytes(), "absent", 20, 65_536);
    assert_eq!(matches, Vec::<u64>::new());
    assert_eq!(next, Some(MAX_SEARCH_SCAN_BYTES as u64));
}

#[test]
fn search_finds_a_match_crossing_the_scan_boundary() {
    let mut original = "x".repeat(MAX_SEARCH_SCAN_BYTES - 3);
    original.push_str("boundary-match");
    let (matches, next) = search(original.as_bytes(), "boundary-match", 20, 65_536);
    assert_eq!(matches, vec![(MAX_SEARCH_SCAN_BYTES - 3) as u64]);
    assert_eq!(next, None);
}

/// Reads a window of bytes in memory: as text where it is UTF-8, raw where it is not.
fn read_bytes(stored: &[u8], offset: u64, limit: usize) -> Value {
    let id = OutputArtifactId::parse(&zero_id()).expect("valid id");
    let start = (offset as usize).min(stored.len());
    let end = (start + limit).min(stored.len());
    let next = if end < stored.len() { Some(end as u64) } else { None };
    let bytes = &stored[start..end];
    let document = match std::str::from_utf8(bytes) {
        Ok(text) => read_bytes_value(&id, text, start as u64, end as u64, next),
        Err(_) => {
            assert!(falls_back_to_raw(IoErrorKind::InvalidData));
            read_raw_bytes_value(&id, bytes, start as u64, end as u64, next)
        }
    };
    serde_json::from_str(&document.to_text()).expect("valid JSON")
}

fn decoded(value: &Value) -> Vec<u8> {
    STANDARD
        .decode(value["bytes_base64"].as_str().expect("base64"))
        .expect("decode base64")
}

#[test]
fn invalid_utf8_retrieval_uses_exact_base64_windows_and_byte_search() {
    let bytes = [0xff, 0x00, b'S', b'E', b'C', b'R', b'E', b'T'];
    let value = read_bytes(&bytes, 0, bytes.len());
    assert_eq!(value["encoding"], "base64");
    assert_eq!(decoded(&value), bytes);
    assert_eq!(search(&bytes, "SECRET", 10, 65_536), (vec![2], None));

    for bytes in [vec![0x80, 0x00, b'a'], vec![0xc3, b'a'], vec![0xff, b'b']] {
        let value = read_bytes(&bytes, 0, bytes.len());
        assert_eq!(value["encoding"], "base64");
        assert_eq!(decoded(&value), bytes);
    }

    let bytes = vec![0xc2, 0x80, 0xff];
    let mut recovered = Vec::new();
    let mut offset = 0;
    loop {
        let value = read_bytes(&bytes, offset, 1);
        recovered.extend(decoded(&value));
        let Some(next) = value["next_offset"].as_u64() else {
            break;
        };
        offset = next;
    }
    assert_eq!(recovered, bytes);

    let bytes = vec![b'a', 0x80, 0xff, b'z'];
    let value = read_bytes(&bytes, 1, 2);
    assert_eq!(value["encoding"], "base64");
    assert_eq!(decoded(&value), bytes[1..3].to_vec());
    let next = value["next_offset"].as_u64().expect("raw continuation");
    let second = read_bytes(&bytes, next, 2);
    let second_bytes = match second["text"].as_str() {
        Some(text) => text.as_bytes().to_vec(),
        None => decoded(&second),
    };
    assert_eq!(second_bytes, bytes[3..].to_vec());
}

#[test]
fn queries_are_bounded() {
    assert!(ArtifactSearch::new("", 0, 10, MAX_MATCHES).is_err());
    assert!(ArtifactSearch::new(&"q".repeat(1025), 0, 10, MAX_MATCHES).is_err());
    assert!(ArtifactSearch::new(&"q".repeat(1024), 0, 10, MAX_MATCHES).is_ok());
}

#[test]
fn raw_pages_are_base64() {
    let id = OutputArtifactId::for_text("bytes");
    let document = read_raw_bytes_value(&id, &[0xff, 0x00, 0x41], 5, 8, Some(8));
    let value: Value = serde_json::from_str(&document.to_text()).expect("valid JSON");
    assert_eq!(value["encoding"], "base64");
    assert_eq!(value["bytes_base64"], "/wBB");
    assert_eq!(value["start_byte"], 5);
    assert_eq!(value["end_byte"], 8);
    assert_eq!(value["next_offset"], 8);
    assert_eq!(value["artifact_id"], id.as_str());
}

#[test]
fn raw_pages_are_cut_to_whole_bytes() {
    let id = OutputArtifactId::for_text("bytes");
    let bytes: Vec<u8> = (0..=255).cycle().take(2_000).collect();
    let document = read_raw_bytes_value(&id, &bytes, 10, 2_010, Some(2_010));
    let rendered = bounded_result(document, 600);
    assert!(rendered.len() <= 600);
    let value: Value = serde_json::from_str(&rendered).expect("valid JSON");
    let encoded = value["bytes_base64"].as_str().expect("base64");
    let kept = encoded.trim_end_matches('=').len() * 3 / 4;
    assert_eq!(value["end_byte"], 10 + kept as u64);
    assert_eq!(value["next_offset"], 10 + kept as u64);
}

#[test]
fn text_pages_name_their_continuation() {
    let id = OutputArtifactId::for_text("text");
    let document = read_bytes_value(&id, "héllo", 2, 8, None);
    let value: Value = serde_json::from_str(&document.to_text()).expect("valid JSON");
    assert_eq!(value["type"], "tool_output_artifact_window");
    assert_eq!(value["mode"], "bytes");
    assert_eq!(value["text"], "héllo");
    assert_eq!(value["next_offset"], Value::Null);
    assert_eq!(value["complete"], true);
}

#[test]
fn search_results_name_their_offsets() {
    let id = OutputArtifactId::for_text("text");
    let document = search_value(&id, vec![3, 9], Some(12));
    let value: Value = serde_json::from_str(&document.to_text()).expect("valid JSON");
    assert_eq!(value["type"], "tool_output_artifact_search");
    assert_eq!(value["byte_offsets"][1], 9);
    assert_eq!(value["next_offset"], 12);
    assert_eq!(value["complete"], false);
}

/// Runs a line read over bytes in memory.
fn read_lines(
    stored: &str,
    start_line: usize,
    byte_offset: u64,
    scan_continuation: bool,
    scan_lines_remaining: Option<usize>,
) -> codex_context::read_tool_output::LineWindow {
    let bytes = stored.as_bytes();
    let breaks = |from: u64, limit: usize| -> (Vec<u64>, Option<u64>) {
        let mut found = Vec::new();
        let end = (from as usize + MAX_SEARCH_SCAN_BYTES).min(bytes.len());
        for (index, byte) in bytes.iter().enumerate().take(end).skip(from as usize) {
            if *byte == b'\n' {
                found.push(index as u64);
                if found.len() == limit {
                    let next = index as u64 + 1;
                    return (found, if next < bytes.len() as u64 { Some(next) } else { None });
                }
            }
        }
        let next = if end < bytes.len() { Some(end as u64) } else { None };
        (found, next)
    };
    let mut scan = LineScan::new(
        start_line,
        byte_offset,
        scan_continuation,
        false,
        scan_lines_remaining,
        1,
    )
    .expect("valid line request");
    loop {
        match scan.step() {
            LineStep::Skip { byte, limit } => {
                let (offsets, next) = breaks(byte, limit);
                if let Some(window) = scan.skipped(&offsets, next) {
                    return window;
                }
            }
            LineStep::Pause(window) => return window,
            LineStep::Breaks { byte, limit } => {
                let (offsets, _) = breaks(byte, limit);
                let size = scan.read_size(&offsets);
                let end = (byte as usize + size).min(bytes.len());
                let text = stored[byte as usize..end].to_string();
                let next = if end < bytes.len() { Some(end as u64) } else { None };
                return scan.window(text, end as u64, next);
            }
        }
    }
}

#[test]
fn line_windows_return_scan_continuation_at_the_search_scan_ceiling() {
    let first_line = "x".repeat(MAX_SEARCH_SCAN_BYTES + 1);
    let original = format!("{first_line}\ntarget line\n");

    let result = read_lines(&original, 2, 0, false, None);
    assert_eq!(result.text, "");
    assert_eq!(result.start_byte, MAX_SEARCH_SCAN_BYTES as u64);
    assert_eq!(result.end_byte, MAX_SEARCH_SCAN_BYTES as u64);
    assert_eq!(result.next_line, Some(2));
    assert_eq!(result.next_byte, Some(MAX_SEARCH_SCAN_BYTES as u64));
    assert!(result.scan_continues);
    assert!(!result.line_continuation);
    assert_eq!(result.scan_lines_remaining, Some(1));

    let resumed = read_lines(&original, 2, MAX_SEARCH_SCAN_BYTES as u64, true, Some(1));
    assert_eq!(resumed.text, "target line\n");
    assert_eq!(resumed.start_byte, (MAX_SEARCH_SCAN_BYTES + 2) as u64);
}

#[test]
fn line_scan_cursor_preserves_multiple_remaining_lines() {
    let first_line = "x".repeat(MAX_SEARCH_SCAN_BYTES + 1);
    let original = format!("{first_line}\nsecond skipped line\ntarget line\n");

    let cursor = read_lines(&original, 3, 0, false, None);
    assert!(cursor.scan_continues);
    assert!(!cursor.line_continuation);
    assert_eq!(cursor.scan_lines_remaining, Some(2));

    let resumed = read_lines(
        &original,
        3,
        cursor.next_byte.expect("cursor byte"),
        true,
        cursor.scan_lines_remaining,
    );
    assert_eq!(resumed.text, "target line\n");
    assert_eq!(
        resumed.start_byte,
        (MAX_SEARCH_SCAN_BYTES + 2 + "second skipped line\n".len()) as u64
    );
    let id = OutputArtifactId::for_text(&original);
    let value: Value =
        serde_json::from_str(&read_lines_value(&id, 3, &resumed).to_text()).expect("valid JSON");
    assert_eq!(value["mode"], "lines");
    assert_eq!(value["start_line"], 3);
    assert_eq!(value["text"], "target line\n");
}

#[test]
fn consecutive_line_windows_join_without_a_gap() {
    let original = format!("first\n{}\n\nth\u{e9} last", "long ".repeat(8_000));
    let mut line = 1;
    let mut byte = 0;
    let mut joined = String::new();
    loop {
        let window = read_lines(&original, line, byte, false, None);
        assert_eq!(window.start_byte, byte);
        assert_eq!(line, 1 + joined.matches('\n').count());
        joined.push_str(&window.text);
        assert_eq!(window.end_byte, joined.len() as u64);
        let (Some(next_line), Some(next_byte)) = (window.next_line, window.next_byte) else {
            break;
        };
        line = next_line;
        byte = next_byte;
    }
    assert_eq!(joined, original);
    let third = read_lines(&original, 3, 0, false, None);
    assert_eq!(third.text, "\n");
    let missing = read_lines(&original, 5, 0, false, None);
    assert_eq!(missing.text, "");
    assert_eq!(missing.next_line, None);
}

fn retrieval(mode: RetrievalMode, query: Option<&str>) -> RetrievalArgs {
    RetrievalArgs {
        artifact_id: zero_id(),
        mode,
        offset: None,
        byte_offset: None,
        scan_continuation: None,
        line_continuation: None,
        scan_lines_remaining: None,
        limit: None,
        query: query.map(str::to_string),
    }
}

#[test]
fn requests_are_planned_or_refused() {
    let handler = ReadToolOutputHandler;
    let policy = TruncationPolicy::Bytes(4_096);
    assert!(matches!(
        handler.plan(&retrieval(RetrievalMode::Bytes, None), true, policy),
        Ok(RetrievalPlan::Bytes { .. })
    ));
    assert!(handler
        .plan(&retrieval(RetrievalMode::Bytes, None), false, policy)
        .is_err());
    assert!(handler
        .plan(&retrieval(RetrievalMode::Search, None), true, policy)
        .is_err());
    let mut unknown = retrieval(RetrievalMode::Bytes, None);
    unknown.artifact_id = "nonsense".to_string();
    assert!(handler.plan(&unknown, true, policy).is_err());
}

#[test]
fn responses_obey_their_budget() {
    let handler = ReadToolOutputHandler;
    let id = OutputArtifactId::for_text("text");
    let document = read_bytes_value(&id, &"y".repeat(5_000), 0, 5_000, None);
    let result = handler.respond(document, RetrievalMode::Bytes, 400);
    assert!(result.text().len() <= 400);
    assert_eq!(
        result.provenance(),
        ToolOutputProvenance::ManagedArtifactRetrieval
    );
    assert!(result.success_for_logging());
}

#[test]
fn retrieval_failures_have_fixed_messages() {
    let missing = retrieval_error(IoErrorKind::NotFound);
    let denied = retrieval_error(IoErrorKind::Other);
    assert_ne!(format!("{missing:?}"), format!("{denied:?}"));
    assert!(falls_back_to_raw(IoErrorKind::InvalidData));
    assert!(!falls_back_to_raw(IoErrorKind::NotFound));
    assert_eq!(effective_output_budget(TruncationPolicy::Bytes(0)), 0);
}

#[test]
fn pages_of_a_search_report_every_match_once() {
    let stored = format!("aaaa{}aXaa", "-".repeat(MAX_SEARCH_SCAN_BYTES - 5));
    let expected: Vec<u64> = (0..stored.len() - 1)
        .filter(|index| &stored.as_bytes()[*index..*index + 2] == b"aa")
        .map(|index| index as u64)
        .collect();
    for limit in [1, 2, 20] {
        let mut found = Vec::new();
        let mut offset = 0;
        loop {
            let mut search =
                ArtifactSearch::new("aa", offset, limit, MAX_MATCHES).expect("valid query");
            let (offsets, next) = loop {
                let (start, size) = search.request(65_536);
                let start = (start as usize).min(stored.len());
                let end = (start + size).min(stored.len());
                let step = search.supply(&stored.as_bytes()[start..end], end < stored.len());
                if let SearchStep::Found { offsets, next } = step {
                    break (offsets, next);
                }
            };
            assert!(offsets.len() <= limit);
            found.extend(offsets);
            match next {
                Some(next) => offset = next,
                None => break,
            }
        }
        assert_eq!(found, expected);
    }
}

#[test]
fn cut_pages_end_where_they_continue() {
    let id = OutputArtifactId::for_text("text");
    let text = "zeile é\n".repeat(100);
    let end = 40 + text.len() as u64;
    let rendered = bounded_result(read_bytes_value(&id, &text, 40, end, None), 400);
    let value: Value = serde_json::from_str(&rendered).expect("valid JSON");
    let kept = value["text"].as_str().expect("text");
    assert!(!kept.is_empty() && text.starts_with(kept) && kept.len() < text.len());
    assert_eq!(value["end_byte"], 40 + kept.len() as u64);
    assert_eq!(value["next_offset"], value["end_byte"]);
}
