//! What the documents say that answer a request for a part of a stored output.

use vstd::prelude::*;

use crate::artifact_id::is_artifact_id;
use crate::io_error::IoErrorKind;
use crate::json::{
    json_members, keys_increase, member, object_text, text_member, unsigned_member, with_member,
    with_member_ordered, without_member, without_member_ordered, JsonModel, Members,
};
use crate::protocol::TruncationPolicy;
use crate::read_file_window::newlines;
use crate::read_tool_output::{
    bytes_document, control_artifact, is_output_error, lines_document, lines_to_skip, log_document,
    optional_number, output_budget, past_the_end, raw_bytes_document, refusal, refused_mode,
    retrieval_message, search_document, size_number, skipped_scan, window_document, LineScan,
    LineWindowModel, RetrievalArgs, RetrievalMode,
};
use crate::read_tool_output_window::{
    base64_decoded, base64_encoded, bound_step, compacted, is_empty_scan, is_line_mode, sum64,
    with_bytes, with_text, BoundStep,
};
use crate::text::{chars_reaching, prefix_within, utf8_len};
use crate::tool_output::structured_error;

verus! {

proof fn keys_differ()
    ensures
        "type"@ != "mode"@,
        "type"@ != "artifact_id"@,
        "type"@ != "start_byte"@,
        "type"@ != "end_byte"@,
        "type"@ != "next_offset"@,
        "type"@ != "complete"@,
        "type"@ != "start_line"@,
        "type"@ != "text"@,
        "type"@ != "next_byte"@,
        "type"@ != "scan_continues"@,
        "type"@ != "scan_lines_remaining"@,
        "type"@ != "line_continuation"@,
        "type"@ != "encoding"@,
        "type"@ != "bytes_base64"@,
        "type"@ != "byte_offsets"@,
        "mode"@ != "artifact_id"@,
        "mode"@ != "start_byte"@,
        "mode"@ != "end_byte"@,
        "mode"@ != "next_offset"@,
        "mode"@ != "complete"@,
        "mode"@ != "start_line"@,
        "mode"@ != "text"@,
        "mode"@ != "next_byte"@,
        "mode"@ != "scan_continues"@,
        "mode"@ != "scan_lines_remaining"@,
        "mode"@ != "line_continuation"@,
        "mode"@ != "encoding"@,
        "mode"@ != "bytes_base64"@,
        "mode"@ != "byte_offsets"@,
        "artifact_id"@ != "start_byte"@,
        "artifact_id"@ != "end_byte"@,
        "artifact_id"@ != "next_offset"@,
        "artifact_id"@ != "complete"@,
        "artifact_id"@ != "start_line"@,
        "artifact_id"@ != "text"@,
        "artifact_id"@ != "next_byte"@,
        "artifact_id"@ != "scan_continues"@,
        "artifact_id"@ != "scan_lines_remaining"@,
        "artifact_id"@ != "line_continuation"@,
        "artifact_id"@ != "encoding"@,
        "artifact_id"@ != "bytes_base64"@,
        "artifact_id"@ != "byte_offsets"@,
        "start_byte"@ != "end_byte"@,
        "start_byte"@ != "next_offset"@,
        "start_byte"@ != "complete"@,
        "start_byte"@ != "start_line"@,
        "start_byte"@ != "text"@,
        "start_byte"@ != "next_byte"@,
        "start_byte"@ != "scan_continues"@,
        "start_byte"@ != "scan_lines_remaining"@,
        "start_byte"@ != "line_continuation"@,
        "start_byte"@ != "encoding"@,
        "start_byte"@ != "bytes_base64"@,
        "start_byte"@ != "byte_offsets"@,
        "end_byte"@ != "next_offset"@,
        "end_byte"@ != "complete"@,
        "end_byte"@ != "start_line"@,
        "end_byte"@ != "text"@,
        "end_byte"@ != "next_byte"@,
        "end_byte"@ != "scan_continues"@,
        "end_byte"@ != "scan_lines_remaining"@,
        "end_byte"@ != "line_continuation"@,
        "end_byte"@ != "encoding"@,
        "end_byte"@ != "bytes_base64"@,
        "end_byte"@ != "byte_offsets"@,
        "next_offset"@ != "complete"@,
        "next_offset"@ != "start_line"@,
        "next_offset"@ != "text"@,
        "next_offset"@ != "next_byte"@,
        "next_offset"@ != "scan_continues"@,
        "next_offset"@ != "scan_lines_remaining"@,
        "next_offset"@ != "line_continuation"@,
        "next_offset"@ != "encoding"@,
        "next_offset"@ != "bytes_base64"@,
        "next_offset"@ != "byte_offsets"@,
        "complete"@ != "start_line"@,
        "complete"@ != "text"@,
        "complete"@ != "next_byte"@,
        "complete"@ != "scan_continues"@,
        "complete"@ != "scan_lines_remaining"@,
        "complete"@ != "line_continuation"@,
        "complete"@ != "encoding"@,
        "complete"@ != "bytes_base64"@,
        "complete"@ != "byte_offsets"@,
        "start_line"@ != "text"@,
        "start_line"@ != "next_byte"@,
        "start_line"@ != "scan_continues"@,
        "start_line"@ != "scan_lines_remaining"@,
        "start_line"@ != "line_continuation"@,
        "start_line"@ != "encoding"@,
        "start_line"@ != "bytes_base64"@,
        "start_line"@ != "byte_offsets"@,
        "text"@ != "next_byte"@,
        "text"@ != "scan_continues"@,
        "text"@ != "scan_lines_remaining"@,
        "text"@ != "line_continuation"@,
        "text"@ != "encoding"@,
        "text"@ != "bytes_base64"@,
        "text"@ != "byte_offsets"@,
        "next_byte"@ != "scan_continues"@,
        "next_byte"@ != "scan_lines_remaining"@,
        "next_byte"@ != "line_continuation"@,
        "next_byte"@ != "encoding"@,
        "next_byte"@ != "bytes_base64"@,
        "next_byte"@ != "byte_offsets"@,
        "scan_continues"@ != "scan_lines_remaining"@,
        "scan_continues"@ != "line_continuation"@,
        "scan_continues"@ != "encoding"@,
        "scan_continues"@ != "bytes_base64"@,
        "scan_continues"@ != "byte_offsets"@,
        "scan_lines_remaining"@ != "line_continuation"@,
        "scan_lines_remaining"@ != "encoding"@,
        "scan_lines_remaining"@ != "bytes_base64"@,
        "scan_lines_remaining"@ != "byte_offsets"@,
        "line_continuation"@ != "encoding"@,
        "line_continuation"@ != "bytes_base64"@,
        "line_continuation"@ != "byte_offsets"@,
        "encoding"@ != "bytes_base64"@,
        "encoding"@ != "byte_offsets"@,
        "bytes_base64"@ != "byte_offsets"@,
{
    reveal_strlit("type");
    reveal_strlit("mode");
    reveal_strlit("artifact_id");
    reveal_strlit("start_byte");
    reveal_strlit("end_byte");
    reveal_strlit("next_offset");
    reveal_strlit("complete");
    reveal_strlit("start_line");
    reveal_strlit("text");
    reveal_strlit("next_byte");
    reveal_strlit("scan_continues");
    reveal_strlit("scan_lines_remaining");
    reveal_strlit("line_continuation");
    reveal_strlit("encoding");
    reveal_strlit("bytes_base64");
    reveal_strlit("byte_offsets");
    assert("type"@[0] != "mode"@[0]);
    assert("type"@.len() != "artifact_id"@.len());
    assert("type"@.len() != "start_byte"@.len());
    assert("type"@.len() != "end_byte"@.len());
    assert("type"@.len() != "next_offset"@.len());
    assert("type"@.len() != "complete"@.len());
    assert("type"@.len() != "start_line"@.len());
    assert("type"@[1] != "text"@[1]);
    assert("type"@.len() != "next_byte"@.len());
    assert("type"@.len() != "scan_continues"@.len());
    assert("type"@.len() != "scan_lines_remaining"@.len());
    assert("type"@.len() != "line_continuation"@.len());
    assert("type"@.len() != "encoding"@.len());
    assert("type"@.len() != "bytes_base64"@.len());
    assert("type"@.len() != "byte_offsets"@.len());
    assert("mode"@.len() != "artifact_id"@.len());
    assert("mode"@.len() != "start_byte"@.len());
    assert("mode"@.len() != "end_byte"@.len());
    assert("mode"@.len() != "next_offset"@.len());
    assert("mode"@.len() != "complete"@.len());
    assert("mode"@.len() != "start_line"@.len());
    assert("mode"@[0] != "text"@[0]);
    assert("mode"@.len() != "next_byte"@.len());
    assert("mode"@.len() != "scan_continues"@.len());
    assert("mode"@.len() != "scan_lines_remaining"@.len());
    assert("mode"@.len() != "line_continuation"@.len());
    assert("mode"@.len() != "encoding"@.len());
    assert("mode"@.len() != "bytes_base64"@.len());
    assert("mode"@.len() != "byte_offsets"@.len());
    assert("artifact_id"@.len() != "start_byte"@.len());
    assert("artifact_id"@.len() != "end_byte"@.len());
    assert("artifact_id"@[0] != "next_offset"@[0]);
    assert("artifact_id"@.len() != "complete"@.len());
    assert("artifact_id"@.len() != "start_line"@.len());
    assert("artifact_id"@.len() != "text"@.len());
    assert("artifact_id"@.len() != "next_byte"@.len());
    assert("artifact_id"@.len() != "scan_continues"@.len());
    assert("artifact_id"@.len() != "scan_lines_remaining"@.len());
    assert("artifact_id"@.len() != "line_continuation"@.len());
    assert("artifact_id"@.len() != "encoding"@.len());
    assert("artifact_id"@.len() != "bytes_base64"@.len());
    assert("artifact_id"@.len() != "byte_offsets"@.len());
    assert("start_byte"@.len() != "end_byte"@.len());
    assert("start_byte"@.len() != "next_offset"@.len());
    assert("start_byte"@.len() != "complete"@.len());
    assert("start_byte"@[6] != "start_line"@[6]);
    assert("start_byte"@.len() != "text"@.len());
    assert("start_byte"@.len() != "next_byte"@.len());
    assert("start_byte"@.len() != "scan_continues"@.len());
    assert("start_byte"@.len() != "scan_lines_remaining"@.len());
    assert("start_byte"@.len() != "line_continuation"@.len());
    assert("start_byte"@.len() != "encoding"@.len());
    assert("start_byte"@.len() != "bytes_base64"@.len());
    assert("start_byte"@.len() != "byte_offsets"@.len());
    assert("end_byte"@.len() != "next_offset"@.len());
    assert("end_byte"@[0] != "complete"@[0]);
    assert("end_byte"@.len() != "start_line"@.len());
    assert("end_byte"@.len() != "text"@.len());
    assert("end_byte"@.len() != "next_byte"@.len());
    assert("end_byte"@.len() != "scan_continues"@.len());
    assert("end_byte"@.len() != "scan_lines_remaining"@.len());
    assert("end_byte"@.len() != "line_continuation"@.len());
    assert("end_byte"@[2] != "encoding"@[2]);
    assert("end_byte"@.len() != "bytes_base64"@.len());
    assert("end_byte"@.len() != "byte_offsets"@.len());
    assert("next_offset"@.len() != "complete"@.len());
    assert("next_offset"@.len() != "start_line"@.len());
    assert("next_offset"@.len() != "text"@.len());
    assert("next_offset"@.len() != "next_byte"@.len());
    assert("next_offset"@.len() != "scan_continues"@.len());
    assert("next_offset"@.len() != "scan_lines_remaining"@.len());
    assert("next_offset"@.len() != "line_continuation"@.len());
    assert("next_offset"@.len() != "encoding"@.len());
    assert("next_offset"@.len() != "bytes_base64"@.len());
    assert("next_offset"@.len() != "byte_offsets"@.len());
    assert("complete"@.len() != "start_line"@.len());
    assert("complete"@.len() != "text"@.len());
    assert("complete"@.len() != "next_byte"@.len());
    assert("complete"@.len() != "scan_continues"@.len());
    assert("complete"@.len() != "scan_lines_remaining"@.len());
    assert("complete"@.len() != "line_continuation"@.len());
    assert("complete"@[0] != "encoding"@[0]);
    assert("complete"@.len() != "bytes_base64"@.len());
    assert("complete"@.len() != "byte_offsets"@.len());
    assert("start_line"@.len() != "text"@.len());
    assert("start_line"@.len() != "next_byte"@.len());
    assert("start_line"@.len() != "scan_continues"@.len());
    assert("start_line"@.len() != "scan_lines_remaining"@.len());
    assert("start_line"@.len() != "line_continuation"@.len());
    assert("start_line"@.len() != "encoding"@.len());
    assert("start_line"@.len() != "bytes_base64"@.len());
    assert("start_line"@.len() != "byte_offsets"@.len());
    assert("text"@.len() != "next_byte"@.len());
    assert("text"@.len() != "scan_continues"@.len());
    assert("text"@.len() != "scan_lines_remaining"@.len());
    assert("text"@.len() != "line_continuation"@.len());
    assert("text"@.len() != "encoding"@.len());
    assert("text"@.len() != "bytes_base64"@.len());
    assert("text"@.len() != "byte_offsets"@.len());
    assert("next_byte"@.len() != "scan_continues"@.len());
    assert("next_byte"@.len() != "scan_lines_remaining"@.len());
    assert("next_byte"@.len() != "line_continuation"@.len());
    assert("next_byte"@.len() != "encoding"@.len());
    assert("next_byte"@.len() != "bytes_base64"@.len());
    assert("next_byte"@.len() != "byte_offsets"@.len());
    assert("scan_continues"@.len() != "scan_lines_remaining"@.len());
    assert("scan_continues"@.len() != "line_continuation"@.len());
    assert("scan_continues"@.len() != "encoding"@.len());
    assert("scan_continues"@.len() != "bytes_base64"@.len());
    assert("scan_continues"@.len() != "byte_offsets"@.len());
    assert("scan_lines_remaining"@.len() != "line_continuation"@.len());
    assert("scan_lines_remaining"@.len() != "encoding"@.len());
    assert("scan_lines_remaining"@.len() != "bytes_base64"@.len());
    assert("scan_lines_remaining"@.len() != "byte_offsets"@.len());
    assert("line_continuation"@.len() != "encoding"@.len());
    assert("line_continuation"@.len() != "bytes_base64"@.len());
    assert("line_continuation"@.len() != "byte_offsets"@.len());
    assert("encoding"@.len() != "bytes_base64"@.len());
    assert("encoding"@.len() != "byte_offsets"@.len());
    assert("bytes_base64"@[4] != "byte_offsets"@[4]);
}

proof fn window_members(
    mode: Seq<char>,
    id: Seq<char>,
    start: u64,
    end: u64,
    next: Option<u64>,
    complete: bool,
)
    ensures
        ({
            let doc = window_document(mode, id, start, end, next, complete);
            &&& keys_increase(doc)
            &&& member(doc, "type"@) == Some(JsonModel::Text("tool_output_artifact_window"@))
            &&& member(doc, "mode"@) == Some(JsonModel::Text(mode))
            &&& member(doc, "artifact_id"@) == Some(JsonModel::Text(id))
            &&& member(doc, "start_byte"@) == Some(JsonModel::Unsigned(start))
            &&& member(doc, "end_byte"@) == Some(JsonModel::Unsigned(end))
            &&& member(doc, "next_offset"@) == Some(
                match next {
                    Some(n) => JsonModel::Unsigned(n),
                    None => JsonModel::Null,
                },
            )
            &&& member(doc, "complete"@) == Some(JsonModel::Bool(complete))
            &&& forall|key: Seq<char>|
                key != "type"@ && key != "mode"@ && key != "artifact_id"@ && key != "start_byte"@
                    && key != "end_byte"@ && key != "next_offset"@ && key != "complete"@ ==> (
                #[trigger] member(doc, key)) is None
        }),
{
    keys_differ();
    let d0: Members = Seq::<(Seq<char>, JsonModel)>::empty();
    with_member_ordered(d0, "type"@, JsonModel::Text("tool_output_artifact_window"@));
    let d1 = with_member(d0, "type"@, JsonModel::Text("tool_output_artifact_window"@));
    with_member_ordered(d1, "mode"@, JsonModel::Text(mode));
    let d2 = with_member(d1, "mode"@, JsonModel::Text(mode));
    with_member_ordered(d2, "artifact_id"@, JsonModel::Text(id));
    let d3 = with_member(d2, "artifact_id"@, JsonModel::Text(id));
    with_member_ordered(d3, "start_byte"@, JsonModel::Unsigned(start));
    let d4 = with_member(d3, "start_byte"@, JsonModel::Unsigned(start));
    with_member_ordered(d4, "end_byte"@, JsonModel::Unsigned(end));
    let d5 = with_member(d4, "end_byte"@, JsonModel::Unsigned(end));
    with_member_ordered(d5, "next_offset"@, optional_number(next));
    let d6 = with_member(d5, "next_offset"@, optional_number(next));
    with_member_ordered(d6, "complete"@, JsonModel::Bool(complete));
    let d7 = with_member(d6, "complete"@, JsonModel::Bool(complete));
}

/// A text window says which bytes of which artifact it holds, the text itself, and where to read
/// on; it is complete exactly where there is nothing to read on. It says nothing else.
pub proof fn bytes_document_says(
    id: Seq<char>,
    text: Seq<char>,
    start: u64,
    end: u64,
    next: Option<u64>,
)
    ensures
        ({
            let doc = bytes_document(id, text, start, end, next);
            &&& keys_increase(doc)
            &&& member(doc, "type"@) == Some(JsonModel::Text("tool_output_artifact_window"@))
            &&& member(doc, "mode"@) == Some(JsonModel::Text("bytes"@))
            &&& member(doc, "artifact_id"@) == Some(JsonModel::Text(id))
            &&& member(doc, "start_byte"@) == Some(JsonModel::Unsigned(start))
            &&& member(doc, "end_byte"@) == Some(JsonModel::Unsigned(end))
            &&& member(doc, "text"@) == Some(JsonModel::Text(text))
            &&& (match next {
                Some(n) => unsigned_member(doc, "next_offset"@) == Some(n) && member(
                    doc,
                    "complete"@,
                ) == Some(JsonModel::Bool(false)),
                None => member(doc, "next_offset"@) == Some(JsonModel::Null) && member(
                    doc,
                    "complete"@,
                ) == Some(JsonModel::Bool(true)),
            })
            &&& forall|key: Seq<char>|
                key != "type"@ && key != "mode"@ && key != "artifact_id"@ && key != "start_byte"@
                    && key != "end_byte"@ && key != "next_offset"@ && key != "complete"@ && key
                    != "text"@ ==> (#[trigger] member(doc, key)) is None
        }),
{
    keys_differ();
    window_members("bytes"@, id, start, end, next, next is None);
    with_member_ordered(
        window_document("bytes"@, id, start, end, next, next is None),
        "text"@,
        JsonModel::Text(text),
    );
}

/// A window of bytes that are not text says the same, with the bytes in base64 in place of the
/// text.
pub proof fn raw_bytes_document_says(
    id: Seq<char>,
    bytes: Seq<u8>,
    start: u64,
    end: u64,
    next: Option<u64>,
)
    ensures
        ({
            let doc = raw_bytes_document(id, bytes, start, end, next);
            let text = bytes_document(id, seq![], start, end, next);
            &&& keys_increase(doc)
            &&& member(doc, "encoding"@) == Some(JsonModel::Text("base64"@))
            &&& member(doc, "bytes_base64"@) == Some(JsonModel::Text(base64_encoded(bytes)))
            &&& member(doc, "text"@) is None
            &&& forall|key: Seq<char>|
                key != "encoding"@ && key != "bytes_base64"@ && key != "text"@
                    ==> #[trigger] member(doc, key) == member(text, key)
        }),
{
    keys_differ();
    bytes_document_says(id, seq![], start, end, next);
    window_members("bytes"@, id, start, end, next, next is None);
    let base = window_document("bytes"@, id, start, end, next, next is None);
    with_member_ordered(base, "text"@, JsonModel::Text(seq![]));
    with_member_ordered(base, "encoding"@, JsonModel::Text("base64"@));
    with_member_ordered(
        with_member(base, "encoding"@, JsonModel::Text("base64"@)),
        "bytes_base64"@,
        JsonModel::Text(base64_encoded(bytes)),
    );
}

proof fn lines_members(id: Seq<char>, start_line: usize, window: LineWindowModel)
    ensures
        ({
            let doc = lines_document(id, start_line, window);
            &&& keys_increase(doc)
            &&& member(doc, "type"@) == Some(JsonModel::Text("tool_output_artifact_window"@))
            &&& member(doc, "mode"@) == Some(JsonModel::Text("lines"@))
            &&& member(doc, "artifact_id"@) == Some(JsonModel::Text(id))
            &&& member(doc, "start_byte"@) == Some(JsonModel::Unsigned(window.start_byte))
            &&& member(doc, "end_byte"@) == Some(JsonModel::Unsigned(window.end_byte))
            &&& member(doc, "start_line"@) == Some(JsonModel::Unsigned(start_line as u64))
            &&& member(doc, "text"@) == Some(JsonModel::Text(window.text))
            &&& member(doc, "next_offset"@) == Some(
                match window.next_line {
                    Some(n) => JsonModel::Unsigned(n as u64),
                    None => JsonModel::Null,
                },
            )
            &&& member(doc, "next_byte"@) == Some(
                match window.next_byte {
                    Some(n) => JsonModel::Unsigned(n),
                    None => JsonModel::Null,
                },
            )
            &&& member(doc, "complete"@) == Some(
                JsonModel::Bool(window.next_line is None && window.next_byte is None),
            )
            &&& member(doc, "scan_continues"@) == Some(JsonModel::Bool(window.scan_continues))
            &&& member(doc, "scan_lines_remaining"@) == Some(
                match window.scan_lines_remaining {
                    Some(n) => JsonModel::Unsigned(n as u64),
                    None => JsonModel::Null,
                },
            )
            &&& member(doc, "line_continuation"@) == (if window.line_continuation {
                Some(JsonModel::Bool(true))
            } else {
                None
            })
            &&& forall|key: Seq<char>|
                key != "type"@ && key != "mode"@ && key != "artifact_id"@ && key != "start_byte"@
                    && key != "end_byte"@ && key != "next_offset"@ && key != "complete"@ && key
                    != "start_line"@ && key != "text"@ && key != "next_byte"@ && key
                    != "scan_continues"@ && key != "scan_lines_remaining"@ && key
                    != "line_continuation"@ ==> (#[trigger] member(doc, key)) is None
        }),
{
    keys_differ();
    let next = size_number(window.next_line);
    let complete = window.next_line is None && window.next_byte is None;
    window_members("lines"@, id, window.start_byte, window.end_byte, next, complete);
    let d0: Members = window_document(
        "lines"@,
        id,
        window.start_byte,
        window.end_byte,
        next,
        complete,
    );
    with_member_ordered(d0, "start_line"@, JsonModel::Unsigned(start_line as u64));
    let d1 = with_member(d0, "start_line"@, JsonModel::Unsigned(start_line as u64));
    with_member_ordered(d1, "text"@, JsonModel::Text(window.text));
    let d2 = with_member(d1, "text"@, JsonModel::Text(window.text));
    with_member_ordered(d2, "next_byte"@, optional_number(window.next_byte));
    let d3 = with_member(d2, "next_byte"@, optional_number(window.next_byte));
    with_member_ordered(d3, "scan_continues"@, JsonModel::Bool(window.scan_continues));
    let d4 = with_member(d3, "scan_continues"@, JsonModel::Bool(window.scan_continues));
    with_member_ordered(d4, "scan_lines_remaining"@, optional_number(
        size_number(window.scan_lines_remaining),
    ));
    let d5 = with_member(d4, "scan_lines_remaining"@, optional_number(
        size_number(window.scan_lines_remaining),
    ));
    with_member_ordered(d5, "line_continuation"@, JsonModel::Bool(true));
}

/// A line window says which lines and bytes of which artifact it holds, the text itself, and the
/// line and the byte to read on with; it is complete exactly where there is neither. It says
/// nothing else.
pub proof fn lines_document_says(id: Seq<char>, start_line: usize, window: LineWindowModel)
    ensures
        ({
            let doc = lines_document(id, start_line, window);
            &&& keys_increase(doc)
            &&& text_member(doc, "type"@) == Some("tool_output_artifact_window"@)
            &&& text_member(doc, "mode"@) == Some("lines"@)
            &&& text_member(doc, "artifact_id"@) == Some(id)
            &&& unsigned_member(doc, "start_line"@) == Some(start_line as u64)
            &&& unsigned_member(doc, "start_byte"@) == Some(window.start_byte)
            &&& unsigned_member(doc, "end_byte"@) == Some(window.end_byte)
            &&& text_member(doc, "text"@) == Some(window.text)
            &&& unsigned_member(doc, "next_byte"@) == window.next_byte
            &&& unsigned_member(doc, "next_offset"@) == (match window.next_line {
                Some(line) => Some(line as u64),
                None => None,
            })
            &&& unsigned_member(doc, "scan_lines_remaining"@) == (
            match window.scan_lines_remaining {
                Some(lines) => Some(lines as u64),
                None => None,
            })
            &&& window.next_byte is None ==> member(doc, "next_byte"@) == Some(JsonModel::Null)
            &&& window.next_line is None ==> member(doc, "next_offset"@) == Some(JsonModel::Null)
            &&& window.scan_lines_remaining is None ==> member(doc, "scan_lines_remaining"@)
                == Some(JsonModel::Null)
            &&& member(doc, "scan_continues"@) == Some(JsonModel::Bool(window.scan_continues))
            &&& member(doc, "complete"@) == Some(
                JsonModel::Bool(window.next_line is None && window.next_byte is None),
            )
            &&& window.line_continuation ==> member(doc, "line_continuation"@) == Some(
                JsonModel::Bool(true),
            )
            &&& !window.line_continuation ==> member(doc, "line_continuation"@) is None
            &&& forall|key: Seq<char>|
                key != "type"@ && key != "mode"@ && key != "artifact_id"@ && key != "start_byte"@
                    && key != "end_byte"@ && key != "next_offset"@ && key != "complete"@ && key
                    != "start_line"@ && key != "text"@ && key != "next_byte"@ && key
                    != "scan_continues"@ && key != "scan_lines_remaining"@ && key
                    != "line_continuation"@ ==> (#[trigger] member(doc, key)) is None
        }),
{
    lines_members(id, start_line, window);
}

/// Pages of lines join: where a page that is not a pause of the scan was read to its end and more
/// is to be read, the document's `next_byte` is its `end_byte`, which lies behind its `start_byte`
/// by the bytes of its text; so the page that is read there repeats no byte and loses none.
pub proof fn line_pages_join(
    id: Seq<char>,
    start_line: usize,
    window: LineWindowModel,
    next_line: usize,
    next: LineWindowModel,
)
    requires
        !window.scan_continues,
        window.end_byte == window.start_byte + utf8_len(window.text),
        window.next_byte == Some(window.end_byte),
        next.start_byte == window.end_byte,
    ensures
        ({
            let doc = lines_document(id, start_line, window);
            let after = lines_document(id, next_line, next);
            &&& unsigned_member(doc, "next_byte"@) == unsigned_member(doc, "end_byte"@)
            &&& unsigned_member(doc, "next_byte"@) is Some
            &&& unsigned_member(doc, "next_byte"@)->0 == unsigned_member(doc, "start_byte"@)->0
                + utf8_len(text_member(doc, "text"@)->0)
            &&& unsigned_member(after, "start_byte"@) == unsigned_member(doc, "next_byte"@)
        }),
{
    lines_members(id, start_line, window);
    lines_members(id, next_line, next);
}

/// A search result says in which artifact the matches are, where they are, and where to search
/// on; it is complete exactly where there is nothing to search on. It says nothing else.
pub proof fn search_document_says(id: Seq<char>, offsets: Seq<u64>, next: Option<u64>)
    ensures
        ({
            let doc = search_document(id, offsets, next);
            &&& keys_increase(doc)
            &&& text_member(doc, "type"@) == Some("tool_output_artifact_search"@)
            &&& text_member(doc, "artifact_id"@) == Some(id)
            &&& member(doc, "byte_offsets"@) == Some(JsonModel::Offsets(offsets))
            &&& (match next {
                Some(n) => member(doc, "next_offset"@) == Some(JsonModel::Unsigned(n)) && member(
                    doc,
                    "complete"@,
                ) == Some(JsonModel::Bool(false)),
                None => member(doc, "next_offset"@) == Some(JsonModel::Null) && member(
                    doc,
                    "complete"@,
                ) == Some(JsonModel::Bool(true)),
            })
            &&& forall|key: Seq<char>|
                key != "type"@ && key != "artifact_id"@ && key != "byte_offsets"@ && key
                    != "next_offset"@ && key != "complete"@ ==> (#[trigger] member(doc, key)) is None
        }),
{
    keys_differ();
    let d0: Members = Seq::<(Seq<char>, JsonModel)>::empty();
    with_member_ordered(d0, "type"@, JsonModel::Text("tool_output_artifact_search"@));
    let d1 = with_member(d0, "type"@, JsonModel::Text("tool_output_artifact_search"@));
    with_member_ordered(d1, "artifact_id"@, JsonModel::Text(id));
    let d2 = with_member(d1, "artifact_id"@, JsonModel::Text(id));
    with_member_ordered(d2, "byte_offsets"@, JsonModel::Offsets(offsets));
    let d3 = with_member(d2, "byte_offsets"@, JsonModel::Offsets(offsets));
    with_member_ordered(d3, "next_offset"@, optional_number(next));
    let d4 = with_member(d3, "next_offset"@, optional_number(next));
    with_member_ordered(d4, "complete"@, JsonModel::Bool(next is None));
    let d5 = with_member(d4, "complete"@, JsonModel::Bool(next is None));
}

proof fn log_keys_differ()
    ensures
        "tool_family"@ != "mode"@,
        "tool_family"@ != "serialized_bytes"@,
        "mode"@ != "serialized_bytes"@,
{
    reveal_strlit("tool_family");
    reveal_strlit("mode");
    reveal_strlit("serialized_bytes");
    assert("tool_family"@.len() != "mode"@.len());
    assert("tool_family"@.len() != "serialized_bytes"@.len());
    assert("mode"@.len() != "serialized_bytes"@.len());
}

/// What is logged of a result is the tool, the mode and the size, and nothing else.
pub proof fn log_says_mode_and_size(mode: Seq<char>, bytes: nat)
    requires
        bytes <= u64::MAX,
    ensures
        ({
            let doc = log_document(mode, bytes);
            &&& text_member(doc, "tool_family"@) == Some("read_tool_output"@)
            &&& text_member(doc, "mode"@) == Some(mode)
            &&& unsigned_member(doc, "serialized_bytes"@) == Some(bytes as u64)
            &&& forall|key: Seq<char>|
                key != "tool_family"@ && key != "mode"@ && key != "serialized_bytes"@ ==> (
                #[trigger] member(doc, key)) is None
        }),
{
    log_keys_differ();
    let d0: Members = Seq::<(Seq<char>, JsonModel)>::empty();
    with_member_ordered(d0, "tool_family"@, JsonModel::Text("read_tool_output"@));
    let d1 = with_member(d0, "tool_family"@, JsonModel::Text("read_tool_output"@));
    with_member_ordered(d1, "mode"@, JsonModel::Text(mode));
    let d2 = with_member(d1, "mode"@, JsonModel::Text(mode));
    with_member_ordered(d2, "serialized_bytes"@, JsonModel::Unsigned(bytes as u64));
    let d3 = with_member(d2, "serialized_bytes"@, JsonModel::Unsigned(bytes as u64));
}

/// A mode has a name of its own.
pub proof fn modes_have_names()
    ensures
        RetrievalMode::Bytes.spec_name() == "bytes"@,
        RetrievalMode::Lines.spec_name() == "lines"@,
        RetrievalMode::Search.spec_name() == "search"@,
{
}

/// A text refers to an artifact exactly where it is a JSON object of one of the three types of
/// control and names a valid identifier; and it is a structured error exactly where it is one by
/// its type.
pub proof fn controls_are_told_by_their_type(text: Seq<char>, id: Seq<char>)
    ensures
        control_artifact(text) == Some(id) <==> {
            &&& is_artifact_id(id)
            &&& json_members(text) matches Some(members) && member(
                members,
                "artifact_id"@,
            ) == Some(JsonModel::Text(id)) && (member(members, "type"@) == Some(
                JsonModel::Text("tool_output_artifact"@),
            ) || member(members, "type"@) == Some(JsonModel::Text("tool_output_artifact_window"@))
                || member(members, "type"@) == Some(
                JsonModel::Text("tool_output_artifact_search"@),
            ))
        },
        is_output_error(text) <==> (json_members(text) matches Some(members) && member(
            members,
            "type"@,
        ) == Some(JsonModel::Text("tool_output_error"@))),
{
}

/// Lines are skipped from the start of the output only: not where a line continues, as many as are
/// left where a scan goes on with a count, one where it goes on within the line in front, and else
/// all lines in front of the wanted one where the request starts at the first byte.
pub proof fn skipped_lines(
    start_line: usize,
    byte_offset: u64,
    scan: bool,
    line: bool,
    remaining: Option<usize>,
)
    requires
        start_line > 0,
    ensures
        lines_to_skip(start_line, byte_offset, scan, true, remaining) == 0,
        remaining matches Some(n) ==> lines_to_skip(start_line, byte_offset, scan, false, remaining)
            == n,
        lines_to_skip(start_line, byte_offset, true, false, None) == 1,
        lines_to_skip(start_line, 0, false, false, None) + 1 == start_line,
        byte_offset > 0 ==> lines_to_skip(start_line, byte_offset, false, false, None) == 0,
{
}

/// The output budget of a retrieval is that of the policy, and never more than eight KiB.
pub proof fn output_budget_is_bounded(policy: TruncationPolicy)
    ensures
        output_budget(policy) <= 8192,
        policy.budget() <= 8192 ==> output_budget(policy) == policy.budget(),
        policy.budget() > 8192 ==> output_budget(policy) == 8192,
{
}

/// A failed read is told by its kind, without the path or the cause.
pub proof fn failed_reads_are_told_by_kind(kind: IoErrorKind)
    ensures
        kind == IoErrorKind::NotFound ==> retrieval_message(kind)
            == "output artifact is unavailable or expired"@,
        kind == IoErrorKind::InvalidInput ==> retrieval_message(kind)
            == "invalid output artifact request"@,
        kind == IoErrorKind::PermissionDenied ==> retrieval_message(kind)
            == "output artifact failed managed-storage safety checks"@,
        kind != IoErrorKind::NotFound && kind != IoErrorKind::InvalidInput && kind
            != IoErrorKind::PermissionDenied ==> retrieval_message(kind)
            == "output artifact could not be read"@,
{
}

/// A request is refused for the identifier first, for the backend second, for a policy without
/// room third; a request that could not advance within its budget is answered and not refused;
/// then a search needs a query and nothing else may have one, and a line fits a size.
pub proof fn requests_are_refused_in_order(
    args: RetrievalArgs,
    supported: bool,
    policy: TruncationPolicy,
)
    ensures
        ({
            let valid = is_artifact_id(args.artifact_id@);
            let refused = refusal(args, supported, policy);
            let small = policy.budget() < 200 || (args.mode == RetrievalMode::Lines
                && policy.budget() < 256);
            &&& !valid ==> refused == Some("invalid output artifact request"@)
            &&& valid && !supported ==> refused == Some(
                "output artifact retrieval is unavailable for this thread backend"@,
            )
            &&& valid && supported && policy.budget() == 0 ==> refused == Some(
                "read_tool_output requires a positive output policy"@,
            )
            &&& valid && supported && policy.budget() > 0 && small ==> refused is None
            &&& valid && supported && policy.budget() > 0 && !small ==> (refused is Some <==> (
            args.mode == RetrievalMode::Search && args.query is None) || (args.mode
                != RetrievalMode::Search && args.query is Some) || (args.mode
                == RetrievalMode::Lines && (args.offset matches Some(line) && line > usize::MAX)))
            &&& valid && supported && policy.budget() > 0 && refused is Some ==> refused == Some(
                "invalid output artifact request"@,
            )
            &&& refused_mode(args, policy) == (if policy.budget() < 200 {
                Some(RetrievalMode::Bytes)
            } else if args.mode == RetrievalMode::Lines && policy.budget() < 256 {
                Some(RetrievalMode::Lines)
            } else {
                None
            })
        }),
{
}

/// A document that is made smaller keeps its identity, its content and its cursors; with room for
/// two hundred and fifty-six bytes it is not made smaller at all.
pub proof fn compacting_keeps_content_and_cursors(doc: Members, max: int)
    requires
        keys_increase(doc),
    ensures
        keys_increase(compacted(doc, max)),
        max >= 256 ==> compacted(doc, max) == doc,
        forall|key: Seq<char>|
            key != "mode"@ && key != "complete"@ && key != "scan_continues"@ && key
                != "start_byte"@ && key != "end_byte"@ ==> #[trigger] member(
                compacted(doc, max),
                key,
            ) == member(doc, key),
        max < 256 ==> member(compacted(doc, max), "complete"@) is None && member(
            compacted(doc, max),
            "scan_continues"@,
        ) is None,
        max < 256 && is_line_mode(doc) ==> member(compacted(doc, max), "start_byte"@) is None
            && member(compacted(doc, max), "end_byte"@) is None,
        max < 256 && is_line_mode(doc) && !is_empty_scan(doc) ==> member(
            compacted(doc, max),
            "mode"@,
        ) == member(doc, "mode"@),
        max < 256 && !is_line_mode(doc) ==> member(compacted(doc, max), "mode"@) is None && member(
            compacted(doc, max),
            "start_byte"@,
        ) == member(doc, "start_byte"@) && member(compacted(doc, max), "end_byte"@) == member(
            doc,
            "end_byte"@,
        ),
{
    keys_differ();
    if max < 256 {
        if is_empty_scan(doc) {
            let a = without_member(doc, "mode"@);
            let b = without_member(a, "complete"@);
            let c = without_member(b, "scan_continues"@);
            let d = without_member(c, "start_byte"@);
            without_member_ordered(doc, "mode"@);
            without_member_ordered(a, "complete"@);
            without_member_ordered(b, "scan_continues"@);
            without_member_ordered(c, "start_byte"@);
            without_member_ordered(d, "end_byte"@);
        } else if is_line_mode(doc) {
            let a = without_member(doc, "start_byte"@);
            let b = without_member(a, "end_byte"@);
            let c = without_member(b, "complete"@);
            without_member_ordered(doc, "start_byte"@);
            without_member_ordered(a, "end_byte"@);
            without_member_ordered(b, "complete"@);
            without_member_ordered(c, "scan_continues"@);
        } else {
            let a = without_member(doc, "mode"@);
            let b = without_member(a, "complete"@);
            without_member_ordered(doc, "mode"@);
            without_member_ordered(a, "complete"@);
            without_member_ordered(b, "scan_continues"@);
        }
    }
}

/// A document whose text is cut holds the text that is kept, is not complete, ends behind the last
/// byte that is kept, and goes on there; a line window goes on with the line that byte stands in,
/// and says that the line continues where the text does not end with a line end and there was
/// something to read on before.
pub proof fn cut_text_goes_on_behind_it(doc: Members, start: u64, kept: Seq<char>)
    requires
        keys_increase(doc),
        start + utf8_len(kept) <= u64::MAX,
    ensures
        ({
            let cut = with_text(doc, Some(start), kept);
            let end = (start + utf8_len(kept)) as u64;
            &&& keys_increase(cut)
            &&& text_member(cut, "text"@) == Some(kept)
            &&& unsigned_member(cut, "end_byte"@) == Some(end)
            &&& member(cut, "complete"@) == Some(JsonModel::Bool(false))
            &&& !is_line_mode(doc) ==> unsigned_member(cut, "next_offset"@) == Some(end) && member(
                cut,
                "next_byte"@,
            ) == member(doc, "next_byte"@) && member(cut, "line_continuation"@) == member(
                doc,
                "line_continuation"@,
            )
            &&& is_line_mode(doc) ==> unsigned_member(cut, "next_byte"@) == Some(end) && member(
                cut,
                "line_continuation"@,
            ) == Some(
                JsonModel::Bool(
                    member(doc, "next_offset"@) is Some && member(doc, "next_offset"@) != Some(
                        JsonModel::Null,
                    ) && !(kept.len() > 0 && kept.last() == '\n'),
                ),
            )
            &&& is_line_mode(doc) && (unsigned_member(doc, "start_line"@) matches Some(line) && line
                + newlines(kept) <= u64::MAX) ==> unsigned_member(cut, "next_offset"@) == Some(
                (unsigned_member(doc, "start_line"@)->0 + newlines(kept)) as u64,
            )
            &&& forall|key: Seq<char>|
                key != "text"@ && key != "end_byte"@ && key != "complete"@ && key != "next_offset"@
                    && key != "next_byte"@ && key != "line_continuation"@ ==> #[trigger] member(
                    cut,
                    key,
                ) == member(doc, key)
        }),
{
    keys_differ();
    let end = (start + utf8_len(kept)) as u64;
    let a = with_member(doc, "text"@, JsonModel::Text(kept));
    with_member_ordered(doc, "text"@, JsonModel::Text(kept));
    let b = with_member(a, "end_byte"@, JsonModel::Unsigned(end));
    with_member_ordered(a, "end_byte"@, JsonModel::Unsigned(end));
    let c = with_member(b, "complete"@, JsonModel::Bool(false));
    with_member_ordered(b, "complete"@, JsonModel::Bool(false));
    if is_line_mode(doc) {
        let line = match unsigned_member(c, "start_line"@) {
            Some(line) => line,
            None => 1,
        };
        let goes = sum64(line as int, newlines(kept) as int);
        let d = with_member(c, "next_offset"@, JsonModel::Unsigned(goes));
        with_member_ordered(c, "next_offset"@, JsonModel::Unsigned(goes));
        let e = with_member(d, "next_byte"@, JsonModel::Unsigned(end));
        with_member_ordered(d, "next_byte"@, JsonModel::Unsigned(end));
        let has_next = match member(a, "next_offset"@) {
            Some(JsonModel::Null) => false,
            Some(_) => true,
            None => false,
        };
        with_member_ordered(
            e,
            "line_continuation"@,
            JsonModel::Bool(has_next && !(kept.len() > 0 && kept.last() == '\n')),
        );
    } else {
        with_member_ordered(c, "next_offset"@, JsonModel::Unsigned(end));
    }
}

/// A document whose bytes are cut holds the bytes that are kept, is not complete, ends behind the
/// last byte that is kept, and goes on there.
pub proof fn cut_bytes_go_on_behind_them(doc: Members, start: u64, kept: Seq<char>, count: nat)
    requires
        keys_increase(doc),
        unsigned_member(doc, "start_byte"@) == Some(start),
        start + count <= u64::MAX,
    ensures
        ({
            let cut = with_bytes(doc, kept, count);
            &&& keys_increase(cut)
            &&& text_member(cut, "bytes_base64"@) == Some(kept)
            &&& unsigned_member(cut, "end_byte"@) == Some((start + count) as u64)
            &&& unsigned_member(cut, "next_offset"@) == Some((start + count) as u64)
            &&& member(cut, "complete"@) == Some(JsonModel::Bool(false))
            &&& forall|key: Seq<char>|
                key != "bytes_base64"@ && key != "end_byte"@ && key != "complete"@ && key
                    != "next_offset"@ ==> #[trigger] member(cut, key) == member(doc, key)
        }),
{
    keys_differ();
    let end = (start + count) as u64;
    let a = with_member(doc, "bytes_base64"@, JsonModel::Text(kept));
    with_member_ordered(doc, "bytes_base64"@, JsonModel::Text(kept));
    let b = with_member(a, "end_byte"@, JsonModel::Unsigned(end));
    with_member_ordered(a, "end_byte"@, JsonModel::Unsigned(end));
    let c = with_member(b, "complete"@, JsonModel::Bool(false));
    with_member_ordered(b, "complete"@, JsonModel::Bool(false));
    with_member_ordered(c, "next_offset"@, JsonModel::Unsigned(end));
}

/// A request for lines behind the end shows nothing, where it stands, and does not go on.
pub proof fn nothing_stands_behind_the_end(byte: u64)
    ensures
        past_the_end(byte).text.len() == 0,
        past_the_end(byte).start_byte == byte,
        past_the_end(byte).end_byte == byte,
        past_the_end(byte).next_line is None,
        past_the_end(byte).next_byte is None,
        past_the_end(byte).scan_lines_remaining is None,
        !past_the_end(byte).scan_continues,
        !past_the_end(byte).line_continuation,
{
}

/// A scan that found all the line ends that it asked for goes on behind the last of them; one that
/// found fewer goes on where the search stopped, and ends where that was the end. Every line end
/// that was found is one less to skip. What was asked for stays.
pub proof fn scans_go_on(scan: LineScan, offsets: Seq<u64>, next: Option<u64>)
    requires
        offsets.len() <= scan.lines_to_skip,
        offsets.len() <= 2000,
        0 < offsets.len() ==> offsets.last() < u64::MAX,
        0 < scan.lines_to_skip,
    ensures
        ({
            let asked: int = if scan.lines_to_skip < 2000 { scan.lines_to_skip as int } else { 2000 };
            let after = skipped_scan(scan, offsets, next);
            &&& after is None <==> offsets.len() != asked && next is None
            &&& after matches Some(after) ==> {
                &&& after.lines_to_skip + offsets.len() == scan.lines_to_skip
                &&& after.start_line == scan.start_line && after.count == scan.count
                &&& offsets.len() == asked ==> after.byte == offsets.last() + 1
                &&& offsets.len() != asked ==> Some(after.byte) == next
                &&& after.scanned_bytes >= scan.scanned_bytes
                &&& (next matches Some(end) && scan.byte <= end && scan.scanned_bytes + (end
                    - scan.byte) <= usize::MAX) ==> after.scanned_bytes == scan.scanned_bytes + (
                next->0 - scan.byte)
            }
        }),
{
}

/// A document that is within the size is done, and so is one that is within it once compacted. Of a
/// text, as many characters are kept as reach what is left behind the excess and eight more bytes;
/// a text that cannot be cut so ends in an error. Of encoded bytes, whole groups of four characters
/// are kept. Of line positions the last one is left out, and named as the next; empty texts and
/// encoded bytes are left out themselves.
pub proof fn documents_are_cut_in_steps(doc: Members, max: int)
    ensures
        utf8_len(object_text(doc)) <= max ==> bound_step(doc, max) == BoundStep::Done(
            object_text(doc),
        ),
        ({
            let small = compacted(doc, max);
            let excess = utf8_len(object_text(small)) - max;
            let over = utf8_len(object_text(doc)) > max;
            let encoded = text_member(small, "bytes_base64"@);
            &&& over && excess <= 0 ==> bound_step(doc, max) == BoundStep::Done(object_text(small))
            &&& over && excess > 0 ==> match text_member(small, "text"@) {
                Some(text) => {
                    let kept = chars_reaching(text, utf8_len(text) - excess - 8) as int;
                    &&& text.len() == 0 ==> bound_step(doc, max) == BoundStep::Again(
                        without_member(small, "text"@),
                    )
                    &&& text.len() > 0 && 0 < kept < text.len() ==> bound_step(doc, max)
                        == BoundStep::Again(
                        with_text(small, unsigned_member(doc, "start_byte"@), text.take(kept)),
                    )
                    &&& text.len() > 0 && (kept <= 0 || kept == text.len()) ==> bound_step(doc, max)
                        == BoundStep::Done(structured_error(max))
                },
                None => {
                    &&& encoded matches Some(encoded) ==> {
                        let room = utf8_len(encoded) - excess - 8;
                        let groups: int = if room > 0 { room / 4 } else { 0 };
                        let kept = prefix_within(encoded, groups * 4);
                        let whole = groups > 0 && utf8_len(kept) == groups * 4 && (base64_decoded(
                            kept,
                        ) matches Some(bytes) && bytes.len() > 0);
                        &&& encoded.len() == 0 ==> bound_step(doc, max) == BoundStep::Again(
                            without_member(small, "bytes_base64"@),
                        )
                        &&& encoded.len() > 0 && whole ==> bound_step(doc, max) == BoundStep::Again(
                            with_bytes(small, kept, base64_decoded(kept)->0.len()),
                        )
                        &&& encoded.len() > 0 && !whole ==> bound_step(doc, max) == BoundStep::Done(
                            structured_error(max),
                        )
                    }
                    &&& encoded is None ==> match member(small, "byte_offsets"@) {
                        Some(JsonModel::Offsets(offsets)) => {
                            &&& offsets.len() == 0 ==> bound_step(doc, max) == BoundStep::Done(
                                structured_error(max),
                            )
                            &&& offsets.len() > 0 ==> (bound_step(doc, max) matches BoundStep::Again(
                                less,
                            ) && less == with_member(
                                with_member(
                                    with_member(
                                        small,
                                        "byte_offsets"@,
                                        JsonModel::Offsets(offsets.drop_last()),
                                    ),
                                    "next_offset"@,
                                    JsonModel::Unsigned(offsets[offsets.len() - 1]),
                                ),
                                "complete"@,
                                JsonModel::Bool(false),
                            ))
                        },
                        _ => bound_step(doc, max) == BoundStep::Done(structured_error(max)),
                    }
                },
            }
        }),
{
    reveal(bound_step);
}

} // verus!
