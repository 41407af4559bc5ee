//! The `read_tool_output` tool: bounded retrieval of a stored tool output by bytes, lines or
//! search.
//!
//! The tool is a sequence of decisions around reads of the store. [`ReadToolOutputHandler::plan`]
//! turns a request into the reads it needs or the answer it gets without any; the documents made
//! from what was read are cut to the output budget by `ReadToolOutputHandler::respond`.

use vstd::prelude::*;
use vstd::string::*;

use crate::artifact_id::{is_artifact_id, OutputArtifactId};
use crate::history::STORE_BACKED_TOOL_OUTPUT_MAX_BYTES;
use crate::io_error::{IoError, IoErrorKind};
use crate::json::{
    json_members, keys_increase, member, object_text, own_members, reread_keeps, reread_members,
    text_member, with_member, JsonModel, JsonObject, JsonValue, Members,
};
use crate::protocol::{FunctionCallError, ToolOutputProvenance, TruncationPolicy};
use crate::read_file_window::newlines;
use crate::read_tool_output_window::{
    base64_encoded, bounded_document, bounded_document_is_cut, bounded_result, count_newlines,
    encode_base64, ends_with_newline, is_cut_of, retrieval_keys_distinct, sum64, DEFAULT_BYTES, MAX_LINES, MAX_MATCHES, MAX_SEARCH_SCAN_BYTES,
};
use crate::text::{byte_len, same_text, utf8_len};
use crate::tool_output::{
    bounded_structured_error, structured_error, MAX_MANAGED_ARTIFACT_MODEL_BYTES,
    MIN_ARTIFACT_ENVELOPE_BYTES,
};

verus! {

/// The tool's name.
pub const TOOL_NAME: &'static str = "read_tool_output";

/// Room that a byte window leaves for the rest of its document.
pub const RETRIEVAL_METADATA_RESERVE_BYTES: usize = 128;

/// The smallest output budget that can carry an advancing line window.
pub const MIN_LINE_RETRIEVAL_OUTPUT_BYTES: usize = 256;

/// What a request reads.
#[derive(Clone, Copy, Debug, PartialEq, Eq, Structural)]
pub enum RetrievalMode {
    Bytes,
    Lines,
    Search,
}

impl RetrievalMode {
    /// The mode's name.
    pub open spec fn spec_name(self) -> Seq<char> {
        match self {
            RetrievalMode::Bytes => "bytes"@,
            RetrievalMode::Lines => "lines"@,
            RetrievalMode::Search => "search"@,
        }
    }

    /// The mode's name.
    pub fn name(self) -> (r: &'static str)
        ensures
            r@ == self.spec_name(),
    {
        match self {
            RetrievalMode::Bytes => "bytes",
            RetrievalMode::Lines => "lines",
            RetrievalMode::Search => "search",
        }
    }
}

/// The arguments of a request.
pub struct RetrievalArgs {
    pub artifact_id: String,
    pub mode: RetrievalMode,
    pub offset: Option<u64>,
    /// Byte cursor returned with a bounded line scan continuation.
    pub byte_offset: Option<u64>,
    /// True when byte_offset is inside the line preceding the requested target line.
    pub scan_continuation: Option<bool>,
    /// True when byte_offset continues a line that was fitted across two responses.
    pub line_continuation: Option<bool>,
    /// Remaining lines to skip when a line scan resumes after its bounded byte ceiling.
    pub scan_lines_remaining: Option<usize>,
    pub limit: Option<usize>,
    pub query: Option<String>,
}

/// Lines read from an artifact, and where to read on.
pub struct LineWindow {
    pub text: String,
    pub start_byte: u64,
    pub end_byte: u64,
    pub next_line: Option<usize>,
    pub next_byte: Option<u64>,
    pub scan_continues: bool,
    pub line_continuation: bool,
    pub scan_lines_remaining: Option<usize>,
}

/// The model of a [`LineWindow`].
pub struct LineWindowModel {
    pub text: Seq<char>,
    pub start_byte: u64,
    pub end_byte: u64,
    pub next_line: Option<usize>,
    pub next_byte: Option<u64>,
    pub scan_continues: bool,
    pub line_continuation: bool,
    pub scan_lines_remaining: Option<usize>,
}

impl View for LineWindow {
    type V = LineWindowModel;

    open spec fn view(&self) -> LineWindowModel {
        LineWindowModel {
            text: self.text@,
            start_byte: self.start_byte,
            end_byte: self.end_byte,
            next_line: self.next_line,
            next_byte: self.next_byte,
            scan_continues: self.scan_continues,
            line_continuation: self.line_continuation,
            scan_lines_remaining: self.scan_lines_remaining,
        }
    }
}

/// The next thing that a line scan needs.
pub enum LineStep {
    /// The line ends from `byte` on, at most `limit` of them, in order to skip them.
    Skip { byte: u64, limit: usize },
    /// The line ends from `byte` on, at most `limit` of them, in order to know where the wanted
    /// lines end.
    Breaks { byte: u64, limit: usize },
    /// Nothing: the scan used up its byte ceiling, and this is the continuation.
    Pause(LineWindow),
}

/// Reading lines out of an artifact.
pub struct LineScan {
    pub start_line: usize,
    pub count: usize,
    pub byte: u64,
    pub lines_to_skip: usize,
    pub scanned_bytes: usize,
}

/// How many line ends a request skips.
pub open spec fn lines_to_skip(
    start_line: usize,
    byte_offset: u64,
    scan_continuation: bool,
    line_continuation: bool,
    scan_lines_remaining: Option<usize>,
) -> int {
    if line_continuation {
        0
    } else if scan_lines_remaining is Some {
        scan_lines_remaining->0 as int
    } else if scan_continuation {
        1
    } else if byte_offset == 0 {
        start_line - 1
    } else {
        0
    }
}

/// How many bytes of the scan ceiling a search from `byte` used up.
pub open spec fn search_progress(byte: u64, next: Option<u64>) -> int {
    match next {
        Some(next) => if next < byte {
            0
        } else if next - byte > usize::MAX {
            MAX_SEARCH_SCAN_BYTES as int
        } else {
            next - byte
        },
        None => MAX_SEARCH_SCAN_BYTES as int,
    }
}

/// A sum that stops at the largest size.
pub open spec fn sum_size(a: int, b: int) -> usize {
    if a + b > usize::MAX {
        usize::MAX
    } else {
        (a + b) as usize
    }
}

/// The smaller of two sizes.
pub open spec fn min_size(a: usize, b: usize) -> usize {
    if a < b {
        a
    } else {
        b
    }
}

/// A line scan after the line ends at `offsets` were skipped; `next` is where the search for them
/// goes on. Without further lines to read there is none.
pub open spec fn skipped_scan(scan: LineScan, offsets: Seq<u64>, next: Option<u64>) -> Option<
    LineScan,
> {
    let scanned_bytes = sum_size(scan.scanned_bytes as int, search_progress(scan.byte, next));
    if offsets.len() == min_size(scan.lines_to_skip, MAX_LINES) {
        Some(
            LineScan {
                byte: sum64(offsets.last() as int, 1),
                lines_to_skip: (scan.lines_to_skip - offsets.len()) as usize,
                scanned_bytes,
                ..scan
            },
        )
    } else {
        match next {
            Some(next) => Some(
                LineScan {
                    byte: next,
                    lines_to_skip: (scan.lines_to_skip - offsets.len()) as usize,
                    scanned_bytes,
                    ..scan
                },
            ),
            None => None,
        }
    }
}

/// The empty window behind the last line.
pub open spec fn past_the_end(byte: u64) -> LineWindowModel {
    LineWindowModel {
        text: seq![],
        start_byte: byte,
        end_byte: byte,
        next_line: None,
        next_byte: None,
        scan_continues: false,
        line_continuation: false,
        scan_lines_remaining: None,
    }
}

impl LineScan {
    /// Starts reading `count` lines at line `start_line`, counted from one.
    pub fn new(
        start_line: usize,
        byte_offset: u64,
        scan_continuation: bool,
        line_continuation: bool,
        scan_lines_remaining: Option<usize>,
        count: usize,
    ) -> (r: Result<LineScan, IoError>)
        ensures
            match r {
                Ok(scan) => {
                    &&& start_line > 0 && count > 0
                    &&& scan == (LineScan {
                        start_line,
                        count: min_size(count, MAX_LINES),
                        byte: byte_offset,
                        lines_to_skip: lines_to_skip(
                            start_line,
                            byte_offset,
                            scan_continuation,
                            line_continuation,
                            scan_lines_remaining,
                        ) as usize,
                        scanned_bytes: 0,
                    })
                },
                Err(error) => (start_line == 0 || count == 0) && error@ == (
                    IoErrorKind::InvalidInput,
                    "line bounds must be positive"@,
                ),
            },
    {
        if start_line == 0 || count == 0 {
            return Err(IoError::new(IoErrorKind::InvalidInput, "line bounds must be positive"));
        }
        let skip: usize = if line_continuation {
            0
        } else if let Some(remaining) = scan_lines_remaining {
            remaining
        } else if scan_continuation {
            1
        } else if byte_offset == 0 {
            start_line - 1
        } else {
            0
        };
        Ok(
            LineScan {
                start_line,
                count: if count < MAX_LINES {
                    count
                } else {
                    MAX_LINES
                },
                byte: byte_offset,
                lines_to_skip: skip,
                scanned_bytes: 0,
            },
        )
    }

    /// What the scan needs next.
    pub fn step(&self) -> (r: LineStep)
        ensures
            if self.lines_to_skip == 0 {
                r matches LineStep::Breaks { byte, limit } && byte == self.byte && limit
                    == self.count
            } else if self.scanned_bytes >= MAX_SEARCH_SCAN_BYTES {
                r matches LineStep::Pause(window) && window@ == (LineWindowModel {
                    next_line: Some(self.start_line),
                    next_byte: Some(self.byte),
                    scan_continues: true,
                    scan_lines_remaining: Some(self.lines_to_skip),
                    ..past_the_end(self.byte)
                })
            } else {
                r matches LineStep::Skip { byte, limit } && byte == self.byte && limit == min_size(
                    self.lines_to_skip,
                    MAX_LINES,
                )
            },
    {
        if self.lines_to_skip == 0 {
            return LineStep::Breaks { byte: self.byte, limit: self.count };
        }
        if self.scanned_bytes >= MAX_SEARCH_SCAN_BYTES {
            return LineStep::Pause(
                LineWindow {
                    text: String::new(),
                    start_byte: self.byte,
                    end_byte: self.byte,
                    next_line: Some(self.start_line),
                    next_byte: Some(self.byte),
                    scan_continues: true,
                    line_continuation: false,
                    scan_lines_remaining: Some(self.lines_to_skip),
                },
            );
        }
        LineStep::Skip {
            byte: self.byte,
            limit: if self.lines_to_skip < MAX_LINES {
                self.lines_to_skip
            } else {
                MAX_LINES
            },
        }
    }

    /// Takes the line ends that were found to be skipped. Without further lines to read, the
    /// empty window behind the last one is the answer.
    pub fn skipped(&mut self, offsets: &Vec<u64>, next: Option<u64>) -> (r: Option<LineWindow>)
        requires
            old(self).lines_to_skip > 0,
            offsets@.len() <= min_size(old(self).lines_to_skip, MAX_LINES),
        ensures
            match skipped_scan(*old(self), offsets@, next) {
                Some(after) => r is None && *final(self) == after,
                None => r matches Some(window) && window@ == past_the_end(old(self).byte),
            },
    {
        let batch: usize = if self.lines_to_skip < MAX_LINES {
            self.lines_to_skip
        } else {
            MAX_LINES
        };
        let progress: usize = match next {
            Some(next) => {
                let distance: u64 = next.saturating_sub(self.byte);
                if distance > usize::MAX as u64 {
                    MAX_SEARCH_SCAN_BYTES
                } else {
                    distance as usize
                }
            },
            None => MAX_SEARCH_SCAN_BYTES,
        };
        self.scanned_bytes = self.scanned_bytes.saturating_add(progress);
        if offsets.len() < batch {
            match next {
                Some(next) => {
                    self.lines_to_skip = self.lines_to_skip - offsets.len();
                    self.byte = next;
                    return None;
                },
                None => {
                    return Some(
                        LineWindow {
                            text: String::new(),
                            start_byte: self.byte,
                            end_byte: self.byte,
                            next_line: None,
                            next_byte: None,
                            scan_continues: false,
                            line_continuation: false,
                            scan_lines_remaining: None,
                        },
                    );
                },
            }
        }
        self.byte = offsets[offsets.len() - 1].saturating_add(1);
        self.lines_to_skip = self.lines_to_skip - batch;
        None
    }

    /// How many bytes to read from `self.byte` for the wanted lines, given their line ends.
    pub fn read_size(&self, breaks: &Vec<u64>) -> (r: usize)
        requires
            self.count > 0,
            breaks@.len() == self.count ==> self.byte <= breaks@.last(),
        ensures
            r == (if breaks@.len() == self.count {
                min_int(sum64(breaks@.last() as int, 1) - self.byte, DEFAULT_BYTES as int)
            } else {
                DEFAULT_BYTES as int
            }),
    {
        if breaks.len() == self.count {
            let end: u64 = breaks[self.count - 1].saturating_add(1);
            let size: u64 = end - self.byte;
            if size < DEFAULT_BYTES as u64 {
                return size as usize;
            }
        }
        DEFAULT_BYTES
    }

    /// The window with the text that was read.
    pub fn window(&self, text: String, end_byte: u64, next_byte: Option<u64>) -> (r: LineWindow)
        ensures
            r@ == (LineWindowModel {
                text: text@,
                start_byte: self.byte,
                end_byte,
                next_line: match next_byte {
                    Some(_) => Some(sum_size(self.start_line as int, newlines(text@) as int)),
                    None => None,
                },
                next_byte,
                scan_continues: false,
                line_continuation: next_byte is Some && !(text@.len() > 0 && text@.last() == '\n'),
                scan_lines_remaining: None,
            }),
    {
        let completed: usize = count_newlines(text.as_str());
        let ends = ends_with_newline(text.as_str());
        LineWindow {
            text,
            start_byte: self.byte,
            end_byte,
            next_line: match next_byte {
                Some(_) => Some(self.start_line.saturating_add(completed)),
                None => None,
            },
            next_byte,
            scan_continues: false,
            line_continuation: next_byte.is_some() && !ends,
            scan_lines_remaining: None,
        }
    }
}

/// The smaller of two integers.
pub open spec fn min_int(a: int, b: int) -> int {
    if a < b {
        a
    } else {
        b
    }
}

/// An optional number as a JSON value.
pub open spec fn optional_number(n: Option<u64>) -> JsonModel {
    match n {
        Some(n) => JsonModel::Unsigned(n),
        None => JsonModel::Null,
    }
}

/// An optional number as a JSON value.
fn json_number(n: Option<u64>) -> (r: JsonValue)
    ensures
        r@ == optional_number(n),
{
    match n {
        Some(n) => JsonValue::Unsigned(n),
        None => JsonValue::Null,
    }
}

/// An optional size as a number.
pub open spec fn size_number(n: Option<usize>) -> Option<u64> {
    match n {
        Some(n) => Some(n as u64),
        None => None,
    }
}

fn number_of(n: Option<usize>) -> (r: Option<u64>)
    ensures
        r == size_number(n),
{
    match n {
        Some(n) => Some(n as u64),
        None => None,
    }
}

/// The members that every window into an artifact has.
pub open spec fn window_document(
    mode: Seq<char>,
    id: Seq<char>,
    start: u64,
    end: u64,
    next: Option<u64>,
    complete: bool,
) -> Members {
    with_member(
        with_member(
            with_member(
                with_member(
                    with_member(
                        with_member(
                            with_member(
                                seq![],
                                "type"@,
                                JsonModel::Text("tool_output_artifact_window"@),
                            ),
                            "mode"@,
                            JsonModel::Text(mode),
                        ),
                        "artifact_id"@,
                        JsonModel::Text(id),
                    ),
                    "start_byte"@,
                    JsonModel::Unsigned(start),
                ),
                "end_byte"@,
                JsonModel::Unsigned(end),
            ),
            "next_offset"@,
            optional_number(next),
        ),
        "complete"@,
        JsonModel::Bool(complete),
    )
}

fn new_window_document(
    mode: RetrievalMode,
    id: &OutputArtifactId,
    start: u64,
    end: u64,
    next: Option<u64>,
    complete: bool,
) -> (r: JsonObject)
    ensures
        r@ == window_document(mode.spec_name(), id@, start, end, next, complete),
{
    let mut value = JsonObject::new();
    value.set_text("type", "tool_output_artifact_window");
    value.set_text("mode", mode.name());
    value.set_text("artifact_id", id.as_str());
    value.set("start_byte", JsonValue::Unsigned(start));
    value.set("end_byte", JsonValue::Unsigned(end));
    value.set("next_offset", json_number(next));
    value.set("complete", JsonValue::Bool(complete));
    value
}

/// The document of a text window.
pub open spec fn bytes_document(
    id: Seq<char>,
    text: Seq<char>,
    start: u64,
    end: u64,
    next: Option<u64>,
) -> Members {
    with_member(
        window_document("bytes"@, id, start, end, next, next is None),
        "text"@,
        JsonModel::Text(text),
    )
}

/// The document of a text window.
pub fn read_bytes_value(
    id: &OutputArtifactId,
    text: &str,
    start: u64,
    end: u64,
    next: Option<u64>,
) -> (r: JsonObject)
    ensures
        r@ == bytes_document(id@, text@, start, end, next),
{
    let mut value = new_window_document(
        RetrievalMode::Bytes,
        id,
        start,
        end,
        next,
        next.is_none(),
    );
    value.set_text("text", text);
    value
}

/// Whether bytes that could not be read as text are read raw instead.
pub fn falls_back_to_raw(kind: IoErrorKind) -> (r: bool)
    ensures
        r == (kind == IoErrorKind::InvalidData || kind == IoErrorKind::InvalidInput),
{
    kind == IoErrorKind::InvalidData || kind == IoErrorKind::InvalidInput
}

/// The document of a window of bytes that are not text.
pub open spec fn raw_bytes_document(
    id: Seq<char>,
    bytes: Seq<u8>,
    start: u64,
    end: u64,
    next: Option<u64>,
) -> Members {
    with_member(
        with_member(
            window_document("bytes"@, id, start, end, next, next is None),
            "encoding"@,
            JsonModel::Text("base64"@),
        ),
        "bytes_base64"@,
        JsonModel::Text(base64_encoded(bytes)),
    )
}

/// The document of a window of bytes that are not text.
pub fn read_raw_bytes_value(
    id: &OutputArtifactId,
    bytes: &[u8],
    start: u64,
    end: u64,
    next: Option<u64>,
) -> (r: JsonObject)
    requires
        (bytes@.len() + 2) / 3 * 4 <= isize::MAX,
    ensures
        r@ == raw_bytes_document(id@, bytes@, start, end, next),
{
    let mut value = new_window_document(
        RetrievalMode::Bytes,
        id,
        start,
        end,
        next,
        next.is_none(),
    );
    value.set_text("encoding", "base64");
    value.set_text("bytes_base64", encode_base64(bytes).as_str());
    value
}

/// The document of a line window.
pub open spec fn lines_document(
    id: Seq<char>,
    start_line: usize,
    window: LineWindowModel,
) -> Members {
    let base = with_member(
        with_member(
            with_member(
                with_member(
                    with_member(
                        window_document(
                            "lines"@,
                            id,
                            window.start_byte,
                            window.end_byte,
                            size_number(window.next_line),
                            window.next_line is None && window.next_byte is None,
                        ),
                        "start_line"@,
                        JsonModel::Unsigned(start_line as u64),
                    ),
                    "text"@,
                    JsonModel::Text(window.text),
                ),
                "next_byte"@,
                optional_number(window.next_byte),
            ),
            "scan_continues"@,
            JsonModel::Bool(window.scan_continues),
        ),
        "scan_lines_remaining"@,
        optional_number(size_number(window.scan_lines_remaining)),
    );
    if window.line_continuation {
        with_member(base, "line_continuation"@, JsonModel::Bool(true))
    } else {
        base
    }
}

/// The document of a line window.
pub fn read_lines_value(
    id: &OutputArtifactId,
    start_line: usize,
    window: &LineWindow,
) -> (r: JsonObject)
    ensures
        r@ == lines_document(id@, start_line, window@),
{
    let mut value = new_window_document(
        RetrievalMode::Lines,
        id,
        window.start_byte,
        window.end_byte,
        number_of(window.next_line),
        window.next_line.is_none() && window.next_byte.is_none(),
    );
    value.set("start_line", JsonValue::Unsigned(start_line as u64));
    value.set_text("text", window.text.as_str());
    value.set("next_byte", json_number(window.next_byte));
    value.set("scan_continues", JsonValue::Bool(window.scan_continues));
    value.set("scan_lines_remaining", json_number(number_of(window.scan_lines_remaining)));
    if window.line_continuation {
        value.set("line_continuation", JsonValue::Bool(true));
    }
    value
}

/// The document of a search result.
pub open spec fn search_document(id: Seq<char>, offsets: Seq<u64>, next: Option<u64>) -> Members {
    with_member(
        with_member(
            with_member(
                with_member(
                    with_member(seq![], "type"@, JsonModel::Text("tool_output_artifact_search"@)),
                    "artifact_id"@,
                    JsonModel::Text(id),
                ),
                "byte_offsets"@,
                JsonModel::Offsets(offsets),
            ),
            "next_offset"@,
            optional_number(next),
        ),
        "complete"@,
        JsonModel::Bool(next is None),
    )
}

/// The document of a search result.
pub fn search_value(id: &OutputArtifactId, offsets: Vec<u64>, next: Option<u64>) -> (r: JsonObject)
    ensures
        r@ == search_document(id@, offsets@, next),
{
    let mut value = JsonObject::new();
    value.set_text("type", "tool_output_artifact_search");
    value.set_text("artifact_id", id.as_str());
    value.set("byte_offsets", JsonValue::Offsets(offsets));
    value.set("next_offset", json_number(next));
    value.set("complete", JsonValue::Bool(next.is_none()));
    value
}

/// Whether a document type is that of a managed artifact control.
pub open spec fn is_control_type(name: Option<Seq<char>>) -> bool {
    ||| name == Some("tool_output_artifact"@)
    ||| name == Some("tool_output_artifact_window"@)
    ||| name == Some("tool_output_artifact_search"@)
}

/// The artifact that a text refers to, if it is a managed artifact control.
pub open spec fn control_artifact(text: Seq<char>) -> Option<Seq<char>> {
    match json_members(text) {
        Some(members) => if is_control_type(text_member(members, "type"@)) {
            match text_member(members, "artifact_id"@) {
                Some(id) => if is_artifact_id(id) {
                    Some(id)
                } else {
                    None
                },
                None => None,
            }
        } else {
            None
        },
        None => None,
    }
}

/// Whether `name` is the type of a managed artifact control.
pub fn control_type(name: &str) -> (r: bool)
    ensures
        r == is_control_type(Some(name@)),
{
    same_text(name, "tool_output_artifact") || same_text(name, "tool_output_artifact_window")
        || same_text(name, "tool_output_artifact_search")
}

/// The artifact that a text refers to, if it is a managed artifact control.
pub fn artifact_of_control(text: &str) -> (r: Option<OutputArtifactId>)
    ensures
        match r {
            Some(id) => control_artifact(text@) == Some(id@),
            None => control_artifact(text@) is None,
        },
        reads_back(text@),
{
    let value = match JsonObject::parse(text) {
        Some(value) => value,
        None => {
            return None;
        },
    };
    match value.get_text("type") {
        Some(name) => {
            if !control_type(name) {
                return None;
            }
        },
        None => {
            return None;
        },
    }
    match value.get_text("artifact_id") {
        Some(id) => OutputArtifactId::parse(id),
        None => None,
    }
}

/// What the tool returns.
pub struct ReadToolOutputResult {
    text: String,
    mode: RetrievalMode,
    success: bool,
    managed: bool,
}

/// Whether a text is a structured tool output error.
pub open spec fn is_output_error(text: Seq<char>) -> bool {
    json_members(text) matches Some(members) && text_member(members, "type"@) == Some(
        "tool_output_error"@,
    )
}

/// Whether a text that was written as an object reads back as that object.
pub open spec fn reads_back(text: Seq<char>) -> bool {
    forall|members: Members| #[trigger]
        object_text(members) == text && keys_increase(members) && own_members(members)
            ==> json_members(text) == Some(reread_members(members))
}

/// Whether a document is a managed artifact control of this library's own making.
pub open spec fn is_own_control(doc: Members) -> bool {
    &&& own_members(doc)
    &&& is_control_type(text_member(doc, "type"@))
    &&& text_member(doc, "artifact_id"@) matches Some(id) && is_artifact_id(id)
}

/// A managed artifact control that is cut to a budget, and still is no structured error, refers
/// to the same artifact when it is read back.
pub proof fn bounded_control_reads_back(doc: Members, max: int)
    requires
        max >= 0,
        keys_increase(doc),
        is_own_control(doc),
        bounded_document(doc, max) != structured_error(max),
        reads_back(bounded_document(doc, max)),
    ensures
        control_artifact(bounded_document(doc, max)) == text_member(doc, "artifact_id"@),
{
    bounded_document_is_cut(doc, max);
    let small = choose|small: Members| #[trigger]
        is_cut_of(doc, small, max) && bounded_document(doc, max) == object_text(small);
    retrieval_keys_distinct();
    assert(member(small, "type"@) == member(doc, "type"@));
    assert(member(small, "artifact_id"@) == member(doc, "artifact_id"@));
    reread_keeps(small, "type"@);
    reread_keeps(small, "artifact_id"@);
}

/// The log line of a result: nothing of its content.
pub open spec fn log_document(mode: Seq<char>, bytes: nat) -> Members {
    with_member(
        with_member(
            with_member(seq![], "tool_family"@, JsonModel::Text("read_tool_output"@)),
            "mode"@,
            JsonModel::Text(mode),
        ),
        "serialized_bytes"@,
        JsonModel::Unsigned(bytes as u64),
    )
}

impl ReadToolOutputResult {
    /// The text for the model.
    pub closed spec fn spec_text(self) -> Seq<char> {
        self.text@
    }

    /// The mode of the request.
    pub closed spec fn spec_mode(self) -> RetrievalMode {
        self.mode
    }

    /// Whether the call succeeded.
    pub closed spec fn spec_success(self) -> bool {
        self.success
    }

    /// Whether the text is a managed artifact control.
    pub closed spec fn spec_managed(self) -> bool {
        self.managed
    }

    /// A result that failed only if its text is a structured error.
    pub fn new(text: String, mode: RetrievalMode) -> (r: Self)
        ensures
            r.spec_text() == text@,
            r.spec_mode() == mode,
            r.spec_managed() == control_artifact(text@) is Some,
            r.spec_success() == !is_output_error(text@),
            reads_back(text@),
    {
        let failed = match JsonObject::parse(text.as_str()) {
            Some(value) => match value.get_text("type") {
                Some(name) => same_text(name, "tool_output_error"),
                None => false,
            },
            None => false,
        };
        Self::with_success(text, mode, !failed)
    }

    /// A result that failed.
    pub fn error(text: String, mode: RetrievalMode) -> (r: Self)
        ensures
            r.spec_text() == text@,
            r.spec_mode() == mode,
            r.spec_managed() == control_artifact(text@) is Some,
            !r.spec_success(),
    {
        Self::with_success(text, mode, false)
    }

    fn with_success(text: String, mode: RetrievalMode, success: bool) -> (r: Self)
        ensures
            r.spec_text() == text@,
            r.spec_mode() == mode,
            r.spec_managed() == control_artifact(text@) is Some,
            r.spec_success() == success,
    {
        let managed = artifact_of_control(text.as_str()).is_some();
        ReadToolOutputResult { text, mode, success, managed }
    }

    /// The text for the model.
    pub fn text(&self) -> (r: &str)
        ensures
            r@ == self.spec_text(),
    {
        self.text.as_str()
    }

    /// The mode of the request.
    pub fn mode(&self) -> (r: RetrievalMode)
        ensures
            r == self.spec_mode(),
    {
        self.mode
    }

    /// Whether the call succeeded, as it is logged: a managed control always did.
    pub fn success_for_logging(&self) -> (r: bool)
        ensures
            r == (self.spec_managed() || self.spec_success()),
    {
        self.managed || self.success
    }

    /// Where the text comes from: only a managed control is trusted.
    pub fn provenance(&self) -> (r: ToolOutputProvenance)
        ensures
            r == (if self.spec_managed() {
                ToolOutputProvenance::ManagedArtifactRetrieval
            } else {
                ToolOutputProvenance::Untrusted
            }),
    {
        if self.managed {
            ToolOutputProvenance::ManagedArtifactRetrieval
        } else {
            ToolOutputProvenance::Untrusted
        }
    }

    /// What is logged: the mode and the size, nothing of the content.
    pub fn log_output(&self) -> (r: String)
        ensures
            r@ == object_text(
                log_document(self.spec_mode().spec_name(), utf8_len(self.spec_text())),
            ),
    {
        let mut value = JsonObject::new();
        value.set_text("tool_family", "read_tool_output");
        value.set_text("mode", self.mode.name());
        value.set("serialized_bytes", JsonValue::Unsigned(byte_len(self.text.as_str()) as u64));
        value.to_text()
    }
}

/// The message for a read of the store that failed.
pub open spec fn retrieval_message(kind: IoErrorKind) -> Seq<char> {
    match kind {
        IoErrorKind::NotFound => "output artifact is unavailable or expired"@,
        IoErrorKind::InvalidInput => "invalid output artifact request"@,
        IoErrorKind::PermissionDenied => "output artifact failed managed-storage safety checks"@,
        _ => "output artifact could not be read"@,
    }
}

/// The error for a read of the store that failed.
pub fn retrieval_error(kind: IoErrorKind) -> (r: FunctionCallError)
    ensures
        r@ == retrieval_message(kind),
{
    FunctionCallError::respond(
        match kind {
            IoErrorKind::NotFound => "output artifact is unavailable or expired",
            IoErrorKind::InvalidInput => "invalid output artifact request",
            IoErrorKind::PermissionDenied => "output artifact failed managed-storage safety checks",
            _ => "output artifact could not be read",
        },
    )
}

fn invalid_request() -> (r: FunctionCallError)
    ensures
        r@ == "invalid output artifact request"@,
{
    FunctionCallError::respond("invalid output artifact request")
}

/// The output budget of a retrieval.
pub open spec fn output_budget(policy: TruncationPolicy) -> usize {
    min_size(
        min_size(policy.budget(), MAX_MANAGED_ARTIFACT_MODEL_BYTES),
        STORE_BACKED_TOOL_OUTPUT_MAX_BYTES,
    )
}

/// The output budget of a retrieval.
pub fn effective_output_budget(policy: TruncationPolicy) -> (r: usize)
    ensures
        r == output_budget(policy),
{
    let budget: usize = policy.byte_budget();
    if budget < MAX_MANAGED_ARTIFACT_MODEL_BYTES {
        budget
    } else {
        MAX_MANAGED_ARTIFACT_MODEL_BYTES
    }
}

/// The reads that a request needs.
pub enum RetrievalPlan {
    /// None: this is the answer.
    Answer(ReadToolOutputResult),
    /// One byte window.
    Bytes { id: OutputArtifactId, offset: u64, limit: usize, budget: usize },
    /// The lines from `start_line` on.
    Lines {
        id: OutputArtifactId,
        start_line: usize,
        byte_offset: u64,
        scan_continuation: bool,
        line_continuation: bool,
        scan_lines_remaining: Option<usize>,
        count: usize,
        budget: usize,
    },
    /// A search for `query`.
    Search {
        id: OutputArtifactId,
        query: String,
        offset: u64,
        limit: usize,
        ceiling: usize,
        budget: usize,
    },
}

/// The value of an option, or a default.
pub open spec fn value_or<T>(value: Option<T>, default: T) -> T {
    match value {
        Some(value) => value,
        None => default,
    }
}

/// The message of the error that refuses a request, if one does.
pub open spec fn refusal(args: RetrievalArgs, supported: bool, policy: TruncationPolicy) -> Option<
    Seq<char>,
> {
    let budget = output_budget(policy);
    if !is_artifact_id(args.artifact_id@) {
        Some(retrieval_message(IoErrorKind::InvalidInput))
    } else if !supported {
        Some("output artifact retrieval is unavailable for this thread backend"@)
    } else if budget == 0 {
        Some("read_tool_output requires a positive output policy"@)
    } else if refused_mode(args, policy) is Some {
        None
    } else {
        match args.mode {
            RetrievalMode::Search => if args.query is None {
                Some("invalid output artifact request"@)
            } else {
                None
            },
            RetrievalMode::Bytes => if args.query is Some {
                Some("invalid output artifact request"@)
            } else {
                None
            },
            RetrievalMode::Lines => if args.query is Some || value_or(args.offset, 1)
                > usize::MAX {
                Some("invalid output artifact request"@)
            } else {
                None
            },
        }
    }
}

/// The mode under which a request is answered with a structured error because the budget is too
/// small for an advancing window.
pub open spec fn refused_mode(args: RetrievalArgs, policy: TruncationPolicy) -> Option<
    RetrievalMode,
> {
    let budget = output_budget(policy);
    if budget < MIN_ARTIFACT_ENVELOPE_BYTES {
        Some(RetrievalMode::Bytes)
    } else if args.mode == RetrievalMode::Lines && budget < MIN_LINE_RETRIEVAL_OUTPUT_BYTES {
        Some(RetrievalMode::Lines)
    } else {
        None
    }
}

/// The `read_tool_output` tool.
pub struct ReadToolOutputHandler;

impl ReadToolOutputHandler {
    /// Decides what a request reads.
    pub fn plan(
        &self,
        args: &RetrievalArgs,
        spilling_supported: bool,
        policy: TruncationPolicy,
    ) -> (r: Result<RetrievalPlan, FunctionCallError>)
        ensures
            match r {
                Err(error) => refusal(*args, spilling_supported, policy) == Some(error@),
                Ok(plan) => {
                    let budget = output_budget(policy);
                    let window = min_size((budget - RETRIEVAL_METADATA_RESERVE_BYTES) as usize, DEFAULT_BYTES);
                    &&& refusal(*args, spilling_supported, policy) is None
                    &&& match plan {
                        RetrievalPlan::Answer(result) => refused_mode(*args, policy) == Some(
                            result.spec_mode(),
                        ) && result.spec_text() == structured_error(budget as int)
                            && !result.spec_success() && result.spec_managed()
                            == control_artifact(structured_error(budget as int)) is Some,
                        RetrievalPlan::Bytes { id, offset, limit, budget: b } => refused_mode(
                            *args,
                            policy,
                        ) is None && args.mode == RetrievalMode::Bytes && id@ == args.artifact_id@
                            && offset == value_or(args.offset, 0) && limit == min_size(
                            value_or(args.limit, window),
                            window,
                        ) && b == budget,
                        RetrievalPlan::Lines {
                            id,
                            start_line,
                            byte_offset,
                            scan_continuation,
                            line_continuation,
                            scan_lines_remaining,
                            count,
                            budget: b,
                        } => refused_mode(*args, policy) is None && args.mode
                            == RetrievalMode::Lines && id@ == args.artifact_id@ && start_line
                            == value_or(args.offset, 1) && byte_offset == value_or(
                            args.byte_offset,
                            0,
                        ) && scan_continuation == value_or(args.scan_continuation, false)
                            && line_continuation == value_or(args.line_continuation, false)
                            && scan_lines_remaining == args.scan_lines_remaining && count
                            == value_or(args.limit, 200) && b == budget,
                        RetrievalPlan::Search { id, query, offset, limit, ceiling, budget: b } => {
                            &&& refused_mode(*args, policy) is None && args.mode
                                == RetrievalMode::Search && id@ == args.artifact_id@
                            &&& args.query is Some && query@ == args.query->0@
                            &&& offset == value_or(args.offset, 0) && limit == value_or(
                                args.limit,
                                20,
                            ) && ceiling == MAX_MATCHES && b == budget
                        },
                    }
                },
            },
    {
        let id = match OutputArtifactId::parse(args.artifact_id.as_str()) {
            Some(id) => id,
            None => {
                return Err(retrieval_error(IoErrorKind::InvalidInput));
            },
        };
        if !spilling_supported {
            return Err(
                FunctionCallError::respond(
                    "output artifact retrieval is unavailable for this thread backend",
                ),
            );
        }
        let budget: usize = effective_output_budget(policy);
        if budget == 0 {
            return Err(
                FunctionCallError::respond("read_tool_output requires a positive output policy"),
            );
        }
        if budget < MIN_ARTIFACT_ENVELOPE_BYTES {
            return Ok(
                RetrievalPlan::Answer(
                    ReadToolOutputResult::error(
                        bounded_structured_error(budget),
                        RetrievalMode::Bytes,
                    ),
                ),
            );
        }
        if args.mode == RetrievalMode::Lines && budget < MIN_LINE_RETRIEVAL_OUTPUT_BYTES {
            return Ok(
                RetrievalPlan::Answer(
                    ReadToolOutputResult::error(
                        bounded_structured_error(budget),
                        RetrievalMode::Lines,
                    ),
                ),
            );
        }
        let room: usize = budget - RETRIEVAL_METADATA_RESERVE_BYTES;
        let window: usize = if room < DEFAULT_BYTES {
            room
        } else {
            DEFAULT_BYTES
        };
        match args.mode {
            RetrievalMode::Bytes => {
                if args.query.is_some() {
                    return Err(invalid_request());
                }
                let limit: usize = match args.limit {
                    Some(limit) => limit,
                    None => window,
                };
                Ok(
                    RetrievalPlan::Bytes {
                        id,
                        offset: match args.offset {
                            Some(offset) => offset,
                            None => 0,
                        },
                        limit: if limit < window {
                            limit
                        } else {
                            window
                        },
                        budget,
                    },
                )
            },
            RetrievalMode::Lines => {
                if args.query.is_some() {
                    return Err(invalid_request());
                }
                let start: u64 = match args.offset {
                    Some(offset) => offset,
                    None => 1,
                };
                if start > usize::MAX as u64 {
                    return Err(invalid_request());
                }
                Ok(
                    RetrievalPlan::Lines {
                        id,
                        start_line: start as usize,
                        byte_offset: match args.byte_offset {
                            Some(offset) => offset,
                            None => 0,
                        },
                        scan_continuation: match args.scan_continuation {
                            Some(continuation) => continuation,
                            None => false,
                        },
                        line_continuation: match args.line_continuation {
                            Some(continuation) => continuation,
                            None => false,
                        },
                        scan_lines_remaining: args.scan_lines_remaining,
                        count: match args.limit {
                            Some(limit) => limit,
                            None => 200,
                        },
                        budget,
                    },
                )
            },
            RetrievalMode::Search => {
                match &args.query {
                    None => Err(invalid_request()),
                    Some(query) => Ok(
                        RetrievalPlan::Search {
                            id,
                            query: query.clone(),
                            offset: match args.offset {
                                Some(offset) => offset,
                                None => 0,
                            },
                            limit: match args.limit {
                                Some(limit) => limit,
                                None => 20,
                            },
                            ceiling: MAX_MATCHES,
                            budget,
                        },
                    ),
                }
            },
        }
    }

    /// The answer made from a document that was read: the document, cut to the budget.
    pub fn respond(
        &self,
        document: JsonObject,
        mode: RetrievalMode,
        budget: usize,
    ) -> (r: ReadToolOutputResult)
        ensures
            r.spec_text() == bounded_document(document@, budget as int),
            utf8_len(r.spec_text()) <= budget,
            r.spec_mode() == mode,
            r.spec_managed() == control_artifact(r.spec_text()) is Some,
            r.spec_success() == !is_output_error(r.spec_text()),
            is_own_control(document@) ==> r.spec_text() == structured_error(budget as int) || (
            r.spec_managed() && control_artifact(r.spec_text()) == text_member(
                document@,
                "artifact_id"@,
            )),
    {
        let ghost doc = document@;
        proof {
            use_type_invariant(&document);
        }
        let text = bounded_result(document, budget);
        let result = ReadToolOutputResult::new(text, mode);
        proof {
            if is_own_control(doc) && text@ != structured_error(budget as int) {
                bounded_control_reads_back(doc, budget as int);
            }
        }
        result
    }
}

} // verus!
