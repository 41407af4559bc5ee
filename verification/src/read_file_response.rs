//! The response of the file reader: a window of a file, fitted to the size that the model may
//! see.

use vstd::prelude::*;
use vstd::string::*;

use crate::artifact_id::{artifact_id_is_well_formed, artifact_id_of, is_hex, OutputArtifactId};
use crate::io_error::{IoError, IoErrorKind};
use crate::json::{escaped, escaped_char, json_string, json_string_text};
use crate::numbers::{
    decimal, decimal_grows, decimal_text, signed_decimal, signed_decimal_text,
};
use crate::read_file_window::{
    line_fragments, newlines, window_is_exact, ReadFileWindow, ReadFileWindowBounds, WindowModel,
};
use crate::text::{
    byte_len, char_byte_len, chars_of, encode_concat, encode_push, text_of, utf8_len,
    utf8_len_bounds, utf8_len_prefix,
};

verus! {

/// The size that is asked for where the caller names none.
pub const DEFAULT_MAX_BYTES: usize = 32768;

/// The number of lines that is asked for where the caller names none.
pub const DEFAULT_MAX_LINES: usize = 200;

/// The largest size that may be asked for.
pub const MAX_RESPONSE_BYTES: usize = 131072;

/// The largest response that the model sees, metadata and all.
pub const MAX_MODEL_VISIBLE_BYTES: usize = 8192;

/// The largest number of lines that may be asked for.
pub const MAX_RESPONSE_LINES: usize = 2000;

/// The most characters of a line before it is continued.
pub const MAX_LINE_FRAGMENT_CHARS: usize = 2000;

/// The smallest size that may be asked for.
pub const MIN_REQUEST_BYTES: usize = 1;

/// What a caller asks for.
#[derive(Clone, Copy, Debug, PartialEq, Eq, Structural)]
pub struct ReadBounds {
    pub offset: u64,
    pub max_bytes: usize,
    pub max_lines: usize,
}

impl ReadBounds {
    /// The most bytes of the response that the model may see.
    pub open spec fn spec_model_max_bytes(self) -> usize {
        if self.max_bytes < MAX_MODEL_VISIBLE_BYTES {
            self.max_bytes
        } else {
            MAX_MODEL_VISIBLE_BYTES
        }
    }

    /// The most bytes of the response that the model may see.
    pub fn model_max_bytes(self) -> (r: usize)
        ensures
            r == self.spec_model_max_bytes(),
    {
        if self.max_bytes < MAX_MODEL_VISIBLE_BYTES {
            self.max_bytes
        } else {
            MAX_MODEL_VISIBLE_BYTES
        }
    }
}

/// A truth value as JSON.
pub open spec fn bool_text(b: bool) -> Seq<char> {
    if b {
        "true"@
    } else {
        "false"@
    }
}

/// The digest of a text, as a fingerprint names it.
pub open spec fn text_digest(text: Seq<char>) -> Seq<char> {
    artifact_id_of(text).skip(4)
}

/// The response for a window of a file.
#[verifier::opaque]
pub open spec fn response_text(
    path: Seq<char>,
    file_size: nat,
    modified_at_ms: int,
    window: WindowModel,
) -> Seq<char> {
    "{\"type\":\"file_read\",\"version\":1,\"path\":"@ + json_string(path)
        + ",\"fingerprint\":{\"size_bytes\":"@ + decimal(file_size) + ",\"modified_at_ms\":"@
        + signed_decimal(modified_at_ms) + ",\"window_digest\":\"sha256:"@ + text_digest(
        window.text,
    ) + "\"},\"window\":{\"start_byte\":"@ + decimal(window.start_byte) + ",\"end_byte\":"@
        + decimal(window.end_byte) + ",\"text\":"@ + json_string(window.text)
        + ",\"line_fragments\":"@ + decimal(window.line_fragments) + ",\"line_continues\":"@
        + bool_text(window.line_continues) + "},\"next_offset\":"@ + (match window.next_offset {
        Some(offset) => decimal(offset),
        None => "null"@,
    }) + ",\"eof\":"@ + bool_text(window.eof) + ",\"continuation\":"@ + (
    if window.next_offset is Some {
        "\"Call read_file again with offset=next_offset.\"}"@
    } else {
        "null}"@
    })
}

fn bool_str(b: bool) -> (r: &'static str)
    ensures
        r@ == bool_text(b),
{
    if b {
        "true"
    } else {
        "false"
    }
}

/// The response for a window of a file.
pub fn render_response(
    path: &str,
    file_size: u64,
    modified_at_ms: i64,
    window: &ReadFileWindow,
) -> (r: String)
    ensures
        r@ == response_text(path@, file_size as nat, modified_at_ms as int, window@),
{
    let mut out = String::from_str("{\"type\":\"file_read\",\"version\":1,\"path\":");
    out.append(json_string_text(path).as_str());
    out.append(",\"fingerprint\":{\"size_bytes\":");
    out.append(decimal_text(file_size).as_str());
    out.append(",\"modified_at_ms\":");
    out.append(signed_decimal_text(modified_at_ms).as_str());
    out.append(",\"window_digest\":\"sha256:");
    out.append(OutputArtifactId::for_text(window.text.as_str()).digest().as_str());
    out.append("\"},\"window\":{\"start_byte\":");
    out.append(decimal_text(window.start_byte).as_str());
    out.append(",\"end_byte\":");
    out.append(decimal_text(window.end_byte).as_str());
    out.append(",\"text\":");
    out.append(json_string_text(window.text.as_str()).as_str());
    out.append(",\"line_fragments\":");
    out.append(decimal_text(window.line_fragments as u64).as_str());
    out.append(",\"line_continues\":");
    out.append(bool_str(window.line_continues));
    out.append("},\"next_offset\":");
    match window.next_offset {
        Some(offset) => out.append(decimal_text(offset).as_str()),
        None => out.append("null"),
    }
    out.append(",\"eof\":");
    out.append(bool_str(window.eof));
    out.append(",\"continuation\":");
    if window.next_offset.is_some() {
        out.append("\"Call read_file again with offset=next_offset.\"}");
    } else {
        out.append("null}");
    }
    proof {
        reveal(response_text);
    }
    out
}

/// The window that a response with the longest metadata holds.
pub open spec fn widest_window(start_byte: u64, max_lines: usize) -> WindowModel {
    WindowModel {
        text: seq![],
        start_byte: start_byte as nat,
        end_byte: u64::MAX as nat,
        line_fragments: max_lines as nat,
        line_continues: true,
        next_offset: Some(u64::MAX as nat),
        eof: false,
    }
}

/// The size of a response without text, with the longest metadata.
pub fn response_base_len(
    path: &str,
    file_size: u64,
    modified_at_ms: i64,
    start_byte: u64,
    max_lines: usize,
) -> (r: usize)
    ensures
        r == utf8_len(
            response_text(
                path@,
                file_size as nat,
                modified_at_ms as int,
                widest_window(start_byte, max_lines),
            ),
        ),
{
    let window = ReadFileWindow {
        text: String::new(),
        start_byte,
        end_byte: u64::MAX,
        line_fragments: max_lines,
        line_continues: true,
        next_offset: Some(u64::MAX),
        eof: false,
    };
    proof {
        assert(window.text@ =~= Seq::<char>::empty());
    }
    byte_len(render_response(path, file_size, modified_at_ms, &window).as_str())
}

/// A window with only the first `count` characters of its text.
pub open spec fn cut_window(window: WindowModel, count: int, file_size: nat) -> WindowModel {
    let text = window.text.take(count);
    let end = window.start_byte + utf8_len(text);
    WindowModel {
        text,
        start_byte: window.start_byte,
        end_byte: end,
        line_fragments: line_fragments(text),
        line_continues: (text.len() == 0 || text.last() != '\n') && end < file_size,
        next_offset: if end < file_size {
            Some(end)
        } else {
            None
        },
        eof: end >= file_size,
    }
}

/// Whether the response for a window is small enough.
pub open spec fn response_fits(
    path: Seq<char>,
    file_size: nat,
    modified_at_ms: int,
    window: WindowModel,
    max_bytes: int,
) -> bool {
    utf8_len(response_text(path, file_size, modified_at_ms, window)) <= max_bytes
}

/// The search by halves for how much of the text fits, between `low` and `high` characters.
pub open spec fn best_cut(
    path: Seq<char>,
    file_size: nat,
    modified_at_ms: int,
    window: WindowModel,
    max_bytes: int,
    low: int,
    high: int,
    best: int,
) -> int
    decreases high - low + 1,
{
    if low > high || low < 0 {
        best
    } else {
        let middle = low + (high - low) / 2;
        if response_fits(
            path,
            file_size,
            modified_at_ms,
            cut_window(window, middle, file_size),
            max_bytes,
        ) {
            best_cut(path, file_size, modified_at_ms, window, max_bytes, middle + 1, high, middle)
        } else if middle == 0 {
            best
        } else {
            best_cut(path, file_size, modified_at_ms, window, max_bytes, low, middle - 1, best)
        }
    }
}

/// Whether a window is one of a file of this size, as it is read: it ends within the file, and
/// says where.
pub open spec fn lies_within(window: WindowModel, file_size: nat) -> bool {
    &&& window.end_byte == window.start_byte + utf8_len(window.text)
    &&& window.end_byte <= file_size
    &&& window.line_fragments == line_fragments(window.text)
    &&& window.eof == (window.end_byte == file_size)
    &&& window.next_offset == (if window.eof {
        None::<nat>
    } else {
        Some(window.end_byte)
    })
    &&& window.eof ==> !window.line_continues
}

/// Every window that is read from a file is a window of the file.
pub proof fn read_window_lies_within(
    bounds: ReadFileWindowBounds,
    file_size: u64,
    data: Seq<u8>,
    window: WindowModel,
)
    requires
        window_is_exact(bounds, file_size, data, window),
    ensures
        lies_within(window, file_size as nat),
{
}

/// The most characters, of the first `count`, with which the response fits; 0 where none does.
pub open spec fn longest_cut(
    path: Seq<char>,
    file_size: nat,
    modified_at_ms: int,
    window: WindowModel,
    max_bytes: int,
    count: int,
) -> int
    decreases count,
{
    if count <= 0 {
        0
    } else if response_fits(
        path,
        file_size,
        modified_at_ms,
        cut_window(window, count, file_size),
        max_bytes,
    ) {
        count
    } else {
        longest_cut(path, file_size, modified_at_ms, window, max_bytes, count - 1)
    }
}

/// How many characters of a window the response holds: as many as fit. The text of something that
/// is no window of the file is cut where the search by halves ends.
pub open spec fn fitted_count(
    path: Seq<char>,
    file_size: nat,
    modified_at_ms: int,
    window: WindowModel,
    max_bytes: int,
) -> int {
    let all = window.text.len() as int;
    if lies_within(window, file_size) {
        longest_cut(path, file_size, modified_at_ms, window, max_bytes, all)
    } else {
        best_cut(path, file_size, modified_at_ms, window, max_bytes, 0, all, 0)
    }
}

/// The window as far as it fits the response, or `None` where not even one character does.
pub open spec fn fitted_window(
    path: Seq<char>,
    file_size: nat,
    modified_at_ms: int,
    window: WindowModel,
    max_bytes: int,
) -> Option<WindowModel> {
    if response_fits(path, file_size, modified_at_ms, window, max_bytes) {
        Some(window)
    } else if !response_fits(
        path,
        file_size,
        modified_at_ms,
        cut_window(window, 0, file_size),
        max_bytes,
    ) {
        None
    } else if window.text.len() > 0 && !response_fits(
        path,
        file_size,
        modified_at_ms,
        cut_window(window, 1, file_size),
        max_bytes,
    ) {
        None
    } else {
        Some(
            cut_window(
                window,
                fitted_count(path, file_size, modified_at_ms, window, max_bytes),
                file_size,
            ),
        )
    }
}

proof fn newlines_bounded(text: Seq<char>)
    ensures
        newlines(text) <= text.len(),
        line_fragments(text) <= text.len(),
    decreases text.len(),
{
    if text.len() > 0 {
        newlines_bounded(text.drop_last());
    }
}

fn truncate_window(
    window: &ReadFileWindow,
    chars: &Vec<char>,
    count: usize,
    file_size: u64,
) -> (r: ReadFileWindow)
    requires
        chars@ == window.text@,
        count <= chars@.len(),
        window.start_byte + utf8_len(window.text@) <= u64::MAX,
    ensures
        r@ == cut_window(window@, count as int, file_size as nat),
{
    let ghost text = window.text@.take(count as int);
    proof {
        utf8_len_prefix(window.text@, count as int);
        assert(window.text@.subrange(0, count as int) =~= text);
    }
    let mut fragments: usize = 0;
    let mut bytes: u64 = 0;
    let mut i: usize = 0;
    proof {
        assert(chars@.take(0) =~= Seq::<char>::empty());
        crate::text::encode_empty();
    }
    while i < count
        invariant
            i <= count <= chars@.len(),
            fragments == newlines(chars@.take(i as int)),
            fragments <= i,
            bytes == utf8_len(chars@.take(i as int)),
            utf8_len(chars@) <= u64::MAX,
        decreases count - i,
    {
        proof {
            assert(chars@.take(i + 1).drop_last() =~= chars@.take(i as int));
            assert(chars@.take(i + 1) =~= chars@.take(i as int).push(chars@[i as int]));
            encode_push(chars@.take(i as int), chars@[i as int]);
            utf8_len_prefix(chars@, i + 1);
        }
        if chars[i] == '\n' {
            fragments += 1;
        }
        bytes = bytes + char_byte_len(chars[i]) as u64;
        i += 1;
    }
    let open = count > 0 && chars[count - 1] != '\n';
    proof {
        newlines_bounded(text);
        assert(count > 0 ==> text.last() == chars@[count - 1]);
    }
    if open {
        fragments += 1;
    }
    let end_byte: u64 = window.start_byte + bytes;
    let eof = end_byte >= file_size;
    let ends_line = count > 0 && chars[count - 1] == '\n';
    ReadFileWindow {
        text: text_of(chars, 0, count),
        start_byte: window.start_byte,
        end_byte,
        line_fragments: fragments,
        line_continues: !ends_line && !eof,
        next_offset: if eof {
            None
        } else {
            Some(end_byte)
        },
        eof,
    }
}

fn fits(
    path: &str,
    file_size: u64,
    modified_at_ms: i64,
    window: &ReadFileWindow,
    max_bytes: usize,
) -> (r: bool)
    ensures
        r == response_fits(
            path@,
            file_size as nat,
            modified_at_ms as int,
            window@,
            max_bytes as int,
        ),
{
    byte_len(render_response(path, file_size, modified_at_ms, window).as_str()) <= max_bytes
}

/// The window as far as it fits the response.
pub fn fit_window_to_response_budget(
    path: &str,
    file_size: u64,
    modified_at_ms: i64,
    window: ReadFileWindow,
    max_bytes: usize,
) -> (r: Result<ReadFileWindow, IoError>)
    requires
        window.start_byte + utf8_len(window.text@) <= u64::MAX,
    ensures
        (match r {
            Ok(fitted) => fitted_window(
                path@,
                file_size as nat,
                modified_at_ms as int,
                window@,
                max_bytes as int,
            ) == Some(fitted@),
            Err(error) => fitted_window(
                path@,
                file_size as nat,
                modified_at_ms as int,
                window@,
                max_bytes as int,
            ) is None && error@ == (
                IoErrorKind::InvalidInput,
                "response metadata leaves no room for a UTF-8 character"@,
            ),
        }),
{
    if fits(path, file_size, modified_at_ms, &window, max_bytes) {
        return Ok(window);
    }
    let chars = chars_of(window.text.as_str());
    let empty = truncate_window(&window, &chars, 0, file_size);
    if !fits(path, file_size, modified_at_ms, &empty, max_bytes) {
        return Err(
            IoError::new(
                IoErrorKind::InvalidInput,
                "response metadata leaves no room for a UTF-8 character",
            ),
        );
    }
    if chars.len() > 0 {
        let single = truncate_window(&window, &chars, 1, file_size);
        if !fits(path, file_size, modified_at_ms, &single, max_bytes) {
            return Err(
                IoError::new(
                    IoErrorKind::InvalidInput,
                    "response metadata leaves no room for a UTF-8 character",
                ),
            );
        }
    }
    let mut low: usize = 0;
    let mut high: usize = chars.len();
    let mut best: usize = 0;
    let ghost goal = best_cut(
        path@,
        file_size as nat,
        modified_at_ms as int,
        window@,
        max_bytes as int,
        0,
        chars@.len() as int,
        0,
    );
    let mut searching = true;
    while searching && low <= high
        invariant
            chars@ == window.text@,
            window.start_byte + utf8_len(window.text@) <= u64::MAX,
            high <= chars@.len(),
            best <= chars@.len(),
            searching ==> goal == best_cut(
                path@,
                file_size as nat,
                modified_at_ms as int,
                window@,
                max_bytes as int,
                low as int,
                high as int,
                best as int,
            ),
            !searching ==> goal == best,
        decreases
                (if searching {
                    1int
                } else {
                    0
                }),
                high + 1 - low,
    {
        let middle: usize = low + (high - low) / 2;
        proof {
            reveal_with_fuel(best_cut, 2);
        }
        let candidate = truncate_window(&window, &chars, middle, file_size);
        if fits(path, file_size, modified_at_ms, &candidate, max_bytes) {
            best = middle;
            if middle == high {
                searching = false;
            } else {
                low = middle + 1;
            }
        } else if middle == 0 {
            searching = false;
        } else {
            high = middle - 1;
        }
    }
    proof {
        search_finds_longest(
            path@,
            file_size as nat,
            modified_at_ms as int,
            window@,
            max_bytes as int,
        );
    }
    Ok(truncate_window(&window, &chars, best, file_size))
}

/// The part of the size of a response that no cut changes.
spec fn fixed_size(path: Seq<char>, file_size: nat, modified_at_ms: int, start_byte: nat) -> nat {
    utf8_len("{\"type\":\"file_read\",\"version\":1,\"path\":"@)
        + utf8_len(",\"fingerprint\":{\"size_bytes\":"@)
        + utf8_len(",\"modified_at_ms\":"@)
        + utf8_len(",\"window_digest\":\"sha256:"@)
        + utf8_len("\"},\"window\":{\"start_byte\":"@)
        + utf8_len(",\"end_byte\":"@)
        + utf8_len(",\"text\":"@)
        + utf8_len(",\"line_fragments\":"@)
        + utf8_len(",\"line_continues\":"@)
        + utf8_len("},\"next_offset\":"@)
        + utf8_len(",\"eof\":"@)
        + utf8_len(",\"continuation\":"@)
        + utf8_len(json_string(path))
        + utf8_len(decimal(file_size))
        + utf8_len(signed_decimal(modified_at_ms))
        + utf8_len(decimal(start_byte))
}

/// The part of the size of a response that a cut changes.
spec fn varying_size(window: WindowModel) -> nat {
    utf8_len(text_digest(window.text)) + utf8_len(decimal(window.end_byte)) + utf8_len(
        json_string(window.text),
    ) + utf8_len(decimal(window.line_fragments)) + utf8_len(bool_text(window.line_continues))
        + utf8_len(next_text(window)) + utf8_len(bool_text(window.eof)) + utf8_len(
        continuation_text(window),
    )
}

spec fn next_text(window: WindowModel) -> Seq<char> {
    match window.next_offset {
        Some(offset) => decimal(offset),
        None => "null"@,
    }
}

spec fn continuation_text(window: WindowModel) -> Seq<char> {
    if window.next_offset is Some {
        "\"Call read_file again with offset=next_offset.\"}"@
    } else {
        "null}"@
    }
}

proof fn response_size(
    path: Seq<char>,
    file_size: nat,
    modified_at_ms: int,
    window: WindowModel,
)
    ensures
        utf8_len(response_text(path, file_size, modified_at_ms, window)) == fixed_size(
            path,
            file_size,
            modified_at_ms,
            window.start_byte,
        ) + varying_size(window),
{
    reveal(response_text);
    let next = next_text(window);
    let continuation = continuation_text(window);
    let p1 = "{\"type\":\"file_read\",\"version\":1,\"path\":"@ + json_string(path);
    encode_concat("{\"type\":\"file_read\",\"version\":1,\"path\":"@, json_string(path));
    let p2 = p1 + ",\"fingerprint\":{\"size_bytes\":"@;
    encode_concat(p1, ",\"fingerprint\":{\"size_bytes\":"@);
    let p3 = p2 + decimal(file_size);
    encode_concat(p2, decimal(file_size));
    let p4 = p3 + ",\"modified_at_ms\":"@;
    encode_concat(p3, ",\"modified_at_ms\":"@);
    let p5 = p4 + signed_decimal(modified_at_ms);
    encode_concat(p4, signed_decimal(modified_at_ms));
    let p6 = p5 + ",\"window_digest\":\"sha256:"@;
    encode_concat(p5, ",\"window_digest\":\"sha256:"@);
    let p7 = p6 + text_digest(window.text);
    encode_concat(p6, text_digest(window.text));
    let p8 = p7 + "\"},\"window\":{\"start_byte\":"@;
    encode_concat(p7, "\"},\"window\":{\"start_byte\":"@);
    let p9 = p8 + decimal(window.start_byte);
    encode_concat(p8, decimal(window.start_byte));
    let p10 = p9 + ",\"end_byte\":"@;
    encode_concat(p9, ",\"end_byte\":"@);
    let p11 = p10 + decimal(window.end_byte);
    encode_concat(p10, decimal(window.end_byte));
    let p12 = p11 + ",\"text\":"@;
    encode_concat(p11, ",\"text\":"@);
    let p13 = p12 + json_string(window.text);
    encode_concat(p12, json_string(window.text));
    let p14 = p13 + ",\"line_fragments\":"@;
    encode_concat(p13, ",\"line_fragments\":"@);
    let p15 = p14 + decimal(window.line_fragments);
    encode_concat(p14, decimal(window.line_fragments));
    let p16 = p15 + ",\"line_continues\":"@;
    encode_concat(p15, ",\"line_continues\":"@);
    let p17 = p16 + bool_text(window.line_continues);
    encode_concat(p16, bool_text(window.line_continues));
    let p18 = p17 + "},\"next_offset\":"@;
    encode_concat(p17, "},\"next_offset\":"@);
    let p19 = p18 + next;
    encode_concat(p18, next);
    let p20 = p19 + ",\"eof\":"@;
    encode_concat(p19, ",\"eof\":"@);
    let p21 = p20 + bool_text(window.eof);
    encode_concat(p20, bool_text(window.eof));
    let p22 = p21 + ",\"continuation\":"@;
    encode_concat(p21, ",\"continuation\":"@);
    let p23 = p22 + continuation;
    encode_concat(p22, continuation);
    assert(response_text(path, file_size, modified_at_ms, window) == p23);
}

proof fn digest_width(text: Seq<char>)
    ensures
        utf8_len(text_digest(text)) == 64,
{
    artifact_id_is_well_formed(text);
    let digest = text_digest(text);
    assert forall|i: int| 0 <= i < digest.len() implies '\0' <= #[trigger] digest[i]
        <= '\u{7f}' by {
        assert(is_hex(artifact_id_of(text)[4 + i]));
    }
    vstd::utf8::is_ascii_chars_encode_utf8(digest);
}

proof fn bool_widths()
    ensures
        utf8_len(bool_text(true)) == 4,
        utf8_len(bool_text(false)) == 5,
{
    reveal_strlit("true");
    reveal_strlit("false");
    vstd::utf8::is_ascii_chars_encode_utf8("true"@);
    vstd::utf8::is_ascii_chars_encode_utf8("false"@);
}

/// A longer text has a longer JSON string and begins no fewer lines.
proof fn prefix_grows(text: Seq<char>, a: int, b: int)
    requires
        0 <= a <= b <= text.len(),
    ensures
        utf8_len(json_string(text.take(a))) + (b - a) <= utf8_len(json_string(text.take(b))),
        line_fragments(text.take(a)) <= line_fragments(text.take(b)),
        utf8_len(text.take(a)) + (b - a) <= utf8_len(text.take(b)),
    decreases b - a,
{
    if a < b {
        prefix_grows(text, a, b - 1);
        let short = text.take(b - 1);
        let long = text.take(b);
        let c = text[b - 1];
        assert(long.drop_last() =~= short);
        assert(long =~= short.push(c));
        encode_push(short, c);
        encode_concat(escaped(short), escaped_char(c));
        utf8_len_bounds(escaped_char(c));
        string_size(short);
        string_size(long);
    }
}

proof fn string_size(text: Seq<char>)
    ensures
        utf8_len(json_string(text)) == utf8_len(escaped(text)) + 2 * utf8_len(seq!['"']),
{
    encode_concat(seq!['"'] + escaped(text), seq!['"']);
    encode_concat(seq!['"'], escaped(text));
}

/// With fewer characters of a window that does not fit as a whole, the response is no larger.
proof fn shorter_cut_fits(
    path: Seq<char>,
    file_size: nat,
    modified_at_ms: int,
    window: WindowModel,
    max_bytes: int,
    a: int,
    b: int,
)
    requires
        lies_within(window, file_size),
        !response_fits(path, file_size, modified_at_ms, window, max_bytes),
        0 <= a <= b <= window.text.len(),
        response_fits(
            path,
            file_size,
            modified_at_ms,
            cut_window(window, b, file_size),
            max_bytes,
        ),
    ensures
        response_fits(
            path,
            file_size,
            modified_at_ms,
            cut_window(window, a, file_size),
            max_bytes,
        ),
{
    let short = cut_window(window, a, file_size);
    let long = cut_window(window, b, file_size);
    let all = window.text.len() as int;
    prefix_grows(window.text, a, b);
    prefix_grows(window.text, b, all);
    assert(window.text.take(all) =~= window.text);
    if long.eof {
        assert(b == all);
        assert(long == window);
    } else if a < b {
        response_size(path, file_size, modified_at_ms, short);
        response_size(path, file_size, modified_at_ms, long);
        digest_width(short.text);
        digest_width(long.text);
        bool_widths();
        decimal_grows(short.end_byte, long.end_byte);
        decimal_grows(long.end_byte, long.end_byte);
        decimal_grows(short.line_fragments, long.line_fragments);
        decimal_grows(long.line_fragments, long.line_fragments);
        assert(!short.eof);
    }
}

proof fn longest_cut_is_longest(
    path: Seq<char>,
    file_size: nat,
    modified_at_ms: int,
    window: WindowModel,
    max_bytes: int,
    count: int,
    cut: int,
)
    requires
        0 <= cut <= count <= window.text.len(),
        response_fits(
            path,
            file_size,
            modified_at_ms,
            cut_window(window, cut, file_size),
            max_bytes,
        ),
    ensures
        ({
            let longest = longest_cut(
                path,
                file_size,
                modified_at_ms,
                window,
                max_bytes,
                count,
            );
            &&& cut <= longest <= count
            &&& response_fits(
                path,
                file_size,
                modified_at_ms,
                cut_window(window, longest, file_size),
                max_bytes,
            )
        }),
    decreases count,
{
    if count > cut && !response_fits(
        path,
        file_size,
        modified_at_ms,
        cut_window(window, count, file_size),
        max_bytes,
    ) {
        longest_cut_is_longest(
            path,
            file_size,
            modified_at_ms,
            window,
            max_bytes,
            count - 1,
            cut,
        );
    }
}

/// The search by halves finds the longest cut.
proof fn halves_find_longest(
    path: Seq<char>,
    file_size: nat,
    modified_at_ms: int,
    window: WindowModel,
    max_bytes: int,
    low: int,
    high: int,
    best: int,
)
    requires
        lies_within(window, file_size),
        !response_fits(path, file_size, modified_at_ms, window, max_bytes),
        ({
            let longest = longest_cut(
                path,
                file_size,
                modified_at_ms,
                window,
                max_bytes,
                window.text.len() as int,
            );
            0 <= low && high <= window.text.len() && best <= longest <= high && (best == longest
                || low <= longest)
        }),
        response_fits(
            path,
            file_size,
            modified_at_ms,
            cut_window(window, 0, file_size),
            max_bytes,
        ),
    ensures
        best_cut(path, file_size, modified_at_ms, window, max_bytes, low, high, best)
            == longest_cut(
            path,
            file_size,
            modified_at_ms,
            window,
            max_bytes,
            window.text.len() as int,
        ),
    decreases high - low + 1,
{
    let all = window.text.len() as int;
    let longest = longest_cut(path, file_size, modified_at_ms, window, max_bytes, all);
    longest_cut_is_longest(path, file_size, modified_at_ms, window, max_bytes, all, 0);
    if low <= high {
        let middle = low + (high - low) / 2;
        if response_fits(
            path,
            file_size,
            modified_at_ms,
            cut_window(window, middle, file_size),
            max_bytes,
        ) {
            longest_cut_is_longest(
                path,
                file_size,
                modified_at_ms,
                window,
                max_bytes,
                all,
                middle,
            );
            halves_find_longest(
                path,
                file_size,
                modified_at_ms,
                window,
                max_bytes,
                middle + 1,
                high,
                middle,
            );
        } else {
            if middle <= longest {
                shorter_cut_fits(
                    path,
                    file_size,
                    modified_at_ms,
                    window,
                    max_bytes,
                    middle,
                    longest,
                );
            }
            halves_find_longest(
                path,
                file_size,
                modified_at_ms,
                window,
                max_bytes,
                low,
                middle - 1,
                best,
            );
        }
    }
}

proof fn search_finds_longest(
    path: Seq<char>,
    file_size: nat,
    modified_at_ms: int,
    window: WindowModel,
    max_bytes: int,
)
    requires
        !response_fits(path, file_size, modified_at_ms, window, max_bytes),
        response_fits(
            path,
            file_size,
            modified_at_ms,
            cut_window(window, 0, file_size),
            max_bytes,
        ),
    ensures
        best_cut(
            path,
            file_size,
            modified_at_ms,
            window,
            max_bytes,
            0,
            window.text.len() as int,
            0,
        ) == fitted_count(path, file_size, modified_at_ms, window, max_bytes),
{
    let all = window.text.len() as int;
    longest_cut_is_longest(path, file_size, modified_at_ms, window, max_bytes, all, 0);
    if lies_within(window, file_size) {
        halves_find_longest(path, file_size, modified_at_ms, window, max_bytes, 0, all, 0);
    }
}

proof fn best_cut_fits(
    path: Seq<char>,
    file_size: nat,
    modified_at_ms: int,
    window: WindowModel,
    max_bytes: int,
    low: int,
    high: int,
    best: int,
)
    requires
        0 <= low,
        high <= window.text.len(),
        0 <= best <= window.text.len(),
        response_fits(
            path,
            file_size,
            modified_at_ms,
            cut_window(window, best, file_size),
            max_bytes,
        ),
        best < low || best == 0,
        window.text.len() > 0 ==> response_fits(
            path,
            file_size,
            modified_at_ms,
            cut_window(window, 1, file_size),
            max_bytes,
        ),
        window.text.len() > 0 && best == 0 ==> low <= 1 <= high,
    ensures
        ({
            let cut = best_cut(
                path,
                file_size,
                modified_at_ms,
                window,
                max_bytes,
                low,
                high,
                best,
            );
            &&& 0 <= cut <= window.text.len()
            &&& response_fits(
                path,
                file_size,
                modified_at_ms,
                cut_window(window, cut, file_size),
                max_bytes,
            )
            &&& window.text.len() > 0 ==> cut > 0
        }),
    decreases high - low + 1,
{
    if low <= high {
        let middle = low + (high - low) / 2;
        if response_fits(
            path,
            file_size,
            modified_at_ms,
            cut_window(window, middle, file_size),
            max_bytes,
        ) {
            best_cut_fits(
                path,
                file_size,
                modified_at_ms,
                window,
                max_bytes,
                middle + 1,
                high,
                middle,
            );
        } else if middle != 0 {
            best_cut_fits(
                path,
                file_size,
                modified_at_ms,
                window,
                max_bytes,
                low,
                middle - 1,
                best,
            );
        }
    }
}

/// A window that is fitted to a response fits it, begins where the whole window begins, holds
/// the start of its text without a gap and at least one character of it, and names the byte
/// behind that text as the place to go on, or the end of the file. Of a window of the file it
/// holds as much as fits: no response with more of its text would fit.
pub proof fn fitted_window_is_exact(
    path: Seq<char>,
    file_size: nat,
    modified_at_ms: int,
    window: WindowModel,
    max_bytes: int,
)
    requires
        fitted_window(path, file_size, modified_at_ms, window, max_bytes) is Some,
        window.end_byte == window.start_byte + utf8_len(window.text),
        window.next_offset == (if window.eof {
            None::<nat>
        } else {
            Some(window.end_byte)
        }),
    ensures
        ({
            let fitted = fitted_window(
                path,
                file_size,
                modified_at_ms,
                window,
                max_bytes,
            )->0;
            &&& response_fits(path, file_size, modified_at_ms, fitted, max_bytes)
            &&& fitted.start_byte == window.start_byte
            &&& fitted.text.len() <= window.text.len()
            &&& fitted.text == window.text.take(fitted.text.len() as int)
            &&& window.text.len() > 0 ==> fitted.text.len() > 0
            &&& lies_within(window, file_size) ==> forall|count: int|
                fitted.text.len() < count <= window.text.len() ==> !response_fits(
                    path,
                    file_size,
                    modified_at_ms,
                    #[trigger] cut_window(window, count, file_size),
                    max_bytes,
                )
            &&& fitted.end_byte == fitted.start_byte + utf8_len(fitted.text)
            &&& fitted.next_offset == (if fitted.eof {
                None::<nat>
            } else {
                Some(fitted.end_byte)
            })
        }),
{
    assert(window.text.take(window.text.len() as int) =~= window.text);
    if !response_fits(path, file_size, modified_at_ms, window, max_bytes) {
        let all = window.text.len() as int;
        best_cut_fits(path, file_size, modified_at_ms, window, max_bytes, 0, all, 0);
        search_finds_longest(path, file_size, modified_at_ms, window, max_bytes);
        assert forall|count: int|
            fitted_count(path, file_size, modified_at_ms, window, max_bytes) < count <= all
                && lies_within(window, file_size) implies !response_fits(
            path,
            file_size,
            modified_at_ms,
            #[trigger] cut_window(window, count, file_size),
            max_bytes,
        ) by {
            if response_fits(
                path,
                file_size,
                modified_at_ms,
                cut_window(window, count, file_size),
                max_bytes,
            ) {
                longest_cut_is_longest(
                    path,
                    file_size,
                    modified_at_ms,
                    window,
                    max_bytes,
                    all,
                    count,
                );
            }
        }
    }
}

} // verus!
