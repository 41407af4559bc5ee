//! Windows into a stored tool output, and how a retrieval document is cut to a budget.

use vstd::prelude::*;
use vstd::string::*;

use crate::history::first;
use crate::json::{
    keys_increase, member, object_text, own_members, text_member, unsigned_member, with_member,
    with_member_ordered, without_member, without_member_ordered, JsonModel, JsonObject, JsonValue,
    Members,
};
use crate::read_file_window::newlines;
use crate::text::{
    byte_len, chars_of, chars_reaching, chars_reaching_first, count_reaching, prefix_within,
    prefix_within_longest, same_text, take_bytes_at_char_boundary, text_of, utf8_len,
    utf8_len_bounds,
};
use crate::tool_output::{bounded_structured_error, structured_error, structured_error_fits};

verus! {

/// The default size of a byte window.
pub const DEFAULT_BYTES: usize = 16384;

/// The most lines that one request returns.
pub const MAX_LINES: usize = 2000;

/// The most matches that one search returns.
pub const MAX_MATCHES: usize = 50;

/// The most bytes that one search looks through.
pub const MAX_SEARCH_SCAN_BYTES: usize = 524288;

/// The base64 text of a byte sequence.
pub uninterp spec fn base64_encoded(bytes: Seq<u8>) -> Seq<char>;

/// The byte sequence that a base64 text stands for, if it is one.
pub uninterp spec fn base64_decoded(text: Seq<char>) -> Option<Seq<u8>>;

/// Encodes bytes as base64.
///
/// Trusted: `base64`'s standard engine writes each three bytes as four ASCII characters and pads
/// the last group; the text is named [`base64_encoded`].
#[verifier::external_body]
pub(crate) fn encode_base64(bytes: &[u8]) -> (r: String)
    requires
        (bytes@.len() + 2) / 3 * 4 <= isize::MAX,
    ensures
        r@ == base64_encoded(bytes@),
        r@.len() == (bytes@.len() + 2) / 3 * 4,
        r.is_ascii(),
{
    base64::Engine::encode(&base64::engine::general_purpose::STANDARD, bytes)
}

/// Decodes base64.
///
/// Trusted: `base64`'s standard engine gives the bytes that a canonical base64 text stands for,
/// and an error for any other text; what it gives is named [`base64_decoded`]. The first `n`
/// groups of four characters of an encoding stand for the first `3 * n` bytes of what was encoded.
#[verifier::external_body]
pub(crate) fn decode_base64(text: &str) -> (r: Option<Vec<u8>>)
    ensures
        optional_bytes(r) == base64_decoded(text@),
        forall|bytes: Seq<u8>, groups: int|
            #![trigger base64_encoded(bytes).take(4 * groups)]
            0 <= groups && 4 * groups <= base64_encoded(bytes).len() && text@ == base64_encoded(
                bytes,
            ).take(4 * groups) ==> optional_bytes(r) == Some(first(bytes, 3 * groups)),
{
    base64::Engine::decode(&base64::engine::general_purpose::STANDARD, text).ok()
}

/// The model of optional bytes.
pub open spec fn optional_bytes(bytes: Option<Vec<u8>>) -> Option<Seq<u8>> {
    match bytes {
        Some(bytes) => Some(bytes@),
        None => None,
    }
}

/// A sum that stops at the largest 64-bit value.
pub open spec fn sum64(a: int, b: int) -> u64 {
    if a + b > u64::MAX {
        u64::MAX
    } else {
        (a + b) as u64
    }
}

/// Whether a document describes lines.
pub open spec fn is_line_mode(doc: Members) -> bool {
    text_member(doc, "mode"@) == Some("lines"@)
}

/// Whether a document continues a line scan and has no text.
pub open spec fn is_empty_scan(doc: Members) -> bool {
    &&& is_line_mode(doc)
    &&& member(doc, "scan_continues"@) == Some(JsonModel::Bool(true))
    &&& text_member(doc, "text"@) == Some(""@)
}

/// A document without the descriptive members that a small budget has no room for.
pub open spec fn compacted(doc: Members, max: int) -> Members {
    if max >= 256 {
        doc
    } else if is_empty_scan(doc) {
        without_member(
            without_member(
                without_member(
                    without_member(without_member(doc, "mode"@), "complete"@),
                    "scan_continues"@,
                ),
                "start_byte"@,
            ),
            "end_byte"@,
        )
    } else if is_line_mode(doc) {
        without_member(
            without_member(
                without_member(without_member(doc, "start_byte"@), "end_byte"@),
                "complete"@,
            ),
            "scan_continues"@,
        )
    } else {
        without_member(
            without_member(without_member(doc, "mode"@), "complete"@),
            "scan_continues"@,
        )
    }
}

/// How many characters of `text` stay when a document exceeds its budget by `excess` bytes.
pub open spec fn kept_chars(text: Seq<char>, excess: int) -> nat {
    chars_reaching(text, utf8_len(text) - (excess + 8))
}

/// A document with its text cut to `kept`; `start` is where its text starts in the artifact.
pub open spec fn with_text(doc: Members, start: Option<u64>, kept: Seq<char>) -> Members {
    let cut = with_member(doc, "text"@, JsonModel::Text(kept));
    match start {
        None => cut,
        Some(start) => {
            let has_next = match member(cut, "next_offset"@) {
                Some(JsonModel::Null) => false,
                Some(_) => true,
                None => false,
            };
            let end = sum64(start as int, utf8_len(kept) as int);
            let ended = with_member(
                with_member(cut, "end_byte"@, JsonModel::Unsigned(end)),
                "complete"@,
                JsonModel::Bool(false),
            );
            if is_line_mode(ended) {
                let start_line = match unsigned_member(ended, "start_line"@) {
                    Some(line) => line,
                    None => 1,
                };
                with_member(
                    with_member(
                        with_member(
                            ended,
                            "next_offset"@,
                            JsonModel::Unsigned(
                                sum64(start_line as int, newlines(kept) as int),
                            ),
                        ),
                        "next_byte"@,
                        JsonModel::Unsigned(end),
                    ),
                    "line_continuation"@,
                    JsonModel::Bool(has_next && !(kept.len() > 0 && kept.last() == '\n')),
                )
            } else {
                with_member(ended, "next_offset"@, JsonModel::Unsigned(end))
            }
        },
    }
}

/// A document with its base64 bytes cut to `kept`, which stands for `count` bytes.
pub open spec fn with_bytes(doc: Members, kept: Seq<char>, count: nat) -> Members {
    let cut = with_member(doc, "bytes_base64"@, JsonModel::Text(kept));
    match unsigned_member(cut, "start_byte"@) {
        None => cut,
        Some(start) => {
            let end = sum64(start as int, count as int);
            with_member(
                with_member(
                    with_member(cut, "end_byte"@, JsonModel::Unsigned(end)),
                    "complete"@,
                    JsonModel::Bool(false),
                ),
                "next_offset"@,
                JsonModel::Unsigned(end),
            )
        },
    }
}

/// One step of cutting a document to a budget.
pub enum BoundStep {
    /// This text is the result.
    Done(Seq<char>),
    /// A smaller document is tried.
    Again(Members),
}

/// How many groups of four characters stay when a document exceeds its budget by `excess` bytes.
pub open spec fn kept_groups(encoded: Seq<char>, excess: int) -> int {
    let room = utf8_len(encoded) - (excess + 8);
    if room > 0 {
        room / 4
    } else {
        0
    }
}

/// The step for a document whose base64 bytes are too long.
pub open spec fn bytes_step(doc: Members, encoded: Seq<char>, excess: int, max: int) -> BoundStep {
    let target = kept_groups(encoded, excess) * 4;
    let kept = prefix_within(encoded, target);
    if encoded.len() == 0 {
        BoundStep::Again(without_member(doc, "bytes_base64"@))
    } else if target == 0 || utf8_len(kept) != target {
        BoundStep::Done(structured_error(max))
    } else {
        match base64_decoded(kept) {
            Some(bytes) => if bytes.len() > 0 {
                BoundStep::Again(with_bytes(doc, kept, bytes.len()))
            } else {
                BoundStep::Done(structured_error(max))
            },
            None => BoundStep::Done(structured_error(max)),
        }
    }
}

/// The step for a document of `max` bytes at most.
#[verifier::opaque]
pub open spec fn bound_step(doc: Members, max: int) -> BoundStep {
    let small = compacted(doc, max);
    let excess = utf8_len(object_text(small)) - max;
    if utf8_len(object_text(doc)) <= max {
        BoundStep::Done(object_text(doc))
    } else if excess <= 0 {
        BoundStep::Done(object_text(small))
    } else if let Some(text) = text_member(small, "text"@) {
        let kept = kept_chars(text, excess);
        if text.len() == 0 {
            BoundStep::Again(without_member(small, "text"@))
        } else if kept == 0 || kept == text.len() {
            BoundStep::Done(structured_error(max))
        } else {
            BoundStep::Again(
                with_text(small, unsigned_member(doc, "start_byte"@), text.take(kept as int)),
            )
        }
    } else if let Some(encoded) = text_member(small, "bytes_base64"@) {
        bytes_step(small, encoded, excess, max)
    } else {
        match member(small, "byte_offsets"@) {
            Some(JsonModel::Offsets(offsets)) => if offsets.len() > 0 {
                BoundStep::Again(
                    with_member(
                        with_member(
                            with_member(
                                small,
                                "byte_offsets"@,
                                JsonModel::Offsets(offsets.drop_last()),
                            ),
                            "next_offset"@,
                            JsonModel::Unsigned(offsets.last()),
                        ),
                        "complete"@,
                        JsonModel::Bool(false),
                    ),
                )
            } else {
                BoundStep::Done(structured_error(max))
            },
            _ => BoundStep::Done(structured_error(max)),
        }
    }
}

/// How much of a document can still be cut.
pub open spec fn document_size(doc: Members) -> nat {
    (match text_member(doc, "text"@) {
        Some(text) => text.len() + 1,
        None => 0,
    }) + (match text_member(doc, "bytes_base64"@) {
        Some(text) => text.len() + 1,
        None => 0,
    }) + (match member(doc, "byte_offsets"@) {
        Some(JsonModel::Offsets(offsets)) => offsets.len(),
        _ => 0,
    })
}

/// The text of a document cut to a budget.
pub open spec fn bounded_document(doc: Members, max: int) -> Seq<char>
    decreases document_size(doc),
    when keys_increase(doc)
    via bounded_document_decreases
{
    match bound_step(doc, max) {
        BoundStep::Done(text) => text,
        BoundStep::Again(smaller) => bounded_document(smaller, max),
    }
}

#[via_fn]
proof fn bounded_document_decreases(doc: Members, max: int) {
    if keys_increase(doc) {
        bound_step_shrinks(doc, max);
    }
}

/// The member names of a retrieval document are distinct.
pub proof fn retrieval_keys_distinct()
    ensures
        "type"@ != "artifact_id"@,
        "type"@ != "mode"@,
        "type"@ != "complete"@,
        "type"@ != "scan_continues"@,
        "type"@ != "start_byte"@,
        "type"@ != "end_byte"@,
        "type"@ != "text"@,
        "type"@ != "bytes_base64"@,
        "type"@ != "byte_offsets"@,
        "type"@ != "next_offset"@,
        "type"@ != "next_byte"@,
        "type"@ != "start_line"@,
        "type"@ != "line_continuation"@,
        "artifact_id"@ != "mode"@,
        "artifact_id"@ != "complete"@,
        "artifact_id"@ != "scan_continues"@,
        "artifact_id"@ != "start_byte"@,
        "artifact_id"@ != "end_byte"@,
        "artifact_id"@ != "text"@,
        "artifact_id"@ != "bytes_base64"@,
        "artifact_id"@ != "byte_offsets"@,
        "artifact_id"@ != "next_offset"@,
        "artifact_id"@ != "next_byte"@,
        "artifact_id"@ != "start_line"@,
        "artifact_id"@ != "line_continuation"@,
        "mode"@ != "complete"@,
        "mode"@ != "scan_continues"@,
        "mode"@ != "start_byte"@,
        "mode"@ != "end_byte"@,
        "mode"@ != "text"@,
        "mode"@ != "bytes_base64"@,
        "mode"@ != "byte_offsets"@,
        "mode"@ != "next_offset"@,
        "mode"@ != "next_byte"@,
        "mode"@ != "start_line"@,
        "mode"@ != "line_continuation"@,
        "complete"@ != "scan_continues"@,
        "complete"@ != "start_byte"@,
        "complete"@ != "end_byte"@,
        "complete"@ != "text"@,
        "complete"@ != "bytes_base64"@,
        "complete"@ != "byte_offsets"@,
        "complete"@ != "next_offset"@,
        "complete"@ != "next_byte"@,
        "complete"@ != "start_line"@,
        "complete"@ != "line_continuation"@,
        "scan_continues"@ != "start_byte"@,
        "scan_continues"@ != "end_byte"@,
        "scan_continues"@ != "text"@,
        "scan_continues"@ != "bytes_base64"@,
        "scan_continues"@ != "byte_offsets"@,
        "scan_continues"@ != "next_offset"@,
        "scan_continues"@ != "next_byte"@,
        "scan_continues"@ != "start_line"@,
        "scan_continues"@ != "line_continuation"@,
        "start_byte"@ != "end_byte"@,
        "start_byte"@ != "text"@,
        "start_byte"@ != "bytes_base64"@,
        "start_byte"@ != "byte_offsets"@,
        "start_byte"@ != "next_offset"@,
        "start_byte"@ != "next_byte"@,
        "start_byte"@ != "start_line"@,
        "start_byte"@ != "line_continuation"@,
        "end_byte"@ != "text"@,
        "end_byte"@ != "bytes_base64"@,
        "end_byte"@ != "byte_offsets"@,
        "end_byte"@ != "next_offset"@,
        "end_byte"@ != "next_byte"@,
        "end_byte"@ != "start_line"@,
        "end_byte"@ != "line_continuation"@,
        "text"@ != "bytes_base64"@,
        "text"@ != "byte_offsets"@,
        "text"@ != "next_offset"@,
        "text"@ != "next_byte"@,
        "text"@ != "start_line"@,
        "text"@ != "line_continuation"@,
        "bytes_base64"@ != "byte_offsets"@,
        "bytes_base64"@ != "next_offset"@,
        "bytes_base64"@ != "next_byte"@,
        "bytes_base64"@ != "start_line"@,
        "bytes_base64"@ != "line_continuation"@,
        "byte_offsets"@ != "next_offset"@,
        "byte_offsets"@ != "next_byte"@,
        "byte_offsets"@ != "start_line"@,
        "byte_offsets"@ != "line_continuation"@,
        "next_offset"@ != "next_byte"@,
        "next_offset"@ != "start_line"@,
        "next_offset"@ != "line_continuation"@,
        "next_byte"@ != "start_line"@,
        "next_byte"@ != "line_continuation"@,
        "start_line"@ != "line_continuation"@,
{
    reveal_strlit("type");
    reveal_strlit("artifact_id");
    reveal_strlit("mode");
    reveal_strlit("complete");
    reveal_strlit("scan_continues");
    reveal_strlit("start_byte");
    reveal_strlit("end_byte");
    reveal_strlit("text");
    reveal_strlit("bytes_base64");
    reveal_strlit("byte_offsets");
    reveal_strlit("next_offset");
    reveal_strlit("next_byte");
    reveal_strlit("start_line");
    reveal_strlit("line_continuation");
    assert("type"@.len() == 4);
    assert("artifact_id"@.len() == 11);
    assert("mode"@.len() == 4);
    assert("complete"@.len() == 8);
    assert("scan_continues"@.len() == 14);
    assert("start_byte"@.len() == 10);
    assert("end_byte"@.len() == 8);
    assert("text"@.len() == 4);
    assert("bytes_base64"@.len() == 12);
    assert("byte_offsets"@.len() == 12);
    assert("next_offset"@.len() == 11);
    assert("next_byte"@.len() == 9);
    assert("start_line"@.len() == 10);
    assert("line_continuation"@.len() == 17);
    assert("type"@[0] == 't' && "mode"@[0] == 'm');
    assert("type"@[1] == 'y' && "text"@[1] == 'e');
    assert("artifact_id"@[0] == 'a' && "next_offset"@[0] == 'n');
    assert("mode"@[0] == 'm' && "text"@[0] == 't');
    assert("complete"@[0] == 'c' && "end_byte"@[0] == 'e');
    assert("start_byte"@[6] == 'b' && "start_line"@[6] == 'l');
    assert("bytes_base64"@[4] == 's' && "byte_offsets"@[4] == '_');
}

/// Compacting keeps the order of the keys and everything but descriptive members.
proof fn compacted_keeps(doc: Members, max: int)
    requires
        keys_increase(doc),
    ensures
        keys_increase(compacted(doc, max)),
        own_members(doc) ==> own_members(compacted(doc, max)),
        forall|key: Seq<char>|
            key != "mode"@ && key != "complete"@ && key != "scan_continues"@ && key
                != "start_byte"@ && key != "end_byte"@ ==> #[trigger] member(
                compacted(doc, max),
                key,
            ) == member(doc, key),
        !is_line_mode(doc) ==> member(compacted(doc, max), "start_byte"@) == member(
            doc,
            "start_byte"@,
        ),
        !is_line_mode(doc) ==> member(compacted(doc, max), "end_byte"@) == member(
            doc,
            "end_byte"@,
        ),
        !is_line_mode(doc) ==> !is_line_mode(compacted(doc, max)),
        is_line_mode(doc) && !is_empty_scan(doc) ==> is_line_mode(compacted(doc, max)),
        max >= 256 ==> compacted(doc, max) == doc,
{
    retrieval_keys_distinct();
    if max < 256 {
        if is_empty_scan(doc) {
            let a = without_member(doc, "mode"@);
            let b = without_member(a, "complete"@);
            let c = without_member(b, "scan_continues"@);
            let d = without_member(c, "start_byte"@);
            without_member_ordered(doc, "mode"@);
            without_member_ordered(a, "complete"@);
            without_member_ordered(b, "scan_continues"@);
            without_member_ordered(c, "start_byte"@);
            without_member_ordered(d, "end_byte"@);
        } else if is_line_mode(doc) {
            let a = without_member(doc, "start_byte"@);
            let b = without_member(a, "end_byte"@);
            let c = without_member(b, "complete"@);
            without_member_ordered(doc, "start_byte"@);
            without_member_ordered(a, "end_byte"@);
            without_member_ordered(b, "complete"@);
            without_member_ordered(c, "scan_continues"@);
        } else {
            let a = without_member(doc, "mode"@);
            let b = without_member(a, "complete"@);
            without_member_ordered(doc, "mode"@);
            without_member_ordered(a, "complete"@);
            without_member_ordered(b, "scan_continues"@);
        }
    }
}

/// What cutting the text changes.
proof fn with_text_keeps(doc: Members, start: Option<u64>, kept: Seq<char>)
    requires
        keys_increase(doc),
    ensures
        keys_increase(with_text(doc, start, kept)),
        own_members(doc) ==> own_members(with_text(doc, start, kept)),
        member(with_text(doc, start, kept), "text"@) == Some(JsonModel::Text(kept)),
        forall|key: Seq<char>|
            key != "text"@ && key != "end_byte"@ && key != "complete"@ && key != "next_offset"@
                && key != "next_byte"@ && key != "line_continuation"@ ==> #[trigger] member(
                with_text(doc, start, kept),
                key,
            ) == member(doc, key),
        start matches Some(s) ==> {
            let end = sum64(s as int, utf8_len(kept) as int);
            let r = with_text(doc, start, kept);
            &&& member(r, "end_byte"@) == Some(JsonModel::Unsigned(end))
            &&& !is_line_mode(doc) ==> member(r, "next_offset"@) == Some(JsonModel::Unsigned(end))
            &&& is_line_mode(doc) ==> member(r, "next_byte"@) == Some(JsonModel::Unsigned(end))
                && member(r, "next_offset"@) == Some(
                JsonModel::Unsigned(
                    sum64(
                        (match unsigned_member(doc, "start_line"@) {
                            Some(line) => line,
                            None => 1,
                        }) as int,
                        newlines(kept) as int,
                    ),
                ),
            )
        },
{
    retrieval_keys_distinct();
    let cut = with_member(doc, "text"@, JsonModel::Text(kept));
    with_member_ordered(doc, "text"@, JsonModel::Text(kept));
    if let Some(s) = start {
        let end = sum64(s as int, utf8_len(kept) as int);
        let a = with_member(cut, "end_byte"@, JsonModel::Unsigned(end));
        with_member_ordered(cut, "end_byte"@, JsonModel::Unsigned(end));
        let ended = with_member(a, "complete"@, JsonModel::Bool(false));
        with_member_ordered(a, "complete"@, JsonModel::Bool(false));
        assert(is_line_mode(ended) == is_line_mode(doc));
        assert(unsigned_member(ended, "start_line"@) == unsigned_member(doc, "start_line"@));
        if is_line_mode(ended) {
            let start_line = match unsigned_member(ended, "start_line"@) {
                Some(line) => line,
                None => 1,
            };
            let next = JsonModel::Unsigned(sum64(start_line as int, newlines(kept) as int));
            let b = with_member(ended, "next_offset"@, next);
            with_member_ordered(ended, "next_offset"@, next);
            let c = with_member(b, "next_byte"@, JsonModel::Unsigned(end));
            with_member_ordered(b, "next_byte"@, JsonModel::Unsigned(end));
            let has_next = match member(cut, "next_offset"@) {
                Some(JsonModel::Null) => false,
                Some(_) => true,
                None => false,
            };
            with_member_ordered(
                c,
                "line_continuation"@,
                JsonModel::Bool(has_next && !(kept.len() > 0 && kept.last() == '\n')),
            );
        } else {
            with_member_ordered(ended, "next_offset"@, JsonModel::Unsigned(end));
        }
    }
}

/// What cutting the base64 bytes changes.
proof fn with_bytes_keeps(doc: Members, kept: Seq<char>, count: nat)
    requires
        keys_increase(doc),
    ensures
        keys_increase(with_bytes(doc, kept, count)),
        own_members(doc) ==> own_members(with_bytes(doc, kept, count)),
        member(with_bytes(doc, kept, count), "bytes_base64"@) == Some(JsonModel::Text(kept)),
        forall|key: Seq<char>|
            key != "bytes_base64"@ && key != "end_byte"@ && key != "complete"@ && key
                != "next_offset"@ ==> #[trigger] member(with_bytes(doc, kept, count), key)
                == member(doc, key),
        unsigned_member(doc, "start_byte"@) matches Some(s) ==> member(
            with_bytes(doc, kept, count),
            "next_offset"@,
        ) == Some(JsonModel::Unsigned(sum64(s as int, count as int))) && member(
            with_bytes(doc, kept, count),
            "end_byte"@,
        ) == Some(JsonModel::Unsigned(sum64(s as int, count as int))),
{
    retrieval_keys_distinct();
    let cut = with_member(doc, "bytes_base64"@, JsonModel::Text(kept));
    with_member_ordered(doc, "bytes_base64"@, JsonModel::Text(kept));
    assert(unsigned_member(cut, "start_byte"@) == unsigned_member(doc, "start_byte"@));
    if let Some(start) = unsigned_member(cut, "start_byte"@) {
        let end = sum64(start as int, count as int);
        let a = with_member(cut, "end_byte"@, JsonModel::Unsigned(end));
        with_member_ordered(cut, "end_byte"@, JsonModel::Unsigned(end));
        let b = with_member(a, "complete"@, JsonModel::Bool(false));
        with_member_ordered(a, "complete"@, JsonModel::Bool(false));
        with_member_ordered(b, "next_offset"@, JsonModel::Unsigned(end));
    }
}

/// What dropping the last match changes.
proof fn without_match_keeps(doc: Members, offsets: Seq<u64>)
    requires
        keys_increase(doc),
        offsets.len() > 0,
    ensures
        ({
            let r = with_member(
                with_member(
                    with_member(doc, "byte_offsets"@, JsonModel::Offsets(offsets.drop_last())),
                    "next_offset"@,
                    JsonModel::Unsigned(offsets.last()),
                ),
                "complete"@,
                JsonModel::Bool(false),
            );
            &&& keys_increase(r)
            &&& own_members(doc) ==> own_members(r)
            &&& member(r, "byte_offsets"@) == Some(JsonModel::Offsets(offsets.drop_last()))
            &&& member(r, "next_offset"@) == Some(JsonModel::Unsigned(offsets.last()))
            &&& forall|key: Seq<char>|
                key != "byte_offsets"@ && key != "next_offset"@ && key != "complete"@
                    ==> #[trigger] member(r, key) == member(doc, key)
        }),
{
    retrieval_keys_distinct();
    let a = with_member(doc, "byte_offsets"@, JsonModel::Offsets(offsets.drop_last()));
    with_member_ordered(doc, "byte_offsets"@, JsonModel::Offsets(offsets.drop_last()));
    let b = with_member(a, "next_offset"@, JsonModel::Unsigned(offsets.last()));
    with_member_ordered(a, "next_offset"@, JsonModel::Unsigned(offsets.last()));
    with_member_ordered(b, "complete"@, JsonModel::Bool(false));
}

/// Every further step works on a smaller document with ordered keys.
proof fn bound_step_shrinks(doc: Members, max: int)
    requires
        keys_increase(doc),
    ensures
        bound_step(doc, max) matches BoundStep::Again(smaller) ==> keys_increase(smaller)
            && document_size(smaller) < document_size(doc),
{
    reveal(bound_step);
    retrieval_keys_distinct();
    let small = compacted(doc, max);
    compacted_keeps(doc, max);
    let excess = utf8_len(object_text(small)) - max;
    if utf8_len(object_text(doc)) > max && excess > 0 {
        if let Some(text) = text_member(small, "text"@) {
            let kept = kept_chars(text, excess);
            chars_reaching_first(text, utf8_len(text) - (excess + 8));
            if text.len() == 0 {
                without_member_ordered(small, "text"@);
            } else {
                with_text_keeps(
                    small,
                    unsigned_member(doc, "start_byte"@),
                    text.take(kept as int),
                );
            }
        } else if let Some(encoded) = text_member(small, "bytes_base64"@) {
            let target = kept_groups(encoded, excess) * 4;
            let kept = prefix_within(encoded, target);
            prefix_within_longest(encoded, target);
            if encoded.len() == 0 {
                without_member_ordered(small, "bytes_base64"@);
            } else if let Some(bytes) = base64_decoded(kept) {
                if utf8_len(kept) == target && kept.len() == encoded.len() {
                    assert(kept =~= encoded);
                }
                with_bytes_keeps(small, kept, bytes.len());
            }
        } else if let Some(JsonModel::Offsets(offsets)) = member(small, "byte_offsets"@) {
            if offsets.len() > 0 {
                without_match_keeps(small, offsets);
            }
        }
    }
}

/// Whether `small` is what is left of `doc` after cutting it to `max` bytes.
///
/// Members that neither describe the window nor hold its content are untouched. The text, the
/// base64 bytes and the matches are prefixes of those of `doc`. Where content was cut from a
/// document that says where it starts, some content is left, and the cursor points at the first
/// byte, line or match that is missing, which is also where the document says that its content
/// ends; line windows keep this only where `max` leaves room for their byte range.
pub open spec fn is_cut_of(doc: Members, small: Members, max: int) -> bool {
    &&& keys_increase(small)
    &&& own_members(doc) ==> own_members(small)
    &&& forall|key: Seq<char>|
        key != "mode"@ && key != "complete"@ && key != "scan_continues"@ && key != "start_byte"@
            && key != "end_byte"@ && key != "text"@ && key != "bytes_base64"@ && key
            != "byte_offsets"@ && key != "next_offset"@ && key != "next_byte"@ && key
            != "line_continuation"@ ==> #[trigger] member(small, key) == member(doc, key)
    &&& text_member(small, "text"@) matches Some(kept) ==> {
        &&& text_member(doc, "text"@) matches Some(text) && kept.len() <= text.len() && kept
            == text.take(kept.len() as int)
        &&& (kept != text_member(doc, "text"@)->0 && unsigned_member(doc, "start_byte"@) is Some)
            ==> ({
            let start = unsigned_member(doc, "start_byte"@)->0;
            let end = sum64(start as int, utf8_len(kept) as int);
            &&& kept.len() > 0
            &&& !is_line_mode(doc) ==> unsigned_member(small, "next_offset"@) == Some(end)
                && unsigned_member(small, "end_byte"@) == Some(end)
            &&& (is_line_mode(doc) && max >= 256) ==> unsigned_member(small, "next_byte"@) == Some(
                end,
            ) && unsigned_member(small, "end_byte"@) == Some(end) && unsigned_member(small, "next_offset"@) == Some(
                sum64(
                    (match unsigned_member(doc, "start_line"@) {
                        Some(line) => line,
                        None => 1,
                    }) as int,
                    newlines(kept) as int,
                ),
            )
        })
    }
    &&& (member(doc, "text"@) is None && text_member(small, "bytes_base64"@) is Some) ==> {
        let kept = text_member(small, "bytes_base64"@)->0;
        &&& text_member(doc, "bytes_base64"@) matches Some(all) && kept.len() <= all.len() && kept
            == all.take(kept.len() as int)
        &&& (kept != text_member(doc, "bytes_base64"@)->0 && !is_line_mode(doc) && unsigned_member(
            doc,
            "start_byte"@,
        ) is Some) ==> (base64_decoded(kept) matches Some(bytes) && bytes.len() > 0 && ({
            let end = sum64(unsigned_member(doc, "start_byte"@)->0 as int, bytes.len() as int);
            unsigned_member(small, "next_offset"@) == Some(end) && unsigned_member(
                small,
                "end_byte"@,
            ) == Some(end)
        }))
    }
    &&& (member(doc, "text"@) is None && member(doc, "bytes_base64"@) is None) ==> (member(
        doc,
        "byte_offsets"@,
    ) matches Some(JsonModel::Offsets(all)) ==> (member(small, "byte_offsets"@) matches Some(
        JsonModel::Offsets(kept),
    ) && kept.len() <= all.len() && kept == all.take(kept.len() as int) && (kept.len() < all.len()
        ==> unsigned_member(small, "next_offset"@) == Some(all[kept.len() as int]))))
}

/// What has been kept so far, while a document is being cut.
spec fn cutting(doc: Members, now: Members, max: int) -> bool {
    &&& is_cut_of(doc, now, max)
    &&& member(doc, "text"@) is None ==> member(now, "text"@) is None
    &&& member(doc, "bytes_base64"@) is None ==> member(now, "bytes_base64"@) is None
    &&& !is_line_mode(doc) ==> member(now, "start_byte"@) == member(doc, "start_byte"@)
        && !is_line_mode(now)
    &&& (is_line_mode(doc) && max >= 256) ==> member(now, "start_byte"@) == member(
        doc,
        "start_byte"@,
    ) && is_line_mode(now)
}

proof fn compacted_is_cut(doc: Members, now: Members, max: int)
    requires
        cutting(doc, now, max),
    ensures
        cutting(doc, compacted(now, max), max),
{
    retrieval_keys_distinct();
    compacted_keeps(now, max);
    let small = compacted(now, max);
    assert(member(small, "text"@) == member(now, "text"@));
    assert(member(small, "bytes_base64"@) == member(now, "bytes_base64"@));
    assert(member(small, "byte_offsets"@) == member(now, "byte_offsets"@));
    assert(member(small, "next_offset"@) == member(now, "next_offset"@));
    assert(member(small, "next_byte"@) == member(now, "next_byte"@));
}

proof fn step_is_cut(doc: Members, now: Members, max: int)
    requires
        cutting(doc, now, max),
        keys_increase(doc),
        max >= 0,
    ensures
        match bound_step(now, max) {
            BoundStep::Done(text) => utf8_len(text) <= max && (text == structured_error(max)
                || exists|small: Members|
                #[trigger] is_cut_of(doc, small, max) && text == object_text(small)),
            BoundStep::Again(smaller) => cutting(doc, smaller, max),
        },
{
    reveal(bound_step);
    retrieval_keys_distinct();
    structured_error_fits(max);
    let small = compacted(now, max);
    compacted_keeps(now, max);
    compacted_is_cut(doc, now, max);
    let excess = utf8_len(object_text(small)) - max;
    if utf8_len(object_text(now)) <= max {
        assert(is_cut_of(doc, now, max));
    } else if excess <= 0 {
        assert(is_cut_of(doc, small, max));
    } else if let Some(text) = text_member(small, "text"@) {
        let kept = kept_chars(text, excess);
        chars_reaching_first(text, utf8_len(text) - (excess + 8));
        let start = unsigned_member(now, "start_byte"@);
        if text.len() == 0 {
            without_member_ordered(small, "text"@);
            let r = without_member(small, "text"@);
            assert(member(r, "bytes_base64"@) == member(small, "bytes_base64"@));
            assert(member(r, "byte_offsets"@) == member(small, "byte_offsets"@));
            assert(member(r, "next_offset"@) == member(small, "next_offset"@));
            assert(member(r, "start_byte"@) == member(small, "start_byte"@));
            assert(member(r, "end_byte"@) == member(small, "end_byte"@));
            assert(member(r, "mode"@) == member(small, "mode"@));
            assert(cutting(doc, r, max));
        } else if kept != 0 && kept != text.len() {
            let part = text.take(kept as int);
            with_text_keeps(small, start, part);
            let r = with_text(small, start, part);
            let all = text_member(doc, "text"@)->0;
            assert(part =~= all.take(part.len() as int));
            assert(member(r, "bytes_base64"@) == member(small, "bytes_base64"@));
            assert(member(r, "byte_offsets"@) == member(small, "byte_offsets"@));
            assert(member(r, "start_byte"@) == member(small, "start_byte"@));
            assert(member(r, "mode"@) == member(small, "mode"@));
            assert(member(small, "start_line"@) == member(doc, "start_line"@));
            assert(cutting(doc, r, max));
        }
    } else if let Some(encoded) = text_member(small, "bytes_base64"@) {
        let target = kept_groups(encoded, excess) * 4;
        let kept = prefix_within(encoded, target);
        prefix_within_longest(encoded, target);
        if encoded.len() == 0 {
            without_member_ordered(small, "bytes_base64"@);
            let r = without_member(small, "bytes_base64"@);
            assert(member(r, "text"@) == member(small, "text"@));
            assert(member(r, "byte_offsets"@) == member(small, "byte_offsets"@));
            assert(member(r, "next_offset"@) == member(small, "next_offset"@));
            assert(member(r, "next_byte"@) == member(small, "next_byte"@));
            assert(member(r, "start_byte"@) == member(small, "start_byte"@));
            assert(member(r, "end_byte"@) == member(small, "end_byte"@));
            assert(member(r, "mode"@) == member(small, "mode"@));
            assert(cutting(doc, r, max));
        } else if target != 0 && utf8_len(kept) == target {
            if let Some(bytes) = base64_decoded(kept) {
                if bytes.len() > 0 {
                    with_bytes_keeps(small, kept, bytes.len());
                    let r = with_bytes(small, kept, bytes.len());
                    if member(doc, "text"@) is None {
                        let all = text_member(doc, "bytes_base64"@)->0;
                        assert(kept =~= all.take(kept.len() as int));
                    }
                    assert(member(r, "text"@) == member(small, "text"@));
                    assert(member(r, "byte_offsets"@) == member(small, "byte_offsets"@));
                    assert(member(r, "start_byte"@) == member(small, "start_byte"@));
                    assert(member(r, "mode"@) == member(small, "mode"@));
                    assert(cutting(doc, r, max));
                }
            }
        }
    } else if let Some(JsonModel::Offsets(offsets)) = member(small, "byte_offsets"@) {
        if offsets.len() > 0 {
            without_match_keeps(small, offsets);
            let r = with_member(
                with_member(
                    with_member(small, "byte_offsets"@, JsonModel::Offsets(offsets.drop_last())),
                    "next_offset"@,
                    JsonModel::Unsigned(offsets.last()),
                ),
                "complete"@,
                JsonModel::Bool(false),
            );
            if member(doc, "text"@) is None && member(doc, "bytes_base64"@) is None {
                if let Some(JsonModel::Offsets(all)) = member(doc, "byte_offsets"@) {
                    assert(offsets.drop_last() =~= all.take(offsets.len() - 1));
                }
            }
            assert(member(r, "text"@) == member(small, "text"@));
            assert(member(r, "bytes_base64"@) == member(small, "bytes_base64"@));
            assert(member(r, "start_byte"@) == member(small, "start_byte"@));
            assert(member(r, "end_byte"@) == member(small, "end_byte"@));
            assert(member(r, "mode"@) == member(small, "mode"@));
            assert(cutting(doc, r, max));
        }
    }
}

proof fn cutting_ends(doc: Members, now: Members, max: int)
    requires
        cutting(doc, now, max),
        keys_increase(doc),
        max >= 0,
    ensures
        utf8_len(bounded_document(now, max)) <= max,
        bounded_document(now, max) == structured_error(max) || exists|small: Members|
            #[trigger] is_cut_of(doc, small, max) && bounded_document(now, max) == object_text(
                small,
            ),
    decreases document_size(now),
{
    step_is_cut(doc, now, max);
    bound_step_shrinks(now, max);
    structured_error_fits(max);
    if let BoundStep::Again(smaller) = bound_step(now, max) {
        cutting_ends(doc, smaller, max);
    }
}

/// A retrieval document that is cut to a budget fits it, and is either the structured error or a
/// document with the same identity whose cursor points at the first content that is missing.
pub proof fn bounded_document_is_cut(doc: Members, max: int)
    requires
        keys_increase(doc),
        max >= 0,
    ensures
        utf8_len(bounded_document(doc, max)) <= max,
        bounded_document(doc, max) == structured_error(max) || exists|small: Members|
            #[trigger] is_cut_of(doc, small, max) && bounded_document(doc, max) == object_text(
                small,
            ),
{
    if let Some(text) = text_member(doc, "text"@) {
        assert(text.take(text.len() as int) =~= text);
    }
    if let Some(text) = text_member(doc, "bytes_base64"@) {
        assert(text.take(text.len() as int) =~= text);
    }
    if let Some(JsonModel::Offsets(all)) = member(doc, "byte_offsets"@) {
        assert(all.take(all.len() as int) =~= all);
    }
    assert(cutting(doc, doc, max));
    cutting_ends(doc, doc, max);
}

/// A document that fits its budget is rendered unchanged.
pub proof fn fitting_document_unchanged(doc: Members, max: int)
    requires
        keys_increase(doc),
        utf8_len(object_text(doc)) <= max,
    ensures
        bounded_document(doc, max) == object_text(doc),
{
    reveal(bound_step);
}

/// Whether a document describes lines.
fn line_mode(value: &JsonObject) -> (r: bool)
    ensures
        r == is_line_mode(value@),
{
    match value.get_text("mode") {
        Some(mode) => same_text(mode, "lines"),
        None => false,
    }
}

/// Whether a document continues a line scan and has no text.
fn empty_scan(value: &JsonObject) -> (r: bool)
    ensures
        r == is_empty_scan(value@),
{
    let continues = match value.get("scan_continues") {
        Some(JsonValue::Bool(continues)) => *continues,
        _ => false,
    };
    let no_text = match value.get_text("text") {
        Some(text) => same_text(text, ""),
        None => false,
    };
    line_mode(value) && continues && no_text
}

/// Drops the descriptive members that a small budget has no room for.
fn compact(value: &mut JsonObject, max_bytes: usize)
    ensures
        final(value)@ == compacted(old(value)@, max_bytes as int),
{
    if max_bytes >= 256 {
        return;
    }
    if empty_scan(value) {
        value.remove("mode");
        value.remove("complete");
        value.remove("scan_continues");
        value.remove("start_byte");
        value.remove("end_byte");
    } else if line_mode(value) {
        value.remove("start_byte");
        value.remove("end_byte");
        value.remove("complete");
        value.remove("scan_continues");
    } else {
        value.remove("mode");
        value.remove("complete");
        value.remove("scan_continues");
    }
}

/// The number of line ends in a text.
pub fn count_newlines(text: &str) -> (r: usize)
    ensures
        r == newlines(text@),
{
    let chars = chars_of(text);
    let mut count: usize = 0;
    let mut i: usize = 0;
    while i < chars.len()
        invariant
            i <= chars@.len(),
            count == newlines(chars@.take(i as int)),
            count <= i,
        decreases chars@.len() - i,
    {
        proof {
            assert(chars@.take(i + 1).drop_last() =~= chars@.take(i as int));
        }
        if chars[i] == '\n' {
            count += 1;
        }
        i += 1;
    }
    proof {
        assert(chars@.take(i as int) =~= chars@);
    }
    count
}

/// Whether a text ends with a line end.
pub fn ends_with_newline(text: &str) -> (r: bool)
    ensures
        r == (text@.len() > 0 && text@.last() == '\n'),
{
    let chars = chars_of(text);
    chars.len() > 0 && chars[chars.len() - 1] == '\n'
}

/// Cuts the text of a document to `kept`.
fn cut_text(value: &mut JsonObject, start: Option<u64>, kept: &str)
    ensures
        final(value)@ == with_text(old(value)@, start, kept@),
{
    value.set_text("text", kept);
    if let Some(start_byte) = start {
        let has_next = match value.get("next_offset") {
            Some(JsonValue::Null) => false,
            Some(_) => true,
            None => false,
        };
        let end: u64 = start_byte.saturating_add(byte_len(kept) as u64);
        value.set("end_byte", JsonValue::Unsigned(end));
        value.set("complete", JsonValue::Bool(false));
        if line_mode(value) {
            let completed: usize = count_newlines(kept);
            let start_line: u64 = match value.get_unsigned("start_line") {
                Some(line) => line,
                None => 1,
            };
            value.set(
                "next_offset",
                JsonValue::Unsigned(start_line.saturating_add(completed as u64)),
            );
            value.set("next_byte", JsonValue::Unsigned(end));
            value.set("line_continuation", JsonValue::Bool(has_next && !ends_with_newline(kept)));
        } else {
            value.set("next_offset", JsonValue::Unsigned(end));
        }
    }
}

/// Cuts the base64 bytes of a document to `kept`.
fn cut_bytes(value: &mut JsonObject, kept: &str, count: usize)
    ensures
        final(value)@ == with_bytes(old(value)@, kept@, count as nat),
{
    value.set_text("bytes_base64", kept);
    if let Some(start_byte) = value.get_unsigned("start_byte") {
        let end: u64 = start_byte.saturating_add(count as u64);
        value.set("end_byte", JsonValue::Unsigned(end));
        value.set("complete", JsonValue::Bool(false));
        value.set("next_offset", JsonValue::Unsigned(end));
    }
}

/// Takes one step of cutting: the final text, or nothing when a smaller document is to be tried.
fn take_step(value: &mut JsonObject, max_bytes: usize) -> (r: Option<String>)
    ensures
        match bound_step(old(value)@, max_bytes as int) {
            BoundStep::Done(text) => r matches Some(rendered) && rendered@ == text,
            BoundStep::Again(smaller) => r is None && final(value)@ == smaller,
        },
{
    proof {
        reveal(bound_step);
    }
    let rendered = value.to_text();
    if byte_len(rendered.as_str()) <= max_bytes {
        return Some(rendered);
    }
    let start: Option<u64> = value.get_unsigned("start_byte");
    compact(value, max_bytes);
    let small = value.to_text();
    let small_len: usize = byte_len(small.as_str());
    if small_len <= max_bytes {
        return Some(small);
    }
    let excess: usize = small_len - max_bytes;
    let text: Option<String> = match value.get_text("text") {
        Some(text) => Some(text.to_owned()),
        None => None,
    };
    if let Some(text) = text {
        let chars = chars_of(text.as_str());
        if chars.len() == 0 {
            value.remove("text");
            return None;
        }
        let target: usize = byte_len(text.as_str()).saturating_sub(excess.saturating_add(8));
        let kept: usize = count_reaching(&chars, target);
        if kept == 0 || kept == chars.len() {
            return Some(bounded_structured_error(max_bytes));
        }
        let part = text_of(&chars, 0, kept);
        proof {
            assert(text@.subrange(0, kept as int) =~= text@.take(kept as int));
        }
        cut_text(value, start, part.as_str());
        return None;
    }
    let encoded: Option<String> = match value.get_text("bytes_base64") {
        Some(encoded) => Some(encoded.to_owned()),
        None => None,
    };
    if let Some(encoded) = encoded {
        let encoded_len: usize = byte_len(encoded.as_str());
        proof {
            utf8_len_bounds(encoded@);
        }
        if encoded_len == 0 {
            value.remove("bytes_base64");
            return None;
        }
        let target: usize = encoded_len.saturating_sub(excess.saturating_add(8)) / 4 * 4;
        let part = take_bytes_at_char_boundary(encoded.as_str(), target);
        if target == 0 || byte_len(part.as_str()) != target {
            return Some(bounded_structured_error(max_bytes));
        }
        match decode_base64(part.as_str()) {
            Some(bytes) => {
                if bytes.len() == 0 {
                    return Some(bounded_structured_error(max_bytes));
                }
                cut_bytes(value, part.as_str(), bytes.len());
                return None;
            },
            None => {
                return Some(bounded_structured_error(max_bytes));
            },
        }
    }
    let last: Option<(Vec<u64>, u64)> = match value.get("byte_offsets") {
        Some(JsonValue::Offsets(offsets)) => without_last(offsets),
        _ => None,
    };
    match last {
        Some((offsets, next)) => {
            value.set("byte_offsets", JsonValue::Offsets(offsets));
            value.set("next_offset", JsonValue::Unsigned(next));
            value.set("complete", JsonValue::Bool(false));
            None
        },
        None => Some(bounded_structured_error(max_bytes)),
    }
}

/// A list without its last element, and that element.
fn without_last(list: &Vec<u64>) -> (r: Option<(Vec<u64>, u64)>)
    ensures
        r is Some == (list@.len() > 0),
        r matches Some((front, last)) ==> front@ == list@.drop_last() && last == list@.last(),
{
    if list.len() == 0 {
        return None;
    }
    let mut front: Vec<u64> = Vec::new();
    let mut i: usize = 0;
    while i < list.len() - 1
        invariant
            i < list@.len(),
            front@ == list@.take(i as int),
        decreases list@.len() - i,
    {
        proof {
            assert(list@.take(i + 1) =~= list@.take(i as int).push(list@[i as int]));
        }
        front.push(list[i]);
        i += 1;
    }
    proof {
        assert(list@.take(i as int) =~= list@.drop_last());
    }
    Some((front, list[list.len() - 1]))
}

/// The text of a retrieval document, cut to `max_bytes` without slicing its JSON.
pub fn bounded_result(document: JsonObject, max_bytes: usize) -> (r: String)
    ensures
        r@ == bounded_document(document@, max_bytes as int),
        utf8_len(r@) <= max_bytes,
{
    proof {
        use_type_invariant(&document);
        bounded_document_is_cut(document@, max_bytes as int);
    }
    let ghost doc = document@;
    let mut value = document;
    loop
        invariant
            doc == document@,
            keys_increase(doc),
            keys_increase(value@),
            bounded_document(value@, max_bytes as int) == bounded_document(doc, max_bytes as int),
            utf8_len(bounded_document(doc, max_bytes as int)) <= max_bytes,
        decreases document_size(value@),
    {
        proof {
            bound_step_shrinks(value@, max_bytes as int);
        }
        match take_step(&mut value, max_bytes) {
            Some(rendered) => {
                return rendered;
            },
            None => {},
        }
    }
}

} // verus!
