//! Bounded tool outputs: what of an output the model sees, and how the rest stays recoverable.

use vstd::prelude::*;
use vstd::string::*;

use crate::artifact_id::OutputArtifactId;
use crate::json::{
    carried_members, carries_back, is_carried, json_members, json_string, keys_increase, member,
    members_text, object_text, own_members, own_value_is_found, plain_text_is_kept,
    read_members_are_carried, reread_keeps, reread_members, text_member, with_member,
    with_member_is_carried, with_member_ordered, JsonModel, JsonObject, Members,
};
use crate::numbers::decimal;
use crate::protocol::{
    item_models, BodyModel, FunctionCallOutputBody, FunctionCallOutputContentItem,
    FunctionCallOutputPayload, ItemModel, PayloadModel,
};
use crate::read_tool_output::{control_artifact, control_type, reads_back};
use crate::text::{byte_len, encode_empty, same_text, text_less, utf8_len};

verus! {

/// Smallest practical model-facing budget that can carry a recoverable artifact window.
pub const MIN_ARTIFACT_ENVELOPE_BYTES: usize = 200;

/// Independent ceiling for a single managed output item entering model context.
pub const MAX_MANAGED_ARTIFACT_MODEL_BYTES: usize = 8192;

/// Aggregate budget for one content-item output after modality-specific accounting.
pub const MAX_CONTENT_ITEMS_MODEL_BYTES: usize = 8192;

/// Independent serialized-size ceiling for one content-item response.
pub const MAX_CONTENT_ITEMS_SERIALIZED_BYTES: usize = 131072;

/// Room reserved for the surrounding item when a managed content-item control is fitted.
pub const MODEL_ITEM_CONTROL_RESERVATION_BYTES: usize = 128;

/// The most detailed structured error that takes at most `max` bytes.
pub open spec fn structured_error(max: int) -> Seq<char> {
    if utf8_len(
        "{\"error\":\"tool output exceeded the active model output policy\",\"type\":\"tool_output_error\",\"version\":1}"@,
    ) <= max {
        "{\"error\":\"tool output exceeded the active model output policy\",\"type\":\"tool_output_error\",\"version\":1}"@
    } else if utf8_len("{\"type\":\"tool_output_error\",\"version\":1}"@) <= max {
        "{\"type\":\"tool_output_error\",\"version\":1}"@
    } else if utf8_len("{\"type\":\"tool_output_error\"}"@) <= max {
        "{\"type\":\"tool_output_error\"}"@
    } else if utf8_len("{\"type\":\"error\"}"@) <= max {
        "{\"type\":\"error\"}"@
    } else if utf8_len("{}"@) <= max {
        "{}"@
    } else if utf8_len("0"@) <= max {
        "0"@
    } else {
        ""@
    }
}

/// The most detailed structured error that takes at most `max_bytes` bytes.
pub fn bounded_structured_error(max_bytes: usize) -> (r: String)
    ensures
        r@ == structured_error(max_bytes as int),
        utf8_len(r@) <= max_bytes,
{
    proof {
        structured_error_fits(max_bytes as int);
    }
    let full = "{\"error\":\"tool output exceeded the active model output policy\",\"type\":\"tool_output_error\",\"version\":1}";
    if byte_len(full) <= max_bytes {
        return full.to_owned();
    }
    let versioned = "{\"type\":\"tool_output_error\",\"version\":1}";
    if byte_len(versioned) <= max_bytes {
        return versioned.to_owned();
    }
    let typed = "{\"type\":\"tool_output_error\"}";
    if byte_len(typed) <= max_bytes {
        return typed.to_owned();
    }
    let short = "{\"type\":\"error\"}";
    if byte_len(short) <= max_bytes {
        return short.to_owned();
    }
    if byte_len("{}") <= max_bytes {
        return "{}".to_owned();
    }
    if byte_len("0") <= max_bytes {
        return "0".to_owned();
    }
    "".to_owned()
}

/// A structured error never exceeds its limit.
pub proof fn structured_error_fits(max: int)
    requires
        max >= 0,
    ensures
        utf8_len(structured_error(max)) <= max,
{
    reveal_strlit("");
    assert(""@ =~= Seq::<char>::empty());
    encode_empty();
}

/// The sizes of the structured errors.
proof fn structured_error_sizes()
    ensures
        utf8_len(
            "{\"error\":\"tool output exceeded the active model output policy\",\"type\":\"tool_output_error\",\"version\":1}"@,
        ) == 102,
        utf8_len("{\"type\":\"tool_output_error\",\"version\":1}"@) == 40,
        utf8_len("{\"type\":\"tool_output_error\"}"@) == 28,
        utf8_len("{\"type\":\"error\"}"@) == 16,
        utf8_len("{}"@) == 2,
        utf8_len("0"@) == 1,
        utf8_len(""@) == 0,
{
    reveal_strlit("{\"error\":\"tool output exceeded the active model output policy\",\"type\":\"tool_output_error\",\"version\":1}");
    reveal_strlit("{\"type\":\"tool_output_error\",\"version\":1}");
    reveal_strlit("{\"type\":\"tool_output_error\"}");
    reveal_strlit("{\"type\":\"error\"}");
    reveal_strlit("{}");
    reveal_strlit("0");
    reveal_strlit("");
    vstd::utf8::is_ascii_chars_encode_utf8(
        "{\"error\":\"tool output exceeded the active model output policy\",\"type\":\"tool_output_error\",\"version\":1}"@,
    );
    vstd::utf8::is_ascii_chars_encode_utf8("{\"type\":\"tool_output_error\",\"version\":1}"@);
    vstd::utf8::is_ascii_chars_encode_utf8("{\"type\":\"tool_output_error\"}"@);
    vstd::utf8::is_ascii_chars_encode_utf8("{\"type\":\"error\"}"@);
    vstd::utf8::is_ascii_chars_encode_utf8("{}"@);
    vstd::utf8::is_ascii_chars_encode_utf8("0"@);
    vstd::utf8::is_ascii_chars_encode_utf8(""@);
}

/// A larger limit never gives a shorter structured error.
pub proof fn structured_error_grows(a: int, b: int)
    requires
        a <= b,
    ensures
        utf8_len(structured_error(a)) <= utf8_len(structured_error(b)),
{
    structured_error_sizes();
}

/// The members of a structured error that takes at most `max` bytes, where it is an object.
pub open spec fn error_members(max: int) -> Members {
    if max >= 102 {
        seq![
            (
                "error"@,
                JsonModel::Text("tool output exceeded the active model output policy"@),
            ),
            ("type"@, JsonModel::Text("tool_output_error"@)),
            ("version"@, JsonModel::Unsigned(1)),
        ]
    } else if max >= 40 {
        seq![
            ("type"@, JsonModel::Text("tool_output_error"@)),
            ("version"@, JsonModel::Unsigned(1)),
        ]
    } else if max >= 28 {
        seq![("type"@, JsonModel::Text("tool_output_error"@))]
    } else if max >= 16 {
        seq![("type"@, JsonModel::Text("error"@))]
    } else {
        seq![]
    }
}

proof fn error_keys_ordered()
    ensures
        text_less("error"@, "type"@),
        text_less("error"@, "version"@),
        text_less("type"@, "version"@),
{
    reveal_strlit("error");
    reveal_strlit("type");
    reveal_strlit("version");
    vstd::utf8::is_ascii_chars_encode_utf8("error"@);
    vstd::utf8::is_ascii_chars_encode_utf8("type"@);
    vstd::utf8::is_ascii_chars_encode_utf8("version"@);
    assert("error"@[0] == 'e' && "type"@[0] == 't' && "version"@[0] == 'v');
}

/// The texts of the members of the structured errors.
proof fn error_texts()
    ensures
        json_string("error"@) == "\"error\""@,
        json_string("type"@) == "\"type\""@,
        json_string("version"@) == "\"version\""@,
        json_string("tool_output_error"@) == "\"tool_output_error\""@,
        json_string("tool output exceeded the active model output policy"@)
            == "\"tool output exceeded the active model output policy\""@,
        decimal(1) == "1"@,
{
    reveal_strlit("error");
    reveal_strlit("\"error\"");
    reveal_strlit("type");
    reveal_strlit("\"type\"");
    reveal_strlit("version");
    reveal_strlit("\"version\"");
    reveal_strlit("tool_output_error");
    reveal_strlit("\"tool_output_error\"");
    reveal_strlit("tool output exceeded the active model output policy");
    reveal_strlit("\"tool output exceeded the active model output policy\"");
    reveal_strlit("1");
    plain_text_is_kept("error"@);
    plain_text_is_kept("type"@);
    plain_text_is_kept("version"@);
    plain_text_is_kept("tool_output_error"@);
    plain_text_is_kept("tool output exceeded the active model output policy"@);
    assert(json_string("error"@) =~= "\"error\""@);
    assert(json_string("type"@) =~= "\"type\""@);
    assert(json_string("version"@) =~= "\"version\""@);
    assert(json_string("tool_output_error"@) =~= "\"tool_output_error\""@);
    assert(json_string("tool output exceeded the active model output policy"@)
        =~= "\"tool output exceeded the active model output policy\""@);
    assert(decimal(1) =~= "1"@);
}

/// Two bytes or more carry a structured error that is a JSON object, and one byte the number
/// zero.
pub proof fn structured_error_is_json(max: int)
    requires
        max >= 1,
    ensures
        max >= 2 ==> structured_error(max) == object_text(error_members(max)) && keys_increase(
            error_members(max),
        ) && own_members(error_members(max)),
        max >= 2 && reads_back(structured_error(max)) ==> json_members(structured_error(max))
            == Some(error_members(max)),
        max == 1 ==> structured_error(max) == "0"@,
{
    structured_error_sizes();
    if max >= 2 {
        error_keys_ordered();
        error_object(max);
        assert(reread_members(error_members(max)) =~= error_members(max));
    }
}

proof fn error_object(max: int)
    requires
        max >= 2,
    ensures
        structured_error(max) == object_text(error_members(max)),
{
    structured_error_sizes();
    error_texts();
    reveal_with_fuel(members_text, 4);
    reveal_strlit("\"error\"");
    reveal_strlit("\"type\"");
    reveal_strlit("\"version\"");
    reveal_strlit("\"tool_output_error\"");
    reveal_strlit("\"tool output exceeded the active model output policy\"");
    reveal_strlit("1");
    reveal_strlit("{\"error\":\"tool output exceeded the active model output policy\",\"type\":\"tool_output_error\",\"version\":1}");
    reveal_strlit("{\"type\":\"tool_output_error\",\"version\":1}");
    reveal_strlit("{\"type\":\"tool_output_error\"}");
    reveal_strlit("{\"type\":\"error\"}");
    reveal_strlit("{}");
    let members = error_members(max);
    assert(members.drop_last() =~= members.take(members.len() - 1));
    assert(structured_error(max) =~= object_text(members));
}

/// The payload that stands for an output which no budget can carry.
pub open spec fn error_payload(output: PayloadModel, max: int) -> PayloadModel {
    PayloadModel {
        body: BodyModel::Text(structured_error(max)),
        success: if max == 0 {
            Some(false)
        } else {
            output.success
        },
    }
}

/// Replaces an output by one structured error. An empty error is marked as a failure.
pub fn bounded_output_payload(
    output: &FunctionCallOutputPayload,
    max_bytes: usize,
) -> (r: FunctionCallOutputPayload)
    ensures
        r@ == error_payload(output@, max_bytes as int),
{
    FunctionCallOutputPayload {
        body: FunctionCallOutputBody::Text(bounded_structured_error(max_bytes)),
        success: if max_bytes == 0 {
            Some(false)
        } else {
            output.success
        },
    }
}

/// The members of the shortest control for an artifact.
pub open spec fn handle_only(kind: Seq<char>, id: Seq<char>) -> Members {
    with_member(
        with_member(seq![], "type"@, JsonModel::Text(kind)),
        "artifact_id"@,
        JsonModel::Text(id),
    )
}

/// Copies one member, where the source has it.
pub open spec fn copied(target: Members, source: Members, key: Seq<char>) -> Members {
    match member(source, key) {
        Some(value) => with_member(target, key, value),
        None => target,
    }
}

/// What a control keeps besides its handle: the retrieval hint and the cursor.
pub open spec fn control_summary(source: Members, kind: Seq<char>, id: Seq<char>) -> Members {
    let handle = handle_only(kind, id);
    let hinted = if kind == "tool_output_artifact"@ {
        with_member(
            handle,
            "retrieval"@,
            JsonModel::Text(
                match text_member(source, "retrieval"@) {
                    Some(hint) => hint,
                    None => "Use read_tool_output with this artifact_id."@,
                },
            ),
        )
    } else {
        handle
    };
    copied(
        copied(
            copied(
                copied(
                    copied(copied(hinted, source, "mode"@), source, "start_byte"@),
                    source,
                    "start_line"@,
                ),
                source,
                "next_offset"@,
            ),
            source,
            "next_byte"@,
        ),
        source,
        "complete"@,
    )
}

/// A control cut to `max` bytes: without its content, or without all but its handle.
pub open spec fn compact_control(text: Seq<char>, max: int) -> Option<Seq<char>> {
    match control_artifact(text) {
        None => None,
        Some(id) => {
            let source = json_members(text)->0;
            let kind = text_member(source, "type"@)->0;
            let summary = object_text(control_summary(source, kind, id));
            let handle = object_text(handle_only(kind, id));
            if utf8_len(summary) <= max {
                Some(summary)
            } else if utf8_len(handle) <= max {
                Some(handle)
            } else {
                None
            }
        },
    }
}

fn copy_member(target: &mut JsonObject, source: &JsonObject, key: &str)
    ensures
        final(target)@ == copied(old(target)@, source@, key@),
{
    match source.get(key) {
        Some(value) => {
            target.set(key, value.clone());
        },
        None => {},
    }
}

/// Re-renders a trusted artifact control without its previews, so that a smaller policy does not
/// discard the recovery handle.
pub fn compact_store_backed_envelope(text: &str, max_bytes: usize) -> (r: Option<String>)
    ensures
        match r {
            Some(compact) => compact_control(text@, max_bytes as int) == Some(compact@),
            None => compact_control(text@, max_bytes as int) is None,
        },
{
    let value = match JsonObject::parse(text) {
        Some(value) => value,
        None => {
            return None;
        },
    };
    let kind = match value.get_text("type") {
        Some(kind) => kind,
        None => {
            return None;
        },
    };
    if !control_type(kind) {
        return None;
    }
    let id = match value.get_text("artifact_id") {
        Some(id) => id,
        None => {
            return None;
        },
    };
    if OutputArtifactId::parse(id).is_none() {
        return None;
    }
    let mut handle = JsonObject::new();
    handle.set_text("type", kind);
    handle.set_text("artifact_id", id);
    let mut compact = handle.clone();
    if same_text(kind, "tool_output_artifact") {
        match value.get_text("retrieval") {
            Some(hint) => {
                compact.set_text("retrieval", hint);
            },
            None => {
                compact.set_text("retrieval", "Use read_tool_output with this artifact_id.");
            },
        }
    }
    copy_member(&mut compact, &value, "mode");
    copy_member(&mut compact, &value, "start_byte");
    copy_member(&mut compact, &value, "start_line");
    copy_member(&mut compact, &value, "next_offset");
    copy_member(&mut compact, &value, "next_byte");
    copy_member(&mut compact, &value, "complete");
    let summary = compact.to_text();
    if byte_len(summary.as_str()) <= max_bytes {
        return Some(summary);
    }
    let short = handle.to_text();
    if byte_len(short.as_str()) <= max_bytes {
        return Some(short);
    }
    None
}

/// The names of the members that a control keeps are distinct.
proof fn control_keys_distinct()
    ensures
        "type"@ != "artifact_id"@,
        "type"@ != "retrieval"@,
        "type"@ != "mode"@,
        "type"@ != "start_byte"@,
        "type"@ != "start_line"@,
        "type"@ != "next_offset"@,
        "type"@ != "next_byte"@,
        "type"@ != "complete"@,
        "artifact_id"@ != "retrieval"@,
        "artifact_id"@ != "mode"@,
        "artifact_id"@ != "start_byte"@,
        "artifact_id"@ != "start_line"@,
        "artifact_id"@ != "next_offset"@,
        "artifact_id"@ != "next_byte"@,
        "artifact_id"@ != "complete"@,
{
    reveal_strlit("type");
    reveal_strlit("artifact_id");
    reveal_strlit("retrieval");
    reveal_strlit("mode");
    reveal_strlit("start_byte");
    reveal_strlit("start_line");
    reveal_strlit("next_offset");
    reveal_strlit("next_byte");
    reveal_strlit("complete");
    assert("type"@.len() == 4 && "artifact_id"@.len() == 11);
    assert("type"@[0] == 't' && "mode"@[0] == 'm');
    assert("retrieval"@.len() == 9 && "start_byte"@.len() == 10 && "start_line"@.len() == 10);
    assert("artifact_id"@[0] == 'a' && "next_offset"@[0] == 'n');
    assert("next_byte"@.len() == 9 && "complete"@.len() == 8 && "mode"@.len() == 4);
    assert("next_offset"@.len() == 11);
}

proof fn handle_members(kind: Seq<char>, id: Seq<char>)
    ensures
        keys_increase(handle_only(kind, id)),
        own_members(handle_only(kind, id)),
        text_member(handle_only(kind, id), "type"@) == Some(kind),
        text_member(handle_only(kind, id), "artifact_id"@) == Some(id),
{
    control_keys_distinct();
    let empty: Members = seq![];
    with_member_ordered(empty, "type"@, JsonModel::Text(kind));
    with_member_ordered(
        with_member(empty, "type"@, JsonModel::Text(kind)),
        "artifact_id"@,
        JsonModel::Text(id),
    );
}

proof fn copied_members(target: Members, source: Members, key: Seq<char>)
    requires
        keys_increase(target),
        key != "type"@,
        key != "artifact_id"@,
    ensures
        keys_increase(copied(target, source, key)),
        member(copied(target, source, key), "type"@) == member(target, "type"@),
        member(copied(target, source, key), "artifact_id"@) == member(target, "artifact_id"@),
{
    if let Some(value) = member(source, key) {
        with_member_ordered(target, key, value);
    }
}

proof fn summary_members(source: Members, kind: Seq<char>, id: Seq<char>)
    ensures
        keys_increase(control_summary(source, kind, id)),
        text_member(control_summary(source, kind, id), "type"@) == Some(kind),
        text_member(control_summary(source, kind, id), "artifact_id"@) == Some(id),
{
    control_keys_distinct();
    handle_members(kind, id);
    let handle = handle_only(kind, id);
    let hint = JsonModel::Text(
        match text_member(source, "retrieval"@) {
            Some(hint) => hint,
            None => "Use read_tool_output with this artifact_id."@,
        },
    );
    with_member_ordered(handle, "retrieval"@, hint);
    let a = if kind == "tool_output_artifact"@ {
        with_member(handle, "retrieval"@, hint)
    } else {
        handle
    };
    let b = copied(a, source, "mode"@);
    let c = copied(b, source, "start_byte"@);
    let d = copied(c, source, "start_line"@);
    let e = copied(d, source, "next_offset"@);
    let f = copied(e, source, "next_byte"@);
    copied_members(a, source, "mode"@);
    copied_members(b, source, "start_byte"@);
    copied_members(c, source, "start_line"@);
    copied_members(d, source, "next_offset"@);
    copied_members(e, source, "next_byte"@);
    copied_members(f, source, "complete"@);
}

/// The members of a summary are own members, or were read with the control.
proof fn copied_is_carried(target: Members, text: Seq<char>, key: Seq<char>)
    requires
        json_members(text) is Some,
        keys_increase(target),
        carried_members(target),
    ensures
        carried_members(copied(target, json_members(text)->0, key)),
{
    let source = json_members(text)->0;
    read_members_are_carried(text);
    if let Some(value) = member(source, key) {
        member_is_listed(source, key);
        let at = choose|i: int| 0 <= i < source.len() && source[i] == (key, value);
        assert(source[at].1 == value);
        with_member_is_carried(target, key, value);
    }
}

proof fn member_is_listed(members: Members, key: Seq<char>)
    requires
        member(members, key) is Some,
    ensures
        exists|i: int|
            0 <= i < members.len() && #[trigger] members[i] == (key, member(members, key)->0),
    decreases members.len(),
{
    if members[0].0 == key {
        assert(members[0] == (key, member(members, key)->0));
    } else {
        member_is_listed(members.drop_first(), key);
        let i = choose|i: int|
            0 <= i < members.drop_first().len() && #[trigger] members.drop_first()[i] == (
                key,
                member(members, key)->0,
            );
        assert(members[i + 1] == members.drop_first()[i]);
    }
}

proof fn summary_is_carried(text: Seq<char>, kind: Seq<char>, id: Seq<char>)
    requires
        json_members(text) is Some,
    ensures
        carried_members(control_summary(json_members(text)->0, kind, id)),
{
    control_keys_distinct();
    let source = json_members(text)->0;
    handle_members(kind, id);
    let handle = handle_only(kind, id);
    assert forall|i: int| 0 <= i < handle.len() implies match (#[trigger] handle[i]).1 {
        JsonModel::Raw(raw) => is_carried(raw),
        _ => true,
    } by {
        assert(!(handle[i].1 is Raw));
    }
    let hint = JsonModel::Text(
        match text_member(source, "retrieval"@) {
            Some(hint) => hint,
            None => "Use read_tool_output with this artifact_id."@,
        },
    );
    with_member_ordered(handle, "retrieval"@, hint);
    with_member_is_carried(handle, "retrieval"@, hint);
    let a = if kind == "tool_output_artifact"@ {
        with_member(handle, "retrieval"@, hint)
    } else {
        handle
    };
    let b = copied(a, source, "mode"@);
    let c = copied(b, source, "start_byte"@);
    let d = copied(c, source, "start_line"@);
    let e = copied(d, source, "next_offset"@);
    let f = copied(e, source, "next_byte"@);
    copied_members(a, source, "mode"@);
    copied_members(b, source, "start_byte"@);
    copied_members(c, source, "start_line"@);
    copied_members(d, source, "next_offset"@);
    copied_members(e, source, "next_byte"@);
    copied_is_carried(a, text, "mode"@);
    copied_is_carried(b, text, "start_byte"@);
    copied_is_carried(c, text, "start_line"@);
    copied_is_carried(d, text, "next_offset"@);
    copied_is_carried(e, text, "next_byte"@);
    copied_is_carried(f, text, "complete"@);
}

/// Compacting a control never loses or changes the artifact it refers to.
///
/// Where the members that it keeps are themselves carried as JSON text, this is stated of a
/// compacted control that reads as an object.
pub proof fn compacting_keeps_the_handle(text: Seq<char>, max: int)
    requires
        compact_control(text, max) is Some,
        reads_back(compact_control(text, max)->0),
        carries_back(compact_control(text, max)->0),
        json_members(compact_control(text, max)->0) is Some || own_members(
            control_summary(
                json_members(text)->0,
                text_member(json_members(text)->0, "type"@)->0,
                control_artifact(text)->0,
            ),
        ),
    ensures
        control_artifact(compact_control(text, max)->0) == control_artifact(text),
        utf8_len(compact_control(text, max)->0) <= max,
{
    let id = control_artifact(text)->0;
    let source = json_members(text)->0;
    let kind = text_member(source, "type"@)->0;
    let result = compact_control(text, max)->0;
    summary_members(source, kind, id);
    handle_members(kind, id);
    summary_is_carried(text, kind, id);
    let kept = if result == object_text(handle_only(kind, id)) {
        handle_only(kind, id)
    } else {
        control_summary(source, kind, id)
    };
    assert(object_text(kept) == result);
    if own_members(kept) {
        reread_keeps(kept, "type"@);
        reread_keeps(kept, "artifact_id"@);
    } else {
        let back = json_members(result)->0;
        own_value_is_found(kept, back, "type"@);
        own_value_is_found(kept, back, "artifact_id"@);
    }
}

/// The items that are not text.
pub open spec fn without_text(items: Seq<ItemModel>) -> Seq<ItemModel>
    decreases items.len(),
{
    if items.len() == 0 {
        seq![]
    } else if items.last() is InputText {
        without_text(items.drop_last())
    } else {
        without_text(items.drop_last()).push(items.last())
    }
}

/// A payload whose text is replaced by `text`; of several texts one is left, in front.
pub open spec fn with_replaced_text(payload: PayloadModel, text: Seq<char>) -> PayloadModel {
    PayloadModel {
        body: match payload.body {
            BodyModel::Text(_) => BodyModel::Text(text),
            BodyModel::ContentItems(items) => BodyModel::ContentItems(
                seq![ItemModel::InputText { text }] + without_text(items),
            ),
        },
        success: payload.success,
    }
}

/// A payload whose text is replaced by `text`; of several texts one is left, in front.
pub fn replace_text(
    payload: &FunctionCallOutputPayload,
    text: String,
) -> (r: FunctionCallOutputPayload)
    ensures
        r@ == with_replaced_text(payload@, text@),
{
    let ghost replacement = text@;
    let body = match &payload.body {
        FunctionCallOutputBody::Text(_) => FunctionCallOutputBody::Text(text),
        FunctionCallOutputBody::ContentItems(items) => {
            let ghost all = item_models(items@);
            let mut kept: Vec<FunctionCallOutputContentItem> = Vec::new();
            kept.push(FunctionCallOutputContentItem::InputText { text });
            let mut i: usize = 0;
            proof {
                assert(item_models(kept@) =~= seq![ItemModel::InputText { text: replacement }]
                    + without_text(all.take(0)));
            }
            while i < items.len()
                invariant
                    i <= items@.len(),
                    all == item_models(items@),
                    item_models(kept@) == seq![ItemModel::InputText { text: replacement }]
                        + without_text(all.take(i as int)),
                decreases items@.len() - i,
            {
                let ghost before = kept@;
                proof {
                    assert(all.take(i + 1).drop_last() =~= all.take(i as int));
                    assert(all[i as int] == items@[i as int]@);
                }
                match &items[i] {
                    FunctionCallOutputContentItem::InputText { .. } => {},
                    _ => {
                        kept.push(items[i].clone());
                        proof {
                            assert(item_models(kept@) =~= item_models(before).push(all[i as int]));
                        }
                    },
                }
                proof {
                    assert(item_models(kept@) =~= seq![ItemModel::InputText { text: replacement }]
                        + without_text(all.take(i + 1)));
                }
                i += 1;
            }
            proof {
                assert(all.take(i as int) =~= all);
            }
            FunctionCallOutputBody::ContentItems(kept)
        },
    };
    FunctionCallOutputPayload { body, success: payload.success }
}

} // verus!
