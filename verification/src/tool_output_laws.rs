//! What a tool output is replaced by where it does not fit.

use vstd::prelude::*;

use crate::json::{
    json_members, keys_increase, member, object_text, text_member, with_member,
    with_member_ordered, JsonModel, Members,
};
use crate::protocol::{BodyModel, ItemModel, PayloadModel};
use crate::read_tool_output::control_artifact;
use crate::text::utf8_len;
use crate::tool_output::{
    compact_control, control_summary, copied, error_payload, handle_only, structured_error,
    structured_error_is_json, with_replaced_text, without_text,
};

verus! {

proof fn keys_differ()
    ensures
        "type"@ != "artifact_id"@,
        "type"@ != "retrieval"@,
        "type"@ != "mode"@,
        "type"@ != "start_byte"@,
        "type"@ != "start_line"@,
        "type"@ != "next_offset"@,
        "type"@ != "next_byte"@,
        "type"@ != "complete"@,
        "artifact_id"@ != "retrieval"@,
        "artifact_id"@ != "mode"@,
        "artifact_id"@ != "start_byte"@,
        "artifact_id"@ != "start_line"@,
        "artifact_id"@ != "next_offset"@,
        "artifact_id"@ != "next_byte"@,
        "artifact_id"@ != "complete"@,
        "retrieval"@ != "mode"@,
        "retrieval"@ != "start_byte"@,
        "retrieval"@ != "start_line"@,
        "retrieval"@ != "next_offset"@,
        "retrieval"@ != "next_byte"@,
        "retrieval"@ != "complete"@,
        "mode"@ != "start_byte"@,
        "mode"@ != "start_line"@,
        "mode"@ != "next_offset"@,
        "mode"@ != "next_byte"@,
        "mode"@ != "complete"@,
        "start_byte"@ != "start_line"@,
        "start_byte"@ != "next_offset"@,
        "start_byte"@ != "next_byte"@,
        "start_byte"@ != "complete"@,
        "start_line"@ != "next_offset"@,
        "start_line"@ != "next_byte"@,
        "start_line"@ != "complete"@,
        "next_offset"@ != "next_byte"@,
        "next_offset"@ != "complete"@,
        "next_byte"@ != "complete"@,
{
    reveal_strlit("type");
    reveal_strlit("artifact_id");
    reveal_strlit("retrieval");
    reveal_strlit("mode");
    reveal_strlit("start_byte");
    reveal_strlit("start_line");
    reveal_strlit("next_offset");
    reveal_strlit("next_byte");
    reveal_strlit("complete");
    assert("type"@.len() != "artifact_id"@.len());
    assert("type"@.len() != "retrieval"@.len());
    assert("type"@[0] != "mode"@[0]);
    assert("type"@.len() != "start_byte"@.len());
    assert("type"@.len() != "start_line"@.len());
    assert("type"@.len() != "next_offset"@.len());
    assert("type"@.len() != "next_byte"@.len());
    assert("type"@.len() != "complete"@.len());
    assert("artifact_id"@.len() != "retrieval"@.len());
    assert("artifact_id"@.len() != "mode"@.len());
    assert("artifact_id"@.len() != "start_byte"@.len());
    assert("artifact_id"@.len() != "start_line"@.len());
    assert("artifact_id"@[0] != "next_offset"@[0]);
    assert("artifact_id"@.len() != "next_byte"@.len());
    assert("artifact_id"@.len() != "complete"@.len());
    assert("retrieval"@.len() != "mode"@.len());
    assert("retrieval"@.len() != "start_byte"@.len());
    assert("retrieval"@.len() != "start_line"@.len());
    assert("retrieval"@.len() != "next_offset"@.len());
    assert("retrieval"@[0] != "next_byte"@[0]);
    assert("retrieval"@.len() != "complete"@.len());
    assert("mode"@.len() != "start_byte"@.len());
    assert("mode"@.len() != "start_line"@.len());
    assert("mode"@.len() != "next_offset"@.len());
    assert("mode"@.len() != "next_byte"@.len());
    assert("mode"@.len() != "complete"@.len());
    assert("start_byte"@[6] != "start_line"@[6]);
    assert("start_byte"@.len() != "next_offset"@.len());
    assert("start_byte"@.len() != "next_byte"@.len());
    assert("start_byte"@.len() != "complete"@.len());
    assert("start_line"@.len() != "next_offset"@.len());
    assert("start_line"@.len() != "next_byte"@.len());
    assert("start_line"@.len() != "complete"@.len());
    assert("next_offset"@.len() != "next_byte"@.len());
    assert("next_offset"@.len() != "complete"@.len());
    assert("next_byte"@.len() != "complete"@.len());
}

/// The structured error says as much as fits: what happened, its type and its version with a
/// hundred and two bytes or more; without what happened from forty on; its type alone from
/// twenty-eight on; that it is an error from sixteen on; an empty object from two on; the number
/// zero in one byte, and nothing in none.
pub proof fn structured_error_says_what_fits(max: int)
    requires
        max >= 0,
    ensures
        max >= 102 ==> structured_error(max) == object_text(
            seq![
                (
                    "error"@,
                    JsonModel::Text("tool output exceeded the active model output policy"@),
                ),
                ("type"@, JsonModel::Text("tool_output_error"@)),
                ("version"@, JsonModel::Unsigned(1)),
            ],
        ),
        40 <= max < 102 ==> structured_error(max) == object_text(
            seq![
                ("type"@, JsonModel::Text("tool_output_error"@)),
                ("version"@, JsonModel::Unsigned(1)),
            ],
        ),
        28 <= max < 40 ==> structured_error(max) == object_text(
            seq![("type"@, JsonModel::Text("tool_output_error"@))],
        ),
        16 <= max < 28 ==> structured_error(max) == object_text(
            seq![("type"@, JsonModel::Text("error"@))],
        ),
        2 <= max < 16 ==> structured_error(max) == "{}"@,
        max == 1 ==> structured_error(max) == "0"@,
        max == 0 ==> structured_error(max).len() == 0,
{
    if max >= 1 {
        structured_error_is_json(max);
    }
    if max == 0 {
        crate::tool_output::structured_error_fits(max);
        crate::text::utf8_len_bounds(structured_error(max));
    }
    if 2 <= max < 16 {
        reveal_strlit("{}");
        let none: Members = seq![];
        assert(object_text(none) =~= "{}"@);
    }
}

/// The payload of an error holds the structured error alone. It keeps what was said of success,
/// but for an error without a byte, which is marked as a failure.
pub proof fn error_payload_says(output: PayloadModel, max: int)
    ensures
        error_payload(output, max).body == BodyModel::Text(structured_error(max)),
        max > 0 ==> error_payload(output, max).success == output.success,
        max == 0 ==> error_payload(output, max).success == Some(false),
{
}

proof fn handle_members(kind: Seq<char>, id: Seq<char>)
    ensures
        keys_increase(handle_only(kind, id)),
        member(handle_only(kind, id), "type"@) == Some(JsonModel::Text(kind)),
        member(handle_only(kind, id), "artifact_id"@) == Some(JsonModel::Text(id)),
        forall|key: Seq<char>|
            key != "type"@ && key != "artifact_id"@ ==> (#[trigger] member(
                handle_only(kind, id),
                key,
            )) is None,
{
    keys_differ();
    let d0: Members = Seq::<(Seq<char>, JsonModel)>::empty();
    with_member_ordered(d0, "type"@, JsonModel::Text(kind));
    let d1 = with_member(d0, "type"@, JsonModel::Text(kind));
    with_member_ordered(d1, "artifact_id"@, JsonModel::Text(id));
    let d2 = with_member(d1, "artifact_id"@, JsonModel::Text(id));
}

proof fn copied_member(target: Members, source: Members, key: Seq<char>)
    requires
        keys_increase(target),
        member(target, key) is None,
    ensures
        keys_increase(copied(target, source, key)),
        member(copied(target, source, key), key) == member(source, key),
        forall|other: Seq<char>|
            other != key ==> #[trigger] member(copied(target, source, key), other) == member(
                target,
                other,
            ),
{
    match member(source, key) {
        Some(value) => with_member_ordered(target, key, value),
        None => {},
    }
}

/// A control without its content keeps its type, its artifact and its cursors as they are, and a
/// control of a whole output says how to read it: with its own words where it has some. It keeps
/// nothing else; the shortest control keeps its type and its artifact alone.
pub proof fn summary_keeps_the_cursors(source: Members, kind: Seq<char>, id: Seq<char>)
    ensures
        ({
            let small = control_summary(source, kind, id);
            &&& keys_increase(small)
            &&& member(small, "type"@) == Some(JsonModel::Text(kind))
            &&& member(small, "artifact_id"@) == Some(JsonModel::Text(id))
            &&& kind == "tool_output_artifact"@ ==> member(small, "retrieval"@) == Some(
                JsonModel::Text(
                    match member(source, "retrieval"@) {
                        Some(JsonModel::Text(hint)) => hint,
                        _ => "Use read_tool_output with this artifact_id."@,
                    },
                ),
            )
            &&& kind != "tool_output_artifact"@ ==> member(small, "retrieval"@) is None
            &&& member(small, "mode"@) == member(source, "mode"@)
            &&& member(small, "start_byte"@) == member(source, "start_byte"@)
            &&& member(small, "start_line"@) == member(source, "start_line"@)
            &&& member(small, "next_offset"@) == member(source, "next_offset"@)
            &&& member(small, "next_byte"@) == member(source, "next_byte"@)
            &&& member(small, "complete"@) == member(source, "complete"@)
            &&& forall|key: Seq<char>|
                key != "type"@ && key != "artifact_id"@ && key != "retrieval"@ && key != "mode"@ && key != "start_byte"@ && key != "start_line"@ && key != "next_offset"@ && key != "next_byte"@ && key != "complete"@ ==> (#[trigger] member(small, key)) is None
        }),
        ({
            let handle = handle_only(kind, id);
            &&& keys_increase(handle)
            &&& member(handle, "type"@) == Some(JsonModel::Text(kind))
            &&& member(handle, "artifact_id"@) == Some(JsonModel::Text(id))
            &&& forall|key: Seq<char>|
                key != "type"@ && key != "artifact_id"@ ==> (#[trigger] member(handle, key)) is None
        }),
{
    keys_differ();
    handle_members(kind, id);
    let hint = JsonModel::Text(
        match text_member(source, "retrieval"@) {
            Some(hint) => hint,
            None => "Use read_tool_output with this artifact_id."@,
        },
    );
    with_member_ordered(handle_only(kind, id), "retrieval"@, hint);
    let c0 = if kind == "tool_output_artifact"@ {
        with_member(handle_only(kind, id), "retrieval"@, hint)
    } else {
        handle_only(kind, id)
    };
    copied_member(c0, source, "mode"@);
    let c1 = copied(c0, source, "mode"@);
    copied_member(c1, source, "start_byte"@);
    let c2 = copied(c1, source, "start_byte"@);
    copied_member(c2, source, "start_line"@);
    let c3 = copied(c2, source, "start_line"@);
    copied_member(c3, source, "next_offset"@);
    let c4 = copied(c3, source, "next_offset"@);
    copied_member(c4, source, "next_byte"@);
    let c5 = copied(c4, source, "next_byte"@);
    copied_member(c5, source, "complete"@);
}

/// A control is cut exactly where the text is one: to what it keeps without its content where that
/// fits, else to its handle where that fits, else not at all.
pub proof fn controls_are_cut_as_little_as_fits(text: Seq<char>, max: int)
    ensures
        control_artifact(text) is None ==> compact_control(text, max) is None,
        control_artifact(text) matches Some(id) ==> ({
            let source = json_members(text)->0;
            let kind = text_member(source, "type"@)->0;
            let summary = object_text(control_summary(source, kind, id));
            let handle = object_text(handle_only(kind, id));
            &&& utf8_len(summary) <= max ==> compact_control(text, max) == Some(summary)
            &&& utf8_len(summary) > max && utf8_len(handle) <= max ==> compact_control(text, max)
                == Some(handle)
            &&& utf8_len(summary) > max && utf8_len(handle) > max ==> compact_control(text, max)
                is None
        }),
{
}

proof fn textless_items(items: Seq<ItemModel>, keep: spec_fn(ItemModel) -> bool)
    requires
        forall|item: ItemModel| #[trigger] keep(item) == !(item is InputText),
    ensures
        without_text(items) == items.filter(keep),
    decreases items.len(),
{
    reveal(Seq::filter);
    if items.len() > 0 {
        textless_items(items.drop_last(), keep);
        assert(keep(items.last()) == !(items.last() is InputText));
    }
}

/// Replacing the text of an output changes nothing else: an output of one text holds the new one;
/// of several items all that are not text stay, in their order, behind the new text.
pub proof fn replacing_text_keeps_the_rest(payload: PayloadModel, text: Seq<char>)
    ensures
        with_replaced_text(payload, text).success == payload.success,
        payload.body is Text ==> with_replaced_text(payload, text).body == BodyModel::Text(text),
        payload.body matches BodyModel::ContentItems(items) ==> with_replaced_text(payload, text).body
            == BodyModel::ContentItems(
            seq![ItemModel::InputText { text }] + items.filter(
                |item: ItemModel| !(item is InputText),
            ),
        ),
{
    match payload.body {
        BodyModel::ContentItems(items) => {
            textless_items(items, |item: ItemModel| !(item is InputText));
        },
        BodyModel::Text(_) => {},
    }
}

} // verus!
