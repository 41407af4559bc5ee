//! What the controls are that a history carries over, and which of them it carries.

use vstd::prelude::*;
use vstd::utf8::encode_utf8;

use crate::artifact_control_ids::{control_members, output_call_id_of, retrieval_members};
use crate::artifact_id::{artifact_id_of, digest_hex, sha256};
use crate::content_items::body_json;
use crate::history::EnvelopeModel;
use crate::inheritance::{
    call_at, candidate_controls, control_json, control_pair, entry_controls, envelope_artifact,
    json_field, optional_json_field, pair_bytes, paired_artifact,
};
use crate::json::{
    is_plain, json_string, members_text, object_text, plain_text_is_kept, JsonModel, Members,
};
use crate::protocol::{BodyModel, PayloadModel, ResponseItemModel};
use crate::text::utf8_len;

verus! {

/// A byte is written as its higher and its lower half, each as a hexadecimal digit.
pub proof fn digests_are_hexadecimal(digest: Seq<u8>, text: Seq<char>, i: int)
    requires
        digest.len() == 32,
        0 <= i < 32,
    ensures
        digest_hex(digest).len() == 64,
        ({
            let (high, low) = (digest_hex(digest)[2 * i], digest_hex(digest)[2 * i + 1]);
            let (a, b) = (
                if high <= '9' { high as int - '0' as int } else { high as int - 'a' as int + 10 },
                if low <= '9' { low as int - '0' as int } else { low as int - 'a' as int + 10 },
            );
            &&& 0 <= a < 16 && 0 <= b < 16
            &&& 16 * a + b == digest[i]
        }),
        artifact_id_of(text).len() == 68,
        artifact_id_of(text).take(4) == "out_"@,
        artifact_id_of(text).skip(4) == digest_hex(sha256(encode_utf8(text))),
{
    reveal_strlit("out_");
    let hex = digest_hex(sha256(encode_utf8(text)));
    assert(artifact_id_of(text).take(4) =~= "out_"@);
    assert(artifact_id_of(text).skip(4) =~= hex);
    assert((2 * i) % 2 == 0 && (2 * i) / 2 == i);
    assert((2 * i + 1) % 2 == 1 && (2 * i + 1) / 2 == i);
}

/// A member, where there is a text for it.
pub open spec fn text_if_any(key: Seq<char>, text: Option<Seq<char>>) -> Members {
    match text {
        Some(text) => seq![(key, JsonModel::Text(text))],
        None => seq![],
    }
}

proof fn field_is_a_member(members: Members, key: Seq<char>, text: Seq<char>)
    requires
        members.len() > 0,
        is_plain(key),
    ensures
        members_text(members.push((key, JsonModel::Text(text)))) == members_text(members)
            + json_field(key, text),
{
    let more = members.push((key, JsonModel::Text(text)));
    assert(more.drop_last() =~= members);
    plain_text_is_kept(key);
    reveal_strlit(",\"");
    reveal_strlit("\":");
    assert(seq![','] + json_string(key) + seq![':'] =~= ",\""@ + key + "\":"@);
    assert(members_text(members) + seq![','] + json_string(key) + seq![':'] + json_string(text)
        =~= members_text(members) + (seq![','] + json_string(key) + seq![':'] + json_string(text)));
}

proof fn optional_field_is_a_member(members: Members, key: Seq<char>, text: Option<Seq<char>>)
    requires
        members.len() > 0,
        is_plain(key),
    ensures
        members_text(members + text_if_any(key, text)) == members_text(members)
            + optional_json_field(key, text),
{
    match text {
        Some(text) => {
            assert(members + seq![(key, JsonModel::Text(text))] =~= members.push(
                (key, JsonModel::Text(text)),
            ));
            field_is_a_member(members, key, text);
        },
        None => {
            assert(members + text_if_any(key, None) =~= members);
            assert(members_text(members) + optional_json_field(key, None) =~= members_text(
                members,
            ));
        },
    }
}

proof fn output_is_a_member(members: Members, value: Seq<char>)
    requires
        members.len() > 0,
    ensures
        members_text(members.push(("output"@, JsonModel::Raw(value)))) == members_text(members)
            + (",\"output\":"@ + value),
{
    let more = members.push(("output"@, JsonModel::Raw(value)));
    assert(more.drop_last() =~= members);
    reveal_strlit("output");
    reveal_strlit(",\"output\":");
    plain_text_is_kept("output"@);
    assert(seq![','] + json_string("output"@) + seq![':'] =~= ",\"output\":"@);
    assert(members_text(members) + seq![','] + json_string("output"@) + seq![':'] + value
        =~= members_text(members) + (seq![','] + json_string("output"@) + seq![':'] + value));
}

proof fn plain_keys()
    ensures
        is_plain("name"@),
        is_plain("namespace"@),
        is_plain("arguments"@),
        is_plain("call_id"@),
        is_plain("input"@),
{
    reveal_strlit("name");
    reveal_strlit("namespace");
    reveal_strlit("arguments");
    reveal_strlit("call_id");
    reveal_strlit("input");
}

proof fn only_the_type(name: Seq<char>, start: Seq<char>)
    requires
        is_plain(name),
        start == "{\"type\":\""@ + name + "\""@,
    ensures
        start == seq!['{'] + members_text(seq![("type"@, JsonModel::Text(name))]),
{
    let members: Members = seq![("type"@, JsonModel::Text(name))];
    let none: Members = seq![];
    assert(members.drop_last() =~= none);
    assert(members_text(none) =~= seq![]);
    reveal_strlit("type");
    reveal_strlit("{\"type\":\"");
    reveal_strlit("\"");
    plain_text_is_kept("type"@);
    plain_text_is_kept(name);
    assert(members_text(members) =~= json_string("type"@) + seq![':'] + json_string(name));
    assert(start =~= seq!['{'] + (json_string("type"@) + seq![':'] + json_string(name)));
}

proof fn types_start()
    ensures
        "{\"type\":\"function_call\""@ == seq!['{'] + members_text(
            seq![("type"@, JsonModel::Text("function_call"@))],
        ),
        "{\"type\":\"custom_tool_call\""@ == seq!['{'] + members_text(
            seq![("type"@, JsonModel::Text("custom_tool_call"@))],
        ),
        "{\"type\":\"function_call_output\""@ == seq!['{'] + members_text(
            seq![("type"@, JsonModel::Text("function_call_output"@))],
        ),
        "{\"type\":\"custom_tool_call_output\""@ == seq!['{'] + members_text(
            seq![("type"@, JsonModel::Text("custom_tool_call_output"@))],
        ),
{
    reveal_strlit("{\"type\":\"");
    reveal_strlit("\"");
    reveal_strlit("function_call");
    reveal_strlit("{\"type\":\"function_call\"");
    assert("{\"type\":\"function_call\""@ =~= "{\"type\":\""@ + "function_call"@ + "\""@);
    only_the_type("function_call"@, "{\"type\":\"function_call\""@);
    reveal_strlit("custom_tool_call");
    reveal_strlit("{\"type\":\"custom_tool_call\"");
    assert("{\"type\":\"custom_tool_call\""@ =~= "{\"type\":\""@ + "custom_tool_call"@ + "\""@);
    only_the_type("custom_tool_call"@, "{\"type\":\"custom_tool_call\""@);
    reveal_strlit("function_call_output");
    reveal_strlit("{\"type\":\"function_call_output\"");
    assert("{\"type\":\"function_call_output\""@ =~= "{\"type\":\""@ + "function_call_output"@
        + "\""@);
    only_the_type("function_call_output"@, "{\"type\":\"function_call_output\""@);
    reveal_strlit("custom_tool_call_output");
    reveal_strlit("{\"type\":\"custom_tool_call_output\"");
    assert("{\"type\":\"custom_tool_call_output\""@ =~= "{\"type\":\""@
        + "custom_tool_call_output"@ + "\""@);
    only_the_type("custom_tool_call_output"@, "{\"type\":\"custom_tool_call_output\""@);
}

proof fn front_moves(front: Seq<char>, middle: Seq<char>, last: Seq<char>)
    ensures
        front + middle + last == front + (middle + last),
{
    assert(front + middle + last =~= front + (middle + last));
}

/// The call of a control is written as a JSON object of its kind, with its name, the namespace
/// where there is one, its arguments and its identifier.
pub proof fn control_calls_are_objects(
    name: Seq<char>,
    namespace: Option<Seq<char>>,
    arguments: Seq<char>,
    call_id: Seq<char>,
    call: ResponseItemModel,
)
    requires
        call matches ResponseItemModel::FunctionCall {
            name: n,
            namespace: s,
            arguments: a,
            call_id: c,
            ..
        } && n == name && s == namespace && a == arguments && c == call_id,
    ensures
        control_json(call) == object_text(
            seq![("type"@, JsonModel::Text("function_call"@)), ("name"@, JsonModel::Text(name))]
                + text_if_any("namespace"@, namespace) + seq![
                ("arguments"@, JsonModel::Text(arguments)),
                ("call_id"@, JsonModel::Text(call_id)),
            ],
        ),
{
    reveal(control_json);
    plain_keys();
    types_start();
    let a: Members = seq![("type"@, JsonModel::Text("function_call"@))];
    let b = a.push(("name"@, JsonModel::Text(name)));
    let c = b + text_if_any("namespace"@, namespace);
    let d = c.push(("arguments"@, JsonModel::Text(arguments)));
    let e = d.push(("call_id"@, JsonModel::Text(call_id)));
    field_is_a_member(a, "name"@, name);
    optional_field_is_a_member(b, "namespace"@, namespace);
    field_is_a_member(c, "arguments"@, arguments);
    field_is_a_member(d, "call_id"@, call_id);
    let open = seq!['{'];
    front_moves(open, members_text(a), json_field("name"@, name));
    front_moves(open, members_text(b), optional_json_field("namespace"@, namespace));
    front_moves(open, members_text(c), json_field("arguments"@, arguments));
    front_moves(open, members_text(d), json_field("call_id"@, call_id));
    reveal_strlit("}");
    assert("}"@ =~= seq!['}']);
    assert(e =~= seq![("type"@, JsonModel::Text("function_call"@)), ("name"@, JsonModel::Text(name))]
        + text_if_any("namespace"@, namespace) + seq![
        ("arguments"@, JsonModel::Text(arguments)),
        ("call_id"@, JsonModel::Text(call_id)),
    ]);
    assert(control_json(call) == open + members_text(e) + seq!['}']);
}

/// The call of a custom tool's control is written as a JSON object of its kind, with its
/// identifier, its name, the namespace where there is one, and its input.
pub proof fn custom_control_calls_are_objects(
    name: Seq<char>,
    namespace: Option<Seq<char>>,
    input: Seq<char>,
    call_id: Seq<char>,
    call: ResponseItemModel,
)
    requires
        call matches ResponseItemModel::CustomToolCall {
            name: n,
            namespace: s,
            input: i,
            call_id: c,
            ..
        } && n == name && s == namespace && i == input && c == call_id,
    ensures
        control_json(call) == object_text(
            seq![
                ("type"@, JsonModel::Text("custom_tool_call"@)),
                ("call_id"@, JsonModel::Text(call_id)),
                ("name"@, JsonModel::Text(name)),
            ] + text_if_any("namespace"@, namespace) + seq![("input"@, JsonModel::Text(input))],
        ),
{
    reveal(control_json);
    plain_keys();
    types_start();
    let a: Members = seq![("type"@, JsonModel::Text("custom_tool_call"@))];
    let b = a.push(("call_id"@, JsonModel::Text(call_id)));
    let c = b.push(("name"@, JsonModel::Text(name)));
    let d = c + text_if_any("namespace"@, namespace);
    let e = d.push(("input"@, JsonModel::Text(input)));
    field_is_a_member(a, "call_id"@, call_id);
    field_is_a_member(b, "name"@, name);
    optional_field_is_a_member(c, "namespace"@, namespace);
    field_is_a_member(d, "input"@, input);
    let open = seq!['{'];
    front_moves(open, members_text(a), json_field("call_id"@, call_id));
    front_moves(open, members_text(b), json_field("name"@, name));
    front_moves(open, members_text(c), optional_json_field("namespace"@, namespace));
    front_moves(open, members_text(d), json_field("input"@, input));
    reveal_strlit("}");
    assert("}"@ =~= seq!['}']);
    assert(e =~= seq![
        ("type"@, JsonModel::Text("custom_tool_call"@)),
        ("call_id"@, JsonModel::Text(call_id)),
        ("name"@, JsonModel::Text(name)),
    ] + text_if_any("namespace"@, namespace) + seq![("input"@, JsonModel::Text(input))]);
    assert(control_json(call) == open + members_text(e) + seq!['}']);
}

/// The output of a control is written as a JSON object of its kind, with its identifier, name and
/// namespace where there are such, and its body.
pub proof fn control_outputs_are_objects(
    call_id: Option<Seq<char>>,
    name: Option<Seq<char>>,
    namespace: Option<Seq<char>>,
    payload: PayloadModel,
    output: ResponseItemModel,
)
    requires
        output matches ResponseItemModel::FunctionCallOutput {
            call_id: c,
            name: n,
            namespace: s,
            output: o,
            ..
        } && c == call_id && n == name && s == namespace && o == payload,
    ensures
        control_json(output) == object_text(
            seq![("type"@, JsonModel::Text("function_call_output"@))] + text_if_any(
                "call_id"@,
                call_id,
            ) + text_if_any("name"@, name) + text_if_any("namespace"@, namespace) + seq![
                ("output"@, JsonModel::Raw(body_json(payload.body))),
            ],
        ),
{
    reveal(control_json);
    plain_keys();
    types_start();
    let a: Members = seq![("type"@, JsonModel::Text("function_call_output"@))];
    let b = a + text_if_any("call_id"@, call_id);
    let c = b + text_if_any("name"@, name);
    let d = c + text_if_any("namespace"@, namespace);
    let value = body_json(payload.body);
    let e = d.push(("output"@, JsonModel::Raw(value)));
    optional_field_is_a_member(a, "call_id"@, call_id);
    optional_field_is_a_member(b, "name"@, name);
    optional_field_is_a_member(c, "namespace"@, namespace);
    output_is_a_member(d, value);
    let open = seq!['{'];
    front_moves(open, members_text(a), optional_json_field("call_id"@, call_id));
    front_moves(open, members_text(b), optional_json_field("name"@, name));
    front_moves(open, members_text(c), optional_json_field("namespace"@, namespace));
    front_moves(open, members_text(d), ",\"output\":"@ + value);
    front_moves(open + members_text(d), ",\"output\":"@, value);
    reveal_strlit("}");
    assert("}"@ =~= seq!['}']);
    assert(e =~= d + seq![("output"@, JsonModel::Raw(value))]);
    assert(control_json(output) == open + members_text(e) + seq!['}']);
}

/// The output of a custom tool's control is written as a JSON object of its kind, with its
/// identifier, its name where there is one, and its body.
pub proof fn custom_control_outputs_are_objects(
    call_id: Seq<char>,
    name: Option<Seq<char>>,
    payload: PayloadModel,
    output: ResponseItemModel,
)
    requires
        output matches ResponseItemModel::CustomToolCallOutput {
            call_id: c,
            name: n,
            output: o,
            ..
        } && c == call_id && n == name && o == payload,
    ensures
        control_json(output) == object_text(
            seq![
                ("type"@, JsonModel::Text("custom_tool_call_output"@)),
                ("call_id"@, JsonModel::Text(call_id)),
            ] + text_if_any("name"@, name) + seq![
                ("output"@, JsonModel::Raw(body_json(payload.body))),
            ],
        ),
{
    reveal(control_json);
    plain_keys();
    types_start();
    let a: Members = seq![("type"@, JsonModel::Text("custom_tool_call_output"@))];
    let b = a.push(("call_id"@, JsonModel::Text(call_id)));
    let c = b + text_if_any("name"@, name);
    let value = body_json(payload.body);
    let d = c.push(("output"@, JsonModel::Raw(value)));
    field_is_a_member(a, "call_id"@, call_id);
    optional_field_is_a_member(b, "name"@, name);
    output_is_a_member(c, value);
    let open = seq!['{'];
    front_moves(open, members_text(a), json_field("call_id"@, call_id));
    front_moves(open, members_text(b), optional_json_field("name"@, name));
    front_moves(open, members_text(c), ",\"output\":"@ + value);
    front_moves(open + members_text(c), ",\"output\":"@, value);
    reveal_strlit("}");
    assert("}"@ =~= seq!['}']);
    assert(d =~= seq![
        ("type"@, JsonModel::Text("custom_tool_call_output"@)),
        ("call_id"@, JsonModel::Text(call_id)),
    ] + text_if_any("name"@, name) + seq![("output"@, JsonModel::Raw(value))]);
    assert(control_json(output) == open + members_text(d) + seq!['}']);
}

/// A control asks for its artifact by the tool that reads stored outputs, in the form of the call
/// that it stands for, and answers with the control of the artifact, as a success, backed by the
/// store. There is one for the calls and outputs of functions, custom tools and shells, and for no
/// other pair. The two are joined by the identifier of the artifact.
pub proof fn controls_read_their_artifact(
    call: ResponseItemModel,
    output: ResponseItemModel,
    id: Seq<char>,
)
    ensures
        control_pair(call, output, id) is Some <==> (call is FunctionCall || call is LocalShellCall
            || call is CustomToolCall) && (output is FunctionCallOutput
            || output is CustomToolCallOutput),
        control_pair(call, output, id) matches Some((asks, answers)) ==> {
            &&& asks.metadata is None
            &&& answers.metadata matches Some(metadata) && metadata.store_backed
                && !metadata.client_authored && metadata.references.len() == 0
                && metadata.repair is None
            &&& asks.item is CustomToolCall <==> call is CustomToolCall
            &&& match asks.item {
                ResponseItemModel::FunctionCall {
                    id: own,
                    name,
                    namespace,
                    arguments,
                    encrypted_function_args,
                    call_id,
                    internal_chat_message_metadata_passthrough,
                } => {
                    &&& own is None && namespace is None && encrypted_function_args is None
                    &&& internal_chat_message_metadata_passthrough is None
                    &&& name == "read_tool_output"@ && call_id == "artifact_ref_"@ + id.skip(4)
                    &&& arguments == object_text(retrieval_members(id))
                },
                ResponseItemModel::CustomToolCall {
                    id: own,
                    status,
                    call_id,
                    name,
                    namespace,
                    input,
                    internal_chat_message_metadata_passthrough,
                } => {
                    &&& own is None && namespace is None && status is None
                    &&& internal_chat_message_metadata_passthrough is None
                    &&& name == "read_tool_output"@ && call_id == "artifact_ref_"@ + id.skip(4)
                    &&& input == object_text(retrieval_members(id))
                },
                _ => false,
            }
            &&& answers.item is CustomToolCallOutput <==> output is CustomToolCallOutput
            &&& match answers.item {
                ResponseItemModel::FunctionCallOutput {
                    id: own,
                    call_id,
                    name,
                    namespace,
                    output,
                    internal_chat_message_metadata_passthrough,
                } => {
                    &&& own is None && namespace is None
                    &&& internal_chat_message_metadata_passthrough is None
                    &&& name == Some("read_tool_output"@)
                    &&& call_id == Some("artifact_ref_"@ + id.skip(4))
                    &&& output.body == BodyModel::Text(object_text(control_members(id)))
                    &&& output.success == Some(true)
                },
                ResponseItemModel::CustomToolCallOutput {
                    id: own,
                    call_id,
                    name,
                    output,
                    internal_chat_message_metadata_passthrough,
                } => {
                    &&& own is None && internal_chat_message_metadata_passthrough is None
                    &&& name == Some("read_tool_output"@)
                    &&& call_id == "artifact_ref_"@ + id.skip(4)
                    &&& output.body == BodyModel::Text(object_text(control_members(id)))
                    &&& output.success == Some(true)
                },
                _ => false,
            }
        },
{
}

/// The size of a pair is that of the JSON texts of both.
pub proof fn pairs_are_measured(call: EnvelopeModel, output: EnvelopeModel)
    requires
        utf8_len(control_json(call.item)) + utf8_len(control_json(output.item)) <= usize::MAX,
    ensures
        pair_bytes(call, output) == utf8_len(control_json(call.item)) + utf8_len(
            control_json(output.item),
        ),
{
}

/// Entries are taken over in turn. One is passed over where it is the output of no call or of no
/// stored artifact, where its artifact was seen, or where there are enough controls or the end was
/// reached. Of any other its artifact is seen; its control is taken where there is one and the size
/// of all stays within the limit, and where it does not that is the end.
pub proof fn entries_are_taken_in_turn(history: Seq<EnvelopeModel>, n: int)
    requires
        0 <= n < history.len(),
    ensures
        ({
            let before = entry_controls(history, n);
            let after = entry_controls(history, n + 1);
            let over = before.stopped || before.controls.len() >= 64;
            match paired_artifact(history, n) {
                None => after == before,
                Some(id) => {
                    let call = history[call_at(
                        history,
                        output_call_id_of(history[n].item)->0,
                        0,
                    )->0];
                    let made = control_pair(call.item, history[n].item, id);
                    &&& over || before.seen.contains(id) ==> after == before
                    &&& !over && !before.seen.contains(id) ==> {
                        &&& after.seen == before.seen.push(id)
                        &&& made is None ==> after.controls == before.controls && after.bytes
                            == before.bytes && !after.stopped
                        &&& made matches Some((a, b)) ==> if before.bytes + pair_bytes(a, b)
                            > 16384 {
                            &&& after.stopped
                            &&& after.controls == before.controls && after.bytes == before.bytes
                        } else {
                            &&& !after.stopped
                            &&& after.controls == before.controls + seq![a, b]
                            &&& after.bytes == before.bytes + pair_bytes(a, b)
                        }
                    }
                },
            }
        }),
        entry_controls(history, 0).controls.len() == 0,
        entry_controls(history, 0).seen.len() == 0,
        entry_controls(history, 0).bytes == 0,
        !entry_controls(history, 0).stopped,
{
    let before = entry_controls(history, n);
    if before.controls.len() >= 64 {
        assert(before.controls.len() / 2 >= 32);
    } else {
        assert(before.controls.len() / 2 < 32);
    }
    match paired_artifact(history, n) {
        Some(id) => {
            let call = history[call_at(history, output_call_id_of(history[n].item)->0, 0)->0];
            match control_pair(call.item, history[n].item, id) {
                Some((a, b)) => {
                    assert(before.controls.push(a).push(b) =~= before.controls + seq![a, b]);
                },
                None => {},
            }
        },
        None => {},
    }
}

/// Candidates are taken in turn, each once: exactly those whose output is of a stored artifact that
/// no control stands for yet, as long as there are not enough controls, its pair is not too large,
/// and the size of all stays within the limit. A candidate that is passed over ends nothing.
pub proof fn candidates_are_taken_in_turn(candidates: Seq<EnvelopeModel>, n: int)
    requires
        n >= 0,
        2 * n + 1 < candidates.len(),
    ensures
        ({
            let before = candidate_controls(candidates, n);
            let after = candidate_controls(candidates, n + 1);
            let (call, output) = (candidates[2 * n], candidates[2 * n + 1]);
            match envelope_artifact(output) {
                None => after == before,
                Some(id) => match control_pair(call.item, output.item, id) {
                    None => after == before,
                    Some((a, b)) => {
                        let size = pair_bytes(a, b);
                        let taken = before.controls.len() < 64 && size <= 8192 && before.bytes + size
                            <= 16384 && !before.seen.contains(id);
                        &&& !taken ==> after == before
                        &&& taken ==> after.controls == before.controls + seq![a, b]
                        &&& taken ==> after.seen == before.seen.push(id)
                        &&& taken ==> after.bytes == before.bytes + size
                    },
                },
            }
        }),
        candidate_controls(candidates, 0).controls.len() == 0,
        candidate_controls(candidates, 0).seen.len() == 0,
        candidate_controls(candidates, 0).bytes == 0,
{
    let before = candidate_controls(candidates, n);
    if before.controls.len() >= 64 {
        assert(before.controls.len() / 2 >= 32);
    } else {
        assert(before.controls.len() / 2 < 32);
    }
    let (call, output) = (candidates[2 * n], candidates[2 * n + 1]);
    match envelope_artifact(output) {
        Some(id) => {
            match control_pair(call.item, output.item, id) {
                Some((a, b)) => {
                    assert(before.controls.push(a).push(b) =~= before.controls + seq![a, b]);
                },
                None => {},
            }
        },
        None => {},
    }
}

} // verus!
