//! What the controls of stored outputs are made of, and how their identifiers are chosen.

use vstd::prelude::*;

use crate::artifact_control_ids::{
    call_id_of, candidate_id, control_members, history_ids, ids_within_limit, item_ids,
    legacy_artifact, legacy_call_id, output_call_id_of, retrieval_members, with_call_id,
    with_output_call_id,
};
use crate::artifact_id::is_artifact_id;
use crate::history::EnvelopeModel;
use crate::json::{
    hex_digit, json_members, keys_increase, member, text_member, with_member, with_member_ordered,
    JsonModel, Members,
};
use crate::protocol::{BodyModel, ResponseItemModel};
use crate::text::utf8_len;

verus! {

proof fn keys_differ()
    ensures
        "artifact_id"@ != "mode"@,
        "artifact_id"@ != "offset"@,
        "artifact_id"@ != "limit"@,
        "artifact_id"@ != "type"@,
        "artifact_id"@ != "version"@,
        "artifact_id"@ != "retrieval"@,
        "mode"@ != "offset"@,
        "mode"@ != "limit"@,
        "mode"@ != "type"@,
        "mode"@ != "version"@,
        "mode"@ != "retrieval"@,
        "offset"@ != "limit"@,
        "offset"@ != "type"@,
        "offset"@ != "version"@,
        "offset"@ != "retrieval"@,
        "limit"@ != "type"@,
        "limit"@ != "version"@,
        "limit"@ != "retrieval"@,
        "type"@ != "version"@,
        "type"@ != "retrieval"@,
        "version"@ != "retrieval"@,
{
    reveal_strlit("artifact_id");
    reveal_strlit("mode");
    reveal_strlit("offset");
    reveal_strlit("limit");
    reveal_strlit("type");
    reveal_strlit("version");
    reveal_strlit("retrieval");
    assert("artifact_id"@.len() != "mode"@.len());
    assert("artifact_id"@.len() != "offset"@.len());
    assert("artifact_id"@.len() != "limit"@.len());
    assert("artifact_id"@.len() != "type"@.len());
    assert("artifact_id"@.len() != "version"@.len());
    assert("artifact_id"@.len() != "retrieval"@.len());
    assert("mode"@.len() != "offset"@.len());
    assert("mode"@.len() != "limit"@.len());
    assert("mode"@[0] != "type"@[0]);
    assert("mode"@.len() != "version"@.len());
    assert("mode"@.len() != "retrieval"@.len());
    assert("offset"@.len() != "limit"@.len());
    assert("offset"@.len() != "type"@.len());
    assert("offset"@.len() != "version"@.len());
    assert("offset"@.len() != "retrieval"@.len());
    assert("limit"@.len() != "type"@.len());
    assert("limit"@.len() != "version"@.len());
    assert("limit"@.len() != "retrieval"@.len());
    assert("type"@.len() != "version"@.len());
    assert("type"@.len() != "retrieval"@.len());
    assert("version"@.len() != "retrieval"@.len());
}

/// The call of a control reads one byte of the artifact from its start, and says nothing else.
pub proof fn retrieval_reads_the_first_byte(id: Seq<char>)
    ensures
        member(retrieval_members(id), "artifact_id"@) == Some(JsonModel::Text(id)),
        member(retrieval_members(id), "mode"@) == Some(JsonModel::Text("bytes"@)),
        member(retrieval_members(id), "offset"@) == Some(JsonModel::Unsigned(0)),
        member(retrieval_members(id), "limit"@) == Some(JsonModel::Unsigned(1)),
        retrieval_members(id).len() == 4,
        keys_increase(retrieval_members(id)),
        forall|key: Seq<char>|
            key != "artifact_id"@ && key != "mode"@ && key != "offset"@ && key != "limit"@
                ==> (#[trigger] member(retrieval_members(id), key)) is None,
{
    keys_differ();
    let d0: Members = Seq::<(Seq<char>, JsonModel)>::empty();
    with_member_ordered(d0, "artifact_id"@, JsonModel::Text(id));
    let d1 = with_member(d0, "artifact_id"@, JsonModel::Text(id));
    with_member_ordered(d1, "mode"@, JsonModel::Text("bytes"@));
    let d2 = with_member(d1, "mode"@, JsonModel::Text("bytes"@));
    with_member_ordered(d2, "offset"@, JsonModel::Unsigned(0));
    let d3 = with_member(d2, "offset"@, JsonModel::Unsigned(0));
    with_member_ordered(d3, "limit"@, JsonModel::Unsigned(1));
    let d4 = with_member(d3, "limit"@, JsonModel::Unsigned(1));
    lengths(d0, "artifact_id"@, JsonModel::Text(id));
    lengths(d1, "mode"@, JsonModel::Text("bytes"@));
    lengths(d2, "offset"@, JsonModel::Unsigned(0));
    lengths(d3, "limit"@, JsonModel::Unsigned(1));
}

proof fn lengths(members: Members, key: Seq<char>, value: JsonModel)
    requires
        member(members, key) is None,
    ensures
        with_member(members, key, value).len() == members.len() + 1,
    decreases members.len(),
{
    if members.len() > 0 {
        if members[0].0 != key {
            lengths(members.drop_first(), key, value);
        }
    }
}

/// A control names its artifact, its type, its version and how to read on, and nothing else.
pub proof fn control_names_its_artifact(id: Seq<char>)
    ensures
        member(control_members(id), "type"@) == Some(JsonModel::Text("tool_output_artifact"@)),
        member(control_members(id), "version"@) == Some(JsonModel::Unsigned(1)),
        member(control_members(id), "artifact_id"@) == Some(JsonModel::Text(id)),
        member(control_members(id), "retrieval"@) == Some(
            JsonModel::Text(
                "Use read_tool_output with artifact_id and mode bytes, lines, or search; follow next_offset or next_byte to continue."@,
            ),
        ),
        keys_increase(control_members(id)),
        forall|key: Seq<char>|
            key != "type"@ && key != "version"@ && key != "artifact_id"@ && key != "retrieval"@
                ==> (#[trigger] member(control_members(id), key)) is None,
{
    keys_differ();
    let d0: Members = Seq::<(Seq<char>, JsonModel)>::empty();
    with_member_ordered(d0, "type"@, JsonModel::Text("tool_output_artifact"@));
    let d1 = with_member(d0, "type"@, JsonModel::Text("tool_output_artifact"@));
    with_member_ordered(d1, "version"@, JsonModel::Unsigned(1));
    let d2 = with_member(d1, "version"@, JsonModel::Unsigned(1));
    with_member_ordered(d2, "artifact_id"@, JsonModel::Text(id));
    let d3 = with_member(d2, "artifact_id"@, JsonModel::Text(id));
    with_member_ordered(d3, "retrieval"@, JsonModel::Text(
        "Use read_tool_output with artifact_id and mode bytes, lines, or search; follow next_offset or next_byte to continue."@,
    ));
    let d4 = with_member(d3, "retrieval"@, JsonModel::Text(
        "Use read_tool_output with artifact_id and mode bytes, lines, or search; follow next_offset or next_byte to continue."@,
    ));
}

proof fn hex_digit_value(a: nat, b: nat)
    requires
        a < 16,
        b < 16,
        hex_digit(a) == hex_digit(b),
    ensures
        a == b,
{
    assert(hex_digit(a) as u32 == (if a < 10 { 48 + a } else { 87 + a }));
    assert(hex_digit(b) as u32 == (if b < 10 { 48 + b } else { 87 + b }));
}

/// The candidates for the identifier of an artifact begin with `artifact_ref_` and forty-six
/// digits of its digest. They are different, and none of them is the identifier that carries the
/// whole digest.
pub proof fn candidates_differ(artifact: Seq<char>, i: nat, j: nat)
    requires
        is_artifact_id(artifact),
        i <= 65535,
        j <= 65535,
    ensures
        candidate_id(artifact, 0) == "artifact_ref_"@ + artifact.subrange(4, 50),
        legacy_call_id(artifact) == "artifact_ref_"@ + artifact.subrange(4, 68),
        candidate_id(artifact, i).take(59) == candidate_id(artifact, 0),
        candidate_id(artifact, i).len() == (if i == 0 { 59nat } else { 64 }),
        i > 0 ==> candidate_id(artifact, i)[59] == '_',
        i != j ==> candidate_id(artifact, i) != candidate_id(artifact, j),
        candidate_id(artifact, i) != legacy_call_id(artifact),
{
    reveal_strlit("artifact_ref_");
    let base = candidate_id(artifact, 0);
    assert(base =~= "artifact_ref_"@ + artifact.subrange(4, 50));
    assert(legacy_call_id(artifact) =~= "artifact_ref_"@ + artifact.subrange(4, 68));
    assert(base.len() == 59);
    assert(legacy_call_id(artifact).len() == 77);
    assert(candidate_id(artifact, i).take(59) =~= base);
    if i != j && candidate_id(artifact, i) == candidate_id(artifact, j) {
        if i > 0 && j > 0 {
            let (a, b) = (candidate_id(artifact, i), candidate_id(artifact, j));
            assert(a[60] == hex_digit(i / 4096 % 16) && b[60] == hex_digit(j / 4096 % 16));
            assert(a[61] == hex_digit(i / 256 % 16) && b[61] == hex_digit(j / 256 % 16));
            assert(a[62] == hex_digit(i / 16 % 16) && b[62] == hex_digit(j / 16 % 16));
            assert(a[63] == hex_digit(i % 16) && b[63] == hex_digit(j % 16));
            hex_digit_value(i / 4096 % 16, j / 4096 % 16);
            hex_digit_value(i / 256 % 16, j / 256 % 16);
            hex_digit_value(i / 16 % 16, j / 16 % 16);
            hex_digit_value(i % 16, j % 16);
            assert(i == j);
        } else {
            assert(candidate_id(artifact, i).len() != candidate_id(artifact, j).len());
        }
    }
}

/// Of a call only its identifier is replaced: the new one is found, its own one changes nothing,
/// and of two replacements the last one counts.
pub proof fn call_ids_are_replaced(item: ResponseItemModel, a: Seq<char>, b: Seq<char>)
    ensures
        item is FunctionCall || item is CustomToolCall || item is LocalShellCall
            || item is ToolSearchCall ==> call_id_of(with_call_id(item, a)) == Some(a),
        call_id_of(item) == Some(a) ==> with_call_id(item, a) == item,
        with_call_id(with_call_id(item, a), b) == with_call_id(item, b),
        item is FunctionCallOutput || item is CustomToolCallOutput ==> output_call_id_of(
            with_output_call_id(item, a),
        ) == Some(a),
        output_call_id_of(item) == Some(a) ==> with_output_call_id(item, a) == item,
        with_output_call_id(with_output_call_id(item, a), b) == with_output_call_id(item, b),
        call_id_of(item) is None && !(item is LocalShellCall || item is ToolSearchCall)
            ==> with_call_id(item, a) == item,
        !(item is FunctionCallOutput || item is CustomToolCallOutput) ==> with_output_call_id(
            item,
            a,
        ) == item,
{
}

/// The call identifiers of the items that have one.
pub proof fn call_ids_are_found(item: ResponseItemModel)
    ensures
        (match item {
            ResponseItemModel::FunctionCall { call_id, .. } => call_id_of(item) == Some(call_id),
            ResponseItemModel::CustomToolCall { call_id, .. } => call_id_of(item) == Some(call_id),
            ResponseItemModel::LocalShellCall { call_id, .. } => call_id_of(item) == call_id,
            ResponseItemModel::ToolSearchCall { call_id, .. } => call_id_of(item) == call_id,
            ResponseItemModel::ToolSearchOutput { call_id, .. } => call_id_of(item) == call_id,
            _ => call_id_of(item) is None,
        }),
        (match item {
            ResponseItemModel::FunctionCallOutput { call_id, .. } => output_call_id_of(item)
                == call_id,
            ResponseItemModel::CustomToolCallOutput { call_id, .. } => output_call_id_of(item)
                == Some(call_id),
            _ => output_call_id_of(item) is None,
        }),
{
}

/// The identifiers in use are those of all entries: every call identifier, on either side, and
/// every identifier of an item itself.
pub proof fn all_identifiers_are_in_use(history: Seq<EnvelopeModel>, k: int)
    requires
        0 <= k < history.len(),
    ensures
        call_id_of(history[k].item) matches Some(id) ==> history_ids(history).contains(id),
        output_call_id_of(history[k].item) matches Some(id) ==> history_ids(history).contains(id),
        (match history[k].item {
            ResponseItemModel::Message { id, .. } => id,
            ResponseItemModel::FunctionCall { id, .. } => id,
            ResponseItemModel::FunctionCallOutput { id, .. } => id,
            ResponseItemModel::CustomToolCall { id, .. } => id,
            ResponseItemModel::CustomToolCallOutput { id, .. } => id,
            ResponseItemModel::LocalShellCall { id, .. } => id,
            ResponseItemModel::ToolSearchCall { id, .. } => id,
            ResponseItemModel::ToolSearchOutput { id, .. } => id,
            ResponseItemModel::Opaque { id, .. } => id,
            ResponseItemModel::Other => None,
        }) matches Some(id) ==> history_ids(history).contains(id),
    decreases history.len(),
{
    let front = history.drop_last();
    let own = item_ids(history.last().item);
    assert forall|id: Seq<char>| history_ids(front).contains(id) || own.contains(id) implies
        #[trigger] history_ids(history).contains(id) by {
        if history_ids(front).contains(id) {
            let i = history_ids(front).index_of(id);
            assert(history_ids(history)[i] == id);
        } else {
            let i = own.index_of(id);
            assert(history_ids(history)[history_ids(front).len() + i] == id);
        }
    }
    if k < front.len() {
        all_identifiers_are_in_use(front, k);
        assert(front[k] == history[k]);
    } else {
        assert(own.len() > 0 ==> own.contains(own[0]));
        assert(own.len() > 1 ==> own.contains(own[1]));
    }
}

/// Call identifiers are short enough for a provider exactly where each takes at most sixty-four
/// bytes, on whichever side of a call it stands.
pub proof fn long_call_ids_are_found(items: Seq<ResponseItemModel>)
    ensures
        ids_within_limit(items) <==> forall|i: int, id: Seq<char>|
            #![trigger items[i], utf8_len(id)]
            0 <= i < items.len() && (call_id_of(items[i]) == Some(id) || output_call_id_of(items[i])
                == Some(id)) ==> utf8_len(id) <= 64,
{
    if forall|i: int, id: Seq<char>|
        #![trigger items[i], utf8_len(id)]
        0 <= i < items.len() && (call_id_of(items[i]) == Some(id) || output_call_id_of(items[i])
            == Some(id)) ==> utf8_len(id) <= 64 {
        assert forall|i: int| 0 <= i < items.len() implies (match call_id_of(#[trigger] items[i]) {
            Some(id) => utf8_len(id) <= 64,
            None => match output_call_id_of(items[i]) {
                Some(id) => utf8_len(id) <= 64,
                None => true,
            },
        }) by {}
    }
}

/// A pair was written with the whole digest as its identifier exactly where its output is marked
/// as store-backed, the call is one of `read_tool_output` without a namespace whose arguments read
/// some artifact as a control does, the output answers it with a control alone, and the identifier
/// of both is that of the artifact which the control names.
pub proof fn trusted_pairs_have_the_exact_shape(
    call: EnvelopeModel,
    output: EnvelopeModel,
    id: Seq<char>,
    artifact: Seq<char>,
)
    ensures
        legacy_artifact(call, output, id) == Some(artifact) <==> {
            &&& output.metadata matches Some(metadata) && metadata.store_backed
            &&& (match call.item {
                ResponseItemModel::FunctionCall { name, namespace, arguments, call_id, .. } => name
                    == "read_tool_output"@ && namespace is None && call_id == id && exists|
                    read: Seq<char>,
                |
                    is_artifact_id(read) && json_members(arguments) == Some(
                        #[trigger] retrieval_members(read),
                    ),
                ResponseItemModel::CustomToolCall { name, namespace, input, call_id, .. } => name
                    == "read_tool_output"@ && namespace is None && call_id == id && exists|
                    read: Seq<char>,
                |
                    is_artifact_id(read) && json_members(input) == Some(
                        #[trigger] retrieval_members(read),
                    ),
                _ => false,
            })
            &&& (match output.item {
                ResponseItemModel::FunctionCallOutput { call_id, name, namespace, output, .. } => {
                    call_id == Some(id) && name == Some("read_tool_output"@) && namespace is None
                        && (match output.body {
                        BodyModel::Text(text) => json_members(text) == Some(
                            control_members(artifact),
                        ),
                        _ => false,
                    })
                },
                ResponseItemModel::CustomToolCallOutput { call_id, name, output, .. } => {
                    call_id == id && name == Some("read_tool_output"@) && (match output.body {
                        BodyModel::Text(text) => json_members(text) == Some(
                            control_members(artifact),
                        ),
                        _ => false,
                    })
                },
                _ => false,
            })
            &&& is_artifact_id(artifact)
            &&& id == "artifact_ref_"@ + artifact.skip(4)
        },
{
    assert forall|read: Seq<char>|
        text_member(#[trigger] retrieval_members(read), "artifact_id"@) == Some(read) by {
        retrieval_reads_the_first_byte(read);
    }
    control_names_its_artifact(artifact);
    assert forall|members: Members, other: Seq<char>|
        members == control_members(artifact) && text_member(members, "artifact_id"@) == Some(other)
        implies other == artifact by {}
}

} // verus!
