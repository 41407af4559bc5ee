//! Call identifiers of managed artifact controls that every provider accepts.

use vstd::prelude::*;
use vstd::string::*;

use crate::artifact_id::{is_artifact_id, OutputArtifactId};
use crate::history::{envelope_models, texts, EnvelopeModel, ResponseItemEnvelope};
use crate::json::{
    hex_digit, json_members, object_text, text_member, with_member, JsonModel, JsonObject,
    JsonValue, Members,
};
use crate::protocol::{
    optional_text, BodyModel, FunctionCallOutputBody, ResponseItem, ResponseItemModel,
};
use crate::text::{byte_len, chars_of, same_text, text_of, utf8_len};

verus! {

/// The longest call identifier that a provider accepts.
pub const MAX_PROVIDER_IDENTIFIER_BYTES: usize = 64;

/// The length of the identifiers that carried a whole digest.
pub const LEGACY_SYNTHETIC_CALL_ID_LEN: usize = 77;

/// How many digits of the digest an identifier keeps.
pub const SYNTHETIC_CALL_ID_DIGEST_HEX_CHARS: usize = 46;

/// What all synthetic call identifiers begin with.
pub open spec fn synthetic_prefix() -> Seq<char> {
    "artifact_ref_"@
}

/// The identifier that carries the whole digest of an artifact.
pub open spec fn legacy_call_id(artifact: Seq<char>) -> Seq<char> {
    synthetic_prefix() + artifact.skip(4)
}

/// Four hexadecimal digits.
pub open spec fn hex4(n: nat) -> Seq<char> {
    seq![
        hex_digit(n / 4096 % 16),
        hex_digit(n / 256 % 16),
        hex_digit(n / 16 % 16),
        hex_digit(n % 16),
    ]
}

/// The candidates for the identifier of an artifact, in the order in which they are tried.
pub open spec fn candidate_id(artifact: Seq<char>, ordinal: nat) -> Seq<char> {
    let base = synthetic_prefix() + artifact.skip(4).take(
        SYNTHETIC_CALL_ID_DIGEST_HEX_CHARS as int,
    );
    if ordinal == 0 {
        base
    } else {
        base + seq!['_'] + hex4(ordinal)
    }
}

fn hex4_char(n: u16) -> (c: char)
    requires
        n < 16,
    ensures
        c == hex_digit(n as nat),
{
    if n < 10 {
        (48u8 + n as u8) as char
    } else {
        (97u8 + (n as u8 - 10)) as char
    }
}

/// A candidate for the identifier of an artifact.
pub fn synthetic_candidate(artifact_id: &OutputArtifactId, ordinal: u16) -> (r: String)
    ensures
        r@ == candidate_id(artifact_id@, ordinal as nat),
        utf8_len(r@) <= MAX_PROVIDER_IDENTIFIER_BYTES,
{
    let digest = chars_of(artifact_id.digest().as_str());
    let mut id = String::from_str("artifact_ref_");
    id.append(text_of(&digest, 0, SYNTHETIC_CALL_ID_DIGEST_HEX_CHARS).as_str());
    proof {
        use_type_invariant(artifact_id);
        candidate_within_limit(artifact_id@, ordinal as nat);
        assert(digest@.subrange(0, SYNTHETIC_CALL_ID_DIGEST_HEX_CHARS as int) =~= digest@.take(
            SYNTHETIC_CALL_ID_DIGEST_HEX_CHARS as int,
        ));
    }
    if ordinal > 0 {
        let ghost base = id@;
        id.push('_');
        id.push(hex4_char(ordinal / 4096 % 16));
        id.push(hex4_char(ordinal / 256 % 16));
        id.push(hex4_char(ordinal / 16 % 16));
        id.push(hex4_char(ordinal % 16));
        proof {
            assert(id@ =~= base + seq!['_'] + hex4(ordinal as nat));
        }
    }
    id
}

/// Every candidate is short enough for a provider.
pub proof fn candidate_within_limit(artifact: Seq<char>, ordinal: nat)
    requires
        is_artifact_id(artifact),
    ensures
        utf8_len(candidate_id(artifact, ordinal)) <= MAX_PROVIDER_IDENTIFIER_BYTES,
        utf8_len(legacy_call_id(artifact)) == LEGACY_SYNTHETIC_CALL_ID_LEN,
{
    reveal_strlit("artifact_ref_");
    let id = candidate_id(artifact, ordinal);
    assert(id.len() <= 64);
    assert forall|i: int| 0 <= i < id.len() implies '\0' <= #[trigger] id[i] <= '\u{7f}' by {
        let front = synthetic_prefix().len() as int;
        if i >= front && i < front + 46 {
            assert(id[i] == artifact[4 + (i - front)]);
        }
    }
    vstd::utf8::is_ascii_chars_encode_utf8(id);
    let whole = legacy_call_id(artifact);
    assert forall|i: int| 0 <= i < whole.len() implies '\0' <= #[trigger] whole[i] <= '\u{7f}' by {
        let front = synthetic_prefix().len() as int;
        if i >= front {
            assert(whole[i] == artifact[4 + (i - front)]);
        }
    }
    vstd::utf8::is_ascii_chars_encode_utf8(whole);
}

/// The identifiers in use and the ones handed out.
pub struct AllocatorModel {
    pub used: Seq<Seq<char>>,
    pub assigned: Seq<(Seq<char>, Seq<char>)>,
}

/// The identifier that was handed out for an artifact.
pub open spec fn assigned_id(
    assigned: Seq<(Seq<char>, Seq<char>)>,
    artifact: Seq<char>,
) -> Option<Seq<char>>
    decreases assigned.len(),
{
    if assigned.len() == 0 {
        None
    } else if assigned.last().0 == artifact {
        Some(assigned.last().1)
    } else {
        assigned_id(assigned.drop_last(), artifact)
    }
}

/// The first candidate from `ordinal` on that is not in use.
pub open spec fn first_free(used: Seq<Seq<char>>, artifact: Seq<char>, ordinal: nat) -> Option<nat>
    decreases 65536 - ordinal,
{
    if ordinal > 65535 {
        None
    } else if !used.contains(candidate_id(artifact, ordinal)) {
        Some(ordinal)
    } else {
        first_free(used, artifact, ordinal + 1)
    }
}

/// The identifier for an artifact, and the allocator after it was handed out.
pub open spec fn allocated(model: AllocatorModel, artifact: Seq<char>) -> (
    AllocatorModel,
    Option<Seq<char>>,
) {
    match assigned_id(model.assigned, artifact) {
        Some(id) => (model, Some(id)),
        None => match first_free(model.used, artifact, 0) {
            Some(ordinal) => {
                let id = candidate_id(artifact, ordinal);
                (
                    AllocatorModel {
                        used: model.used.push(id),
                        assigned: model.assigned.push((artifact, id)),
                    },
                    Some(id),
                )
            },
            None => (model, None),
        },
    }
}

/// Allocates deterministic provider-safe IDs for managed artifact controls.
///
/// The first candidate retains 184 bits of the artifact digest. A fixed-width collision suffix
/// keeps every candidate within the provider's 64-byte identifier limit while making collision
/// resolution deterministic for the order in which a history is replayed.
pub struct SyntheticArtifactCallIdAllocator {
    used_ids: Vec<String>,
    assignments: Vec<(OutputArtifactId, String)>,
}

/// The models of the identifiers handed out.
pub open spec fn assignment_models(list: Seq<(OutputArtifactId, String)>) -> Seq<
    (Seq<char>, Seq<char>),
> {
    list.map_values(|pair: (OutputArtifactId, String)| (pair.0@, pair.1@))
}

/// The identifiers that an item uses.
pub open spec fn item_ids(item: ResponseItemModel) -> Seq<Seq<char>> {
    let (id, call_id) = match item {
        ResponseItemModel::Message { id, .. } => (id, None),
        ResponseItemModel::FunctionCall { id, call_id, .. } => (id, Some(call_id)),
        ResponseItemModel::FunctionCallOutput { id, call_id, .. } => (id, call_id),
        ResponseItemModel::CustomToolCall { id, call_id, .. } => (id, Some(call_id)),
        ResponseItemModel::CustomToolCallOutput { id, call_id, .. } => (id, Some(call_id)),
        ResponseItemModel::LocalShellCall { id, call_id, .. } => (id, call_id),
        ResponseItemModel::ToolSearchCall { id, call_id, .. } => (id, call_id),
        ResponseItemModel::ToolSearchOutput { id, call_id, .. } => (id, call_id),
        ResponseItemModel::Opaque { id, .. } => (id, None),
        ResponseItemModel::Other => (None, None),
    };
    one_text(id) + one_text(call_id)
}

/// A list of one text or none.
pub open spec fn one_text(text: Option<Seq<char>>) -> Seq<Seq<char>> {
    match text {
        Some(text) => seq![text],
        None => seq![],
    }
}

/// The identifiers that a history uses.
pub open spec fn history_ids(history: Seq<EnvelopeModel>) -> Seq<Seq<char>>
    decreases history.len(),
{
    if history.len() == 0 {
        seq![]
    } else {
        history_ids(history.drop_last()) + item_ids(history.last().item)
    }
}

fn push_optional(ids: &mut Vec<String>, text: &Option<String>)
    ensures
        texts(final(ids)@) == texts(old(ids)@) + one_text(optional_text(*text)),
{
    match text {
        Some(text) => {
            ids.push(text.clone());
            proof {
                assert(texts(ids@) =~= texts(old(ids)@) + one_text(Some(text@)));
            }
        },
        None => {
            proof {
                assert(texts(ids@) =~= texts(old(ids)@) + one_text(None));
            }
        },
    }
}

fn push_text(ids: &mut Vec<String>, text: &String)
    ensures
        texts(final(ids)@) == texts(old(ids)@) + seq![text@],
{
    ids.push(text.clone());
    proof {
        assert(texts(ids@) =~= texts(old(ids)@) + seq![text@]);
    }
}

/// Adds the identifiers that an item uses.
fn collect_provider_identifiers(item: &ResponseItem, ids: &mut Vec<String>)
    ensures
        texts(final(ids)@) == texts(old(ids)@) + item_ids(item@),
{
    match item {
        ResponseItem::Message { id, .. } => {
            push_optional(ids, id);
        },
        ResponseItem::FunctionCall { id, call_id, .. } => {
            push_optional(ids, id);
            push_text(ids, call_id);
        },
        ResponseItem::FunctionCallOutput { id, call_id, .. } => {
            push_optional(ids, id);
            push_optional(ids, call_id);
        },
        ResponseItem::CustomToolCall { id, call_id, .. } => {
            push_optional(ids, id);
            push_text(ids, call_id);
        },
        ResponseItem::CustomToolCallOutput { id, call_id, .. } => {
            push_optional(ids, id);
            push_text(ids, call_id);
        },
        ResponseItem::LocalShellCall { id, call_id, .. } => {
            push_optional(ids, id);
            push_optional(ids, call_id);
        },
        ResponseItem::ToolSearchCall { id, call_id, .. } => {
            push_optional(ids, id);
            push_optional(ids, call_id);
        },
        ResponseItem::ToolSearchOutput { id, call_id, .. } => {
            push_optional(ids, id);
            push_optional(ids, call_id);
        },
        ResponseItem::Opaque { id, .. } => {
            push_optional(ids, id);
        },
        ResponseItem::Other => {},
    }
    proof {
        assert(texts(ids@) =~= texts(old(ids)@) + item_ids(item@));
    }
}

/// Whether a list holds a text.
pub fn list_contains(list: &Vec<String>, text: &str) -> (r: bool)
    ensures
        r == texts(list@).contains(text@),
{
    let mut i: usize = 0;
    while i < list.len()
        invariant
            i <= list@.len(),
            forall|j: int| 0 <= j < i ==> #[trigger] texts(list@)[j] != text@,
        decreases list@.len() - i,
    {
        proof {
            assert(texts(list@)[i as int] == list@[i as int]@);
        }
        if same_text(list[i].as_str(), text) {
            return true;
        }
        i += 1;
    }
    false
}

impl SyntheticArtifactCallIdAllocator {
    /// The identifiers in use and the ones handed out.
    pub closed spec fn view(&self) -> AllocatorModel {
        AllocatorModel {
            used: texts(self.used_ids@),
            assigned: assignment_models(self.assignments@),
        }
    }

    /// An allocator that avoids every identifier of a history.
    pub fn for_history(history: &Vec<ResponseItemEnvelope>) -> (r: Self)
        ensures
            r@.used == history_ids(envelope_models(history@)),
            r@.assigned == Seq::<(Seq<char>, Seq<char>)>::empty(),
    {
        let ghost all = envelope_models(history@);
        let mut used_ids: Vec<String> = Vec::new();
        let mut i: usize = 0;
        proof {
            assert(texts(used_ids@) =~= history_ids(all.take(0)));
        }
        while i < history.len()
            invariant
                i <= history@.len(),
                all == envelope_models(history@),
                texts(used_ids@) == history_ids(all.take(i as int)),
            decreases history@.len() - i,
        {
            proof {
                assert(all.take(i + 1).drop_last() =~= all.take(i as int));
                assert(all[i as int] == history@[i as int]@);
            }
            collect_provider_identifiers(&history[i].item, &mut used_ids);
            i += 1;
        }
        proof {
            assert(all.take(i as int) =~= all);
        }
        Self::with_used_ids(used_ids)
    }

    /// An allocator that avoids the given identifiers.
    pub fn with_used_ids(used_ids: Vec<String>) -> (r: Self)
        ensures
            r@.used == texts(used_ids@),
            r@.assigned == Seq::<(Seq<char>, Seq<char>)>::empty(),
    {
        let assignments: Vec<(OutputArtifactId, String)> = Vec::new();
        proof {
            assert(assignment_models(assignments@) =~= Seq::<(Seq<char>, Seq<char>)>::empty());
        }
        SyntheticArtifactCallIdAllocator { used_ids, assignments }
    }

    /// The identifier for an artifact: the one it was given before, or the first candidate that
    /// is not in use.
    pub fn next(&mut self, artifact_id: &OutputArtifactId) -> (r: Option<String>)
        ensures
            ({
                let (after, id) = allocated(old(self)@, artifact_id@);
                final(self)@ == after && optional_text(r) == id
            }),
    {
        let ghost before = self@;
        let mut i: usize = self.assignments.len();
        proof {
            assert(before.assigned.take(i as int) =~= before.assigned);
        }
        while i > 0
            invariant
                i <= self.assignments@.len(),
                *self == *old(self),
                before == self@,
                before.assigned.len() == self.assignments@.len(),
                assigned_id(before.assigned, artifact_id@) == assigned_id(
                    before.assigned.take(i as int),
                    artifact_id@,
                ),
            decreases i,
        {
            proof {
                assert(before.assigned.take(i as int).drop_last() =~= before.assigned.take(i - 1));
                assert(before.assigned[i - 1] == (
                    self.assignments@[i - 1].0@,
                    self.assignments@[i - 1].1@,
                ));
            }
            if self.assignments[i - 1].0.same(artifact_id) {
                return Some(self.assignments[i - 1].1.clone());
            }
            i -= 1;
        }
        let mut ordinal: u16 = 0;
        loop
            invariant
                *self == *old(self),
                before == self@,
                assigned_id(before.assigned, artifact_id@) is None,
                first_free(before.used, artifact_id@, 0) == first_free(
                    before.used,
                    artifact_id@,
                    ordinal as nat,
                ),
            decreases 65535 - ordinal,
        {
            let call_id = synthetic_candidate(artifact_id, ordinal);
            if !list_contains(&self.used_ids, call_id.as_str()) {
                self.used_ids.push(call_id.clone());
                self.assignments.push((artifact_id.clone(), call_id.clone()));
                proof {
                    assert(texts(self.used_ids@) =~= before.used.push(call_id@));
                    assert(assignment_models(self.assignments@) =~= before.assigned.push(
                        (artifact_id@, call_id@),
                    ));
                }
                return Some(call_id);
            }
            if ordinal == 65535 {
                proof {
                    assert(first_free(before.used, artifact_id@, 65536) is None);
                }
                return None;
            }
            ordinal += 1;
        }
    }
}

proof fn first_free_is_free(used: Seq<Seq<char>>, artifact: Seq<char>, ordinal: nat)
    ensures
        first_free(used, artifact, ordinal) matches Some(n) ==> ordinal <= n <= 65535
            && !used.contains(candidate_id(artifact, n)) && forall|m: nat|
            ordinal <= m < n ==> used.contains(#[trigger] candidate_id(artifact, m)),
        first_free(used, artifact, ordinal) is None ==> forall|m: nat|
            ordinal <= m <= 65535 ==> used.contains(#[trigger] candidate_id(artifact, m)),
    decreases 65536 - ordinal,
{
    if ordinal <= 65535 && used.contains(candidate_id(artifact, ordinal)) {
        first_free_is_free(used, artifact, ordinal + 1);
    }
}

/// An identifier that is handed out for the first time was not in use, is short enough for every
/// provider, and is handed out again for the same artifact.
pub proof fn allocated_id_is_fresh_and_stable(model: AllocatorModel, artifact: Seq<char>)
    requires
        is_artifact_id(artifact),
        assigned_id(model.assigned, artifact) is None,
        allocated(model, artifact).1 is Some,
    ensures
        ({
            let (after, id) = allocated(model, artifact);
            &&& !model.used.contains(id->0)
            &&& after.used.contains(id->0)
            &&& utf8_len(id->0) <= MAX_PROVIDER_IDENTIFIER_BYTES
            &&& allocated(after, artifact) == (after, id)
        }),
{
    first_free_is_free(model.used, artifact, 0);
    let (after, id) = allocated(model, artifact);
    candidate_within_limit(artifact, first_free(model.used, artifact, 0)->0);
    assert(after.used.last() == id->0);
    assert(after.assigned.last() == (artifact, id->0));
}

/// Identifiers that are handed out for two artifacts one after the other differ.
pub proof fn allocated_ids_differ(model: AllocatorModel, a: Seq<char>, b: Seq<char>)
    requires
        assigned_id(model.assigned, a) is None,
        assigned_id(model.assigned, b) is None,
        a != b,
        allocated(model, a).1 is Some,
        allocated(allocated(model, a).0, b).1 is Some,
    ensures
        allocated(model, a).1 != allocated(allocated(model, a).0, b).1,
{
    let (after, id) = allocated(model, a);
    first_free_is_free(after.used, b, 0);
    assert(after.assigned.drop_last() =~= model.assigned);
    assert(after.used.last() == id->0);
    assert(after.used.contains(id->0));
}

/// The members of the arguments that read an artifact.
pub open spec fn retrieval_members(id: Seq<char>) -> Members {
    with_member(
        with_member(
            with_member(
                with_member(seq![], "artifact_id"@, JsonModel::Text(id)),
                "mode"@,
                JsonModel::Text("bytes"@),
            ),
            "offset"@,
            JsonModel::Unsigned(0),
        ),
        "limit"@,
        JsonModel::Unsigned(1),
    )
}

fn retrieval_object(artifact_id: &OutputArtifactId) -> (r: JsonObject)
    ensures
        r@ == retrieval_members(artifact_id@),
{
    let mut value = JsonObject::new();
    value.set_text("artifact_id", artifact_id.as_str());
    value.set_text("mode", "bytes");
    value.set("offset", JsonValue::Unsigned(0));
    value.set("limit", JsonValue::Unsigned(1));
    value
}

/// The arguments of the call that a control is paired with.
pub fn synthetic_retrieval_arguments(artifact_id: &OutputArtifactId) -> (r: String)
    ensures
        r@ == object_text(retrieval_members(artifact_id@)),
{
    retrieval_object(artifact_id).to_text()
}

/// The members of the control for an artifact.
pub open spec fn control_members(id: Seq<char>) -> Members {
    with_member(
        with_member(
            with_member(
                with_member(seq![], "type"@, JsonModel::Text("tool_output_artifact"@)),
                "version"@,
                JsonModel::Unsigned(1),
            ),
            "artifact_id"@,
            JsonModel::Text(id),
        ),
        "retrieval"@,
        JsonModel::Text(
            "Use read_tool_output with artifact_id and mode bytes, lines, or search; follow next_offset or next_byte to continue."@,
        ),
    )
}

fn control_object(artifact_id: &OutputArtifactId) -> (r: JsonObject)
    ensures
        r@ == control_members(artifact_id@),
{
    let mut value = JsonObject::new();
    value.set_text("type", "tool_output_artifact");
    value.set("version", JsonValue::Unsigned(1));
    value.set_text("artifact_id", artifact_id.as_str());
    value.set_text(
        "retrieval",
        "Use read_tool_output with artifact_id and mode bytes, lines, or search; follow next_offset or next_byte to continue.",
    );
    value
}

/// The control for an artifact.
pub fn synthetic_artifact_control_body(artifact_id: &OutputArtifactId) -> (r: String)
    ensures
        r@ == object_text(control_members(artifact_id@)),
{
    control_object(artifact_id).to_text()
}

/// The call identifier of an item that calls a tool or searches for one.
pub open spec fn call_id_of(item: ResponseItemModel) -> Option<Seq<char>> {
    match item {
        ResponseItemModel::FunctionCall { call_id, .. } => Some(call_id),
        ResponseItemModel::CustomToolCall { call_id, .. } => Some(call_id),
        ResponseItemModel::LocalShellCall { call_id, .. } => call_id,
        ResponseItemModel::ToolSearchCall { call_id, .. } => call_id,
        ResponseItemModel::ToolSearchOutput { call_id, .. } => call_id,
        _ => None,
    }
}

/// The call identifier of a tool output.
pub open spec fn output_call_id_of(item: ResponseItemModel) -> Option<Seq<char>> {
    match item {
        ResponseItemModel::FunctionCallOutput { call_id, .. } => call_id,
        ResponseItemModel::CustomToolCallOutput { call_id, .. } => Some(call_id),
        _ => None,
    }
}

/// The model of an optional borrowed text.
pub open spec fn optional_ref(text: Option<&String>) -> Option<Seq<char>> {
    match text {
        Some(text) => Some(text@),
        None => None,
    }
}

/// The call identifier of an item that calls a tool or searches for one.
pub fn response_call_id(item: &ResponseItem) -> (r: Option<&String>)
    ensures
        optional_ref(r) == call_id_of(item@),
{
    match item {
        ResponseItem::FunctionCall { call_id, .. } => Some(call_id),
        ResponseItem::CustomToolCall { call_id, .. } => Some(call_id),
        ResponseItem::LocalShellCall { call_id, .. } => call_id.as_ref(),
        ResponseItem::ToolSearchCall { call_id, .. } => call_id.as_ref(),
        ResponseItem::ToolSearchOutput { call_id, .. } => call_id.as_ref(),
        _ => None,
    }
}

/// The call identifier of a tool output.
pub fn response_output_call_id(item: &ResponseItem) -> (r: Option<&String>)
    ensures
        optional_ref(r) == output_call_id_of(item@),
{
    match item {
        ResponseItem::FunctionCallOutput { call_id, .. } => call_id.as_ref(),
        ResponseItem::CustomToolCallOutput { call_id, .. } => Some(call_id),
        _ => None,
    }
}

/// The item with another call identifier.
pub open spec fn with_call_id(item: ResponseItemModel, new: Seq<char>) -> ResponseItemModel {
    match item {
        ResponseItemModel::FunctionCall {
            id,
            name,
            namespace,
            arguments,
            encrypted_function_args,
            internal_chat_message_metadata_passthrough,
            ..
        } => ResponseItemModel::FunctionCall {
            id,
            name,
            namespace,
            arguments,
            encrypted_function_args,
            call_id: new,
            internal_chat_message_metadata_passthrough,
        },
        ResponseItemModel::CustomToolCall {
            id,
            status,
            name,
            namespace,
            input,
            internal_chat_message_metadata_passthrough,
            ..
        } => ResponseItemModel::CustomToolCall {
            id,
            status,
            call_id: new,
            name,
            namespace,
            input,
            internal_chat_message_metadata_passthrough,
        },
        ResponseItemModel::LocalShellCall { id, details, .. } => {
            ResponseItemModel::LocalShellCall { id, call_id: Some(new), details }
        },
        ResponseItemModel::ToolSearchCall { id, details, .. } => {
            ResponseItemModel::ToolSearchCall { id, call_id: Some(new), details }
        },
        _ => item,
    }
}

/// The output with another call identifier.
pub open spec fn with_output_call_id(item: ResponseItemModel, new: Seq<char>) -> ResponseItemModel {
    match item {
        ResponseItemModel::FunctionCallOutput {
            id,
            name,
            namespace,
            output,
            internal_chat_message_metadata_passthrough,
            ..
        } => ResponseItemModel::FunctionCallOutput {
            id,
            call_id: Some(new),
            name,
            namespace,
            output,
            internal_chat_message_metadata_passthrough,
        },
        ResponseItemModel::CustomToolCallOutput {
            id,
            name,
            output,
            internal_chat_message_metadata_passthrough,
            ..
        } => ResponseItemModel::CustomToolCallOutput {
            id,
            call_id: new,
            name,
            output,
            internal_chat_message_metadata_passthrough,
        },
        _ => item,
    }
}

fn set_response_call_id(item: &mut ResponseItem, new: &str)
    ensures
        final(item)@ == with_call_id(old(item)@, new@),
{
    match item {
        ResponseItem::FunctionCall { call_id, .. } => {
            *call_id = new.to_owned();
        },
        ResponseItem::CustomToolCall { call_id, .. } => {
            *call_id = new.to_owned();
        },
        ResponseItem::LocalShellCall { call_id, .. } => {
            *call_id = Some(new.to_owned());
        },
        ResponseItem::ToolSearchCall { call_id, .. } => {
            *call_id = Some(new.to_owned());
        },
        _ => {},
    }
}

fn set_response_output_call_id(item: &mut ResponseItem, new: &str)
    ensures
        final(item)@ == with_output_call_id(old(item)@, new@),
{
    match item {
        ResponseItem::FunctionCallOutput { call_id, .. } => {
            *call_id = Some(new.to_owned());
        },
        ResponseItem::CustomToolCallOutput { call_id, .. } => {
            *call_id = new.to_owned();
        },
        _ => {},
    }
}

/// Whether all call identifiers of the items are short enough for a provider.
pub open spec fn ids_within_limit(items: Seq<ResponseItemModel>) -> bool {
    forall|i: int|
        0 <= i < items.len() ==> (match call_id_of(#[trigger] items[i]) {
            Some(id) => utf8_len(id) <= MAX_PROVIDER_IDENTIFIER_BYTES,
            None => match output_call_id_of(items[i]) {
                Some(id) => utf8_len(id) <= MAX_PROVIDER_IDENTIFIER_BYTES,
                None => true,
            },
        })
}

/// Returns whether all Responses tool-call identifiers fit the provider-bound limit.
///
/// Provider-authored response item IDs deliberately remain permissive for rollout compatibility;
/// only `call_id` fields carry the limit.
pub fn provider_call_ids_within_limit(items: &Vec<ResponseItem>) -> (r: bool)
    ensures
        r == ids_within_limit(items@.map_values(|item: ResponseItem| item@)),
{
    let ghost all = items@.map_values(|item: ResponseItem| item@);
    let mut i: usize = 0;
    while i < items.len()
        invariant
            i <= items@.len(),
            all == items@.map_values(|item: ResponseItem| item@),
            forall|j: int|
                0 <= j < i ==> (match call_id_of(#[trigger] all[j]) {
                    Some(id) => utf8_len(id) <= MAX_PROVIDER_IDENTIFIER_BYTES,
                    None => match output_call_id_of(all[j]) {
                        Some(id) => utf8_len(id) <= MAX_PROVIDER_IDENTIFIER_BYTES,
                        None => true,
                    },
                }),
        decreases items@.len() - i,
    {
        proof {
            assert(all[i as int] == items@[i as int]@);
        }
        let id = match response_call_id(&items[i]) {
            Some(id) => Some(id),
            None => response_output_call_id(&items[i]),
        };
        if let Some(id) = id {
            if byte_len(id.as_str()) > MAX_PROVIDER_IDENTIFIER_BYTES {
                return false;
            }
        }
        i += 1;
    }
    true
}

/// Whether an item is the call that a control of this library is paired with.
pub open spec fn is_canonical_read_call(item: ResponseItemModel, call: Seq<char>) -> bool {
    let (name, namespace, arguments, call_id) = match item {
        ResponseItemModel::FunctionCall { name, namespace, arguments, call_id, .. } => (
            name,
            namespace,
            arguments,
            call_id,
        ),
        ResponseItemModel::CustomToolCall { name, namespace, input, call_id, .. } => (
            name,
            namespace,
            input,
            call_id,
        ),
        _ => (seq![], None, seq![], seq![]),
    };
    &&& item is FunctionCall || item is CustomToolCall
    &&& name == "read_tool_output"@ && namespace is None && call_id == call
    &&& json_members(arguments) matches Some(members) && text_member(
        members,
        "artifact_id"@,
    ) matches Some(id) && is_artifact_id(id) && members == retrieval_members(id)
}

fn canonical_read_tool_output_call(item: &ResponseItem, call: &str) -> (r: bool)
    ensures
        r == is_canonical_read_call(item@, call@),
{
    let (name, namespace, arguments, call_id) = match item {
        ResponseItem::FunctionCall { name, namespace, arguments, call_id, .. } => (
            name,
            namespace,
            arguments,
            call_id,
        ),
        ResponseItem::CustomToolCall { name, namespace, input, call_id, .. } => (
            name,
            namespace,
            input,
            call_id,
        ),
        _ => {
            return false;
        },
    };
    if !same_text(name.as_str(), "read_tool_output") || namespace.is_some() || !same_text(
        call_id.as_str(),
        call,
    ) {
        return false;
    }
    let value = match JsonObject::parse(arguments.as_str()) {
        Some(value) => value,
        None => {
            return false;
        },
    };
    let id = match value.get_text("artifact_id") {
        Some(id) => id,
        None => {
            return false;
        },
    };
    match OutputArtifactId::parse(id) {
        Some(id) => value.same(&retrieval_object(&id)),
        None => false,
    }
}

/// Whether an envelope is marked as a verified store-backed control.
pub open spec fn is_store_backed(envelope: EnvelopeModel) -> bool {
    envelope.metadata matches Some(metadata) && metadata.store_backed
}

/// Whether an envelope is marked as a verified store-backed control.
pub fn store_backed(envelope: &ResponseItemEnvelope) -> (r: bool)
    ensures
        r == is_store_backed(envelope@),
{
    match &envelope.metadata {
        Some(metadata) => metadata.is_store_backed_tool_output(),
        None => false,
    }
}

/// The text of an output of `read_tool_output` for a call.
pub open spec fn read_output_text(item: ResponseItemModel, call: Seq<char>) -> Option<Seq<char>> {
    match item {
        ResponseItemModel::FunctionCallOutput { call_id, name, namespace, output, .. } => {
            match output.body {
                BodyModel::Text(text) => if call_id == Some(call) && name == Some(
                    "read_tool_output"@,
                ) && namespace is None {
                    Some(text)
                } else {
                    None
                },
                _ => None,
            }
        },
        ResponseItemModel::CustomToolCallOutput { call_id, name, output, .. } => {
            match output.body {
                BodyModel::Text(text) => if call_id == call && name == Some(
                    "read_tool_output"@,
                ) {
                    Some(text)
                } else {
                    None
                },
                _ => None,
            }
        },
        _ => None,
    }
}

/// The artifact of a pair that was written with the whole digest as its identifier.
pub open spec fn legacy_artifact(
    call: EnvelopeModel,
    output: EnvelopeModel,
    id: Seq<char>,
) -> Option<Seq<char>> {
    if !is_store_backed(output) || !is_canonical_read_call(call.item, id) {
        None
    } else {
        match read_output_text(output.item, id) {
            None => None,
            Some(text) => match json_members(text) {
                None => None,
                Some(members) => match text_member(members, "artifact_id"@) {
                    None => None,
                    Some(artifact) => if is_artifact_id(artifact) && members == control_members(
                        artifact,
                    ) && id == legacy_call_id(artifact) {
                        Some(artifact)
                    } else {
                        None
                    },
                },
            },
        }
    }
}

fn output_text<'a>(item: &'a ResponseItem, call: &str) -> (r: Option<&'a String>)
    ensures
        optional_ref(r) == read_output_text(item@, call@),
{
    let (call_id, name, output) = match item {
        ResponseItem::FunctionCallOutput {
            call_id: Some(call_id),
            name: Some(name),
            namespace: None,
            output,
            ..
        } => (call_id, name, output),
        ResponseItem::CustomToolCallOutput { call_id, name: Some(name), output, .. } => (
            call_id,
            name,
            output,
        ),
        _ => {
            return None;
        },
    };
    if !same_text(call_id.as_str(), call) || !same_text(name.as_str(), "read_tool_output") {
        return None;
    }
    match &output.body {
        FunctionCallOutputBody::Text(text) => Some(text),
        FunctionCallOutputBody::ContentItems(_) => None,
    }
}

fn trusted_legacy_artifact_id(
    call: &ResponseItemEnvelope,
    output: &ResponseItemEnvelope,
    id: &str,
) -> (r: Option<OutputArtifactId>)
    ensures
        match r {
            Some(artifact) => legacy_artifact(call@, output@, id@) == Some(artifact@),
            None => legacy_artifact(call@, output@, id@) is None,
        },
{
    if !store_backed(output) || !canonical_read_tool_output_call(&call.item, id) {
        return None;
    }
    let text = match output_text(&output.item, id) {
        Some(text) => text,
        None => {
            return None;
        },
    };
    let value = match JsonObject::parse(text.as_str()) {
        Some(value) => value,
        None => {
            return None;
        },
    };
    let artifact = match value.get_text("artifact_id") {
        Some(artifact) => artifact,
        None => {
            return None;
        },
    };
    let artifact = match OutputArtifactId::parse(artifact) {
        Some(artifact) => artifact,
        None => {
            return None;
        },
    };
    if !value.same(&control_object(&artifact)) {
        return None;
    }
    let mut expected = String::from_str("artifact_ref_");
    expected.append(artifact.digest().as_str());
    if same_text(id, expected.as_str()) {
        Some(artifact)
    } else {
        None
    }
}

/// Whether exactly one output of a history answers a call, at position `j`.
pub open spec fn only_output(history: Seq<EnvelopeModel>, id: Seq<char>, j: int) -> bool {
    &&& 0 <= j < history.len()
    &&& output_call_id_of(history[j].item) == Some(id)
    &&& forall|k: int|
        0 <= k < history.len() && output_call_id_of(#[trigger] history[k].item) == Some(id) ==> k
            == j
}

/// The position of the only output that answers a call.
pub open spec fn only_output_at(history: Seq<EnvelopeModel>, id: Seq<char>) -> Option<int> {
    if exists|j: int| only_output(history, id, j) {
        Some(choose|j: int| only_output(history, id, j))
    } else {
        None
    }
}

fn find_only_output(history: &Vec<ResponseItemEnvelope>, id: &str) -> (r: Option<usize>)
    ensures
        match r {
            Some(j) => only_output_at(envelope_models(history@), id@) == Some(j as int) && j
                < history@.len(),
            None => only_output_at(envelope_models(history@), id@) is None,
        },
{
    let ghost all = envelope_models(history@);
    let mut found: Option<usize> = None;
    let mut i: usize = 0;
    while i < history.len()
        invariant
            i <= history@.len(),
            all == envelope_models(history@),
            match found {
                None => forall|k: int|
                    0 <= k < i ==> output_call_id_of(#[trigger] all[k].item) != Some(id@),
                Some(j) => j < i && output_call_id_of(all[j as int].item) == Some(id@) && forall|
                    k: int,
                |
                    0 <= k < i && output_call_id_of(#[trigger] all[k].item) == Some(id@) ==> k
                        == j,
            },
        decreases history@.len() - i,
    {
        proof {
            assert(all[i as int] == history@[i as int]@);
        }
        let matches = match response_output_call_id(&history[i].item) {
            Some(call_id) => same_text(call_id.as_str(), id),
            None => false,
        };
        if matches {
            match found {
                Some(j) => {
                    proof {
                        assert(output_call_id_of(all[j as int].item) == Some(id@));
                        assert(output_call_id_of(all[i as int].item) == Some(id@));
                        assert(!exists|n: int| only_output(all, id@, n));
                    }
                    return None;
                },
                None => {
                    found = Some(i);
                },
            }
        }
        i += 1;
    }
    proof {
        match found {
            Some(j) => {
                assert(only_output(all, id@, j as int));
            },
            None => {
                assert(!exists|n: int| only_output(all, id@, n));
            },
        }
    }
    found
}

/// The history and the allocator after the call at position `i` was looked at.
pub open spec fn repair_at(
    history: Seq<EnvelopeModel>,
    allocator: AllocatorModel,
    i: int,
) -> (Seq<EnvelopeModel>, AllocatorModel) {
    let unchanged = (history, allocator);
    match call_id_of(history[i].item) {
        None => unchanged,
        Some(id) => if utf8_len(id) != LEGACY_SYNTHETIC_CALL_ID_LEN {
            unchanged
        } else {
            match only_output_at(history, id) {
                None => unchanged,
                Some(j) => match legacy_artifact(history[i], history[j], id) {
                    None => unchanged,
                    Some(artifact) => {
                        let (after, new) = allocated(allocator, artifact);
                        match new {
                            None => (history, after),
                            Some(new) => {
                                let called = history.update(
                                    i,
                                    EnvelopeModel {
                                        item: with_call_id(history[i].item, new),
                                        metadata: history[i].metadata,
                                    },
                                );
                                (
                                    called.update(
                                        j,
                                        EnvelopeModel {
                                            item: with_output_call_id(called[j].item, new),
                                            metadata: called[j].metadata,
                                        },
                                    ),
                                    after,
                                )
                            },
                        }
                    },
                },
            }
        },
    }
}

/// The history and the allocator after the first `n` items were looked at.
pub open spec fn repaired(history: Seq<EnvelopeModel>, n: int) -> (
    Seq<EnvelopeModel>,
    AllocatorModel,
)
    decreases n,
{
    if n <= 0 {
        (history, AllocatorModel { used: history_ids(history), assigned: seq![] })
    } else {
        let (before, allocator) = repaired(history, n - 1);
        repair_at(before, allocator, n - 1)
    }
}

fn repair_one(
    history: &mut Vec<ResponseItemEnvelope>,
    allocator: &mut SyntheticArtifactCallIdAllocator,
    i: usize,
)
    requires
        i < old(history)@.len(),
    ensures
        (envelope_models(final(history)@), final(allocator)@) == repair_at(
            envelope_models(old(history)@),
            old(allocator)@,
            i as int,
        ),
        final(history)@.len() == old(history)@.len(),
{
    let ghost all = envelope_models(history@);
    proof {
        assert(all[i as int] == history@[i as int]@);
    }
    let id = match response_call_id(&history[i].item) {
        Some(id) => id.clone(),
        None => {
            return;
        },
    };
    if byte_len(id.as_str()) != LEGACY_SYNTHETIC_CALL_ID_LEN {
        return;
    }
    let j: usize = match find_only_output(history, id.as_str()) {
        Some(j) => j,
        None => {
            return;
        },
    };
    proof {
        assert(all[j as int] == history@[j as int]@);
    }
    let artifact = match trusted_legacy_artifact_id(&history[i], &history[j], id.as_str()) {
        Some(artifact) => artifact,
        None => {
            return;
        },
    };
    let new = match allocator.next(&artifact) {
        Some(new) => new,
        None => {
            return;
        },
    };
    let mut call = history[i].clone();
    set_response_call_id(&mut call.item, new.as_str());
    history.set(i, call);
    proof {
        let called = all.update(
            i as int,
            EnvelopeModel {
                item: with_call_id(all[i as int].item, new@),
                metadata: all[i as int].metadata,
            },
        );
        assert(envelope_models(history@) =~= called);
        assert(called[j as int] == history@[j as int]@);
    }
    let ghost called = envelope_models(history@);
    let mut output = history[j].clone();
    set_response_output_call_id(&mut output.item, new.as_str());
    history.set(j, output);
    proof {
        assert(envelope_models(history@) =~= called.update(
            j as int,
            EnvelopeModel {
                item: with_output_call_id(called[j as int].item, new@),
                metadata: called[j as int].metadata,
            },
        ));
    }
}

/// Repairs only the managed artifact controls whose identifiers carry a whole digest.
///
/// The exact call/output shape and trusted metadata are required so a user or
/// provider-controlled ID cannot gain managed-artifact privileges by prefix alone.
pub fn canonicalize_legacy_artifact_controls(history: &mut Vec<ResponseItemEnvelope>)
    ensures
        envelope_models(final(history)@) == repaired(
            envelope_models(old(history)@),
            old(history)@.len() as int,
        ).0,
{
    let mut allocator = SyntheticArtifactCallIdAllocator::for_history(history);
    let ghost original = envelope_models(history@);
    let count: usize = history.len();
    let mut i: usize = 0;
    while i < count
        invariant
            i <= count,
            count == history@.len(),
            count == original.len(),
            original == envelope_models(old(history)@),
            (envelope_models(history@), allocator@) == repaired(original, i as int),
        decreases count - i,
    {
        repair_one(history, &mut allocator, i);
        i += 1;
    }
}

/// Whether every identifier that was handed out is short enough for a provider.
spec fn assigned_within_limit(assigned: Seq<(Seq<char>, Seq<char>)>) -> bool {
    forall|i: int|
        0 <= i < assigned.len() ==> utf8_len((#[trigger] assigned[i]).1)
            <= MAX_PROVIDER_IDENTIFIER_BYTES
}

proof fn allocated_within_limit(model: AllocatorModel, artifact: Seq<char>)
    requires
        is_artifact_id(artifact),
        assigned_within_limit(model.assigned),
    ensures
        assigned_within_limit(allocated(model, artifact).0.assigned),
        allocated(model, artifact).1 matches Some(id) ==> utf8_len(id)
            <= MAX_PROVIDER_IDENTIFIER_BYTES,
{
    assigned_id_listed(model.assigned, artifact);
    if let Some(ordinal) = first_free(model.used, artifact, 0) {
        candidate_within_limit(artifact, ordinal);
    }
}

proof fn assigned_id_listed(assigned: Seq<(Seq<char>, Seq<char>)>, artifact: Seq<char>)
    ensures
        assigned_id(assigned, artifact) matches Some(id) ==> exists|i: int|
            0 <= i < assigned.len() && #[trigger] assigned[i] == (artifact, id),
    decreases assigned.len(),
{
    if assigned.len() > 0 {
        if assigned.last().0 == artifact {
            assert(assigned[assigned.len() - 1] == (artifact, assigned.last().1));
        } else {
            assigned_id_listed(assigned.drop_last(), artifact);
            if let Some(id) = assigned_id(assigned, artifact) {
                let front = assigned.drop_last();
                let i = choose|i: int|
                    0 <= i < front.len() && #[trigger] front[i] == (artifact, id);
                assert(assigned[i] == (artifact, id));
            }
        }
    }
}

/// Whether two history entries are the same but for a call identifier that a provider accepts.
pub open spec fn same_but_call_id(before: EnvelopeModel, after: EnvelopeModel) -> bool {
    &&& after.metadata == before.metadata
    &&& after.item == before.item || exists|new: Seq<char>|
        #![trigger utf8_len(new)]
        utf8_len(new) <= MAX_PROVIDER_IDENTIFIER_BYTES && (after.item == with_call_id(
            before.item,
            new,
        ) || after.item == with_output_call_id(before.item, new))
}

proof fn same_but_call_id_again(a: EnvelopeModel, b: EnvelopeModel, new: Seq<char>)
    requires
        same_but_call_id(a, b),
        utf8_len(new) <= MAX_PROVIDER_IDENTIFIER_BYTES,
    ensures
        same_but_call_id(
            a,
            EnvelopeModel { item: with_call_id(b.item, new), metadata: b.metadata },
        ),
        same_but_call_id(
            a,
            EnvelopeModel { item: with_output_call_id(b.item, new), metadata: b.metadata },
        ),
{
    if b.item != a.item {
        let old_id = choose|old_id: Seq<char>|
            #![trigger utf8_len(old_id)]
            utf8_len(old_id) <= MAX_PROVIDER_IDENTIFIER_BYTES && (b.item == with_call_id(
                a.item,
                old_id,
            ) || b.item == with_output_call_id(a.item, old_id));
        assert(utf8_len(old_id) <= MAX_PROVIDER_IDENTIFIER_BYTES);
        match a.item {
            ResponseItemModel::FunctionCallOutput { .. } => {
                assert(with_call_id(b.item, new) == b.item);
                assert(with_output_call_id(b.item, new) == with_output_call_id(a.item, new));
            },
            ResponseItemModel::CustomToolCallOutput { .. } => {
                assert(with_call_id(b.item, new) == b.item);
                assert(with_output_call_id(b.item, new) == with_output_call_id(a.item, new));
            },
            _ => {
                assert(with_output_call_id(b.item, new) == b.item);
                assert(with_call_id(b.item, new) == with_call_id(a.item, new));
            },
        }
    }
}

proof fn repaired_changes(history: Seq<EnvelopeModel>, n: int)
    requires
        0 <= n <= history.len(),
    ensures
        repaired(history, n).0.len() == history.len(),
        assigned_within_limit(repaired(history, n).1.assigned),
        forall|k: int|
            0 <= k < history.len() ==> same_but_call_id(
                history[k],
                #[trigger] repaired(history, n).0[k],
            ),
    decreases n,
{
    if n > 0 {
        repaired_changes(history, n - 1);
        let (before, allocator) = repaired(history, n - 1);
        let (after, _) = repair_at(before, allocator, n - 1);
        if let Some(id) = call_id_of(before[n - 1].item) {
            if let Some(j) = only_output_at(before, id) {
                if let Some(artifact) = legacy_artifact(before[n - 1], before[j], id) {
                    allocated_within_limit(allocator, artifact);
                    if let Some(new) = allocated(allocator, artifact).1 {
                        assert(only_output(before, id, j));
                        assert forall|k: int| 0 <= k < history.len() implies same_but_call_id(
                            history[k],
                            #[trigger] after[k],
                        ) by {
                            assert(same_but_call_id(history[k], before[k]));
                            same_but_call_id_again(history[k], before[k], new);
                            if k == n - 1 && k == j {
                                let called = EnvelopeModel {
                                    item: with_call_id(before[k].item, new),
                                    metadata: before[k].metadata,
                                };
                                same_but_call_id_again(history[k], called, new);
                            }
                        }
                    }
                }
            }
        }
    }
}

/// Repairing a history changes nothing but call identifiers, and only to ones that every
/// provider accepts.
pub proof fn repair_changes_only_call_ids(history: Seq<EnvelopeModel>)
    ensures
        repaired(history, history.len() as int).0.len() == history.len(),
        forall|k: int|
            0 <= k < history.len() ==> same_but_call_id(
                history[k],
                #[trigger] repaired(history, history.len() as int).0[k],
            ),
{
    repaired_changes(history, history.len() as int);
}

/// A history without verified store-backed controls is not changed, whatever its identifiers
/// look like.
pub proof fn untrusted_history_is_not_repaired(history: Seq<EnvelopeModel>, n: int)
    requires
        0 <= n <= history.len(),
        forall|k: int| 0 <= k < history.len() ==> !is_store_backed(#[trigger] history[k]),
    ensures
        repaired(history, n).0 == history,
    decreases n,
{
    if n > 0 {
        untrusted_history_is_not_repaired(history, n - 1);
        if let Some(id) = call_id_of(history[n - 1].item) {
            if let Some(j) = only_output_at(history, id) {
                assert(only_output(history, id, j));
                assert(!is_store_backed(history[j]));
            }
        }
    }
}

/// A trusted pair whose identifier carries the whole digest gets one identifier for both sides
/// that every provider accepts.
pub proof fn legacy_pair_is_repaired(
    history: Seq<EnvelopeModel>,
    allocator: AllocatorModel,
    i: int,
    j: int,
)
    requires
        0 <= i < history.len(),
        call_id_of(history[i].item) is Some,
        only_output_at(history, call_id_of(history[i].item)->0) == Some(j),
        legacy_artifact(history[i], history[j], call_id_of(history[i].item)->0) is Some,
        assigned_id(
            allocator.assigned,
            legacy_artifact(history[i], history[j], call_id_of(history[i].item)->0)->0,
        ) is None,
        first_free(
            allocator.used,
            legacy_artifact(history[i], history[j], call_id_of(history[i].item)->0)->0,
            0,
        ) is Some,
    ensures
        ({
            let after = repair_at(history, allocator, i).0;
            let new = call_id_of(after[i].item);
            &&& new is Some
            &&& output_call_id_of(after[j].item) == new
            &&& utf8_len(new->0) <= MAX_PROVIDER_IDENTIFIER_BYTES
            &&& !allocator.used.contains(new->0)
        }),
{
    let id = call_id_of(history[i].item)->0;
    assert(only_output(history, id, j));
    let artifact = legacy_artifact(history[i], history[j], id)->0;
    candidate_within_limit(artifact, 0);
    allocated_id_is_fresh_and_stable(allocator, artifact);
    assert(call_id_of(history[j].item) is None);
}

/// Whether a step of the repair gives the call at `m` and the output at `j` the identifier `new`
/// in place of `id`, and changes nothing else.
spec fn is_repair_step(
    before: Seq<EnvelopeModel>,
    after: Seq<EnvelopeModel>,
    m: int,
    j: int,
    id: Seq<char>,
    new: Seq<char>,
) -> bool {
    &&& 0 <= m < before.len()
    &&& utf8_len(id) == LEGACY_SYNTHETIC_CALL_ID_LEN
    &&& utf8_len(new) <= MAX_PROVIDER_IDENTIFIER_BYTES
    &&& call_id_of(before[m].item) == Some(id)
    &&& before[m].item is FunctionCall || before[m].item is CustomToolCall
    &&& only_output(before, id, j)
    &&& legacy_artifact(before[m], before[j], id) is Some
    &&& after == before.update(
        m,
        EnvelopeModel {
            item: with_call_id(before[m].item, new),
            metadata: before[m].metadata,
        },
    ).update(
        j,
        EnvelopeModel {
            item: with_output_call_id(before[j].item, new),
            metadata: before[j].metadata,
        },
    )
}

/// What one step of the repair does, if it does anything.
proof fn repair_step(history: Seq<EnvelopeModel>, m: int) -> (step: Option<
    (int, Seq<char>, Seq<char>),
>)
    requires
        0 <= m < history.len(),
    ensures
        match step {
            None => {
                &&& repaired(history, m + 1).0 == repaired(history, m).0
                &&& repaired(history, m + 1).1.used == repaired(history, m).1.used
            },
            Some((j, id, new)) => {
                &&& is_repair_step(
                    repaired(history, m).0,
                    repaired(history, m + 1).0,
                    m,
                    j,
                    id,
                    new,
                )
                &&& forall|t: Seq<char>| #[trigger]
                    repaired(history, m + 1).1.used.contains(t) ==> t == new || repaired(
                        history,
                        m,
                    ).1.used.contains(t)
            },
        },
{
    repaired_changes(history, m);
    let (before, allocator) = repaired(history, m);
    let (after, allocator_after) = repaired(history, m + 1);
    if after == before && allocator_after.used == allocator.used {
        None
    } else {
        let id = call_id_of(before[m].item)->0;
        let j = only_output_at(before, id)->0;
        assert(only_output(before, id, j));
        let artifact = legacy_artifact(before[m], before[j], id)->0;
        allocated_within_limit(allocator, artifact);
        let new = allocated(allocator, artifact).1->0;
        assert(m != j);
        assert forall|t: Seq<char>| #[trigger] allocator_after.used.contains(t) implies t == new
            || allocator.used.contains(t) by {
            let k = choose|k: int|
                0 <= k < allocator_after.used.len() && allocator_after.used[k] == t;
            if k < allocator.used.len() {
                assert(allocator.used[k] == t);
            }
        }
        Some((j, id, new))
    }
}

/// Whether the call at `i` and the output at `j` are a trusted pair that was written with the
/// whole digest as its identifier, and both now have the identifier `new` and are otherwise as
/// they were.
pub open spec fn is_repaired_pair(
    history: Seq<EnvelopeModel>,
    done: Seq<EnvelopeModel>,
    i: int,
    j: int,
    new: Seq<char>,
) -> bool {
    &&& 0 <= i < history.len() && 0 <= j < history.len()
    &&& call_id_of(history[i].item) is Some
    &&& legacy_artifact(history[i], history[j], call_id_of(history[i].item)->0) is Some
    &&& utf8_len(new) <= MAX_PROVIDER_IDENTIFIER_BYTES
    &&& call_id_of(done[i].item) == Some(new)
    &&& output_call_id_of(done[j].item) == Some(new)
    &&& done[i] == (EnvelopeModel {
        item: with_call_id(history[i].item, new),
        metadata: history[i].metadata,
    })
    &&& done[j] == (EnvelopeModel {
        item: with_output_call_id(history[j].item, new),
        metadata: history[j].metadata,
    })
}

proof fn changed_entry_pair(history: Seq<EnvelopeModel>, n: int, k: int) -> (pair: (
    int,
    int,
    Seq<char>,
))
    requires
        0 <= n <= history.len(),
        0 <= k < history.len(),
        repaired(history, n).0[k] != history[k],
    ensures
        is_repaired_pair(history, repaired(history, n).0, pair.0, pair.1, pair.2),
        k == pair.0 || k == pair.1,
    decreases n,
{
    repaired_changes(history, n);
    repaired_changes(history, n - 1);
    let (before, allocator) = repaired(history, n - 1);
    let step = repair_step(history, n - 1);
    if let Some((at, id, new)) = step {
        if before[n - 1] != history[n - 1] {
            let other = changed_entry_pair(history, n - 1, n - 1);
        }
        if before[at] != history[at] {
            let other = changed_entry_pair(history, n - 1, at);
        }
        if k == n - 1 || k == at {
            (n - 1, at, new)
        } else {
            changed_entry_pair(history, n - 1, k)
        }
    } else {
        changed_entry_pair(history, n - 1, k)
    }
}

/// Only trusted pairs are repaired: an entry that the repair changes is the call or the output of
/// a pair whose output is store-backed and whose identifier, call and output all name one
/// artifact, and both sides get the same identifier.
pub proof fn repaired_entries_are_pairs(history: Seq<EnvelopeModel>, k: int)
    requires
        0 <= k < history.len(),
        repaired(history, history.len() as int).0[k] != history[k],
    ensures
        exists|i: int, j: int, new: Seq<char>|
            (k == i || k == j) && #[trigger] is_repaired_pair(
                history,
                repaired(history, history.len() as int).0,
                i,
                j,
                new,
            ),
{
    let pair = changed_entry_pair(history, history.len() as int, k);
}

/// What the repair leaves alone from step `m` on: the calls that it has passed, and the outputs
/// that still have an identifier with a whole digest.
proof fn repair_leaves(history: Seq<EnvelopeModel>, m: int, n: int)
    requires
        0 <= m <= n <= history.len(),
    ensures
        repaired(history, m).0.len() == history.len(),
        repaired(history, n).0.len() == history.len(),
        forall|k: int|
            0 <= k < m && call_id_of((#[trigger] repaired(history, n).0[k]).item) is Some
                ==> repaired(history, n).0[k] == repaired(history, m).0[k],
        forall|j: int, k: int|
            #![trigger repaired(history, n).0[j], repaired(history, m).0[k]]
            0 <= j < history.len() && 0 <= k < history.len() && output_call_id_of(
                repaired(history, n).0[j].item,
            ) is Some && utf8_len(output_call_id_of(repaired(history, n).0[j].item)->0)
                == LEGACY_SYNTHETIC_CALL_ID_LEN && output_call_id_of(
                repaired(history, m).0[k].item,
            ) == output_call_id_of(repaired(history, n).0[j].item) ==> repaired(history, n).0[k]
                == repaired(history, m).0[k],
        forall|j: int|
            0 <= j < history.len() && output_call_id_of(
                (#[trigger] repaired(history, n).0[j]).item,
            ) is Some && utf8_len(output_call_id_of(repaired(history, n).0[j].item)->0)
                == LEGACY_SYNTHETIC_CALL_ID_LEN ==> repaired(history, n).0[j] == repaired(
                history,
                m,
            ).0[j],
    decreases n - m,
{
    repaired_changes(history, m);
    repaired_changes(history, n);
    if m < n {
        repair_leaves(history, m, n - 1);
        let first = repaired(history, m).0;
        let before = repaired(history, n - 1).0;
        let after = repaired(history, n).0;
        if let Some((at, id, new)) = repair_step(history, n - 1) {
            assert(at != n - 1);
            assert(call_id_of(after[at].item) is None);
            assert(output_call_id_of(after[at].item) == Some(new));
            assert(output_call_id_of(after[n - 1].item) is None);
            assert forall|k: int| 0 <= k < m && call_id_of((#[trigger] after[k]).item)
                is Some implies after[k] == first[k] by {
                assert(before[k] == after[k]);
            }
            assert forall|j: int|
                0 <= j < history.len() && output_call_id_of((#[trigger] after[j]).item) is Some
                    && utf8_len(output_call_id_of(after[j].item)->0)
                    == LEGACY_SYNTHETIC_CALL_ID_LEN implies after[j] == first[j] by {
                assert(before[j] == after[j]);
            }
            assert forall|j: int, k: int|
                #![trigger after[j], first[k]]
                0 <= j < history.len() && 0 <= k < history.len() && output_call_id_of(
                    after[j].item,
                ) is Some && utf8_len(output_call_id_of(after[j].item)->0)
                    == LEGACY_SYNTHETIC_CALL_ID_LEN && output_call_id_of(first[k].item)
                    == output_call_id_of(after[j].item) implies after[k] == first[k] by {
                assert(before[j] == after[j]);
                assert(before[k] == first[k]);
                if k == at {
                    assert(output_call_id_of(before[j].item) == Some(id));
                }
                assert(k != n - 1);
            }
        }
    }
}

proof fn history_ids_listed(history: Seq<EnvelopeModel>, id: Seq<char>)
    ensures
        history_ids(history).contains(id) <==> exists|k: int|
            0 <= k < history.len() && item_ids((#[trigger] history[k]).item).contains(id),
    decreases history.len(),
{
    if history.len() > 0 {
        let front = history.drop_last();
        history_ids_listed(front, id);
        let all = history_ids(history);
        let own = item_ids(history.last().item);
        if all.contains(id) {
            let i = choose|i: int| 0 <= i < all.len() && all[i] == id;
            if i < history_ids(front).len() {
                assert(history_ids(front)[i] == id);
                let k = choose|k: int|
                    0 <= k < front.len() && item_ids((#[trigger] front[k]).item).contains(id);
                assert(history[k] == front[k]);
            } else {
                assert(own[i - history_ids(front).len()] == id);
                assert(item_ids(history[history.len() - 1].item).contains(id));
            }
        }
        if exists|k: int|
            0 <= k < history.len() && item_ids((#[trigger] history[k]).item).contains(id) {
            let k = choose|k: int|
                0 <= k < history.len() && item_ids((#[trigger] history[k]).item).contains(id);
            if k < front.len() {
                assert(item_ids(front[k].item).contains(id));
                let i = choose|i: int|
                    0 <= i < history_ids(front).len() && history_ids(front)[i] == id;
                assert(all[i] == id);
            } else {
                let i = choose|i: int| 0 <= i < own.len() && own[i] == id;
                assert(all[history_ids(front).len() + i] == id);
            }
        }
    }
}

/// The identifiers of an item with another call identifier.
proof fn relabelled_ids(item: ResponseItemModel, id: Seq<char>, new: Seq<char>, kept: Seq<char>)
    requires
        item_ids(item).contains(kept),
        kept != id,
    ensures
        call_id_of(item) == Some(id) ==> item_ids(with_call_id(item, new)).contains(kept),
        output_call_id_of(item) == Some(id) ==> item_ids(with_output_call_id(item, new)).contains(
            kept,
        ),
{
    let i = choose|i: int| 0 <= i < item_ids(item).len() && item_ids(item)[i] == kept;
    if call_id_of(item) == Some(id) {
        assert(item_ids(with_call_id(item, new))[i] == kept);
    }
    if output_call_id_of(item) == Some(id) {
        assert(item_ids(with_output_call_id(item, new))[i] == kept);
    }
}

/// Identifiers without a whole digest stay in use, and what is handed out comes into use.
proof fn repair_keeps_ids(history: Seq<EnvelopeModel>, m: int, n: int, id: Seq<char>)
    requires
        0 <= m <= n <= history.len(),
        utf8_len(id) != LEGACY_SYNTHETIC_CALL_ID_LEN,
        repaired(history, m).1.used.contains(id),
    ensures
        history_ids(repaired(history, n).0).contains(id),
    decreases n,
{
    let after = repaired(history, n).0;
    repaired_changes(history, n);
    history_ids_listed(after, id);
    if n > 0 {
        let before = repaired(history, n - 1).0;
        repaired_changes(history, n - 1);
        history_ids_listed(before, id);
        let step = repair_step(history, n - 1);
        if step is Some && (step->0).2 == id {
            let (j, old_id, new) = step->0;
            let ids = item_ids(after[n - 1].item);
            assert(ids[ids.len() - 1] == new);
            assert(ids.contains(id));
        } else {
            if m == n {
                repair_keeps_ids(history, n - 1, n - 1, id);
            } else {
                repair_keeps_ids(history, m, n - 1, id);
            }
            let k = choose|k: int|
                0 <= k < before.len() && item_ids((#[trigger] before[k]).item).contains(id);
            if let Some((j, old_id, new)) = step {
                assert(j != n - 1);
                if k == n - 1 || k == j {
                    relabelled_ids(before[k].item, old_id, new, id);
                }
            }
            assert(item_ids(after[k].item).contains(id));
        }
    }
}

/// A repaired history leaves the repair nothing to do at position `i`.
proof fn nothing_left_at(history: Seq<EnvelopeModel>, i: int)
    requires
        0 <= i < history.len(),
    ensures
        ({
            let done = repaired(history, history.len() as int).0;
            let fresh = AllocatorModel { used: history_ids(done), assigned: seq![] };
            repair_at(done, fresh, i) == (done, fresh)
        }),
{
    let n = history.len() as int;
    let done = repaired(history, n).0;
    let fresh = AllocatorModel { used: history_ids(done), assigned: seq![] };
    repaired_changes(history, n);
    repaired_changes(history, i);
    if let Some(id) = call_id_of(done[i].item) {
        if utf8_len(id) == LEGACY_SYNTHETIC_CALL_ID_LEN {
            if let Some(j) = only_output_at(done, id) {
                assert(only_output(done, id, j));
                if let Some(artifact) = legacy_artifact(done[i], done[j], id) {
                    let (before, allocator) = repaired(history, i);
                    let after = repaired(history, i + 1).0;
                    repair_leaves(history, i + 1, n);
                    repair_leaves(history, i, n);
                    assert(done[i] == after[i]);
                    let step = repair_step(history, i);
                    if let Some((at, old_id, new)) = step {
                        assert(call_id_of(after[i].item) == Some(new));
                    }
                    assert(step is None);
                    assert(before[i] == done[i]);
                    assert(before[j] == done[j]);
                    assert(only_output(before, id, j)) by {
                        assert forall|k: int|
                            0 <= k < before.len() && output_call_id_of(#[trigger] before[k].item)
                                == Some(id) implies k == j by {
                            assert(done[k] == before[k]);
                        }
                    }
                    assert(only_output_at(before, id) == Some(j));
                    allocated_within_limit(allocator, artifact);
                    if let Some(new) = allocated(allocator, artifact).1 {
                        assert(call_id_of(after[i].item) == Some(new));
                    }
                    first_free_is_free(allocator.used, artifact, 0);
                    first_free_is_free(fresh.used, artifact, 0);
                    if let Some(ordinal) = first_free(fresh.used, artifact, 0) {
                        let candidate = candidate_id(artifact, ordinal);
                        candidate_within_limit(artifact, ordinal);
                        assert(allocator.used.contains(candidate));
                        repair_keeps_ids(history, i, n, candidate);
                    }
                }
            }
        }
    }
}

proof fn nothing_left(history: Seq<EnvelopeModel>, n: int)
    requires
        0 <= n <= history.len(),
    ensures
        ({
            let done = repaired(history, history.len() as int).0;
            repaired(done, n) == (
                done,
                AllocatorModel { used: history_ids(done), assigned: seq![] },
            )
        }),
    decreases n,
{
    if n > 0 {
        nothing_left(history, n - 1);
        nothing_left_at(history, n - 1);
    }
}

/// Repairing a history a second time changes nothing.
pub proof fn repair_is_stable(history: Seq<EnvelopeModel>)
    ensures
        ({
            let done = repaired(history, history.len() as int).0;
            repaired(done, done.len() as int).0 == done
        }),
{
    repaired_changes(history, history.len() as int);
    nothing_left(history, history.len() as int);
}

/// The identifier that an artifact is given is the first of its candidates that is not in use;
/// none is given only where all of them are. What is in use grows by it alone.
pub proof fn first_free_candidate_is_allocated(model: AllocatorModel, artifact: Seq<char>)
    requires
        assigned_id(model.assigned, artifact) is None,
    ensures
        (match allocated(model, artifact).1 {
            Some(id) => exists|n: nat|
                n <= 65535 && id == #[trigger] candidate_id(artifact, n) && !model.used.contains(
                    id,
                ) && forall|m: nat|
                    m < n ==> model.used.contains(#[trigger] candidate_id(artifact, m)),
            None => forall|m: nat|
                m <= 65535 ==> model.used.contains(#[trigger] candidate_id(artifact, m)),
        }),
        allocated(model, artifact).0.used == model.used + one_text(allocated(model, artifact).1),
{
    first_free_is_free(model.used, artifact, 0);
    assert(allocated(model, artifact).0.used =~= model.used + one_text(
        allocated(model, artifact).1,
    ));
    match first_free(model.used, artifact, 0) {
        Some(n) => {
            assert(candidate_id(artifact, n) == allocated(model, artifact).1->0);
        },
        None => {},
    }
}

/// A trusted pair whose identifier carries the whole digest is left by the repair only where every
/// candidate for a new identifier is in use.
pub proof fn no_trusted_pair_is_left(history: Seq<EnvelopeModel>, i: int, j: int)
    requires
        0 <= i < history.len(),
        ({
            let done = repaired(history, history.len() as int).0;
            &&& call_id_of(done[i].item) is Some
            &&& only_output(done, call_id_of(done[i].item)->0, j)
            &&& legacy_artifact(done[i], done[j], call_id_of(done[i].item)->0) is Some
        }),
    ensures
        ({
            let done = repaired(history, history.len() as int).0;
            let artifact = legacy_artifact(done[i], done[j], call_id_of(done[i].item)->0)->0;
            forall|m: nat|
                m <= 65535 ==> history_ids(done).contains(#[trigger] candidate_id(artifact, m))
        }),
{
    let done = repaired(history, history.len() as int).0;
    let fresh = AllocatorModel { used: history_ids(done), assigned: seq![] };
    let id = call_id_of(done[i].item)->0;
    let artifact = legacy_artifact(done[i], done[j], id)->0;
    nothing_left_at(history, i);
    assert(only_output_at(done, id) == Some(j));
    candidate_within_limit(artifact, 0);
    first_free_is_free(fresh.used, artifact, 0);
    assert(assigned_id(fresh.assigned, artifact) is None);
    if let Some(n) = first_free(fresh.used, artifact, 0) {
        assert(repair_at(done, fresh, i).1 == allocated(fresh, artifact).0);
        assert(allocated(fresh, artifact).0.used.len() == fresh.used.len() + 1);
    }
}

} // verus!
