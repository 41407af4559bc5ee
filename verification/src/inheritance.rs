//! Keeping stored tool outputs reachable when a history is compacted, resumed or forked.
//!
//! Only controls that the harness marked count; text that merely looks like one never does.

use vstd::prelude::*;
use vstd::string::*;

use crate::artifact_control_ids::{
    control_members, is_store_backed, legacy_call_id, optional_ref, output_call_id_of,
    response_output_call_id, retrieval_members, store_backed, synthetic_artifact_control_body,
    synthetic_prefix, synthetic_retrieval_arguments,
};
use crate::artifact_id::{is_artifact_id, OutputArtifactId};
use crate::content_items::{body_json, body_to_json};
use crate::history::{
    default_metadata, envelope_models, first, reference_ids, store_backed_metadata, texts,
    CodexHarnessMetadata, EnvelopeModel, MetadataModel, ResponseItemEnvelope,
    StoreBackedArtifactReference, MAX_STORE_BACKED_ARTIFACT_REFERENCES,
};
use crate::json::{
    json_string, json_string_text, keys_increase, less_differs, object_text, own_members,
    reread_keeps, text_member, with_member, with_member_ordered, JsonModel, Members,
};
use crate::protocol::{
    item_models, optional_text, BodyModel, FunctionCallOutputBody, FunctionCallOutputContentItem,
    FunctionCallOutputPayload, ItemModel, PayloadModel, ResponseItem, ResponseItemModel,
};
use crate::read_tool_output::{artifact_of_control, control_artifact, reads_back, sum_size};
use crate::text::{
    byte_len, bytes_less_total, bytes_less_transitive, encode_injective, same_text, str_less,
    text_less, utf8_len,
};

verus! {

/// The most artifact controls that a compacted history carries.
pub const MAX_COMPACTION_ARTIFACT_CONTROLS: usize = 32;

/// The most bytes of artifact controls that a compacted history carries.
pub const MAX_COMPACTION_ARTIFACT_CONTROL_BYTES: usize = 16384;

/// The most bytes of one artifact control and its call.
pub const MAX_COMPACTION_ARTIFACT_CONTROL_PAIR_BYTES: usize = 8192;

/// The most artifacts that a history refers to without showing them to the model.
pub const MAX_ARTIFACT_REFERENCE_SIDECAR_ENTRIES: usize = 256;

/// The texts of a list of identifiers.
pub open spec fn id_texts(ids: Seq<OutputArtifactId>) -> Seq<Seq<char>> {
    ids.map_values(|id: OutputArtifactId| id@)
}

/// Whether texts are in strictly increasing order.
pub open spec fn increasing(list: Seq<Seq<char>>) -> bool {
    forall|i: int, j: int|
        0 <= i < j < list.len() ==> text_less(#[trigger] list[i], #[trigger] list[j])
}

/// An ordered list with one more text; one that it holds already is not added.
pub open spec fn insert_ordered(list: Seq<Seq<char>>, text: Seq<char>) -> Seq<Seq<char>>
    decreases list.len(),
{
    if list.len() == 0 {
        seq![text]
    } else if list[0] == text {
        list
    } else if text_less(text, list[0]) {
        seq![text] + list
    } else {
        seq![list[0]] + insert_ordered(list.drop_first(), text)
    }
}

/// Inserting keeps the order and adds exactly the new text.
pub proof fn insert_ordered_keeps(list: Seq<Seq<char>>, text: Seq<char>)
    requires
        increasing(list),
    ensures
        increasing(insert_ordered(list, text)),
        forall|t: Seq<char>| #[trigger]
            insert_ordered(list, text).contains(t) <==> (list.contains(t) || t == text),
    decreases list.len(),
{
    let result = insert_ordered(list, text);
    if list.len() == 0 {
        assert(result[0] == text);
        assert forall|t: Seq<char>| #[trigger] result.contains(t) <==> (list.contains(t) || t
            == text) by {
            if t == text {
                assert(result[0] == t);
            }
        }
    } else {
        let rest = list.drop_first();
        assert forall|i: int, j: int| 0 <= i < j < rest.len() implies text_less(
            #[trigger] rest[i],
            #[trigger] rest[j],
        ) by {
            assert(rest[i] == list[i + 1]);
            assert(rest[j] == list[j + 1]);
        }
        if list[0] == text {
            assert(list.contains(text));
        } else if text_less(text, list[0]) {
            assert forall|i: int, j: int| 0 <= i < j < result.len() implies text_less(
                #[trigger] result[i],
                #[trigger] result[j],
            ) by {
                assert(result[j] == list[j - 1]);
                if i > 0 {
                    assert(result[i] == list[i - 1]);
                } else if j > 1 {
                    assert(text_less(list[0], list[j - 1]));
                    bytes_less_transitive(
                        vstd::utf8::encode_utf8(text),
                        vstd::utf8::encode_utf8(list[0]),
                        vstd::utf8::encode_utf8(list[j - 1]),
                    );
                }
            }
            assert forall|t: Seq<char>| #[trigger] result.contains(t) <==> (list.contains(t) || t
                == text) by {
                if t == text {
                    assert(result[0] == t);
                }
                if list.contains(t) {
                    let k = choose|k: int| 0 <= k < list.len() && list[k] == t;
                    assert(result[k + 1] == t);
                }
                if result.contains(t) && t != text {
                    let k = choose|k: int| 0 <= k < result.len() && result[k] == t;
                    assert(list[k - 1] == t);
                }
            }
        } else {
            insert_ordered_keeps(rest, text);
            let tail = insert_ordered(rest, text);
            bytes_less_total(
                vstd::utf8::encode_utf8(list[0]),
                vstd::utf8::encode_utf8(text),
            );
            if vstd::utf8::encode_utf8(list[0]) == vstd::utf8::encode_utf8(text) {
                encode_injective(list[0], text);
            }
            assert forall|i: int, j: int| 0 <= i < j < result.len() implies text_less(
                #[trigger] result[i],
                #[trigger] result[j],
            ) by {
                assert(result[j] == tail[j - 1]);
                if i > 0 {
                    assert(result[i] == tail[i - 1]);
                } else {
                    assert(tail.contains(tail[j - 1]));
                    if tail[j - 1] != text {
                        assert(rest.contains(tail[j - 1]));
                        let k = choose|k: int| 0 <= k < rest.len() && rest[k] == tail[j - 1];
                        assert(list[k + 1] == rest[k]);
                    }
                }
            }
            assert forall|t: Seq<char>| #[trigger] result.contains(t) <==> (list.contains(t) || t
                == text) by {
                if result.contains(t) {
                    let k = choose|k: int| 0 <= k < result.len() && result[k] == t;
                    if k == 0 {
                        assert(list[0] == t);
                    } else {
                        assert(tail[k - 1] == t);
                        assert(tail.contains(t));
                        if t != text {
                            assert(rest.contains(t));
                            let m = choose|m: int| 0 <= m < rest.len() && rest[m] == t;
                            assert(list[m + 1] == t);
                        }
                    }
                }
                if list.contains(t) || t == text {
                    if t == list[0] {
                        assert(result[0] == t);
                    } else {
                        if list.contains(t) {
                            let m = choose|m: int| 0 <= m < list.len() && list[m] == t;
                            assert(rest[m - 1] == t);
                            assert(rest.contains(t));
                        }
                        assert(tail.contains(t));
                        let k = choose|k: int| 0 <= k < tail.len() && tail[k] == t;
                        assert(result[k + 1] == t);
                    }
                }
            }
        }
    }
}

proof fn insert_position(list: Seq<Seq<char>>, text: Seq<char>, index: int, found: bool)
    requires
        0 <= index <= list.len(),
        found ==> index < list.len() && list[index] == text,
        forall|i: int| 0 <= i < index ==> text_less(#[trigger] list[i], text),
        !found && index < list.len() ==> text_less(text, list[index]),
    ensures
        insert_ordered(list, text) == (if found {
            list
        } else {
            list.insert(index, text)
        }),
    decreases list.len(),
{
    if list.len() == 0 {
        assert(list.insert(0, text) =~= seq![text]);
    } else {
        let rest = list.drop_first();
        if index > 0 {
            assert(text_less(list[0], text));
            less_differs(list[0], text);
            assert forall|i: int| 0 <= i < index - 1 implies text_less(
                #[trigger] rest[i],
                text,
            ) by {
                assert(rest[i] == list[i + 1]);
            }
            insert_position(rest, text, index - 1, found);
            if found {
                assert(seq![list[0]] + rest =~= list);
            } else {
                assert(seq![list[0]] + rest.insert(index - 1, text) =~= list.insert(index, text));
            }
        } else if !found {
            less_differs(text, list[0]);
            assert(seq![text] + list =~= list.insert(0, text));
        }
    }
}

/// Inserts an identifier into an ordered list.
fn insert_id(ids: &mut Vec<OutputArtifactId>, id: OutputArtifactId)
    ensures
        id_texts(final(ids)@) == insert_ordered(id_texts(old(ids)@), id@),
{
    let ghost list = id_texts(ids@);
    let mut i: usize = 0;
    while i < ids.len()
        invariant
            i <= ids@.len(),
            *ids == *old(ids),
            list == id_texts(ids@),
            forall|j: int| 0 <= j < i ==> text_less(#[trigger] list[j], id@),
        decreases ids@.len() - i,
    {
        proof {
            assert(list[i as int] == ids@[i as int]@);
        }
        if ids[i].same(&id) {
            proof {
                insert_position(list, id@, i as int, true);
            }
            return;
        }
        if str_less(id.as_str(), ids[i].as_str()) {
            proof {
                insert_position(list, id@, i as int, false);
            }
            ids.insert(i, id);
            proof {
                assert(id_texts(ids@) =~= list.insert(i as int, id@));
            }
            return;
        }
        proof {
            bytes_less_total(
                vstd::utf8::encode_utf8(list[i as int]),
                vstd::utf8::encode_utf8(id@),
            );
            if vstd::utf8::encode_utf8(list[i as int]) == vstd::utf8::encode_utf8(id@) {
                encode_injective(list[i as int], id@);
            }
        }
        i += 1;
    }
    proof {
        insert_position(list, id@, i as int, false);
    }
    ids.insert(i, id);
    proof {
        assert(id_texts(ids@) =~= list.insert(i as int, id@));
    }
}

/// Whether a list holds an identifier.
fn ids_contain(ids: &Vec<OutputArtifactId>, id: &OutputArtifactId) -> (r: bool)
    ensures
        r == id_texts(ids@).contains(id@),
{
    let mut i: usize = 0;
    while i < ids.len()
        invariant
            i <= ids@.len(),
            forall|j: int| 0 <= j < i ==> #[trigger] id_texts(ids@)[j] != id@,
        decreases ids@.len() - i,
    {
        proof {
            assert(id_texts(ids@)[i as int] == ids@[i as int]@);
        }
        if ids[i].same(id) {
            return true;
        }
        i += 1;
    }
    false
}

/// The artifacts that the text items refer to.
pub open spec fn item_artifacts(items: Seq<ItemModel>) -> Seq<Seq<char>>
    decreases items.len(),
{
    if items.len() == 0 {
        seq![]
    } else {
        let before = item_artifacts(items.drop_last());
        match items.last() {
            ItemModel::InputText { text } => match control_artifact(text) {
                Some(id) => insert_ordered(before, id),
                None => before,
            },
            _ => before,
        }
    }
}

/// The artifacts that an output refers to.
pub open spec fn output_artifacts(output: PayloadModel) -> Seq<Seq<char>> {
    match output.body {
        BodyModel::Text(text) => match control_artifact(text) {
            Some(id) => seq![id],
            None => seq![],
        },
        BodyModel::ContentItems(items) => item_artifacts(items),
    }
}

/// The output of an item.
pub open spec fn output_of(item: ResponseItemModel) -> Option<PayloadModel> {
    match item {
        ResponseItemModel::FunctionCallOutput { output, .. } => Some(output),
        ResponseItemModel::CustomToolCallOutput { output, .. } => Some(output),
        _ => None,
    }
}

/// The one artifact that an item's output refers to.
pub open spec fn item_artifact(item: ResponseItemModel) -> Option<Seq<char>> {
    match output_of(item) {
        Some(output) => if output_artifacts(output).len() == 1 {
            Some(output_artifacts(output)[0])
        } else {
            None
        },
        None => None,
    }
}

/// The one artifact that a marked entry refers to.
pub open spec fn envelope_artifact(envelope: EnvelopeModel) -> Option<Seq<char>> {
    if is_store_backed(envelope) {
        item_artifact(envelope.item)
    } else {
        None
    }
}

/// Whether every text of an output that was written as an object reads back as that object.
pub open spec fn output_reads_back(output: PayloadModel) -> bool {
    match output.body {
        BodyModel::Text(text) => reads_back(text),
        BodyModel::ContentItems(items) => items_read_back(items),
    }
}

/// Whether every text among items that was written as an object reads back as that object.
pub open spec fn items_read_back(items: Seq<ItemModel>) -> bool {
    forall|i: int|
        0 <= i < items.len() ==> match #[trigger] items[i] {
            ItemModel::InputText { text } => reads_back(text),
            _ => true,
        }
}

/// Whether the texts of the output of an item read back.
pub open spec fn item_reads_back(item: ResponseItemModel) -> bool {
    output_of(item) matches Some(output) ==> output_reads_back(output)
}

fn collect_output_ids(output: &FunctionCallOutputPayload) -> (r: Vec<OutputArtifactId>)
    ensures
        id_texts(r@) == output_artifacts(output@),
        output_reads_back(output@),
{
    let mut ids: Vec<OutputArtifactId> = Vec::new();
    proof {
        assert(id_texts(ids@) =~= Seq::<Seq<char>>::empty());
    }
    match &output.body {
        FunctionCallOutputBody::Text(text) => {
            match artifact_of_control(text.as_str()) {
                Some(id) => {
                    ids.push(id);
                    proof {
                        assert(id_texts(ids@) =~= seq![id@]);
                    }
                },
                None => {},
            }
            ids
        },
        FunctionCallOutputBody::ContentItems(items) => {
            let ghost all = item_models(items@);
            let mut i: usize = 0;
            proof {
                assert(id_texts(ids@) =~= item_artifacts(all.take(0)));
            }
            while i < items.len()
                invariant
                    i <= items@.len(),
                    all == item_models(items@),
                    id_texts(ids@) == item_artifacts(all.take(i as int)),
                    items_read_back(all.take(i as int)),
                decreases items@.len() - i,
            {
                proof {
                    assert(all.take(i + 1).drop_last() =~= all.take(i as int));
                    assert(all[i as int] == items@[i as int]@);
                }
                match &items[i] {
                    FunctionCallOutputContentItem::InputText { text } => {
                        match artifact_of_control(text.as_str()) {
                            Some(id) => {
                                insert_id(&mut ids, id);
                            },
                            None => {},
                        }
                    },
                    _ => {},
                }
                proof {
                    let before = all.take(i as int);
                    let now = all.take(i + 1);
                    assert forall|k: int| 0 <= k < now.len() implies match #[trigger] now[k] {
                        ItemModel::InputText { text } => reads_back(text),
                        _ => true,
                    } by {
                        if k < i {
                            assert(now[k] == before[k]);
                        }
                    }
                }
                i += 1;
            }
            proof {
                assert(all.take(i as int) =~= all);
            }
            ids
        },
    }
}

fn single_id(item: &ResponseItem) -> (r: Option<OutputArtifactId>)
    ensures
        match r {
            Some(id) => item_artifact(item@) == Some(id@),
            None => item_artifact(item@) is None,
        },
        item_reads_back(item@),
{
    let output = match item {
        ResponseItem::FunctionCallOutput { output, .. } => output,
        ResponseItem::CustomToolCallOutput { output, .. } => output,
        _ => {
            return None;
        },
    };
    let ids = collect_output_ids(output);
    proof {
        assert(id_texts(ids@).len() == ids@.len());
    }
    if ids.len() == 1 {
        proof {
            assert(id_texts(ids@)[0] == ids@[0]@);
        }
        Some(ids[0].clone())
    } else {
        None
    }
}

fn envelope_artifact_id(envelope: &ResponseItemEnvelope) -> (r: Option<OutputArtifactId>)
    ensures
        match r {
            Some(id) => envelope_artifact(envelope@) == Some(id@),
            None => envelope_artifact(envelope@) is None,
        },
        is_store_backed(envelope@) ==> item_reads_back(envelope@.item),
{
    if store_backed(envelope) {
        single_id(&envelope.item)
    } else {
        None
    }
}

/// Returns whether an output item contains exactly one valid managed artifact control.
///
/// History metadata is trusted only when the harness has already marked the item, but checking
/// the bounded control before retaining that metadata prevents a low-budget fallback error from
/// becoming falsely inheritable or recoverable. The output of a control is always recoverable.
pub fn has_recoverable_output_artifact(item: &ResponseItem) -> (r: bool)
    ensures
        r == item_artifact(item@) is Some,
        item_reads_back(item@),
        forall|output: ResponseItemModel, id: Seq<char>|
            is_artifact_id(id) && #[trigger] control_output(output, id) == Some(item@)
                ==> item_artifact(item@) == Some(id),
{
    let recoverable = single_id(item).is_some();
    proof {
        assert forall|output: ResponseItemModel, id: Seq<char>|
            is_artifact_id(id) && #[trigger] control_output(output, id) == Some(
                item@,
            ) implies item_artifact(item@) == Some(id) by {
            control_is_recoverable(output, id);
        }
    }
    recoverable
}

/// The call identifier of an item that calls a tool.
pub open spec fn tool_call_id(item: ResponseItemModel) -> Option<Seq<char>> {
    match item {
        ResponseItemModel::FunctionCall { call_id, .. } => Some(call_id),
        ResponseItemModel::CustomToolCall { call_id, .. } => Some(call_id),
        ResponseItemModel::LocalShellCall { call_id, .. } => call_id,
        _ => None,
    }
}

fn tool_call_id_of(item: &ResponseItem) -> (r: Option<&String>)
    ensures
        optional_ref(r) == tool_call_id(item@),
{
    match item {
        ResponseItem::FunctionCall { call_id, .. } => Some(call_id),
        ResponseItem::CustomToolCall { call_id, .. } => Some(call_id),
        ResponseItem::LocalShellCall { call_id, .. } => call_id.as_ref(),
        _ => None,
    }
}

/// The first item from `from` on that makes the call `id`.
pub open spec fn call_at(history: Seq<EnvelopeModel>, id: Seq<char>, from: int) -> Option<int>
    decreases history.len() - from,
{
    if from < 0 || from >= history.len() {
        None
    } else if tool_call_id(history[from].item) == Some(id) {
        Some(from)
    } else {
        call_at(history, id, from + 1)
    }
}

fn find_call(history: &Vec<ResponseItemEnvelope>, id: &str) -> (r: Option<usize>)
    ensures
        match r {
            Some(i) => call_at(envelope_models(history@), id@, 0) == Some(i as int) && i
                < history@.len(),
            None => call_at(envelope_models(history@), id@, 0) is None,
        },
{
    let ghost all = envelope_models(history@);
    let mut i: usize = 0;
    while i < history.len()
        invariant
            i <= history@.len(),
            all == envelope_models(history@),
            call_at(all, id@, 0) == call_at(all, id@, i as int),
        decreases history@.len() - i,
    {
        proof {
            assert(all[i as int] == history@[i as int]@);
        }
        let found = match tool_call_id_of(&history[i].item) {
            Some(call_id) => same_text(call_id.as_str(), id),
            None => false,
        };
        if found {
            return Some(i);
        }
        i += 1;
    }
    None
}

/// Whether an entry is a marked output whose call is in the history.
pub open spec fn is_paired(history: Seq<EnvelopeModel>, i: int) -> bool {
    &&& is_store_backed(history[i])
    &&& output_call_id_of(history[i].item) matches Some(call) && call_at(history, call, 0) is Some
}

/// Whether the texts of the marked outputs among the first `n` entries whose calls are in the
/// history read back.
pub open spec fn pairs_read_back(history: Seq<EnvelopeModel>, n: int) -> bool {
    forall|i: int| 0 <= i < n && #[trigger] is_paired(history, i) ==> item_reads_back(
        history[i].item,
    )
}

/// The artifact of a marked entry whose call is in the history.
pub open spec fn paired_artifact(history: Seq<EnvelopeModel>, i: int) -> Option<Seq<char>> {
    match output_call_id_of(history[i].item) {
        Some(call) => if call_at(history, call, 0) is Some {
            envelope_artifact(history[i])
        } else {
            None
        },
        None => None,
    }
}

/// The artifacts of the marked entries whose calls are in the history, among the first `n`.
pub open spec fn paired_artifacts(history: Seq<EnvelopeModel>, n: int) -> Seq<Seq<char>>
    decreases n,
{
    if n <= 0 {
        seq![]
    } else {
        let before = paired_artifacts(history, n - 1);
        match paired_artifact(history, n - 1) {
            Some(id) => insert_ordered(before, id),
            None => before,
        }
    }
}

/// The valid identifiers among references, added to a list.
pub open spec fn with_references(list: Seq<Seq<char>>, references: Seq<Seq<char>>) -> Seq<Seq<char>>
    decreases references.len(),
{
    if references.len() == 0 {
        list
    } else {
        let before = with_references(list, references.drop_last());
        if is_artifact_id(references.last()) {
            insert_ordered(before, references.last())
        } else {
            before
        }
    }
}

/// The artifacts that the first `n` entries refer to without showing them to the model.
pub open spec fn sidecar_artifacts(history: Seq<EnvelopeModel>, n: int) -> Seq<Seq<char>>
    decreases n,
{
    if n <= 0 {
        seq![]
    } else {
        let before = sidecar_artifacts(history, n - 1);
        match history[n - 1].metadata {
            Some(metadata) => with_references(before, metadata.references),
            None => before,
        }
    }
}

/// A list filled up with further texts, to the largest number of references.
pub open spec fn filled_up(list: Seq<Seq<char>>, more: Seq<Seq<char>>) -> Seq<Seq<char>>
    decreases more.len(),
{
    if more.len() == 0 {
        list
    } else {
        let before = filled_up(list, more.drop_last());
        if before.len() < MAX_ARTIFACT_REFERENCE_SIDECAR_ENTRIES && !before.contains(more.last()) {
            before.push(more.last())
        } else {
            before
        }
    }
}

/// The artifacts that a history refers to: those of its controls first, then those it only
/// remembers.
pub open spec fn referenced_artifacts(history: Seq<EnvelopeModel>) -> Seq<Seq<char>> {
    filled_up(
        first(
            paired_artifacts(history, history.len() as int),
            MAX_ARTIFACT_REFERENCE_SIDECAR_ENTRIES as int,
        ),
        sidecar_artifacts(history, history.len() as int),
    )
}

fn paired_artifact_ids(history: &Vec<ResponseItemEnvelope>) -> (r: Vec<OutputArtifactId>)
    ensures
        id_texts(r@) == paired_artifacts(envelope_models(history@), history@.len() as int),
        pairs_read_back(envelope_models(history@), history@.len() as int),
{
    let ghost all = envelope_models(history@);
    let mut ids: Vec<OutputArtifactId> = Vec::new();
    let mut i: usize = 0;
    proof {
        assert(id_texts(ids@) =~= Seq::<Seq<char>>::empty());
    }
    while i < history.len()
        invariant
            i <= history@.len(),
            all == envelope_models(history@),
            id_texts(ids@) == paired_artifacts(all, i as int),
            pairs_read_back(all, i as int),
        decreases history@.len() - i,
    {
        proof {
            assert(all[i as int] == history@[i as int]@);
        }
        let paired = match response_output_call_id(&history[i].item) {
            Some(call) => find_call(history, call.as_str()).is_some(),
            None => false,
        };
        if paired {
            match envelope_artifact_id(&history[i]) {
                Some(id) => {
                    insert_id(&mut ids, id);
                },
                None => {},
            }
        }
        i += 1;
    }
    ids
}

fn add_references(ids: &mut Vec<OutputArtifactId>, references: &Vec<StoreBackedArtifactReference>)
    ensures
        id_texts(final(ids)@) == with_references(id_texts(old(ids)@), reference_ids(references@)),
{
    let ghost all = reference_ids(references@);
    let mut i: usize = 0;
    proof {
        assert(all.take(0) =~= Seq::<Seq<char>>::empty());
    }
    while i < references.len()
        invariant
            i <= references@.len(),
            all == reference_ids(references@),
            id_texts(ids@) == with_references(id_texts(old(ids)@), all.take(i as int)),
        decreases references@.len() - i,
    {
        proof {
            assert(all.take(i + 1).drop_last() =~= all.take(i as int));
            assert(all[i as int] == references@[i as int].artifact_id@);
        }
        match OutputArtifactId::parse(references[i].artifact_id.as_str()) {
            Some(id) => {
                insert_id(ids, id);
            },
            None => {},
        }
        i += 1;
    }
    proof {
        assert(all.take(i as int) =~= all);
    }
}

fn sidecar_artifact_ids(history: &Vec<ResponseItemEnvelope>) -> (r: Vec<OutputArtifactId>)
    ensures
        id_texts(r@) == sidecar_artifacts(envelope_models(history@), history@.len() as int),
{
    let ghost all = envelope_models(history@);
    let mut ids: Vec<OutputArtifactId> = Vec::new();
    let mut i: usize = 0;
    proof {
        assert(id_texts(ids@) =~= Seq::<Seq<char>>::empty());
    }
    while i < history.len()
        invariant
            i <= history@.len(),
            all == envelope_models(history@),
            id_texts(ids@) == sidecar_artifacts(all, i as int),
        decreases history@.len() - i,
    {
        proof {
            assert(all[i as int] == history@[i as int]@);
        }
        match &history[i].metadata {
            Some(metadata) => {
                add_references(&mut ids, metadata.store_backed_artifact_references());
            },
            None => {},
        }
        i += 1;
    }
    ids
}

/// Returns the store-backed artifacts referenced by an effective fork history snapshot.
///
/// A paired control is still model-visible in the effective snapshot and wins over an older
/// history-only reference when the bounded inventory is full. Of a history whose controls were
/// merged, the artifact of every control is referenced.
pub fn referenced_output_artifact_ids(history: &Vec<ResponseItemEnvelope>) -> (r: Vec<
    OutputArtifactId,
>)
    ensures
        id_texts(r@) == referenced_artifacts(envelope_models(history@)),
        pairs_read_back(envelope_models(history@), history@.len() as int),
        forall|earlier: Seq<EnvelopeModel>, controls: Seq<EnvelopeModel>, k: int|
            #![trigger merged_ids(earlier, controls)[k]]
            merged(earlier, controls) == envelope_models(history@) && 0 <= k < merged_ids(
                earlier,
                controls,
            ).len() ==> id_texts(r@).contains(merged_ids(earlier, controls)[k]),
{
    let mut ids = paired_artifact_ids(history);
    let ghost paired = id_texts(ids@);
    if ids.len() > MAX_ARTIFACT_REFERENCE_SIDECAR_ENTRIES {
        ids.truncate(MAX_ARTIFACT_REFERENCE_SIDECAR_ENTRIES);
    }
    let ghost start = id_texts(ids@);
    proof {
        assert(start =~= first(paired, MAX_ARTIFACT_REFERENCE_SIDECAR_ENTRIES as int));
    }
    let more = sidecar_artifact_ids(history);
    let ghost all = id_texts(more@);
    let mut i: usize = 0;
    proof {
        assert(all.take(0) =~= Seq::<Seq<char>>::empty());
    }
    while i < more.len()
        invariant
            i <= more@.len(),
            all == id_texts(more@),
            id_texts(ids@) == filled_up(start, all.take(i as int)),
        decreases more@.len() - i,
    {
        proof {
            assert(all.take(i + 1).drop_last() =~= all.take(i as int));
            assert(all[i as int] == more@[i as int]@);
        }
        if ids.len() < MAX_ARTIFACT_REFERENCE_SIDECAR_ENTRIES && !ids_contain(&ids, &more[i]) {
            let ghost before = ids@;
            ids.push(more[i].clone());
            proof {
                assert(id_texts(ids@) =~= id_texts(before).push(all[i as int]));
            }
        }
        i += 1;
    }
    proof {
        assert(all.take(i as int) =~= all);
        let models = envelope_models(history@);
        assert forall|earlier: Seq<EnvelopeModel>, controls: Seq<EnvelopeModel>, k: int|
            #![trigger merged_ids(earlier, controls)[k]]
            merged(earlier, controls) == models && 0 <= k < merged_ids(
                earlier,
                controls,
            ).len() implies id_texts(ids@).contains(merged_ids(earlier, controls)[k]) by {
            merged_controls_stay_referenced(earlier, controls, k);
        }
    }
    ids
}

/// The history with the references that the last entry carries; an empty history gets an entry
/// to carry them.
pub open spec fn with_sidecar(
    history: Seq<EnvelopeModel>,
    ids: Seq<Seq<char>>,
) -> Seq<EnvelopeModel> {
    let kept = first(ids, MAX_ARTIFACT_REFERENCE_SIDECAR_ENTRIES as int);
    if kept.len() == 0 {
        history
    } else {
        let carried = if history.len() == 0 {
            seq![EnvelopeModel { item: ResponseItemModel::Other, metadata: None }]
        } else {
            history
        };
        let last = carried.last();
        let metadata = match last.metadata {
            Some(metadata) => metadata,
            None => default_metadata(),
        };
        carried.update(
            carried.len() - 1,
            EnvelopeModel {
                item: last.item,
                metadata: Some(MetadataModel { references: kept, ..metadata }),
            },
        )
    }
}

/// Adds a bounded history-only list of references to the last entry. It is persisted with the
/// entry but never sent to the model, so a long thread cannot turn its artifact inventory into
/// model-visible context.
pub fn attach_artifact_reference_sidecar(
    history: &mut Vec<ResponseItemEnvelope>,
    artifact_ids: &Vec<OutputArtifactId>,
)
    ensures
        envelope_models(final(history)@) == with_sidecar(
            envelope_models(old(history)@),
            id_texts(artifact_ids@),
        ),
{
    let ghost all = id_texts(artifact_ids@);
    let mut ids: Vec<String> = Vec::new();
    let mut i: usize = 0;
    proof {
        assert(texts(ids@) =~= all.take(0));
    }
    while i < artifact_ids.len() && i < MAX_ARTIFACT_REFERENCE_SIDECAR_ENTRIES
        invariant
            i <= artifact_ids@.len(),
            i <= MAX_ARTIFACT_REFERENCE_SIDECAR_ENTRIES,
            all == id_texts(artifact_ids@),
            texts(ids@) == all.take(i as int),
            ids@.len() == i,
        decreases artifact_ids@.len() - i,
    {
        let ghost before = ids@;
        ids.push(artifact_ids[i].as_str().to_owned());
        proof {
            assert(texts(ids@) =~= texts(before).push(all[i as int]));
            assert(all.take(i + 1) =~= all.take(i as int).push(all[i as int]));
        }
        i += 1;
    }
    let ghost kept = first(all, MAX_ARTIFACT_REFERENCE_SIDECAR_ENTRIES as int);
    proof {
        assert(all.take(all.len() as int) =~= all);
        assert(texts(ids@) == kept);
        assert(first(kept, MAX_STORE_BACKED_ARTIFACT_REFERENCES as int) == kept);
    }
    if ids.len() == 0 {
        return;
    }
    let ghost original = envelope_models(history@);
    if history.len() == 0 {
        history.push(ResponseItemEnvelope::new(ResponseItem::Other));
        proof {
            assert(envelope_models(history@) =~= seq![
                EnvelopeModel { item: ResponseItemModel::Other, metadata: None },
            ]);
        }
    }
    let ghost carried = envelope_models(history@);
    let last: usize = history.len() - 1;
    proof {
        assert(carried[last as int] == history@[last as int]@);
    }
    let mut carrier = history[last].clone();
    let mut metadata = match carrier.metadata {
        Some(metadata) => metadata,
        None => CodexHarnessMetadata::default(),
    };
    metadata.set_store_backed_artifact_references(ids);
    carrier.metadata = Some(metadata);
    history.set(last, carrier);
    proof {
        assert(envelope_models(history@) =~= with_sidecar(original, all));
    }
}

/// One member of an item's JSON text.
pub open spec fn json_field(name: Seq<char>, value: Seq<char>) -> Seq<char> {
    ",\""@ + name + "\":"@ + json_string(value)
}

/// One member of an item's JSON text that may be absent.
pub open spec fn optional_json_field(name: Seq<char>, value: Option<Seq<char>>) -> Seq<char> {
    match value {
        Some(value) => json_field(name, value),
        None => seq![],
    }
}

/// The JSON text of the call or the output of a control.
///
/// The form is assumed to be the one that a provider is sent: the kind first, then the members in
/// the order of their declaration, without those that are absent. No identifier of its own and
/// nothing that is only carried stands in a control.
#[verifier::opaque]
pub open spec fn control_json(item: ResponseItemModel) -> Seq<char> {
    match item {
        ResponseItemModel::FunctionCall { name, namespace, arguments, call_id, .. } => {
            "{\"type\":\"function_call\""@ + json_field("name"@, name) + optional_json_field(
                "namespace"@,
                namespace,
            ) + json_field("arguments"@, arguments) + json_field("call_id"@, call_id) + "}"@
        },
        ResponseItemModel::CustomToolCall { call_id, name, namespace, input, .. } => {
            "{\"type\":\"custom_tool_call\""@ + json_field("call_id"@, call_id) + json_field(
                "name"@,
                name,
            ) + optional_json_field("namespace"@, namespace) + json_field("input"@, input) + "}"@
        },
        ResponseItemModel::FunctionCallOutput { call_id, name, namespace, output, .. } => {
            "{\"type\":\"function_call_output\""@ + optional_json_field("call_id"@, call_id)
                + optional_json_field("name"@, name) + optional_json_field(
                "namespace"@,
                namespace,
            ) + ",\"output\":"@ + body_json(output.body) + "}"@
        },
        ResponseItemModel::CustomToolCallOutput { call_id, name, output, .. } => {
            "{\"type\":\"custom_tool_call_output\""@ + json_field("call_id"@, call_id)
                + optional_json_field("name"@, name) + ",\"output\":"@ + body_json(output.body)
                + "}"@
        },
        _ => seq![],
    }
}

fn append_field(out: &mut String, name: &str, value: &str)
    ensures
        final(out)@ == old(out)@ + json_field(name@, value@),
{
    out.append(",\"");
    out.append(name);
    out.append("\":");
    out.append(json_string_text(value).as_str());
    proof {
        assert(out@ =~= old(out)@ + json_field(name@, value@));
    }
}

fn append_optional_field(out: &mut String, name: &str, value: &Option<String>)
    ensures
        final(out)@ == old(out)@ + optional_json_field(name@, optional_text(*value)),
{
    match value {
        Some(value) => {
            append_field(out, name, value.as_str());
        },
        None => {
            proof {
                assert(out@ =~= old(out)@ + Seq::<char>::empty());
            }
        },
    }
}

/// The size of the JSON text of the call or the output of a control.
pub fn control_json_bytes(item: &ResponseItem) -> (r: usize)
    ensures
        r == utf8_len(control_json(item@)),
{
    proof {
        reveal(control_json);
    }
    let mut out = String::new();
    match item {
        ResponseItem::FunctionCall { name, namespace, arguments, call_id, .. } => {
            out.append("{\"type\":\"function_call\"");
            append_field(&mut out, "name", name.as_str());
            append_optional_field(&mut out, "namespace", namespace);
            append_field(&mut out, "arguments", arguments.as_str());
            append_field(&mut out, "call_id", call_id.as_str());
            out.append("}");
        },
        ResponseItem::CustomToolCall { call_id, name, namespace, input, .. } => {
            out.append("{\"type\":\"custom_tool_call\"");
            append_field(&mut out, "call_id", call_id.as_str());
            append_field(&mut out, "name", name.as_str());
            append_optional_field(&mut out, "namespace", namespace);
            append_field(&mut out, "input", input.as_str());
            out.append("}");
        },
        ResponseItem::FunctionCallOutput { call_id, name, namespace, output, .. } => {
            out.append("{\"type\":\"function_call_output\"");
            append_optional_field(&mut out, "call_id", call_id);
            append_optional_field(&mut out, "name", name);
            append_optional_field(&mut out, "namespace", namespace);
            out.append(",\"output\":");
            out.append(body_to_json(&output.body).as_str());
            out.append("}");
        },
        ResponseItem::CustomToolCallOutput { call_id, name, output, .. } => {
            out.append("{\"type\":\"custom_tool_call_output\"");
            append_field(&mut out, "call_id", call_id.as_str());
            append_optional_field(&mut out, "name", name);
            out.append(",\"output\":");
            out.append(body_to_json(&output.body).as_str());
            out.append("}");
        },
        _ => {},
    }
    proof {
        assert(out@ =~= control_json(item@));
    }
    byte_len(out.as_str())
}

/// The payload of a control.
pub open spec fn control_payload(id: Seq<char>) -> PayloadModel {
    PayloadModel {
        body: BodyModel::Text(object_text(control_members(id))),
        success: Some(true),
    }
}

/// The call of a control for an artifact, in the form of the call it stands for.
pub open spec fn control_call(call: ResponseItemModel, id: Seq<char>) -> Option<
    ResponseItemModel,
> {
    let arguments = object_text(retrieval_members(id));
    match call {
        ResponseItemModel::FunctionCall { .. } => Some(
            ResponseItemModel::FunctionCall {
                id: None,
                name: "read_tool_output"@,
                namespace: None,
                arguments,
                encrypted_function_args: None,
                call_id: legacy_call_id(id),
                internal_chat_message_metadata_passthrough: None,
            },
        ),
        ResponseItemModel::LocalShellCall { .. } => Some(
            ResponseItemModel::FunctionCall {
                id: None,
                name: "read_tool_output"@,
                namespace: None,
                arguments,
                encrypted_function_args: None,
                call_id: legacy_call_id(id),
                internal_chat_message_metadata_passthrough: None,
            },
        ),
        ResponseItemModel::CustomToolCall { .. } => Some(
            ResponseItemModel::CustomToolCall {
                id: None,
                status: None,
                call_id: legacy_call_id(id),
                name: "read_tool_output"@,
                namespace: None,
                input: arguments,
                internal_chat_message_metadata_passthrough: None,
            },
        ),
        _ => None,
    }
}

/// The output of a control for an artifact, in the form of the output it stands for.
pub open spec fn control_output(output: ResponseItemModel, id: Seq<char>) -> Option<
    ResponseItemModel,
> {
    match output {
        ResponseItemModel::FunctionCallOutput { .. } => Some(
            ResponseItemModel::FunctionCallOutput {
                id: None,
                call_id: Some(legacy_call_id(id)),
                name: Some("read_tool_output"@),
                namespace: None,
                output: control_payload(id),
                internal_chat_message_metadata_passthrough: None,
            },
        ),
        ResponseItemModel::CustomToolCallOutput { .. } => Some(
            ResponseItemModel::CustomToolCallOutput {
                id: None,
                call_id: legacy_call_id(id),
                name: Some("read_tool_output"@),
                output: control_payload(id),
                internal_chat_message_metadata_passthrough: None,
            },
        ),
        _ => None,
    }
}

/// The call and the output of a control for an artifact, of a fixed small size whatever they
/// stand for.
pub open spec fn control_pair(
    call: ResponseItemModel,
    output: ResponseItemModel,
    id: Seq<char>,
) -> Option<(EnvelopeModel, EnvelopeModel)> {
    match (control_call(call, id), control_output(output, id)) {
        (Some(call), Some(output)) => Some(
            (
                EnvelopeModel { item: call, metadata: None },
                EnvelopeModel { item: output, metadata: Some(store_backed_metadata()) },
            ),
        ),
        _ => None,
    }
}

/// Whether two calls have controls of the same form.
pub open spec fn same_call_form(a: ResponseItemModel, b: ResponseItemModel) -> bool {
    match a {
        ResponseItemModel::FunctionCall { .. } => b is FunctionCall || b is LocalShellCall,
        ResponseItemModel::LocalShellCall { .. } => b is FunctionCall || b is LocalShellCall,
        ResponseItemModel::CustomToolCall { .. } => b is CustomToolCall,
        _ => false,
    }
}

/// Whether two outputs have controls of the same form.
pub open spec fn same_output_form(a: ResponseItemModel, b: ResponseItemModel) -> bool {
    match a {
        ResponseItemModel::FunctionCallOutput { .. } => b is FunctionCallOutput,
        ResponseItemModel::CustomToolCallOutput { .. } => b is CustomToolCallOutput,
        _ => false,
    }
}

/// The tool that a call names, and what it hands over.
pub open spec fn call_contents(item: ResponseItemModel) -> Option<(Seq<char>, Seq<char>)> {
    match item {
        ResponseItemModel::FunctionCall { name, arguments, .. } => Some((name, arguments)),
        ResponseItemModel::CustomToolCall { name, input, .. } => Some((name, input)),
        _ => None,
    }
}

/// A control depends on nothing but the artifact and the kinds of the two items that it stands
/// for: names, arguments, contents, identifiers and metadata are forgotten.
pub proof fn control_forgets_its_pair(
    call: ResponseItemModel,
    output: ResponseItemModel,
    other_call: ResponseItemModel,
    other_output: ResponseItemModel,
    id: Seq<char>,
)
    requires
        same_call_form(call, other_call),
        same_output_form(output, other_output),
    ensures
        control_pair(call, output, id) == control_pair(other_call, other_output, id),
        control_pair(call, output, id) matches Some((new_call, new_output)) && {
            &&& call_contents(new_call.item) == Some(
                ("read_tool_output"@, object_text(retrieval_members(id))),
            )
            &&& new_call.metadata is None
            &&& output_of(new_output.item) == Some(control_payload(id))
            &&& control_payload(id).success == Some(true)
            &&& new_output.metadata == Some(store_backed_metadata())
            &&& tool_call_id(new_call.item) == Some(legacy_call_id(id))
            &&& output_call_id_of(new_output.item) == Some(legacy_call_id(id))
        },
{
}

/// The model of an optional pair of history entries.
pub open spec fn optional_pair(
    pair: Option<(ResponseItemEnvelope, ResponseItemEnvelope)>,
) -> Option<(EnvelopeModel, EnvelopeModel)> {
    match pair {
        Some((call, output)) => Some((call@, output@)),
        None => None,
    }
}

/// The call and the output of a control for an artifact.
fn synthetic_artifact_control_pair(
    call: &ResponseItem,
    output: &ResponseItem,
    artifact_id: &OutputArtifactId,
) -> (r: Option<(ResponseItemEnvelope, ResponseItemEnvelope)>)
    ensures
        optional_pair(r) == control_pair(call@, output@, artifact_id@),
{
    let mut call_id = String::from_str("artifact_ref_");
    call_id.append(artifact_id.digest().as_str());
    let arguments = synthetic_retrieval_arguments(artifact_id);
    let call_item = match call {
        ResponseItem::FunctionCall { .. } => ResponseItem::FunctionCall {
            id: None,
            name: "read_tool_output".to_owned(),
            namespace: None,
            arguments,
            encrypted_function_args: None,
            call_id: call_id.clone(),
            internal_chat_message_metadata_passthrough: None,
        },
        ResponseItem::LocalShellCall { .. } => ResponseItem::FunctionCall {
            id: None,
            name: "read_tool_output".to_owned(),
            namespace: None,
            arguments,
            encrypted_function_args: None,
            call_id: call_id.clone(),
            internal_chat_message_metadata_passthrough: None,
        },
        ResponseItem::CustomToolCall { .. } => ResponseItem::CustomToolCall {
            id: None,
            status: None,
            call_id: call_id.clone(),
            name: "read_tool_output".to_owned(),
            namespace: None,
            input: arguments,
            internal_chat_message_metadata_passthrough: None,
        },
        _ => {
            return None;
        },
    };
    let payload = FunctionCallOutputPayload {
        body: FunctionCallOutputBody::Text(synthetic_artifact_control_body(artifact_id)),
        success: Some(true),
    };
    let output_item = match output {
        ResponseItem::FunctionCallOutput { .. } => ResponseItem::FunctionCallOutput {
            id: None,
            call_id: Some(call_id),
            name: Some("read_tool_output".to_owned()),
            namespace: None,
            output: payload,
            internal_chat_message_metadata_passthrough: None,
        },
        ResponseItem::CustomToolCallOutput { .. } => ResponseItem::CustomToolCallOutput {
            id: None,
            call_id,
            name: Some("read_tool_output".to_owned()),
            output: payload,
            internal_chat_message_metadata_passthrough: None,
        },
        _ => {
            return None;
        },
    };
    Some(
        (
            ResponseItemEnvelope::new(call_item),
            ResponseItemEnvelope {
                item: output_item,
                metadata: Some(CodexHarnessMetadata::store_backed_tool_output()),
            },
        ),
    )
}

/// The size of the JSON texts of a pair.
pub open spec fn pair_bytes(call: EnvelopeModel, output: EnvelopeModel) -> usize {
    sum_size(
        utf8_len(control_json(call.item)) as int,
        utf8_len(control_json(output.item)) as int,
    )
}

/// Controls that were taken over so far.
pub struct ControlsModel {
    /// Calls and outputs, in turn.
    pub controls: Seq<EnvelopeModel>,
    /// The artifacts that were considered.
    pub seen: Seq<Seq<char>>,
    /// The size of the JSON texts of the controls.
    pub bytes: usize,
    /// Whether no further control is taken over.
    pub stopped: bool,
}

/// No controls.
pub open spec fn no_controls() -> ControlsModel {
    ControlsModel { controls: seq![], seen: seq![], bytes: 0, stopped: false }
}

/// The controls after entry `i` of a history was looked at.
pub open spec fn with_entry(
    history: Seq<EnvelopeModel>,
    state: ControlsModel,
    i: int,
) -> ControlsModel {
    if state.stopped || state.controls.len() / 2 >= MAX_COMPACTION_ARTIFACT_CONTROLS {
        state
    } else {
        match paired_artifact(history, i) {
            None => state,
            Some(id) => if state.seen.contains(id) {
                state
            } else {
                let seen = state.seen.push(id);
                let call = history[call_at(
                    history,
                    output_call_id_of(history[i].item)->0,
                    0,
                )->0];
                match control_pair(call.item, history[i].item, id) {
                    None => ControlsModel { seen, ..state },
                    Some((call, output)) => if sum_size(
                        state.bytes as int,
                        pair_bytes(call, output) as int,
                    ) > MAX_COMPACTION_ARTIFACT_CONTROL_BYTES {
                        ControlsModel { seen, stopped: true, ..state }
                    } else {
                        ControlsModel {
                            controls: state.controls.push(call).push(output),
                            seen,
                            bytes: sum_size(state.bytes as int, pair_bytes(call, output) as int),
                            stopped: false,
                        }
                    },
                }
            },
        }
    }
}

/// The controls after the first `n` entries of a history were looked at.
pub open spec fn entry_controls(history: Seq<EnvelopeModel>, n: int) -> ControlsModel
    decreases n,
{
    if n <= 0 {
        no_controls()
    } else {
        with_entry(history, entry_controls(history, n - 1), n - 1)
    }
}

/// The controls that are carried through a compaction of a history.
pub open spec fn compaction_controls(history: Seq<EnvelopeModel>) -> Seq<EnvelopeModel> {
    entry_controls(history, history.len() as int).controls
}

/// Whether an entry is read while the controls of a history are taken over.
pub open spec fn entry_is_read(history: Seq<EnvelopeModel>, i: int) -> bool {
    let state = entry_controls(history, i);
    is_paired(history, i) && !state.stopped && state.controls.len() / 2
        < MAX_COMPACTION_ARTIFACT_CONTROLS
}

/// Whether the texts of the entries that are read among the first `n` read back.
pub open spec fn entries_read_back(history: Seq<EnvelopeModel>, n: int) -> bool {
    forall|i: int|
        0 <= i < n && #[trigger] entry_is_read(history, i) ==> item_reads_back(history[i].item)
}

/// Controls under construction.
struct Controls {
    controls: Vec<ResponseItemEnvelope>,
    seen: Vec<OutputArtifactId>,
    bytes: usize,
    stopped: bool,
}

impl Controls {
    spec fn view(&self) -> ControlsModel {
        ControlsModel {
            controls: envelope_models(self.controls@),
            seen: id_texts(self.seen@),
            bytes: self.bytes,
            stopped: self.stopped,
        }
    }

    fn new() -> (r: Controls)
        ensures
            r@ == no_controls(),
    {
        let controls: Vec<ResponseItemEnvelope> = Vec::new();
        let seen: Vec<OutputArtifactId> = Vec::new();
        proof {
            assert(envelope_models(controls@) =~= Seq::<EnvelopeModel>::empty());
            assert(id_texts(seen@) =~= Seq::<Seq<char>>::empty());
        }
        Controls { controls, seen, bytes: 0, stopped: false }
    }

    fn mark_seen(&mut self, id: &OutputArtifactId)
        ensures
            final(self)@ == (ControlsModel { seen: old(self)@.seen.push(id@), ..old(self)@ }),
    {
        self.seen.push(id.clone());
        proof {
            assert(id_texts(self.seen@) =~= old(self)@.seen.push(id@));
        }
    }

    fn push_pair(&mut self, call: ResponseItemEnvelope, output: ResponseItemEnvelope, bytes: usize)
        ensures
            final(self)@ == (ControlsModel {
                controls: old(self)@.controls.push(call@).push(output@),
                bytes,
                ..old(self)@
            }),
    {
        self.controls.push(call);
        self.controls.push(output);
        self.bytes = bytes;
        proof {
            assert(envelope_models(self.controls@) =~= old(self)@.controls.push(call@).push(
                output@,
            ));
        }
    }
}

fn measure_pair(call: &ResponseItemEnvelope, output: &ResponseItemEnvelope) -> (r: usize)
    ensures
        r == pair_bytes(call@, output@),
{
    control_json_bytes(&call.item).saturating_add(control_json_bytes(&output.item))
}

fn take_entry(history: &Vec<ResponseItemEnvelope>, state: &mut Controls, i: usize)
    requires
        i < history@.len(),
    ensures
        final(state)@ == with_entry(envelope_models(history@), old(state)@, i as int),
        is_paired(envelope_models(history@), i as int) && !old(state)@.stopped
            && old(state)@.controls.len() / 2 < MAX_COMPACTION_ARTIFACT_CONTROLS
            ==> item_reads_back(envelope_models(history@)[i as int].item),
{
    let ghost all = envelope_models(history@);
    proof {
        assert(all[i as int] == history@[i as int]@);
        assert(state@.controls.len() == state.controls@.len());
    }
    if state.stopped || state.controls.len() / 2 >= MAX_COMPACTION_ARTIFACT_CONTROLS {
        return;
    }
    let call_index: usize = match response_output_call_id(&history[i].item) {
        Some(call) => match find_call(history, call.as_str()) {
            Some(index) => index,
            None => {
                return;
            },
        },
        None => {
            return;
        },
    };
    let id = match envelope_artifact_id(&history[i]) {
        Some(id) => id,
        None => {
            return;
        },
    };
    if ids_contain(&state.seen, &id) {
        return;
    }
    state.mark_seen(&id);
    proof {
        assert(all[call_index as int] == history@[call_index as int]@);
    }
    match synthetic_artifact_control_pair(&history[call_index].item, &history[i].item, &id) {
        Some((call, output)) => {
            let bytes: usize = state.bytes.saturating_add(measure_pair(&call, &output));
            if bytes > MAX_COMPACTION_ARTIFACT_CONTROL_BYTES {
                state.stopped = true;
            } else {
                state.push_pair(call, output, bytes);
            }
        },
        None => {},
    }
}

/// Returns paired, trusted artifact controls that can be carried through a history replacement.
///
/// Compaction implementations are allowed to discard ordinary tool calls and outputs, but a
/// managed artifact needs one durable call/output group so a later resume or fork can still find
/// and copy its store entry. Only the effective history is inspected, and an output is retained
/// only when its matching call is present. Artifact-shaped text without harness metadata is never
/// promoted by this helper. Controls that were taken over before are taken over as they are.
pub fn artifact_controls_for_compaction(history: &Vec<ResponseItemEnvelope>) -> (r: Vec<
    ResponseItemEnvelope,
>)
    ensures
        envelope_models(r@) == compaction_controls(envelope_models(history@)),
        entries_read_back(envelope_models(history@), history@.len() as int),
        forall|earlier: Seq<EnvelopeModel>| #[trigger]
            compaction_controls(earlier) == envelope_models(history@) ==> envelope_models(r@)
                == envelope_models(history@),
{
    let ghost all = envelope_models(history@);
    let mut state = Controls::new();
    let mut i: usize = 0;
    while i < history.len()
        invariant
            i <= history@.len(),
            all == envelope_models(history@),
            state@ == entry_controls(all, i as int),
            entries_read_back(all, i as int),
        decreases history@.len() - i,
    {
        take_entry(history, &mut state, i);
        i += 1;
    }
    proof {
        assert forall|earlier: Seq<EnvelopeModel>| #[trigger]
            compaction_controls(earlier) == all implies compaction_controls(all) == all by {
            compaction_controls_are_stable(earlier);
        }
    }
    state.controls
}

/// The controls after one more candidate pair was looked at.
pub open spec fn with_candidate(
    state: ControlsModel,
    call: EnvelopeModel,
    output: EnvelopeModel,
) -> ControlsModel {
    match envelope_artifact(output) {
        None => state,
        Some(id) => match control_pair(call.item, output.item, id) {
            None => state,
            Some((call, output)) => {
                let size = pair_bytes(call, output);
                let total = sum_size(state.bytes as int, size as int);
                if state.controls.len() / 2 >= MAX_COMPACTION_ARTIFACT_CONTROLS || size
                    > MAX_COMPACTION_ARTIFACT_CONTROL_PAIR_BYTES || total
                    > MAX_COMPACTION_ARTIFACT_CONTROL_BYTES || state.seen.contains(id) {
                    state
                } else {
                    ControlsModel {
                        controls: state.controls.push(call).push(output),
                        seen: state.seen.push(id),
                        bytes: total,
                        stopped: state.stopped,
                    }
                }
            },
        },
    }
}

/// The controls after the first `n` candidate pairs were looked at.
pub open spec fn candidate_controls(candidates: Seq<EnvelopeModel>, n: int) -> ControlsModel
    decreases n,
{
    if n <= 0 {
        no_controls()
    } else {
        with_candidate(
            candidate_controls(candidates, n - 1),
            candidates[2 * n - 2],
            candidates[2 * n - 1],
        )
    }
}

/// Whether an entry is a marked control of one artifact.
pub open spec fn is_recoverable(envelope: EnvelopeModel) -> bool {
    envelope_artifact(envelope) is Some
}

/// Whether a call of the history is answered by a marked control.
pub open spec fn call_is_paired(history: Seq<EnvelopeModel>, id: Seq<char>) -> bool {
    exists|i: int|
        0 <= i < history.len() && is_recoverable(#[trigger] history[i]) && output_call_id_of(
            history[i].item,
        ) == Some(id)
}

/// Whether an entry stays in a history whose controls are rebuilt.
pub open spec fn stays(history: Seq<EnvelopeModel>, envelope: EnvelopeModel) -> bool {
    &&& !is_recoverable(envelope)
    &&& match tool_call_id(envelope.item) {
        Some(id) => !call_is_paired(history, id),
        None => true,
    }
}

/// The entries that stay, among the first `n`.
pub open spec fn staying(history: Seq<EnvelopeModel>, n: int) -> Seq<EnvelopeModel>
    decreases n,
{
    if n <= 0 {
        seq![]
    } else if stays(history, history[n - 1]) {
        staying(history, n - 1).push(history[n - 1])
    } else {
        staying(history, n - 1)
    }
}

/// A history whose controls are rebuilt in front of everything else.
pub open spec fn merged(
    history: Seq<EnvelopeModel>,
    controls: Seq<EnvelopeModel>,
) -> Seq<EnvelopeModel> {
    let candidates = compaction_controls(history) + controls;
    candidate_controls(candidates, candidates.len() as int / 2).controls + staying(
        history,
        history.len() as int,
    )
}

fn take_candidate(
    state: &mut Controls,
    call: &ResponseItemEnvelope,
    output: &ResponseItemEnvelope,
)
    ensures
        final(state)@ == with_candidate(old(state)@, call@, output@),
{
    proof {
        assert(state@.controls.len() == state.controls@.len());
    }
    let id = match envelope_artifact_id(output) {
        Some(id) => id,
        None => {
            return;
        },
    };
    match synthetic_artifact_control_pair(&call.item, &output.item, &id) {
        Some((call, output)) => {
            let size: usize = measure_pair(&call, &output);
            let total: usize = state.bytes.saturating_add(size);
            if state.controls.len() / 2 >= MAX_COMPACTION_ARTIFACT_CONTROLS || size
                > MAX_COMPACTION_ARTIFACT_CONTROL_PAIR_BYTES || total
                > MAX_COMPACTION_ARTIFACT_CONTROL_BYTES || ids_contain(&state.seen, &id) {
                return;
            }
            state.mark_seen(&id);
            state.push_pair(call, output, total);
        },
        None => {},
    }
}

fn check_call_paired(history: &Vec<ResponseItemEnvelope>, id: &str) -> (r: bool)
    ensures
        r == call_is_paired(envelope_models(history@), id@),
{
    let ghost all = envelope_models(history@);
    let mut i: usize = 0;
    while i < history.len()
        invariant
            i <= history@.len(),
            all == envelope_models(history@),
            forall|j: int|
                0 <= j < i ==> !(is_recoverable(#[trigger] all[j]) && output_call_id_of(
                    all[j].item,
                ) == Some(id@)),
        decreases history@.len() - i,
    {
        proof {
            assert(all[i as int] == history@[i as int]@);
        }
        let answers = match response_output_call_id(&history[i].item) {
            Some(call) => same_text(call.as_str(), id),
            None => false,
        };
        if answers && envelope_artifact_id(&history[i]).is_some() {
            return true;
        }
        i += 1;
    }
    false
}

fn check_stays(history: &Vec<ResponseItemEnvelope>, envelope: &ResponseItemEnvelope) -> (r: bool)
    ensures
        r == stays(envelope_models(history@), envelope@),
{
    if envelope_artifact_id(envelope).is_some() {
        return false;
    }
    match tool_call_id_of(&envelope.item) {
        Some(id) => !check_call_paired(history, id.as_str()),
        None => true,
    }
}

/// Adds missing trusted artifact call/output groups to a replacement history.
///
/// A history that a provider returned is not allowed to redefine a trusted control. Every trusted
/// artifact pair is rebuilt from the bounded synthetic controls, which removes echoed call
/// arguments and caps both pair count and aggregate bytes.
pub fn merge_artifact_controls(
    history: &Vec<ResponseItemEnvelope>,
    controls: &Vec<ResponseItemEnvelope>,
) -> (r: Vec<ResponseItemEnvelope>)
    ensures
        envelope_models(r@) == merged(envelope_models(history@), envelope_models(controls@)),
{
    let existing = artifact_controls_for_compaction(history);
    let ghost all = envelope_models(history@);
    let ghost candidates = compaction_controls(all) + envelope_models(controls@);
    let total: usize = existing.len();
    let mut state = Controls::new();
    let mut pairs: Vec<ResponseItemEnvelope> = existing;
    let mut k: usize = 0;
    while k < controls.len()
        invariant
            k <= controls@.len(),
            envelope_models(pairs@) == compaction_controls(all) + envelope_models(controls@).take(
                k as int,
            ),
        decreases controls@.len() - k,
    {
        let ghost before = pairs@;
        pairs.push(controls[k].clone());
        proof {
            let more = envelope_models(controls@);
            assert(more[k as int] == controls@[k as int]@);
            assert(envelope_models(pairs@) =~= envelope_models(before).push(more[k as int]));
            assert(more.take(k + 1) =~= more.take(k as int).push(more[k as int]));
            assert(compaction_controls(all) + more.take(k + 1) =~= (compaction_controls(all)
                + more.take(k as int)).push(more[k as int]));
        }
        k += 1;
    }
    proof {
        assert(envelope_models(controls@).take(k as int) =~= envelope_models(controls@));
        assert(envelope_models(pairs@) == candidates);
    }
    let mut n: usize = 0;
    while n < pairs.len() / 2
        invariant
            n <= pairs@.len() / 2,
            candidates == envelope_models(pairs@),
            state@ == candidate_controls(candidates, n as int),
        decreases pairs@.len() / 2 - n,
    {
        proof {
            assert(candidates[2 * n] == pairs@[2 * n]@);
            assert(candidates[2 * n + 1] == pairs@[2 * n + 1]@);
        }
        take_candidate(&mut state, &pairs[2 * n], &pairs[2 * n + 1]);
        n += 1;
    }
    let ghost rebuilt = state@.controls;
    let mut out = state.controls;
    let mut i: usize = 0;
    proof {
        assert(rebuilt + staying(all, 0) =~= rebuilt);
    }
    while i < history.len()
        invariant
            i <= history@.len(),
            all == envelope_models(history@),
            envelope_models(out@) == rebuilt + staying(all, i as int),
        decreases history@.len() - i,
    {
        proof {
            assert(all[i as int] == history@[i as int]@);
        }
        if check_stays(history, &history[i]) {
            let ghost before = out@;
            out.push(history[i].clone());
            proof {
                assert(envelope_models(out@) =~= envelope_models(before).push(all[i as int]));
                assert(rebuilt + staying(all, i + 1) =~= (rebuilt + staying(all, i as int)).push(
                    all[i as int],
                ));
            }
        }
        i += 1;
    }
    out
}

/// The JSON size of calls and outputs, in turn.
pub open spec fn controls_bytes(controls: Seq<EnvelopeModel>) -> nat
    decreases controls.len(),
{
    if controls.len() == 0 {
        0
    } else {
        controls_bytes(controls.drop_last()) + utf8_len(control_json(controls.last().item))
    }
}

/// Whether a call and an output are the control of an artifact: a call of `read_tool_output` and
/// its answer, which the harness marks as store-backed.
pub open spec fn is_control_of(
    call: EnvelopeModel,
    output: EnvelopeModel,
    id: Seq<char>,
) -> bool {
    &&& tool_call_id(call.item) == Some(legacy_call_id(id))
    &&& output_call_id_of(output.item) == Some(legacy_call_id(id))
    &&& call.metadata is None
    &&& is_store_backed(output)
    &&& output_of(output.item) == Some(control_payload(id))
}

/// Whether entries are bounded controls: at most the largest number of pairs and bytes, each the
/// control of one artifact, and no artifact twice.
pub open spec fn bounded_controls(controls: Seq<EnvelopeModel>, ids: Seq<Seq<char>>) -> bool {
    &&& controls.len() == 2 * ids.len()
    &&& ids.len() <= MAX_COMPACTION_ARTIFACT_CONTROLS
    &&& controls_bytes(controls) <= MAX_COMPACTION_ARTIFACT_CONTROL_BYTES
    &&& forall|k: int|
        0 <= k < ids.len() ==> is_control_of(
            controls[2 * k],
            controls[2 * k + 1],
            #[trigger] ids[k],
        )
    &&& ids.no_duplicates()
}

proof fn pair_is_control(call: ResponseItemModel, output: ResponseItemModel, id: Seq<char>)
    requires
        control_pair(call, output, id) is Some,
    ensures
        is_control_of(
            (control_pair(call, output, id)->0).0,
            (control_pair(call, output, id)->0).1,
            id,
        ),
{
}

proof fn push_control(
    controls: Seq<EnvelopeModel>,
    ids: Seq<Seq<char>>,
    call: EnvelopeModel,
    output: EnvelopeModel,
    id: Seq<char>,
)
    requires
        bounded_controls(controls, ids),
        is_control_of(call, output, id),
        !ids.contains(id),
        ids.len() < MAX_COMPACTION_ARTIFACT_CONTROLS,
        controls_bytes(controls) + pair_bytes(call, output)
            <= MAX_COMPACTION_ARTIFACT_CONTROL_BYTES,
    ensures
        bounded_controls(controls.push(call).push(output), ids.push(id)),
        controls_bytes(controls.push(call).push(output)) == controls_bytes(controls) + pair_bytes(
            call,
            output,
        ),
{
    let more = controls.push(call).push(output);
    let more_ids = ids.push(id);
    assert(more.drop_last() =~= controls.push(call));
    assert(controls.push(call).drop_last() =~= controls);
    assert(controls_bytes(controls.push(call)) == controls_bytes(controls) + utf8_len(
        control_json(call.item),
    ));
    assert(controls_bytes(more) == controls_bytes(controls.push(call)) + utf8_len(
        control_json(output.item),
    ));
    assert forall|k: int| 0 <= k < more_ids.len() implies is_control_of(
        more[2 * k],
        more[2 * k + 1],
        #[trigger] more_ids[k],
    ) by {
        if k < ids.len() {
            assert(more_ids[k] == ids[k]);
            assert(more[2 * k] == controls[2 * k]);
            assert(more[2 * k + 1] == controls[2 * k + 1]);
        } else {
            assert(more[2 * k] == call);
            assert(more[2 * k + 1] == output);
        }
    }
    assert forall|i: int, j: int| 0 <= i < j < more_ids.len() implies more_ids[i]
        != more_ids[j] by {
        if j == ids.len() {
            assert(ids.contains(ids[i]));
        }
    }
}

/// Whether a history holds a marked output whose call is there too, and which names an artifact.
pub open spec fn names_artifact(history: Seq<EnvelopeModel>, id: Seq<char>) -> bool {
    exists|i: int| 0 <= i < history.len() && #[trigger] paired_artifact(history, i) == Some(id)
}

/// Whether the control of a control is the control itself, for each of the artifacts.
spec fn are_settled(controls: Seq<EnvelopeModel>, ids: Seq<Seq<char>>) -> bool {
    forall|k: int|
        0 <= k < ids.len() ==> is_artifact_id(#[trigger] ids[k]) && control_pair(
            controls[2 * k].item,
            controls[2 * k + 1].item,
            ids[k],
        ) == Some((controls[2 * k], controls[2 * k + 1]))
}

proof fn entry_controls_bounded(history: Seq<EnvelopeModel>, n: int) -> (ids: Seq<Seq<char>>)
    requires
        0 <= n <= history.len(),
    ensures
        are_settled(entry_controls(history, n).controls, ids),
        forall|k: int| 0 <= k < ids.len() ==> names_artifact(history, #[trigger] ids[k]),
        bounded_controls(entry_controls(history, n).controls, ids),
        entry_controls(history, n).bytes == controls_bytes(entry_controls(history, n).controls),
        forall|id: Seq<char>|
            ids.contains(id) ==> entry_controls(history, n).seen.contains(id),
    decreases n,
{
    if n <= 0 {
        Seq::<Seq<char>>::empty()
    } else {
        let ids = entry_controls_bounded(history, n - 1);
        let state = entry_controls(history, n - 1);
        let after = entry_controls(history, n);
        if after.controls.len() > state.controls.len() {
            let id = paired_artifact(history, n - 1)->0;
            let call = history[call_at(history, output_call_id_of(history[n - 1].item)->0, 0)->0];
            assert(!ids.contains(id));
            pair_is_control(call.item, history[n - 1].item, id);
            let (new_call, new_output) = control_pair(call.item, history[n - 1].item, id)->0;
            push_control(state.controls, ids, new_call, new_output, id);
            let more = ids.push(id);
            envelope_artifact_valid(history[n - 1]);
            assert(names_artifact(history, id));
            assert forall|k: int| 0 <= k < more.len() implies is_artifact_id(#[trigger] more[k])
                && control_pair(
                after.controls[2 * k].item,
                after.controls[2 * k + 1].item,
                more[k],
            ) == Some((after.controls[2 * k], after.controls[2 * k + 1])) && names_artifact(
                history,
                more[k],
            ) by {
                if k < ids.len() {
                    assert(more[k] == ids[k]);
                    assert(after.controls[2 * k] == state.controls[2 * k]);
                    assert(after.controls[2 * k + 1] == state.controls[2 * k + 1]);
                } else {
                    assert(after.controls[2 * k] == new_call);
                    assert(after.controls[2 * k + 1] == new_output);
                }
            }
            assert forall|t: Seq<char>| more.contains(t) implies after.seen.contains(t) by {
                let k = choose|k: int| 0 <= k < more.len() && more[k] == t;
                if k < ids.len() {
                    assert(ids.contains(t));
                    let m = choose|m: int| 0 <= m < state.seen.len() && state.seen[m] == t;
                    assert(after.seen[m] == t);
                } else {
                    assert(after.seen[after.seen.len() - 1] == t);
                }
            }
            more
        } else {
            assert forall|t: Seq<char>| ids.contains(t) implies after.seen.contains(t) by {
                let m = choose|m: int| 0 <= m < state.seen.len() && state.seen[m] == t;
                assert(after.seen[m] == t);
            }
            ids
        }
    }
}

/// However long a history is, the controls that are carried through its compaction are bounded:
/// at most 32 pairs of at most 16 KiB in all, each the control of one artifact, none twice.
pub proof fn compaction_controls_are_bounded(history: Seq<EnvelopeModel>)
    ensures
        exists|ids: Seq<Seq<char>>| bounded_controls(compaction_controls(history), ids),
{
    let ids = entry_controls_bounded(history, history.len() as int);
    assert(bounded_controls(compaction_controls(history), ids));
}

/// Nothing is promoted by a compaction: each control that is carried through it names an artifact
/// that a marked output of the history names, whose call is in the history too.
pub proof fn compaction_controls_are_named(history: Seq<EnvelopeModel>)
    ensures
        exists|ids: Seq<Seq<char>>|
            {
                &&& #[trigger] bounded_controls(compaction_controls(history), ids)
                &&& forall|k: int| 0 <= k < ids.len() ==> names_artifact(history, #[trigger] ids[k])
            },
{
    let ids = entry_controls_bounded(history, history.len() as int);
    assert(bounded_controls(compaction_controls(history), ids));
}

proof fn legacy_ids_differ(a: Seq<char>, b: Seq<char>)
    requires
        is_artifact_id(a),
        is_artifact_id(b),
        legacy_call_id(a) == legacy_call_id(b),
    ensures
        a == b,
{
    let front = synthetic_prefix().len() as int;
    assert(a.skip(4) =~= legacy_call_id(a).skip(front));
    assert(b.skip(4) =~= legacy_call_id(b).skip(front));
    assert forall|i: int| 0 <= i < 68 implies a[i] == b[i] by {
        if i >= 4 {
            assert(a[i] == a.skip(4)[i - 4]);
            assert(b[i] == b.skip(4)[i - 4]);
        }
    }
    assert(a =~= b);
}

/// The call of control `k` is the first with its identifier.
proof fn control_call_found(controls: Seq<EnvelopeModel>, ids: Seq<Seq<char>>, k: int, from: int)
    requires
        bounded_controls(controls, ids),
        are_settled(controls, ids),
        0 <= k < ids.len(),
        0 <= from <= 2 * k,
    ensures
        call_at(controls, legacy_call_id(ids[k]), from) == Some(2 * k),
    decreases 2 * k - from,
{
    let half = from / 2;
    assert(is_control_of(controls[2 * half], controls[2 * half + 1], ids[half]));
    if from < 2 * k {
        assert(ids[half] != ids[k]);
        if legacy_call_id(ids[half]) == legacy_call_id(ids[k]) {
            legacy_ids_differ(ids[half], ids[k]);
        }
        assert(control_pair(controls[2 * half].item, controls[2 * half + 1].item, ids[half])
            is Some);
        control_call_found(controls, ids, k, from + 1);
    }
}

proof fn controls_bytes_prefix(controls: Seq<EnvelopeModel>, n: int)
    requires
        0 <= n <= controls.len(),
    ensures
        controls_bytes(controls.take(n)) <= controls_bytes(controls),
        n < controls.len() ==> controls_bytes(controls.take(n + 1)) == controls_bytes(
            controls.take(n),
        ) + utf8_len(control_json(controls[n].item)),
    decreases controls.len() - n,
{
    if n < controls.len() {
        assert(controls.take(n + 1).drop_last() =~= controls.take(n));
        controls_bytes_prefix(controls, n + 1);
    } else {
        assert(controls.take(n) =~= controls);
    }
}

/// The controls of controls are those controls, one by one.
proof fn controls_taken_again(controls: Seq<EnvelopeModel>, ids: Seq<Seq<char>>, n: int)
    requires
        bounded_controls(controls, ids),
        are_settled(controls, ids),
        entries_read_back(controls, controls.len() as int),
        0 <= n <= ids.len(),
    ensures
        entry_controls(controls, 2 * n) == (ControlsModel {
            controls: controls.take(2 * n),
            seen: ids.take(n),
            bytes: controls_bytes(controls.take(2 * n)) as usize,
            stopped: false,
        }),
    decreases n,
{
    if n == 0 {
        assert(controls.take(0) =~= Seq::<EnvelopeModel>::empty());
        assert(ids.take(0) =~= Seq::<Seq<char>>::empty());
    } else {
        let k = n - 1;
        let id = ids[k];
        let call = controls[2 * k];
        let output = controls[2 * k + 1];
        controls_taken_again(controls, ids, k);
        let state = entry_controls(controls, 2 * k);
        assert(is_control_of(call, output, id));
        assert(control_pair(call.item, output.item, id) == Some((call, output)));
        assert(output_call_id_of(call.item) is None);
        assert(entry_controls(controls, 2 * k + 1) == state);
        control_call_found(controls, ids, k, 0);
        assert(entry_is_read(controls, 2 * k + 1));
        control_text_refers(id);
        assert(paired_artifact(controls, 2 * k + 1) == Some(id));
        assert(!state.seen.contains(id)) by {
            if state.seen.contains(id) {
                let j = choose|j: int| 0 <= j < state.seen.len() && state.seen[j] == id;
                assert(ids[j] == ids[k]);
            }
        }
        controls_bytes_prefix(controls, 2 * k);
        controls_bytes_prefix(controls, 2 * k + 1);
        controls_bytes_prefix(controls, 2 * k + 2);
        let after = entry_controls(controls, 2 * k + 2);
        assert(after == with_entry(controls, state, 2 * k + 1));
        assert(state.controls.push(call).push(output) =~= controls.take(2 * n));
        assert(state.seen.push(id) =~= ids.take(n));
    }
}

/// Compacting the controls that a compaction carries changes nothing more.
///
/// What is taken of the reader of JSON, the second compaction learns by reading the controls.
pub proof fn compaction_controls_are_stable(history: Seq<EnvelopeModel>)
    requires
        entries_read_back(
            compaction_controls(history),
            compaction_controls(history).len() as int,
        ),
    ensures
        compaction_controls(compaction_controls(history)) == compaction_controls(history),
{
    let ids = entry_controls_bounded(history, history.len() as int);
    let controls = compaction_controls(history);
    controls_taken_again(controls, ids, ids.len() as int);
    assert(controls.take(controls.len() as int) =~= controls);
}

proof fn candidate_controls_bounded(candidates: Seq<EnvelopeModel>, n: int)
    requires
        0 <= n,
    ensures
        bounded_controls(
            candidate_controls(candidates, n).controls,
            candidate_controls(candidates, n).seen,
        ),
        candidate_controls(candidates, n).bytes == controls_bytes(
            candidate_controls(candidates, n).controls,
        ),
    decreases n,
{
    if n > 0 {
        candidate_controls_bounded(candidates, n - 1);
        let state = candidate_controls(candidates, n - 1);
        let after = candidate_controls(candidates, n);
        if after.controls.len() > state.controls.len() {
            let call = candidates[2 * n - 2];
            let output = candidates[2 * n - 1];
            let id = envelope_artifact(output)->0;
            pair_is_control(call.item, output.item, id);
            let (new_call, new_output) = control_pair(call.item, output.item, id)->0;
            push_control(state.controls, state.seen, new_call, new_output, id);
        }
    }
}

proof fn staying_entries_stay(history: Seq<EnvelopeModel>, n: int)
    requires
        0 <= n <= history.len(),
    ensures
        forall|k: int|
            0 <= k < staying(history, n).len() ==> stays(history, #[trigger] staying(history, n)[k]),
    decreases n,
{
    if n > 0 {
        staying_entries_stay(history, n - 1);
        let before = staying(history, n - 1);
        let all = staying(history, n);
        assert forall|k: int| 0 <= k < all.len() implies stays(history, #[trigger] all[k]) by {
            if k < before.len() {
                assert(all[k] == before[k]);
            }
        }
    }
}

/// A merged history begins with bounded controls, none of an artifact twice, and holds behind
/// them no other marked control and no call that one answered.
pub proof fn merged_history_is_canonical(
    history: Seq<EnvelopeModel>,
    controls: Seq<EnvelopeModel>,
)
    ensures
        ({
            let candidates = compaction_controls(history) + controls;
            let state = candidate_controls(candidates, candidates.len() as int / 2);
            let rest = staying(history, history.len() as int);
            &&& merged(history, controls) == state.controls + rest
            &&& bounded_controls(state.controls, state.seen)
            &&& forall|k: int| 0 <= k < rest.len() ==> stays(history, #[trigger] rest[k])
        }),
{
    let candidates = compaction_controls(history) + controls;
    candidate_controls_bounded(candidates, candidates.len() as int / 2);
    staying_entries_stay(history, history.len() as int);
}

proof fn paired_artifacts_increase(history: Seq<EnvelopeModel>, n: int)
    ensures
        increasing(paired_artifacts(history, n)),
    decreases n,
{
    if n > 0 {
        paired_artifacts_increase(history, n - 1);
        if let Some(id) = paired_artifact(history, n - 1) {
            insert_ordered_keeps(paired_artifacts(history, n - 1), id);
        }
    }
}

proof fn increasing_distinct(list: Seq<Seq<char>>)
    requires
        increasing(list),
    ensures
        list.no_duplicates(),
{
    assert forall|i: int, j: int| 0 <= i < j < list.len() implies list[i] != list[j] by {
        less_differs(list[i], list[j]);
    }
}

proof fn filled_up_keeps(list: Seq<Seq<char>>, more: Seq<Seq<char>>)
    requires
        list.no_duplicates(),
        list.len() <= MAX_ARTIFACT_REFERENCE_SIDECAR_ENTRIES,
    ensures
        filled_up(list, more).no_duplicates(),
        filled_up(list, more).len() <= MAX_ARTIFACT_REFERENCE_SIDECAR_ENTRIES,
        list.len() <= filled_up(list, more).len(),
        filled_up(list, more).take(list.len() as int) == list,
    decreases more.len(),
{
    if more.len() == 0 {
        assert(list.take(list.len() as int) =~= list);
    } else {
        filled_up_keeps(list, more.drop_last());
        let before = filled_up(list, more.drop_last());
        let after = filled_up(list, more);
        assert(after.take(list.len() as int) =~= before.take(list.len() as int));
        assert forall|i: int, j: int| 0 <= i < j < after.len() implies after[i] != after[j] by {
            if j == before.len() {
                assert(before.contains(before[i]));
            }
        }
    }
}

/// The artifacts that a history refers to are bounded and each named once, and the ones of its
/// effective controls come first: an older reference never displaces them.
pub proof fn referenced_artifacts_are_bounded(history: Seq<EnvelopeModel>)
    ensures
        referenced_artifacts(history).len() <= MAX_ARTIFACT_REFERENCE_SIDECAR_ENTRIES,
        referenced_artifacts(history).no_duplicates(),
        ({
            let paired = first(
                paired_artifacts(history, history.len() as int),
                MAX_ARTIFACT_REFERENCE_SIDECAR_ENTRIES as int,
            );
            &&& paired.len() <= referenced_artifacts(history).len()
            &&& referenced_artifacts(history).take(paired.len() as int) == paired
            &&& increasing(paired)
        }),
{
    let all = paired_artifacts(history, history.len() as int);
    paired_artifacts_increase(history, history.len() as int);
    let paired = first(all, MAX_ARTIFACT_REFERENCE_SIDECAR_ENTRIES as int);
    assert(increasing(paired)) by {
        assert forall|i: int, j: int| 0 <= i < j < paired.len() implies text_less(
            #[trigger] paired[i],
            #[trigger] paired[j],
        ) by {
            assert(paired[i] == all[i] && paired[j] == all[j]);
        }
    }
    increasing_distinct(paired);
    filled_up_keeps(paired, sidecar_artifacts(history, history.len() as int));
}

/// Whether an entry is neither marked as store-backed nor remembers an artifact.
pub open spec fn is_unmarked(envelope: EnvelopeModel) -> bool {
    envelope.metadata matches Some(metadata) ==> !metadata.store_backed
        && metadata.references.len() == 0
}

/// A history in which nothing is marked and nothing is remembered refers to no artifact.
pub proof fn unmarked_history_refers_to_nothing(history: Seq<EnvelopeModel>)
    requires
        forall|k: int| 0 <= k < history.len() ==> is_unmarked(#[trigger] history[k]),
    ensures
        referenced_artifacts(history).len() == 0,
        compaction_controls(history).len() == 0,
{
    unmarked_prefix(history, history.len() as int);
    assert(paired_artifacts(history, history.len() as int) =~= Seq::<Seq<char>>::empty());
}

proof fn unmarked_prefix(history: Seq<EnvelopeModel>, n: int)
    requires
        0 <= n <= history.len(),
        forall|k: int| 0 <= k < history.len() ==> is_unmarked(#[trigger] history[k]),
    ensures
        paired_artifacts(history, n).len() == 0,
        sidecar_artifacts(history, n).len() == 0,
        entry_controls(history, n) == no_controls(),
    decreases n,
{
    if n > 0 {
        unmarked_prefix(history, n - 1);
        assert(is_unmarked(history[n - 1]));
    }
}

/// The control of an artifact is recoverable.
///
/// What is taken of the reader of JSON, a function that looks for the artifact learns by reading
/// the control.
pub proof fn control_is_recoverable(output: ResponseItemModel, id: Seq<char>)
    requires
        is_artifact_id(id),
        control_output(output, id) matches Some(control) && item_reads_back(control),
    ensures
        item_artifact(control_output(output, id)->0) == Some(id),
        envelope_artifact(
            EnvelopeModel {
                item: control_output(output, id)->0,
                metadata: Some(store_backed_metadata()),
            },
        ) == Some(id),
{
    control_text_refers(id);
}

proof fn control_members_are_own(id: Seq<char>)
    ensures
        keys_increase(control_members(id)),
        own_members(control_members(id)),
        text_member(control_members(id), "type"@) == Some("tool_output_artifact"@),
        text_member(control_members(id), "artifact_id"@) == Some(id),
{
    reveal_strlit("type");
    reveal_strlit("version");
    reveal_strlit("artifact_id");
    reveal_strlit("retrieval");
    assert("type"@.len() == 4 && "version"@.len() == 7);
    assert("artifact_id"@.len() == 11 && "retrieval"@.len() == 9);
    let a: Members = seq![];
    let b = with_member(a, "type"@, JsonModel::Text("tool_output_artifact"@));
    with_member_ordered(a, "type"@, JsonModel::Text("tool_output_artifact"@));
    let c = with_member(b, "version"@, JsonModel::Unsigned(1));
    with_member_ordered(b, "version"@, JsonModel::Unsigned(1));
    let d = with_member(c, "artifact_id"@, JsonModel::Text(id));
    with_member_ordered(c, "artifact_id"@, JsonModel::Text(id));
    with_member_ordered(
        d,
        "retrieval"@,
        JsonModel::Text(
            "Use read_tool_output with artifact_id and mode bytes, lines, or search; follow next_offset or next_byte to continue."@,
        ),
    );
}

proof fn control_text_refers(id: Seq<char>)
    requires
        is_artifact_id(id),
        reads_back(object_text(control_members(id))),
    ensures
        control_artifact(object_text(control_members(id))) == Some(id),
{
    control_members_are_own(id);
    reread_keeps(control_members(id), "type"@);
    reread_keeps(control_members(id), "artifact_id"@);
}

proof fn item_artifacts_valid(items: Seq<ItemModel>)
    ensures
        increasing(item_artifacts(items)),
        forall|id: Seq<char>| #[trigger]
            item_artifacts(items).contains(id) ==> is_artifact_id(id),
    decreases items.len(),
{
    if items.len() > 0 {
        item_artifacts_valid(items.drop_last());
        if let ItemModel::InputText { text } = items.last() {
            if let Some(id) = control_artifact(text) {
                insert_ordered_keeps(item_artifacts(items.drop_last()), id);
            }
        }
    }
}

proof fn envelope_artifact_valid(envelope: EnvelopeModel)
    ensures
        envelope_artifact(envelope) matches Some(id) ==> is_artifact_id(id),
{
    if let Some(output) = output_of(envelope.item) {
        if let BodyModel::ContentItems(items) = output.body {
            item_artifacts_valid(items);
            if item_artifacts(items).len() == 1 {
                assert(item_artifacts(items).contains(item_artifacts(items)[0]));
            }
        }
    }
}

proof fn candidate_ids_valid(candidates: Seq<EnvelopeModel>, n: int)
    ensures
        forall|k: int|
            0 <= k < candidate_controls(candidates, n).seen.len() ==> is_artifact_id(
                #[trigger] candidate_controls(candidates, n).seen[k],
            ),
    decreases n,
{
    if n > 0 {
        candidate_ids_valid(candidates, n - 1);
        envelope_artifact_valid(candidates[2 * n - 1]);
        let before = candidate_controls(candidates, n - 1).seen;
        let after = candidate_controls(candidates, n).seen;
        assert forall|k: int| 0 <= k < after.len() implies is_artifact_id(#[trigger] after[k]) by {
            if k < before.len() {
                assert(after[k] == before[k]);
            }
        }
    }
}

proof fn call_is_found(history: Seq<EnvelopeModel>, id: Seq<char>, from: int, at: int)
    requires
        0 <= from <= at < history.len(),
        tool_call_id(history[at].item) == Some(id),
    ensures
        call_at(history, id, from) is Some,
    decreases at - from,
{
    if from < at {
        call_is_found(history, id, from + 1, at);
    }
}

proof fn paired_is_listed(history: Seq<EnvelopeModel>, n: int, at: int)
    requires
        0 <= at < n,
        paired_artifact(history, at) is Some,
    ensures
        paired_artifacts(history, n).contains(paired_artifact(history, at)->0),
    decreases n,
{
    paired_artifacts_increase(history, n - 1);
    if let Some(id) = paired_artifact(history, n - 1) {
        insert_ordered_keeps(paired_artifacts(history, n - 1), id);
    }
    if at < n - 1 {
        paired_is_listed(history, n - 1, at);
    }
}

/// The artifacts of the controls of a merged history.
pub open spec fn merged_ids(
    history: Seq<EnvelopeModel>,
    controls: Seq<EnvelopeModel>,
) -> Seq<Seq<char>> {
    let candidates = compaction_controls(history) + controls;
    candidate_controls(candidates, candidates.len() as int / 2).seen
}

/// Behind the first `bound` entries nothing is paired, so there are no more artifacts than that.
proof fn few_artifacts(history: Seq<EnvelopeModel>, bound: int, n: int)
    requires
        0 <= bound,
        forall|i: int| bound <= i < history.len() ==> envelope_artifact(#[trigger] history[i])
            is None,
        n <= history.len(),
    ensures
        paired_artifacts(history, n).len() <= bound,
        paired_artifacts(history, n).len() <= n || n < 0,
    decreases n,
{
    if n > 0 {
        few_artifacts(history, bound, n - 1);
        paired_artifacts_increase(history, n - 1);
        if let Some(id) = paired_artifact(history, n - 1) {
            assert(n - 1 < bound);
            insert_grows(paired_artifacts(history, n - 1), id);
        }
    }
}

proof fn insert_grows(list: Seq<Seq<char>>, text: Seq<char>)
    ensures
        insert_ordered(list, text).len() <= list.len() + 1,
    decreases list.len(),
{
    if list.len() > 0 {
        insert_grows(list.drop_first(), text);
    }
}

/// No artifact is lost by merging: a merged history still refers to the artifact of each of its
/// controls, so that a later resume or fork finds it.
///
/// What is taken of the reader of JSON, a function that looks for the artifacts learns by reading
/// the controls.
pub proof fn merged_controls_stay_referenced(
    history: Seq<EnvelopeModel>,
    controls: Seq<EnvelopeModel>,
    k: int,
)
    requires
        0 <= k < merged_ids(history, controls).len(),
        pairs_read_back(merged(history, controls), merged(history, controls).len() as int),
    ensures
        referenced_artifacts(merged(history, controls)).contains(merged_ids(history, controls)[k]),
{
    let candidates = compaction_controls(history) + controls;
    let state = candidate_controls(candidates, candidates.len() as int / 2);
    let all = merged(history, controls);
    let rest = staying(history, history.len() as int);
    let id = state.seen[k];
    merged_history_is_canonical(history, controls);
    candidate_ids_valid(candidates, candidates.len() as int / 2);
    assert(is_control_of(state.controls[2 * k], state.controls[2 * k + 1], id));
    assert(all[2 * k] == state.controls[2 * k]);
    assert(all[2 * k + 1] == state.controls[2 * k + 1]);
    call_is_found(all, legacy_call_id(id), 0, 2 * k);
    assert(is_paired(all, 2 * k + 1));
    control_text_refers(id);
    assert(paired_artifact(all, 2 * k + 1) == Some(id));
    paired_is_listed(all, all.len() as int, 2 * k + 1);
    let bound = state.controls.len() as int;
    assert forall|i: int| bound <= i < all.len() implies envelope_artifact(#[trigger] all[i])
        is None by {
        assert(all[i] == rest[i - bound]);
        assert(stays(history, rest[i - bound]));
    }
    few_artifacts(all, bound, all.len() as int);
    let paired = paired_artifacts(all, all.len() as int);
    paired_artifacts_increase(all, all.len() as int);
    increasing_distinct(paired);
    assert(first(paired, MAX_ARTIFACT_REFERENCE_SIDECAR_ENTRIES as int) =~= paired);
    filled_up_keeps(paired, sidecar_artifacts(all, all.len() as int));
    let at = choose|at: int| 0 <= at < paired.len() && paired[at] == id;
    let listed = referenced_artifacts(all);
    assert(listed.take(paired.len() as int)[at] == id);
    assert(listed[at] == id);
}

} // verus!
