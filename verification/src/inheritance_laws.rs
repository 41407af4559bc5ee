//! What a history keeps of its entries and of its artifacts when it is compacted or merged.

use vstd::prelude::*;

use crate::artifact_control_ids::output_call_id_of;
use crate::artifact_id::is_artifact_id;
use crate::history::{first, EnvelopeModel};
use crate::inheritance::{
    call_at, call_is_paired, candidate_controls, compaction_controls, control_pair, entry_controls,
    envelope_artifact, filled_up, increasing, insert_ordered_keeps, item_artifacts, merged,
    merged_history_is_canonical, merged_ids, no_controls, output_artifacts, output_of, pair_bytes,
    paired_artifact, paired_artifacts, referenced_artifacts, sidecar_artifacts, staying, stays,
    tool_call_id, with_references, with_sidecar,
};
use crate::protocol::{BodyModel, ItemModel, PayloadModel, ResponseItemModel};
use crate::read_tool_output::control_artifact;

verus! {

proof fn staying_is_filtered(
    history: Seq<EnvelopeModel>,
    n: int,
    keep: spec_fn(EnvelopeModel) -> bool,
)
    requires
        0 <= n <= history.len(),
        forall|e: EnvelopeModel| #[trigger] keep(e) == stays(history, e),
    ensures
        staying(history, n) == history.take(n).filter(keep),
    decreases n,
{
    reveal(Seq::filter);
    if n > 0 {
        staying_is_filtered(history, n - 1, keep);
        assert(history.take(n).drop_last() =~= history.take(n - 1));
        assert(history.take(n).last() == history[n - 1]);
        assert(keep(history[n - 1]) == stays(history, history[n - 1]));
    } else {
        assert(history.take(0) =~= Seq::<EnvelopeModel>::empty());
    }
}

/// Behind its controls a merged history holds, in order and unchanged, every entry that is neither
/// a marked control of one artifact nor a call that such a control answers, and nothing else.
pub proof fn merging_keeps_the_rest(history: Seq<EnvelopeModel>, controls: Seq<EnvelopeModel>)
    ensures
        merged(history, controls).len() >= 2 * merged_ids(history, controls).len(),
        merged(history, controls).skip(2 * merged_ids(history, controls).len() as int)
            == history.filter(
            |e: EnvelopeModel|
                envelope_artifact(e) is None && !(exists|i: int|
                    0 <= i < history.len() && envelope_artifact(#[trigger] history[i]) is Some
                        && output_call_id_of(history[i].item) is Some && tool_call_id(e.item)
                        == output_call_id_of(history[i].item)),
        ),
{
    let keep = |e: EnvelopeModel|
        envelope_artifact(e) is None && !(exists|i: int|
            0 <= i < history.len() && envelope_artifact(#[trigger] history[i]) is Some
                && output_call_id_of(history[i].item) is Some && tool_call_id(e.item)
                == output_call_id_of(history[i].item));
    assert forall|e: EnvelopeModel| #[trigger] keep(e) == stays(history, e) by {
        if envelope_artifact(e) is None {
            match tool_call_id(e.item) {
                Some(id) => {
                    assert((exists|i: int|
                        0 <= i < history.len() && envelope_artifact(#[trigger] history[i]) is Some
                            && output_call_id_of(history[i].item) is Some && tool_call_id(e.item)
                            == output_call_id_of(history[i].item))
                        == call_is_paired(history, id));
                },
                None => {},
            }
        }
    }
    staying_is_filtered(history, history.len() as int, keep);
    assert(history.take(history.len() as int) =~= history);
    merged_history_is_canonical(history, controls);
    let candidates = compaction_controls(history) + controls;
    let state = candidate_controls(candidates, candidates.len() as int / 2);
    assert(merged(history, controls).skip(2 * state.seen.len() as int) =~= staying(
        history,
        history.len() as int,
    ));
}

proof fn nothing_to_take_over(history: Seq<EnvelopeModel>, n: int)
    requires
        0 <= n <= history.len(),
        forall|i: int| 0 <= i < history.len() ==> envelope_artifact(#[trigger] history[i]) is None,
    ensures
        entry_controls(history, n) == no_controls(),
    decreases n,
{
    if n > 0 {
        nothing_to_take_over(history, n - 1);
        assert(envelope_artifact(history[n - 1]) is None);
    }
}

proof fn all_stay(history: Seq<EnvelopeModel>, n: int)
    requires
        0 <= n <= history.len(),
        forall|i: int| 0 <= i < history.len() ==> envelope_artifact(#[trigger] history[i]) is None,
    ensures
        staying(history, n) == history.take(n),
    decreases n,
{
    if n > 0 {
        all_stay(history, n - 1);
        assert(envelope_artifact(history[n - 1]) is None);
        assert(stays(history, history[n - 1]));
        assert(history.take(n) =~= history.take(n - 1).push(history[n - 1]));
    } else {
        assert(history.take(0) =~= Seq::<EnvelopeModel>::empty());
    }
}

/// A history without marked controls, merged with no controls, is returned as it is.
pub proof fn merging_nothing_changes_nothing(history: Seq<EnvelopeModel>)
    requires
        forall|i: int| 0 <= i < history.len() ==> envelope_artifact(#[trigger] history[i]) is None,
    ensures
        merged(history, seq![]) == history,
        compaction_controls(history).len() == 0,
{
    nothing_to_take_over(history, history.len() as int);
    all_stay(history, history.len() as int);
    let none: Seq<EnvelopeModel> = seq![];
    assert(compaction_controls(history) + none =~= none);
    assert(history.take(history.len() as int) =~= history);
    assert(merged(history, none) =~= history);
}

/// A call is a function call, a custom call or a shell call with an identifier; nothing else has
/// one that an output answers.
pub proof fn calls_have_identifiers(item: ResponseItemModel)
    ensures
        (match item {
            ResponseItemModel::FunctionCall { call_id, .. } => tool_call_id(item) == Some(call_id),
            ResponseItemModel::CustomToolCall { call_id, .. } => tool_call_id(item) == Some(
                call_id,
            ),
            ResponseItemModel::LocalShellCall { call_id, .. } => tool_call_id(item) == call_id,
            _ => tool_call_id(item) is None,
        }),
{
}

proof fn artifacts_of_items(items: Seq<ItemModel>)
    ensures
        increasing(item_artifacts(items)),
        forall|id: Seq<char>| #[trigger]
            item_artifacts(items).contains(id) <==> exists|i: int|
                0 <= i < items.len() && (match #[trigger] items[i] {
                    ItemModel::InputText { text } => control_artifact(text)
                        == Some(id),
                    _ => false,
                }),
    decreases items.len(),
{
    if items.len() > 0 {
        let front = items.drop_last();
        artifacts_of_items(front);
        match items.last() {
            ItemModel::InputText { text } => match control_artifact(text) {
                Some(id) => insert_ordered_keeps(item_artifacts(front), id),
                None => {},
            },
            _ => {},
        }
        assert forall|id: Seq<char>| #[trigger]
            item_artifacts(items).contains(id) <==> exists|i: int|
                0 <= i < items.len() && (match #[trigger] items[i] {
                    ItemModel::InputText { text } => control_artifact(text)
                        == Some(id),
                    _ => false,
                }) by {
            if item_artifacts(items).contains(id) {
                if item_artifacts(front).contains(id) {
                    let i = choose|i: int|
                        0 <= i < front.len() && (match #[trigger] front[i] {
                            ItemModel::InputText { text } => control_artifact(
                                text,
                            ) == Some(id),
                            _ => false,
                        });
                    assert(items[i] == front[i]);
                } else {
                    assert(items[items.len() - 1] == items.last());
                }
            }
            if exists|i: int|
                0 <= i < items.len() && (match #[trigger] items[i] {
                    ItemModel::InputText { text } => control_artifact(text)
                        == Some(id),
                    _ => false,
                }) {
                let i = choose|i: int|
                    0 <= i < items.len() && (match #[trigger] items[i] {
                        ItemModel::InputText { text } => control_artifact(text)
                            == Some(id),
                        _ => false,
                    });
                if i < front.len() {
                    assert(front[i] == items[i]);
                    assert(item_artifacts(front).contains(id));
                }
            }
        }
    }
}

/// The artifacts of a list of items are exactly those that one of its texts is a control of, each
/// once; an output of one text has that of its text. The one artifact of an entry is there exactly
/// where the entry is marked as store-backed and its output has one artifact and no other.
pub proof fn artifacts_are_those_of_the_texts(
    items: Seq<ItemModel>,
    text: Seq<char>,
    success: Option<bool>,
    envelope: EnvelopeModel,
    id: Seq<char>,
)
    ensures
        item_artifacts(items).contains(id) <==> exists|i: int|
            0 <= i < items.len() && (match #[trigger] items[i] {
                ItemModel::InputText { text } => control_artifact(text) == Some(
                    id,
                ),
                _ => false,
            }),
        increasing(item_artifacts(items)),
        output_artifacts(PayloadModel { body: BodyModel::ContentItems(items), success })
            == item_artifacts(items),
        output_artifacts(PayloadModel { body: BodyModel::Text(text), success }) == (
        match control_artifact(text) {
            Some(id) => seq![id],
            None => seq![],
        }),
        envelope_artifact(envelope) == Some(id) <==> (match envelope.metadata {
            Some(metadata) => metadata.store_backed,
            None => false,
        }) && (match envelope.item {
            ResponseItemModel::FunctionCallOutput { output, .. } => output_artifacts(output)
                == seq![id],
            ResponseItemModel::CustomToolCallOutput { output, .. } => output_artifacts(output)
                == seq![id],
            _ => false,
        }),
{
    artifacts_of_items(items);
    match output_of(envelope.item) {
        Some(output) => {
            if output_artifacts(output).len() == 1 {
                assert(output_artifacts(output) =~= seq![output_artifacts(output)[0]]);
                assert(seq![id][0] == id);
            }
        },
        None => {},
    }
}

proof fn call_found(history: Seq<EnvelopeModel>, id: Seq<char>, from: int)
    requires
        0 <= from,
    ensures
        (match call_at(history, id, from) {
            Some(at) => from <= at < history.len() && tool_call_id(history[at].item) == Some(id) && (
            forall|j: int| from <= j < at ==> tool_call_id((#[trigger] history[j]).item) != Some(id)),
            None => forall|j: int|
                from <= j < history.len() ==> tool_call_id((#[trigger] history[j]).item) != Some(id),
        }),
    decreases history.len() - from,
{
    if from < history.len() && tool_call_id(history[from].item) != Some(id) {
        call_found(history, id, from + 1);
    }
}

/// The call of an output is the first entry that makes it; where there is none, none is found. An
/// entry names an artifact exactly where it is a marked output of one artifact whose call is there.
pub proof fn outputs_are_paired_with_their_calls(
    history: Seq<EnvelopeModel>,
    call: Seq<char>,
    i: int,
)
    requires
        0 <= i < history.len(),
    ensures
        (match call_at(history, call, 0) {
            Some(at) => 0 <= at < history.len() && tool_call_id(history[at].item) == Some(call) && (
            forall|j: int| 0 <= j < at ==> tool_call_id((#[trigger] history[j]).item) != Some(call)),
            None => forall|j: int|
                0 <= j < history.len() ==> tool_call_id((#[trigger] history[j]).item) != Some(call),
        }),
        paired_artifact(history, i) == (if output_call_id_of(history[i].item) is Some && (exists|
            j: int,
        |
            0 <= j < history.len() && tool_call_id((#[trigger] history[j]).item)
                == output_call_id_of(history[i].item)) {
            envelope_artifact(history[i])
        } else {
            None
        }),
{
    call_found(history, call, 0);
    match output_call_id_of(history[i].item) {
        Some(own) => {
            call_found(history, own, 0);
            match call_at(history, own, 0) {
                Some(at) => {
                    assert(tool_call_id(history[at].item) == output_call_id_of(history[i].item));
                },
                None => {},
            }
        },
        None => {},
    }
}

proof fn references_are_added(list: Seq<Seq<char>>, references: Seq<Seq<char>>)
    requires
        increasing(list),
    ensures
        increasing(with_references(list, references)),
        forall|id: Seq<char>| #[trigger]
            with_references(list, references).contains(id) <==> (list.contains(id) || (
            is_artifact_id(id) && references.contains(id))),
    decreases references.len(),
{
    if references.len() > 0 {
        let front = references.drop_last();
        references_are_added(list, front);
        let before = with_references(list, front);
        if is_artifact_id(references.last()) {
            insert_ordered_keeps(before, references.last());
        }
        assert forall|id: Seq<char>|
            references.contains(id) <==> (front.contains(id) || id == references.last()) by {
            if references.contains(id) {
                let k = references.index_of(id);
                assert(references[k] == id);
                if k < front.len() {
                    assert(front[k] == id);
                }
            }
            if front.contains(id) {
                let k = front.index_of(id);
                assert(references[k] == id);
            }
            if id == references.last() {
                assert(references[references.len() - 1] == id);
            }
        }
        assert forall|id: Seq<char>| #[trigger]
            with_references(list, references).contains(id) <==> (list.contains(id) || (
            is_artifact_id(id) && references.contains(id))) by {
            assert(before.contains(id) <==> (list.contains(id) || (is_artifact_id(id)
                && front.contains(id))));
            assert(references.contains(id) <==> (front.contains(id) || id == references.last()));
        }
    }
}

proof fn remembered_are_listed(history: Seq<EnvelopeModel>, n: int)
    requires
        0 <= n <= history.len(),
    ensures
        increasing(sidecar_artifacts(history, n)),
        forall|id: Seq<char>| #[trigger]
            sidecar_artifacts(history, n).contains(id) <==> is_artifact_id(id) && exists|i: int|
                0 <= i < n && (match (#[trigger] history[i]).metadata {
                    Some(metadata) => metadata.references.contains(id),
                    None => false,
                }),
    decreases n,
{
    if n > 0 {
        remembered_are_listed(history, n - 1);
        let before = sidecar_artifacts(history, n - 1);
        match history[n - 1].metadata {
            Some(metadata) => references_are_added(before, metadata.references),
            None => {},
        }
        assert forall|id: Seq<char>| #[trigger]
            sidecar_artifacts(history, n).contains(id) <==> is_artifact_id(id) && exists|i: int|
                0 <= i < n && (match (#[trigger] history[i]).metadata {
                    Some(metadata) => metadata.references.contains(id),
                    None => false,
                }) by {
            assert(before.contains(id) <==> is_artifact_id(id) && exists|i: int|
                0 <= i < n - 1 && (match (#[trigger] history[i]).metadata {
                    Some(metadata) => metadata.references.contains(id),
                    None => false,
                }));
        }
    }
}

proof fn paired_are_listed(history: Seq<EnvelopeModel>, n: int)
    requires
        0 <= n <= history.len(),
    ensures
        increasing(paired_artifacts(history, n)),
        forall|id: Seq<char>| #[trigger]
            paired_artifacts(history, n).contains(id) <==> exists|i: int|
                0 <= i < n && #[trigger] paired_artifact(history, i) == Some(id),
    decreases n,
{
    if n > 0 {
        paired_are_listed(history, n - 1);
        let before = paired_artifacts(history, n - 1);
        match paired_artifact(history, n - 1) {
            Some(id) => insert_ordered_keeps(before, id),
            None => {},
        }
        assert forall|id: Seq<char>| #[trigger]
            paired_artifacts(history, n).contains(id) <==> exists|i: int|
                0 <= i < n && #[trigger] paired_artifact(history, i) == Some(id) by {
            assert(before.contains(id) <==> exists|i: int|
                0 <= i < n - 1 && #[trigger] paired_artifact(history, i) == Some(id));
        }
    }
}

proof fn filled_up_holds(list: Seq<Seq<char>>, more: Seq<Seq<char>>)
    ensures
        forall|id: Seq<char>| #[trigger]
            filled_up(list, more).contains(id) ==> list.contains(id) || more.contains(id),
        forall|id: Seq<char>| list.contains(id) ==> #[trigger] filled_up(list, more).contains(id),
        filled_up(list, more).len() < 256 ==> forall|id: Seq<char>|
            more.contains(id) ==> #[trigger] filled_up(list, more).contains(id),
        filled_up(list, more.drop_last()).len() <= filled_up(list, more).len() || more.len() == 0,
    decreases more.len(),
{
    if more.len() > 0 {
        let front = more.drop_last();
        filled_up_holds(list, front);
        let before = filled_up(list, front);
        let now = filled_up(list, more);
        assert forall|id: Seq<char>| before.contains(id) implies #[trigger] now.contains(id) by {
            let k = before.index_of(id);
            assert(now[k] == id);
        }
        assert forall|id: Seq<char>| #[trigger] now.contains(id) implies list.contains(id)
            || more.contains(id) by {
            let k = now.index_of(id);
            assert(now[k] == id);
            if k < before.len() {
                assert(before[k] == id);
                assert(before.contains(id));
                if front.contains(id) {
                    let j = front.index_of(id);
                    assert(more[j] == id);
                }
            } else {
                assert(more[more.len() - 1] == id);
            }
        }
        if now.len() < 256 {
            assert forall|id: Seq<char>| more.contains(id) implies #[trigger] now.contains(id) by {
                let k = more.index_of(id);
                assert(more[k] == id);
                if k < front.len() {
                    assert(front[k] == id);
                    assert(front.contains(id));
                    assert(before.contains(id));
                } else if !before.contains(id) {
                    assert(now.last() == id);
                    assert(now[now.len() - 1] == id);
                }
            }
        }
    }
}

/// A history refers to nothing but the artifacts that its marked outputs name and the valid ones
/// that its entries remember; and to all of these, where they are fewer than two hundred and
/// fifty-six.
pub proof fn named_and_remembered_artifacts_are_referenced(
    history: Seq<EnvelopeModel>,
    id: Seq<char>,
)
    ensures
        ({
            let named = exists|i: int|
                0 <= i < history.len() && #[trigger] paired_artifact(history, i) == Some(id);
            let remembered = is_artifact_id(id) && exists|i: int|
                0 <= i < history.len() && (match (#[trigger] history[i]).metadata {
                    Some(metadata) => metadata.references.contains(id),
                    None => false,
                });
            &&& referenced_artifacts(history).contains(id) ==> named || remembered
            &&& referenced_artifacts(history).len() < 256 && (named || remembered)
                ==> referenced_artifacts(history).contains(id)
        }),
{
    let n = history.len() as int;
    paired_are_listed(history, n);
    remembered_are_listed(history, n);
    let paired = paired_artifacts(history, n);
    let front = first(paired, 256);
    filled_up_holds(front, sidecar_artifacts(history, n));
    crate::inheritance::referenced_artifacts_are_bounded(history);
    assert(referenced_artifacts(history) == filled_up(front, sidecar_artifacts(history, n)));
    if front.contains(id) {
        let k = front.index_of(id);
        assert(paired[k] == id);
        assert(paired.contains(id));
    }
    if referenced_artifacts(history).len() < 256 {
        assert(front == paired);
    }
}

/// Attaching references changes no entry but the last, and of it nothing but the references, which
/// are the first two hundred and fifty-six; an empty history gets one entry to carry them.
pub proof fn references_go_to_the_last_entry(history: Seq<EnvelopeModel>, ids: Seq<Seq<char>>)
    ensures
        ids.len() == 0 ==> with_sidecar(history, ids) == history,
        ids.len() > 0 ==> ({
            let now = with_sidecar(history, ids);
            let last = now.last();
            &&& now.len() == (if history.len() == 0 { 1 } else { history.len() })
            &&& forall|i: int| 0 <= i < history.len() - 1 ==> #[trigger] now[i] == history[i]
            &&& last.item == (if history.len() == 0 {
                ResponseItemModel::Other
            } else {
                history.last().item
            })
            &&& last.metadata matches Some(metadata) && metadata.references == (if ids.len()
                <= 256 {
                ids
            } else {
                ids.take(256)
            }) && (if history.len() > 0 && history.last().metadata is Some {
                let earlier = history.last().metadata->0;
                metadata.client_authored == earlier.client_authored && metadata.store_backed
                    == earlier.store_backed && metadata.repair == earlier.repair
            } else {
                !metadata.client_authored && !metadata.store_backed && metadata.repair is None
            })
        }),
{
}

proof fn taken_over(history: Seq<EnvelopeModel>, n: int, i: int)
    requires
        0 <= i < n <= history.len(),
    ensures
        ({
            let state = entry_controls(history, n);
            !state.stopped && state.controls.len() < 64 ==> (paired_artifact(history, i) matches Some(
                id,
            ) ==> state.seen.contains(id))
        }),
        entry_controls(history, n - 1).stopped ==> entry_controls(history, n).stopped,
        entry_controls(history, n - 1).controls.len() <= entry_controls(history, n).controls.len(),
    decreases n,
{
    let before = entry_controls(history, n - 1);
    let state = entry_controls(history, n);
    if i < n - 1 {
        taken_over(history, n - 1, i);
    }
    match paired_artifact(history, n - 1) {
        Some(id) => {
            if !before.stopped && before.controls.len() / 2 < 32 && !before.seen.contains(id) {
                assert(before.seen.push(id)[before.seen.len() as int] == id);
                assert(before.seen.push(id).contains(id));
            }
        },
        None => {},
    }
    match paired_artifact(history, i) {
        Some(id) => {
            if before.seen.contains(id) {
                let k = before.seen.index_of(id);
                assert(state.seen[k] == id);
            }
        },
        None => {},
    }
}

proof fn seen_has_control(history: Seq<EnvelopeModel>, n: int, id: Seq<char>)
    requires
        0 <= n <= history.len(),
        entry_controls(history, n).seen.contains(id),
        !entry_controls(history, n).stopped,
    ensures
        exists|i: int|
            #![trigger paired_artifact(history, i)]
            0 <= i < n && paired_artifact(history, i) == Some(id) && ({
                let call = history[call_at(
                    history,
                    output_call_id_of(history[i].item)->0,
                    0,
                )->0];
                control_pair(call.item, history[i].item, id) matches Some((a, b))
                    ==> exists|k: int|
                    0 <= k < entry_controls(history, n).controls.len() / 2
                        && #[trigger] entry_controls(history, n).controls[2 * k] == a
                        && entry_controls(history, n).controls[2 * k + 1] == b
            }),
        entry_controls(history, n).controls.len() % 2 == 0,
    decreases n,
{
    if n > 0 {
        let before = entry_controls(history, n - 1);
        let state = entry_controls(history, n);
        even_controls(history, n - 1);
        even_controls(history, n);
        if before.seen.contains(id) && !before.stopped {
            seen_has_control(history, n - 1, id);
            let i = choose|i: int|
                #![trigger paired_artifact(history, i)]
                0 <= i < n - 1 && paired_artifact(history, i) == Some(id) && ({
                    let call = history[call_at(
                        history,
                        output_call_id_of(history[i].item)->0,
                        0,
                    )->0];
                    control_pair(call.item, history[i].item, id) matches Some((a, b))
                        ==> exists|k: int|
                        0 <= k < before.controls.len() / 2 && #[trigger] before.controls[2 * k] == a
                            && before.controls[2 * k + 1] == b
                });
            assert(paired_artifact(history, i) == Some(id));
            let call = history[call_at(history, output_call_id_of(history[i].item)->0, 0)->0];
            match control_pair(call.item, history[i].item, id) {
                Some((a, b)) => {
                    let k = choose|k: int|
                        0 <= k < before.controls.len() / 2 && #[trigger] before.controls[2 * k] == a
                            && before.controls[2 * k + 1] == b;
                    assert(state.controls[2 * k] == a && state.controls[2 * k + 1] == b);
                },
                None => {},
            }
        } else {
            assert(paired_artifact(history, n - 1) == Some(id)) by {
                let k = state.seen.index_of(id);
                assert(state.seen[k] == id);
                if k < before.seen.len() {
                    assert(before.seen[k] == id);
                }
            }
            let call = history[call_at(history, output_call_id_of(history[n - 1].item)->0, 0)->0];
            match control_pair(call.item, history[n - 1].item, id) {
                Some((a, b)) => {
                    let k = before.controls.len() as int / 2;
                    assert(state.controls[2 * k] == a && state.controls[2 * k + 1] == b);
                },
                None => {},
            }
        }
    }
}

proof fn even_controls(history: Seq<EnvelopeModel>, n: int)
    ensures
        entry_controls(history, n).controls.len() % 2 == 0,
    decreases n,
{
    if n > 0 {
        even_controls(history, n - 1);
    }
}

/// Every artifact that a marked output of a history names, whose call is there too, is carried
/// through a compaction, as long as there are fewer than thirty-two and the sixteen KiB suffice:
/// the two items of its control stand behind each other among the controls, made of the first
/// output that names it and the call of that output.
pub proof fn every_named_artifact_is_carried(history: Seq<EnvelopeModel>, id: Seq<char>)
    requires
        exists|i: int| 0 <= i < history.len() && #[trigger] paired_artifact(history, i) == Some(id),
        !entry_controls(history, history.len() as int).stopped,
        compaction_controls(history).len() < 64,
    ensures
        exists|i: int|
            #![trigger paired_artifact(history, i)]
            0 <= i < history.len() && paired_artifact(history, i) == Some(id) && ({
                let call = history[call_at(
                    history,
                    output_call_id_of(history[i].item)->0,
                    0,
                )->0];
                control_pair(call.item, history[i].item, id) matches Some((a, b))
                    ==> exists|k: int|
                    0 <= k < compaction_controls(history).len() / 2
                        && #[trigger] compaction_controls(history)[2 * k] == a
                        && compaction_controls(history)[2 * k + 1] == b
            }),
{
    let n = history.len() as int;
    let i = choose|i: int| 0 <= i < n && #[trigger] paired_artifact(history, i) == Some(id);
    taken_over(history, n, i);
    seen_has_control(history, n, id);
}

proof fn stopped_at(history: Seq<EnvelopeModel>, n: int)
    requires
        0 <= n <= history.len(),
    ensures
        entry_controls(history, n).stopped ==> exists|i: int|
            0 <= i < n && (match #[trigger] paired_artifact(history, i) {
                Some(id) => match control_pair(
                    history[call_at(history, output_call_id_of(history[i].item)->0, 0)->0].item,
                    history[i].item,
                    id,
                ) {
                    Some((a, b)) => entry_controls(history, n).bytes + pair_bytes(a, b)
                        > 16384,
                    None => false,
                },
                None => false,
            }),
    decreases n,
{
    if n > 0 {
        stopped_at(history, n - 1);
        let before = entry_controls(history, n - 1);
        if !before.stopped && entry_controls(history, n).stopped {
            assert(paired_artifact(history, n - 1) is Some);
        }
    }
}

/// No further control is taken over only where the next one would take the controls beyond sixteen
/// KiB.
pub proof fn controls_stop_at_the_limit(history: Seq<EnvelopeModel>)
    requires
        entry_controls(history, history.len() as int).stopped,
    ensures
        exists|i: int|
            0 <= i < history.len() && (match #[trigger] paired_artifact(history, i) {
                Some(id) => match control_pair(
                    history[call_at(history, output_call_id_of(history[i].item)->0, 0)->0].item,
                    history[i].item,
                    id,
                ) {
                    Some((a, b)) => entry_controls(history, history.len() as int).bytes + pair_bytes(a, b)
                        > 16384,
                    None => false,
                },
                None => false,
            }),
{
    stopped_at(history, history.len() as int);
}

} // verus!
