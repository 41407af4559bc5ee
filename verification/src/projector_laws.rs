//! What becomes of an output before the model sees it, and what is measured of it.

use vstd::prelude::*;

use crate::content_items::{body_json, fitted, visible_bytes};
use crate::exec_metadata::exec_members;
use crate::history::EnvelopeModel;
use crate::json::{
    json_members, json_string, keys_increase, member, object_text, text_member, with_member,
    with_member_ordered, JsonModel, Members,
};
use crate::numbers::decimal;
use crate::projector::{
    candidate, canonical_items, executed_envelope, first_step, has_media, indexed_texts,
    is_artifact_envelope, item_output, items_step, keeps_media, keeps_text, model_limit,
    output_bytes, projected_entry, stored_text_step, text_bytes, with_control, with_item_output,
    Candidate, MeasurementModel, ProjectionModel, StepModel,
};
use crate::protocol::{
    BodyModel, ItemModel, PayloadModel, ResponseItemModel, ToolOutputProvenance, TruncationPolicy,
};
use crate::text::{ascii_less, utf8_len};
use crate::tool_output::{compact_control, structured_error, with_replaced_text};

verus! {

/// An ordinary text within the budget stays as it is. A longer one is cut where nothing can be
/// stored, becomes a structured error where the budget has no room for a control, which takes two
/// hundred bytes, and else is stored whole, for a control within the budget and 32 KiB.
pub proof fn ordinary_text_is_kept_cut_or_stored(
    policy: TruncationPolicy,
    spilling: bool,
    text: Seq<char>,
    success: Option<bool>,
    family: Seq<char>,
)
    ensures
        ({
            let payload = PayloadModel { body: BodyModel::Text(text), success };
            let budget = policy.budget();
            let step = first_step(
                policy,
                spilling,
                payload,
                family,
                ToolOutputProvenance::Untrusted,
            );
            &&& utf8_len(text) <= budget ==> step == StepModel::Done(
                ProjectionModel {
                    payload,
                    measurement: MeasurementModel {
                        original_bytes: utf8_len(text),
                        inline_bytes: utf8_len(text),
                        outcome: "inline"@,
                        rule: "inline_v1"@,
                        tool_family: family,
                    },
                    store_backed: false,
                },
            )
            &&& utf8_len(text) > budget && !spilling ==> step == (StepModel::TruncateText {
                policy,
                rule: "artifact_backend_unavailable_v1"@,
            })
            &&& utf8_len(text) > budget && spilling && budget < 200 ==> step == StepModel::Done(
                ProjectionModel {
                    payload: PayloadModel {
                        body: BodyModel::Text(structured_error(budget as int)),
                        success: if budget == 0 {
                            Some(false)
                        } else {
                            success
                        },
                    },
                    measurement: MeasurementModel {
                        original_bytes: utf8_len(text),
                        inline_bytes: utf8_len(structured_error(budget as int)),
                        outcome: "fallback"@,
                        rule: "artifact_policy_too_small_v1"@,
                        tool_family: family,
                    },
                    store_backed: false,
                },
            )
            &&& utf8_len(text) > budget && spilling && budget >= 200 ==> step == (
            StepModel::StoreText {
                text,
                max_bytes: if budget < 32768 {
                    budget
                } else {
                    32768
                },
            })
        }),
{
}

/// A text that the harness knows to be a control stays as it is within the budget and eight KiB,
/// and is store-backed. A longer one loses its content, or all but its handle, and stays
/// store-backed; where not even that fits it becomes a structured error and is not.
pub proof fn known_control_is_kept_or_compacted(
    policy: TruncationPolicy,
    spilling: bool,
    text: Seq<char>,
    success: Option<bool>,
    family: Seq<char>,
    provenance: ToolOutputProvenance,
)
    requires
        provenance != ToolOutputProvenance::Untrusted,
    ensures
        ({
            let payload = PayloadModel { body: BodyModel::Text(text), success };
            let budget: int = if policy.budget() < 8192 {
                policy.budget() as int
            } else {
                8192
            };
            let step = first_step(policy, spilling, payload, family, provenance);
            let (shown, kept) = match compact_control(text, budget) {
                Some(control) => (control, true),
                None => (structured_error(budget), false),
            };
            &&& utf8_len(text) <= budget ==> step == StepModel::Done(
                ProjectionModel {
                    payload,
                    measurement: MeasurementModel {
                        original_bytes: utf8_len(text),
                        inline_bytes: utf8_len(text),
                        outcome: "inline"@,
                        rule: "managed_artifact_retrieval_v1"@,
                        tool_family: family,
                    },
                    store_backed: true,
                },
            )
            &&& utf8_len(text) > budget ==> step == StepModel::Done(
                ProjectionModel {
                    payload: PayloadModel { body: BodyModel::Text(shown), success },
                    measurement: MeasurementModel {
                        original_bytes: utf8_len(text),
                        inline_bytes: utf8_len(shown),
                        outcome: "fallback"@,
                        rule: "managed_artifact_policy_compact_v1"@,
                        tool_family: family,
                    },
                    store_backed: kept,
                },
            )
        }),
{
}

/// Whether an output of several items was settled with this payload, under these names.
pub open spec fn settled(
    step: StepModel,
    before: PayloadModel,
    after: PayloadModel,
    family: Seq<char>,
    rule: Seq<char>,
    outcome: Seq<char>,
) -> bool {
    step matches StepModel::Done(done) && {
        &&& done.payload == after
        &&& done.measurement.original_bytes == utf8_len(body_json(before.body))
        &&& done.measurement.inline_bytes == utf8_len(body_json(after.body))
        &&& done.measurement.outcome == outcome
        &&& done.measurement.rule == rule
        &&& done.measurement.tool_family == family
        &&& !done.store_backed
    }
}

/// Several items stay as they are where their texts and their cost are within the limits. Media
/// that cost too much are left out, whether or not a store is there. Texts that are too long are
/// cut where nothing can be stored, and stored where the budget has room for a control beside 128
/// bytes; the limit is the budget, and eight KiB at most.
pub proof fn items_are_kept_cut_or_stored(
    policy: TruncationPolicy,
    spilling: bool,
    items: Seq<ItemModel>,
    success: Option<bool>,
    family: Seq<char>,
)
    ensures
        ({
            let payload = PayloadModel { body: BodyModel::ContentItems(items), success };
            let budget = policy.budget();
            let limit: usize = if budget < 8192 {
                budget
            } else {
                8192
            };
            let bytes = utf8_len(body_json(payload.body));
            let long = text_bytes(items) > limit;
            let media = exists|i: int| 0 <= i < items.len() && !((#[trigger] items[i]) is InputText);
            let costly = bytes > 131072 || visible_bytes(payload.body) > limit || items.len() > 64;
            let small = budget < 200 && bytes <= limit && items.len() <= 64;
            let cut = fitted(payload, limit as int);
            let step = items_step(policy, spilling, payload, family);
            &&& !long && !media && (small || !costly) ==> settled(
                step,
                payload,
                payload,
                family,
                "inline_v1"@,
                "inline"@,
            )
            &&& !long && media && !costly ==> settled(
                step,
                payload,
                payload,
                family,
                "media_policy_preserved_v1"@,
                "inline"@,
            )
            &&& !long && media && costly ==> settled(
                step,
                payload,
                cut,
                family,
                "media_aggregate_bound_v1"@,
                "inline"@,
            )
            &&& long && !spilling ==> step == (StepModel::TruncateItems {
                policy: TruncationPolicy::Bytes(limit),
            })
            &&& !long && !media && !small && costly && !spilling ==> settled(
                step,
                payload,
                cut,
                family,
                "artifact_backend_unavailable_v1"@,
                "fallback"@,
            )
            &&& (long || (!media && !small && costly)) && spilling && budget < 328 ==> settled(
                step,
                payload,
                PayloadModel {
                    body: BodyModel::Text(structured_error(budget as int)),
                    success: if budget == 0 {
                        Some(false)
                    } else {
                        success
                    },
                },
                family,
                "artifact_policy_too_small_v1"@,
                "fallback"@,
            )
            &&& long && spilling && budget >= 328 ==> step == (StepModel::StoreItems {
                canonical: canonical_items(items),
                max_bytes: if budget - 128 < 32768 {
                    (budget - 128) as usize
                } else {
                    32768
                },
                model_limit: limit,
            })
            &&& !long && !media && !small && costly && spilling && budget >= 328 ==> settled(
                step,
                payload,
                cut,
                family,
                "model_aggregate_bound_v1"@,
                "fallback"@,
            )
            &&& first_step(policy, spilling, payload, family, ToolOutputProvenance::Untrusted)
                == step
            &&& first_step(
                policy,
                spilling,
                payload,
                family,
                ToolOutputProvenance::ManagedArtifactRetrieval,
            ) == step
            &&& media == has_media(items)
            &&& limit == model_limit(budget)
        }),
{
}

/// The bytes of text among items are the sum over the text items, up to the largest size.
pub proof fn text_bytes_add_up(a: Seq<ItemModel>, b: Seq<ItemModel>, text: Seq<char>, item: ItemModel)
    ensures
        text_bytes(seq![]) == 0,
        !(item is InputText) ==> text_bytes(seq![item]) == 0,
        utf8_len(text) <= usize::MAX ==> text_bytes(seq![ItemModel::InputText { text }])
            == utf8_len(text),
        text_bytes(a + b) == (if text_bytes(a) + text_bytes(b) > usize::MAX {
            usize::MAX as int
        } else {
            text_bytes(a) + text_bytes(b)
        }),
    decreases b.len(),
{
    let none: Seq<ItemModel> = seq![];
    let one = seq![ItemModel::InputText { text }];
    assert(seq![item].drop_last() =~= none);
    assert(seq![item].last() == item);
    assert(one.drop_last() =~= none);
    assert(one.last() == (ItemModel::InputText { text }));
    reveal_with_fuel(text_bytes, 2);
    if b.len() == 0 {
        assert(a + b =~= a);
    } else {
        text_bytes_add_up(a, b.drop_last(), text, item);
        assert((a + b).drop_last() =~= a + b.drop_last());
        assert((a + b).last() == b.last());
    }
}

/// What is stored for several items is an object of a type and a version of its own, and a list of
/// their texts, each with the position of its item.
pub proof fn stored_items_are_an_object(items: Seq<ItemModel>, text: Seq<char>, item: ItemModel)
    ensures
        canonical_items(items) == object_text(
            seq![
                ("items"@, JsonModel::Raw(seq!['['] + indexed_texts(items) + seq![']'])),
                ("type"@, JsonModel::Text("tool_output_text_items"@)),
                ("version"@, JsonModel::Unsigned(1)),
            ],
        ),
        indexed_texts(seq![]) == Seq::<char>::empty(),
        !(item is InputText) ==> indexed_texts(items.push(item)) == indexed_texts(items),
        ({
            let entry = "{\"index\":"@ + decimal(items.len()) + ",\"text\":"@ + json_string(text)
                + "}"@;
            let more = indexed_texts(items.push(ItemModel::InputText { text }));
            if indexed_texts(items).len() == 0 {
                more == entry
            } else {
                more == indexed_texts(items) + seq![','] + entry
            }
        }),
{
    reveal_strlit("items");
    reveal_strlit("type");
    reveal_strlit("version");
    let list = JsonModel::Raw(seq!['['] + indexed_texts(items) + seq![']']);
    let kind = JsonModel::Text("tool_output_text_items"@);
    let none: Members = seq![];
    ascii_less("items"@, "type"@, 0);
    ascii_less("items"@, "version"@, 0);
    ascii_less("type"@, "version"@, 0);
    crate::text::text_less_total("type"@, "version"@);
    crate::text::text_less_total("items"@, "type"@);
    assert("items"@.len() == 5 && "type"@.len() == 4 && "version"@.len() == 7);
    let one = with_member(none, "type"@, kind);
    assert(one =~= seq![("type"@, kind)]);
    let two = with_member(one, "version"@, JsonModel::Unsigned(1));
    assert(one.drop_first() =~= none);
    assert(with_member(none, "version"@, JsonModel::Unsigned(1)) =~= seq![
        ("version"@, JsonModel::Unsigned(1)),
    ]);
    assert(two =~= seq![("type"@, kind), ("version"@, JsonModel::Unsigned(1))]);
    assert(with_member(two, "items"@, list) =~= seq![
        ("items"@, list),
        ("type"@, kind),
        ("version"@, JsonModel::Unsigned(1)),
    ]);
    assert(items.push(item).drop_last() =~= items);
    assert(items.push(item).last() == item);
    let more = items.push(ItemModel::InputText { text });
    assert(more.drop_last() =~= items);
    assert(more.last() == (ItemModel::InputText { text }));
    let entry = "{\"index\":"@ + decimal(items.len()) + ",\"text\":"@ + json_string(text) + "}"@;
    let before = indexed_texts(items);
    if before.len() == 0 {
        assert(indexed_texts(more) =~= entry);
    } else {
        assert(indexed_texts(more) =~= before + seq![','] + entry);
    }
}

/// A control that the store gives gains the metadata of the command whose output it stands for,
/// under `execution`, where the text has a header and the result fits; all other members stay.
/// Where it does not fit the control stays as it was given. What is no control is not taken.
pub proof fn controls_gain_their_execution(
    envelope: Seq<char>,
    text: Seq<char>,
    wall_time: Option<Seq<char>>,
    max: int,
)
    requires
        json_members(envelope) matches Some(members) ==> keys_increase(members),
    ensures
        executed_envelope(None, text, wall_time, max) is None,
        executed_envelope(Some(envelope), text, wall_time, max) is Some <==> (json_members(
            envelope,
        ) matches Some(members) && member(members, "type"@) == Some(
            JsonModel::Text("tool_output_artifact"@),
        )),
        is_artifact_envelope(envelope) ==> ({
            let members = json_members(envelope)->0;
            let shown = executed_envelope(Some(envelope), text, wall_time, max)->0;
            match exec_members(text, wall_time) {
                None => shown == (if utf8_len(object_text(members)) <= max {
                    object_text(members)
                } else {
                    envelope
                }),
                Some(execution) => shown == envelope || exists|full: Members| #[trigger]
                    object_text(full) == shown && keys_increase(full) && utf8_len(shown) <= max
                        && member(full, "execution"@) == Some(
                        JsonModel::Raw(object_text(execution)),
                    ) && forall|key: Seq<char>|
                        key != "execution"@ ==> #[trigger] member(full, key) == member(
                            members,
                            key,
                        ),
            }
        }),
        is_artifact_envelope(envelope) && exec_members(text, wall_time) is Some && utf8_len(
            object_text(
                with_member(
                    json_members(envelope)->0,
                    "execution"@,
                    JsonModel::Raw(object_text(exec_members(text, wall_time)->0)),
                ),
            ),
        ) <= max ==> executed_envelope(Some(envelope), text, wall_time, max) == Some(
            object_text(
                with_member(
                    json_members(envelope)->0,
                    "execution"@,
                    JsonModel::Raw(object_text(exec_members(text, wall_time)->0)),
                ),
            ),
        ),
{
    if is_artifact_envelope(envelope) {
        let members = json_members(envelope)->0;
        match exec_members(text, wall_time) {
            Some(execution) => {
                let value = JsonModel::Raw(object_text(execution));
                with_member_ordered(members, "execution"@, value);
                let full = with_member(members, "execution"@, value);
                assert(object_text(full) == object_text(full));
            },
            None => {},
        }
    }
}

/// A stored text is replaced by its control; what is measured says whether the artifact was there
/// before. Without a control the text is cut to what the control could have taken.
pub proof fn stored_text_becomes_its_control(
    policy: TruncationPolicy,
    text: Seq<char>,
    success: Option<bool>,
    family: Seq<char>,
    reused: bool,
    envelope: Option<Seq<char>>,
    wall_time: Option<Seq<char>>,
)
    ensures
        ({
            let payload = PayloadModel { body: BodyModel::Text(text), success };
            let max: usize = if policy.budget() < 32768 {
                policy.budget()
            } else {
                32768
            };
            let step = stored_text_step(policy, payload, family, reused, envelope, wall_time);
            match executed_envelope(envelope, text, wall_time, max as int) {
                None => step == (StepModel::TruncateText {
                    policy: TruncationPolicy::Bytes(max),
                    rule: "artifact_control_unavailable_v1"@,
                }),
                Some(control) => step == StepModel::Done(
                    ProjectionModel {
                        payload: PayloadModel { body: BodyModel::Text(control), success },
                        measurement: MeasurementModel {
                            original_bytes: utf8_len(text),
                            inline_bytes: utf8_len(control),
                            outcome: "spilled"@,
                            rule: if reused {
                                "exact_digest_reuse_v1"@
                            } else {
                                "spill_v1"@
                            },
                            tool_family: family,
                        },
                        store_backed: json_members(control) matches Some(members) && text_member(
                            members,
                            "type"@,
                        ) == Some("tool_output_artifact"@),
                    },
                ),
            }
        }),
{
}

/// The bytes of an output are those of its text, or of the JSON text of its items.
pub proof fn output_bytes_count(text: Seq<char>, items: Seq<ItemModel>)
    ensures
        output_bytes(BodyModel::Text(text)) == utf8_len(text),
        output_bytes(BodyModel::ContentItems(items)) == utf8_len(
            body_json(BodyModel::ContentItems(items)),
        ),
{
}

/// A control stands next to what is left of the media of an output, or alone where none is left;
/// what is said of success stays, unless nothing fits.
pub proof fn control_stands_with_the_media(
    items: Seq<ItemModel>,
    success: Option<bool>,
    control: Seq<char>,
    limit: int,
)
    ensures
        ({
            let payload = PayloadModel { body: BodyModel::ContentItems(items), success };
            let beside = fitted(with_replaced_text(payload, control), limit);
            let shown = with_control(payload, control, limit);
            &&& shown.success == beside.success
            &&& (match beside.body {
                BodyModel::ContentItems(left) => if exists|i: int|
                    0 <= i < left.len() && (!((#[trigger] left[i]) is InputText) || left[i] == (
                    ItemModel::InputText {
                        text: "[omitted media content to stay within the model budget]"@,
                    })) {
                    shown.body == beside.body
                } else {
                    shown.body == BodyModel::Text(control)
                },
                BodyModel::Text(_) => shown.body == BodyModel::Text(control),
            })
        }),
{
    let payload = PayloadModel { body: BodyModel::ContentItems(items), success };
    let beside = fitted(with_replaced_text(payload, control), limit);
    if let BodyModel::ContentItems(left) = beside.body {
        assert(keeps_media(left) == exists|i: int|
            0 <= i < left.len() && (!((#[trigger] left[i]) is InputText) || left[i] == (
            ItemModel::InputText {
                text: "[omitted media content to stay within the model budget]"@,
            })));
    }
}

/// An output still holds a text exactly where it is the text, or one of its items is.
pub proof fn outputs_hold_their_text(items: Seq<ItemModel>, own: Seq<char>, text: Seq<char>)
    ensures
        keeps_text(BodyModel::Text(own), text) <==> own == text,
        keeps_text(BodyModel::ContentItems(items), text) <==> items.contains(
            ItemModel::InputText { text },
        ),
{
    if items.contains(ItemModel::InputText { text }) {
        let i = items.index_of(ItemModel::InputText { text });
        assert(items[i] == (ItemModel::InputText { text }));
    }
}

/// A control of one size is of use exactly where it can be cut to the limit and to eight KiB, the
/// output still holds it, and the output obeys one of its two limits.
pub proof fn candidates_hold_their_control(
    payload: PayloadModel,
    envelope: Seq<char>,
    max_bytes: int,
    limit: int,
    room: int,
)
    requires
        limit < 8192 ==> room == limit,
        limit >= 8192 ==> room == 8192,
    ensures
        candidate(payload, None, max_bytes, limit) == Candidate::NoControl,
        candidate(payload, Some(envelope), max_bytes, limit) is NoControl <==> compact_control(
            envelope,
            room,
        ) is None,
        compact_control(envelope, room) matches Some(control) ==> ({
            let output = with_control(payload, control, limit);
            let fits = keeps_text(output.body, control) && (utf8_len(body_json(output.body))
                <= max_bytes || visible_bytes(output.body) <= limit);
            candidate(payload, Some(envelope), max_bytes, limit) == (if fits {
                Candidate::Fits(output)
            } else {
                Candidate::TooLarge
            })
        }),
{
}

/// Of an item only its output is replaced: the new one is found, its own one changes nothing, and
/// of two replacements the last one counts. Only the outputs of function and custom calls are
/// projected.
pub proof fn outputs_are_replaced(item: ResponseItemModel, a: PayloadModel, b: PayloadModel)
    ensures
        (match item {
            ResponseItemModel::FunctionCallOutput { output, .. } => item_output(item) == Some(
                (output, "function"@),
            ),
            ResponseItemModel::CustomToolCallOutput { output, .. } => item_output(item) == Some(
                (output, "custom"@),
            ),
            _ => item_output(item) is None && with_item_output(item, a) == item,
        }),
        item_output(item) matches Some((output, family)) ==> item_output(with_item_output(item, a))
            == Some((a, family)) && with_item_output(item, output) == item,
        with_item_output(with_item_output(item, a), b) == with_item_output(item, b),
{
}

/// The entry of an item whose output was projected holds the projected output, and is marked
/// exactly where the projection is store-backed; any other item stays as it is, unmarked.
pub proof fn entries_are_marked_when_store_backed(
    item: ResponseItemModel,
    projection: ProjectionModel,
)
    ensures
        projected_entry(item, None) == (EnvelopeModel { item, metadata: None }),
        projected_entry(item, Some(projection)).item == with_item_output(item, projection.payload),
        (match projected_entry(item, Some(projection)).metadata {
            Some(metadata) => projection.store_backed && metadata.store_backed
                && !metadata.client_authored && metadata.references.len() == 0
                && metadata.repair is None,
            None => !projection.store_backed,
        }),
{
}

} // verus!
