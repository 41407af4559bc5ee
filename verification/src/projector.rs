//! Deciding how a tool output enters the model context.
//!
//! An output that fits its policy stays as it is. One that does not is stored and replaced by a
//! control that refers to the stored artifact, or cut where it cannot be stored. Storing and
//! cutting happen outside; the projector says what it needs and takes the outcome back.

use vstd::prelude::*;
use vstd::string::*;

use crate::content_items::{
    body_json, estimate_content_items_model_visible_bytes, fit_media_to_model_budget, fitted,
    fitted_items, fitted_items_come_from, fitted_within_limits, omitted_marker,
    serialized_body_bytes, visible_bytes, MAX_MODEL_VISIBLE_CONTENT_ITEMS,
};
use crate::exec_metadata::{
    exec_header, exec_members, exec_members_are_plain, is_wall_time, unified_exec_metadata,
};
use crate::history::{
    store_backed_metadata, CodexHarnessMetadata, EnvelopeModel, ResponseItemEnvelope,
    STORE_BACKED_TOOL_OUTPUT_MAX_BYTES,
};
use crate::json::{
    carries_back, is_carried, json_members, json_string, json_string_text, object_text,
    own_members, own_value_is_found, read_members_are_carried, reads_in_order, reread_keeps,
    text_member, with_member, with_member_is_carried, with_member_ordered, JsonModel, JsonObject, JsonValue,
};
use crate::numbers::{decimal, decimal_text};
use crate::protocol::{
    item_models, BodyModel, FunctionCallOutputBody, FunctionCallOutputContentItem,
    FunctionCallOutputPayload, ItemModel, PayloadModel, ResponseItem, ResponseItemModel,
    ToolOutputProvenance, TruncationPolicy,
};
use crate::read_tool_output::{min_size, reads_back, sum_size};
use crate::text::{byte_len, same_text, utf8_len};
use crate::tool_output::{
    bounded_output_payload, bounded_structured_error, compact_control,
    compact_store_backed_envelope, error_payload, replace_text, structured_error,
    structured_error_fits, with_replaced_text, without_text, MAX_CONTENT_ITEMS_MODEL_BYTES,
    MAX_CONTENT_ITEMS_SERIALIZED_BYTES, MAX_MANAGED_ARTIFACT_MODEL_BYTES,
    MIN_ARTIFACT_ENVELOPE_BYTES, MODEL_ITEM_CONTROL_RESERVATION_BYTES,
};

verus! {

/// What was done with an output, without its content.
#[derive(Clone, Copy, Debug)]
pub struct ProjectionMeasurement {
    pub original_bytes: usize,
    pub inline_bytes: usize,
    pub outcome: &'static str,
    pub rule: &'static str,
    pub tool_family: &'static str,
}

/// The model of a [`ProjectionMeasurement`].
pub struct MeasurementModel {
    pub original_bytes: nat,
    pub inline_bytes: nat,
    pub outcome: Seq<char>,
    pub rule: Seq<char>,
    pub tool_family: Seq<char>,
}

impl View for ProjectionMeasurement {
    type V = MeasurementModel;

    open spec fn view(&self) -> MeasurementModel {
        MeasurementModel {
            original_bytes: self.original_bytes as nat,
            inline_bytes: self.inline_bytes as nat,
            outcome: self.outcome@,
            rule: self.rule@,
            tool_family: self.tool_family@,
        }
    }
}

/// An output as it enters the model context.
pub struct Projection {
    pub payload: FunctionCallOutputPayload,
    pub measurement: ProjectionMeasurement,
    /// Whether the output is a control whose artifact is in the managed store.
    pub store_backed: bool,
}

/// The model of a [`Projection`].
pub struct ProjectionModel {
    pub payload: PayloadModel,
    pub measurement: MeasurementModel,
    pub store_backed: bool,
}

impl View for Projection {
    type V = ProjectionModel;

    open spec fn view(&self) -> ProjectionModel {
        ProjectionModel {
            payload: self.payload@,
            measurement: self.measurement@,
            store_backed: self.store_backed,
        }
    }
}

/// What the projector needs.
pub enum ProjectionStep {
    /// Nothing: this is the output.
    Done(Projection),
    /// The text, cut by `policy`.
    TruncateText { policy: TruncationPolicy, rule: &'static str },
    /// All items, cut by `policy`.
    TruncateItems { policy: TruncationPolicy },
    /// `text` stored, and the control of the artifact in at most `max_bytes`.
    StoreText { text: String, max_bytes: usize },
    /// `canonical` stored, and controls of the artifact of different sizes, as
    /// [`EnvelopeSearch`] asks for them.
    StoreItems { canonical: String, max_bytes: usize, model_limit: usize },
}

/// The model of a [`ProjectionStep`].
pub enum StepModel {
    Done(ProjectionModel),
    TruncateText { policy: TruncationPolicy, rule: Seq<char> },
    TruncateItems { policy: TruncationPolicy },
    StoreText { text: Seq<char>, max_bytes: usize },
    StoreItems { canonical: Seq<char>, max_bytes: usize, model_limit: usize },
}

impl View for ProjectionStep {
    type V = StepModel;

    open spec fn view(&self) -> StepModel {
        match self {
            ProjectionStep::Done(projection) => StepModel::Done(projection@),
            ProjectionStep::TruncateText { policy, rule } => StepModel::TruncateText {
                policy: *policy,
                rule: rule@,
            },
            ProjectionStep::TruncateItems { policy } => StepModel::TruncateItems {
                policy: *policy,
            },
            ProjectionStep::StoreText { text, max_bytes } => StepModel::StoreText {
                text: text@,
                max_bytes: *max_bytes,
            },
            ProjectionStep::StoreItems { canonical, max_bytes, model_limit } => {
                StepModel::StoreItems {
                    canonical: canonical@,
                    max_bytes: *max_bytes,
                    model_limit: *model_limit,
                }
            },
        }
    }
}

/// The bytes of an output: its text, or the JSON text of its items.
pub open spec fn output_bytes(body: BodyModel) -> nat {
    match body {
        BodyModel::Text(text) => utf8_len(text),
        BodyModel::ContentItems(_) => utf8_len(body_json(body)),
    }
}

/// A projection of `before` to `after`.
pub open spec fn projected(
    before: nat,
    after: PayloadModel,
    inline: nat,
    family: Seq<char>,
    rule: Seq<char>,
    outcome: Seq<char>,
    store_backed: bool,
) -> ProjectionModel {
    ProjectionModel {
        payload: after,
        measurement: MeasurementModel {
            original_bytes: before,
            inline_bytes: inline,
            outcome,
            rule,
            tool_family: family,
        },
        store_backed,
    }
}

/// The bytes of all text items.
pub open spec fn text_bytes(items: Seq<ItemModel>) -> usize
    decreases items.len(),
{
    if items.len() == 0 {
        0
    } else {
        match items.last() {
            ItemModel::InputText { text } => sum_size(
                text_bytes(items.drop_last()) as int,
                utf8_len(text) as int,
            ),
            _ => text_bytes(items.drop_last()),
        }
    }
}

/// Whether any item is not text.
pub open spec fn has_media(items: Seq<ItemModel>) -> bool {
    exists|i: int| 0 <= i < items.len() && !((#[trigger] items[i]) is InputText)
}

/// The texts of items with their positions, as JSON objects with commas between them.
pub open spec fn indexed_texts(items: Seq<ItemModel>) -> Seq<char>
    decreases items.len(),
{
    if items.len() == 0 {
        seq![]
    } else {
        let before = indexed_texts(items.drop_last());
        match items.last() {
            ItemModel::InputText { text } => before + (if before.len() == 0 {
                seq![]
            } else {
                seq![',']
            }) + "{\"index\":"@ + decimal((items.len() - 1) as nat) + ",\"text\":"@ + json_string(
                text,
            ) + "}"@,
            _ => before,
        }
    }
}

/// The one text that is stored for all text items of an output.
pub open spec fn canonical_items(items: Seq<ItemModel>) -> Seq<char> {
    object_text(
        with_member(
            with_member(
                with_member(seq![], "type"@, JsonModel::Text("tool_output_text_items"@)),
                "version"@,
                JsonModel::Unsigned(1),
            ),
            "items"@,
            JsonModel::Raw(seq!['['] + indexed_texts(items) + seq![']']),
        ),
    )
}

/// How an output of several items is treated.
pub enum ItemsDecision {
    /// It stays as it is.
    Inline,
    /// It stays as it is, media included.
    MediaPreserved,
    /// Media that cost too much are left out.
    MediaBounded,
    /// Nothing can be stored: its texts are cut.
    CutWithoutStore,
    /// Nothing can be stored: items are left out.
    FitWithoutStore,
    /// The budget has no room for a control.
    TooSmall,
    /// Items are left out.
    ModelBounded,
    /// All texts are stored as one artifact.
    Store,
}

/// The model limit of an output of several items.
pub open spec fn model_limit(budget: usize) -> usize {
    min_size(budget, MAX_CONTENT_ITEMS_MODEL_BYTES)
}

/// How an output of several items is treated under a budget.
pub open spec fn items_decision(
    budget: usize,
    spilling: bool,
    items: Seq<ItemModel>,
) -> ItemsDecision {
    let limit = model_limit(budget);
    let body = BodyModel::ContentItems(items);
    let bytes = utf8_len(body_json(body));
    let text_exceeds = text_bytes(items) > budget || text_bytes(items)
        > MAX_MANAGED_ARTIFACT_MODEL_BYTES;
    let model_exceeds = bytes > MAX_CONTENT_ITEMS_SERIALIZED_BYTES || visible_bytes(body) > limit
        || items.len() > MAX_MODEL_VISIBLE_CONTENT_ITEMS;
    let small_text_fits = budget < MIN_ARTIFACT_ENVELOPE_BYTES && bytes <= limit && items.len()
        <= MAX_MODEL_VISIBLE_CONTENT_ITEMS;
    if !text_exceeds && !has_media(items) && (small_text_fits || !model_exceeds) {
        ItemsDecision::Inline
    } else if !text_exceeds && has_media(items) {
        if model_exceeds {
            ItemsDecision::MediaBounded
        } else {
            ItemsDecision::MediaPreserved
        }
    } else if !spilling {
        if text_exceeds {
            ItemsDecision::CutWithoutStore
        } else {
            ItemsDecision::FitWithoutStore
        }
    } else if budget < MIN_ARTIFACT_ENVELOPE_BYTES + MODEL_ITEM_CONTROL_RESERVATION_BYTES {
        ItemsDecision::TooSmall
    } else if text_exceeds {
        ItemsDecision::Store
    } else {
        ItemsDecision::ModelBounded
    }
}

/// The step for an output of several items.
pub open spec fn items_step(
    policy: TruncationPolicy,
    spilling: bool,
    payload: PayloadModel,
    family: Seq<char>,
) -> StepModel {
    let budget = policy.budget();
    let limit = model_limit(budget);
    let items = payload.body->ContentItems_0;
    let before = utf8_len(body_json(payload.body));
    let cut = fitted(payload, limit as int);
    let cut_bytes = utf8_len(body_json(cut.body));
    match items_decision(budget, spilling, items) {
        ItemsDecision::Inline => StepModel::Done(
            projected(before, payload, before, family, "inline_v1"@, "inline"@, false),
        ),
        ItemsDecision::MediaPreserved => StepModel::Done(
            projected(
                before,
                payload,
                before,
                family,
                "media_policy_preserved_v1"@,
                "inline"@,
                false,
            ),
        ),
        ItemsDecision::MediaBounded => StepModel::Done(
            projected(
                before,
                cut,
                cut_bytes,
                family,
                "media_aggregate_bound_v1"@,
                "inline"@,
                false,
            ),
        ),
        ItemsDecision::CutWithoutStore => StepModel::TruncateItems {
            policy: TruncationPolicy::Bytes(limit),
        },
        ItemsDecision::FitWithoutStore => StepModel::Done(
            projected(
                before,
                cut,
                cut_bytes,
                family,
                "artifact_backend_unavailable_v1"@,
                "fallback"@,
                false,
            ),
        ),
        ItemsDecision::TooSmall => {
            let error = error_payload(payload, budget as int);
            StepModel::Done(
                projected(
                    before,
                    error,
                    utf8_len(body_json(error.body)),
                    family,
                    "artifact_policy_too_small_v1"@,
                    "fallback"@,
                    false,
                ),
            )
        },
        ItemsDecision::ModelBounded => StepModel::Done(
            projected(
                before,
                cut,
                cut_bytes,
                family,
                "model_aggregate_bound_v1"@,
                "fallback"@,
                false,
            ),
        ),
        ItemsDecision::Store => StepModel::StoreItems {
            canonical: canonical_items(items),
            max_bytes: min_size(
                (budget - MODEL_ITEM_CONTROL_RESERVATION_BYTES) as usize,
                STORE_BACKED_TOOL_OUTPUT_MAX_BYTES,
            ),
            model_limit: limit,
        },
    }
}

/// The step for a text that is a managed artifact control.
pub open spec fn managed_step(
    policy: TruncationPolicy,
    payload: PayloadModel,
    family: Seq<char>,
) -> StepModel {
    let text = payload.body->Text_0;
    let budget = min_size(
        min_size(policy.budget(), STORE_BACKED_TOOL_OUTPUT_MAX_BYTES),
        MAX_MANAGED_ARTIFACT_MODEL_BYTES,
    );
    let before = utf8_len(text);
    if before <= budget {
        StepModel::Done(
            projected(
                before,
                payload,
                before,
                family,
                "managed_artifact_retrieval_v1"@,
                "inline"@,
                true,
            ),
        )
    } else {
        let compact = compact_control(text, budget as int);
        let bounded = match compact {
            Some(compact) => compact,
            None => structured_error(budget as int),
        };
        StepModel::Done(
            projected(
                before,
                with_replaced_text(payload, bounded),
                utf8_len(bounded),
                family,
                "managed_artifact_policy_compact_v1"@,
                "fallback"@,
                compact is Some,
            ),
        )
    }
}

/// The step for an ordinary text.
pub open spec fn text_step(
    policy: TruncationPolicy,
    spilling: bool,
    payload: PayloadModel,
    family: Seq<char>,
) -> StepModel {
    let text = payload.body->Text_0;
    let before = utf8_len(text);
    let budget = policy.budget();
    if before <= budget {
        StepModel::Done(projected(before, payload, before, family, "inline_v1"@, "inline"@, false))
    } else if !spilling {
        StepModel::TruncateText { policy, rule: "artifact_backend_unavailable_v1"@ }
    } else if budget < MIN_ARTIFACT_ENVELOPE_BYTES {
        StepModel::Done(
            projected(
                before,
                error_payload(payload, budget as int),
                utf8_len(structured_error(budget as int)),
                family,
                "artifact_policy_too_small_v1"@,
                "fallback"@,
                false,
            ),
        )
    } else {
        StepModel::StoreText {
            text,
            max_bytes: min_size(budget, STORE_BACKED_TOOL_OUTPUT_MAX_BYTES),
        }
    }
}

/// The first step for an output.
pub open spec fn first_step(
    policy: TruncationPolicy,
    spilling: bool,
    payload: PayloadModel,
    family: Seq<char>,
    provenance: ToolOutputProvenance,
) -> StepModel {
    match payload.body {
        BodyModel::ContentItems(_) => items_step(policy, spilling, payload, family),
        BodyModel::Text(_) => if provenance == ToolOutputProvenance::Untrusted {
            text_step(policy, spilling, payload, family)
        } else {
            managed_step(policy, payload, family)
        },
    }
}

/// The model of an optional borrowed text.
pub open spec fn optional_str(text: Option<&str>) -> Option<Seq<char>> {
    match text {
        Some(text) => Some(text@),
        None => None,
    }
}

/// The type of a control, if `text` is one for a whole artifact.
pub open spec fn is_artifact_envelope(text: Seq<char>) -> bool {
    json_members(text) matches Some(members) && text_member(members, "type"@) == Some(
        "tool_output_artifact"@,
    )
}

/// The control of an artifact with what the header of `text` says, where that fits.
pub open spec fn executed_envelope(
    envelope: Option<Seq<char>>,
    text: Seq<char>,
    wall_time: Option<Seq<char>>,
    max: int,
) -> Option<Seq<char>> {
    match envelope {
        None => None,
        Some(envelope) => if is_artifact_envelope(envelope) {
            let members = json_members(envelope)->0;
            let full = match exec_members(text, wall_time) {
                Some(execution) => with_member(
                    members,
                    "execution"@,
                    JsonModel::Raw(object_text(execution)),
                ),
                None => members,
            };
            if utf8_len(object_text(full)) <= max {
                Some(object_text(full))
            } else {
                Some(envelope)
            }
        } else {
            None
        },
    }
}

/// The step after a text was stored. `envelope` is the control that the store gives.
pub open spec fn stored_text_step(
    policy: TruncationPolicy,
    payload: PayloadModel,
    family: Seq<char>,
    reused: bool,
    envelope: Option<Seq<char>>,
    wall_time: Option<Seq<char>>,
) -> StepModel {
    let text = payload.body->Text_0;
    let max = min_size(policy.budget(), STORE_BACKED_TOOL_OUTPUT_MAX_BYTES);
    match executed_envelope(envelope, text, wall_time, max as int) {
        None => StepModel::TruncateText {
            policy: TruncationPolicy::Bytes(max),
            rule: "artifact_control_unavailable_v1"@,
        },
        Some(control) => StepModel::Done(
            projected(
                utf8_len(text),
                with_replaced_text(payload, control),
                utf8_len(control),
                family,
                if reused {
                    "exact_digest_reuse_v1"@
                } else {
                    "spill_v1"@
                },
                "spilled"@,
                is_artifact_envelope(control),
            ),
        ),
    }
}

/// Whether a control that is made of the store's is sure to read as an object: it is the store's,
/// or there is no header and the store's carries no JSON text.
pub open spec fn control_reads(
    envelope: Option<Seq<char>>,
    text: Seq<char>,
    control: Seq<char>,
) -> bool {
    envelope == Some(control) || (exec_header(text) is None && match envelope {
        Some(given) => json_members(given) is Some && own_members(json_members(given)->0),
        None => false,
    })
}

/// A control that is rendered anew with what a header says is still the control of an artifact,
/// where it reads as an object.
pub proof fn executed_envelope_is_marked(
    envelope: Seq<char>,
    text: Seq<char>,
    wall_time: Option<Seq<char>>,
    max: int,
)
    requires
        wall_time matches Some(number) ==> is_wall_time(number),
        reads_in_order(envelope),
        executed_envelope(Some(envelope), text, wall_time, max) matches Some(control)
            && carries_back(control) && reads_back(control),
    ensures
        ({
            let control = executed_envelope(Some(envelope), text, wall_time, max)->0;
            json_members(control) is Some || control_reads(Some(envelope), text, control)
                ==> is_artifact_envelope(control)
        }),
{
    let control = executed_envelope(Some(envelope), text, wall_time, max)->0;
    let members = json_members(envelope)->0;
    if control != envelope && own_members(members) && exec_header(text) is None {
        assert(object_text(members) == control);
        reread_keeps(members, "type"@);
    } else if control != envelope && json_members(control) is Some {
        exec_members_are_plain(text, wall_time);
        read_members_are_carried(envelope);
        let full = match exec_members(text, wall_time) {
            Some(execution) => with_member(
                members,
                "execution"@,
                JsonModel::Raw(object_text(execution)),
            ),
            None => members,
        };
        if let Some(execution) = exec_members(text, wall_time) {
            let value = JsonModel::Raw(object_text(execution));
            assert(is_carried(object_text(execution)));
            with_member_ordered(members, "execution"@, value);
            with_member_is_carried(members, "execution"@, value);
            reveal_strlit("execution");
            reveal_strlit("type");
            assert("execution"@.len() != "type"@.len());
        }
        assert(object_text(full) == control);
        own_value_is_found(full, json_members(control)->0, "type"@);
    }
}

fn is_envelope(text: &str) -> (r: bool)
    ensures
        r == is_artifact_envelope(text@),
        carries_back(text@),
        reads_back(text@),
{
    match JsonObject::parse(text) {
        Some(value) => match value.get_text("type") {
            Some(kind) => same_text(kind, "tool_output_artifact"),
            None => false,
        },
        None => false,
    }
}

/// The control of an artifact that stores `text`, with what the header of `text` says.
///
/// `envelope` is the control that the store gives in at most `max_bytes`.
pub fn artifact_envelope(
    envelope: Option<String>,
    text: &str,
    wall_time: Option<&str>,
    max_bytes: usize,
) -> (r: Option<String>)
    ensures
        crate::protocol::optional_text(r) == executed_envelope(
            crate::protocol::optional_text(envelope),
            text@,
            optional_str(wall_time),
            max_bytes as int,
        ),
        envelope matches Some(control) ==> reads_in_order(control@),
{
    let envelope = match envelope {
        Some(envelope) => envelope,
        None => {
            return None;
        },
    };
    let mut value = match JsonObject::parse(envelope.as_str()) {
        Some(value) => value,
        None => {
            return None;
        },
    };
    match value.get_text("type") {
        Some(kind) => {
            if !same_text(kind, "tool_output_artifact") {
                return None;
            }
        },
        None => {
            return None;
        },
    }
    match unified_exec_metadata(text, wall_time) {
        Some(execution) => {
            value.set("execution", JsonValue::Raw(execution.to_text()));
        },
        None => {},
    }
    let full = value.to_text();
    if byte_len(full.as_str()) <= max_bytes {
        Some(full)
    } else {
        Some(envelope)
    }
}

/// Whether items hold media, or the marker for media that were left out.
pub open spec fn keeps_media(items: Seq<ItemModel>) -> bool {
    exists|i: int|
        0 <= i < items.len() && (!((#[trigger] items[i]) is InputText) || items[i]
            == (ItemModel::InputText { text: omitted_marker() }))
}

/// Whether an output still holds a text.
pub open spec fn keeps_text(body: BodyModel, text: Seq<char>) -> bool {
    match body {
        BodyModel::Text(kept) => kept == text,
        BodyModel::ContentItems(items) => exists|i: int|
            0 <= i < items.len() && #[trigger] items[i] == (ItemModel::InputText { text }),
    }
}

/// What a control of one size makes of an output.
pub enum Candidate {
    /// There is no control of this size.
    NoControl,
    /// The output with the control is too large.
    TooLarge,
    /// The output with the control.
    Fits(PayloadModel),
}

/// The output with its texts replaced by a control: next to the media where any are left, alone
/// otherwise.
pub open spec fn with_control(
    payload: PayloadModel,
    control: Seq<char>,
    limit: int,
) -> PayloadModel {
    let cut = fitted(with_replaced_text(payload, control), limit);
    if cut.body matches BodyModel::ContentItems(items) && keeps_media(items) {
        cut
    } else {
        PayloadModel { body: BodyModel::Text(control), success: cut.success }
    }
}

/// What a control of one size makes of an output.
pub open spec fn candidate(
    payload: PayloadModel,
    envelope: Option<Seq<char>>,
    max_bytes: int,
    limit: int,
) -> Candidate {
    let room: int = if limit < MAX_MANAGED_ARTIFACT_MODEL_BYTES {
        limit
    } else {
        MAX_MANAGED_ARTIFACT_MODEL_BYTES as int
    };
    match envelope {
        None => Candidate::NoControl,
        Some(envelope) => match compact_control(envelope, room) {
            None => Candidate::NoControl,
            Some(control) => {
                let output = with_control(payload, control, limit);
                if keeps_text(output.body, control) && (utf8_len(body_json(output.body))
                    <= max_bytes || visible_bytes(output.body) <= limit) {
                    Candidate::Fits(output)
                } else {
                    Candidate::TooLarge
                }
            },
        },
    }
}

/// How far a search for the largest control has come.
pub struct SearchState {
    /// The sizes that are left, from this one on.
    pub low: int,
    /// The sizes that are left, up to this one.
    pub high: int,
    /// Whether the search gave up.
    pub stopped: bool,
    /// The output with the best control so far.
    pub best: Option<PayloadModel>,
}

/// The search before any control was tried.
pub open spec fn search_start(max_bytes: int) -> SearchState {
    SearchState { low: 0, high: max_bytes, stopped: false, best: None }
}

/// The size that is tried next: the middle of those that are left.
pub open spec fn size_to_try(state: SearchState) -> Option<int> {
    if state.stopped || state.low > state.high {
        None
    } else {
        Some(state.low + (state.high - state.low) / 2)
    }
}

/// The search after the control of the size that was to be tried.
pub open spec fn search_after(state: SearchState, tried: Candidate) -> SearchState {
    let middle = size_to_try(state)->0;
    match tried {
        Candidate::NoControl => SearchState { low: middle + 1, ..state },
        Candidate::Fits(output) => SearchState { low: middle + 1, best: Some(output), ..state },
        Candidate::TooLarge => if middle == 0 {
            SearchState { stopped: true, ..state }
        } else {
            SearchState { high: middle - 1, ..state }
        },
    }
}

/// What a search ends with, given what the control of each size makes of the output.
pub open spec fn search_end(
    candidates: spec_fn(int) -> Candidate,
    state: SearchState,
) -> Option<PayloadModel>
    decreases
        (if state.stopped {
            0
        } else {
            state.high + 1 - state.low
        }),
{
    match size_to_try(state) {
        None => state.best,
        Some(size) => search_end(candidates, search_after(state, candidates(size))),
    }
}

/// What the control of each size makes of an output, where `envelopes` gives the control that
/// the store has of that size.
pub open spec fn candidates_of(
    payload: PayloadModel,
    envelopes: spec_fn(int) -> Option<Seq<char>>,
    max_bytes: int,
    limit: int,
) -> spec_fn(int) -> Candidate {
    |size: int| candidate(payload, envelopes(size), max_bytes, limit)
}

/// The output with the best control, as the whole search finds it.
pub open spec fn best_output(
    payload: PayloadModel,
    envelopes: spec_fn(int) -> Option<Seq<char>>,
    max_bytes: int,
    limit: int,
) -> Option<PayloadModel> {
    search_end(candidates_of(payload, envelopes, max_bytes, limit), search_start(max_bytes))
}

/// The search for the largest control that fits next to the media of an output.
pub struct EnvelopeSearch {
    payload: FunctionCallOutputPayload,
    max_bytes: usize,
    model_limit: usize,
    low: usize,
    high: usize,
    stopped: bool,
    best: Option<FunctionCallOutputPayload>,
}

/// The model of an optional output.
pub open spec fn optional_payload(payload: Option<FunctionCallOutputPayload>) -> Option<
    PayloadModel,
> {
    match payload {
        Some(payload) => Some(payload@),
        None => None,
    }
}

impl EnvelopeSearch {
    /// The output that gets the control.
    pub closed spec fn spec_payload(self) -> PayloadModel {
        self.payload@
    }

    /// The largest control.
    pub closed spec fn spec_max_bytes(self) -> usize {
        self.max_bytes
    }

    /// What the model may see.
    pub closed spec fn spec_model_limit(self) -> usize {
        self.model_limit
    }

    /// The sizes that are left, from this one on.
    pub closed spec fn spec_low(self) -> usize {
        self.low
    }

    /// The sizes that are left, up to this one.
    pub closed spec fn spec_high(self) -> usize {
        self.high
    }

    /// Whether the search gave up.
    pub closed spec fn spec_stopped(self) -> bool {
        self.stopped
    }

    /// The output with the best control so far.
    pub closed spec fn spec_best(self) -> Option<PayloadModel> {
        optional_payload(self.best)
    }

    /// The sizes lie within the largest one, and the best output obeys a limit.
    pub closed spec fn wf(self) -> bool {
        &&& self.high <= self.max_bytes < usize::MAX
        &&& self.low <= self.high + 1
        &&& self.spec_best() matches Some(output) ==> utf8_len(body_json(output.body))
            <= self.max_bytes || visible_bytes(output.body) <= self.model_limit
    }

    /// How far the search has come.
    pub open spec fn spec_state(self) -> SearchState {
        SearchState {
            low: self.spec_low() as int,
            high: self.spec_high() as int,
            stopped: self.spec_stopped(),
            best: self.spec_best(),
        }
    }

    /// How many sizes are left to try.
    pub open spec fn sizes_left(self) -> int {
        if self.spec_stopped() {
            0
        } else {
            self.spec_high() + 1 - self.spec_low()
        }
    }

    /// Starts with all sizes up to `max_bytes`.
    pub fn new(
        payload: &FunctionCallOutputPayload,
        max_bytes: usize,
        model_limit: usize,
    ) -> (r: EnvelopeSearch)
        requires
            max_bytes < usize::MAX,
        ensures
            r.wf(),
            r.spec_payload() == payload@,
            r.spec_max_bytes() == max_bytes,
            r.spec_model_limit() == model_limit,
            r.spec_state() == search_start(max_bytes as int),
    {
        EnvelopeSearch {
            payload: payload.clone(),
            max_bytes,
            model_limit,
            low: 0,
            high: max_bytes,
            stopped: false,
            best: None,
        }
    }

    /// The size of the next control to try: the middle of those that are left.
    pub fn next_size(&self) -> (r: Option<usize>)
        requires
            self.wf(),
        ensures
            match r {
                Some(size) => size_to_try(self.spec_state()) == Some(size as int),
                None => size_to_try(self.spec_state()) is None,
            },
    {
        if self.stopped || self.low > self.high {
            None
        } else {
            Some(self.low + (self.high - self.low) / 2)
        }
    }

    /// Takes the control of the size asked for.
    pub fn offer(&mut self, envelope: Option<String>)
        requires
            old(self).wf(),
            size_to_try(old(self).spec_state()) is Some,
        ensures
            final(self).wf(),
            final(self).spec_payload() == old(self).spec_payload(),
            final(self).spec_max_bytes() == old(self).spec_max_bytes(),
            final(self).spec_model_limit() == old(self).spec_model_limit(),
            final(self).sizes_left() < old(self).sizes_left(),
            final(self).spec_state() == search_after(
                old(self).spec_state(),
                candidate(
                    old(self).spec_payload(),
                    crate::protocol::optional_text(envelope),
                    old(self).spec_max_bytes() as int,
                    old(self).spec_model_limit() as int,
                ),
            ),
    {
        let middle: usize = self.low + (self.high - self.low) / 2;
        let room: usize = if self.model_limit < MAX_MANAGED_ARTIFACT_MODEL_BYTES {
            self.model_limit
        } else {
            MAX_MANAGED_ARTIFACT_MODEL_BYTES
        };
        let control: Option<String> = match envelope {
            Some(envelope) => compact_store_backed_envelope(envelope.as_str(), room),
            None => None,
        };
        let control = match control {
            Some(control) => control,
            None => {
                self.low = middle + 1;
                return;
            },
        };
        let output = output_with_control(&self.payload, control.as_str(), self.model_limit);
        let fits = body_keeps_text(&output.body, control.as_str()) && (serialized_body_bytes(
            &output.body,
        ) <= self.max_bytes || estimate_content_items_model_visible_bytes(&output)
            <= self.model_limit);
        if fits {
            self.best = Some(output);
            self.low = middle + 1;
        } else if middle == 0 {
            self.stopped = true;
        } else {
            self.high = middle - 1;
        }
    }

    /// The output with the best control.
    pub fn into_best(self) -> (r: Option<FunctionCallOutputPayload>)
        requires
            self.wf(),
        ensures
            optional_payload(r) == self.spec_state().best,
            r matches Some(output) ==> utf8_len(body_json(output@.body)) <= self.spec_max_bytes()
                || visible_bytes(output@.body) <= self.spec_model_limit(),
    {
        self.best
    }
}

fn items_keep_media(items: &Vec<FunctionCallOutputContentItem>) -> (r: bool)
    ensures
        r == keeps_media(item_models(items@)),
{
    let ghost all = item_models(items@);
    let mut i: usize = 0;
    while i < items.len()
        invariant
            i <= items@.len(),
            all == item_models(items@),
            forall|j: int|
                0 <= j < i ==> (#[trigger] all[j]) is InputText && all[j] != (
                ItemModel::InputText { text: omitted_marker() }),
        decreases items@.len() - i,
    {
        proof {
            assert(all[i as int] == items@[i as int]@);
        }
        match &items[i] {
            FunctionCallOutputContentItem::InputText { text } => {
                if same_text(
                    text.as_str(),
                    "[omitted media content to stay within the model budget]",
                ) {
                    return true;
                }
            },
            _ => {
                return true;
            },
        }
        i += 1;
    }
    false
}

fn body_keeps_text(body: &FunctionCallOutputBody, wanted: &str) -> (r: bool)
    ensures
        r == keeps_text(body@, wanted@),
{
    match body {
        FunctionCallOutputBody::Text(text) => same_text(text.as_str(), wanted),
        FunctionCallOutputBody::ContentItems(items) => {
            let ghost all = item_models(items@);
            let mut i: usize = 0;
            while i < items.len()
                invariant
                    i <= items@.len(),
                    all == item_models(items@),
                    body@ == BodyModel::ContentItems(all),
                    forall|j: int|
                        0 <= j < i ==> #[trigger] all[j] != (ItemModel::InputText {
                            text: wanted@,
                        }),
                decreases items@.len() - i,
            {
                proof {
                    assert(all[i as int] == items@[i as int]@);
                }
                match &items[i] {
                    FunctionCallOutputContentItem::InputText { text } => {
                        if same_text(text.as_str(), wanted) {
                            return true;
                        }
                    },
                    _ => {},
                }
                i += 1;
            }
            false
        },
    }
}

fn output_with_control(
    payload: &FunctionCallOutputPayload,
    control: &str,
    limit: usize,
) -> (r: FunctionCallOutputPayload)
    ensures
        r@ == with_control(payload@, control@, limit as int),
{
    let cut = fit_media_to_model_budget(&replace_text(payload, control.to_owned()), limit);
    let keeps = match &cut.body {
        FunctionCallOutputBody::ContentItems(items) => items_keep_media(items),
        FunctionCallOutputBody::Text(_) => false,
    };
    if keeps {
        cut
    } else {
        FunctionCallOutputPayload {
            body: FunctionCallOutputBody::Text(control.to_owned()),
            success: cut.success,
        }
    }
}

/// The bytes of all text items, and whether any item is not text.
fn measure_items(items: &Vec<FunctionCallOutputContentItem>) -> (r: (usize, bool))
    ensures
        r.0 == text_bytes(item_models(items@)),
        r.1 == has_media(item_models(items@)),
{
    let ghost all = item_models(items@);
    let mut bytes: usize = 0;
    let mut media = false;
    let mut i: usize = 0;
    while i < items.len()
        invariant
            i <= items@.len(),
            all == item_models(items@),
            bytes == text_bytes(all.take(i as int)),
            media == has_media(all.take(i as int)),
        decreases items@.len() - i,
    {
        proof {
            assert(all.take(i + 1).drop_last() =~= all.take(i as int));
            assert(all[i as int] == items@[i as int]@);
            has_media_step(all, i as int);
        }
        match &items[i] {
            FunctionCallOutputContentItem::InputText { text } => {
                bytes = bytes.saturating_add(byte_len(text.as_str()));
            },
            _ => {
                media = true;
            },
        }
        i += 1;
    }
    proof {
        assert(all.take(i as int) =~= all);
    }
    (bytes, media)
}

proof fn has_media_step(items: Seq<ItemModel>, i: int)
    requires
        0 <= i < items.len(),
    ensures
        has_media(items.take(i + 1)) == (has_media(items.take(i)) || !(items[i] is InputText)),
{
    let more = items.take(i + 1);
    let less = items.take(i);
    if has_media(less) {
        let j = choose|j: int| 0 <= j < less.len() && !((#[trigger] less[j]) is InputText);
        assert(more[j] == less[j]);
    }
    if !(items[i] is InputText) {
        assert(more[i] == items[i]);
    }
    if has_media(more) {
        let j = choose|j: int| 0 <= j < more.len() && !((#[trigger] more[j]) is InputText);
        if j < i {
            assert(less[j] == more[j]);
        }
    }
}

/// The one text that is stored for all text items of an output.
fn canonical_text(items: &Vec<FunctionCallOutputContentItem>) -> (r: String)
    ensures
        r@ == canonical_items(item_models(items@)),
{
    let ghost all = item_models(items@);
    let mut list = String::new();
    list.push('[');
    let mut empty = true;
    let mut i: usize = 0;
    proof {
        assert(list@ =~= seq!['['] + indexed_texts(all.take(0)));
    }
    while i < items.len()
        invariant
            i <= items@.len(),
            all == item_models(items@),
            list@ == seq!['['] + indexed_texts(all.take(i as int)),
            empty == (indexed_texts(all.take(i as int)).len() == 0),
        decreases items@.len() - i,
    {
        let ghost before = indexed_texts(all.take(i as int));
        proof {
            assert(all.take(i + 1).drop_last() =~= all.take(i as int));
            assert(all[i as int] == items@[i as int]@);
        }
        match &items[i] {
            FunctionCallOutputContentItem::InputText { text } => {
                if !empty {
                    list.push(',');
                }
                list.append("{\"index\":");
                list.append(decimal_text(i as u64).as_str());
                list.append(",\"text\":");
                list.append(json_string_text(text.as_str()).as_str());
                list.append("}");
                empty = false;
                proof {
                    reveal_strlit("}");
                    assert(list@ =~= seq!['['] + indexed_texts(all.take(i + 1)));
                }
            },
            _ => {},
        }
        i += 1;
    }
    list.push(']');
    proof {
        assert(all.take(i as int) =~= all);
        assert(list@ =~= seq!['['] + indexed_texts(all) + seq![']']);
    }
    let mut value = JsonObject::new();
    value.set_text("type", "tool_output_text_items");
    value.set("version", JsonValue::Unsigned(1));
    value.set("items", JsonValue::Raw(list));
    value.to_text()
}

fn measurement(
    tool_family: &'static str,
    rule: &'static str,
    original_bytes: usize,
    inline_bytes: usize,
    outcome: &'static str,
) -> (r: ProjectionMeasurement)
    ensures
        r@ == (MeasurementModel {
            original_bytes: original_bytes as nat,
            inline_bytes: inline_bytes as nat,
            outcome: outcome@,
            rule: rule@,
            tool_family: tool_family@,
        }),
{
    ProjectionMeasurement { original_bytes, inline_bytes, outcome, rule, tool_family }
}

/// Decides how tool outputs enter the model context.
#[derive(Clone, Copy)]
pub struct ToolOutputProjector {
    pub policy: TruncationPolicy,
    pub spilling_supported: bool,
}

impl ToolOutputProjector {
    /// A projector for a policy, with a store to spill to.
    pub fn new(policy: TruncationPolicy) -> (r: Self)
        ensures
            r == (ToolOutputProjector { policy, spilling_supported: true }),
    {
        ToolOutputProjector { policy, spilling_supported: true }
    }

    /// The same projector with or without a store to spill to.
    pub fn with_spilling_supported(self, spilling_supported: bool) -> (r: Self)
        ensures
            r == (ToolOutputProjector { spilling_supported, ..self }),
    {
        ToolOutputProjector { policy: self.policy, spilling_supported }
    }

    /// A projection to an output with several items, or to the error in its place.
    fn items_done(
        &self,
        original_bytes: usize,
        output: FunctionCallOutputPayload,
        family: &'static str,
        rule: &'static str,
        outcome: &'static str,
        store_backed: bool,
    ) -> (r: Projection)
        ensures
            r@ == projected(
                original_bytes as nat,
                output@,
                utf8_len(body_json(output@.body)),
                family@,
                rule@,
                outcome@,
                store_backed,
            ),
    {
        let inline_bytes: usize = serialized_body_bytes(&output.body);
        Projection {
            payload: output,
            measurement: measurement(family, rule, original_bytes, inline_bytes, outcome),
            store_backed,
        }
    }

    /// The first step for an output of several items.
    pub fn project_content_items(
        &self,
        payload: &FunctionCallOutputPayload,
        family: &'static str,
    ) -> (r: ProjectionStep)
        requires
            payload@.body is ContentItems,
        ensures
            r@ == items_step(self.policy, self.spilling_supported, payload@, family@),
    {
        let budget: usize = self.policy.byte_budget();
        let original_bytes: usize = serialized_body_bytes(&payload.body);
        let visible: usize = estimate_content_items_model_visible_bytes(payload);
        let items = match &payload.body {
            FunctionCallOutputBody::ContentItems(items) => items,
            FunctionCallOutputBody::Text(_) => {
                proof {
                    assert(false);
                }
                return ProjectionStep::TruncateItems { policy: self.policy };
            },
        };
        let (text_bytes, has_media) = measure_items(items);
        let limit: usize = if budget < MAX_CONTENT_ITEMS_MODEL_BYTES {
            budget
        } else {
            MAX_CONTENT_ITEMS_MODEL_BYTES
        };
        let model_exceeds = original_bytes > MAX_CONTENT_ITEMS_SERIALIZED_BYTES || visible > limit
            || items.len() > MAX_MODEL_VISIBLE_CONTENT_ITEMS;
        let small_text_fits = budget < MIN_ARTIFACT_ENVELOPE_BYTES && original_bytes <= limit
            && items.len() <= MAX_MODEL_VISIBLE_CONTENT_ITEMS;
        let text_exceeds = text_bytes > budget || text_bytes > MAX_MANAGED_ARTIFACT_MODEL_BYTES;
        if !has_media && !text_exceeds && (small_text_fits || !model_exceeds) {
            return ProjectionStep::Done(
                self.items_done(
                    original_bytes,
                    payload.clone(),
                    family,
                    "inline_v1",
                    "inline",
                    false,
                ),
            );
        }
        if has_media && !text_exceeds && !model_exceeds {
            return ProjectionStep::Done(
                self.items_done(
                    original_bytes,
                    payload.clone(),
                    family,
                    "media_policy_preserved_v1",
                    "inline",
                    false,
                ),
            );
        }
        if has_media && !text_exceeds {
            return ProjectionStep::Done(
                self.items_done(
                    original_bytes,
                    fit_media_to_model_budget(payload, limit),
                    family,
                    "media_aggregate_bound_v1",
                    "inline",
                    false,
                ),
            );
        }
        if !self.spilling_supported {
            if text_exceeds {
                return ProjectionStep::TruncateItems { policy: TruncationPolicy::Bytes(limit) };
            }
            return ProjectionStep::Done(
                self.items_done(
                    original_bytes,
                    fit_media_to_model_budget(payload, limit),
                    family,
                    "artifact_backend_unavailable_v1",
                    "fallback",
                    false,
                ),
            );
        }
        if budget < MIN_ARTIFACT_ENVELOPE_BYTES + MODEL_ITEM_CONTROL_RESERVATION_BYTES {
            return ProjectionStep::Done(
                self.items_done(
                    original_bytes,
                    bounded_output_payload(payload, budget),
                    family,
                    "artifact_policy_too_small_v1",
                    "fallback",
                    false,
                ),
            );
        }
        if !text_exceeds {
            return ProjectionStep::Done(
                self.items_done(
                    original_bytes,
                    fit_media_to_model_budget(payload, limit),
                    family,
                    "model_aggregate_bound_v1",
                    "fallback",
                    false,
                ),
            );
        }
        let room: usize = budget - MODEL_ITEM_CONTROL_RESERVATION_BYTES;
        ProjectionStep::StoreItems {
            canonical: canonical_text(items),
            max_bytes: if room < STORE_BACKED_TOOL_OUTPUT_MAX_BYTES {
                room
            } else {
                STORE_BACKED_TOOL_OUTPUT_MAX_BYTES
            },
            model_limit: limit,
        }
    }

    /// The first step for an output.
    pub fn project_payload(
        &self,
        payload: &FunctionCallOutputPayload,
        family: &'static str,
        provenance: ToolOutputProvenance,
    ) -> (r: ProjectionStep)
        ensures
            r@ == first_step(
                self.policy,
                self.spilling_supported,
                payload@,
                family@,
                provenance,
            ),
    {
        let budget: usize = self.policy.byte_budget();
        let text = match &payload.body {
            FunctionCallOutputBody::ContentItems(_) => {
                return self.project_content_items(payload, family);
            },
            FunctionCallOutputBody::Text(text) => text,
        };
        let original_bytes: usize = byte_len(text.as_str());
        if provenance != ToolOutputProvenance::Untrusted {
            let managed: usize = if budget < MAX_MANAGED_ARTIFACT_MODEL_BYTES {
                budget
            } else {
                MAX_MANAGED_ARTIFACT_MODEL_BYTES
            };
            if original_bytes <= managed {
                return ProjectionStep::Done(
                    Projection {
                        payload: payload.clone(),
                        measurement: measurement(
                            family,
                            "managed_artifact_retrieval_v1",
                            original_bytes,
                            original_bytes,
                            "inline",
                        ),
                        store_backed: true,
                    },
                );
            }
            let compact = compact_store_backed_envelope(text.as_str(), managed);
            let store_backed = compact.is_some();
            let bounded = match compact {
                Some(compact) => compact,
                None => bounded_structured_error(managed),
            };
            let inline_bytes: usize = byte_len(bounded.as_str());
            return ProjectionStep::Done(
                Projection {
                    payload: replace_text(payload, bounded),
                    measurement: measurement(
                        family,
                        "managed_artifact_policy_compact_v1",
                        original_bytes,
                        inline_bytes,
                        "fallback",
                    ),
                    store_backed,
                },
            );
        }
        if original_bytes <= budget {
            return ProjectionStep::Done(
                Projection {
                    payload: payload.clone(),
                    measurement: measurement(
                        family,
                        "inline_v1",
                        original_bytes,
                        original_bytes,
                        "inline",
                    ),
                    store_backed: false,
                },
            );
        }
        if !self.spilling_supported {
            return ProjectionStep::TruncateText {
                policy: self.policy,
                rule: "artifact_backend_unavailable_v1",
            };
        }
        if budget < MIN_ARTIFACT_ENVELOPE_BYTES {
            let output = bounded_output_payload(payload, budget);
            let inline_bytes: usize = match &output.body {
                FunctionCallOutputBody::Text(text) => byte_len(text.as_str()),
                FunctionCallOutputBody::ContentItems(_) => 0,
            };
            return ProjectionStep::Done(
                Projection {
                    payload: output,
                    measurement: measurement(
                        family,
                        "artifact_policy_too_small_v1",
                        original_bytes,
                        inline_bytes,
                        "fallback",
                    ),
                    store_backed: false,
                },
            );
        }
        ProjectionStep::StoreText {
            text: text.clone(),
            max_bytes: if budget < STORE_BACKED_TOOL_OUTPUT_MAX_BYTES {
                budget
            } else {
                STORE_BACKED_TOOL_OUTPUT_MAX_BYTES
            },
        }
    }

    /// The output whose text was cut to `truncated`, with the success that was left to it.
    pub fn text_truncated(
        &self,
        payload: &FunctionCallOutputPayload,
        family: &'static str,
        rule: &'static str,
        truncated: String,
        success: Option<bool>,
    ) -> (r: Projection)
        requires
            payload@.body is Text,
        ensures
            r@ == projected(
                output_bytes(payload@.body),
                (PayloadModel { body: BodyModel::Text(truncated@), success }),
                utf8_len(truncated@),
                family@,
                rule@,
                "fallback"@,
                false,
            ),
    {
        let original_bytes: usize = match &payload.body {
            FunctionCallOutputBody::Text(text) => byte_len(text.as_str()),
            FunctionCallOutputBody::ContentItems(_) => serialized_body_bytes(&payload.body),
        };
        let inline_bytes: usize = byte_len(truncated.as_str());
        Projection {
            payload: FunctionCallOutputPayload {
                body: FunctionCallOutputBody::Text(truncated),
                success,
            },
            measurement: measurement(family, rule, original_bytes, inline_bytes, "fallback"),
            store_backed: false,
        }
    }

    /// The step after `text` was stored. `envelope` is the control that the store gives in at
    /// most the size asked for; `reused` says that the artifact existed before.
    pub fn text_stored(
        &self,
        payload: &FunctionCallOutputPayload,
        family: &'static str,
        reused: bool,
        envelope: Option<String>,
        wall_time: Option<&str>,
    ) -> (r: ProjectionStep)
        requires
            payload@.body is Text,
        ensures
            r@ == stored_text_step(
                self.policy,
                payload@,
                family@,
                reused,
                crate::protocol::optional_text(envelope),
                optional_str(wall_time),
            ),
            (wall_time matches Some(number) ==> is_wall_time(number@)) && r@ is Done ==> ({
                let spilled = r@->Done_0;
                let control = spilled.payload.body->Text_0;
                json_members(control) is Some || control_reads(
                    crate::protocol::optional_text(envelope),
                    payload@.body->Text_0,
                    control,
                ) ==> spilled.store_backed
            }),
    {
        let budget: usize = self.policy.byte_budget();
        let ghost given = crate::protocol::optional_text(envelope);
        let ghost time = optional_str(wall_time);
        let max_bytes: usize = if budget < STORE_BACKED_TOOL_OUTPUT_MAX_BYTES {
            budget
        } else {
            STORE_BACKED_TOOL_OUTPUT_MAX_BYTES
        };
        let text = match &payload.body {
            FunctionCallOutputBody::Text(text) => text,
            FunctionCallOutputBody::ContentItems(_) => {
                proof {
                    assert(false);
                }
                return ProjectionStep::TruncateItems { policy: self.policy };
            },
        };
        let control = match artifact_envelope(envelope, text.as_str(), wall_time, max_bytes) {
            Some(control) => control,
            None => {
                return ProjectionStep::TruncateText {
                    policy: TruncationPolicy::Bytes(max_bytes),
                    rule: "artifact_control_unavailable_v1",
                };
            },
        };
        let original_bytes: usize = byte_len(text.as_str());
        let inline_bytes: usize = byte_len(control.as_str());
        let store_backed = is_envelope(control.as_str());
        proof {
            if time matches Some(number) ==> is_wall_time(number) {
                executed_envelope_is_marked(given->0, text@, time, max_bytes as int);
            }
        }
        ProjectionStep::Done(
            Projection {
                payload: replace_text(payload, control),
                measurement: measurement(
                    family,
                    if reused {
                        "exact_digest_reuse_v1"
                    } else {
                        "spill_v1"
                    },
                    original_bytes,
                    inline_bytes,
                    "spilled",
                ),
                store_backed,
            },
        )
    }

    /// The step after a text could not be stored.
    pub fn text_store_failed(&self) -> (r: ProjectionStep)
        ensures
            r@ == (StepModel::TruncateText {
                policy: self.policy,
                rule: "spill_failure_truncate_v1"@,
            }),
    {
        ProjectionStep::TruncateText { policy: self.policy, rule: "spill_failure_truncate_v1" }
    }

    /// The output whose items were cut to `output`; media that still cost too much are left out.
    pub fn items_truncated(
        &self,
        payload: &FunctionCallOutputPayload,
        family: &'static str,
        output: FunctionCallOutputPayload,
    ) -> (r: Projection)
        requires
            payload@.body is ContentItems,
        ensures
            ({
                let limit = model_limit(self.policy.budget());
                let cut = if has_media(payload@.body->ContentItems_0) {
                    fitted(output@, limit as int)
                } else {
                    output@
                };
                r@ == projected(
                    output_bytes(payload@.body),
                    cut,
                    utf8_len(body_json(cut.body)),
                    family@,
                    "artifact_backend_unavailable_v1"@,
                    "fallback"@,
                    false,
                )
            }),
    {
        let budget: usize = self.policy.byte_budget();
        let limit: usize = if budget < MAX_CONTENT_ITEMS_MODEL_BYTES {
            budget
        } else {
            MAX_CONTENT_ITEMS_MODEL_BYTES
        };
        let has_media = match &payload.body {
            FunctionCallOutputBody::ContentItems(items) => measure_items(items).1,
            FunctionCallOutputBody::Text(_) => false,
        };
        let original_bytes: usize = serialized_body_bytes(&payload.body);
        let cut = if has_media {
            fit_media_to_model_budget(&output, limit)
        } else {
            output
        };
        self.items_done(
            original_bytes,
            cut,
            family,
            "artifact_backend_unavailable_v1",
            "fallback",
            false,
        )
    }

    /// The output after its texts were stored; `fitting` is what [`EnvelopeSearch`] found.
    pub fn items_stored(
        &self,
        payload: &FunctionCallOutputPayload,
        family: &'static str,
        reused: bool,
        fitting: Option<FunctionCallOutputPayload>,
    ) -> (r: Projection)
        requires
            payload@.body is ContentItems,
        ensures
            ({
                let error = error_payload(payload@, self.policy.budget() as int);
                r@ == (match fitting {
                    Some(output) => projected(
                        output_bytes(payload@.body),
                        output@,
                        utf8_len(body_json(output@.body)),
                        family@,
                        if reused {
                            "exact_digest_reuse_v1"@
                        } else {
                            "spill_v1"@
                        },
                        "spilled"@,
                        true,
                    ),
                    None => projected(
                        output_bytes(payload@.body),
                        error,
                        utf8_len(body_json(error.body)),
                        family@,
                        "artifact_control_unavailable_v1"@,
                        "fallback"@,
                        false,
                    ),
                })
            }),
    {
        let original_bytes: usize = serialized_body_bytes(&payload.body);
        match fitting {
            Some(output) => self.items_done(
                original_bytes,
                output,
                family,
                if reused {
                    "exact_digest_reuse_v1"
                } else {
                    "spill_v1"
                },
                "spilled",
                true,
            ),
            None => self.items_done(
                original_bytes,
                bounded_output_payload(payload, self.policy.byte_budget()),
                family,
                "artifact_control_unavailable_v1",
                "fallback",
                false,
            ),
        }
    }

    /// The output after its texts could not be stored.
    pub fn items_store_failed(
        &self,
        payload: &FunctionCallOutputPayload,
        family: &'static str,
    ) -> (r: Projection)
        requires
            payload@.body is ContentItems,
        ensures
            ({
                let error = error_payload(payload@, self.policy.budget() as int);
                r@ == projected(
                    output_bytes(payload@.body),
                    error,
                    utf8_len(body_json(error.body)),
                    family@,
                    "spill_failure_truncate_v1"@,
                    "fallback"@,
                    false,
                )
            }),
    {
        let original_bytes: usize = serialized_body_bytes(&payload.body);
        self.items_done(
            original_bytes,
            bounded_output_payload(payload, self.policy.byte_budget()),
            family,
            "spill_failure_truncate_v1",
            "fallback",
            false,
        )
    }
}

/// The output that an item carries, and the family of its tool.
pub open spec fn item_output(item: ResponseItemModel) -> Option<(PayloadModel, Seq<char>)> {
    match item {
        ResponseItemModel::FunctionCallOutput { output, .. } => Some((output, "function"@)),
        ResponseItemModel::CustomToolCallOutput { output, .. } => Some((output, "custom"@)),
        _ => None,
    }
}

/// The item with another output.
pub open spec fn with_item_output(
    item: ResponseItemModel,
    output: PayloadModel,
) -> ResponseItemModel {
    match item {
        ResponseItemModel::FunctionCallOutput {
            id,
            call_id,
            name,
            namespace,
            internal_chat_message_metadata_passthrough,
            ..
        } => ResponseItemModel::FunctionCallOutput {
            id,
            call_id,
            name,
            namespace,
            output,
            internal_chat_message_metadata_passthrough,
        },
        ResponseItemModel::CustomToolCallOutput {
            id,
            call_id,
            name,
            internal_chat_message_metadata_passthrough,
            ..
        } => ResponseItemModel::CustomToolCallOutput {
            id,
            call_id,
            name,
            output,
            internal_chat_message_metadata_passthrough,
        },
        _ => item,
    }
}

/// The output that an item carries, and the family of its tool. Any other item stays as it is.
pub fn projectable_output(item: &ResponseItem) -> (r: Option<
    (&FunctionCallOutputPayload, &'static str),
>)
    ensures
        match r {
            Some((output, family)) => item_output(item@) == Some((output@, family@)),
            None => item_output(item@) is None,
        },
{
    match item {
        ResponseItem::FunctionCallOutput { output, .. } => Some((output, "function")),
        ResponseItem::CustomToolCallOutput { output, .. } => Some((output, "custom")),
        _ => None,
    }
}

/// The history entry of an item whose output was projected, or of another item.
pub open spec fn projected_entry(
    item: ResponseItemModel,
    projection: Option<ProjectionModel>,
) -> EnvelopeModel {
    match projection {
        None => EnvelopeModel { item, metadata: None },
        Some(projection) => EnvelopeModel {
            item: with_item_output(item, projection.payload),
            metadata: if projection.store_backed {
                Some(store_backed_metadata())
            } else {
                None
            },
        },
    }
}

/// The history entry of an item whose output was projected: only a control whose artifact is in
/// the managed store is marked as store-backed.
pub fn project_response_item(
    item: &ResponseItem,
    projection: Option<Projection>,
) -> (r: (ResponseItemEnvelope, Option<ProjectionMeasurement>))
    ensures
        match projection {
            None => r.0@ == projected_entry(item@, None) && r.1 is None,
            Some(projection) => r.0@ == projected_entry(item@, Some(projection@)) && r.1 == Some(
                projection.measurement,
            ),
        },
{
    let projection = match projection {
        Some(projection) => projection,
        None => {
            return (ResponseItemEnvelope::new(item.clone()), None);
        },
    };
    let mut item = item.clone();
    match &mut item {
        ResponseItem::FunctionCallOutput { output, .. } => {
            *output = projection.payload;
        },
        ResponseItem::CustomToolCallOutput { output, .. } => {
            *output = projection.payload;
        },
        _ => {},
    }
    let metadata = if projection.store_backed {
        Some(CodexHarnessMetadata::store_backed_tool_output())
    } else {
        None
    };
    (ResponseItemEnvelope { item, metadata }, Some(projection.measurement))
}

/// An untrusted output is never taken for a store-backed control, whatever it looks like.
pub proof fn untrusted_output_is_not_store_backed(
    policy: TruncationPolicy,
    spilling: bool,
    payload: PayloadModel,
    family: Seq<char>,
)
    ensures
        first_step(policy, spilling, payload, family, ToolOutputProvenance::Untrusted) matches
            StepModel::Done(projection) ==> !projection.store_backed,
{
}

/// A text within the budget stays as it is, and is not store-backed, whatever it looks like.
pub proof fn fitting_text_stays(
    policy: TruncationPolicy,
    spilling: bool,
    payload: PayloadModel,
    family: Seq<char>,
)
    requires
        payload.body is Text,
        utf8_len(payload.body->Text_0) <= policy.budget(),
    ensures
        first_step(policy, spilling, payload, family, ToolOutputProvenance::Untrusted) matches
            StepModel::Done(projection) && projection.payload == payload
            && !projection.store_backed,
{
}

/// A spilled item is marked as store-backed where its control reads as an object, as the control
/// that the store gave does. Projecting the item again leaves it as it is: its control fits, and
/// gains no trust from its shape, so that the new entry is not marked.
///
/// The control that the store gave is taken to fit into the size that it was asked for. What is
/// taken of the reader of JSON, the step that spills a text learns by reading.
pub proof fn spilled_item_stays(
    policy: TruncationPolicy,
    spilling: bool,
    item: ResponseItemModel,
    reused: bool,
    envelope: Option<Seq<char>>,
    wall_time: Option<Seq<char>>,
)
    requires
        item_output(item) matches Some((payload, family)) && payload.body is Text
            && stored_text_step(
            policy,
            payload,
            family,
            reused,
            envelope,
            wall_time,
        ) is Done,
        envelope matches Some(control) ==> utf8_len(control) <= min_size(
            policy.budget(),
            STORE_BACKED_TOOL_OUTPUT_MAX_BYTES,
        ),
        wall_time matches Some(number) ==> is_wall_time(number),
        envelope matches Some(control) ==> reads_in_order(control),
        ({
            let (payload, family) = item_output(item)->0;
            let spilled = stored_text_step(
                policy,
                payload,
                family,
                reused,
                envelope,
                wall_time,
            )->Done_0;
            carries_back(spilled.payload.body->Text_0) && reads_back(
                spilled.payload.body->Text_0,
            )
        }),
    ensures
        ({
            let (payload, family) = item_output(item)->0;
            let spilled = stored_text_step(
                policy,
                payload,
                family,
                reused,
                envelope,
                wall_time,
            )->Done_0;
            let entry = projected_entry(item, Some(spilled));
            let control = spilled.payload.body->Text_0;
            json_members(control) is Some || control_reads(
                envelope,
                payload.body->Text_0,
                control,
            ) ==> entry.metadata == Some(store_backed_metadata())
        }),
        ({
            let (payload, family) = item_output(item)->0;
            let spilled = stored_text_step(
                policy,
                payload,
                family,
                reused,
                envelope,
                wall_time,
            )->Done_0;
            let entry = projected_entry(item, Some(spilled));
            item_output(entry.item) matches Some((output, kind)) && first_step(
                policy,
                spilling,
                output,
                kind,
                ToolOutputProvenance::Untrusted,
            ) matches StepModel::Done(again) && projected_entry(entry.item, Some(again)) == (
            EnvelopeModel { item: entry.item, metadata: None })
        }),
{
    let (payload, family) = item_output(item)->0;
    let spilled = stored_text_step(policy, payload, family, reused, envelope, wall_time)->Done_0;
    fitting_text_stays(policy, spilling, spilled.payload, family);
    let max = min_size(policy.budget(), STORE_BACKED_TOOL_OUTPUT_MAX_BYTES);
    executed_envelope_is_marked(envelope->0, payload.body->Text_0, wall_time, max as int);
}

/// A text that is settled without the store obeys the policy, and one that is a control also the
/// independent ceiling.
pub proof fn settled_text_obeys_policy(
    policy: TruncationPolicy,
    spilling: bool,
    payload: PayloadModel,
    family: Seq<char>,
    provenance: ToolOutputProvenance,
)
    requires
        payload.body is Text,
    ensures
        first_step(policy, spilling, payload, family, provenance) matches StepModel::Done(
            projection,
        ) ==> {
            &&& projection.payload.body is Text
            &&& utf8_len(projection.payload.body->Text_0) == projection.measurement.inline_bytes
            &&& projection.measurement.inline_bytes <= policy.budget()
            &&& projection.store_backed ==> projection.measurement.inline_bytes
                <= MAX_MANAGED_ARTIFACT_MODEL_BYTES
        },
{
    let budget = min_size(
        min_size(policy.budget(), STORE_BACKED_TOOL_OUTPUT_MAX_BYTES),
        MAX_MANAGED_ARTIFACT_MODEL_BYTES,
    );
    structured_error_fits(budget as int);
    structured_error_fits(policy.budget() as int);
}

/// Whether an output of several items is bounded: no more items than the model sees, and their
/// cost within the limit, or their JSON text where the policy is too small for a control; or one
/// structured error within the policy.
pub open spec fn items_bounded(budget: usize, body: BodyModel) -> bool {
    let limit = model_limit(budget);
    match body {
        BodyModel::Text(text) => (text == structured_error(limit as int) || text
            == structured_error(budget as int)) && utf8_len(text) <= budget,
        BodyModel::ContentItems(items) => {
            &&& items.len() <= MAX_MODEL_VISIBLE_CONTENT_ITEMS
            &&& visible_bytes(body) <= limit || (budget < MIN_ARTIFACT_ENVELOPE_BYTES && utf8_len(
                body_json(body),
            ) <= limit)
        },
    }
}

/// An output of several items that is settled without the store is bounded.
pub proof fn settled_items_are_bounded(
    policy: TruncationPolicy,
    spilling: bool,
    payload: PayloadModel,
    family: Seq<char>,
)
    requires
        payload.body is ContentItems,
        payload.body->ContentItems_0.len() > 0,
    ensures
        items_step(policy, spilling, payload, family) matches StepModel::Done(projection)
            ==> items_bounded(policy.budget(), projection.payload.body)
            && !projection.store_backed,
{
    let budget = policy.budget();
    let limit = model_limit(budget);
    fitted_within_limits(payload, limit as int);
    structured_error_fits(budget as int);
    structured_error_fits(limit as int);
}

/// A control next to the media of an output never stands beside another text: apart from the
/// marker for media that were left out, the control is the only text.
pub proof fn control_is_the_only_text(payload: PayloadModel, control: Seq<char>, limit: int)
    requires
        payload.body is ContentItems,
    ensures
        match with_control(payload, control, limit).body {
            BodyModel::Text(text) => text == control,
            BodyModel::ContentItems(items) => forall|i: int|
                0 <= i < items.len() && (#[trigger] items[i]) is InputText ==> items[i] == (
                ItemModel::InputText { text: control }) || items[i] == (ItemModel::InputText {
                    text: omitted_marker(),
                }),
        },
{
    let replaced = with_replaced_text(payload, control);
    let all = replaced.body->ContentItems_0;
    let rest = without_text(payload.body->ContentItems_0);
    no_text_left(payload.body->ContentItems_0);
    assert forall|i: int| 0 <= i < all.len() && (#[trigger] all[i]) is InputText implies all[i] == (
    ItemModel::InputText { text: control }) by {
        if i > 0 {
            assert(all[i] == rest[i - 1]);
        }
    }
    fitted_items_come_from(all, limit);
    let shown = fitted_items(all, limit);
    assert forall|i: int| 0 <= i < shown.len() && (#[trigger] shown[i]) is InputText implies
        shown[i] == (ItemModel::InputText { text: control }) || shown[i] == (ItemModel::InputText {
        text: omitted_marker(),
    }) by {
        if shown[i] != (ItemModel::InputText { text: omitted_marker() }) {
            let j = choose|j: int| 0 <= j < all.len() && all[j] == shown[i];
            assert(all[j] is InputText);
        }
    }
}

proof fn no_text_left(items: Seq<ItemModel>)
    ensures
        forall|i: int|
            0 <= i < without_text(items).len() ==> !((#[trigger] without_text(items)[i])
                is InputText),
    decreases items.len(),
{
    if items.len() > 0 {
        no_text_left(items.drop_last());
        let before = without_text(items.drop_last());
        let all = without_text(items);
        assert forall|i: int| 0 <= i < all.len() implies !((#[trigger] all[i]) is InputText) by {
            if i < before.len() {
                assert(all[i] == before[i]);
            }
        }
    }
}

/// Whether these are the states of a search that is offered, at each step, the control of the
/// size that is to be tried, until no size is left.
pub open spec fn is_search_run(
    candidates: spec_fn(int) -> Candidate,
    states: Seq<SearchState>,
) -> bool
    decreases states.len(),
{
    states.len() > 0 && match size_to_try(states[0]) {
        None => states.len() == 1,
        Some(size) => states.len() > 1 && states[1] == search_after(states[0], candidates(size))
            && is_search_run(candidates, states.drop_first()),
    }
}

/// A search that is offered the control of each size that it asks for ends with the output that
/// the whole search is said to end with.
pub proof fn search_run_ends(candidates: spec_fn(int) -> Candidate, states: Seq<SearchState>)
    requires
        is_search_run(candidates, states),
    ensures
        states.last().best == search_end(candidates, states[0]),
    decreases states.len(),
{
    if let Some(size) = size_to_try(states[0]) {
        let rest = states.drop_first();
        search_run_ends(candidates, rest);
        assert(rest.last() == states.last());
        assert(rest[0] == states[1]);
    }
}

/// What a search ends with is what it had, or what the control of some size that was left made of
/// the output.
pub proof fn search_end_is_a_candidate(
    candidates: spec_fn(int) -> Candidate,
    state: SearchState,
)
    ensures
        search_end(candidates, state) == state.best || exists|size: int|
            state.low <= size <= state.high && #[trigger] candidates(size) == Candidate::Fits(
                search_end(candidates, state)->0,
            ) && search_end(candidates, state) is Some,
    decreases
        (if state.stopped {
            0
        } else {
            state.high + 1 - state.low
        }),
{
    if let Some(size) = size_to_try(state) {
        let next = search_after(state, candidates(size));
        search_end_is_a_candidate(candidates, next);
        let end = search_end(candidates, state);
        if end != state.best {
            if end == next.best {
                assert(candidates(size) == Candidate::Fits(end->0));
            } else {
                let other = choose|other: int|
                    next.low <= other <= next.high && #[trigger] candidates(other)
                        == Candidate::Fits(end->0) && end is Some;
                assert(state.low <= other <= state.high);
            }
        }
    }
}

/// Whether sizes behave: below a size without a control there is none either, and above one that
/// is too large all are.
pub open spec fn sizes_behave(candidates: spec_fn(int) -> Candidate, max_bytes: int) -> bool {
    forall|a: int, b: int|
        #![trigger candidates(a), candidates(b)]
        0 <= a <= b <= max_bytes ==> (candidates(a) is TooLarge ==> candidates(b) is TooLarge) && (
        candidates(b) is NoControl ==> candidates(a) is NoControl)
}

proof fn largest_left_is_found(
    candidates: spec_fn(int) -> Candidate,
    max_bytes: int,
    state: SearchState,
    size: int,
)
    requires
        sizes_behave(candidates, max_bytes),
        !state.stopped,
        0 <= state.low <= size <= state.high <= max_bytes,
        candidates(size) is Fits,
        forall|other: int| size < other <= max_bytes ==> !(#[trigger] candidates(other) is Fits),
    ensures
        search_end(candidates, state) == Some(candidates(size)->Fits_0),
    decreases state.high + 1 - state.low,
{
    let middle = size_to_try(state)->0;
    let next = search_after(state, candidates(middle));
    if middle < size {
        assert(!(candidates(middle) is TooLarge));
        largest_left_is_found(candidates, max_bytes, next, size);
    } else if middle == size {
        search_end_is_a_candidate(candidates, next);
        if search_end(candidates, next) != next.best {
            let other = choose|other: int|
                next.low <= other <= next.high && #[trigger] candidates(other) == Candidate::Fits(
                    search_end(candidates, next)->0,
                ) && search_end(candidates, next) is Some;
            assert(candidates(other) is Fits);
        }
    } else {
        assert(!(candidates(middle) is NoControl));
        assert(!(candidates(middle) is Fits));
        largest_left_is_found(candidates, max_bytes, next, size);
    }
}

/// The largest control that fits is found: where a larger size never gives a control less, nor
/// makes an output that is too large fit again, the search ends with the output of the largest
/// size that fits, and with none only where none fits.
pub proof fn largest_control_is_found(candidates: spec_fn(int) -> Candidate, max_bytes: int)
    requires
        max_bytes >= 0,
        sizes_behave(candidates, max_bytes),
    ensures
        forall|size: int|
            0 <= size <= max_bytes && (#[trigger] candidates(size)) is Fits && (forall|other: int|
                size < other <= max_bytes ==> !(#[trigger] candidates(other) is Fits))
                ==> search_end(candidates, search_start(max_bytes)) == Some(
                candidates(size)->Fits_0,
            ),
        (forall|size: int| 0 <= size <= max_bytes ==> !(#[trigger] candidates(size) is Fits))
            ==> search_end(candidates, search_start(max_bytes)) is None,
{
    let start = search_start(max_bytes);
    assert forall|size: int|
        0 <= size <= max_bytes && (#[trigger] candidates(size)) is Fits && (forall|other: int|
            size < other <= max_bytes ==> !(#[trigger] candidates(other) is
                Fits)) implies search_end(candidates, start) == Some(candidates(size)->Fits_0) by {
        largest_left_is_found(candidates, max_bytes, start, size);
    }
    if forall|size: int| 0 <= size <= max_bytes ==> !(#[trigger] candidates(size) is Fits) {
        search_end_is_a_candidate(candidates, start);
        if search_end(candidates, start) is Some {
            let size = choose|size: int|
                start.low <= size <= start.high && #[trigger] candidates(size) == Candidate::Fits(
                    search_end(candidates, start)->0,
                ) && search_end(candidates, start) is Some;
            assert(candidates(size) is Fits);
        }
    }
}

/// The output that a whole search ends with keeps the control of some size, and obeys one of the
/// limits.
pub proof fn best_output_fits(
    payload: PayloadModel,
    envelopes: spec_fn(int) -> Option<Seq<char>>,
    max_bytes: int,
    limit: int,
)
    ensures
        best_output(payload, envelopes, max_bytes, limit) matches Some(output) ==> (exists|
            size: int,
        |
            0 <= size <= max_bytes && candidate(
                payload,
                #[trigger] envelopes(size),
                max_bytes,
                limit,
            ) == Candidate::Fits(output)) && (utf8_len(body_json(output.body)) <= max_bytes
            || visible_bytes(output.body) <= limit),
{
    let candidates = candidates_of(payload, envelopes, max_bytes, limit);
    let start = search_start(max_bytes);
    search_end_is_a_candidate(candidates, start);
    if let Some(output) = best_output(payload, envelopes, max_bytes, limit) {
        let size = choose|size: int|
            start.low <= size <= start.high && #[trigger] candidates(size) == Candidate::Fits(
                search_end(candidates, start)->0,
            ) && search_end(candidates, start) is Some;
        assert(candidate(payload, envelopes(size), max_bytes, limit) == Candidate::Fits(output));
    }
}

} // verus!
