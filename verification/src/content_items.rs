//! Tool outputs made of several items: what they cost the model, and how they are cut to a budget.

use vstd::prelude::*;
use vstd::string::*;

use crate::json::{escaped, escaped_char, json_string, json_string_text};
use crate::protocol::{
    approx_bytes_for_tokens, bytes_for_tokens, item_models, BodyModel, FunctionCallOutputBody,
    FunctionCallOutputContentItem, FunctionCallOutputPayload, ImageDetail, ItemModel, PayloadModel,
};
use crate::read_tool_output::sum_size;
use crate::text::{
    after_prefix, begins_but_case, byte_len, char_lists, chars_of, encode_concat, encode_empty,
    encode_one, encode_push, equal_but_case, find_chars, part_of, position, position_is_first,
    same_but_case, split_chars, split_text, strip_prefix, text_of, utf8_len, utf8_len_bounds,
    utf8_len_prefix,
};
use crate::tool_output::{
    bounded_structured_error, structured_error, structured_error_fits,
    MAX_CONTENT_ITEMS_SERIALIZED_BYTES,
};

verus! {

/// The most items of one output that the model sees.
pub const MAX_MODEL_VISIBLE_CONTENT_ITEMS: usize = 64;

/// The bytes that any output costs besides its body.
pub const ITEM_OVERHEAD_BYTES: usize = 256;

/// What an image costs the model at its original resolution.
pub const ORIGINAL_IMAGE_BYTES: usize = 40000;

/// What any other image costs the model.
pub const RESIZED_IMAGE_BYTES: usize = 7373;

/// The text that stands for items that were left out.
pub open spec fn omitted_marker() -> Seq<char> {
    "[omitted media content to stay within the model budget]"@
}

/// The JSON name of an image resolution.
pub open spec fn detail_name(detail: ImageDetail) -> Seq<char> {
    match detail {
        ImageDetail::Auto => "auto"@,
        ImageDetail::Low => "low"@,
        ImageDetail::High => "high"@,
        ImageDetail::Original => "original"@,
    }
}

/// The JSON text of an item.
pub open spec fn item_json(item: ItemModel) -> Seq<char> {
    match item {
        ItemModel::InputText { text } => "{\"type\":\"input_text\",\"text\":"@ + json_string(text)
            + "}"@,
        ItemModel::InputImage { image_url, detail } => "{\"type\":\"input_image\",\"image_url\":"@
            + json_string(image_url) + (match detail {
            Some(detail) => ",\"detail\":\""@ + detail_name(detail) + "\""@,
            None => seq![],
        }) + "}"@,
        ItemModel::InputAudio { audio_url, .. } => "{\"type\":\"input_audio\",\"audio_url\":"@
            + json_string(audio_url) + "}"@,
        ItemModel::EncryptedContent { encrypted_content } => {
            "{\"type\":\"encrypted_content\",\"encrypted_content\":"@ + json_string(
                encrypted_content,
            ) + "}"@
        },
    }
}

/// The JSON texts of items with commas between them.
pub open spec fn items_json(items: Seq<ItemModel>) -> Seq<char>
    decreases items.len(),
{
    if items.len() == 0 {
        seq![]
    } else {
        items_json(items.drop_last()) + (if items.len() == 1 {
            seq![]
        } else {
            seq![',']
        }) + item_json(items.last())
    }
}

/// The JSON text of an output body.
pub open spec fn body_json(body: BodyModel) -> Seq<char> {
    match body {
        BodyModel::Text(text) => json_string(text),
        BodyModel::ContentItems(items) => seq!['['] + items_json(items) + seq![']'],
    }
}

fn detail_text(detail: ImageDetail) -> (r: &'static str)
    ensures
        r@ == detail_name(detail),
{
    match detail {
        ImageDetail::Auto => "auto",
        ImageDetail::Low => "low",
        ImageDetail::High => "high",
        ImageDetail::Original => "original",
    }
}

/// The JSON text of an item.
fn item_text(item: &FunctionCallOutputContentItem) -> (r: String)
    ensures
        r@ == item_json(item@),
{
    match item {
        FunctionCallOutputContentItem::InputText { text } => {
            let mut out = String::from_str("{\"type\":\"input_text\",\"text\":");
            out.append(json_string_text(text.as_str()).as_str());
            out.append("}");
            out
        },
        FunctionCallOutputContentItem::InputImage { image_url, detail } => {
            let mut out = String::from_str("{\"type\":\"input_image\",\"image_url\":");
            out.append(json_string_text(image_url.as_str()).as_str());
            let ghost front = out@;
            match detail {
                Some(detail) => {
                    out.append(",\"detail\":\"");
                    out.append(detail_text(*detail));
                    out.append("\"");
                    proof {
                        assert(out@ =~= front + (",\"detail\":\""@ + detail_name(*detail)
                            + "\""@));
                    }
                },
                None => {
                    proof {
                        assert(out@ =~= front + Seq::<char>::empty());
                    }
                },
            }
            out.append("}");
            out
        },
        FunctionCallOutputContentItem::InputAudio { audio_url, .. } => {
            let mut out = String::from_str("{\"type\":\"input_audio\",\"audio_url\":");
            out.append(json_string_text(audio_url.as_str()).as_str());
            out.append("}");
            out
        },
        FunctionCallOutputContentItem::EncryptedContent { encrypted_content } => {
            let mut out = String::from_str(
                "{\"type\":\"encrypted_content\",\"encrypted_content\":",
            );
            out.append(json_string_text(encrypted_content.as_str()).as_str());
            out.append("}");
            out
        },
    }
}

/// The JSON text of a list of items.
fn items_text(items: &Vec<FunctionCallOutputContentItem>) -> (r: String)
    ensures
        r@ == body_json(BodyModel::ContentItems(item_models(items@))),
{
    let ghost all = item_models(items@);
    let mut out = String::new();
    out.push('[');
    let mut i: usize = 0;
    proof {
        assert(out@ =~= seq!['['] + items_json(all.take(0)));
    }
    while i < items.len()
        invariant
            i <= items@.len(),
            all == item_models(items@),
            out@ == seq!['['] + items_json(all.take(i as int)),
        decreases items@.len() - i,
    {
        proof {
            assert(all.take(i + 1).drop_last() =~= all.take(i as int));
            assert(all[i as int] == items@[i as int]@);
        }
        if i > 0 {
            out.push(',');
        }
        out.append(item_text(&items[i]).as_str());
        proof {
            assert(out@ =~= seq!['['] + items_json(all.take(i + 1)));
        }
        i += 1;
    }
    out.push(']');
    proof {
        assert(all.take(i as int) =~= all);
        assert(out@ =~= body_json(BodyModel::ContentItems(all)));
    }
    out
}

/// The JSON text of an output body.
pub fn body_to_json(body: &FunctionCallOutputBody) -> (r: String)
    ensures
        r@ == body_json(body@),
{
    match body {
        FunctionCallOutputBody::Text(text) => json_string_text(text.as_str()),
        FunctionCallOutputBody::ContentItems(items) => items_text(items),
    }
}

/// The size of an output body as JSON.
pub fn serialized_body_bytes(body: &FunctionCallOutputBody) -> (r: usize)
    ensures
        r == utf8_len(body_json(body@)),
{
    byte_len(body_to_json(body).as_str())
}

/// What follows the comma of a base64 data URL of the given media type.
pub open spec fn data_payload(url: Seq<char>, media_prefix: Seq<char>) -> Option<Seq<char>> {
    match position(url, seq![','], 0) {
        None => None,
        Some(comma) => match after_prefix(url.take(comma), "data:"@) {
            None => None,
            Some(metadata) => {
                let parts = split_text(metadata, ';');
                if media_prefix.len() <= parts[0].len() && same_but_case(
                    parts[0].take(media_prefix.len() as int),
                    media_prefix,
                ) && exists|i: int|
                    1 <= i < parts.len() && same_but_case(#[trigger] parts[i], "base64"@) {
                    Some(url.skip(comma + 1))
                } else {
                    None
                }
            },
        },
    }
}

/// What follows the comma of a base64 data URL of the given media type.
pub fn data_url_payload(url: &str, media_prefix: &str) -> (r: Option<String>)
    ensures
        match r {
            Some(payload) => data_payload(url@, media_prefix@) == Some(payload@),
            None => data_payload(url@, media_prefix@) is None,
        },
{
    let chars = chars_of(url);
    let mut separator: Vec<char> = Vec::new();
    separator.push(',');
    proof {
        assert(separator@ =~= seq![',']);
        position_is_first(url@, seq![','], 0);
    }
    let comma: usize = match find_chars(&chars, &separator, 0) {
        Some(comma) => comma,
        None => {
            return None;
        },
    };
    let front = part_of(&chars, 0, comma);
    proof {
        assert(front@ =~= url@.take(comma as int));
    }
    let metadata = match strip_prefix(&front, "data:") {
        Some(metadata) => metadata,
        None => {
            return None;
        },
    };
    let parts = split_chars(&metadata, ';');
    let ghost all = split_text(metadata@, ';');
    proof {
        assert(char_lists(parts@)[0] == parts@[0]@);
    }
    if !begins_but_case(&parts[0], media_prefix) {
        return None;
    }
    if !names_base64(&parts) {
        return None;
    }
    let total: usize = chars.len();
    proof {
        assert(comma + 1 <= total);
    }
    let payload = text_of(&chars, comma + 1, total);
    proof {
        assert(payload@ =~= url@.skip(comma + 1));
        assert(char_lists(parts@) == all);
    }
    Some(payload)
}

/// Whether a part behind the first is `base64`.
fn names_base64(parts: &Vec<Vec<char>>) -> (r: bool)
    ensures
        r == exists|i: int|
            1 <= i < char_lists(parts@).len() && same_but_case(
                #[trigger] char_lists(parts@)[i],
                "base64"@,
            ),
{
    let ghost all = char_lists(parts@);
    let mut i: usize = 1;
    while i < parts.len()
        invariant
            1 <= i,
            all == char_lists(parts@),
            forall|j: int| 1 <= j < i && j < all.len() ==> !same_but_case(#[trigger] all[j], "base64"@),
        decreases parts@.len() - i,
    {
        proof {
            assert(all[i as int] == parts@[i as int]@);
        }
        if equal_but_case(&parts[i], "base64") {
            return true;
        }
        i += 1;
    }
    false
}

/// The bytes of an item that do not count as text.
pub open spec fn media_bytes(item: ItemModel) -> nat {
    match item {
        ItemModel::InputImage { image_url, .. } => match data_payload(image_url, "image/"@) {
            Some(payload) => utf8_len(payload),
            None => 0,
        },
        ItemModel::InputAudio { audio_url, .. } => match data_payload(audio_url, "audio/"@) {
            Some(payload) => utf8_len(payload),
            None => 0,
        },
        ItemModel::EncryptedContent { encrypted_content } => utf8_len(encrypted_content),
        ItemModel::InputText { .. } => 0,
    }
}

/// What an item that is not text costs the model.
pub open spec fn media_cost(item: ItemModel) -> nat {
    match item {
        ItemModel::InputImage { detail, .. } => if detail == Some(ImageDetail::Original) {
            ORIGINAL_IMAGE_BYTES as nat
        } else {
            RESIZED_IMAGE_BYTES as nat
        },
        ItemModel::InputAudio { estimated_tokens, .. } => bytes_for_tokens(
            estimated_tokens,
        ) as nat,
        ItemModel::EncryptedContent { encrypted_content } => encrypted_cost(
            utf8_len(encrypted_content),
        ),
        ItemModel::InputText { .. } => 0,
    }
}

/// What encrypted content of `bytes` bytes costs the model: nine sixteenths, rounded up.
pub open spec fn encrypted_cost(bytes: nat) -> nat {
    let scaled: nat = if bytes * 9 > usize::MAX {
        usize::MAX as nat
    } else {
        bytes * 9
    };
    if scaled % 16 == 0 {
        scaled / 16
    } else {
        scaled / 16 + 1
    }
}

/// The bytes of the items that do not count as text.
pub open spec fn total_media_bytes(items: Seq<ItemModel>) -> usize
    decreases items.len(),
{
    if items.len() == 0 {
        0
    } else {
        sum_size(
            total_media_bytes(items.drop_last()) as int,
            media_bytes(items.last()) as int,
        )
    }
}

/// What the items that are not text cost the model.
pub open spec fn total_media_cost(items: Seq<ItemModel>) -> usize
    decreases items.len(),
{
    if items.len() == 0 {
        0
    } else {
        sum_size(total_media_cost(items.drop_last()) as int, media_cost(items.last()) as int)
    }
}

/// What an output costs the model: its JSON text, with media at their own cost.
pub open spec fn visible_bytes(body: BodyModel) -> usize {
    let raw = utf8_len(body_json(body));
    match body {
        BodyModel::Text(_) => sum_size(raw as int, ITEM_OVERHEAD_BYTES as int),
        BodyModel::ContentItems(items) => {
            let text = if raw < total_media_bytes(items) {
                0
            } else {
                raw - total_media_bytes(items)
            };
            sum_size(
                sum_size(text, total_media_cost(items) as int) as int,
                ITEM_OVERHEAD_BYTES as int,
            )
        },
    }
}

/// The bytes and the cost of one item.
fn item_media(item: &FunctionCallOutputContentItem) -> (r: (usize, usize))
    ensures
        r.0 == media_bytes(item@),
        r.1 == media_cost(item@),
{
    match item {
        FunctionCallOutputContentItem::InputImage { image_url, detail } => {
            let bytes: usize = match data_url_payload(image_url.as_str(), "image/") {
                Some(payload) => byte_len(payload.as_str()),
                None => 0,
            };
            let original = match detail {
                Some(detail) => *detail == ImageDetail::Original,
                None => false,
            };
            (
                bytes,
                if original {
                    ORIGINAL_IMAGE_BYTES
                } else {
                    RESIZED_IMAGE_BYTES
                },
            )
        },
        FunctionCallOutputContentItem::InputAudio { audio_url, estimated_tokens } => {
            let bytes: usize = match data_url_payload(audio_url.as_str(), "audio/") {
                Some(payload) => byte_len(payload.as_str()),
                None => 0,
            };
            (bytes, approx_bytes_for_tokens(*estimated_tokens))
        },
        FunctionCallOutputContentItem::EncryptedContent { encrypted_content } => {
            let bytes: usize = byte_len(encrypted_content.as_str());
            let scaled: usize = match bytes.checked_mul(9) {
                Some(scaled) => scaled,
                None => usize::MAX,
            };
            let cost: usize = if scaled % 16 == 0 {
                scaled / 16
            } else {
                scaled / 16 + 1
            };
            (bytes, cost)
        },
        FunctionCallOutputContentItem::InputText { .. } => (0, 0),
    }
}

/// What a list of items costs the model.
fn items_visible_bytes(items: &Vec<FunctionCallOutputContentItem>) -> (r: usize)
    ensures
        r == visible_bytes(BodyModel::ContentItems(item_models(items@))),
{
    let ghost all = item_models(items@);
    let raw: usize = byte_len(items_text(items).as_str());
    let mut bytes: usize = 0;
    let mut cost: usize = 0;
    let mut i: usize = 0;
    while i < items.len()
        invariant
            i <= items@.len(),
            all == item_models(items@),
            bytes == total_media_bytes(all.take(i as int)),
            cost == total_media_cost(all.take(i as int)),
        decreases items@.len() - i,
    {
        proof {
            assert(all.take(i + 1).drop_last() =~= all.take(i as int));
            assert(all[i as int] == items@[i as int]@);
        }
        let (more_bytes, more_cost) = item_media(&items[i]);
        bytes = bytes.saturating_add(more_bytes);
        cost = cost.saturating_add(more_cost);
        i += 1;
    }
    proof {
        assert(all.take(i as int) =~= all);
    }
    raw.saturating_sub(bytes).saturating_add(cost).saturating_add(ITEM_OVERHEAD_BYTES)
}

/// What an output costs the model: its JSON text, with media at their own cost.
pub fn estimate_content_items_model_visible_bytes(
    payload: &FunctionCallOutputPayload,
) -> (r: usize)
    ensures
        r == visible_bytes(payload@.body),
{
    match &payload.body {
        FunctionCallOutputBody::Text(_) => serialized_body_bytes(&payload.body).saturating_add(
            ITEM_OVERHEAD_BYTES,
        ),
        FunctionCallOutputBody::ContentItems(items) => items_visible_bytes(items),
    }
}

/// Whether items obey both the model limit and the limit of their JSON text.
pub open spec fn items_fit(items: Seq<ItemModel>, limit: int) -> bool {
    &&& visible_bytes(BodyModel::ContentItems(items)) <= limit
    &&& utf8_len(body_json(BodyModel::ContentItems(items))) <= MAX_CONTENT_ITEMS_SERIALIZED_BYTES
}

fn check_fit(items: &Vec<FunctionCallOutputContentItem>, limit: usize) -> (r: bool)
    ensures
        r == items_fit(item_models(items@), limit as int),
{
    items_visible_bytes(items) <= limit && byte_len(items_text(items).as_str())
        <= MAX_CONTENT_ITEMS_SERIALIZED_BYTES
}

/// The items that are kept, in order: each that fits behind those kept before it, up to the
/// largest number.
pub open spec fn kept_items(items: Seq<ItemModel>, limit: int) -> Seq<ItemModel>
    decreases items.len(),
{
    if items.len() == 0 {
        seq![]
    } else {
        let before = kept_items(items.drop_last(), limit);
        if before.len() < MAX_MODEL_VISIBLE_CONTENT_ITEMS && items_fit(
            before.push(items.last()),
            limit,
        ) {
            before.push(items.last())
        } else {
            before
        }
    }
}

/// The last item that is not text.
pub open spec fn last_media(items: Seq<ItemModel>) -> Option<int>
    decreases items.len(),
{
    if items.len() == 0 {
        None
    } else if !(items.last() is InputText) {
        Some(items.len() - 1)
    } else {
        last_media(items.drop_last())
    }
}

/// Room for one more item: without the last media item, or without the last item, where the
/// largest number is reached.
pub open spec fn with_room(items: Seq<ItemModel>) -> Seq<ItemModel> {
    if items.len() < MAX_MODEL_VISIBLE_CONTENT_ITEMS {
        items
    } else {
        items.remove(
            match last_media(items) {
                Some(index) => index,
                None => items.len() - 1,
            },
        )
    }
}

/// The items with a marker for what was left out, where it fits.
pub open spec fn with_marker(items: Seq<ItemModel>, limit: int) -> Seq<ItemModel> {
    let room = with_room(items);
    let marked = room.push(ItemModel::InputText { text: omitted_marker() });
    if room.len() < MAX_MODEL_VISIBLE_CONTENT_ITEMS && items_fit(marked, limit) {
        marked
    } else {
        room
    }
}

/// The items that the model sees.
pub open spec fn fitted_items(items: Seq<ItemModel>, limit: int) -> Seq<ItemModel> {
    let kept = kept_items(items, limit);
    if kept.len() < items.len() {
        with_marker(kept, limit)
    } else {
        kept
    }
}

/// An output cut to what the model may see.
pub open spec fn fitted(payload: PayloadModel, limit: int) -> PayloadModel {
    match payload.body {
        BodyModel::Text(_) => payload,
        BodyModel::ContentItems(items) => if fitted_items(items, limit).len() == 0 && items.len()
            > 0 {
            PayloadModel { body: BodyModel::Text(structured_error(limit)), success: Some(false) }
        } else {
            PayloadModel {
                body: BodyModel::ContentItems(fitted_items(items, limit)),
                success: payload.success,
            }
        },
    }
}

fn find_last_media(items: &Vec<FunctionCallOutputContentItem>) -> (r: Option<usize>)
    ensures
        match r {
            Some(index) => last_media(item_models(items@)) == Some(index as int) && index
                < items@.len(),
            None => last_media(item_models(items@)) is None,
        },
{
    let ghost all = item_models(items@);
    let mut i: usize = items.len();
    proof {
        assert(all.take(i as int) =~= all);
    }
    while i > 0
        invariant
            i <= items@.len(),
            all == item_models(items@),
            last_media(all) == last_media(all.take(i as int)),
        decreases i,
    {
        proof {
            assert(all.take(i as int).drop_last() =~= all.take(i - 1));
            assert(all[i - 1] == items@[i - 1]@);
        }
        match &items[i - 1] {
            FunctionCallOutputContentItem::InputText { .. } => {},
            _ => {
                return Some(i - 1);
            },
        }
        i -= 1;
    }
    None
}

/// No more items are kept than there are.
proof fn kept_items_bound(items: Seq<ItemModel>, limit: int)
    ensures
        kept_items(items, limit).len() <= items.len(),
        kept_items(items, limit).len() <= MAX_MODEL_VISIBLE_CONTENT_ITEMS,
    decreases items.len(),
{
    if items.len() > 0 {
        kept_items_bound(items.drop_last(), limit);
    }
}

/// Cuts an output to what the model may see: media that cost too much are left out, and a marker
/// says so.
pub fn fit_media_to_model_budget(
    payload: &FunctionCallOutputPayload,
    model_limit: usize,
) -> (r: FunctionCallOutputPayload)
    ensures
        r@ == fitted(payload@, model_limit as int),
{
    let items = match &payload.body {
        FunctionCallOutputBody::Text(_) => {
            return payload.clone();
        },
        FunctionCallOutputBody::ContentItems(items) => items,
    };
    let ghost all = item_models(items@);
    let mut retained: Vec<FunctionCallOutputContentItem> = Vec::new();
    let mut i: usize = 0;
    proof {
        assert(item_models(retained@) =~= kept_items(all.take(0), model_limit as int));
    }
    while i < items.len()
        invariant
            i <= items@.len(),
            all == item_models(items@),
            item_models(retained@) == kept_items(all.take(i as int), model_limit as int),
        decreases items@.len() - i,
    {
        proof {
            assert(all.take(i + 1).drop_last() =~= all.take(i as int));
            assert(all[i as int] == items@[i as int]@);
        }
        if retained.len() < MAX_MODEL_VISIBLE_CONTENT_ITEMS {
            let ghost before = retained@;
            retained.push(items[i].clone());
            proof {
                assert(item_models(retained@) =~= item_models(before).push(all[i as int]));
            }
            if !check_fit(&retained, model_limit) {
                retained.pop();
                proof {
                    assert(retained@ =~= before);
                }
            }
        }
        i += 1;
    }
    proof {
        assert(all.take(i as int) =~= all);
        kept_items_bound(all, model_limit as int);
    }
    if retained.len() < items.len() {
        let ghost kept = item_models(retained@);
        if retained.len() >= MAX_MODEL_VISIBLE_CONTENT_ITEMS {
            let index: usize = match find_last_media(&retained) {
                Some(index) => index,
                None => retained.len() - 1,
            };
            retained.remove(index);
            proof {
                assert(item_models(retained@) =~= kept.remove(index as int));
            }
        }
        proof {
            assert(item_models(retained@) =~= with_room(kept));
        }
        if retained.len() < MAX_MODEL_VISIBLE_CONTENT_ITEMS {
            let ghost before = retained@;
            retained.push(
                FunctionCallOutputContentItem::InputText {
                    text: "[omitted media content to stay within the model budget]".to_owned(),
                },
            );
            proof {
                assert(item_models(retained@) =~= item_models(before).push(
                    ItemModel::InputText { text: omitted_marker() },
                ));
            }
            if !check_fit(&retained, model_limit) {
                retained.pop();
                proof {
                    assert(retained@ =~= before);
                }
            }
        }
    }
    if retained.len() == 0 && items.len() > 0 {
        return FunctionCallOutputPayload {
            body: FunctionCallOutputBody::Text(bounded_structured_error(model_limit)),
            success: Some(false),
        };
    }
    FunctionCallOutputPayload {
        body: FunctionCallOutputBody::ContentItems(retained),
        success: payload.success,
    }
}

/// A sum over items.
spec fn total(items: Seq<ItemModel>, f: spec_fn(ItemModel) -> nat) -> nat
    decreases items.len(),
{
    if items.len() == 0 {
        0
    } else {
        total(items.drop_last(), f) + f(items.last())
    }
}

proof fn total_remove(items: Seq<ItemModel>, index: int, f: spec_fn(ItemModel) -> nat)
    requires
        0 <= index < items.len(),
    ensures
        total(items, f) == total(items.remove(index), f) + f(items[index]),
    decreases items.len(),
{
    let less = items.remove(index);
    if index == items.len() - 1 {
        assert(less =~= items.drop_last());
    } else {
        total_remove(items.drop_last(), index, f);
        assert(less.drop_last() =~= items.drop_last().remove(index));
        assert(less.last() == items.last());
    }
}

spec fn json_bytes(item: ItemModel) -> nat {
    utf8_len(item_json(item))
}

proof fn items_json_len(items: Seq<ItemModel>)
    ensures
        utf8_len(items_json(items)) == total(items, |i: ItemModel| json_bytes(i)) + (if items.len()
            == 0 {
            0
        } else {
            items.len() - 1
        }),
    decreases items.len(),
{
    if items.len() == 0 {
        encode_empty();
        assert(items_json(items) =~= Seq::<char>::empty());
    } else {
        let front = items.drop_last();
        items_json_len(front);
        let comma: Seq<char> = if items.len() == 1 {
            seq![]
        } else {
            seq![',']
        };
        encode_concat(items_json(front) + comma, item_json(items.last()));
        encode_concat(items_json(front), comma);
        encode_empty();
        encode_one(',');
        assert(items.len() == 1 ==> comma =~= Seq::<char>::empty());
    }
}

proof fn body_json_len(items: Seq<ItemModel>)
    ensures
        utf8_len(body_json(BodyModel::ContentItems(items))) == total(
            items,
            |i: ItemModel| json_bytes(i),
        ) + (if items.len() == 0 {
            0
        } else {
            items.len() - 1
        }) + 2,
{
    items_json_len(items);
    encode_one('[');
    encode_one(']');
    encode_concat(seq!['['] + items_json(items), seq![']']);
    encode_concat(seq!['['], items_json(items));
}

proof fn totals_saturate(items: Seq<ItemModel>)
    ensures
        total_media_bytes(items) == sum_size(0, total(items, |i: ItemModel| media_bytes(i)) as int),
        total_media_cost(items) == sum_size(0, total(items, |i: ItemModel| media_cost(i)) as int),
    decreases items.len(),
{
    if items.len() > 0 {
        totals_saturate(items.drop_last());
    }
}

/// Escaping never shortens a text.
proof fn escaped_len(s: Seq<char>)
    ensures
        utf8_len(s) <= utf8_len(escaped(s)),
    decreases s.len(),
{
    if s.len() == 0 {
        encode_empty();
        assert(s =~= Seq::<char>::empty());
    } else {
        let front = s.drop_last();
        let c = s.last();
        escaped_len(front);
        assert(s =~= front.push(c));
        encode_push(front, c);
        encode_concat(escaped(front), escaped_char(c));
        utf8_len_bounds(escaped_char(c));
        encode_one(c);
        if escaped_char(c) != seq![c] {
            assert((c as u32) < 0x80);
        }
    }
}

proof fn json_string_len(s: Seq<char>)
    ensures
        utf8_len(s) <= utf8_len(json_string(s)),
{
    escaped_len(s);
    encode_concat(seq!['"'] + escaped(s), seq!['"']);
    encode_concat(seq!['"'], escaped(s));
}

proof fn payload_len(url: Seq<char>, media_prefix: Seq<char>)
    ensures
        data_payload(url, media_prefix) matches Some(payload) ==> utf8_len(payload) <= utf8_len(
            url,
        ),
{
    if data_payload(url, media_prefix) is Some {
        position_is_first(url, seq![','], 0);
        utf8_len_prefix(url, position(url, seq![','], 0)->0 + 1);
    }
}

/// The JSON text of an item is at least as long as the media it holds.
proof fn media_within_json(item: ItemModel)
    ensures
        media_bytes(item) <= json_bytes(item),
{
    match item {
        ItemModel::InputText { text } => {},
        ItemModel::InputImage { image_url, detail } => {
            payload_len(image_url, "image/"@);
            json_string_len(image_url);
            let head = "{\"type\":\"input_image\",\"image_url\":"@;
            let tail: Seq<char> = match detail {
                Some(detail) => ",\"detail\":\""@ + detail_name(detail) + "\""@,
                None => seq![],
            };
            encode_concat(head + json_string(image_url) + tail, "}"@);
            encode_concat(head + json_string(image_url), tail);
            encode_concat(head, json_string(image_url));
        },
        ItemModel::InputAudio { audio_url, .. } => {
            payload_len(audio_url, "audio/"@);
            json_string_len(audio_url);
            let head = "{\"type\":\"input_audio\",\"audio_url\":"@;
            encode_concat(head + json_string(audio_url), "}"@);
            encode_concat(head, json_string(audio_url));
        },
        ItemModel::EncryptedContent { encrypted_content } => {
            json_string_len(encrypted_content);
            let head = "{\"type\":\"encrypted_content\",\"encrypted_content\":"@;
            encode_concat(head + json_string(encrypted_content), "}"@);
            encode_concat(head, json_string(encrypted_content));
        },
    }
}

proof fn media_total_within_json(items: Seq<ItemModel>)
    ensures
        total(items, |i: ItemModel| media_bytes(i)) <= total(items, |i: ItemModel| json_bytes(i)),
    decreases items.len(),
{
    if items.len() > 0 {
        media_total_within_json(items.drop_last());
        media_within_json(items.last());
    }
}

/// Items that fit still fit without one of them.
proof fn fewer_items_fit(items: Seq<ItemModel>, index: int, limit: int)
    requires
        0 <= index < items.len(),
        items.len() > 1,
        items_fit(items, limit),
    ensures
        items_fit(items.remove(index), limit),
{
    let less = items.remove(index);
    body_json_len(items);
    body_json_len(less);
    totals_saturate(items);
    totals_saturate(less);
    total_remove(items, index, |i: ItemModel| json_bytes(i));
    total_remove(items, index, |i: ItemModel| media_bytes(i));
    total_remove(items, index, |i: ItemModel| media_cost(i));
    media_total_within_json(items);
    media_total_within_json(less);
    media_within_json(items[index]);
}

proof fn kept_items_fit(items: Seq<ItemModel>, limit: int)
    ensures
        kept_items(items, limit).len() > 0 ==> items_fit(kept_items(items, limit), limit),
    decreases items.len(),
{
    if items.len() > 0 {
        kept_items_fit(items.drop_last(), limit);
    }
}

proof fn last_media_bound(items: Seq<ItemModel>)
    ensures
        last_media(items) matches Some(index) ==> 0 <= index < items.len(),
    decreases items.len(),
{
    if items.len() > 0 {
        last_media_bound(items.drop_last());
    }
}

/// Whether `part` consists of the items of `whole` at these increasing positions.
pub open spec fn stands_at(part: Seq<ItemModel>, whole: Seq<ItemModel>, at: Seq<int>) -> bool {
    &&& at.len() == part.len()
    &&& forall|i: int|
        0 <= i < at.len() ==> 0 <= #[trigger] at[i] < whole.len() && part[i] == whole[at[i]]
    &&& forall|i: int, j: int| 0 <= i < j < at.len() ==> #[trigger] at[i] < #[trigger] at[j]
}

/// Whether `part` consists of items of `whole`, in their order.
pub open spec fn is_subsequence(part: Seq<ItemModel>, whole: Seq<ItemModel>) -> bool {
    exists|at: Seq<int>| stands_at(part, whole, at)
}

/// Whether what is shown of items are some of them, in their order, and at the end perhaps the
/// marker for what was left out.
pub open spec fn shown_in_order(shown: Seq<ItemModel>, items: Seq<ItemModel>) -> bool {
    is_subsequence(shown, items) || (shown.len() > 0 && shown.last() == (ItemModel::InputText {
        text: omitted_marker(),
    }) && is_subsequence(shown.drop_last(), items))
}

proof fn kept_positions(items: Seq<ItemModel>, limit: int) -> (at: Seq<int>)
    ensures
        stands_at(kept_items(items, limit), items, at),
    decreases items.len(),
{
    if items.len() == 0 {
        Seq::<int>::empty()
    } else {
        let front = items.drop_last();
        let at = kept_positions(front, limit);
        let before = kept_items(front, limit);
        let kept = kept_items(items, limit);
        assert forall|i: int| 0 <= i < at.len() implies 0 <= #[trigger] at[i] < items.len()
            && before[i] == items[at[i]] by {
            assert(front[at[i]] == items[at[i]]);
        }
        if kept.len() > before.len() {
            at.push(items.len() - 1)
        } else {
            at
        }
    }
}

proof fn fitted_in_order(items: Seq<ItemModel>, limit: int)
    ensures
        shown_in_order(fitted_items(items, limit), items),
{
    let at = kept_positions(items, limit);
    let kept = kept_items(items, limit);
    let shown = fitted_items(items, limit);
    kept_items_bound(items, limit);
    last_media_bound(kept);
    if kept.len() < items.len() {
        let room = with_room(kept);
        let room_at = if kept.len() < MAX_MODEL_VISIBLE_CONTENT_ITEMS {
            at
        } else {
            at.remove(
                match last_media(kept) {
                    Some(index) => index,
                    None => kept.len() - 1,
                },
            )
        };
        assert(stands_at(room, items, room_at));
        if shown != room {
            assert(shown.drop_last() =~= room);
        }
    }
}

/// Whatever the items are, what the model sees of them obeys the model limit, the limit of the
/// JSON text and the largest number of items; nothing is ever reordered or invented but the
/// marker, and an output of which nothing fits becomes a structured error that does.
pub proof fn fitted_within_limits(payload: PayloadModel, limit: int)
    requires
        limit >= 0,
        payload.body is ContentItems,
        payload.body->ContentItems_0.len() > 0,
    ensures
        match fitted(payload, limit).body {
            BodyModel::Text(text) => text == structured_error(limit) && utf8_len(text) <= limit
                && fitted(payload, limit).success == Some(false),
            BodyModel::ContentItems(items) => {
                &&& 0 < items.len() <= MAX_MODEL_VISIBLE_CONTENT_ITEMS
                &&& items_fit(items, limit)
                &&& shown_in_order(items, payload.body->ContentItems_0)
                &&& fitted(payload, limit).success == payload.success
            },
        },
{
    let items = payload.body->ContentItems_0;
    fitted_in_order(items, limit);
    let kept = kept_items(items, limit);
    structured_error_fits(limit);
    kept_items_fit(items, limit);
    kept_items_bound(items, limit);
    last_media_bound(kept);
    if kept.len() < items.len() && kept.len() >= MAX_MODEL_VISIBLE_CONTENT_ITEMS {
        let index = match last_media(kept) {
            Some(index) => index,
            None => kept.len() - 1,
        };
        fewer_items_fit(kept, index, limit);
    }
}

/// An output that fits is not changed.
pub proof fn fitting_items_unchanged(payload: PayloadModel, limit: int)
    requires
        payload.body matches BodyModel::ContentItems(items) && items.len()
            <= MAX_MODEL_VISIBLE_CONTENT_ITEMS && items_fit(items, limit),
    ensures
        fitted(payload, limit) == payload,
{
    let items = payload.body->ContentItems_0;
    all_kept(items, limit);
}

proof fn all_kept(items: Seq<ItemModel>, limit: int)
    requires
        items.len() <= MAX_MODEL_VISIBLE_CONTENT_ITEMS,
        items_fit(items, limit),
    ensures
        kept_items(items, limit) == items,
    decreases items.len(),
{
    if items.len() == 0 {
        assert(items =~= kept_items(items, limit));
    } else {
        let front = items.drop_last();
        if front.len() > 0 {
            assert(front =~= items.remove(items.len() - 1));
            fewer_items_fit(items, items.len() - 1, limit);
            all_kept(front, limit);
        } else {
            assert(front =~= kept_items(front, limit));
        }
        assert(front.push(items.last()) =~= items);
    }
}

proof fn kept_items_come_from(items: Seq<ItemModel>, limit: int)
    ensures
        forall|i: int|
            0 <= i < kept_items(items, limit).len() ==> exists|j: int|
                0 <= j < items.len() && items[j] == #[trigger] kept_items(items, limit)[i],
    decreases items.len(),
{
    if items.len() > 0 {
        let front = items.drop_last();
        kept_items_come_from(front, limit);
        let before = kept_items(front, limit);
        let kept = kept_items(items, limit);
        assert forall|i: int| 0 <= i < kept.len() implies exists|j: int|
            0 <= j < items.len() && items[j] == #[trigger] kept[i] by {
            if i < before.len() {
                let j = choose|j: int| 0 <= j < front.len() && front[j] == before[i];
                assert(items[j] == kept[i]);
            } else {
                assert(items[items.len() - 1] == kept[i]);
            }
        }
    }
}

/// Every item that the model sees is one of the output's own, or the marker.
pub proof fn fitted_items_come_from(items: Seq<ItemModel>, limit: int)
    ensures
        forall|i: int|
            0 <= i < fitted_items(items, limit).len() ==> (#[trigger] fitted_items(
                items,
                limit,
            )[i]) == (ItemModel::InputText { text: omitted_marker() }) || exists|j: int|
                0 <= j < items.len() && items[j] == fitted_items(items, limit)[i],
{
    let kept = kept_items(items, limit);
    let shown = fitted_items(items, limit);
    kept_items_come_from(items, limit);
    kept_items_bound(items, limit);
    last_media_bound(kept);
    let marker = ItemModel::InputText { text: omitted_marker() };
    assert forall|i: int| 0 <= i < shown.len() && (#[trigger] shown[i]) != marker implies exists|
        j: int,
    |
        0 <= j < items.len() && items[j] == shown[i] by {
        let room = with_room(kept);
        if kept.len() < items.len() {
            assert(shown[i] == room[i]);
            if kept.len() >= MAX_MODEL_VISIBLE_CONTENT_ITEMS {
                let index = match last_media(kept) {
                    Some(index) => index,
                    None => kept.len() - 1,
                };
                let k = if i < index {
                    i
                } else {
                    i + 1
                };
                assert(room[i] == kept[k]);
                let j = choose|j: int| 0 <= j < items.len() && items[j] == kept[k];
                assert(items[j] == shown[i]);
            } else {
                let j = choose|j: int| 0 <= j < items.len() && items[j] == kept[i];
                assert(items[j] == shown[i]);
            }
        } else {
            let j = choose|j: int| 0 <= j < items.len() && items[j] == kept[i];
            assert(items[j] == shown[i]);
        }
    }
}

} // verus!
