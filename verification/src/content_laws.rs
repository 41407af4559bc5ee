//! How content items are written, what they cost, and which of them are kept.

use vstd::prelude::*;

use crate::content_items::{
    body_json, data_payload, detail_name, encrypted_cost, fitted, fitted_items, item_json,
    items_fit, items_json, kept_items, last_media, media_bytes, media_cost, total_media_bytes,
    total_media_cost, visible_bytes, with_room,
};
use crate::json::{
    is_plain, json_string, members_text, object_text, plain_text_is_kept, value_text, JsonModel,
    Members,
};
use crate::protocol::{BodyModel, ImageDetail, ItemModel, PayloadModel};
use crate::text::{position, position_is_first, utf8_len};
use crate::tool_output::structured_error;

verus! {

proof fn two_members(a: (Seq<char>, JsonModel), b: (Seq<char>, JsonModel))
    ensures
        object_text(seq![a, b]) == seq!['{'] + json_string(a.0) + seq![':']
            + value_text(a.1) + seq![','] + json_string(b.0) + seq![':']
            + value_text(b.1) + seq!['}'],
{
    let one: Members = seq![a];
    assert(seq![a, b].drop_last() =~= one);
    assert(one.drop_last() =~= Seq::<(Seq<char>, JsonModel)>::empty());
    reveal_with_fuel(members_text, 3);
    assert(seq![a, b].last() == b && one.last() == a);
    assert(members_text(one) =~= json_string(a.0) + seq![':'] + value_text(a.1));
    let (p, q, r, s) = (
        json_string(a.0),
        value_text(a.1),
        json_string(b.0),
        value_text(b.1),
    );
    assert(members_text(seq![a, b]) =~= p + seq![':'] + q + seq![','] + r + seq![':'] + s);
    assert(object_text(seq![a, b]) =~= seq!['{'] + p + seq![':'] + q + seq![','] + r + seq![':'] + s
        + seq!['}']);
}

proof fn plain_json(text: Seq<char>)
    requires
        is_plain(text),
    ensures
        json_string(text) == seq!['"'] + text + seq!['"'],
{
    plain_text_is_kept(text);
}

proof fn text_item_written(value: Seq<char>)
    ensures
        "{\"type\":\"input_text\",\"text\":"@ + json_string(value) + "}"@ == object_text(
            seq![("type"@, JsonModel::Text("input_text"@)), ("text"@, JsonModel::Text(value))],
        ),
{
    two_members(("type"@, JsonModel::Text("input_text"@)), ("text"@, JsonModel::Text(value)));
    reveal_strlit("{\"type\":\"input_text\",\"text\":");
    reveal_strlit("type");
    reveal_strlit("input_text");
    reveal_strlit("text");
    reveal_strlit("}");
    plain_json("type"@);
    plain_json("input_text"@);
    plain_json("text"@);
    assert("{\"type\":\"input_text\",\"text\":"@ =~= seq!['{'] + json_string("type"@) + seq![':'] + json_string("input_text"@)
        + seq![','] + json_string("text"@) + seq![':']);
    assert("}"@ =~= seq!['}']);
}

proof fn image_item_written(value: Seq<char>)
    ensures
        "{\"type\":\"input_image\",\"image_url\":"@ + json_string(value) + "}"@ == object_text(
            seq![("type"@, JsonModel::Text("input_image"@)), ("image_url"@, JsonModel::Text(value))],
        ),
{
    two_members(("type"@, JsonModel::Text("input_image"@)), ("image_url"@, JsonModel::Text(value)));
    reveal_strlit("{\"type\":\"input_image\",\"image_url\":");
    reveal_strlit("type");
    reveal_strlit("input_image");
    reveal_strlit("image_url");
    reveal_strlit("}");
    plain_json("type"@);
    plain_json("input_image"@);
    plain_json("image_url"@);
    assert("{\"type\":\"input_image\",\"image_url\":"@ =~= seq!['{'] + json_string("type"@) + seq![':'] + json_string("input_image"@)
        + seq![','] + json_string("image_url"@) + seq![':']);
    assert("}"@ =~= seq!['}']);
}

proof fn audio_item_written(value: Seq<char>)
    ensures
        "{\"type\":\"input_audio\",\"audio_url\":"@ + json_string(value) + "}"@ == object_text(
            seq![("type"@, JsonModel::Text("input_audio"@)), ("audio_url"@, JsonModel::Text(value))],
        ),
{
    two_members(("type"@, JsonModel::Text("input_audio"@)), ("audio_url"@, JsonModel::Text(value)));
    reveal_strlit("{\"type\":\"input_audio\",\"audio_url\":");
    reveal_strlit("type");
    reveal_strlit("input_audio");
    reveal_strlit("audio_url");
    reveal_strlit("}");
    plain_json("type"@);
    plain_json("input_audio"@);
    plain_json("audio_url"@);
    assert("{\"type\":\"input_audio\",\"audio_url\":"@ =~= seq!['{'] + json_string("type"@) + seq![':'] + json_string("input_audio"@)
        + seq![','] + json_string("audio_url"@) + seq![':']);
    assert("}"@ =~= seq!['}']);
}

proof fn encrypted_item_written(value: Seq<char>)
    ensures
        "{\"type\":\"encrypted_content\",\"encrypted_content\":"@ + json_string(value) + "}"@ == object_text(
            seq![("type"@, JsonModel::Text("encrypted_content"@)), ("encrypted_content"@, JsonModel::Text(value))],
        ),
{
    two_members(("type"@, JsonModel::Text("encrypted_content"@)), ("encrypted_content"@, JsonModel::Text(value)));
    reveal_strlit("{\"type\":\"encrypted_content\",\"encrypted_content\":");
    reveal_strlit("type");
    reveal_strlit("encrypted_content");
    reveal_strlit("}");
    plain_json("type"@);
    plain_json("encrypted_content"@);
    plain_json("encrypted_content"@);
    assert("{\"type\":\"encrypted_content\",\"encrypted_content\":"@ =~= seq!['{'] + json_string("type"@) + seq![':'] + json_string("encrypted_content"@)
        + seq![','] + json_string("encrypted_content"@) + seq![':']);
    assert("}"@ =~= seq!['}']);
}

/// An item is written as a JSON object of its type and what it holds; an image says its resolution
/// behind that, where it has one. What audio is estimated to cost is not written.
pub proof fn items_are_written_as_objects(value: Seq<char>, detail: ImageDetail, tokens: usize)
    ensures
        item_json(ItemModel::InputText { text: value }) == object_text(
            seq![("type"@, JsonModel::Text("input_text"@)), ("text"@, JsonModel::Text(value))],
        ),
        item_json(ItemModel::InputImage { image_url: value, detail: None }) == object_text(
            seq![
                ("type"@, JsonModel::Text("input_image"@)),
                ("image_url"@, JsonModel::Text(value)),
            ],
        ),
        item_json(ItemModel::InputImage { image_url: value, detail: Some(detail) })
            == "{\"type\":\"input_image\",\"image_url\":"@ + json_string(value)
            + ",\"detail\":\""@ + (match detail {
            ImageDetail::Auto => "auto"@,
            ImageDetail::Low => "low"@,
            ImageDetail::High => "high"@,
            ImageDetail::Original => "original"@,
        }) + "\""@ + "}"@,
        item_json(ItemModel::InputAudio { audio_url: value, estimated_tokens: tokens })
            == object_text(
            seq![
                ("type"@, JsonModel::Text("input_audio"@)),
                ("audio_url"@, JsonModel::Text(value)),
            ],
        ),
        item_json(ItemModel::EncryptedContent { encrypted_content: value }) == object_text(
            seq![
                ("type"@, JsonModel::Text("encrypted_content"@)),
                ("encrypted_content"@, JsonModel::Text(value)),
            ],
        ),
{
    text_item_written(value);
    image_item_written(value);
    audio_item_written(value);
    encrypted_item_written(value);
    let none: Seq<char> = seq![];
    assert("{\"type\":\"input_image\",\"image_url\":"@ + json_string(value) + none + "}"@
        =~= "{\"type\":\"input_image\",\"image_url\":"@ + json_string(value) + "}"@);
    let name = detail_name(detail);
    assert("{\"type\":\"input_image\",\"image_url\":"@ + json_string(value) + (
    ",\"detail\":\""@ + name + "\""@) + "}"@ =~= "{\"type\":\"input_image\",\"image_url\":"@
        + json_string(value) + ",\"detail\":\""@ + name + "\""@ + "}"@);
}

/// A body is written as a JSON string or as an array: the items of two lists behind each other
/// stand behind each other, with one comma between them.
pub proof fn bodies_are_written(a: Seq<ItemModel>, b: Seq<ItemModel>, item: ItemModel, text: Seq<char>)
    requires
        a.len() > 0,
        b.len() > 0,
    ensures
        items_json(a + b) == items_json(a) + seq![','] + items_json(b),
        items_json(seq![item]) == item_json(item),
        items_json(seq![]) == Seq::<char>::empty(),
        body_json(BodyModel::ContentItems(a)) == seq!['['] + items_json(a) + seq![']'],
        body_json(BodyModel::Text(text)) == json_string(text),
    decreases b.len(),
{
    let none: Seq<ItemModel> = seq![];
    assert(seq![item].drop_last() =~= none);
    assert(seq![item].last() == item);
    reveal_with_fuel(items_json, 2);
    assert(items_json(seq![item]) =~= item_json(item));
    assert((a + b).drop_last() =~= a + b.drop_last());
    assert((a + b).last() == b.last());
    if b.len() == 1 {
        assert(a + b.drop_last() =~= a);
        assert(b =~= seq![b[0]]);
        assert(b.drop_last() =~= none);
        assert(items_json(a + b) =~= items_json(a) + seq![','] + items_json(b));
    } else {
        bodies_are_written(a, b.drop_last(), item, text);
        assert(items_json(a + b) =~= items_json(a) + seq![','] + items_json(b));
    }
}

/// What an item costs the model beside its text: an image of the original resolution forty
/// thousand bytes and any other image 7373, audio four bytes for each token, encrypted content the
/// least number of bytes that is at least nine sixteenths of its own, and text nothing.
pub proof fn media_costs(
    value: Seq<char>,
    detail: Option<ImageDetail>,
    tokens: usize,
    bytes: nat,
)
    requires
        tokens * 4 <= usize::MAX,
        bytes * 9 <= usize::MAX,
    ensures
        media_cost(ItemModel::InputText { text: value }) == 0,
        media_cost(ItemModel::InputImage { image_url: value, detail }) == (if detail == Some(
            ImageDetail::Original,
        ) {
            40000nat
        } else {
            7373
        }),
        media_cost(ItemModel::InputAudio { audio_url: value, estimated_tokens: tokens }) == tokens
            * 4,
        media_cost(ItemModel::EncryptedContent { encrypted_content: value }) == encrypted_cost(
            utf8_len(value),
        ),
        16 * encrypted_cost(bytes) >= 9 * bytes,
        16 * encrypted_cost(bytes) < 9 * bytes + 16,
{
}

/// The bytes of an item that do not count as text are those of its data, where it is a base64 data
/// URL of its own kind, and all of encrypted content.
pub proof fn media_is_not_text(value: Seq<char>, detail: Option<ImageDetail>, tokens: usize)
    ensures
        media_bytes(ItemModel::InputText { text: value }) == 0,
        media_bytes(ItemModel::InputImage { image_url: value, detail }) == (match data_payload(
            value,
            "image/"@,
        ) {
            Some(payload) => utf8_len(payload),
            None => 0,
        }),
        media_bytes(ItemModel::InputAudio { audio_url: value, estimated_tokens: tokens }) == (
        match data_payload(value, "audio/"@) {
            Some(payload) => utf8_len(payload),
            None => 0,
        }),
        media_bytes(ItemModel::EncryptedContent { encrypted_content: value }) == utf8_len(value),
{
}

/// What a data URL carries is everything behind its first comma; in front of it stands `data:`.
pub proof fn data_stands_behind_the_first_comma(url: Seq<char>, media: Seq<char>)
    ensures
        data_payload(url, media) matches Some(payload) ==> {
            let at = url.len() - payload.len() - 1;
            &&& 5 <= at < url.len()
            &&& url[at] == ','
            &&& payload == url.skip(at + 1)
            &&& forall|i: int| 0 <= i < at ==> #[trigger] url[i] != ','
            &&& url.take(5) == "data:"@
        },
{
    reveal_strlit("data:");
    position_is_first(url, seq![','], 0);
    if let Some(payload) = data_payload(url, media) {
        let at = position(url, seq![','], 0)->0;
        assert(url.subrange(at, at + 1)[0] == ',');
        assert forall|i: int| 0 <= i < at implies #[trigger] url[i] != ',' by {
            if url[i] == ',' {
                assert(url.subrange(i, i + 1) =~= seq![',']);
            }
        }
        assert(url.take(at).take(5) =~= url.take(5));
    }
}

/// What several items cost, or do not count as text, is the sum over them, up to the largest size.
pub proof fn media_adds_up(a: Seq<ItemModel>, b: Seq<ItemModel>, item: ItemModel)
    ensures
        total_media_cost(seq![]) == 0 && total_media_bytes(seq![]) == 0,
        media_cost(item) <= usize::MAX ==> total_media_cost(seq![item]) == media_cost(item),
        media_bytes(item) <= usize::MAX ==> total_media_bytes(seq![item]) == media_bytes(item),
        total_media_cost(a + b) == (if total_media_cost(a) + total_media_cost(b) > usize::MAX {
            usize::MAX as int
        } else {
            total_media_cost(a) + total_media_cost(b)
        }),
        total_media_bytes(a + b) == (if total_media_bytes(a) + total_media_bytes(b) > usize::MAX {
            usize::MAX as int
        } else {
            total_media_bytes(a) + total_media_bytes(b)
        }),
    decreases b.len(),
{
    let none: Seq<ItemModel> = seq![];
    assert(seq![item].drop_last() =~= none);
    assert(seq![item].last() == item);
    reveal_with_fuel(total_media_cost, 2);
    reveal_with_fuel(total_media_bytes, 2);
    if b.len() == 0 {
        assert(a + b =~= a);
    } else {
        media_adds_up(a, b.drop_last(), item);
        assert((a + b).drop_last() =~= a + b.drop_last());
        assert((a + b).last() == b.last());
    }
}

/// What an output costs the model is its JSON text, with its media at their own cost in the place
/// of their bytes, and two hundred and fifty-six bytes more.
pub proof fn outputs_cost(items: Seq<ItemModel>, text: Seq<char>)
    ensures
        utf8_len(json_string(text)) + 256 <= usize::MAX ==> visible_bytes(BodyModel::Text(text))
            == utf8_len(json_string(text)) + 256,
        ({
            let raw = utf8_len(body_json(BodyModel::ContentItems(items)));
            let (own, cost) = (total_media_bytes(items), total_media_cost(items));
            own <= raw && raw - own + cost + 256 <= usize::MAX ==> visible_bytes(
                BodyModel::ContentItems(items),
            ) == raw - own + cost + 256
        }),
{
}

/// Items fit exactly where they cost the model at most the limit and their JSON text at most 128
/// KiB.
pub proof fn items_fit_both_limits(items: Seq<ItemModel>, limit: int)
    ensures
        items_fit(items, limit) <==> visible_bytes(BodyModel::ContentItems(items)) <= limit
            && utf8_len(body_json(BodyModel::ContentItems(items))) <= 131072,
{
}

/// Items are kept one by one, each that fits behind those that were kept before it, up to
/// sixty-four; none that fits is left out.
pub proof fn fitting_items_are_kept(items: Seq<ItemModel>, item: ItemModel, limit: int)
    ensures
        kept_items(seq![], limit).len() == 0,
        ({
            let before = kept_items(items, limit);
            let after = kept_items(items.push(item), limit);
            if before.len() < 64 && items_fit(before.push(item), limit) {
                after == before.push(item)
            } else {
                after == before
            }
        }),
{
    assert(items.push(item).drop_last() =~= items);
    assert(items.push(item).last() == item);
}

proof fn last_media_is_last(items: Seq<ItemModel>)
    ensures
        (match last_media(items) {
            Some(at) => 0 <= at < items.len() && !(items[at] is InputText) && forall|i: int|
                at < i < items.len() ==> #[trigger] items[i] is InputText,
            None => forall|i: int| 0 <= i < items.len() ==> #[trigger] items[i] is InputText,
        }),
    decreases items.len(),
{
    if items.len() > 0 && items.last() is InputText {
        last_media_is_last(items.drop_last());
        assert forall|i: int| 0 <= i < items.len() - 1 implies items.drop_last()[i]
            == #[trigger] items[i] by {}
    }
}

/// Room for the marker is made only where there are sixty-four items: the last one that is not
/// text goes, or the last one where all are text; the others stay in their order.
pub proof fn room_is_made_at_the_end(items: Seq<ItemModel>)
    requires
        items.len() <= 64,
    ensures
        items.len() < 64 ==> with_room(items) == items,
        items.len() == 64 ==> exists|at: int|
            0 <= at < 64 && with_room(items) == #[trigger] items.remove(at) && (if exists|i: int|
                0 <= i < 64 && !(#[trigger] items[i] is InputText) {
                !(items[at] is InputText) && forall|i: int|
                    at < i < 64 ==> #[trigger] items[i] is InputText
            } else {
                at == 63
            }),
{
    last_media_is_last(items);
    if items.len() == 64 {
        let at: int = match last_media(items) {
            Some(index) => index,
            None => 63,
        };
        assert(with_room(items) == items.remove(at));
    }
}

/// Where some items are left out, a marker that says so stands behind the ones that are kept, if it
/// fits; where none is left out, there is no marker. An output of which nothing is left becomes a
/// structured error that is marked as a failure.
pub proof fn omissions_are_marked(items: Seq<ItemModel>, limit: int, success: Option<bool>)
    ensures
        ({
            let kept = kept_items(items, limit);
            let shown = fitted_items(items, limit);
            let room = with_room(kept);
            let marked = room.push(
                ItemModel::InputText {
                    text: "[omitted media content to stay within the model budget]"@,
                },
            );
            &&& kept.len() == items.len() ==> shown == kept
            &&& kept.len() < items.len() && room.len() < 64 && items_fit(marked, limit) ==> shown
                == marked
            &&& kept.len() < items.len() && !(room.len() < 64 && items_fit(marked, limit)) ==> shown
                == room
            &&& fitted(
                PayloadModel { body: BodyModel::ContentItems(items), success },
                limit,
            ) == (if shown.len() == 0 && items.len() > 0 {
                PayloadModel { body: BodyModel::Text(structured_error(limit)), success: Some(false) }
            } else {
                PayloadModel { body: BodyModel::ContentItems(shown), success }
            })
            &&& kept.len() <= items.len()
        }),
{
    kept_no_more(items, limit);
}

proof fn kept_no_more(items: Seq<ItemModel>, limit: int)
    ensures
        kept_items(items, limit).len() <= items.len(),
    decreases items.len(),
{
    if items.len() > 0 {
        kept_no_more(items.drop_last(), limit);
    }
}

} // verus!
