//! What the response of `read_file` says about the window that it shows.

use vstd::prelude::*;

use crate::artifact_id::{artifact_id_is_well_formed, is_hex};
use crate::json::{
    is_plain, json_string, members_text, object_text, plain_text_is_kept, value_text, JsonModel,
    Members,
};
use crate::numbers::{decimal, signed_decimal};
use crate::read_file_response::{
    bool_text, cut_window, fitted_window, fitted_window_is_exact, lies_within, response_text,
    text_digest, widest_window, ReadBounds,
};
use crate::read_file_window::{line_fragments, WindowModel};
use crate::text::utf8_len;

verus! {

/// What stands in front of the value of a member: the key as a JSON string, and a colon.
spec fn named(key: Seq<char>) -> Seq<char> {
    json_string(key) + seq![':']
}

proof fn plain_key(key: Seq<char>)
    requires
        is_plain(key),
    ensures
        named(key) == seq!['"'] + key + seq!['"', ':'],
        json_string(key) == seq!['"'] + key + seq!['"'],
{
    plain_text_is_kept(key);
    assert(named(key) =~= seq!['"'] + key + seq!['"', ':']);
}

proof fn key_type()
    ensures
        named("type"@) == "\"type\":"@,
        json_string("type"@) == "\"type\""@,
{
    reveal_strlit("type");
    reveal_strlit("\"type\":");
    reveal_strlit("\"type\"");
    plain_key("type"@);
    assert(named("type"@) =~= "\"type\":"@);
    assert(json_string("type"@) =~= "\"type\""@);
}

proof fn key_version()
    ensures
        named("version"@) == "\"version\":"@,
        json_string("version"@) == "\"version\""@,
{
    reveal_strlit("version");
    reveal_strlit("\"version\":");
    reveal_strlit("\"version\"");
    plain_key("version"@);
    assert(named("version"@) =~= "\"version\":"@);
    assert(json_string("version"@) =~= "\"version\""@);
}

proof fn key_path()
    ensures
        named("path"@) == "\"path\":"@,
        json_string("path"@) == "\"path\""@,
{
    reveal_strlit("path");
    reveal_strlit("\"path\":");
    reveal_strlit("\"path\"");
    plain_key("path"@);
    assert(named("path"@) =~= "\"path\":"@);
    assert(json_string("path"@) =~= "\"path\""@);
}

proof fn key_fingerprint()
    ensures
        named("fingerprint"@) == "\"fingerprint\":"@,
        json_string("fingerprint"@) == "\"fingerprint\""@,
{
    reveal_strlit("fingerprint");
    reveal_strlit("\"fingerprint\":");
    reveal_strlit("\"fingerprint\"");
    plain_key("fingerprint"@);
    assert(named("fingerprint"@) =~= "\"fingerprint\":"@);
    assert(json_string("fingerprint"@) =~= "\"fingerprint\""@);
}

proof fn key_size_bytes()
    ensures
        named("size_bytes"@) == "\"size_bytes\":"@,
        json_string("size_bytes"@) == "\"size_bytes\""@,
{
    reveal_strlit("size_bytes");
    reveal_strlit("\"size_bytes\":");
    reveal_strlit("\"size_bytes\"");
    plain_key("size_bytes"@);
    assert(named("size_bytes"@) =~= "\"size_bytes\":"@);
    assert(json_string("size_bytes"@) =~= "\"size_bytes\""@);
}

proof fn key_modified_at_ms()
    ensures
        named("modified_at_ms"@) == "\"modified_at_ms\":"@,
        json_string("modified_at_ms"@) == "\"modified_at_ms\""@,
{
    reveal_strlit("modified_at_ms");
    reveal_strlit("\"modified_at_ms\":");
    reveal_strlit("\"modified_at_ms\"");
    plain_key("modified_at_ms"@);
    assert(named("modified_at_ms"@) =~= "\"modified_at_ms\":"@);
    assert(json_string("modified_at_ms"@) =~= "\"modified_at_ms\""@);
}

proof fn key_window_digest()
    ensures
        named("window_digest"@) == "\"window_digest\":"@,
        json_string("window_digest"@) == "\"window_digest\""@,
{
    reveal_strlit("window_digest");
    reveal_strlit("\"window_digest\":");
    reveal_strlit("\"window_digest\"");
    plain_key("window_digest"@);
    assert(named("window_digest"@) =~= "\"window_digest\":"@);
    assert(json_string("window_digest"@) =~= "\"window_digest\""@);
}

proof fn key_window()
    ensures
        named("window"@) == "\"window\":"@,
        json_string("window"@) == "\"window\""@,
{
    reveal_strlit("window");
    reveal_strlit("\"window\":");
    reveal_strlit("\"window\"");
    plain_key("window"@);
    assert(named("window"@) =~= "\"window\":"@);
    assert(json_string("window"@) =~= "\"window\""@);
}

proof fn key_start_byte()
    ensures
        named("start_byte"@) == "\"start_byte\":"@,
        json_string("start_byte"@) == "\"start_byte\""@,
{
    reveal_strlit("start_byte");
    reveal_strlit("\"start_byte\":");
    reveal_strlit("\"start_byte\"");
    plain_key("start_byte"@);
    assert(named("start_byte"@) =~= "\"start_byte\":"@);
    assert(json_string("start_byte"@) =~= "\"start_byte\""@);
}

proof fn key_end_byte()
    ensures
        named("end_byte"@) == "\"end_byte\":"@,
        json_string("end_byte"@) == "\"end_byte\""@,
{
    reveal_strlit("end_byte");
    reveal_strlit("\"end_byte\":");
    reveal_strlit("\"end_byte\"");
    plain_key("end_byte"@);
    assert(named("end_byte"@) =~= "\"end_byte\":"@);
    assert(json_string("end_byte"@) =~= "\"end_byte\""@);
}

proof fn key_text()
    ensures
        named("text"@) == "\"text\":"@,
        json_string("text"@) == "\"text\""@,
{
    reveal_strlit("text");
    reveal_strlit("\"text\":");
    reveal_strlit("\"text\"");
    plain_key("text"@);
    assert(named("text"@) =~= "\"text\":"@);
    assert(json_string("text"@) =~= "\"text\""@);
}

proof fn key_line_fragments()
    ensures
        named("line_fragments"@) == "\"line_fragments\":"@,
        json_string("line_fragments"@) == "\"line_fragments\""@,
{
    reveal_strlit("line_fragments");
    reveal_strlit("\"line_fragments\":");
    reveal_strlit("\"line_fragments\"");
    plain_key("line_fragments"@);
    assert(named("line_fragments"@) =~= "\"line_fragments\":"@);
    assert(json_string("line_fragments"@) =~= "\"line_fragments\""@);
}

proof fn key_line_continues()
    ensures
        named("line_continues"@) == "\"line_continues\":"@,
        json_string("line_continues"@) == "\"line_continues\""@,
{
    reveal_strlit("line_continues");
    reveal_strlit("\"line_continues\":");
    reveal_strlit("\"line_continues\"");
    plain_key("line_continues"@);
    assert(named("line_continues"@) =~= "\"line_continues\":"@);
    assert(json_string("line_continues"@) =~= "\"line_continues\""@);
}

proof fn key_next_offset()
    ensures
        named("next_offset"@) == "\"next_offset\":"@,
        json_string("next_offset"@) == "\"next_offset\""@,
{
    reveal_strlit("next_offset");
    reveal_strlit("\"next_offset\":");
    reveal_strlit("\"next_offset\"");
    plain_key("next_offset"@);
    assert(named("next_offset"@) =~= "\"next_offset\":"@);
    assert(json_string("next_offset"@) =~= "\"next_offset\""@);
}

proof fn key_eof()
    ensures
        named("eof"@) == "\"eof\":"@,
        json_string("eof"@) == "\"eof\""@,
{
    reveal_strlit("eof");
    reveal_strlit("\"eof\":");
    reveal_strlit("\"eof\"");
    plain_key("eof"@);
    assert(named("eof"@) =~= "\"eof\":"@);
    assert(json_string("eof"@) =~= "\"eof\""@);
}

proof fn key_continuation()
    ensures
        named("continuation"@) == "\"continuation\":"@,
        json_string("continuation"@) == "\"continuation\""@,
{
    reveal_strlit("continuation");
    reveal_strlit("\"continuation\":");
    reveal_strlit("\"continuation\"");
    plain_key("continuation"@);
    assert(named("continuation"@) =~= "\"continuation\":"@);
    assert(json_string("continuation"@) =~= "\"continuation\""@);
}

proof fn key_file_read()
    ensures
        named("file_read"@) == "\"file_read\":"@,
        json_string("file_read"@) == "\"file_read\""@,
{
    reveal_strlit("file_read");
    reveal_strlit("\"file_read\":");
    reveal_strlit("\"file_read\"");
    plain_key("file_read"@);
    assert(named("file_read"@) =~= "\"file_read\":"@);
    assert(json_string("file_read"@) =~= "\"file_read\""@);
}

proof fn glue_head()
    ensures
        "{\"type\":\"file_read\",\"version\":1,\"path\":"@ == seq!['{'] + "\"type\":"@ + "\"file_read\""@ + seq![','] + "\"version\":"@ + seq!['1'] + seq![','] + "\"path\":"@,
{
    reveal_strlit("{\"type\":\"file_read\",\"version\":1,\"path\":");
    reveal_strlit("\"type\":");
    reveal_strlit("\"file_read\"");
    reveal_strlit("\"version\":");
    reveal_strlit("\"path\":");
    assert("{\"type\":\"file_read\",\"version\":1,\"path\":"@ =~= seq!['{'] + "\"type\":"@ + "\"file_read\""@ + seq![','] + "\"version\":"@ + seq!['1'] + seq![','] + "\"path\":"@);
}

proof fn glue_fingerprint()
    ensures
        ",\"fingerprint\":{\"size_bytes\":"@ == seq![','] + "\"fingerprint\":"@ + seq!['{'] + "\"size_bytes\":"@,
{
    reveal_strlit(",\"fingerprint\":{\"size_bytes\":");
    reveal_strlit("\"fingerprint\":");
    reveal_strlit("\"size_bytes\":");
    assert(",\"fingerprint\":{\"size_bytes\":"@ =~= seq![','] + "\"fingerprint\":"@ + seq!['{'] + "\"size_bytes\":"@);
}

proof fn glue_modified()
    ensures
        ",\"modified_at_ms\":"@ == seq![','] + "\"modified_at_ms\":"@,
{
    reveal_strlit(",\"modified_at_ms\":");
    reveal_strlit("\"modified_at_ms\":");
    assert(",\"modified_at_ms\":"@ =~= seq![','] + "\"modified_at_ms\":"@);
}

proof fn glue_digest()
    ensures
        ",\"window_digest\":\"sha256:"@ == seq![','] + "\"window_digest\":"@ + seq!['"'] + "sha256:"@,
{
    reveal_strlit(",\"window_digest\":\"sha256:");
    reveal_strlit("\"window_digest\":");
    reveal_strlit("sha256:");
    assert(",\"window_digest\":\"sha256:"@ =~= seq![','] + "\"window_digest\":"@ + seq!['"'] + "sha256:"@);
}

proof fn glue_window()
    ensures
        "\"},\"window\":{\"start_byte\":"@ == seq!['"', '}', ','] + "\"window\":"@ + seq!['{'] + "\"start_byte\":"@,
{
    reveal_strlit("\"},\"window\":{\"start_byte\":");
    reveal_strlit("\"window\":");
    reveal_strlit("\"start_byte\":");
    assert("\"},\"window\":{\"start_byte\":"@ =~= seq!['"', '}', ','] + "\"window\":"@ + seq!['{'] + "\"start_byte\":"@);
}

proof fn glue_end_byte()
    ensures
        ",\"end_byte\":"@ == seq![','] + "\"end_byte\":"@,
{
    reveal_strlit(",\"end_byte\":");
    reveal_strlit("\"end_byte\":");
    assert(",\"end_byte\":"@ =~= seq![','] + "\"end_byte\":"@);
}

proof fn glue_text()
    ensures
        ",\"text\":"@ == seq![','] + "\"text\":"@,
{
    reveal_strlit(",\"text\":");
    reveal_strlit("\"text\":");
    assert(",\"text\":"@ =~= seq![','] + "\"text\":"@);
}

proof fn glue_line_fragments()
    ensures
        ",\"line_fragments\":"@ == seq![','] + "\"line_fragments\":"@,
{
    reveal_strlit(",\"line_fragments\":");
    reveal_strlit("\"line_fragments\":");
    assert(",\"line_fragments\":"@ =~= seq![','] + "\"line_fragments\":"@);
}

proof fn glue_line_continues()
    ensures
        ",\"line_continues\":"@ == seq![','] + "\"line_continues\":"@,
{
    reveal_strlit(",\"line_continues\":");
    reveal_strlit("\"line_continues\":");
    assert(",\"line_continues\":"@ =~= seq![','] + "\"line_continues\":"@);
}

proof fn glue_eof()
    ensures
        ",\"eof\":"@ == seq![','] + "\"eof\":"@,
{
    reveal_strlit(",\"eof\":");
    reveal_strlit("\"eof\":");
    assert(",\"eof\":"@ =~= seq![','] + "\"eof\":"@);
}

proof fn glue_continuation()
    ensures
        ",\"continuation\":"@ == seq![','] + "\"continuation\":"@,
{
    reveal_strlit(",\"continuation\":");
    reveal_strlit("\"continuation\":");
    assert(",\"continuation\":"@ =~= seq![','] + "\"continuation\":"@);
}

proof fn glue_next()
    ensures
        "},\"next_offset\":"@ == seq!['}', ','] + "\"next_offset\":"@,
{
    reveal_strlit("},\"next_offset\":");
    reveal_strlit("\"next_offset\":");
    assert("},\"next_offset\":"@ =~= seq!['}', ','] + "\"next_offset\":"@);
}

proof fn glue_hint()
    ensures
        "\"Call read_file again with offset=next_offset.\"}"@ == json_string("Call read_file again with offset=next_offset."@) + seq!['}'],
        "null}"@ == "null"@ + seq!['}'],
{
    reveal_strlit("\"Call read_file again with offset=next_offset.\"}");
    reveal_strlit("Call read_file again with offset=next_offset.");
    reveal_strlit("null}");
    reveal_strlit("null");
    plain_key("Call read_file again with offset=next_offset."@);
    assert("\"Call read_file again with offset=next_offset.\"}"@ =~= json_string("Call read_file again with offset=next_offset."@) + seq!['}']);
    assert("null}"@ =~= "null"@ + seq!['}']);
}

proof fn one_more(members: Members, key: Seq<char>, value: JsonModel)
    ensures
        members_text(members.push((key, value))) == members_text(members) + (if members.len() == 0 {
            Seq::<char>::empty()
        } else {
            seq![',']
        }) + named(key) + value_text(value),
{
    let more = members.push((key, value));
    assert(more.drop_last() =~= members);
    assert(more.last() == (key, value));
    let comma: Seq<char> = if members.len() == 0 {
        Seq::<char>::empty()
    } else {
        seq![',']
    };
    assert(members_text(more) =~= members_text(members) + comma + json_string(key) + seq![':']
        + value_text(value));
    assert(members_text(more) =~= members_text(members) + comma + named(key) + value_text(value));
}

proof fn grown(members: Members, key: Seq<char>, value: JsonModel)
    requires
        members.len() > 0,
    ensures
        members_text(members.push((key, value))) == members_text(members) + (seq![','] + named(key)
            + value_text(value)),
{
    one_more(members, key, value);
    assert(members_text(members) + seq![','] + named(key) + value_text(value) =~= members_text(
        members,
    ) + (seq![','] + named(key) + value_text(value)));
}

/// The members of the fingerprint in a response.
spec fn fingerprint_members(
    file_size: nat,
    modified_at_ms: int,
    text: Seq<char>,
) -> Members {
    seq![
        ("size_bytes"@, JsonModel::Unsigned(file_size as u64)),
        ("modified_at_ms"@, JsonModel::Raw(signed_decimal(modified_at_ms))),
        ("window_digest"@, JsonModel::Text("sha256:"@ + text_digest(text))),
    ]
}

/// The members of the window in a response.
spec fn window_members(window: WindowModel) -> Members {
    seq![
        ("start_byte"@, JsonModel::Unsigned(window.start_byte as u64)),
        ("end_byte"@, JsonModel::Unsigned(window.end_byte as u64)),
        ("text"@, JsonModel::Text(window.text)),
        ("line_fragments"@, JsonModel::Unsigned(window.line_fragments as u64)),
        ("line_continues"@, JsonModel::Bool(window.line_continues)),
    ]
}

proof fn digest_text(text: Seq<char>)
    ensures
        json_string("sha256:"@ + text_digest(text)) == seq!['"'] + "sha256:"@ + text_digest(text)
            + seq!['"'],
{
    reveal_strlit("sha256:");
    artifact_id_is_well_formed(text);
    let digest = "sha256:"@ + text_digest(text);
    assert forall|i: int| 0 <= i < digest.len() implies (#[trigger] digest[i]) as u32 >= 0x20
        && digest[i] != '"' && digest[i] != '\\' by {
        if i >= 7 {
            assert(digest[i] == text_digest(text)[i - 7]);
            assert(is_hex(crate::artifact_id::artifact_id_of(text)[i - 3]));
        }
    }
    plain_key(digest);
    assert(json_string(digest) =~= seq!['"'] + "sha256:"@ + text_digest(text) + seq!['"']);
}

proof fn fingerprint_is_written(file_size: nat, modified_at_ms: int, text: Seq<char>)
    requires
        file_size <= u64::MAX,
    ensures
        seq![','] + named("fingerprint"@) + object_text(
            fingerprint_members(file_size, modified_at_ms, text),
        ) == ",\"fingerprint\":{\"size_bytes\":"@ + decimal(file_size) + ",\"modified_at_ms\":"@
            + signed_decimal(modified_at_ms) + ",\"window_digest\":\"sha256:"@ + text_digest(text)
            + seq!['"', '}'],
{
    let none: Members = seq![];
    let (a, b, c) = (
        ("size_bytes"@, JsonModel::Unsigned(file_size as u64)),
        ("modified_at_ms"@, JsonModel::Raw(signed_decimal(modified_at_ms))),
        ("window_digest"@, JsonModel::Text("sha256:"@ + text_digest(text))),
    );
    one_more(none, a.0, a.1);
    one_more(none.push(a), b.0, b.1);
    one_more(none.push(a).push(b), c.0, c.1);
    assert(none.push(a).push(b).push(c) =~= fingerprint_members(file_size, modified_at_ms, text));
    assert(members_text(none) =~= Seq::<char>::empty());
    key_fingerprint();
    key_size_bytes();
    key_modified_at_ms();
    key_window_digest();
    glue_fingerprint();
    glue_modified();
    glue_digest();
    digest_text(text);
    let (x, y, z) = (decimal(file_size), signed_decimal(modified_at_ms), text_digest(text));
    let front = seq![','] + named("fingerprint"@);
    let open = front + seq!['{'];
    let i1 = members_text(none.push(a));
    let i2 = members_text(none.push(a).push(b));
    let i3 = members_text(fingerprint_members(file_size, modified_at_ms, text));
    assert(i1 =~= named("size_bytes"@) + x);
    shift(open, named("size_bytes"@), x);
    step(open, i1, named("modified_at_ms"@), y);
    step(open, i2, named("window_digest"@), value_text(c.1));
    enclosed(front, i3);
    let whole = open + i2;
    let key = seq![','] + named("window_digest"@);
    quoted_end(whole, key, "sha256:"@, z);
}

proof fn quoted_end(front: Seq<char>, key: Seq<char>, tag: Seq<char>, digest: Seq<char>)
    ensures
        front + key + (seq!['"'] + tag + digest + seq!['"']) + seq!['}'] == front + (key + seq!['"']
            + tag) + digest + seq!['"', '}'],
{
    assert(front + key + (seq!['"'] + tag + digest + seq!['"']) + seq!['}'] =~= front + (key
        + seq!['"'] + tag) + digest + seq!['"', '}']);
}

proof fn window_is_written(window: WindowModel)
    requires
        window.start_byte <= u64::MAX,
        window.end_byte <= u64::MAX,
        window.line_fragments <= u64::MAX,
    ensures
        seq!['"', '}', ','] + named("window"@) + object_text(window_members(window))
            == "\"},\"window\":{\"start_byte\":"@ + decimal(window.start_byte)
            + ",\"end_byte\":"@ + decimal(window.end_byte) + ",\"text\":"@ + json_string(
            window.text,
        ) + ",\"line_fragments\":"@ + decimal(window.line_fragments) + ",\"line_continues\":"@
            + bool_text(window.line_continues) + seq!['}'],
{
    let none: Members = seq![];
    let (a, b, c, d, e) = (
        ("start_byte"@, JsonModel::Unsigned(window.start_byte as u64)),
        ("end_byte"@, JsonModel::Unsigned(window.end_byte as u64)),
        ("text"@, JsonModel::Text(window.text)),
        ("line_fragments"@, JsonModel::Unsigned(window.line_fragments as u64)),
        ("line_continues"@, JsonModel::Bool(window.line_continues)),
    );
    one_more(none, a.0, a.1);
    one_more(none.push(a), b.0, b.1);
    one_more(none.push(a).push(b), c.0, c.1);
    one_more(none.push(a).push(b).push(c), d.0, d.1);
    one_more(none.push(a).push(b).push(c).push(d), e.0, e.1);
    assert(none.push(a).push(b).push(c).push(d).push(e) =~= window_members(window));
    assert(members_text(none) =~= Seq::<char>::empty());
    key_window();
    key_start_byte();
    key_end_byte();
    key_text();
    key_line_fragments();
    key_line_continues();
    glue_window();
    glue_end_byte();
    glue_text();
    glue_line_fragments();
    glue_line_continues();
    let (u, v, w, x, y) = (
        decimal(window.start_byte),
        decimal(window.end_byte),
        json_string(window.text),
        decimal(window.line_fragments),
        bool_text(window.line_continues),
    );
    let front = seq!['"', '}', ','] + named("window"@);
    let open = front + seq!['{'];
    let i1 = members_text(none.push(a));
    let i2 = members_text(none.push(a).push(b));
    let i3 = members_text(none.push(a).push(b).push(c));
    let i4 = members_text(none.push(a).push(b).push(c).push(d));
    let i5 = members_text(window_members(window));
    assert(i1 =~= named("start_byte"@) + u);
    shift(open, named("start_byte"@), u);
    step(open, i1, named("end_byte"@), v);
    step(open, i2, named("text"@), w);
    step(open, i3, named("line_fragments"@), x);
    step(open, i4, named("line_continues"@), y);
    enclosed(front, i5);
}

proof fn shift(front: Seq<char>, middle: Seq<char>, last: Seq<char>)
    ensures
        front + (middle + last) == (front + middle) + last,
{
    assert(front + (middle + last) =~= (front + middle) + last);
}

proof fn step(front: Seq<char>, inner: Seq<char>, key: Seq<char>, value: Seq<char>)
    ensures
        front + (inner + seq![','] + key + value) == (front + inner) + (seq![','] + key) + value,
{
    assert(front + (inner + seq![','] + key + value) =~= (front + inner) + (seq![','] + key)
        + value);
}

proof fn enclosed(front: Seq<char>, inner: Seq<char>)
    ensures
        front + (seq!['{'] + inner + seq!['}']) == (front + seq!['{']) + inner + seq!['}'],
{
    assert(front + (seq!['{'] + inner + seq!['}']) =~= (front + seq!['{']) + inner + seq!['}']);
}

proof fn chain_of_six(
    front: Seq<char>,
    a: Seq<char>,
    b: Seq<char>,
    c: Seq<char>,
    d: Seq<char>,
    e: Seq<char>,
    f: Seq<char>,
)
    ensures
        front + (a + b + c + d + e + f) == front + a + b + c + d + e + f,
{
    shift(front, a + b + c + d + e, f);
    shift(front, a + b + c + d, e);
    shift(front, a + b + c, d);
    shift(front, a + b, c);
    shift(front, a, b);
}

proof fn chain_of_ten(
    front: Seq<char>,
    a: Seq<char>,
    b: Seq<char>,
    c: Seq<char>,
    d: Seq<char>,
    e: Seq<char>,
    f: Seq<char>,
    g: Seq<char>,
    h: Seq<char>,
    i: Seq<char>,
    j: Seq<char>,
)
    ensures
        front + (a + b + c + d + e + f + g + h + i + j) == front + a + b + c + d + e + f + g + h + i
            + j,
{
    shift(front, a + b + c + d + e + f + g + h + i, j);
    shift(front, a + b + c + d + e + f + g + h, i);
    shift(front, a + b + c + d + e + f + g, h);
    shift(front, a + b + c + d + e + f, g);
    chain_of_six(front, a, b, c, d, e, f);
}

/// The parts of a response and of the object that it is: `front` up to the path, the fingerprint
/// and the window without their ends, and what stands behind them.
proof fn parts_join(
    front: Seq<char>,
    head: Seq<char>,
    printed: Seq<char>,
    fingerprint: Seq<char>,
    seen: Seq<char>,
    shown: Seq<char>,
    next: Seq<char>,
    eof: Seq<char>,
    hint: Seq<char>,
)
    requires
        front == seq!['{'] + head,
        fingerprint == printed + seq!['"', '}'],
        seq!['"', '}'] + shown == seen + seq!['}'],
    ensures
        seq!['{'] + (head + fingerprint + shown + next + eof + hint) + seq!['}'] == front + printed
            + seen + (seq!['}'] + next) + eof + (hint + seq!['}']),
{
    let (x, y) = (seq!['"', '}'], seq!['}']);
    assert(seq!['{'] + (head + fingerprint + shown + next + eof + hint) + y =~= front + fingerprint
        + shown + next + eof + hint + y);
    assert(front + fingerprint + shown =~= front + printed + (x + shown));
    assert(front + printed + (seen + y) =~= front + printed + seen + y);
    let whole = front + printed + seen;
    assert(whole + y + next + eof + hint + y =~= whole + (y + next) + eof + (hint + y));
}

/// The response is the JSON text of an object that names the path, the fingerprint of the file and
/// of the text, the window with its bytes, its text and its lines, and where to read on: its
/// `next_offset` is that of the window, and null where the window has none.
pub proof fn response_is_an_object(
    path: Seq<char>,
    file_size: nat,
    modified_at_ms: int,
    window: WindowModel,
)
    requires
        file_size <= u64::MAX,
        window.start_byte <= u64::MAX,
        window.end_byte <= u64::MAX,
        window.line_fragments <= u64::MAX,
        window.next_offset matches Some(offset) ==> offset <= u64::MAX,
    ensures
        response_text(path, file_size, modified_at_ms, window) == object_text(
            seq![
                ("type"@, JsonModel::Text("file_read"@)),
                ("version"@, JsonModel::Unsigned(1)),
                ("path"@, JsonModel::Text(path)),
                (
                    "fingerprint"@,
                    JsonModel::Raw(
                        object_text(
                            seq![
                                ("size_bytes"@, JsonModel::Unsigned(file_size as u64)),
                                ("modified_at_ms"@, JsonModel::Raw(signed_decimal(modified_at_ms))),
                                (
                                    "window_digest"@,
                                    JsonModel::Text("sha256:"@ + text_digest(window.text)),
                                ),
                            ],
                        ),
                    ),
                ),
                (
                    "window"@,
                    JsonModel::Raw(
                        object_text(
                            seq![
                                ("start_byte"@, JsonModel::Unsigned(window.start_byte as u64)),
                                ("end_byte"@, JsonModel::Unsigned(window.end_byte as u64)),
                                ("text"@, JsonModel::Text(window.text)),
                                (
                                    "line_fragments"@,
                                    JsonModel::Unsigned(window.line_fragments as u64),
                                ),
                                ("line_continues"@, JsonModel::Bool(window.line_continues)),
                            ],
                        ),
                    ),
                ),
                (
                    "next_offset"@,
                    match window.next_offset {
                        Some(offset) => JsonModel::Unsigned(offset as u64),
                        None => JsonModel::Null,
                    },
                ),
                ("eof"@, JsonModel::Bool(window.eof)),
                (
                    "continuation"@,
                    match window.next_offset {
                        Some(_) => JsonModel::Text(
                            "Call read_file again with offset=next_offset."@,
                        ),
                        None => JsonModel::Null,
                    },
                ),
            ],
        ),
{
    response_is_written(path, file_size, modified_at_ms, window);
    let print = fingerprint_members(file_size, modified_at_ms, window.text);
    assert(print =~= seq![
        ("size_bytes"@, JsonModel::Unsigned(file_size as u64)),
        ("modified_at_ms"@, JsonModel::Raw(signed_decimal(modified_at_ms))),
        ("window_digest"@, JsonModel::Text("sha256:"@ + text_digest(window.text))),
    ]);
    let whole: Members = seq![
            ("type"@, JsonModel::Text("file_read"@)),
            ("version"@, JsonModel::Unsigned(1)),
            ("path"@, JsonModel::Text(path)),
            (
                "fingerprint"@,
                JsonModel::Raw(
                    object_text(
                        seq![
                            ("size_bytes"@, JsonModel::Unsigned(file_size as u64)),
                            ("modified_at_ms"@, JsonModel::Raw(signed_decimal(modified_at_ms))),
                            (
                                "window_digest"@,
                                JsonModel::Text("sha256:"@ + text_digest(window.text)),
                            ),
                        ],
                    ),
                ),
            ),
            (
                "window"@,
                JsonModel::Raw(
                    object_text(
                        seq![
                            ("start_byte"@, JsonModel::Unsigned(window.start_byte as u64)),
                            ("end_byte"@, JsonModel::Unsigned(window.end_byte as u64)),
                            ("text"@, JsonModel::Text(window.text)),
                            (
                                "line_fragments"@,
                                JsonModel::Unsigned(window.line_fragments as u64),
                            ),
                            ("line_continues"@, JsonModel::Bool(window.line_continues)),
                        ],
                    ),
                ),
            ),
            (
                "next_offset"@,
                match window.next_offset {
                    Some(offset) => JsonModel::Unsigned(offset as u64),
                    None => JsonModel::Null,
                },
            ),
            ("eof"@, JsonModel::Bool(window.eof)),
            (
                "continuation"@,
                match window.next_offset {
                    Some(_) => JsonModel::Text(
                        "Call read_file again with offset=next_offset."@,
                    ),
                    None => JsonModel::Null,
                },
            ),
        ];
    assert(response_members(path, file_size, modified_at_ms, window) =~= whole);
}

spec fn next_value(window: WindowModel) -> JsonModel {
    match window.next_offset {
        Some(offset) => JsonModel::Unsigned(offset as u64),
        None => JsonModel::Null,
    }
}

spec fn hint_value(window: WindowModel) -> JsonModel {
    match window.next_offset {
        Some(_) => JsonModel::Text("Call read_file again with offset=next_offset."@),
        None => JsonModel::Null,
    }
}

spec fn head_members(path: Seq<char>) -> Members {
    seq![
        ("type"@, JsonModel::Text("file_read"@)),
        ("version"@, JsonModel::Unsigned(1)),
        ("path"@, JsonModel::Text(path)),
    ]
}

spec fn response_members(
    path: Seq<char>,
    file_size: nat,
    modified_at_ms: int,
    window: WindowModel,
) -> Members {
    let print = object_text(fingerprint_members(file_size, modified_at_ms, window.text));
    head_members(path).push(("fingerprint"@, JsonModel::Raw(print))).push(
        ("window"@, JsonModel::Raw(object_text(window_members(window)))),
    ).push(("next_offset"@, next_value(window))).push(("eof"@, JsonModel::Bool(window.eof))).push(
        ("continuation"@, hint_value(window)),
    )
}

spec fn printed_part(file_size: nat, modified_at_ms: int, text: Seq<char>) -> Seq<char> {
    ",\"fingerprint\":{\"size_bytes\":"@ + decimal(file_size) + ",\"modified_at_ms\":"@
        + signed_decimal(modified_at_ms) + ",\"window_digest\":\"sha256:"@ + text_digest(text)
}

spec fn seen_part(window: WindowModel) -> Seq<char> {
    "\"},\"window\":{\"start_byte\":"@ + decimal(window.start_byte) + ",\"end_byte\":"@ + decimal(
        window.end_byte,
    ) + ",\"text\":"@ + json_string(window.text) + ",\"line_fragments\":"@ + decimal(
        window.line_fragments,
    ) + ",\"line_continues\":"@ + bool_text(window.line_continues)
}

spec fn front_part(path: Seq<char>) -> Seq<char> {
    "{\"type\":\"file_read\",\"version\":1,\"path\":"@ + json_string(path)
}

proof fn object_is_written(
    path: Seq<char>,
    file_size: nat,
    modified_at_ms: int,
    window: WindowModel,
)
    requires
        file_size <= u64::MAX,
        window.start_byte <= u64::MAX,
        window.end_byte <= u64::MAX,
        window.line_fragments <= u64::MAX,
    ensures
        object_text(response_members(path, file_size, modified_at_ms, window)) == front_part(path)
            + printed_part(file_size, modified_at_ms, window.text) + seen_part(window) + (seq!['}']
            + (seq![','] + named("next_offset"@) + value_text(next_value(window)))) + (seq![',']
            + named("eof"@) + bool_text(window.eof)) + (seq![','] + named("continuation"@)
            + value_text(hint_value(window)) + seq!['}']),
{
    let print = object_text(fingerprint_members(file_size, modified_at_ms, window.text));
    let shown = object_text(window_members(window));
    response_head(path);
    response_tail(path, print, shown, next_value(window), window.eof, hint_value(window));
    fingerprint_is_written(file_size, modified_at_ms, window.text);
    window_is_written(window);
    let (k, v) = (named("window"@), shown);
    assert(seq!['"', '}'] + (seq![','] + k + v) == seq!['"', '}', ','] + k + v) by {
        assert(seq!['"', '}'] + (seq![','] + k + v) =~= seq!['"', '}', ','] + k + v);
    }
    parts_join(
        front_part(path),
        members_text(head_members(path)),
        printed_part(file_size, modified_at_ms, window.text),
        seq![','] + named("fingerprint"@) + print,
        seen_part(window),
        seq![','] + k + v,
        seq![','] + named("next_offset"@) + value_text(next_value(window)),
        seq![','] + named("eof"@) + bool_text(window.eof),
        seq![','] + named("continuation"@) + value_text(hint_value(window)),
    );
}

proof fn response_is_written(
    path: Seq<char>,
    file_size: nat,
    modified_at_ms: int,
    window: WindowModel,
)
    requires
        file_size <= u64::MAX,
        window.start_byte <= u64::MAX,
        window.end_byte <= u64::MAX,
        window.line_fragments <= u64::MAX,
        window.next_offset matches Some(offset) ==> offset <= u64::MAX,
    ensures
        response_text(path, file_size, modified_at_ms, window) == object_text(
            response_members(path, file_size, modified_at_ms, window),
        ),
{
    let base = front_part(path) + printed_part(file_size, modified_at_ms, window.text) + seen_part(
        window,
    );
    let (n, e, h) = (
        value_text(next_value(window)),
        bool_text(window.eof),
        value_text(hint_value(window)),
    );
    object_is_written(path, file_size, modified_at_ms, window);
    glue_hint();
    response_parts(
        path,
        file_size,
        modified_at_ms,
        window,
        front_part(path),
        printed_part(file_size, modified_at_ms, window.text),
        seen_part(window),
        n,
        e,
        h,
    );
    key_next_offset();
    glue_next();
    let k = named("next_offset"@);
    assert(seq!['}'] + (seq![','] + k + n) == seq!['}', ','] + k + n) by {
        assert(seq!['}'] + (seq![','] + k + n) =~= seq!['}', ','] + k + n);
    }
    ends_match(base, n, e, h);
}

proof fn ends_match(base: Seq<char>, next: Seq<char>, eof: Seq<char>, hint: Seq<char>)
    ensures
        base + ("},\"next_offset\":"@ + next) + (seq![','] + named("eof"@) + eof) + (seq![',']
            + named("continuation"@) + hint + seq!['}']) == base + "},\"next_offset\":"@ + next
            + ",\"eof\":"@ + eof + ",\"continuation\":"@ + (hint + seq!['}']),
{
    key_eof();
    key_continuation();
    glue_eof();
    glue_continuation();
    let l = "},\"next_offset\":"@;
    let (m, o) = (",\"eof\":"@, ",\"continuation\":"@);
    shift(base, l, next);
    shift(base + l + next, m, eof);
    shift(base + l + next + m + eof, o, hint + seq!['}']);
    shift(o, hint, seq!['}']);
}

proof fn response_parts(
    path: Seq<char>,
    file_size: nat,
    modified_at_ms: int,
    window: WindowModel,
    front: Seq<char>,
    printed: Seq<char>,
    seen: Seq<char>,
    next: Seq<char>,
    eof: Seq<char>,
    hint: Seq<char>,
)
    requires
        front == "{\"type\":\"file_read\",\"version\":1,\"path\":"@ + json_string(path),
        printed == ",\"fingerprint\":{\"size_bytes\":"@ + decimal(file_size)
            + ",\"modified_at_ms\":"@ + signed_decimal(modified_at_ms)
            + ",\"window_digest\":\"sha256:"@ + text_digest(window.text),
        seen == "\"},\"window\":{\"start_byte\":"@ + decimal(window.start_byte)
            + ",\"end_byte\":"@ + decimal(window.end_byte) + ",\"text\":"@ + json_string(
            window.text,
        ) + ",\"line_fragments\":"@ + decimal(window.line_fragments) + ",\"line_continues\":"@
            + bool_text(window.line_continues),
        next == (match window.next_offset {
            Some(offset) => decimal(offset),
            None => "null"@,
        }),
        eof == bool_text(window.eof),
        hint + seq!['}'] == (match window.next_offset {
            Some(_) => "\"Call read_file again with offset=next_offset.\"}"@,
            None => "null}"@,
        }),
    ensures
        response_text(path, file_size, modified_at_ms, window) == front + printed + seen
            + "},\"next_offset\":"@ + next + ",\"eof\":"@ + eof + ",\"continuation\":"@ + (hint
            + seq!['}']),
{
    reveal(response_text);
    chain_of_six(
        front,
        ",\"fingerprint\":{\"size_bytes\":"@,
        decimal(file_size),
        ",\"modified_at_ms\":"@,
        signed_decimal(modified_at_ms),
        ",\"window_digest\":\"sha256:"@,
        text_digest(window.text),
    );
    chain_of_ten(
        front + printed,
        "\"},\"window\":{\"start_byte\":"@,
        decimal(window.start_byte),
        ",\"end_byte\":"@,
        decimal(window.end_byte),
        ",\"text\":"@,
        json_string(window.text),
        ",\"line_fragments\":"@,
        decimal(window.line_fragments),
        ",\"line_continues\":"@,
        bool_text(window.line_continues),
    );
}

proof fn response_head(path: Seq<char>)
    ensures
        seq!['{'] + members_text(head_members(path)) == "{\"type\":\"file_read\",\"version\":1,\"path\":"@ + json_string(path),
{
    let none: Members = seq![];
    let (a, b, c) = (
        ("type"@, JsonModel::Text("file_read"@)),
        ("version"@, JsonModel::Unsigned(1)),
        ("path"@, JsonModel::Text(path)),
    );
    one_more(none, a.0, a.1);
    one_more(none.push(a), b.0, b.1);
    one_more(none.push(a).push(b), c.0, c.1);
    assert(none.push(a).push(b).push(c) =~= head_members(path));
    assert(members_text(none) =~= Seq::<char>::empty());
    assert(decimal(1) =~= seq!['1']);
    key_type();
    key_version();
    key_path();
    key_file_read();
    glue_head();
    let (k, l, m, f, p) = (
        named("type"@),
        named("version"@),
        named("path"@),
        json_string("file_read"@),
        json_string(path),
    );
    assert(seq!['{'] + members_text(head_members(path)) =~= seq!['{'] + k + f + seq![','] + l + seq!['1']
        + seq![','] + m + p);
}

#[verifier::rlimit(50)]
proof fn response_tail(
    path: Seq<char>,
    print: Seq<char>,
    shown: Seq<char>,
    next: JsonModel,
    eof: bool,
    hint: JsonModel,
)
    ensures
        ({
            let head = head_members(path);
            let whole = head.push(("fingerprint"@, JsonModel::Raw(print))).push(
                ("window"@, JsonModel::Raw(shown)),
            ).push(("next_offset"@, next)).push(("eof"@, JsonModel::Bool(eof))).push(
                ("continuation"@, hint),
            );
            members_text(whole) == members_text(head) + (seq![','] + named("fingerprint"@) + print)
                + (seq![','] + named("window"@) + shown) + (seq![','] + named("next_offset"@)
                + value_text(next)) + (seq![','] + named("eof"@) + bool_text(eof)) + (seq![',']
                + named("continuation"@) + value_text(hint))
        }),
{
    let head = head_members(path);
    let a = head.push(("fingerprint"@, JsonModel::Raw(print)));
    let b = a.push(("window"@, JsonModel::Raw(shown)));
    let c = b.push(("next_offset"@, next));
    let d = c.push(("eof"@, JsonModel::Bool(eof)));
    grown(head, "fingerprint"@, JsonModel::Raw(print));
    grown(a, "window"@, JsonModel::Raw(shown));
    grown(b, "next_offset"@, next);
    grown(c, "eof"@, JsonModel::Bool(eof));
    grown(d, "continuation"@, hint);
}

/// Where a window of a file names an offset to read on at, it is its end, which lies behind its
/// start by the bytes of its text: reading on there gives the bytes directly behind the window.
/// Only a window that reaches the end of the file names none.
pub proof fn windows_go_on_at_their_end(window: WindowModel, file_size: nat)
    requires
        lies_within(window, file_size),
    ensures
        (match window.next_offset {
            Some(offset) => offset == window.end_byte && offset == window.start_byte + utf8_len(
                window.text,
            ) && offset < file_size && !window.eof,
            None => window.eof && window.start_byte + utf8_len(window.text) == file_size,
        }),
{
}

/// A window that is cut holds the first characters of its text from the same byte on, ends behind
/// them, and goes on there unless that is the end of the file. Its line continues where the text
/// does not end with a line end and the file goes on.
pub proof fn cut_windows_go_on_at_their_end(window: WindowModel, count: int, file_size: nat)
    requires
        0 <= count <= window.text.len(),
    ensures
        ({
            let cut = cut_window(window, count, file_size);
            &&& cut.text.len() == count && cut.text == window.text.subrange(0, count)
            &&& cut.start_byte == window.start_byte
            &&& cut.end_byte == window.start_byte + utf8_len(cut.text)
            &&& cut.line_fragments == line_fragments(cut.text)
            &&& cut.eof <==> cut.end_byte >= file_size
            &&& cut.next_offset == (if cut.eof {
                None
            } else {
                Some(cut.end_byte)
            })
            &&& cut.line_continues <==> !cut.eof && !(cut.text.len() > 0 && cut.text.last()
                == '\n')
            &&& lies_within(window, file_size) ==> lies_within(cut, file_size)
        }),
{
    let cut = cut_window(window, count, file_size);
    assert(cut.text =~= window.text.subrange(0, count));
    crate::text::utf8_len_prefix(window.text, count);
}

/// The model sees as many bytes as the request allows, and never more than eight KiB.
pub proof fn model_sees_at_most(bounds: ReadBounds)
    ensures
        bounds.spec_model_max_bytes() <= 8192,
        bounds.max_bytes <= 8192 ==> bounds.spec_model_max_bytes() == bounds.max_bytes,
        bounds.max_bytes > 8192 ==> bounds.spec_model_max_bytes() == 8192,
{
}

/// The response that is measured without text holds the longest metadata: no window from the same
/// byte on with at most so many lines has longer numbers.
pub proof fn measured_window_is_the_widest(start_byte: u64, max_lines: usize, window: WindowModel)
    requires
        window.end_byte <= u64::MAX,
        window.line_fragments <= max_lines,
        window.next_offset matches Some(offset) ==> offset <= u64::MAX,
    ensures
        ({
            let widest = widest_window(start_byte, max_lines);
            &&& widest.start_byte == start_byte
            &&& widest.text.len() == 0
            &&& decimal(window.end_byte).len() <= decimal(widest.end_byte).len()
            &&& decimal(window.line_fragments).len() <= decimal(widest.line_fragments).len()
            &&& widest.next_offset is Some
            &&& window.next_offset matches Some(offset) ==> decimal(offset).len() <= decimal(
                widest.next_offset->0,
            ).len()
            &&& widest.line_continues && !widest.eof
        }),
{
    let widest = widest_window(start_byte, max_lines);
    crate::numbers::decimal_grows(window.end_byte, widest.end_byte);
    crate::numbers::decimal_grows(window.line_fragments, widest.line_fragments);
    match window.next_offset {
        Some(offset) => crate::numbers::decimal_grows(offset, widest.next_offset->0),
        None => {},
    }
}

/// A window is shown whole where its response is within the size. Else it is cut; there is no
/// response exactly where not even one without text is within the size, or one with a single
/// character of a text. What is shown is within the size, and no longer start of the text is.
pub proof fn responses_are_within_their_size(
    path: Seq<char>,
    file_size: nat,
    modified_at_ms: int,
    window: WindowModel,
    max_bytes: int,
)
    requires
        lies_within(window, file_size),
    ensures
        ({
            let size = |shown: WindowModel|
                utf8_len(response_text(path, file_size, modified_at_ms, shown));
            let fitted = fitted_window(path, file_size, modified_at_ms, window, max_bytes);
            &&& size(window) <= max_bytes ==> fitted == Some(window)
            &&& fitted is None <==> size(window) > max_bytes && (size(
                cut_window(window, 0, file_size),
            ) > max_bytes || (window.text.len() > 0 && size(cut_window(window, 1, file_size))
                > max_bytes))
            &&& fitted matches Some(shown) ==> {
                &&& size(shown) <= max_bytes
                &&& shown.start_byte == window.start_byte
                &&& shown.text == window.text.take(shown.text.len() as int)
                &&& shown == window || shown == cut_window(
                    window,
                    shown.text.len() as int,
                    file_size,
                )
                &&& forall|count: int|
                    shown.text.len() < count <= window.text.len() ==> size(
                        #[trigger] cut_window(window, count, file_size),
                    ) > max_bytes
            }
        }),
{
    if fitted_window(path, file_size, modified_at_ms, window, max_bytes) is Some {
        fitted_window_is_exact(path, file_size, modified_at_ms, window, max_bytes);
    }
}

} // verus!
