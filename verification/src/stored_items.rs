//! The one text that is stored for all text items of an output: no two lists of texts share it, so
//! every text and its position can be recovered from it.

use vstd::prelude::*;
use vstd::string::*;

use crate::json::{
    escaped, escaped_char, hex_digit, json_string, members_text, object_text, value_text,
    with_member, JsonModel, Members,
};
use crate::numbers::{decimal, decimal_reads, is_digit};
use crate::projector::{canonical_items, indexed_texts};
use crate::protocol::ItemModel;

verus! {

/// The texts of items, each with its position.
pub open spec fn texts_at(items: Seq<ItemModel>) -> Seq<(nat, Seq<char>)>
    decreases items.len(),
{
    if items.len() == 0 {
        seq![]
    } else {
        let before = texts_at(items.drop_last());
        match items.last() {
            ItemModel::InputText { text } => before.push(((items.len() - 1) as nat, text)),
            _ => before,
        }
    }
}

proof fn escaped_concat(a: Seq<char>, b: Seq<char>)
    ensures
        escaped(a + b) == escaped(a) + escaped(b),
    decreases b.len(),
{
    if b.len() == 0 {
        assert(a + b =~= a);
        assert(escaped(a) + escaped(b) =~= escaped(a));
    } else {
        assert((a + b).drop_last() =~= a + b.drop_last());
        escaped_concat(a, b.drop_last());
        assert(escaped(a + b) =~= escaped(a) + escaped(b));
    }
}

proof fn escaped_first(s: Seq<char>)
    requires
        s.len() > 0,
    ensures
        escaped(s) == escaped_char(s[0]) + escaped(s.drop_first()),
{
    let first = seq![s[0]];
    assert(s =~= first + s.drop_first());
    escaped_concat(first, s.drop_first());
    reveal_with_fuel(escaped, 2);
    assert(first.drop_last() =~= Seq::<char>::empty());
    assert(escaped(first) =~= escaped_char(s[0]));
}

proof fn hex_digits_differ(a: nat, b: nat)
    requires
        a < 16,
        b < 16,
        hex_digit(a) == hex_digit(b),
    ensures
        a == b,
{
}

/// The escapes of two characters do not begin alike.
proof fn escapes_differ(c: char, d: char, x: Seq<char>, y: Seq<char>)
    requires
        escaped_char(c) + x == escaped_char(d) + y,
    ensures
        c == d,
        x == y,
{
    let left = escaped_char(c) + x;
    let right = escaped_char(d) + y;
    assert(left[0] == escaped_char(c)[0] && right[0] == escaped_char(d)[0]);
    if escaped_char(c).len() > 1 && escaped_char(d).len() > 1 {
        assert(left[1] == escaped_char(c)[1] && right[1] == escaped_char(d)[1]);
        if escaped_char(c).len() == 6 && escaped_char(d).len() == 6 {
            assert(left[4] == escaped_char(c)[4] && right[4] == escaped_char(d)[4]);
            assert(left[5] == escaped_char(c)[5] && right[5] == escaped_char(d)[5]);
            hex_digits_differ((c as u32 / 16) as nat, (d as u32 / 16) as nat);
            hex_digits_differ((c as u32 % 16) as nat, (d as u32 % 16) as nat);
            assert(c as u32 == d as u32);
        }
    }
    assert(c == d);
    let n = escaped_char(c).len() as int;
    assert(x =~= left.skip(n));
    assert(y =~= right.skip(n));
}

/// No escape begins with the quote that ends a string.
proof fn escape_begins(c: char)
    ensures
        escaped_char(c).len() > 0,
        escaped_char(c)[0] != '"',
{
}

proof fn regrouped(e: Seq<char>, rest: Seq<char>, x: Seq<char>)
    ensures
        e + rest + seq!['"'] + x == e + (rest + seq!['"'] + x),
        e.len() > 0 ==> (e + rest + seq!['"'] + x)[0] == e[0],
{
    assert(e + rest + seq!['"'] + x =~= e + (rest + seq!['"'] + x));
}

/// The first character of an escaped text that a quote follows: the quote only where the text is
/// empty.
proof fn escaped_begins(s: Seq<char>, x: Seq<char>)
    ensures
        (escaped(s) + seq!['"'] + x)[0] == '"' <==> s.len() == 0,
{
    if s.len() == 0 {
        assert(escaped(s) =~= Seq::<char>::empty());
        assert((escaped(s) + seq!['"'] + x)[0] == '"');
    } else {
        escaped_first(s);
        escape_begins(s[0]);
        regrouped(escaped_char(s[0]), escaped(s.drop_first()), x);
    }
}

proof fn escapes_end(a: Seq<char>, b: Seq<char>, x: Seq<char>, y: Seq<char>)
    requires
        escaped(a) + seq!['"'] + x == escaped(b) + seq!['"'] + y,
    ensures
        a == b,
        x == y,
    decreases a.len(),
{
    escaped_begins(a, x);
    escaped_begins(b, y);
    if a.len() == 0 {
        assert(a =~= b);
        assert(x =~= (escaped(a) + seq!['"'] + x).skip(1));
        assert(y =~= (escaped(b) + seq!['"'] + y).skip(1));
    } else {
        let rest_a = escaped(a.drop_first()) + seq!['"'] + x;
        let rest_b = escaped(b.drop_first()) + seq!['"'] + y;
        escaped_first(a);
        escaped_first(b);
        regrouped(escaped_char(a[0]), escaped(a.drop_first()), x);
        regrouped(escaped_char(b[0]), escaped(b.drop_first()), y);
        escapes_differ(a[0], b[0], rest_a, rest_b);
        escapes_end(a.drop_first(), b.drop_first(), x, y);
        assert(a =~= seq![a[0]] + a.drop_first());
        assert(b =~= seq![b[0]] + b.drop_first());
    }
}

/// A JSON string ends where it ends: from a text that begins with one, it and what follows can be
/// told apart in one way only.
pub proof fn json_strings_end(a: Seq<char>, b: Seq<char>, x: Seq<char>, y: Seq<char>)
    requires
        json_string(a) + x == json_string(b) + y,
    ensures
        a == b,
        x == y,
{
    let left = escaped(a) + seq!['"'] + x;
    let right = escaped(b) + seq!['"'] + y;
    assert(left =~= (json_string(a) + x).skip(1));
    assert(right =~= (json_string(b) + y).skip(1));
    escapes_end(a, b, x, y);
}

proof fn digits_end(a: nat, b: nat, x: Seq<char>, y: Seq<char>)
    requires
        decimal(a) + seq![','] + x == decimal(b) + seq![','] + y,
    ensures
        a == b,
        x == y,
{
    let left = decimal(a) + seq![','] + x;
    let right = decimal(b) + seq![','] + y;
    let m = decimal(a).len() as int;
    let n = decimal(b).len() as int;
    decimal_reads(a);
    decimal_reads(b);
    assert(left[m] == ',');
    assert(right[n] == ',');
    if m < n {
        assert(right[m] == decimal(b)[m]);
        assert(is_digit(decimal(b)[m]));
    }
    if n < m {
        assert(left[n] == decimal(a)[n]);
        assert(is_digit(decimal(a)[n]));
    }
    assert(decimal(a) =~= left.take(m));
    assert(decimal(b) =~= right.take(n));
    assert(x =~= left.skip(m + 1));
    assert(y =~= right.skip(n + 1));
}

/// A text with its position, as a JSON object.
spec fn entry(at: (nat, Seq<char>)) -> Seq<char> {
    "{\"index\":"@ + decimal(at.0) + ",\"text\":"@ + json_string(at.1) + "}"@
}

/// Texts with their positions, as JSON objects with commas between them.
spec fn entries(list: Seq<(nat, Seq<char>)>) -> Seq<char>
    decreases list.len(),
{
    if list.len() == 0 {
        seq![]
    } else if list.len() == 1 {
        entry(list[0])
    } else {
        entry(list[0]) + seq![','] + entries(list.drop_first())
    }
}

proof fn entry_begins(at: (nat, Seq<char>))
    ensures
        entry(at).len() > 0,
        entry(at)[0] == '{',
{
    reveal_strlit("{\"index\":");
}

proof fn entries_push(list: Seq<(nat, Seq<char>)>, at: (nat, Seq<char>))
    ensures
        entries(list.push(at)) == entries(list) + (if list.len() == 0 {
            seq![]
        } else {
            seq![',']
        }) + entry(at),
        entries(list).len() == 0 <==> list.len() == 0,
    decreases list.len(),
{
    let more = list.push(at);
    if list.len() == 0 {
        assert(entries(more) =~= entries(list) + Seq::<char>::empty() + entry(at));
    } else {
        entry_begins(list[0]);
        entries_push(list.drop_first(), at);
        assert(more.drop_first() =~= list.drop_first().push(at));
        if list.len() == 1 {
            assert(list.drop_first() =~= Seq::<(nat, Seq<char>)>::empty());
            assert(entries(more.drop_first()) =~= entry(at));
        }
        assert(entries(more) =~= entries(list) + seq![','] + entry(at));
    }
}

proof fn indexed_are_entries(items: Seq<ItemModel>)
    ensures
        indexed_texts(items) == entries(texts_at(items)),
    decreases items.len(),
{
    if items.len() > 0 {
        indexed_are_entries(items.drop_last());
        let before = texts_at(items.drop_last());
        if let ItemModel::InputText { text } = items.last() {
            let at = ((items.len() - 1) as nat, text);
            entries_push(before, at);
            assert(indexed_texts(items) =~= entries(before.push(at)));
        }
    }
}

proof fn entries_differ(
    a: (nat, Seq<char>),
    b: (nat, Seq<char>),
    x: Seq<char>,
    y: Seq<char>,
)
    requires
        entry(a) + x == entry(b) + y,
    ensures
        a == b,
        x == y,
{
    let start = "{\"index\":"@;
    let key = ",\"text\":"@;
    let end = "}"@;
    reveal_strlit(",\"text\":");
    let left = entry(a) + x;
    let right = entry(b) + y;
    let n = start.len() as int;
    let tail_a = key.skip(1) + json_string(a.1) + end + x;
    let tail_b = key.skip(1) + json_string(b.1) + end + y;
    assert(key =~= seq![','] + key.skip(1));
    assert(left.skip(n) =~= decimal(a.0) + seq![','] + tail_a);
    assert(right.skip(n) =~= decimal(b.0) + seq![','] + tail_b);
    digits_end(a.0, b.0, tail_a, tail_b);
    let k = key.skip(1).len() as int;
    assert(tail_a.skip(k) =~= json_string(a.1) + (end + x));
    assert(tail_b.skip(k) =~= json_string(b.1) + (end + y));
    json_strings_end(a.1, b.1, end + x, end + y);
    assert(x =~= (end + x).skip(end.len() as int));
    assert(y =~= (end + y).skip(end.len() as int));
}

proof fn entries_end(a: Seq<(nat, Seq<char>)>, b: Seq<(nat, Seq<char>)>)
    requires
        entries(a) + seq![']'] == entries(b) + seq![']'],
    ensures
        a == b,
    decreases a.len(),
{
    let left = entries(a) + seq![']'];
    let right = entries(b) + seq![']'];
    if a.len() == 0 {
        assert(left[0] == ']');
    } else {
        entry_begins(a[0]);
        assert(left[0] == '{');
    }
    if b.len() == 0 {
        assert(right[0] == ']');
    } else {
        entry_begins(b[0]);
        assert(right[0] == '{');
    }
    if a.len() == 0 {
        assert(a =~= b);
    } else {
        let rest_a = left.skip(entry(a[0]).len() as int);
        let rest_b = right.skip(entry(b[0]).len() as int);
        assert(left =~= entry(a[0]) + rest_a);
        assert(right =~= entry(b[0]) + rest_b);
        entries_differ(a[0], b[0], rest_a, rest_b);
        if a.len() == 1 {
            assert(rest_a =~= seq![']']);
        } else {
            assert(rest_a =~= seq![','] + (entries(a.drop_first()) + seq![']']));
        }
        if b.len() == 1 {
            assert(rest_b =~= seq![']']);
        } else {
            assert(rest_b =~= seq![','] + (entries(b.drop_first()) + seq![']']));
        }
        if a.len() > 1 {
            assert(rest_a[0] == ',');
            assert(b.len() > 1);
            assert(rest_a.skip(1) =~= entries(a.drop_first()) + seq![']']);
            assert(rest_b.skip(1) =~= entries(b.drop_first()) + seq![']']);
            entries_end(a.drop_first(), b.drop_first());
            assert(a =~= seq![a[0]] + a.drop_first());
            assert(b =~= seq![b[0]] + b.drop_first());
        } else {
            assert(rest_a[0] == ']');
            assert(b.len() == 1);
            assert(a =~= b);
        }
    }
}

/// Where a member is inserted does not depend on its value.
proof fn insertion_point(members: Members, key: Seq<char>, v: JsonModel, w: JsonModel) -> (at: int)
    ensures
        0 <= at < with_member(members, key, v).len(),
        with_member(members, key, v)[at] == (key, v),
        with_member(members, key, w) == with_member(members, key, v).update(at, (key, w)),
    decreases members.len(),
{
    let a = with_member(members, key, v);
    let b = with_member(members, key, w);
    if members.len() == 0 || members[0].0 == key || crate::text::text_less(key, members[0].0) {
        assert(b =~= a.update(0, (key, w)));
        0
    } else {
        let at = insertion_point(members.drop_first(), key, v, w);
        assert(b =~= a.update(at + 1, (key, w)));
        at + 1
    }
}

/// Texts of members that differ in one value only differ.
proof fn members_differ(members: Members, at: int, value: JsonModel)
    requires
        0 <= at < members.len(),
        value_text(members[at].1) != value_text(value),
    ensures
        members_text(members) != members_text(members.update(at, (members[at].0, value))),
        members_text(members).len() - members_text(
            members.update(at, (members[at].0, value)),
        ).len() == value_text(members[at].1).len() - value_text(value).len(),
    decreases members.len(),
{
    let other = members.update(at, (members[at].0, value));
    let last = members.len() - 1;
    let comma: Seq<char> = if members.len() == 1 {
        seq![]
    } else {
        seq![',']
    };
    let name = comma + json_string(members.last().0) + seq![':'];
    assert(other.len() == members.len());
    assert(other.last().0 == members.last().0);
    assert(members_text(members) =~= members_text(members.drop_last()) + name + value_text(
        members.last().1,
    ));
    assert(members_text(other) =~= members_text(other.drop_last()) + name + value_text(
        other.last().1,
    ));
    if at == last {
        assert(other.drop_last() =~= members.drop_last());
        let n = (members_text(members.drop_last()) + name).len() as int;
        assert(value_text(members.last().1) =~= members_text(members).skip(n));
        assert(value_text(other.last().1) =~= members_text(other).skip(n));
    } else {
        assert(other.drop_last() =~= members.drop_last().update(at, (members[at].0, value)));
        members_differ(members.drop_last(), at, value);
        assert(other.last() == members.last());
        if members_text(members) == members_text(other) {
            let n = members_text(members.drop_last()).len() as int;
            let m = members_text(other.drop_last()).len() as int;
            assert(n == m);
            assert(members_text(members.drop_last()) =~= members_text(members).take(n));
            assert(members_text(other.drop_last()) =~= members_text(other).take(m));
        }
    }
}

/// The text that is stored for several items is unambiguous: it is the same only for lists with
/// the same texts at the same positions, so nothing of the texts is lost by storing it.
pub proof fn stored_items_are_unambiguous(a: Seq<ItemModel>, b: Seq<ItemModel>)
    requires
        canonical_items(a) == canonical_items(b),
    ensures
        texts_at(a) == texts_at(b),
{
    let base = with_member(
        with_member(seq![], "type"@, JsonModel::Text("tool_output_text_items"@)),
        "version"@,
        JsonModel::Unsigned(1),
    );
    let raw_a = seq!['['] + indexed_texts(a) + seq![']'];
    let raw_b = seq!['['] + indexed_texts(b) + seq![']'];
    let v = JsonModel::Raw(raw_a);
    let w = JsonModel::Raw(raw_b);
    let at = insertion_point(base, "items"@, v, w);
    let members = with_member(base, "items"@, v);
    let others = with_member(base, "items"@, w);
    assert(members_text(members) =~= object_text(members).subrange(
        1,
        object_text(members).len() - 1,
    ));
    assert(members_text(others) =~= object_text(others).subrange(
        1,
        object_text(others).len() - 1,
    ));
    if raw_a != raw_b {
        members_differ(members, at, w);
    }
    assert(indexed_texts(a) + seq![']'] =~= raw_a.skip(1));
    assert(indexed_texts(b) + seq![']'] =~= raw_b.skip(1));
    indexed_are_entries(a);
    indexed_are_entries(b);
    entries_end(texts_at(a), texts_at(b));
}

} // verus!
