//! How texts are cut into lines and parts, compared, and written as JSON.

use vstd::prelude::*;

use crate::json::{
    escaped, escaped_char, hex_digit, json_string, member, members_text, object_text, offsets_text,
    value_text, JsonModel, Members,
};
use crate::numbers::{
    all_digits, decimal, decimal_reads, digits_value, is_digit, signed_decimal, signed_value,
    unsigned_value,
};
use crate::text::{
    after_prefix, ascii_lower, before_suffix, position, position_is_first, same_but_case,
    split_text, text_lines, without_return,
};

verus! {

proof fn first_end(line: Seq<char>, c: char, rest: Seq<char>)
    requires
        forall|i: int| 0 <= i < line.len() ==> #[trigger] line[i] != c,
    ensures
        position(line + seq![c] + rest, seq![c], 0) == Some(line.len() as int),
        position(line, seq![c], 0) is None,
{
    let text = line + seq![c] + rest;
    position_is_first(text, seq![c], 0);
    position_is_first(line, seq![c], 0);
    let n = line.len() as int;
    assert(text.subrange(n, n + 1) =~= seq![c]);
    match position(text, seq![c], 0) {
        Some(at) => {
            if at < n {
                assert(text.subrange(at, at + 1)[0] == line[at]);
            } else if at > n {
                assert(text.subrange(n, n + 1) != seq![c]);
            }
        },
        None => {
            assert(text.subrange(n, n + 1) != seq![c]);
        },
    }
    match position(line, seq![c], 0) {
        Some(at) => {
            assert(line.subrange(at, at + 1)[0] == line[at]);
        },
        None => {},
    }
}

/// A line in front of a line end is the first line, without the carriage return in front of the
/// line end, and the other lines are those of what follows; a text without a line end is one line.
pub proof fn lines_end_at_line_ends(line: Seq<char>, rest: Seq<char>)
    requires
        forall|i: int| 0 <= i < line.len() ==> #[trigger] line[i] != '\n',
    ensures
        text_lines(line + seq!['\n'] + rest) == seq![
            if line.len() > 0 && line.last() == '\r' {
                line.drop_last()
            } else {
                line
            },
        ] + text_lines(rest),
        line.len() > 0 ==> text_lines(line) == seq![line],
        text_lines(seq![]).len() == 0,
        without_return(line) == (if line.len() > 0 && line.last() == '\r' {
            line.drop_last()
        } else {
            line
        }),
{
    first_end(line, '\n', rest);
    let text = line + seq!['\n'] + rest;
    assert(text.take(line.len() as int) =~= line);
    assert(text.skip(line.len() as int + 1) =~= rest);
}

/// The parts of a text stand between the separators: the first up to the first one, the others
/// behind it; a text without a separator is one part.
pub proof fn parts_end_at_separators(part: Seq<char>, c: char, rest: Seq<char>)
    requires
        forall|i: int| 0 <= i < part.len() ==> #[trigger] part[i] != c,
    ensures
        split_text(part + seq![c] + rest, c) == seq![part] + split_text(rest, c),
        split_text(part, c) == seq![part],
{
    first_end(part, c, rest);
    let text = part + seq![c] + rest;
    assert(text.take(part.len() as int) =~= part);
    assert(text.skip(part.len() as int + 1) =~= rest);
}

/// What follows a start is the rest of a text that begins with it, and what stands in front of an
/// end is the rest of one that ends with it; other texts have neither.
pub proof fn starts_and_ends_are_stripped(text: Seq<char>, rest: Seq<char>, part: Seq<char>)
    ensures
        after_prefix(part + rest, part) == Some(rest),
        before_suffix(rest + part, part) == Some(rest),
        after_prefix(text, part) matches Some(left) ==> text == part + left,
        before_suffix(text, part) matches Some(left) ==> text == left + part,
{
    let (a, b) = (part + rest, rest + part);
    assert(a.take(part.len() as int) =~= part);
    assert(a.skip(part.len() as int) =~= rest);
    assert(b.skip(b.len() - part.len()) =~= part);
    assert(b.take(b.len() - part.len()) =~= rest);
    if let Some(left) = after_prefix(text, part) {
        assert(text =~= part + left);
    }
    if let Some(left) = before_suffix(text, part) {
        assert(text =~= left + part);
    }
}

/// Texts are the same but for case exactly where each character is the same, or the other of an
/// ASCII letter's two forms.
pub proof fn case_is_ignored(a: Seq<char>, b: Seq<char>, c: char)
    ensures
        same_but_case(a, a),
        same_but_case(a, b) ==> a.len() == b.len() && same_but_case(b, a),
        'A' <= c <= 'Z' ==> ascii_lower(c) as u32 == c as u32 + 32,
        !('A' <= c <= 'Z') ==> ascii_lower(c) == c,
{
}

/// A decimal form reads as its integer, whatever its sign; a plus sign in front does not matter;
/// nothing else is read as an integer.
pub proof fn integers_are_read(n: int, digits: Seq<char>)
    ensures
        signed_value(signed_decimal(n)) == Some(n),
        n >= 0 ==> unsigned_value(decimal(n as nat)) == Some(n as nat),
        all_digits(digits) ==> unsigned_value(digits) == Some(digits_value(digits))
            && unsigned_value(seq!['+'] + digits) == Some(digits_value(digits)) && signed_value(
            seq!['-'] + digits,
        ) == Some(-(digits_value(digits) as int)),
        unsigned_value(digits) is Some ==> all_digits(digits) || (digits.len() > 1 && digits[0]
            == '+' && all_digits(digits.skip(1))),
{
    if n < 0 {
        decimal_reads((-n) as nat);
        assert(signed_decimal(n).skip(1) =~= decimal((-n) as nat));
    } else {
        decimal_reads(n as nat);
        assert(is_digit(decimal(n as nat)[0]));
    }
    if all_digits(digits) {
        assert(is_digit(digits[0]));
        assert((seq!['+'] + digits).skip(1) =~= digits);
        assert((seq!['-'] + digits).skip(1) =~= digits);
    }
}

/// A text is written in a JSON string character by character; what cannot stand there is escaped:
/// the quotation mark, the backslash and the control characters.
pub proof fn texts_are_escaped(a: Seq<char>, b: Seq<char>, c: char)
    ensures
        escaped(a + b) == escaped(a) + escaped(b),
        escaped(seq![]) == Seq::<char>::empty(),
        escaped(seq![c]) == escaped_char(c),
        json_string(a) == seq!['"'] + escaped(a) + seq!['"'],
        c as u32 >= 0x20 && c != '"' && c != '\\' ==> escaped_char(c) == seq![c],
        escaped_char('"') == seq!['\\', '"'],
        escaped_char('\\') == seq!['\\', '\\'],
        escaped_char('\n') == seq!['\\', 'n'],
        escaped_char('\r') == seq!['\\', 'r'],
        escaped_char('\t') == seq!['\\', 't'],
        escaped_char('\u{8}') == seq!['\\', 'b'],
        escaped_char('\u{c}') == seq!['\\', 'f'],
        (c as u32) < 0x20 && c != '\n' && c != '\r' && c != '\t' && c != '\u{8}' && c != '\u{c}'
            ==> escaped_char(c) == seq![
            '\\',
            'u',
            '0',
            '0',
            hex_digit((c as u32 / 16) as nat),
            hex_digit((c as u32 % 16) as nat),
        ],
    decreases b.len(),
{
    let none: Seq<char> = seq![];
    assert(seq![c].drop_last() =~= none);
    assert(seq![c].last() == c);
    reveal_with_fuel(escaped, 2);
    assert(escaped(seq![c]) =~= escaped_char(c));
    if b.len() == 0 {
        assert(a + b =~= a);
        assert(escaped(a + b) =~= escaped(a) + escaped(b));
    } else {
        texts_are_escaped(a, b.drop_last(), c);
        assert((a + b).drop_last() =~= a + b.drop_last());
        assert((a + b).last() == b.last());
        assert(escaped(a + b) =~= escaped(a) + escaped(b));
    }
}

/// A hexadecimal digit is written in lower case.
pub proof fn hex_digits_are_written(d: nat)
    requires
        d < 16,
    ensures
        d < 10 ==> hex_digit(d) as u32 == '0' as u32 + d,
        d >= 10 ==> hex_digit(d) as u32 == 'a' as u32 + d - 10,
{
}

/// Values are written as JSON has them, and the members of two objects behind each other with one
/// comma between them.
pub proof fn values_are_written(
    a: Members,
    b: Members,
    key: Seq<char>,
    value: JsonModel,
    text: Seq<char>,
    n: u64,
)
    requires
        a.len() > 0,
        b.len() > 0,
    ensures
        value_text(JsonModel::Null) == "null"@,
        value_text(JsonModel::Bool(true)) == "true"@,
        value_text(JsonModel::Bool(false)) == "false"@,
        value_text(JsonModel::Unsigned(n)) == decimal(n as nat),
        value_text(JsonModel::Text(text)) == json_string(text),
        value_text(JsonModel::Raw(text)) == text,
        members_text(seq![(key, value)]) == json_string(key) + seq![':'] + value_text(value),
        members_text(a + b) == members_text(a) + seq![','] + members_text(b),
        object_text(a) == seq!['{'] + members_text(a) + seq!['}'],
    decreases b.len(),
{
    let none: Members = seq![];
    assert(seq![(key, value)].drop_last() =~= none);
    assert(seq![(key, value)].last() == (key, value));
    reveal_with_fuel(members_text, 2);
    assert(members_text(seq![(key, value)]) =~= json_string(key) + seq![':'] + value_text(value));
    assert((a + b).drop_last() =~= a + b.drop_last());
    assert((a + b).last() == b.last());
    if b.len() == 1 {
        assert(a + b.drop_last() =~= a);
        assert(b.drop_last() =~= none);
        assert(members_text(a + b) =~= members_text(a) + seq![','] + members_text(b));
    } else {
        values_are_written(a, b.drop_last(), key, value, text, n);
        assert(members_text(a + b) =~= members_text(a) + seq![','] + members_text(b));
    }
}

/// Offsets are written between brackets, with one comma between each two.
pub proof fn offsets_are_written(a: Seq<u64>, b: Seq<u64>, n: u64)
    requires
        a.len() > 0,
        b.len() > 0,
    ensures
        offsets_text(seq![]) == Seq::<char>::empty(),
        offsets_text(seq![n]) == decimal(n as nat),
        offsets_text(a + b) == offsets_text(a) + seq![','] + offsets_text(b),
        value_text(JsonModel::Offsets(a)) == seq!['['] + offsets_text(a) + seq![']'],
    decreases b.len(),
{
    assert((a + b).drop_last() =~= a + b.drop_last());
    assert((a + b).last() == b.last());
    if b.len() == 1 {
        assert(a + b.drop_last() =~= a);
        assert(b.last() == b[0]);
        assert(offsets_text(a + b) =~= offsets_text(a) + seq![','] + offsets_text(b));
    } else {
        offsets_are_written(a, b.drop_last(), n);
        assert(offsets_text(a + b) =~= offsets_text(a) + seq![','] + offsets_text(b));
    }
}

/// The value of a key is that of the first member with it.
pub proof fn first_member_counts(members: Members, key: Seq<char>)
    ensures
        (match member(members, key) {
            Some(value) => exists|i: int|
                0 <= i < members.len() && #[trigger] members[i] == (key, value) && forall|j: int|
                    0 <= j < i ==> (#[trigger] members[j]).0 != key,
            None => forall|j: int| 0 <= j < members.len() ==> (#[trigger] members[j]).0 != key,
        }),
    decreases members.len(),
{
    if members.len() > 0 && members[0].0 != key {
        let rest = members.drop_first();
        first_member_counts(rest, key);
        match member(rest, key) {
            Some(value) => {
                let i = choose|i: int|
                    0 <= i < rest.len() && #[trigger] rest[i] == (key, value) && forall|j: int|
                        0 <= j < i ==> (#[trigger] rest[j]).0 != key;
                assert(members[i + 1] == (key, value));
                assert forall|j: int| 0 <= j < i + 1 implies (#[trigger] members[j]).0 != key by {
                    if j > 0 {
                        assert(rest[j - 1] == members[j]);
                    }
                }
            },
            None => {
                assert forall|j: int| 0 <= j < members.len() implies (#[trigger] members[j]).0
                    != key by {
                    if j > 0 {
                        assert(rest[j - 1] == members[j]);
                    }
                }
            },
        }
    } else if members.len() > 0 {
        assert(members[0] == (key, members[0].1));
    }
}

} // verus!
