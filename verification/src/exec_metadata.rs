//! The header that a command execution puts in front of its output.

use vstd::prelude::*;
use vstd::string::*;

use crate::json::{
    decimal_is_json_number, is_json_number, keys_increase, plain_members, with_member,
    with_member_is_plain, with_member_ordered, JsonModel, JsonObject, JsonValue, Members,
};
use crate::numbers::{
    parse_i32, parse_unsigned, signed_decimal, signed_decimal_text, signed_value, unsigned_value,
};
use crate::text::{
    after_prefix, before_suffix, char_lists, chars_of, find_chars, lines_of, part_of, position,
    strip_prefix, strip_suffix, text_lines, text_of,
};

verus! {

/// What stands in front of the output of a command execution.
pub open spec fn exec_header(text: Seq<char>) -> Option<Seq<char>> {
    match position(text, "\nOutput:\n"@, 0) {
        Some(at) => Some(text.take(at)),
        None => None,
    }
}

/// The 32-bit integer that a line gives behind `prefix`.
pub open spec fn i32_behind(line: Seq<char>, prefix: Seq<char>) -> Option<int> {
    match after_prefix(line, prefix) {
        Some(rest) => match signed_value(rest) {
            Some(n) => if i32::MIN <= n <= i32::MAX {
                Some(n)
            } else {
                None
            },
            None => None,
        },
        None => None,
    }
}

/// The size that a line gives behind `prefix`.
pub open spec fn size_behind(line: Seq<char>, prefix: Seq<char>) -> Option<nat> {
    match after_prefix(line, prefix) {
        Some(rest) => match unsigned_value(rest) {
            Some(n) => if n <= usize::MAX {
                Some(n)
            } else {
                None
            },
            None => None,
        },
        None => None,
    }
}

/// The members with what one line of the header says.
pub open spec fn with_line(members: Members, line: Seq<char>) -> Members {
    if i32_behind(line, "Process exited with code "@) is Some {
        with_member(
            members,
            "exit_code"@,
            JsonModel::Raw(signed_decimal(i32_behind(line, "Process exited with code "@)->0)),
        )
    } else if i32_behind(line, "Process running with session ID "@) is Some {
        with_member(
            members,
            "session_id"@,
            JsonModel::Raw(
                signed_decimal(i32_behind(line, "Process running with session ID "@)->0),
            ),
        )
    } else if size_behind(line, "Original token count: "@) is Some {
        with_member(
            members,
            "original_token_count"@,
            JsonModel::Unsigned(size_behind(line, "Original token count: "@)->0 as u64),
        )
    } else {
        members
    }
}

/// The members with what all lines say, in order.
pub open spec fn with_lines(members: Members, lines: Seq<Seq<char>>) -> Members
    decreases lines.len(),
{
    if lines.len() == 0 {
        members
    } else {
        with_line(with_lines(members, lines.drop_last()), lines.last())
    }
}

/// What the header of a command execution says; `wall_time` is the JSON number of its wall time.
pub open spec fn exec_members(text: Seq<char>, wall_time: Option<Seq<char>>) -> Option<Members> {
    match exec_header(text) {
        None => None,
        Some(header) => {
            let lines = text_lines(header);
            if lines.len() == 0 {
                None
            } else {
                match after_prefix(lines[0], "Chunk ID: "@) {
                    None => None,
                    Some(id) => {
                        let said = with_lines(
                            with_member(seq![], "chunk_id"@, JsonModel::Text(id)),
                            lines.drop_first(),
                        );
                        Some(
                            match wall_time {
                                Some(number) => with_member(
                                    said,
                                    "wall_time_seconds"@,
                                    JsonModel::Raw(number),
                                ),
                                None => said,
                            },
                        )
                    },
                }
            }
        },
    }
}

/// Whether a text can stand for a wall time: a JSON number, or null where the number is none.
pub open spec fn is_wall_time(text: Seq<char>) -> bool {
    is_json_number(text) || text == "null"@
}

proof fn lines_are_plain(members: Members, lines: Seq<Seq<char>>)
    requires
        keys_increase(members),
        plain_members(members),
    ensures
        keys_increase(with_lines(members, lines)),
        plain_members(with_lines(members, lines)),
    decreases lines.len(),
{
    if lines.len() > 0 {
        lines_are_plain(members, lines.drop_last());
        let before = with_lines(members, lines.drop_last());
        let line = lines.last();
        if let Some(code) = i32_behind(line, "Process exited with code "@) {
            decimal_is_json_number(code);
            let value = JsonModel::Raw(signed_decimal(code));
            with_member_ordered(before, "exit_code"@, value);
            with_member_is_plain(before, "exit_code"@, value);
        } else if let Some(session) = i32_behind(line, "Process running with session ID "@) {
            decimal_is_json_number(session);
            let value = JsonModel::Raw(signed_decimal(session));
            with_member_ordered(before, "session_id"@, value);
            with_member_is_plain(before, "session_id"@, value);
        } else if let Some(count) = size_behind(line, "Original token count: "@) {
            let value = JsonModel::Unsigned(count as u64);
            with_member_ordered(before, "original_token_count"@, value);
            with_member_is_plain(before, "original_token_count"@, value);
        }
    }
}

/// What a header says is an object of plain values.
pub proof fn exec_members_are_plain(text: Seq<char>, wall_time: Option<Seq<char>>)
    requires
        wall_time matches Some(number) ==> is_wall_time(number),
    ensures
        exec_members(text, wall_time) matches Some(members) ==> keys_increase(members)
            && plain_members(members),
{
    if exec_members(text, wall_time) is Some {
        let lines = text_lines(exec_header(text)->0);
        let id = JsonModel::Text(after_prefix(lines[0], "Chunk ID: "@)->0);
        let none: Members = seq![];
        with_member_ordered(none, "chunk_id"@, id);
        with_member_is_plain(none, "chunk_id"@, id);
        let first = with_member(none, "chunk_id"@, id);
        lines_are_plain(first, lines.drop_first());
        let said = with_lines(first, lines.drop_first());
        if let Some(number) = wall_time {
            with_member_ordered(said, "wall_time_seconds"@, JsonModel::Raw(number));
            with_member_is_plain(said, "wall_time_seconds"@, JsonModel::Raw(number));
        }
    }
}

/// The text between `Wall time: ` and ` seconds`.
pub open spec fn wall_time_of(line: Seq<char>) -> Option<Seq<char>> {
    match after_prefix(line, "Wall time: "@) {
        Some(rest) => before_suffix(rest, " seconds"@),
        None => None,
    }
}

/// The wall times that lines give, in order.
pub open spec fn wall_times(lines: Seq<Seq<char>>) -> Seq<Seq<char>>
    decreases lines.len(),
{
    if lines.len() == 0 {
        seq![]
    } else {
        let before = wall_times(lines.drop_last());
        match wall_time_of(lines.last()) {
            Some(time) => before.push(time),
            None => before,
        }
    }
}

/// The wall times that the header gives behind its first line, in order.
pub open spec fn header_wall_times(text: Seq<char>) -> Seq<Seq<char>> {
    match exec_header(text) {
        Some(header) => if text_lines(header).len() > 0 {
            wall_times(text_lines(header).drop_first())
        } else {
            seq![]
        },
        None => seq![],
    }
}

/// The lines of the header.
fn header_lines(text: &str) -> (r: Option<Vec<Vec<char>>>)
    ensures
        match r {
            Some(lines) => exec_header(text@) is Some && char_lists(lines@) == text_lines(
                exec_header(text@)->0,
            ),
            None => exec_header(text@) is None,
        },
{
    let chars = chars_of(text);
    proof {
        crate::text::position_is_first(text@, "\nOutput:\n"@, 0);
    }
    match find_chars(&chars, &chars_of("\nOutput:\n"), 0) {
        Some(at) => {
            let header = part_of(&chars, 0, at);
            proof {
                assert(header@ =~= text@.take(at as int));
            }
            Some(lines_of(&header))
        },
        None => None,
    }
}

/// The texts that the header gives as wall times, in order. Which of them are numbers is for the
/// caller to tell.
pub fn wall_time_candidates(text: &str) -> (r: Vec<String>)
    ensures
        crate::history::texts(r@) == header_wall_times(text@),
{
    let mut out: Vec<String> = Vec::new();
    proof {
        assert(crate::history::texts(out@) =~= Seq::<Seq<char>>::empty());
    }
    let lines = match header_lines(text) {
        Some(lines) => lines,
        None => {
            return out;
        },
    };
    if lines.len() == 0 {
        return out;
    }
    let ghost all = char_lists(lines@).drop_first();
    let mut i: usize = 1;
    proof {
        assert(all.take(0) =~= Seq::<Seq<char>>::empty());
    }
    while i < lines.len()
        invariant
            1 <= i <= lines@.len(),
            all == char_lists(lines@).drop_first(),
            crate::history::texts(out@) == wall_times(all.take(i - 1)),
        decreases lines@.len() - i,
    {
        proof {
            assert(all.take(i as int).drop_last() =~= all.take(i - 1));
            assert(all[i - 1] == lines@[i as int]@);
        }
        let ghost before = out@;
        match strip_prefix(&lines[i], "Wall time: ") {
            Some(rest) => match strip_suffix(&rest, " seconds") {
                Some(time) => {
                    out.push(text_of(&time, 0, time.len()));
                    proof {
                        assert(time@.subrange(0, time@.len() as int) =~= time@);
                        assert(crate::history::texts(out@) =~= crate::history::texts(before).push(
                            time@,
                        ));
                    }
                },
                None => {},
            },
            None => {},
        }
        i += 1;
    }
    proof {
        assert(all.take(i - 1) =~= all);
    }
    out
}

/// Adds what one line of the header says.
fn add_line(metadata: &mut JsonObject, line: &Vec<char>)
    ensures
        final(metadata)@ == with_line(old(metadata)@, line@),
{
    match strip_prefix(line, "Process exited with code ") {
        Some(rest) => match parse_i32(&rest) {
            Some(n) => {
                metadata.set("exit_code", JsonValue::Raw(signed_decimal_text(n as i64)));
                return;
            },
            None => {},
        },
        None => {},
    }
    match strip_prefix(line, "Process running with session ID ") {
        Some(rest) => match parse_i32(&rest) {
            Some(n) => {
                metadata.set("session_id", JsonValue::Raw(signed_decimal_text(n as i64)));
                return;
            },
            None => {},
        },
        None => {},
    }
    match strip_prefix(line, "Original token count: ") {
        Some(rest) => match parse_unsigned(&rest, usize::MAX as u64) {
            Some(n) => {
                metadata.set("original_token_count", JsonValue::Unsigned(n));
            },
            None => {},
        },
        None => {},
    }
}

/// What the header of a command execution says, if `text` has one.
///
/// `wall_time` is the JSON number of the last wall time among [`wall_time_candidates`] that is a
/// number.
pub fn unified_exec_metadata(text: &str, wall_time: Option<&str>) -> (r: Option<JsonObject>)
    ensures
        ({
            let time = match wall_time {
                Some(number) => Some(number@),
                None => None,
            };
            match r {
                Some(metadata) => exec_members(text@, time) == Some(metadata@),
                None => exec_members(text@, time) is None,
            }
        }),
{
    let lines = match header_lines(text) {
        Some(lines) => lines,
        None => {
            return None;
        },
    };
    if lines.len() == 0 {
        return None;
    }
    proof {
        assert(char_lists(lines@)[0] == lines@[0]@);
    }
    let id = match strip_prefix(&lines[0], "Chunk ID: ") {
        Some(id) => id,
        None => {
            return None;
        },
    };
    let mut metadata = JsonObject::new();
    metadata.set_text("chunk_id", text_of(&id, 0, id.len()).as_str());
    proof {
        assert(id@.subrange(0, id@.len() as int) =~= id@);
    }
    let ghost base = metadata@;
    let ghost all = char_lists(lines@).drop_first();
    let mut i: usize = 1;
    proof {
        assert(all.take(0) =~= Seq::<Seq<char>>::empty());
    }
    while i < lines.len()
        invariant
            1 <= i <= lines@.len(),
            all == char_lists(lines@).drop_first(),
            metadata@ == with_lines(base, all.take(i - 1)),
        decreases lines@.len() - i,
    {
        proof {
            assert(all.take(i as int).drop_last() =~= all.take(i - 1));
            assert(all[i - 1] == lines@[i as int]@);
        }
        add_line(&mut metadata, &lines[i]);
        i += 1;
    }
    proof {
        assert(all.take(i - 1) =~= all);
    }
    match wall_time {
        Some(number) => {
            metadata.set("wall_time_seconds", JsonValue::Raw(number.to_owned()));
        },
        None => {},
    }
    Some(metadata)
}

} // verus!
