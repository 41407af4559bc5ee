//! What the header of a command execution says line by line.

use vstd::prelude::*;

use crate::exec_metadata::{
    exec_header, exec_members, header_wall_times, i32_behind, size_behind, wall_time_of, wall_times,
    with_line, with_lines,
};
use crate::json::{keys_increase, member, with_member, with_member_ordered, JsonModel, Members};
use crate::numbers::{decimal_reads, signed_decimal, signed_value, unsigned_value};
use crate::text::{after_prefix, position_is_first, text_lines};

verus! {

/// Whether a line is `prefix` and a 32-bit integer behind it, which is `n`.
pub open spec fn gives_i32(line: Seq<char>, prefix: Seq<char>, n: int) -> bool {
    &&& exists|rest: Seq<char>| line == #[trigger] (prefix + rest) && signed_value(rest) == Some(n)
    &&& -0x8000_0000 <= n <= 0x7fff_ffff
}

/// Whether a line is `prefix` and a size behind it, which is `n`.
pub open spec fn gives_size(line: Seq<char>, prefix: Seq<char>, n: nat) -> bool {
    &&& exists|rest: Seq<char>|
        line == #[trigger] (prefix + rest) && unsigned_value(rest) == Some(n)
    &&& n <= usize::MAX
}

proof fn i32_is_given(line: Seq<char>, prefix: Seq<char>, n: int)
    ensures
        i32_behind(line, prefix) == Some(n) <==> gives_i32(line, prefix, n),
{
    if i32_behind(line, prefix) == Some(n) {
        assert(line =~= prefix + line.skip(prefix.len() as int));
    }
    if gives_i32(line, prefix, n) {
        let rest = choose|rest: Seq<char>|
            line == #[trigger] (prefix + rest) && signed_value(rest) == Some(n);
        assert(line.take(prefix.len() as int) =~= prefix);
        assert(line.skip(prefix.len() as int) =~= rest);
    }
}

proof fn size_is_given(line: Seq<char>, prefix: Seq<char>, n: nat)
    ensures
        size_behind(line, prefix) == Some(n) <==> gives_size(line, prefix, n),
{
    if size_behind(line, prefix) == Some(n) {
        assert(line =~= prefix + line.skip(prefix.len() as int));
    }
    if gives_size(line, prefix, n) {
        let rest = choose|rest: Seq<char>|
            line == #[trigger] (prefix + rest) && unsigned_value(rest) == Some(n);
        assert(line.take(prefix.len() as int) =~= prefix);
        assert(line.skip(prefix.len() as int) =~= rest);
    }
}

proof fn one_prefix_only(line: Seq<char>)
    ensures
        after_prefix(line, "Process exited with code "@) is Some ==> after_prefix(
            line,
            "Process running with session ID "@,
        ) is None && after_prefix(line, "Original token count: "@) is None,
        after_prefix(line, "Process running with session ID "@) is Some ==> after_prefix(
            line,
            "Original token count: "@,
        ) is None,
{
    reveal_strlit("Process exited with code ");
    reveal_strlit("Process running with session ID ");
    reveal_strlit("Original token count: ");
    if after_prefix(line, "Process exited with code "@) is Some {
        assert(line.take("Process exited with code "@.len() as int)[8] == 'e');
        assert(line[8] == 'e');
    }
    if after_prefix(line, "Process running with session ID "@) is Some {
        assert(line.take("Process running with session ID "@.len() as int)[8] == 'r');
        assert(line[8] == 'r');
        assert(line.take("Process running with session ID "@.len() as int)[0] == 'P');
        assert(line[0] == 'P');
    }
    if after_prefix(line, "Process exited with code "@) is Some {
        assert(line.take("Process exited with code "@.len() as int)[0] == 'P');
        assert(line[0] == 'P');
    }
    if after_prefix(line, "Original token count: "@) is Some {
        assert(line.take("Original token count: "@.len() as int)[0] == 'O');
        assert(line[0] == 'O');
    }
}

proof fn keys_differ()
    ensures
        "chunk_id"@ != "exit_code"@,
        "chunk_id"@ != "session_id"@,
        "chunk_id"@ != "original_token_count"@,
        "chunk_id"@ != "wall_time_seconds"@,
        "exit_code"@ != "session_id"@,
        "exit_code"@ != "original_token_count"@,
        "exit_code"@ != "wall_time_seconds"@,
        "session_id"@ != "original_token_count"@,
        "session_id"@ != "wall_time_seconds"@,
        "original_token_count"@ != "wall_time_seconds"@,
{
    reveal_strlit("chunk_id");
    reveal_strlit("exit_code");
    reveal_strlit("session_id");
    reveal_strlit("original_token_count");
    reveal_strlit("wall_time_seconds");
    assert("chunk_id"@.len() != "exit_code"@.len());
    assert("chunk_id"@.len() != "session_id"@.len());
    assert("chunk_id"@.len() != "original_token_count"@.len());
    assert("chunk_id"@.len() != "wall_time_seconds"@.len());
    assert("exit_code"@.len() != "session_id"@.len());
    assert("exit_code"@.len() != "original_token_count"@.len());
    assert("exit_code"@.len() != "wall_time_seconds"@.len());
    assert("session_id"@.len() != "original_token_count"@.len());
    assert("session_id"@.len() != "wall_time_seconds"@.len());
    assert("original_token_count"@.len() != "wall_time_seconds"@.len());
}

/// One line says one thing: an exit code, a session, a token count, or nothing. The other members
/// stay as they are.
pub proof fn a_line_says_one_thing(members: Members, line: Seq<char>, n: int, size: nat)
    requires
        keys_increase(members),
    ensures
        keys_increase(with_line(members, line)),
        gives_i32(line, "Process exited with code "@, n) ==> member(
            with_line(members, line),
            "exit_code"@,
        ) == Some(JsonModel::Raw(signed_decimal(n))),
        gives_i32(line, "Process running with session ID "@, n) ==> member(
            with_line(members, line),
            "session_id"@,
        ) == Some(JsonModel::Raw(signed_decimal(n))),
        gives_size(line, "Original token count: "@, size) ==> member(
            with_line(members, line),
            "original_token_count"@,
        ) == Some(JsonModel::Unsigned(size as u64)),
        (forall|m: int| !#[trigger] gives_i32(line, "Process exited with code "@, m)) ==> member(
            with_line(members, line),
            "exit_code"@,
        ) == member(members, "exit_code"@),
        (forall|m: int| !#[trigger] gives_i32(line, "Process running with session ID "@, m))
            ==> member(with_line(members, line), "session_id"@) == member(members, "session_id"@),
        (forall|m: nat| !#[trigger] gives_size(line, "Original token count: "@, m)) ==> member(
            with_line(members, line),
            "original_token_count"@,
        ) == member(members, "original_token_count"@),
        forall|key: Seq<char>|
            key != "exit_code"@ && key != "session_id"@ && key != "original_token_count"@
                ==> #[trigger] member(with_line(members, line), key) == member(members, key),
{
    keys_differ();
    one_prefix_only(line);
    i32_is_given(line, "Process exited with code "@, n);
    i32_is_given(line, "Process running with session ID "@, n);
    size_is_given(line, "Original token count: "@, size);
    match i32_behind(line, "Process exited with code "@) {
        Some(m) => {
            i32_is_given(line, "Process exited with code "@, m);
            with_member_ordered(members, "exit_code"@, JsonModel::Raw(signed_decimal(m)));
        },
        None => {},
    }
    match i32_behind(line, "Process running with session ID "@) {
        Some(m) => {
            i32_is_given(line, "Process running with session ID "@, m);
            with_member_ordered(members, "session_id"@, JsonModel::Raw(signed_decimal(m)));
        },
        None => {},
    }
    match size_behind(line, "Original token count: "@) {
        Some(m) => {
            size_is_given(line, "Original token count: "@, m);
            with_member_ordered(
                members,
                "original_token_count"@,
                JsonModel::Unsigned(m as u64),
            );
        },
        None => {},
    }
}

proof fn lines_keep_order(members: Members, lines: Seq<Seq<char>>)
    requires
        keys_increase(members),
    ensures
        keys_increase(with_lines(members, lines)),
        forall|key: Seq<char>|
            key != "exit_code"@ && key != "session_id"@ && key != "original_token_count"@
                ==> #[trigger] member(with_lines(members, lines), key) == member(members, key),
    decreases lines.len(),
{
    if lines.len() > 0 {
        lines_keep_order(members, lines.drop_last());
        a_line_says_one_thing(with_lines(members, lines.drop_last()), lines.last(), 0, 0);
    }
}

proof fn last_exit_counts(members: Members, lines: Seq<Seq<char>>, at: int, n: int)
    requires
        keys_increase(members),
        0 <= at < lines.len(),
        gives_i32(lines[at], "Process exited with code "@, n),
        forall|j: int, m: int|
            at < j < lines.len() ==> !#[trigger] gives_i32(lines[j], "Process exited with code "@, m),
    ensures
        member(with_lines(members, lines), "exit_code"@) == Some(JsonModel::Raw(signed_decimal(n))),
    decreases lines.len(),
{
    let front = lines.drop_last();
    lines_keep_order(members, front);
    a_line_says_one_thing(with_lines(members, front), lines.last(), n, 0);
    if at < front.len() {
        assert forall|m: int| !#[trigger] gives_i32(lines.last(), "Process exited with code "@, m) by {
            assert(lines[lines.len() - 1] == lines.last());
        }
        assert forall|j: int, m: int| at < j < front.len() implies !#[trigger] gives_i32(
            front[j],
            "Process exited with code "@,
            m,
        ) by {
            assert(front[j] == lines[j]);
        }
        last_exit_counts(members, front, at, n);
    }
}

proof fn no_exit_line(members: Members, lines: Seq<Seq<char>>)
    requires
        keys_increase(members),
        forall|j: int, m: int|
            0 <= j < lines.len() ==> !#[trigger] gives_i32(lines[j], "Process exited with code "@, m),
    ensures
        member(with_lines(members, lines), "exit_code"@) == member(members, "exit_code"@),
    decreases lines.len(),
{
    if lines.len() > 0 {
        let front = lines.drop_last();
        lines_keep_order(members, front);
        a_line_says_one_thing(with_lines(members, front), lines.last(), 0, 0);
        assert forall|m: int| !#[trigger] gives_i32(lines.last(), "Process exited with code "@, m) by {
            assert(lines[lines.len() - 1] == lines.last());
        }
        assert forall|j: int, m: int| 0 <= j < front.len() implies !#[trigger] gives_i32(
            front[j],
            "Process exited with code "@,
            m,
        ) by {
            assert(front[j] == lines[j]);
        }
        no_exit_line(members, front);
    }
}

proof fn last_session_counts(members: Members, lines: Seq<Seq<char>>, at: int, n: int)
    requires
        keys_increase(members),
        0 <= at < lines.len(),
        gives_i32(lines[at], "Process running with session ID "@, n),
        forall|j: int, m: int|
            at < j < lines.len() ==> !#[trigger] gives_i32(lines[j], "Process running with session ID "@, m),
    ensures
        member(with_lines(members, lines), "session_id"@) == Some(JsonModel::Raw(signed_decimal(n))),
    decreases lines.len(),
{
    let front = lines.drop_last();
    lines_keep_order(members, front);
    a_line_says_one_thing(with_lines(members, front), lines.last(), n, 0);
    if at < front.len() {
        assert forall|m: int| !#[trigger] gives_i32(lines.last(), "Process running with session ID "@, m) by {
            assert(lines[lines.len() - 1] == lines.last());
        }
        assert forall|j: int, m: int| at < j < front.len() implies !#[trigger] gives_i32(
            front[j],
            "Process running with session ID "@,
            m,
        ) by {
            assert(front[j] == lines[j]);
        }
        last_session_counts(members, front, at, n);
    }
}

proof fn no_session_line(members: Members, lines: Seq<Seq<char>>)
    requires
        keys_increase(members),
        forall|j: int, m: int|
            0 <= j < lines.len() ==> !#[trigger] gives_i32(lines[j], "Process running with session ID "@, m),
    ensures
        member(with_lines(members, lines), "session_id"@) == member(members, "session_id"@),
    decreases lines.len(),
{
    if lines.len() > 0 {
        let front = lines.drop_last();
        lines_keep_order(members, front);
        a_line_says_one_thing(with_lines(members, front), lines.last(), 0, 0);
        assert forall|m: int| !#[trigger] gives_i32(lines.last(), "Process running with session ID "@, m) by {
            assert(lines[lines.len() - 1] == lines.last());
        }
        assert forall|j: int, m: int| 0 <= j < front.len() implies !#[trigger] gives_i32(
            front[j],
            "Process running with session ID "@,
            m,
        ) by {
            assert(front[j] == lines[j]);
        }
        no_session_line(members, front);
    }
}

proof fn last_count_counts(members: Members, lines: Seq<Seq<char>>, at: int, n: nat)
    requires
        keys_increase(members),
        0 <= at < lines.len(),
        gives_size(lines[at], "Original token count: "@, n),
        forall|j: int, m: nat|
            at < j < lines.len() ==> !#[trigger] gives_size(lines[j], "Original token count: "@, m),
    ensures
        member(with_lines(members, lines), "original_token_count"@) == Some(JsonModel::Unsigned(n as u64)),
    decreases lines.len(),
{
    let front = lines.drop_last();
    lines_keep_order(members, front);
    a_line_says_one_thing(with_lines(members, front), lines.last(), 0, n);
    if at < front.len() {
        assert forall|m: nat| !#[trigger] gives_size(lines.last(), "Original token count: "@, m) by {
            assert(lines[lines.len() - 1] == lines.last());
        }
        assert forall|j: int, m: nat| at < j < front.len() implies !#[trigger] gives_size(
            front[j],
            "Original token count: "@,
            m,
        ) by {
            assert(front[j] == lines[j]);
        }
        last_count_counts(members, front, at, n);
    }
}

proof fn no_count_line(members: Members, lines: Seq<Seq<char>>)
    requires
        keys_increase(members),
        forall|j: int, m: nat|
            0 <= j < lines.len() ==> !#[trigger] gives_size(lines[j], "Original token count: "@, m),
    ensures
        member(with_lines(members, lines), "original_token_count"@) == member(members, "original_token_count"@),
    decreases lines.len(),
{
    if lines.len() > 0 {
        let front = lines.drop_last();
        lines_keep_order(members, front);
        a_line_says_one_thing(with_lines(members, front), lines.last(), 0, 0);
        assert forall|m: nat| !#[trigger] gives_size(lines.last(), "Original token count: "@, m) by {
            assert(lines[lines.len() - 1] == lines.last());
        }
        assert forall|j: int, m: nat| 0 <= j < front.len() implies !#[trigger] gives_size(
            front[j],
            "Original token count: "@,
            m,
        ) by {
            assert(front[j] == lines[j]);
        }
        no_count_line(members, front);
    }
}

/// A text has a header exactly where `Output:` stands on a line of its own in it; the header is
/// what stands in front of the first such line.
pub proof fn header_ends_at_the_output(text: Seq<char>)
    ensures
        (match exec_header(text) {
            Some(header) => ({
                let n = header.len() as int;
                &&& n + "\nOutput:\n"@.len() <= text.len()
                &&& header == text.take(n)
                &&& text.subrange(n, n + "\nOutput:\n"@.len()) == "\nOutput:\n"@
                &&& forall|i: int|
                    0 <= i < n ==> #[trigger] text.subrange(i, i + "\nOutput:\n"@.len())
                        != "\nOutput:\n"@
            }),
            None => forall|i: int|
                0 <= i && i + "\nOutput:\n"@.len() <= text.len() ==> #[trigger] text.subrange(
                    i,
                    i + "\nOutput:\n"@.len(),
                ) != "\nOutput:\n"@,
        }),
{
    position_is_first(text, "\nOutput:\n"@, 0);
}

/// A header is read exactly where its first line gives a chunk, and the metadata names that chunk.
/// The wall time is the one that is handed over. Nothing is named besides these, the exit code,
/// the session and the token count.
pub proof fn header_names_its_chunk(text: Seq<char>, wall_time: Option<Seq<char>>)
    ensures
        exec_members(text, wall_time) is Some <==> (exec_header(text) is Some && text_lines(
            exec_header(text)->0,
        ).len() > 0 && exists|id: Seq<char>|
            text_lines(exec_header(text)->0)[0] == #[trigger] ("Chunk ID: "@ + id)),
        exec_members(text, wall_time) matches Some(members) ==> {
            &&& member(members, "chunk_id"@) matches Some(JsonModel::Text(id)) && text_lines(
                exec_header(text)->0,
            )[0] == "Chunk ID: "@ + id
            &&& member(members, "wall_time_seconds"@) == (match wall_time {
                Some(number) => Some(JsonModel::Raw(number)),
                None => None,
            })
            &&& keys_increase(members)
            &&& forall|key: Seq<char>|
                key != "chunk_id"@ && key != "exit_code"@ && key != "session_id"@ && key
                    != "original_token_count"@ && key != "wall_time_seconds"@ ==> (
                #[trigger] member(members, key)) is None
        },
{
    keys_differ();
    match exec_header(text) {
        Some(header) => {
            let lines = text_lines(header);
            if lines.len() > 0 {
                let prefix = "Chunk ID: "@;
                match after_prefix(lines[0], prefix) {
                    Some(id) => {
                        assert(lines[0] =~= prefix + id);
                        header_members(lines, id, wall_time);
                    },
                    None => {
                        assert forall|id: Seq<char>| lines[0] != #[trigger] (prefix + id) by {
                            assert((prefix + id).take(prefix.len() as int) =~= prefix);
                        }
                    },
                }
            }
        },
        None => {},
    }
}

spec fn said(lines: Seq<Seq<char>>, id: Seq<char>, wall_time: Option<Seq<char>>) -> Members {
    let said = with_lines(
        with_member(seq![], "chunk_id"@, JsonModel::Text(id)),
        lines.drop_first(),
    );
    match wall_time {
        Some(number) => with_member(said, "wall_time_seconds"@, JsonModel::Raw(number)),
        None => said,
    }
}

proof fn header_members(lines: Seq<Seq<char>>, id: Seq<char>, wall_time: Option<Seq<char>>)
    ensures
        keys_increase(said(lines, id, wall_time)),
        member(said(lines, id, wall_time), "chunk_id"@) == Some(JsonModel::Text(id)),
        member(said(lines, id, wall_time), "wall_time_seconds"@) == (match wall_time {
            Some(number) => Some(JsonModel::Raw(number)),
            None => None,
        }),
        ({
            let first = with_member(seq![], "chunk_id"@, JsonModel::Text(id));
            &&& keys_increase(first)
            &&& forall|key: Seq<char>| key != "chunk_id"@ ==> (#[trigger] member(first, key)) is None
            &&& forall|key: Seq<char>|
                key != "wall_time_seconds"@ ==> #[trigger] member(said(lines, id, wall_time), key)
                    == member(with_lines(first, lines.drop_first()), key)
        }),
        forall|key: Seq<char>|
            key != "chunk_id"@ && key != "exit_code"@ && key != "session_id"@ && key
                != "original_token_count"@ && key != "wall_time_seconds"@ ==> (#[trigger] member(
                said(lines, id, wall_time),
                key,
            )) is None,
{
    keys_differ();
    let none: Members = seq![];
    with_member_ordered(none, "chunk_id"@, JsonModel::Text(id));
    let first = with_member(none, "chunk_id"@, JsonModel::Text(id));
    lines_keep_order(first, lines.drop_first());
    match wall_time {
        Some(number) => {
            with_member_ordered(
                with_lines(first, lines.drop_first()),
                "wall_time_seconds"@,
                JsonModel::Raw(number),
            );
        },
        None => {},
    }
}

/// An exit code is named exactly where some line behind the first says `Process exited with code`
/// and a 32-bit integer, and is that of the last such line.
pub proof fn exit_code_is_the_last_one(text: Seq<char>, wall_time: Option<Seq<char>>, at: int, n: int)
    requires
        exec_members(text, wall_time) is Some,
    ensures
        ({
            let lines = text_lines(exec_header(text)->0);
            let named = member(exec_members(text, wall_time)->0, "exit_code"@);
            &&& 0 < at < lines.len() && gives_i32(lines[at], "Process exited with code "@, n) && (forall|
                j: int,
                m: int,
            |
                at < j < lines.len() ==> !#[trigger] gives_i32(lines[j], "Process exited with code "@, m))
                ==> named == Some(JsonModel::Raw(signed_decimal(n)))
            &&& (forall|j: int, m: int|
                0 < j < lines.len() ==> !#[trigger] gives_i32(lines[j], "Process exited with code "@, m))
                ==> named is None
        }),
{
    keys_differ();
    let lines = text_lines(exec_header(text)->0);
    let rest = lines.drop_first();
    let id = after_prefix(lines[0], "Chunk ID: "@)->0;
    let first: Members = with_member(seq![], "chunk_id"@, JsonModel::Text(id));
    header_members(lines, id, wall_time);
    assert(exec_members(text, wall_time)->0 == said(lines, id, wall_time));
    if 0 < at < lines.len() && gives_i32(lines[at], "Process exited with code "@, n) && (forall|j: int, m: int|
        at < j < lines.len() ==> !#[trigger] gives_i32(lines[j], "Process exited with code "@, m)) {
        assert(rest[at - 1] == lines[at]);
        assert forall|j: int, m: int| at - 1 < j < rest.len() implies !#[trigger] gives_i32(
            rest[j],
            "Process exited with code "@,
            m,
        ) by {
            assert(rest[j] == lines[j + 1]);
        }
        last_exit_counts(first, rest, at - 1, n);
    }
    if forall|j: int, m: int|
        0 < j < lines.len() ==> !#[trigger] gives_i32(lines[j], "Process exited with code "@, m) {
        assert forall|j: int, m: int| 0 <= j < rest.len() implies !#[trigger] gives_i32(
            rest[j],
            "Process exited with code "@,
            m,
        ) by {
            assert(rest[j] == lines[j + 1]);
        }
        no_exit_line(first, rest);
    }
}

/// A session is named exactly where some line behind the first says `Process running with session
/// ID` and a 32-bit integer, and is that of the last such line.
pub proof fn session_is_the_last_one(text: Seq<char>, wall_time: Option<Seq<char>>, at: int, n: int)
    requires
        exec_members(text, wall_time) is Some,
    ensures
        ({
            let lines = text_lines(exec_header(text)->0);
            let named = member(exec_members(text, wall_time)->0, "session_id"@);
            &&& 0 < at < lines.len() && gives_i32(lines[at], "Process running with session ID "@, n) && (forall|
                j: int,
                m: int,
            |
                at < j < lines.len() ==> !#[trigger] gives_i32(lines[j], "Process running with session ID "@, m))
                ==> named == Some(JsonModel::Raw(signed_decimal(n)))
            &&& (forall|j: int, m: int|
                0 < j < lines.len() ==> !#[trigger] gives_i32(lines[j], "Process running with session ID "@, m))
                ==> named is None
        }),
{
    keys_differ();
    let lines = text_lines(exec_header(text)->0);
    let rest = lines.drop_first();
    let id = after_prefix(lines[0], "Chunk ID: "@)->0;
    let first: Members = with_member(seq![], "chunk_id"@, JsonModel::Text(id));
    header_members(lines, id, wall_time);
    assert(exec_members(text, wall_time)->0 == said(lines, id, wall_time));
    if 0 < at < lines.len() && gives_i32(lines[at], "Process running with session ID "@, n) && (forall|j: int, m: int|
        at < j < lines.len() ==> !#[trigger] gives_i32(lines[j], "Process running with session ID "@, m)) {
        assert(rest[at - 1] == lines[at]);
        assert forall|j: int, m: int| at - 1 < j < rest.len() implies !#[trigger] gives_i32(
            rest[j],
            "Process running with session ID "@,
            m,
        ) by {
            assert(rest[j] == lines[j + 1]);
        }
        last_session_counts(first, rest, at - 1, n);
    }
    if forall|j: int, m: int|
        0 < j < lines.len() ==> !#[trigger] gives_i32(lines[j], "Process running with session ID "@, m) {
        assert forall|j: int, m: int| 0 <= j < rest.len() implies !#[trigger] gives_i32(
            rest[j],
            "Process running with session ID "@,
            m,
        ) by {
            assert(rest[j] == lines[j + 1]);
        }
        no_session_line(first, rest);
    }
}

/// A token count is named exactly where some line behind the first says `Original token count:` and
/// a size, and is that of the last such line.
pub proof fn token_count_is_the_last_one(text: Seq<char>, wall_time: Option<Seq<char>>, at: int, n: nat)
    requires
        exec_members(text, wall_time) is Some,
    ensures
        ({
            let lines = text_lines(exec_header(text)->0);
            let named = member(exec_members(text, wall_time)->0, "original_token_count"@);
            &&& 0 < at < lines.len() && gives_size(lines[at], "Original token count: "@, n) && (forall|
                j: int,
                m: nat,
            |
                at < j < lines.len() ==> !#[trigger] gives_size(lines[j], "Original token count: "@, m))
                ==> named == Some(JsonModel::Unsigned(n as u64))
            &&& (forall|j: int, m: nat|
                0 < j < lines.len() ==> !#[trigger] gives_size(lines[j], "Original token count: "@, m))
                ==> named is None
        }),
{
    keys_differ();
    let lines = text_lines(exec_header(text)->0);
    let rest = lines.drop_first();
    let id = after_prefix(lines[0], "Chunk ID: "@)->0;
    let first: Members = with_member(seq![], "chunk_id"@, JsonModel::Text(id));
    header_members(lines, id, wall_time);
    assert(exec_members(text, wall_time)->0 == said(lines, id, wall_time));
    if 0 < at < lines.len() && gives_size(lines[at], "Original token count: "@, n) && (forall|j: int, m: nat|
        at < j < lines.len() ==> !#[trigger] gives_size(lines[j], "Original token count: "@, m)) {
        assert(rest[at - 1] == lines[at]);
        assert forall|j: int, m: nat| at - 1 < j < rest.len() implies !#[trigger] gives_size(
            rest[j],
            "Original token count: "@,
            m,
        ) by {
            assert(rest[j] == lines[j + 1]);
        }
        last_count_counts(first, rest, at - 1, n);
    }
    if forall|j: int, m: nat|
        0 < j < lines.len() ==> !#[trigger] gives_size(lines[j], "Original token count: "@, m) {
        assert forall|j: int, m: nat| 0 <= j < rest.len() implies !#[trigger] gives_size(
            rest[j],
            "Original token count: "@,
            m,
        ) by {
            assert(rest[j] == lines[j + 1]);
        }
        no_count_line(first, rest);
    }
}

/// An integer is read from its decimal form, whatever stands in front of it: the line that is
/// written with it gives it.
pub proof fn written_integers_are_given(prefix: Seq<char>, n: int, size: nat)
    requires
        -0x8000_0000 <= n <= 0x7fff_ffff,
        size <= usize::MAX,
    ensures
        gives_i32(prefix + signed_decimal(n), prefix, n),
        gives_size(prefix + signed_decimal(size as int), prefix, size),
{
    decimal_reads(size);
    let text = signed_decimal(n);
    if n < 0 {
        decimal_reads((-n) as nat);
        assert(text.skip(1) =~= crate::numbers::decimal((-n) as nat));
    } else {
        decimal_reads(n as nat);
        assert(crate::numbers::is_digit(text[0]));
    }
    assert(crate::numbers::is_digit(signed_decimal(size as int)[0]));
    assert(signed_value(text) == Some(n));
    assert(prefix + text == prefix + signed_decimal(n));
    assert(unsigned_value(signed_decimal(size as int)) == Some(size));
}

/// The wall times of a header are what stands between `Wall time: ` and ` seconds` on its lines
/// behind the first: on all of them, in order.
pub proof fn wall_times_are_all_listed(a: Seq<Seq<char>>, b: Seq<Seq<char>>, time: Seq<char>)
    ensures
        wall_times(a + b) == wall_times(a) + wall_times(b),
        wall_times(seq!["Wall time: "@ + time + " seconds"@]) == seq![time],
        forall|line: Seq<char>|
            (forall|t: Seq<char>| line != #[trigger] ("Wall time: "@ + t + " seconds"@)) ==> (
            #[trigger] wall_times(seq![line])).len() == 0,
    decreases b.len(),
{
    let none: Seq<Seq<char>> = seq![];
    let (prefix, suffix) = ("Wall time: "@, " seconds"@);
    assert forall|line: Seq<char>| #[trigger] wall_times(seq![line]) == (match wall_time_of(line) {
        Some(t) => seq![t],
        None => none,
    }) by {
        assert(seq![line].drop_last() =~= none);
        assert(seq![line].last() == line);
        assert(wall_times(none) =~= none);
        assert(none.push(wall_time_of(line)->0) =~= seq![wall_time_of(line)->0]);
    }
    let own = prefix + time + suffix;
    assert(own.take(prefix.len() as int) =~= prefix);
    let rest = own.skip(prefix.len() as int);
    assert(rest =~= time + suffix);
    assert(rest.skip(rest.len() - suffix.len()) =~= suffix);
    assert(rest.take(rest.len() - suffix.len()) =~= time);
    assert(wall_time_of(own) == Some(time));
    assert forall|line: Seq<char>|
        (forall|t: Seq<char>| line != #[trigger] ("Wall time: "@ + t + " seconds"@)) implies (
    #[trigger] wall_times(seq![line])).len() == 0 by {
        match wall_time_of(line) {
            Some(t) => {
                assert(line =~= prefix + t + suffix) by {
                    let rest = line.skip(prefix.len() as int);
                    assert(line =~= prefix + rest);
                    assert(rest =~= t + suffix);
                }
            },
            None => {},
        }
    }
    if b.len() == 0 {
        assert(a + b =~= a);
        assert(wall_times(a + b) =~= wall_times(a) + wall_times(b));
    } else {
        wall_times_are_all_listed(a, b.drop_last(), time);
        assert((a + b).drop_last() =~= a + b.drop_last());
        assert((a + b).last() == b.last());
        assert(wall_times(a + b) =~= wall_times(a) + wall_times(b));
    }
}

/// The wall times of a text are those of its header's lines behind the first; a text without a
/// header has none.
pub proof fn wall_times_stand_in_the_header(text: Seq<char>)
    ensures
        exec_header(text) is None ==> header_wall_times(text).len() == 0,
        exec_header(text) matches Some(header) ==> (if text_lines(header).len() > 0 {
            header_wall_times(text) == wall_times(text_lines(header).skip(1))
        } else {
            header_wall_times(text).len() == 0
        }),
{
    match exec_header(text) {
        Some(header) => {
            let lines = text_lines(header);
            if lines.len() > 0 {
                assert(lines.skip(1) =~= lines.drop_first());
            }
        },
        None => {},
    }
}

} // verus!
