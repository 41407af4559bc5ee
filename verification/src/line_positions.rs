//! Where the lines of a stored output begin, and that reading them by number finds them.

use vstd::prelude::*;
use vstd::utf8::*;

use crate::artifact_search::{match_offsets, matches_at, search_found};
use crate::read_file_window::newlines;
use crate::read_tool_output::{min_size, skipped_scan, sum_size, LineScan};
use crate::read_tool_output_window::{sum64, MAX_LINES, MAX_SEARCH_SCAN_BYTES};
use crate::text::{encode_push, utf8_len};

verus! {

/// The number of line ends in `bytes`.
pub open spec fn breaks(bytes: Seq<u8>) -> nat
    decreases bytes.len(),
{
    if bytes.len() == 0 {
        0
    } else {
        breaks(bytes.drop_last()) + (if bytes.last() == 10 {
            1nat
        } else {
            0nat
        })
    }
}

/// The number of the line that the byte at `at` stands in, counted from one.
pub open spec fn line_of(data: Seq<u8>, at: int) -> nat {
    breaks(data.take(at)) + 1
}

/// Whether a scan of `data` that skips the lines it has left arrives at the line it wants.
pub open spec fn on_course(data: Seq<u8>, scan: LineScan) -> bool {
    &&& scan.byte <= data.len()
    &&& line_of(data, scan.byte as int) + scan.lines_to_skip == scan.start_line
}

proof fn breaks_concat(a: Seq<u8>, b: Seq<u8>)
    ensures
        breaks(a + b) == breaks(a) + breaks(b),
    decreases b.len(),
{
    if b.len() == 0 {
        assert(a + b =~= a);
    } else {
        assert((a + b).drop_last() =~= a + b.drop_last());
        breaks_concat(a, b.drop_last());
    }
}

proof fn breaks_between(data: Seq<u8>, from: int, to: int)
    requires
        0 <= from <= to <= data.len(),
    ensures
        line_of(data, to) == line_of(data, from) + breaks(data.subrange(from, to)),
{
    assert(data.take(to) =~= data.take(from) + data.subrange(from, to));
    breaks_concat(data.take(from), data.subrange(from, to));
}

proof fn scalar_break(c: char)
    ensures
        breaks(encode_scalar(c as u32)) == (if c == '\n' {
            1nat
        } else {
            0nat
        }),
{
    let scalar = c as u32;
    let bytes = encode_scalar(scalar);
    reveal_with_fuel(breaks, 5);
    assert(scalar <= 0x7F ==> ((scalar & 0x7F) as u8 == 10 <==> scalar == 10)) by (bit_vector);
    assert(0xC0u8 | ((scalar >> 6) & 0x1F) as u8 != 10) by (bit_vector);
    assert(0xE0u8 | ((scalar >> 12) & 0x0F) as u8 != 10) by (bit_vector);
    assert(0xF0u8 | ((scalar >> 18) & 0x7) as u8 != 10) by (bit_vector);
    assert(0x80u8 | (scalar & 0x3F) as u8 != 10) by (bit_vector);
    assert(0x80u8 | ((scalar >> 6) & 0x3F) as u8 != 10) by (bit_vector);
    assert(0x80u8 | ((scalar >> 12) & 0x3F) as u8 != 10) by (bit_vector);
    assert forall|i: int| 0 <= i < bytes.len() implies (bytes[i] == 10 <==> scalar == 10) by {}
    if bytes.len() == 1 {
        assert(bytes.drop_last() =~= Seq::<u8>::empty());
    } else {
        assert(scalar != 10);
        no_breaks(bytes);
    }
}

proof fn no_breaks(bytes: Seq<u8>)
    requires
        forall|i: int| 0 <= i < bytes.len() ==> bytes[i] != 10,
    ensures
        breaks(bytes) == 0,
    decreases bytes.len(),
{
    if bytes.len() > 0 {
        no_breaks(bytes.drop_last());
    }
}

/// A text has as many line ends as its bytes.
pub proof fn breaks_of_text(text: Seq<char>)
    ensures
        breaks(encode_utf8(text)) == newlines(text),
    decreases text.len(),
{
    if text.len() > 0 {
        breaks_of_text(text.drop_last());
        encode_push(text.drop_last(), text.last());
        assert(text.drop_last().push(text.last()) =~= text);
        breaks_concat(encode_utf8(text.drop_last()), encode_scalar(text.last() as u32));
        scalar_break(text.last());
    } else {
        assert(encode_utf8(text) =~= Seq::<u8>::empty());
    }
}

proof fn break_matches(data: Seq<u8>, i: int)
    requires
        0 <= i < data.len(),
    ensures
        matches_at(data, seq![10u8], i) == (data[i] == 10),
{
    let here = data.subrange(i, i + 1);
    assert(here.len() == 1 && here[0] == data[i]);
    if data[i] == 10 {
        assert(here =~= seq![10u8]);
    } else if here == seq![10u8] {
        assert(here[0] == 10);
    }
}

/// How many of the first `n` bytes at `offset` lie below `scan_end`.
spec fn searched(offset: int, scan_end: int, n: int) -> int {
    if offset + n <= scan_end {
        n
    } else if offset < scan_end {
        scan_end - offset
    } else {
        0
    }
}

proof fn matches_are_breaks(data: Seq<u8>, offset: int, scan_end: int, n: int)
    requires
        0 <= n <= data.len(),
    ensures
        match_offsets(data, seq![10u8], offset, scan_end, n).len() == breaks(
            data.take(searched(offset, scan_end, n)),
        ),
    decreases n,
{
    if n == 0 {
        assert(data.take(0) =~= Seq::<u8>::empty());
    } else {
        matches_are_breaks(data, offset, scan_end, n - 1);
        break_matches(data, n - 1);
        if offset + n <= scan_end {
            assert(data.take(n).drop_last() =~= data.take(n - 1));
        } else {
            assert(searched(offset, scan_end, n) == searched(offset, scan_end, n - 1));
        }
    }
}

proof fn match_stands_behind_others(
    data: Seq<u8>,
    offset: int,
    scan_end: int,
    n: int,
    k: int,
)
    requires
        0 <= offset,
        offset + data.len() <= u64::MAX,
        0 <= n <= data.len(),
        0 <= k < match_offsets(data, seq![10u8], offset, scan_end, n).len(),
    ensures
        ({
            let at = match_offsets(data, seq![10u8], offset, scan_end, n)[k] - offset;
            &&& 0 <= at < n
            &&& data[at] == 10
            &&& breaks(data.take(at + 1)) == k + 1
        }),
    decreases n,
{
    if n > 0 {
        let before = match_offsets(data, seq![10u8], offset, scan_end, n - 1);
        break_matches(data, n - 1);
        if k < before.len() {
            match_stands_behind_others(data, offset, scan_end, n - 1, k);
        } else {
            matches_are_breaks(data, offset, scan_end, n - 1);
            assert(data.take(n).drop_last() =~= data.take(n - 1));
        }
    }
}

/// Skipping lines never loses count: a scan that is on course stays on course with every search
/// for line ends, it stops skipping at the first byte of the line it wants, and it ends early
/// only where the output has no such line.
///
/// `seen` is how many bytes of `data` the search looked at.
pub proof fn skipping_finds_the_line(data: Seq<u8>, scan: LineScan, seen: int)
    requires
        data.len() <= u64::MAX,
        on_course(data, scan),
        scan.lines_to_skip > 0,
        0 <= seen <= data.len() - scan.byte,
        scan.byte + seen <= sum64(scan.byte as int, MAX_SEARCH_SCAN_BYTES as int),
        search_found(
            data.subrange(scan.byte as int, scan.byte + seen),
            seq![10u8],
            scan.byte,
            min_size(scan.lines_to_skip, MAX_LINES),
            scan.byte + seen < data.len(),
        ) is Some,
    ensures
        ({
            let (offsets, next) = search_found(
                data.subrange(scan.byte as int, scan.byte + seen),
                seq![10u8],
                scan.byte,
                min_size(scan.lines_to_skip, MAX_LINES),
                scan.byte + seen < data.len(),
            )->0;
            match skipped_scan(scan, offsets, next) {
                Some(after) => {
                    &&& on_course(data, after)
                    &&& after.lines_to_skip == 0 ==> data[after.byte - 1] == 10
                },
                None => line_of(data, data.len() as int) < scan.start_line,
            }
        }),
{
    let from = scan.byte as int;
    let part = data.subrange(from, from + seen);
    let scan_end = sum64(from, MAX_SEARCH_SCAN_BYTES as int) as int;
    let limit = min_size(scan.lines_to_skip, MAX_LINES);
    let more = from + seen < data.len();
    let all = match_offsets(part, seq![10u8], from, scan_end, seen);
    let (offsets, next) = search_found(part, seq![10u8], scan.byte, limit, more)->0;
    matches_are_breaks(part, from, scan_end, seen);
    assert(part.take(seen) =~= part);
    breaks_between(data, from, from + seen);
    if all.len() >= limit {
        match_stands_behind_others(part, from, scan_end, seen, limit - 1);
        let at = all[limit - 1] - from;
        assert(offsets.last() == all[limit - 1]);
        assert(part.take(at + 1) =~= data.subrange(from, from + at + 1));
        breaks_between(data, from, from + at + 1);
    }
}

/// The lines of one answer end where those of the next one begin: after `text` was read, the
/// line and the byte to go on with belong together.
pub proof fn line_windows_continue(data: Seq<u8>, scan: LineScan, text: Seq<char>)
    requires
        on_course(data, scan),
        scan.lines_to_skip == 0,
        scan.byte + utf8_len(text) <= data.len() <= u64::MAX,
        data.subrange(scan.byte as int, scan.byte + utf8_len(text)) == encode_utf8(text),
        scan.start_line + newlines(text) <= usize::MAX,
    ensures
        on_course(
            data,
            LineScan {
                start_line: sum_size(scan.start_line as int, newlines(text) as int),
                byte: (scan.byte + utf8_len(text)) as u64,
                ..scan
            },
        ),
{
    breaks_of_text(text);
    breaks_between(data, scan.byte as int, scan.byte + utf8_len(text));
}

} // verus!
