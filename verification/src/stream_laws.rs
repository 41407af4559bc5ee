//! What is kept of a stream, what a window of it may hold, and how a search of it ends.

use vstd::prelude::*;

use crate::artifact_search::{all_matches, search_found};
use crate::head_tail_buffer::{
    ends_of, nothing_kept, omission_marker_text, pushed, pushed_buffer, recorded, recorded_buffer,
    KeptBytes,
};
use crate::io_error::IoErrorKind;
use crate::numbers::decimal;
use crate::read_file_snapshot::{
    advanced, changed, end_window, refused, same_file, sees_change, EventModel, FileMetadata, SnapshotPhase,
    TransactionModel,
};
use crate::read_file_window::{
    bounds_error, char_fits, chunk_within, fault_error, line_chars, line_fragments, line_open,
    lines_full, newlines, window_at_end, window_ending, within_bounds, ReadFileWindowBounds,
    WindowFault, WindowModel,
};
use crate::text::{encode_push, utf8_len};

verus! {

/// A buffer keeps half of its size of the start of a stream, and the rest of its size of the end; of
/// a stream that fits, everything, in order. What lies between is counted. The whole stream is
/// recorded as long as it is within the limit, where there is one.
pub proof fn buffers_keep_both_ends(max: int, stream: Seq<u8>, limit: Option<usize>)
    requires
        max >= 0,
        stream.len() <= usize::MAX,
    ensures
        ({
            let kept = ends_of(max, stream, limit);
            let (h, t) = (kept.head.len() as int, kept.tail.len() as int);
            &&& kept.head == stream.take(h) && kept.tail == stream.skip(stream.len() - t)
            &&& h + t + kept.omitted == stream.len()
            &&& stream.len() <= max ==> kept.omitted == 0 && kept.head + kept.tail == stream
            &&& stream.len() > max ==> h == max / 2 && h + t == max
            &&& (match limit {
                Some(n) => if stream.len() <= n {
                    kept.complete == Some(stream) && !kept.exceeded
                } else {
                    kept.complete is None && kept.exceeded
                },
                None => kept.complete is None && !kept.exceeded,
            })
            &&& kept.capture_limit == limit
        }),
{
    let kept = ends_of(max, stream, limit);
    let h = kept.head.len() as int;
    let t = kept.tail.len() as int;
    assert(kept.tail =~= stream.skip(stream.len() - t));
    if stream.len() <= max {
        assert(kept.head + kept.tail =~= stream);
    }
}

/// A buffer starts with nothing, and records from the start on exactly where it has a limit.
pub proof fn buffers_start_empty(limit: Option<usize>)
    ensures
        ({
            let kept = nothing_kept(limit);
            &&& kept.head.len() == 0 && kept.tail.len() == 0 && kept.omitted == 0
            &&& !kept.exceeded && kept.capture_limit == limit
            &&& limit is None ==> kept.complete is None
            &&& limit is Some ==> kept.complete == Some(Seq::<u8>::empty())
        }),
{
}

/// Nothing is lost unseen: what is kept and what is counted as dropped grow together by the bytes
/// that come, from a chunk or from another buffer, and the limit stays.
pub proof fn buffers_count_every_byte(kept: KeptBytes, max: int, chunk: Seq<u8>, other: KeptBytes)
    requires
        max >= 0,
        kept.omitted + kept.tail.len() + chunk.len() <= usize::MAX,
        kept.omitted + kept.tail.len() + other.omitted + other.head.len() + other.tail.len()
            <= usize::MAX,
    ensures
        ({
            let now = pushed(kept, max, chunk);
            &&& now.head.len() + now.tail.len() + now.omitted == kept.head.len() + kept.tail.len()
                + kept.omitted + chunk.len()
            &&& now.capture_limit == kept.capture_limit
            &&& kept.head.len() <= now.head.len() && now.head.take(kept.head.len() as int)
                == kept.head
        }),
        ({
            let now = pushed_buffer(kept, max, other);
            &&& now.head.len() + now.tail.len() + now.omitted == kept.head.len() + kept.tail.len()
                + kept.omitted + other.head.len() + other.tail.len() + other.omitted
            &&& now.capture_limit == kept.capture_limit
        }),
{
    let now = pushed(kept, max, chunk);
    assert(now.head.take(kept.head.len() as int) =~= kept.head);
}

/// What is recorded grows by every chunk as long as it is within the limit; beyond it nothing is
/// recorded any more. Another buffer is recorded where it recorded everything itself, and else
/// nothing is.
pub proof fn recording_stops_at_the_limit(kept: KeptBytes, chunk: Seq<u8>, other: KeptBytes)
    ensures
        (match (kept.complete, kept.capture_limit) {
            (Some(bytes), Some(limit)) => {
                &&& bytes.len() + chunk.len() <= limit ==> recorded(kept, chunk) == (
                    Some(bytes + chunk),
                    kept.exceeded,
                )
                &&& bytes.len() + chunk.len() > limit ==> recorded(kept, chunk) == (
                    None::<Seq<u8>>,
                    true,
                )
                &&& other.complete is None ==> recorded_buffer(kept, other) == (
                    None::<Seq<u8>>,
                    kept.exceeded || other.exceeded,
                )
                &&& other.complete matches Some(more) ==> (if bytes.len() + more.len() <= limit {
                    recorded_buffer(kept, other) == (Some(bytes + more), kept.exceeded)
                } else {
                    recorded_buffer(kept, other) == (None::<Seq<u8>>, true)
                })
            },
            _ => recorded(kept, chunk) == (kept.complete, kept.exceeded) && recorded_buffer(
                kept,
                other,
            ) == (kept.complete, kept.exceeded),
        }),
{
}

/// Between the two ends stands how many bytes are missing.
pub proof fn omissions_are_named(omitted: nat)
    ensures
        omission_marker_text(omitted) == "\n... "@ + decimal(omitted) + " bytes omitted ...\n"@,
{
}

/// Line ends and lines are counted alike however a text is put together: line ends add up, one
/// more line begins with a text that has no line end at its end, and the characters of the last
/// line are those behind the last line end.
pub proof fn lines_are_counted(a: Seq<char>, b: Seq<char>, c: char)
    ensures
        newlines(a + b) == newlines(a) + newlines(b),
        newlines(seq![]) == 0,
        newlines(seq![c]) == (if c == '\n' {
            1nat
        } else {
            0
        }),
        line_fragments(a) == newlines(a) + (if a.len() > 0 && a.last() != '\n' {
            1nat
        } else {
            0
        }),
        line_open(a) <==> a.len() > 0 && a[a.len() - 1] != '\n',
        line_chars(a) <= a.len(),
        forall|i: int| a.len() - line_chars(a) <= i < a.len() ==> #[trigger] a[i] != '\n',
        line_chars(a) < a.len() ==> a[a.len() - line_chars(a) - 1] == '\n',
    decreases a.len() + b.len(),
{
    let none: Seq<char> = seq![];
    assert(seq![c].drop_last() =~= none);
    assert(seq![c].last() == c);
    reveal_with_fuel(newlines, 2);
    if b.len() == 0 {
        assert(a + b =~= a);
    } else {
        lines_are_counted(a, b.drop_last(), c);
        assert((a + b).drop_last() =~= a + b.drop_last());
        assert((a + b).last() == b.last());
    }
    if a.len() > 0 && a.last() != '\n' {
        let front = a.drop_last();
        lines_are_counted(front, none, c);
        assert forall|i: int| a.len() - line_chars(a) <= i < a.len() implies #[trigger] a[i]
            != '\n' by {
            if i < a.len() - 1 {
                assert(front[i] == a[i]);
            }
        }
        if line_chars(a) < a.len() {
            assert(front[front.len() - line_chars(front) - 1] == '\n');
        }
    }
}

/// A character fits into a window that has room for its bytes and whose line has room for it; a
/// line end needs no room in the line. The lines are full at the end of the last allowed one.
pub proof fn characters_fit_windows(bounds: ReadFileWindowBounds, text: Seq<char>, c: char)
    ensures
        char_fits(bounds, text, c) <==> utf8_len(text.push(c)) <= bounds.max_bytes && (c == '\n'
            || line_chars(text) + 1 <= bounds.max_line_fragment_chars),
        lines_full(bounds, text) <==> text.len() > 0 && text[text.len() - 1] == '\n' && newlines(
            text,
        ) >= bounds.max_line_fragments,
{
    encode_push(text, c);
}

/// Whatever a window holds obeys its limits: its bytes, its lines, and the characters of every
/// line.
pub proof fn windows_obey_their_limits(bounds: ReadFileWindowBounds, text: Seq<char>)
    requires
        within_bounds(bounds, text),
        bounds.max_line_fragments > 0,
    ensures
        utf8_len(text) <= bounds.max_bytes,
        line_fragments(text) <= bounds.max_line_fragments,
        forall|n: int|
            0 <= n <= text.len() ==> line_chars(#[trigger] text.take(n))
                <= bounds.max_line_fragment_chars,
    decreases text.len(),
{
    if text.len() > 0 {
        let front = text.drop_last();
        let last = text.len() - 1;
        assert forall|n: int| 0 <= n < front.len() implies char_fits(
            bounds,
            #[trigger] front.take(n),
            front[n],
        ) && !lines_full(bounds, front.take(n)) by {
            assert(front.take(n) =~= text.take(n));
        }
        windows_obey_their_limits(bounds, front);
        assert(text.take(last) =~= front);
        assert(char_fits(bounds, text.take(last), text[last]));
        assert(text =~= front.push(text.last()));
        encode_push(front, text.last());
        assert(text.take(text.len() as int) =~= text);
        assert(!lines_full(bounds, front));
        assert forall|n: int| 0 <= n <= text.len() implies line_chars(#[trigger] text.take(n))
            <= bounds.max_line_fragment_chars by {
            if n < text.len() {
                assert(text.take(n) =~= front.take(n));
            } else {
                assert(text.take(n) =~= text);
                assert(front.take(front.len() as int) =~= front);
            }
        }
    } else {
        crate::text::encode_empty();
        assert(text =~= Seq::<char>::empty());
        assert(text.take(0) =~= text);
    }
}

/// A window that ends within the file names its end as the place to read on, and only there a line
/// can go on; one that ends at the end of the file says so.
pub proof fn windows_end(
    bounds: ReadFileWindowBounds,
    file_size: u64,
    text: Seq<char>,
    end: int,
    continues: bool,
)
    requires
        end >= 0,
    ensures
        ({
            let window = window_ending(bounds, file_size, text, end, continues);
            &&& window.text == text && window.start_byte == bounds.offset && window.end_byte == end
            &&& window.line_fragments == line_fragments(text)
            &&& end < file_size ==> window.next_offset == Some(end as nat) && !window.eof
                && window.line_continues == continues
            &&& end >= file_size ==> window.next_offset is None && window.eof
                && !window.line_continues
        }),
{
}

/// A stream that ends inside a character, or in front of the declared end of the file, is no window;
/// else the window ends where the stream does.
pub proof fn streams_end(
    bounds: ReadFileWindowBounds,
    file_size: u64,
    text: Seq<char>,
    pending: Seq<u8>,
)
    ensures
        pending.len() > 0 ==> window_at_end(bounds, file_size, text, pending) == Err::<
            WindowModel,
            (IoErrorKind, Seq<char>),
        >((IoErrorKind::InvalidData, "file ends in an incomplete UTF-8 code point"@)),
        pending.len() == 0 && bounds.offset + utf8_len(text) < file_size ==> window_at_end(
            bounds,
            file_size,
            text,
            pending,
        ) == Err::<WindowModel, (IoErrorKind, Seq<char>)>(
            (IoErrorKind::UnexpectedEof, "stream ended before the declared file size"@),
        ),
        pending.len() == 0 && bounds.offset + utf8_len(text) >= file_size ==> window_at_end(
            bounds,
            file_size,
            text,
            pending,
        ) == Ok::<WindowModel, (IoErrorKind, Seq<char>)>(
            WindowModel {
                text,
                start_byte: bounds.offset as nat,
                end_byte: (bounds.offset + utf8_len(text)) as nat,
                line_fragments: line_fragments(text),
                line_continues: false,
                next_offset: None,
                eof: true,
            },
        ),
{
}

/// What is told of bytes that no window can hold, and of limits that no window can obey.
pub proof fn faults_are_told(bounds: ReadFileWindowBounds, file_size: u64)
    ensures
        fault_error(bounds, WindowFault::Nul) == (
            IoErrorKind::InvalidData,
            "file contains NUL bytes"@,
        ),
        fault_error(bounds, WindowFault::NotUtf8) == (
            IoErrorKind::InvalidData,
            "file is not valid UTF-8"@,
        ),
        fault_error(bounds, WindowFault::FirstCharacterTooLarge) == (
            IoErrorKind::InvalidInput,
            "max_bytes is too small to include one UTF-8 character"@,
        ),
        bounds.offset > 0 ==> fault_error(bounds, WindowFault::InsideCharacter) == (
            IoErrorKind::InvalidInput,
            "offset "@ + decimal(bounds.offset as nat)
                + " is inside a UTF-8 code point; use a byte boundary near "@ + decimal(
                (bounds.offset - 1) as nat,
            ),
        ),
        bounds.offset > file_size ==> bounds_error(bounds, file_size) == Some(
            (IoErrorKind::InvalidInput, "offset is beyond the declared file size"@),
        ),
        bounds.offset <= file_size ==> bounds_error(bounds, file_size) == (if bounds.max_bytes > 0
            && bounds.max_line_fragments > 0 && bounds.max_line_fragment_chars > 0 {
            None
        } else {
            Some((IoErrorKind::InvalidInput, "read window limits must be positive"@))
        }),
{
}

/// Of a chunk no more is looked at than lies within the declared file.
pub proof fn chunks_end_with_the_file(
    bounds: ReadFileWindowBounds,
    file_size: u64,
    text: Seq<char>,
    pending: Seq<u8>,
    chunk: Seq<u8>,
)
    requires
        bounds.offset + utf8_len(text) + pending.len() <= file_size,
    ensures
        ({
            let left = file_size - bounds.offset - utf8_len(text) - pending.len();
            let part = chunk_within(bounds, file_size, text, pending, chunk);
            &&& part.len() <= left && part == chunk.take(part.len() as int)
            &&& part.len() == chunk.len() || part.len() == left
        }),
{
    let part = chunk_within(bounds, file_size, text, pending, chunk);
    assert(part =~= chunk.take(part.len() as int));
}

/// A file is refused that is no regular one, then one that ends in front of the offset, then one
/// that would have to be read from its start.
pub proof fn files_are_refused_in_order(
    bounds: ReadFileWindowBounds,
    supported: bool,
    metadata: FileMetadata,
)
    ensures
        refused(bounds, supported, metadata) == (if !metadata.is_file {
            Some((IoErrorKind::InvalidInput, "only regular files can be read"@))
        } else if bounds.offset > metadata.size {
            Some((IoErrorKind::InvalidInput, "read offset is beyond the end of the file"@))
        } else if bounds.offset > 0 && !supported {
            Some((IoErrorKind::Unsupported, "filesystem does not support efficient offset reads"@))
        } else {
            None
        }),
{
}

/// A file is the same exactly where it still is a regular one of the same size and the same times.
/// A change is told with the advice to read again.
pub proof fn changed_files_are_told(before: FileMetadata, after: FileMetadata)
    ensures
        same_file(before, after) <==> after.is_file && before.size == after.size
            && before.created_at_ms == after.created_at_ms && before.modified_at_ms
            == after.modified_at_ms,
        changed() == (
            IoErrorKind::Interrupted,
            "file changed during the read; retry read_file"@,
        ),
{
}

/// Whatever is read a second time is compared with what was read first: other metadata, another
/// path, another window or none is a change.
pub proof fn second_looks_are_compared(
    state: TransactionModel,
    metadata: FileMetadata,
    path: Seq<char>,
    window: WindowModel,
    error: (IoErrorKind, Seq<char>),
)
    ensures
        state.phase == SnapshotPhase::MetadataAgain ==> (sees_change(
            state,
            EventModel::Metadata(Ok(metadata)),
        ) <==> !same_file(state.metadata, metadata)),
        state.phase == SnapshotPhase::PathAgain ==> (sees_change(state, EventModel::Path(Ok(path)))
            <==> path != state.canonical_path),
        state.phase == SnapshotPhase::WindowAgain ==> (sees_change(
            state,
            EventModel::Window(Ok(window)),
        ) <==> window != state.window) && sees_change(state, EventModel::Window(Err(error))),
{
}

/// The window at the end of a file is empty, and there is nothing to read on.
pub proof fn end_windows_are_empty(offset: u64)
    ensures
        ({
            let window = end_window(offset);
            &&& window.text.len() == 0 && window.line_fragments == 0 && !window.line_continues
            &&& window.start_byte == offset && window.end_byte == offset
            &&& window.eof && window.next_offset is None
        }),
{
}

/// A search that finds as many matches as it may report ends with them, and goes on behind the last
/// one. One that finds fewer has looked at everything, or at the 512 KiB of its scan, and goes on
/// behind those.
pub proof fn searches_end(data: Seq<u8>, query: Seq<u8>, offset: u64, limit: usize, more: bool)
    requires
        limit > 0,
        query.len() > 0,
        offset + 524288 + query.len() <= u64::MAX,
    ensures
        ({
            let all = all_matches(data, query, offset as int, offset + 524288);
            let found = search_found(data, query, offset, limit, more);
            &&& all.len() >= limit ==> (found matches Some((offsets, next)) && offsets.len() == limit
                && offsets == all.take(limit as int) && next is Some && (offsets.last() < u64::MAX
                ==> next->0 == offsets.last() + 1))
            &&& all.len() < limit && !more ==> (found matches Some((offsets, next)) && offsets == all
                && next is None)
            &&& all.len() < limit && more && data.len() >= 524288 + query.len() - 1 ==> (
            found matches Some((offsets, next)) && offsets == all && next == Some(
                (offset + 524288) as u64,
            ))
            &&& all.len() < limit && more && data.len() < 524288 + query.len() - 1 ==> found is None
        }),
{
}

/// A snapshot is taken step by step: the path, the metadata, the window unless it starts at the
/// end of the file, the metadata and the path again, and a window that is not empty again. What was
/// seen is remembered; what is seen again must be the same.
pub proof fn snapshots_are_taken_step_by_step(
    state: TransactionModel,
    path: Seq<char>,
    metadata: FileMetadata,
    window: WindowModel,
    error: (IoErrorKind, Seq<char>),
)
    ensures
        state.phase is Path ==> (advanced(state, EventModel::Path(Ok(path))) matches Ok(next)
            && next.phase is Metadata && next.canonical_path == path && next.bounds == state.bounds
            && next.offsets_supported == state.offsets_supported && next.metadata == state.metadata
            && next.window == state.window),
        state.phase is Metadata ==> match refused(
            state.bounds,
            state.offsets_supported,
            metadata,
        ) {
            Some(error) => advanced(state, EventModel::Metadata(Ok(metadata))) == Err::<
                TransactionModel,
                (IoErrorKind, Seq<char>),
            >(error),
            None => advanced(state, EventModel::Metadata(Ok(metadata))) matches Ok(next)
                && next.metadata == metadata && next.canonical_path == state.canonical_path
                && next.bounds == state.bounds && (if state.bounds.offset == metadata.size {
                next.phase is MetadataAgain && next.window == end_window(state.bounds.offset)
            } else {
                next.phase is Window && next.window == state.window
            }),
        },
        state.phase is Window ==> (advanced(state, EventModel::Window(Ok(window))) matches Ok(next)
            && next.phase is MetadataAgain && next.window == window && next.metadata
            == state.metadata && next.canonical_path == state.canonical_path && next.bounds
            == state.bounds),
        state.phase is MetadataAgain ==> match advanced(state, EventModel::Metadata(Ok(metadata))) {
            Ok(next) => same_file(state.metadata, metadata) && next.phase is PathAgain
                && next.metadata == state.metadata && next.window == state.window
                && next.canonical_path == state.canonical_path,
            Err(error) => !same_file(state.metadata, metadata) && error == changed(),
        },
        state.phase is PathAgain ==> match advanced(state, EventModel::Path(Ok(path))) {
            Ok(next) => path == state.canonical_path && next.window == state.window && next.metadata
                == state.metadata && next.canonical_path == state.canonical_path && (
            if state.window.start_byte == state.window.end_byte {
                next.phase is Done
            } else {
                next.phase is WindowAgain
            }),
            Err(error) => path != state.canonical_path && error == changed(),
        },
        state.phase is WindowAgain ==> match advanced(state, EventModel::Window(Ok(window))) {
            Ok(next) => window == state.window && next.phase is Done && next.window == state.window
                && next.metadata == state.metadata && next.canonical_path == state.canonical_path,
            Err(error) => window != state.window && error == changed(),
        },
        advanced(state, EventModel::Path(Err(error))) == Err::<
            TransactionModel,
            (IoErrorKind, Seq<char>),
        >(error),
        advanced(state, EventModel::Metadata(Err(error))) == Err::<
            TransactionModel,
            (IoErrorKind, Seq<char>),
        >(error),
        advanced(state, EventModel::Unopened(error)) == Err::<
            TransactionModel,
            (IoErrorKind, Seq<char>),
        >(error),
        advanced(state, EventModel::Window(Err(error))) == Err::<
            TransactionModel,
            (IoErrorKind, Seq<char>),
        >(
            if state.phase is WindowAgain {
                changed()
            } else {
                error
            },
        ),
{
}

} // verus!
