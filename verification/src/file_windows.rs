//! Reading a whole file window by window: the windows do not depend on how a stream cuts the file
//! into chunks, every window of a text file can be read, and together they are the file.

use vstd::prelude::*;
use vstd::utf8::*;

use crate::io_error::IoErrorKind;
use crate::read_file_snapshot::{
    end_window, refused, run, EventModel, FileMetadata, SnapshotPhase, TransactionModel,
};
use crate::read_file_window::{
    bounds_error, char_fits, chunk_within, fault_error, lines_full, scan_exact, stream_bytes,
    window_at_end, window_cursor, window_ending, window_exact, window_is_exact, window_of_chunks,
    window_result, window_scan, within_bounds, ReadFileWindowBounds, WindowFault, WindowModel,
    WindowScan, MAX_EMPTY_CHUNKS,
};
use crate::text::{
    encode_concat, encode_empty, encode_one, utf8_len, utf8_len_bounds, utf8_len_prefix,
};
use crate::utf8_scan::{partial_scalar, whole_scalar};

verus! {

/// What a stream delivers.
pub type Chunks = Seq<Result<Seq<u8>, (IoErrorKind, Seq<char>)>>;

/// Whether a stream delivers without an error, and never too many chunks without a byte one after
/// the other, `empty` of them before it starts.
pub open spec fn steady(chunks: Chunks, empty: nat) -> bool
    decreases chunks.len(),
{
    if chunks.len() == 0 {
        true
    } else {
        match chunks[0] {
            Err(_) => false,
            Ok(chunk) => if chunk.len() == 0 {
                empty < MAX_EMPTY_CHUNKS && steady(chunks.drop_first(), empty + 1)
            } else {
                steady(chunks.drop_first(), 0)
            },
        }
    }
}

/// The first bytes of `data`, up to the declared end of the file.
pub open spec fn data_within(left: int, data: Seq<u8>) -> Seq<u8> {
    if left < data.len() {
        data.take(left)
    } else {
        data
    }
}

/// The result of reading `data` into a window that holds `text` and `pending`.
pub open spec fn window_of_bytes(
    bounds: ReadFileWindowBounds,
    file_size: u64,
    text: Seq<char>,
    pending: Seq<u8>,
    data: Seq<u8>,
) -> Result<WindowModel, (IoErrorKind, Seq<char>)> {
    let bytes = data_within(file_size - window_cursor(bounds, text, pending), data);
    match window_scan(bounds, text, pending, bytes) {
        WindowScan::Fault(fault) => Err(fault_error(bounds, fault)),
        WindowScan::Cut { text, next } => Ok(
            window_ending(bounds, file_size, text, bounds.offset + utf8_len(text), next != '\n'),
        ),
        WindowScan::LinesFull { text } => Ok(
            window_ending(bounds, file_size, text, bounds.offset + utf8_len(text), false),
        ),
        WindowScan::More { text, pending } => window_at_end(bounds, file_size, text, pending),
    }
}

/// Bytes can be scanned in two parts.
proof fn scan_in_parts(
    bounds: ReadFileWindowBounds,
    text: Seq<char>,
    pending: Seq<u8>,
    a: Seq<u8>,
    b: Seq<u8>,
)
    ensures
        window_scan(bounds, text, pending, a + b) == (match window_scan(
            bounds,
            text,
            pending,
            a,
        ) {
            WindowScan::More { text, pending } => window_scan(bounds, text, pending, b),
            other => other,
        }),
    decreases a.len(),
{
    if a.len() == 0 {
        assert(a + b =~= b);
    } else {
        let unit = pending.push(a[0]);
        let c = decode_first_scalar(unit) as char;
        assert((a + b).drop_first() =~= a.drop_first() + b);
        assert((a + b)[0] == a[0]);
        scan_in_parts(bounds, text.push(c), seq![], a.drop_first(), b);
        scan_in_parts(bounds, text, unit, a.drop_first(), b);
    }
}

/// A steady stream is read like its bytes in one piece.
proof fn chunks_are_bytes(
    bounds: ReadFileWindowBounds,
    file_size: u64,
    text: Seq<char>,
    pending: Seq<u8>,
    empty: nat,
    chunks: Chunks,
)
    requires
        within_bounds(bounds, text),
        !lines_full(bounds, text),
        pending.len() == 0 || partial_scalar(pending),
        window_cursor(bounds, text, pending) <= file_size,
        steady(chunks, empty),
    ensures
        window_of_chunks(bounds, file_size, text, pending, empty, chunks) == window_of_bytes(
            bounds,
            file_size,
            text,
            pending,
            stream_bytes(chunks),
        ),
    decreases chunks.len(),
{
    let data = stream_bytes(chunks);
    let left = file_size - window_cursor(bounds, text, pending);
    if chunks.len() == 0 {
        assert(data_within(left, data) =~= Seq::<u8>::empty());
    } else {
        let chunk = chunks[0]->Ok_0;
        let later = stream_bytes(chunks.drop_first());
        assert(data =~= chunk + later);
        if chunk.len() == 0 {
            assert(data =~= later);
            chunks_are_bytes(bounds, file_size, text, pending, empty + 1, chunks.drop_first());
        } else {
            let bytes = chunk_within(bounds, file_size, text, pending, chunk);
            scan_exact(bounds, text, pending, bytes);
            if left <= chunk.len() {
                assert(data_within(left, data) =~= bytes);
                if let WindowScan::More { text: t, pending: p } = window_scan(
                    bounds,
                    text,
                    pending,
                    bytes,
                ) {
                    assert((encode_utf8(text) + pending + bytes).len() == (encode_utf8(t)
                        + p).len());
                }
            } else {
                assert(bytes == chunk);
                let rest = data_within(left - chunk.len(), later);
                assert(data_within(left, data) =~= chunk + rest);
                scan_in_parts(bounds, text, pending, chunk, rest);
                if let WindowScan::More { text: t, pending: p } = window_scan(
                    bounds,
                    text,
                    pending,
                    chunk,
                ) {
                    assert((encode_utf8(text) + pending + bytes).len() == (encode_utf8(t)
                        + p).len());
                    assert(file_size - window_cursor(bounds, t, p) == left - chunk.len());
                    chunks_are_bytes(bounds, file_size, t, p, 0, chunks.drop_first());
                }
            }
        }
    }
}

proof fn steady_result(bounds: ReadFileWindowBounds, file_size: u64, chunks: Chunks)
    requires
        steady(chunks, 0),
        bounds_error(bounds, file_size) is None,
    ensures
        window_result(bounds, file_size, chunks) == window_of_bytes(
            bounds,
            file_size,
            seq![],
            seq![],
            stream_bytes(chunks),
        ),
{
    encode_empty();
    chunks_are_bytes(bounds, file_size, seq![], seq![], 0, chunks);
}

/// How a stream cuts a file into chunks does not matter: two streams that deliver the same bytes,
/// neither with an error or with too many empty chunks in a row, give the same result.
pub proof fn chunks_do_not_matter(
    bounds: ReadFileWindowBounds,
    file_size: u64,
    a: Chunks,
    b: Chunks,
)
    requires
        steady(a, 0),
        steady(b, 0),
        stream_bytes(a) == stream_bytes(b),
    ensures
        window_result(bounds, file_size, a) == window_result(bounds, file_size, b),
{
    if bounds_error(bounds, file_size) is None {
        steady_result(bounds, file_size, a);
        steady_result(bounds, file_size, b);
    }
}

/// The bytes of one character.
proof fn scalar_bytes(c: char)
    requires
        c != '\0',
    ensures
        ({
            let p = encode_utf8(seq![c]);
            &&& 0 < p.len() <= 4
            &&& p == encode_scalar(c as u32)
            &&& whole_scalar(p)
            &&& decode_first_scalar(p) as char == c
            &&& !is_continuation_byte(p[0])
            &&& forall|i: int| 0 <= i < p.len() ==> #[trigger] p[i] != 0
            &&& forall|n: int|
                0 < n < p.len() ==> partial_scalar(#[trigger] p.take(n)) && !whole_scalar(
                    p.take(n),
                )
        }),
{
    let p = encode_utf8(seq![c]);
    encode_one(c);
    encode_utf8_first_scalar(seq![c]);
    char_u32_cast(c, decode_first_scalar(p));
    assert(valid_first_scalar(p));
    assert(length_of_first_scalar(p) == p.len());
    assert(0u8 & 0x7f == 0u8) by (bit_vector);
    assert forall|n: int| 0 < n < p.len() implies partial_scalar(#[trigger] p.take(n))
        && !whole_scalar(p.take(n)) by {
        assert(p.take(n)[0] == p[0]);
    }
}

/// The rest of the bytes of a character, and what follows it.
proof fn scan_rest_of_char(
    bounds: ReadFileWindowBounds,
    text: Seq<char>,
    c: char,
    n: int,
    tail: Seq<u8>,
)
    requires
        c != '\0',
        0 <= n < encode_utf8(seq![c]).len(),
    ensures
        window_scan(
            bounds,
            text,
            encode_utf8(seq![c]).take(n),
            encode_utf8(seq![c]).skip(n) + tail,
        ) == (if !char_fits(bounds, text, c) {
            if text.len() == 0 {
                WindowScan::Fault(WindowFault::FirstCharacterTooLarge)
            } else {
                WindowScan::Cut { text, next: c }
            }
        } else if lines_full(bounds, text.push(c)) {
            WindowScan::LinesFull { text: text.push(c) }
        } else {
            window_scan(bounds, text.push(c), seq![], tail)
        }),
    decreases encode_utf8(seq![c]).len() - n,
{
    let p = encode_utf8(seq![c]);
    scalar_bytes(c);
    let bytes = p.skip(n) + tail;
    let unit = p.take(n).push(bytes[0]);
    assert(bytes[0] == p[n]);
    assert(unit =~= p.take(n + 1));
    if n + 1 == p.len() {
        assert(p.take(n + 1) =~= p);
        assert(bytes.drop_first() =~= tail);
    } else {
        assert(bytes.drop_first() =~= p.skip(n + 1) + tail);
        scan_rest_of_char(bounds, text, c, n + 1, tail);
    }
}

/// The least limits that let every character into an empty window.
pub open spec fn roomy(bounds: ReadFileWindowBounds) -> bool {
    bounds.max_bytes >= 4 && bounds.max_line_fragments > 0 && bounds.max_line_fragment_chars > 0
}

/// Whether a text has no NUL character.
pub open spec fn without_nul(text: Seq<char>) -> bool {
    forall|i: int| 0 <= i < text.len() ==> #[trigger] text[i] != '\0'
}

/// A scan of a text takes a part of it, or all of it.
proof fn scan_of_text(bounds: ReadFileWindowBounds, text: Seq<char>, rest: Seq<char>)
    requires
        roomy(bounds),
        without_nul(rest),
    ensures
        match window_scan(bounds, text, seq![], encode_utf8(rest)) {
            WindowScan::More { text: t, pending } => pending.len() == 0 && t == text + rest,
            WindowScan::LinesFull { text: t } => exists|k: int|
                0 <= k <= rest.len() && t == text + #[trigger] rest.take(k),
            WindowScan::Cut { text: t, .. } => exists|k: int|
                0 <= k <= rest.len() && t == text + #[trigger] rest.take(k),
            WindowScan::Fault(_) => false,
        },
    decreases rest.len(),
{
    if rest.len() == 0 {
        assert(rest =~= Seq::<char>::empty());
        encode_empty();
        assert(text + rest =~= text);
    } else {
        let c = rest[0];
        let later = rest.drop_first();
        let p = encode_utf8(seq![c]);
        scalar_bytes(c);
        encode_one(c);
        assert(rest =~= seq![c] + later);
        encode_concat(seq![c], later);
        assert(p.take(0) =~= Seq::<u8>::empty());
        assert(p.skip(0) + encode_utf8(later) =~= encode_utf8(rest));
        scan_rest_of_char(bounds, text, c, 0, encode_utf8(later));
        if text.len() == 0 {
            assert(text =~= Seq::<char>::empty());
            encode_empty();
            assert(char_fits(bounds, text, c));
        }
        if !char_fits(bounds, text, c) {
            assert(text + rest.take(0) =~= text);
        } else if lines_full(bounds, text.push(c)) {
            assert(text + rest.take(1) =~= text.push(c));
        } else {
            assert forall|i: int| 0 <= i < later.len() implies #[trigger] later[i] != '\0' by {
                assert(later[i] == rest[i + 1]);
            }
            scan_of_text(bounds, text.push(c), later);
            match window_scan(bounds, text, seq![], encode_utf8(rest)) {
                WindowScan::More { text: t, pending } => {
                    assert(text.push(c) + later =~= text + rest);
                },
                WindowScan::LinesFull { text: t } => {
                    let k = choose|k: int|
                        0 <= k <= later.len() && t == text.push(c) + #[trigger] later.take(k);
                    assert(text.push(c) + later.take(k) =~= text + rest.take(k + 1));
                },
                WindowScan::Cut { text: t, next } => {
                    let k = choose|k: int|
                        0 <= k <= later.len() && t == text.push(c) + #[trigger] later.take(k);
                    assert(text.push(c) + later.take(k) =~= text + rest.take(k + 1));
                },
                WindowScan::Fault(_) => {},
            }
        }
    }
}

/// Whether a stream delivers a text file from character `at` on, and the offset is the one of
/// that character.
pub open spec fn delivers(file: Seq<char>, at: int, offset: u64, chunks: Chunks) -> bool {
    &&& 0 <= at <= file.len()
    &&& offset == utf8_len(file.take(at))
    &&& steady(chunks, 0)
    &&& stream_bytes(chunks) == encode_utf8(file.skip(at))
}

/// A text file without a NUL character can be read from every character on, with any limits that
/// let every character in, and the window holds the next characters of the file.
pub proof fn text_file_is_read(
    file: Seq<char>,
    at: int,
    bounds: ReadFileWindowBounds,
    chunks: Chunks,
)
    requires
        without_nul(file),
        utf8_len(file) <= u64::MAX,
        roomy(bounds),
        delivers(file, at, bounds.offset, chunks),
    ensures
        window_result(bounds, utf8_len(file) as u64, chunks) matches Ok(window) && {
            &&& at + window.text.len() <= file.len()
            &&& window.text == file.subrange(at, at + window.text.len())
            &&& window.eof == (at + window.text.len() == file.len())
            &&& window_is_exact(bounds, utf8_len(file) as u64, stream_bytes(chunks), window)
        },
{
    let size = utf8_len(file) as u64;
    let rest = file.skip(at);
    utf8_len_prefix(file, at);
    encode_empty();
    steady_result(bounds, size, chunks);
    assert forall|i: int| 0 <= i < rest.len() implies #[trigger] rest[i] != '\0' by {
        assert(rest[i] == file[at + i]);
    }
    scan_of_text(bounds, seq![], rest);
    assert(data_within(size - window_cursor(bounds, seq![], seq![]), encode_utf8(rest))
        =~= encode_utf8(rest));
    let none = Seq::<char>::empty();
    assert(none + rest =~= rest);
    window_exact(bounds, size, chunks);
    let window = window_result(bounds, size, chunks)->Ok_0;
    let k: int = match window_scan(bounds, seq![], seq![], encode_utf8(rest)) {
        WindowScan::LinesFull { text: t } => choose|k: int|
            0 <= k <= rest.len() && t == none + #[trigger] rest.take(k),
        WindowScan::Cut { text: t, .. } => choose|k: int|
            0 <= k <= rest.len() && t == none + #[trigger] rest.take(k),
        _ => rest.len() as int,
    };
    assert(none + rest.take(k) =~= rest.take(k));
    assert(rest.take(rest.len() as int) =~= rest);
    assert(window.text == rest.take(k));
    assert(window.text =~= file.subrange(at, at + k));
    utf8_len_prefix(rest, k);
    utf8_len_bounds(rest.skip(k));
    if k == rest.len() {
        assert(rest.skip(k) =~= Seq::<char>::empty());
    }
}

/// The limits at another offset.
pub open spec fn at_offset(bounds: ReadFileWindowBounds, offset: u64) -> ReadFileWindowBounds {
    ReadFileWindowBounds { offset, ..bounds }
}

/// The windows that are read one after the other, each at the `next_offset` of the one before,
/// until one reaches the end of the file. `streams` is what the file delivers from an offset on.
pub open spec fn windows_from(
    bounds: ReadFileWindowBounds,
    file_size: u64,
    streams: spec_fn(u64) -> Chunks,
    offset: u64,
) -> Option<Seq<WindowModel>>
    decreases file_size - offset,
{
    match window_result(at_offset(bounds, offset), file_size, streams(offset)) {
        Err(_) => None,
        Ok(window) => match window.next_offset {
            None => Some(seq![window]),
            Some(next) => if offset < next <= file_size {
                match windows_from(bounds, file_size, streams, next as u64) {
                    Some(later) => Some(seq![window] + later),
                    None => None,
                }
            } else {
                None
            },
        },
    }
}

/// The texts of windows, joined.
pub open spec fn joined_text(windows: Seq<WindowModel>) -> Seq<char>
    decreases windows.len(),
{
    if windows.len() == 0 {
        seq![]
    } else {
        windows[0].text + joined_text(windows.drop_first())
    }
}

/// Whether windows follow each other without a gap or an overlap, and the last and no other ends
/// at the end of the file.
pub open spec fn windows_join(windows: Seq<WindowModel>) -> bool {
    &&& windows.len() > 0
    &&& forall|i: int|
        0 < i < windows.len() ==> (#[trigger] windows[i]).start_byte == windows[i - 1].end_byte
    &&& forall|i: int|
        0 <= i < windows.len() ==> (#[trigger] windows[i]).eof == (i == windows.len() - 1)
}

/// Whether a file delivers its text from the offset of each of its characters on.
pub open spec fn file_delivers(file: Seq<char>, streams: spec_fn(u64) -> Chunks) -> bool {
    forall|at: int, offset: u64|
        #![trigger file.take(at), streams(offset)]
        0 <= at <= file.len() && offset == utf8_len(file.take(at)) ==> delivers(
            file,
            at,
            offset,
            streams(offset),
        )
}

/// Reading on at `next_offset` until the end gives back the whole file: of a text file without a
/// NUL character that does not change, with any limits that let every character in, every window
/// can be read, there are finitely many, each starts where the one before ended, and their texts
/// together are the text of the file.
pub proof fn whole_file_is_read(
    file: Seq<char>,
    at: int,
    bounds: ReadFileWindowBounds,
    streams: spec_fn(u64) -> Chunks,
)
    requires
        without_nul(file),
        utf8_len(file) <= u64::MAX,
        roomy(bounds),
        file_delivers(file, streams),
        0 <= at <= file.len(),
    ensures
        windows_from(
            bounds,
            utf8_len(file) as u64,
            streams,
            utf8_len(file.take(at)) as u64,
        ) matches Some(windows) && {
            &&& windows_join(windows)
            &&& windows[0].start_byte == utf8_len(file.take(at))
            &&& joined_text(windows) == file.skip(at)
        },
    decreases file.len() - at,
{
    let size = utf8_len(file) as u64;
    utf8_len_prefix(file, at);
    let offset = utf8_len(file.take(at)) as u64;
    let here = at_offset(bounds, offset);
    assert(delivers(file, at, offset, streams(offset)));
    text_file_is_read(file, at, here, streams(offset));
    let window = window_result(here, size, streams(offset))->Ok_0;
    let next = at + window.text.len();
    let windows = windows_from(bounds, size, streams, offset)->0;
    if window.eof {
        assert(windows =~= seq![window]);
        assert(windows.drop_first() =~= Seq::<WindowModel>::empty());
        assert(joined_text(windows.drop_first()) =~= Seq::<char>::empty());
        assert(joined_text(windows) =~= file.skip(at));
    } else {
        utf8_len_bounds(window.text);
        utf8_len_prefix(file, next);
        assert(file.take(next) =~= file.take(at) + window.text);
        encode_concat(file.take(at), window.text);
        assert(window.next_offset == Some(utf8_len(file.take(next))));
        whole_file_is_read(file, next, bounds, streams);
        let later = windows_from(bounds, size, streams, utf8_len(file.take(next)) as u64)->0;
        assert(windows =~= seq![window] + later);
        assert(windows.drop_first() =~= later);
        assert(joined_text(windows) =~= window.text + file.skip(next));
        assert(joined_text(windows) =~= file.skip(at));
        assert forall|i: int| 0 < i < windows.len() implies (#[trigger] windows[i]).start_byte
            == windows[i - 1].end_byte by {
            assert(windows[i] == later[i - 1]);
            if i > 1 {
                assert(windows[i - 1] == later[i - 2]);
            }
        }
        assert forall|i: int| 0 <= i < windows.len() implies (#[trigger] windows[i]).eof == (i
            == windows.len() - 1) by {
            if i > 0 {
                assert(windows[i] == later[i - 1]);
            }
        }
    }
}

/// What a file that does not change answers while a part of it is read.
pub open spec fn unchanged_answers(
    bounds: ReadFileWindowBounds,
    path: Seq<char>,
    metadata: FileMetadata,
    first: Chunks,
    second: Chunks,
) -> Seq<EventModel> {
    if bounds.offset == metadata.size {
        seq![
            EventModel::Path(Ok(path)),
            EventModel::Metadata(Ok(metadata)),
            EventModel::Metadata(Ok(metadata)),
            EventModel::Path(Ok(path)),
        ]
    } else {
        seq![
            EventModel::Path(Ok(path)),
            EventModel::Metadata(Ok(metadata)),
            EventModel::Window(window_result(bounds, metadata.size, first)),
            EventModel::Metadata(Ok(metadata)),
            EventModel::Path(Ok(path)),
            EventModel::Window(window_result(bounds, metadata.size, second)),
        ]
    }
}

/// A transaction on a text file that does not change succeeds with the window that the file has
/// at that offset, however its two streams cut it into chunks.
pub proof fn unchanged_file_gives_its_window(
    file: Seq<char>,
    at: int,
    start: TransactionModel,
    path: Seq<char>,
    metadata: FileMetadata,
    first: Chunks,
    second: Chunks,
)
    requires
        without_nul(file),
        utf8_len(file) <= u64::MAX,
        roomy(start.bounds),
        delivers(file, at, start.bounds.offset, first),
        delivers(file, at, start.bounds.offset, second),
        start.phase == SnapshotPhase::Path,
        metadata.size == utf8_len(file),
        refused(start.bounds, start.offsets_supported, metadata) is None,
    ensures
        run(
            start,
            unchanged_answers(start.bounds, path, metadata, first, second),
        ) matches Ok(done) && {
            &&& done.phase == SnapshotPhase::Done
            &&& done.canonical_path == path
            &&& done.metadata == metadata
            &&& window_result(start.bounds, metadata.size, first) == window_found(done.window)
        },
{
    let events = unchanged_answers(start.bounds, path, metadata, first, second);
    text_file_is_read(file, at, start.bounds, first);
    chunks_do_not_matter(start.bounds, metadata.size, first, second);
    let window = window_result(start.bounds, metadata.size, first)->Ok_0;
    utf8_len_prefix(file, at);
    utf8_len_bounds(file.skip(at));
    utf8_len_bounds(window.text);
    reveal_with_fuel(run, 8);
    let rest1 = events.drop_first();
    let rest2 = rest1.drop_first();
    let rest3 = rest2.drop_first();
    let rest4 = rest3.drop_first();
    assert(rest1[0] == events[1] && rest2[0] == events[2] && rest3[0] == events[3]);
    if start.bounds.offset == metadata.size {
        assert(rest4.len() == 0);
        assert(at == file.len());
        assert(window.text =~= Seq::<char>::empty());
        assert(window == end_window(start.bounds.offset));
    } else {
        let rest5 = rest4.drop_first();
        assert(rest4[0] == events[4] && rest5[0] == events[5]);
        assert(window.text.len() > 0);
    }
}

/// That a window was read.
pub open spec fn window_found(window: WindowModel) -> Result<
    WindowModel,
    (IoErrorKind, Seq<char>),
> {
    Ok(window)
}

} // verus!
