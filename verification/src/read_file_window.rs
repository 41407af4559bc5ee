//! A bounded window into a UTF-8 file that is read as a stream of chunks.
//!
//! A window starts at a byte offset and holds whole characters only. It ends at the end of the
//! file, after the last allowed line, or in front of the first character that would exceed a
//! limit. Every window reports the exact byte offset at which the next one starts.

use vstd::prelude::*;
use vstd::string::*;
use vstd::utf8::*;

use crate::io_error::{IoError, IoErrorKind};
use crate::numbers::{decimal, decimal_text};
use crate::text::{
    char_byte_len, char_width, encode_concat, encode_empty, encode_one, encode_push, utf8_len, utf8_len_bounds,
};
use crate::utf8_scan::{
    decode_text, extended_partial, is_partial_scalar, partial_scalar, whole_scalar,
    whole_scalar_encodes,
};

verus! {

/// Neutral limits for one byte-based, line-bounded streamed read.
#[derive(Debug, Clone, Copy, PartialEq, Eq)]
pub struct ReadFileWindowBounds {
    pub offset: u64,
    /// Maximum raw UTF-8 bytes returned in the window.
    pub max_bytes: usize,
    pub max_line_fragments: usize,
    pub max_line_fragment_chars: usize,
}

/// A complete UTF-8 window and the exact byte continuation state for it.
#[derive(Debug)]
pub struct ReadFileWindow {
    pub text: String,
    pub start_byte: u64,
    pub end_byte: u64,
    pub line_fragments: usize,
    pub line_continues: bool,
    pub next_offset: Option<u64>,
    pub eof: bool,
}

/// The model of a [`ReadFileWindow`].
pub struct WindowModel {
    pub text: Seq<char>,
    pub start_byte: nat,
    pub end_byte: nat,
    pub line_fragments: nat,
    pub line_continues: bool,
    pub next_offset: Option<nat>,
    pub eof: bool,
}

impl View for ReadFileWindow {
    type V = WindowModel;

    open spec fn view(&self) -> WindowModel {
        WindowModel {
            text: self.text@,
            start_byte: self.start_byte as nat,
            end_byte: self.end_byte as nat,
            line_fragments: self.line_fragments as nat,
            line_continues: self.line_continues,
            next_offset: match self.next_offset {
                Some(offset) => Some(offset as nat),
                None => None,
            },
            eof: self.eof,
        }
    }
}

impl Clone for ReadFileWindow {
    fn clone(&self) -> (r: Self)
        ensures
            r == *self,
    {
        ReadFileWindow {
            text: self.text.clone(),
            start_byte: self.start_byte,
            end_byte: self.end_byte,
            line_fragments: self.line_fragments,
            line_continues: self.line_continues,
            next_offset: self.next_offset,
            eof: self.eof,
        }
    }
}

/// How many chunks without a byte may follow each other.
pub const MAX_EMPTY_CHUNKS: usize = 1024;

/// Whether the last line of `text` has begun and has no line end yet.
pub open spec fn line_open(text: Seq<char>) -> bool {
    text.len() > 0 && text.last() != '\n'
}

/// The number of line ends in `text`.
pub open spec fn newlines(text: Seq<char>) -> nat
    decreases text.len(),
{
    if text.len() == 0 {
        0
    } else {
        newlines(text.drop_last()) + (if text.last() == '\n' {
            1nat
        } else {
            0nat
        })
    }
}

/// The number of lines that have begun in `text`.
pub open spec fn line_fragments(text: Seq<char>) -> nat {
    newlines(text) + (if line_open(text) {
        1nat
    } else {
        0nat
    })
}

/// The number of characters after the last line end of `text`.
pub open spec fn line_chars(text: Seq<char>) -> nat
    decreases text.len(),
{
    if text.len() == 0 || text.last() == '\n' {
        0
    } else {
        line_chars(text.drop_last()) + 1
    }
}

/// Whether `text` ends with the last line that the window may hold.
pub open spec fn lines_full(bounds: ReadFileWindowBounds, text: Seq<char>) -> bool {
    text.len() > 0 && text.last() == '\n' && line_fragments(text) >= bounds.max_line_fragments
}

/// Whether the character `c` may follow `text` in the window.
pub open spec fn char_fits(bounds: ReadFileWindowBounds, text: Seq<char>, c: char) -> bool {
    &&& c == '\n' || line_chars(text) < bounds.max_line_fragment_chars
    &&& utf8_len(text) + char_width(c) <= bounds.max_bytes
}

/// A byte of the file that no window can hold.
pub enum WindowFault {
    /// The file contains a NUL byte.
    Nul,
    /// The offset points into the middle of a character.
    InsideCharacter,
    /// The file is not UTF-8.
    NotUtf8,
    /// Not even the first character fits.
    FirstCharacterTooLarge,
}

/// What becomes of a window as bytes are appended to it.
pub enum WindowScan {
    /// All bytes were taken: `text` is complete, `pending` starts the next character.
    More { text: Seq<char>, pending: Seq<u8> },
    /// The last allowed line is complete.
    LinesFull { text: Seq<char> },
    /// The next character does not fit.
    Cut { text: Seq<char>, next: char },
    /// The bytes cannot be read.
    Fault(WindowFault),
}

/// Appends `bytes` to a window that holds `text` and the start `pending` of a character.
pub open spec fn window_scan(
    bounds: ReadFileWindowBounds,
    text: Seq<char>,
    pending: Seq<u8>,
    bytes: Seq<u8>,
) -> WindowScan
    decreases bytes.len(),
{
    if bytes.len() == 0 {
        WindowScan::More { text, pending }
    } else {
        let unit = pending.push(bytes[0]);
        let c = decode_first_scalar(unit) as char;
        if bytes[0] == 0 {
            WindowScan::Fault(WindowFault::Nul)
        } else if text.len() == 0 && pending.len() == 0 && is_continuation_byte(bytes[0]) {
            WindowScan::Fault(WindowFault::InsideCharacter)
        } else if whole_scalar(unit) {
            if !char_fits(bounds, text, c) {
                if text.len() == 0 {
                    WindowScan::Fault(WindowFault::FirstCharacterTooLarge)
                } else {
                    WindowScan::Cut { text, next: c }
                }
            } else if lines_full(bounds, text.push(c)) {
                WindowScan::LinesFull { text: text.push(c) }
            } else {
                window_scan(bounds, text.push(c), seq![], bytes.drop_first())
            }
        } else if partial_scalar(unit) {
            window_scan(bounds, text, unit, bytes.drop_first())
        } else {
            WindowScan::Fault(WindowFault::NotUtf8)
        }
    }
}

/// The window that ends at `end`.
pub open spec fn window_ending(
    bounds: ReadFileWindowBounds,
    file_size: u64,
    text: Seq<char>,
    end: int,
    continues: bool,
) -> WindowModel {
    WindowModel {
        text,
        start_byte: bounds.offset as nat,
        end_byte: end as nat,
        line_fragments: line_fragments(text),
        line_continues: continues && end < file_size,
        next_offset: if end < file_size {
            Some(end as nat)
        } else {
            None
        },
        eof: end >= file_size,
    }
}

/// The error for a byte that no window can hold.
pub open spec fn fault_error(bounds: ReadFileWindowBounds, fault: WindowFault) -> (
    IoErrorKind,
    Seq<char>,
) {
    match fault {
        WindowFault::Nul => (IoErrorKind::InvalidData, "file contains NUL bytes"@),
        WindowFault::InsideCharacter => (
            IoErrorKind::InvalidInput,
            "offset "@ + decimal(bounds.offset as nat)
                + " is inside a UTF-8 code point; use a byte boundary near "@ + decimal(
                if bounds.offset > 0 {
                    (bounds.offset - 1) as nat
                } else {
                    0
                },
            ),
        ),
        WindowFault::NotUtf8 => (IoErrorKind::InvalidData, "file is not valid UTF-8"@),
        WindowFault::FirstCharacterTooLarge => (
            IoErrorKind::InvalidInput,
            "max_bytes is too small to include one UTF-8 character"@,
        ),
    }
}

/// The offset of the first byte that a window with `text` and `pending` has not taken.
pub open spec fn window_cursor(
    bounds: ReadFileWindowBounds,
    text: Seq<char>,
    pending: Seq<u8>,
) -> int {
    bounds.offset + utf8_len(text) + pending.len()
}

/// The part of a chunk that lies within the declared file size.
pub open spec fn chunk_within(
    bounds: ReadFileWindowBounds,
    file_size: u64,
    text: Seq<char>,
    pending: Seq<u8>,
    chunk: Seq<u8>,
) -> Seq<u8> {
    let left = file_size - window_cursor(bounds, text, pending);
    if left < chunk.len() {
        chunk.take(left)
    } else {
        chunk
    }
}

/// The result when no further chunk is taken.
pub open spec fn window_at_end(
    bounds: ReadFileWindowBounds,
    file_size: u64,
    text: Seq<char>,
    pending: Seq<u8>,
) -> Result<WindowModel, (IoErrorKind, Seq<char>)> {
    if pending.len() > 0 {
        Err((IoErrorKind::InvalidData, "file ends in an incomplete UTF-8 code point"@))
    } else if window_cursor(bounds, text, pending) < file_size {
        Err((IoErrorKind::UnexpectedEof, "stream ended before the declared file size"@))
    } else {
        Ok(window_ending(bounds, file_size, text, window_cursor(bounds, text, pending), false))
    }
}

/// The result of reading `chunks` into a window that holds `text` and `pending`, after `empty`
/// chunks without a byte.
pub open spec fn window_of_chunks(
    bounds: ReadFileWindowBounds,
    file_size: u64,
    text: Seq<char>,
    pending: Seq<u8>,
    empty: nat,
    chunks: Seq<Result<Seq<u8>, (IoErrorKind, Seq<char>)>>,
) -> Result<WindowModel, (IoErrorKind, Seq<char>)>
    decreases chunks.len(),
{
    if chunks.len() == 0 {
        window_at_end(bounds, file_size, text, pending)
    } else {
        match chunks[0] {
            Err(error) => Err(error),
            Ok(chunk) => if chunk.len() == 0 {
                if empty >= MAX_EMPTY_CHUNKS {
                    Err((IoErrorKind::Interrupted, "stream made no progress"@))
                } else {
                    window_of_chunks(
                        bounds,
                        file_size,
                        text,
                        pending,
                        empty + 1,
                        chunks.drop_first(),
                    )
                }
            } else {
                let bytes = chunk_within(bounds, file_size, text, pending, chunk);
                match window_scan(bounds, text, pending, bytes) {
                    WindowScan::Fault(fault) => Err(fault_error(bounds, fault)),
                    WindowScan::Cut { text, next } => Ok(
                        window_ending(
                            bounds,
                            file_size,
                            text,
                            bounds.offset + utf8_len(text),
                            next != '\n',
                        ),
                    ),
                    WindowScan::LinesFull { text } => Ok(
                        window_ending(
                            bounds,
                            file_size,
                            text,
                            bounds.offset + utf8_len(text),
                            false,
                        ),
                    ),
                    WindowScan::More { text, pending } => if window_cursor(bounds, text, pending)
                        >= file_size {
                        window_at_end(bounds, file_size, text, pending)
                    } else {
                        window_of_chunks(
                            bounds,
                            file_size,
                            text,
                            pending,
                            0,
                            chunks.drop_first(),
                        )
                    },
                }
            },
        }
    }
}

/// Whether a window may be read at all, and the error when it may not.
pub open spec fn bounds_error(bounds: ReadFileWindowBounds, file_size: u64) -> Option<
    (IoErrorKind, Seq<char>),
> {
    if bounds.offset > file_size {
        Some((IoErrorKind::InvalidInput, "offset is beyond the declared file size"@))
    } else if bounds.max_bytes == 0 || bounds.max_line_fragments == 0
        || bounds.max_line_fragment_chars == 0 {
        Some((IoErrorKind::InvalidInput, "read window limits must be positive"@))
    } else {
        None
    }
}

/// The result of reading one window from a stream of chunks.
pub open spec fn window_result(
    bounds: ReadFileWindowBounds,
    file_size: u64,
    chunks: Seq<Result<Seq<u8>, (IoErrorKind, Seq<char>)>>,
) -> Result<WindowModel, (IoErrorKind, Seq<char>)> {
    match bounds_error(bounds, file_size) {
        Some(error) => Err(error),
        None => window_of_chunks(bounds, file_size, seq![], seq![], 0, chunks),
    }
}

/// The model of a chunk that a stream delivered.
pub open spec fn chunk_model(chunk: Result<Vec<u8>, IoError>) -> Result<
    Seq<u8>,
    (IoErrorKind, Seq<char>),
> {
    match chunk {
        Ok(bytes) => Ok(bytes@),
        Err(error) => Err(error@),
    }
}

/// The model of the outcome of reading a window.
pub open spec fn window_outcome(result: Result<ReadFileWindow, IoError>) -> Result<
    WindowModel,
    (IoErrorKind, Seq<char>),
> {
    match result {
        Ok(window) => Ok(window@),
        Err(error) => Err(error@),
    }
}

/// What a [`WindowReader`] wants after a chunk.
pub enum WindowProgress {
    /// The next chunk.
    NeedMore,
    /// No further chunk: the declared end of the file is reached.
    AtEnd,
    /// Nothing: this is the window.
    Complete(ReadFileWindow),
}

/// A window under construction.
pub struct WindowReader {
    bounds: ReadFileWindowBounds,
    file_size: u64,
    text: String,
    encoded_len: usize,
    pending: Vec<u8>,
    fragments: usize,
    chars_in_line: usize,
    open: bool,
    empty_chunks: usize,
}

impl WindowReader {
    /// The limits that this window obeys.
    pub closed spec fn spec_bounds(self) -> ReadFileWindowBounds {
        self.bounds
    }

    /// The declared size of the file.
    pub closed spec fn spec_file_size(self) -> u64 {
        self.file_size
    }

    /// The characters taken so far.
    pub closed spec fn spec_text(self) -> Seq<char> {
        self.text@
    }

    /// The bytes of a character that is not complete yet.
    pub closed spec fn spec_pending(self) -> Seq<u8> {
        self.pending@
    }

    /// The number of chunks without a byte since the last byte.
    pub closed spec fn spec_empty_chunks(self) -> nat {
        self.empty_chunks as nat
    }

    /// The state of a window that can take more bytes.
    pub closed spec fn wf(self) -> bool {
        &&& bounds_error(self.bounds, self.file_size) is None
        &&& self.encoded_len == utf8_len(self.text@)
        &&& self.encoded_len <= self.bounds.max_bytes
        &&& self.fragments == line_fragments(self.text@)
        &&& self.chars_in_line == line_chars(self.text@)
        &&& self.open == line_open(self.text@)
        &&& self.pending@.len() == 0 || partial_scalar(self.pending@)
        &&& window_cursor(self.bounds, self.text@, self.pending@) <= self.file_size
        &&& self.empty_chunks <= MAX_EMPTY_CHUNKS
    }

    /// A window with nothing in it yet.
    pub fn new(bounds: ReadFileWindowBounds, file_size: u64) -> (r: Result<WindowReader, IoError>)
        ensures
            match r {
                Ok(reader) => bounds_error(bounds, file_size) is None && reader.wf()
                    && reader.spec_bounds() == bounds && reader.spec_file_size() == file_size
                    && reader.spec_text() == Seq::<char>::empty() && reader.spec_pending() == Seq::<
                    u8,
                >::empty() && reader.spec_empty_chunks() == 0,
                Err(error) => bounds_error(bounds, file_size) == Some(error@),
            },
    {
        if bounds.offset > file_size {
            return Err(
                IoError::new(IoErrorKind::InvalidInput, "offset is beyond the declared file size"),
            );
        }
        if bounds.max_bytes == 0 || bounds.max_line_fragments == 0
            || bounds.max_line_fragment_chars == 0 {
            return Err(
                IoError::new(IoErrorKind::InvalidInput, "read window limits must be positive"),
            );
        }
        proof {
            encode_empty();
        }
        Ok(
            WindowReader {
                bounds,
                file_size,
                text: String::new(),
                encoded_len: 0,
                pending: Vec::new(),
                fragments: 0,
                chars_in_line: 0,
                open: false,
                empty_chunks: 0,
            },
        )
    }

    /// Takes one chunk of the stream.
    pub fn push(&mut self, chunk: &[u8]) -> (r: Result<WindowProgress, IoError>)
        requires
            old(self).wf(),
        ensures
            final(self).spec_bounds() == old(self).spec_bounds(),
            final(self).spec_file_size() == old(self).spec_file_size(),
            chunk@.len() == 0 ==> match r {
                Ok(progress) => progress is NeedMore && old(self).spec_empty_chunks()
                    < MAX_EMPTY_CHUNKS && final(self).wf() && final(self).spec_text() == old(self).spec_text() && final(self).spec_pending() == old(self).spec_pending() && final(self).spec_empty_chunks() == old(self).spec_empty_chunks() + 1,
                Err(error) => old(self).spec_empty_chunks() >= MAX_EMPTY_CHUNKS && error@ == (
                    IoErrorKind::Interrupted,
                    "stream made no progress"@,
                ),
            },
            chunk@.len() > 0 ==> ({
                let bounds = old(self).spec_bounds();
                let size = old(self).spec_file_size();
                let bytes = chunk_within(
                    bounds,
                    size,
                    old(self).spec_text(),
                    old(self).spec_pending(),
                    chunk@,
                );
                match window_scan(bounds, old(self).spec_text(), old(self).spec_pending(), bytes) {
                    WindowScan::Fault(fault) => r matches Err(error) && error@ == fault_error(
                        bounds,
                        fault,
                    ),
                    WindowScan::Cut { text, next } => r matches Ok(WindowProgress::Complete(window))
                        && window@ == window_ending(
                        bounds,
                        size,
                        text,
                        bounds.offset + utf8_len(text),
                        next != '\n',
                    ),
                    WindowScan::LinesFull { text } => r matches Ok(
                        WindowProgress::Complete(window),
                    ) && window@ == window_ending(
                        bounds,
                        size,
                        text,
                        bounds.offset + utf8_len(text),
                        false,
                    ),
                    WindowScan::More { text, pending } => final(self).wf() && final(self).spec_text() == text && final(self).spec_pending() == pending && final(self).spec_empty_chunks() == 0 && (if window_cursor(bounds, text, pending) >= size {
                        r matches Ok(WindowProgress::AtEnd)
                    } else {
                        r matches Ok(WindowProgress::NeedMore)
                    }),
                }
            }),
    {
        if chunk.len() == 0 {
            if self.empty_chunks >= MAX_EMPTY_CHUNKS {
                return Err(IoError::new(IoErrorKind::Interrupted, "stream made no progress"));
            }
            self.empty_chunks = self.empty_chunks + 1;
            return Ok(WindowProgress::NeedMore);
        }
        self.empty_chunks = 0;
        let left: u64 = self.file_size - self.cursor();
        let count: usize = if left < chunk.len() as u64 {
            left as usize
        } else {
            chunk.len()
        };
        let ghost text0 = self.text@;
        let ghost pending0 = self.pending@;
        let ghost bytes = chunk@.take(count as int);
        proof {
            assert(chunk@.take(chunk@.len() as int) =~= chunk@);
            assert(bytes.skip(0) =~= bytes);
        }
        let mut i: usize = 0;
        while i < count
            invariant
                i <= count <= chunk@.len(),
                bytes == chunk@.take(count as int),
                self.wf(),
                self.bounds == old(self).bounds,
                self.file_size == old(self).file_size,
                self.empty_chunks == 0,
                window_cursor(self.bounds, self.text@, self.pending@) + (count - i)
                    <= self.file_size,
                window_scan(self.bounds, text0, pending0, bytes) == window_scan(
                    self.bounds,
                    self.text@,
                    self.pending@,
                    bytes.skip(i as int),
                ),
                bytes == chunk_within(
                    old(self).bounds,
                    old(self).file_size,
                    old(self).text@,
                    old(self).pending@,
                    chunk@,
                ),
                text0 == old(self).text@,
                pending0 == old(self).pending@,
                chunk@.len() > 0,
            decreases count - i,
        {
            let byte: u8 = chunk[i];
            proof {
                assert(bytes.skip(i as int)[0] == byte);
                assert(bytes.skip(i as int).drop_first() =~= bytes.skip(i + 1));
            }
            match self.take_byte(byte)? {
                Some(window) => {
                    return Ok(WindowProgress::Complete(window));
                },
                None => {},
            }
            i += 1;
        }
        proof {
            assert(bytes.skip(count as int) =~= Seq::<u8>::empty());
        }
        if self.cursor() >= self.file_size {
            Ok(WindowProgress::AtEnd)
        } else {
            Ok(WindowProgress::NeedMore)
        }
    }

    /// The offset of the first byte that is not taken yet.
    fn cursor(&self) -> (r: u64)
        requires
            self.wf(),
        ensures
            r == window_cursor(self.bounds, self.text@, self.pending@),
    {
        self.bounds.offset + self.encoded_len as u64 + self.pending.len() as u64
    }

    /// Takes one byte of the file.
    fn take_byte(&mut self, byte: u8) -> (r: Result<Option<ReadFileWindow>, IoError>)
        requires
            old(self).wf(),
            window_cursor(old(self).bounds, old(self).text@, old(self).pending@) < old(self).file_size,
        ensures
            final(self).bounds == old(self).bounds,
            final(self).file_size == old(self).file_size,
            final(self).empty_chunks == old(self).empty_chunks,
            forall|rest: Seq<u8>| #[trigger]
                rest.len() > 0 && rest[0] == byte ==> match r {
                    Ok(None) => {
                        &&& final(self).wf()
                        &&& window_scan(
                            old(self).bounds,
                            old(self).text@,
                            old(self).pending@,
                            rest,
                        ) == window_scan(
                            old(self).bounds,
                            final(self).text@,
                            final(self).pending@,
                            rest.drop_first(),
                        )
                        &&& window_cursor(old(self).bounds, final(self).text@, final(self).pending@)
                            == window_cursor(old(self).bounds, old(self).text@, old(self).pending@)
                            + 1
                    },
                    Ok(Some(window)) => match window_scan(
                        old(self).bounds,
                        old(self).text@,
                        old(self).pending@,
                        rest,
                    ) {
                        WindowScan::Cut { text, next } => window@ == window_ending(
                            old(self).bounds,
                            old(self).file_size,
                            text,
                            old(self).bounds.offset + utf8_len(text),
                            next != '\n',
                        ),
                        WindowScan::LinesFull { text } => window@ == window_ending(
                            old(self).bounds,
                            old(self).file_size,
                            text,
                            old(self).bounds.offset + utf8_len(text),
                            false,
                        ),
                        _ => false,
                    },
                    Err(error) => window_scan(
                        old(self).bounds,
                        old(self).text@,
                        old(self).pending@,
                        rest,
                    ) matches WindowScan::Fault(fault) && error@ == fault_error(
                        old(self).bounds,
                        fault,
                    ),
                },
    {
        if byte == 0 {
            return Err(IoError::new(IoErrorKind::InvalidData, "file contains NUL bytes"));
        }
        proof {
            utf8_len_bounds(self.text@);
            extended_partial(self.pending@, byte);
        }
        if self.pending.len() == 0 && self.encoded_len == 0 && byte >= 0x80 && byte <= 0xbf {
            return Err(self.inside_character());
        }
        self.pending.push(byte);
        let character: char = match decode_text(self.pending.as_slice()) {
            Some(decoded) => decoded.get_char(0),
            None => {
                if is_partial_scalar(&self.pending) {
                    return Ok(None);
                }
                return Err(IoError::new(IoErrorKind::InvalidData, "file is not valid UTF-8"));
            },
        };
        let width: usize = char_byte_len(character);
        let fits_line = character == '\n' || self.chars_in_line
            < self.bounds.max_line_fragment_chars;
        if !fits_line || width > self.bounds.max_bytes - self.encoded_len {
            if self.encoded_len == 0 {
                return Err(
                    IoError::new(
                        IoErrorKind::InvalidInput,
                        "max_bytes is too small to include one UTF-8 character",
                    ),
                );
            }
            let end: u64 = self.bounds.offset + self.encoded_len as u64;
            return Ok(Some(self.finish_at(end, character != '\n')));
        }
        let ghost before = self.text@;
        proof {
            whole_scalar_encodes(self.pending@);
            encode_push(before, character);
            encode_one(character);
            assert(before.push(character).drop_last() =~= before);
            utf8_len_bounds(before.push(character));
            newlines_bound(before.push(character));
        }
        self.text.push(character);
        self.encoded_len = self.encoded_len + width;
        if !self.open {
            self.fragments = self.fragments + 1;
        }
        if character == '\n' {
            self.chars_in_line = 0;
            self.open = false;
        } else {
            self.chars_in_line = self.chars_in_line + 1;
            self.open = true;
        }
        self.pending.clear();
        if character == '\n' && self.fragments >= self.bounds.max_line_fragments {
            let end: u64 = self.bounds.offset + self.encoded_len as u64;
            return Ok(Some(self.finish_at(end, false)));
        }
        Ok(None)
    }

    /// The error for an offset inside a character.
    fn inside_character(&self) -> (r: IoError)
        ensures
            r@ == fault_error(self.bounds, WindowFault::InsideCharacter),
    {
        let offset: u64 = self.bounds.offset;
        let near: u64 = if offset > 0 {
            offset - 1
        } else {
            0
        };
        let mut message = String::from_str("offset ");
        message.append(decimal_text(offset).as_str());
        message.append(" is inside a UTF-8 code point; use a byte boundary near ");
        message.append(decimal_text(near).as_str());
        IoError { kind: IoErrorKind::InvalidInput, message }
    }

    /// The window that ends at `end`.
    fn finish_at(&self, end: u64, continues: bool) -> (r: ReadFileWindow)
        requires
            self.fragments == line_fragments(self.text@),
        ensures
            r@ == window_ending(self.bounds, self.file_size, self.text@, end as int, continues),
    {
        let eof = end >= self.file_size;
        ReadFileWindow {
            text: self.text.clone(),
            start_byte: self.bounds.offset,
            end_byte: end,
            line_fragments: self.fragments,
            line_continues: continues && !eof,
            next_offset: if eof {
                None
            } else {
                Some(end)
            },
            eof,
        }
    }

    /// The window when no further chunk follows.
    pub fn finish(&self) -> (r: Result<ReadFileWindow, IoError>)
        requires
            self.wf(),
        ensures
            window_outcome(r) == window_at_end(
                self.spec_bounds(),
                self.spec_file_size(),
                self.spec_text(),
                self.spec_pending(),
            ),
    {
        if self.pending.len() > 0 {
            return Err(
                IoError::new(
                    IoErrorKind::InvalidData,
                    "file ends in an incomplete UTF-8 code point",
                ),
            );
        }
        let cursor: u64 = self.cursor();
        if cursor < self.file_size {
            return Err(
                IoError::new(
                    IoErrorKind::UnexpectedEof,
                    "stream ended before the declared file size",
                ),
            );
        }
        Ok(self.finish_at(cursor, false))
    }
}

/// A text begins no more lines than it has characters.
proof fn newlines_bound(text: Seq<char>)
    ensures
        line_fragments(text) <= text.len(),
        newlines(text) <= text.len(),
        line_chars(text) <= text.len(),
    decreases text.len(),
{
    if text.len() > 0 {
        newlines_bound(text.drop_last());
    }
}

/// Consumes only a bounded stream window, preserving UTF-8 and exact byte offsets.
///
/// `chunks` is what the stream delivers, in order; chunks after the end of the window are not
/// looked at.
pub fn read_file_window(
    chunks: &Vec<Result<Vec<u8>, IoError>>,
    bounds: ReadFileWindowBounds,
    file_size: u64,
) -> (r: Result<ReadFileWindow, IoError>)
    ensures
        window_outcome(r) == window_result(
            bounds,
            file_size,
            chunks@.map_values(|c: Result<Vec<u8>, IoError>| chunk_model(c)),
        ),
{
    let ghost models = chunks@.map_values(|c: Result<Vec<u8>, IoError>| chunk_model(c));
    let mut reader = match WindowReader::new(bounds, file_size) {
        Ok(reader) => reader,
        Err(error) => {
            return Err(error);
        },
    };
    let mut i: usize = 0;
    proof {
        assert(models.skip(0) =~= models);
    }
    while i < chunks.len()
        invariant
            i <= chunks@.len(),
            models == chunks@.map_values(|c: Result<Vec<u8>, IoError>| chunk_model(c)),
            reader.wf(),
            reader.spec_bounds() == bounds,
            reader.spec_file_size() == file_size,
            bounds_error(bounds, file_size) is None,
            window_result(bounds, file_size, models) == window_of_chunks(
                bounds,
                file_size,
                reader.spec_text(),
                reader.spec_pending(),
                reader.spec_empty_chunks(),
                models.skip(i as int),
            ),
        decreases chunks@.len() - i,
    {
        proof {
            assert(models.skip(i as int).drop_first() =~= models.skip(i + 1));
            assert(models.skip(i as int)[0] == chunk_model(chunks@[i as int]));
        }
        match &chunks[i] {
            Err(error) => {
                return Err(error.clone());
            },
            Ok(chunk) => match reader.push(chunk.as_slice()) {
                Err(error) => {
                    return Err(error);
                },
                Ok(WindowProgress::Complete(window)) => {
                    return Ok(window);
                },
                Ok(WindowProgress::AtEnd) => {
                    return reader.finish();
                },
                Ok(WindowProgress::NeedMore) => {},
            },
        }
        i += 1;
    }
    proof {
        assert(models.skip(i as int) =~= Seq::empty());
    }
    reader.finish()
}

/// All bytes that a stream delivers in front of its first error.
pub open spec fn stream_bytes(chunks: Seq<Result<Seq<u8>, (IoErrorKind, Seq<char>)>>) -> Seq<u8>
    decreases chunks.len(),
{
    if chunks.len() == 0 {
        seq![]
    } else {
        match chunks[0] {
            Ok(chunk) => chunk + stream_bytes(chunks.drop_first()),
            Err(_) => seq![],
        }
    }
}

/// Whether every character of `text` was allowed behind those in front of it.
pub open spec fn within_bounds(bounds: ReadFileWindowBounds, text: Seq<char>) -> bool {
    forall|n: int|
        0 <= n < text.len() ==> char_fits(bounds, #[trigger] text.take(n), text[n]) && !lines_full(
            bounds,
            text.take(n),
        )
}

/// Whether the bytes at the start of `rest` encode a character that may not follow `text`.
pub open spec fn stopped_by(bounds: ReadFileWindowBounds, text: Seq<char>, rest: Seq<u8>) -> bool {
    exists|n: int|
        0 < n <= rest.len() && whole_scalar(#[trigger] rest.take(n)) && !char_fits(
            bounds,
            text,
            decode_first_scalar(rest.take(n)) as char,
        )
}

/// What holds of a scan that took the characters of `taken` out of `all`.
pub open spec fn scan_is_exact(
    bounds: ReadFileWindowBounds,
    all: Seq<u8>,
    scan: WindowScan,
) -> bool {
    match scan {
        WindowScan::More { text, pending } => {
            &&& all == encode_utf8(text) + pending
            &&& within_bounds(bounds, text)
            &&& !lines_full(bounds, text)
            &&& pending.len() == 0 || partial_scalar(pending)
        },
        WindowScan::LinesFull { text } => {
            &&& utf8_len(text) <= all.len()
            &&& encode_utf8(text) == all.take(utf8_len(text) as int)
            &&& within_bounds(bounds, text)
            &&& lines_full(bounds, text)
        },
        WindowScan::Cut { text, next } => {
            &&& utf8_len(text) < all.len()
            &&& encode_utf8(text) == all.take(utf8_len(text) as int)
            &&& within_bounds(bounds, text)
            &&& text.len() > 0
            &&& stopped_by(bounds, text, all.skip(utf8_len(text) as int))
        },
        WindowScan::Fault(_) => true,
    }
}

/// A scan takes exactly the bytes that its characters encode, and stops only at a limit.
pub proof fn scan_exact(
    bounds: ReadFileWindowBounds,
    text: Seq<char>,
    pending: Seq<u8>,
    bytes: Seq<u8>,
)
    requires
        within_bounds(bounds, text),
        !lines_full(bounds, text),
        pending.len() == 0 || partial_scalar(pending),
    ensures
        scan_is_exact(
            bounds,
            encode_utf8(text) + pending + bytes,
            window_scan(bounds, text, pending, bytes),
        ),
    decreases bytes.len(),
{
    let all = encode_utf8(text) + pending + bytes;
    if bytes.len() == 0 {
        assert(all =~= encode_utf8(text) + pending);
    } else {
        let unit = pending.push(bytes[0]);
        let c = decode_first_scalar(unit) as char;
        let rest = bytes.drop_first();
        if bytes[0] == 0 {
        } else if text.len() == 0 && pending.len() == 0 && is_continuation_byte(bytes[0]) {
        } else if whole_scalar(unit) {
            whole_scalar_encodes(unit);
            encode_push(text, c);
            let longer = text.push(c);
            if !char_fits(bounds, text, c) {
                if text.len() > 0 {
                    let tail = all.skip(utf8_len(text) as int);
                    assert(tail.take(unit.len() as int) =~= unit);
                    assert(all.take(utf8_len(text) as int) =~= encode_utf8(text));
                }
            } else {
                assert forall|n: int| 0 <= n < longer.len() implies char_fits(
                    bounds,
                    #[trigger] longer.take(n),
                    longer[n],
                ) && !lines_full(bounds, longer.take(n)) by {
                    assert(longer.take(n) =~= text.take(n));
                    if n == text.len() {
                        assert(text.take(n) =~= text);
                    }
                }
                if lines_full(bounds, longer) {
                    assert(all.take(utf8_len(longer) as int) =~= encode_utf8(longer));
                } else {
                    scan_exact(bounds, longer, seq![], rest);
                    assert(encode_utf8(longer) + Seq::<u8>::empty() + rest =~= all);
                }
            }
        } else if partial_scalar(unit) {
            scan_exact(bounds, text, unit, rest);
            assert(encode_utf8(text) + unit + rest =~= all);
        }
    }
}

/// What holds of a window read from the bytes `data` that follow its offset.
pub open spec fn window_is_exact(
    bounds: ReadFileWindowBounds,
    file_size: u64,
    data: Seq<u8>,
    window: WindowModel,
) -> bool {
    &&& window.start_byte == bounds.offset
    &&& window.end_byte == window.start_byte + utf8_len(window.text)
    &&& window.end_byte <= file_size
    &&& utf8_len(window.text) <= data.len()
    &&& encode_utf8(window.text) == data.take(utf8_len(window.text) as int)
    &&& within_bounds(bounds, window.text)
    &&& window.line_fragments == line_fragments(window.text)
    &&& window.eof == (window.end_byte == file_size)
    &&& window.next_offset == (if window.eof {
        None
    } else {
        Some(window.end_byte)
    })
    &&& !window.eof ==> window.text.len() > 0 && (lines_full(bounds, window.text) || stopped_by(
        bounds,
        window.text,
        data.skip(utf8_len(window.text) as int),
    ))
    &&& window.line_continues ==> !window.eof && !lines_full(bounds, window.text)
}

proof fn chunks_exact(
    bounds: ReadFileWindowBounds,
    file_size: u64,
    text: Seq<char>,
    pending: Seq<u8>,
    empty: nat,
    chunks: Seq<Result<Seq<u8>, (IoErrorKind, Seq<char>)>>,
)
    requires
        within_bounds(bounds, text),
        !lines_full(bounds, text),
        pending.len() == 0 || partial_scalar(pending),
        window_cursor(bounds, text, pending) <= file_size,
    ensures
        window_of_chunks(bounds, file_size, text, pending, empty, chunks) matches Ok(window)
            ==> window_is_exact(
            bounds,
            file_size,
            encode_utf8(text) + pending + stream_bytes(chunks),
            window,
        ),
    decreases chunks.len(),
{
    let before = encode_utf8(text) + pending;
    let data = before + stream_bytes(chunks);
    if chunks.len() == 0 {
        assert(data =~= before);
        if pending.len() == 0 {
            assert(data.take(utf8_len(text) as int) =~= encode_utf8(text));
        }
    } else if let Ok(chunk) = chunks[0] {
        let later = stream_bytes(chunks.drop_first());
        assert(stream_bytes(chunks) =~= chunk + later);
        if chunk.len() == 0 {
            if empty < MAX_EMPTY_CHUNKS {
                assert(before + later =~= data);
                chunks_exact(bounds, file_size, text, pending, empty + 1, chunks.drop_first());
            }
        } else {
            let bytes = chunk_within(bounds, file_size, text, pending, chunk);
            scan_exact(bounds, text, pending, bytes);
            let all = encode_utf8(text) + pending + bytes;
            assert(all =~= data.take(all.len() as int));
            match window_scan(bounds, text, pending, bytes) {
                WindowScan::More { text: t, pending: p } => {
                    if window_cursor(bounds, t, p) >= file_size {
                        if p.len() == 0 {
                            assert(all =~= encode_utf8(t));
                            assert(data.take(utf8_len(t) as int) =~= encode_utf8(t));
                        }
                    } else {
                        assert(bytes == chunk);
                        assert(encode_utf8(t) + p + later =~= data);
                        chunks_exact(bounds, file_size, t, p, 0, chunks.drop_first());
                    }
                },
                WindowScan::LinesFull { text: t } => {
                    assert(data.take(utf8_len(t) as int) =~= all.take(utf8_len(t) as int));
                },
                WindowScan::Cut { text: t, next } => {
                    let here = utf8_len(t) as int;
                    assert(data.take(here) =~= all.take(here));
                    let n = choose|n: int|
                        0 < n <= all.skip(here).len() && whole_scalar(
                            #[trigger] all.skip(here).take(n),
                        ) && !char_fits(
                            bounds,
                            t,
                            decode_first_scalar(all.skip(here).take(n)) as char,
                        );
                    assert(data.skip(here).take(n) =~= all.skip(here).take(n));
                    scan_cut(bounds, text, pending, bytes);
                },
                WindowScan::Fault(_) => {},
            }
        }
    }
}

/// A window that was cut is not full of lines.
proof fn scan_cut(
    bounds: ReadFileWindowBounds,
    text: Seq<char>,
    pending: Seq<u8>,
    bytes: Seq<u8>,
)
    requires
        !lines_full(bounds, text),
    ensures
        window_scan(bounds, text, pending, bytes) matches WindowScan::Cut { text: t, .. }
            ==> !lines_full(bounds, t),
    decreases bytes.len(),
{
    if bytes.len() > 0 {
        let unit = pending.push(bytes[0]);
        let c = decode_first_scalar(unit) as char;
        if whole_scalar(unit) && char_fits(bounds, text, c) && !lines_full(bounds, text.push(c)) {
            scan_cut(bounds, text.push(c), seq![], bytes.drop_first());
        } else if partial_scalar(unit) {
            scan_cut(bounds, text, unit, bytes.drop_first());
        }
    }
}

/// A window holds exactly the bytes of the stream between its start and its end, obeys its
/// limits, and ends early only where a limit forces it to; one that ends early is not empty, so a
/// reader that continues at `next_offset` always advances.
pub proof fn window_exact(
    bounds: ReadFileWindowBounds,
    file_size: u64,
    chunks: Seq<Result<Seq<u8>, (IoErrorKind, Seq<char>)>>,
)
    ensures
        window_result(bounds, file_size, chunks) matches Ok(window) ==> window_is_exact(
            bounds,
            file_size,
            stream_bytes(chunks),
            window,
        ),
{
    if bounds_error(bounds, file_size) is None {
        encode_empty();
        chunks_exact(bounds, file_size, seq![], seq![], 0, chunks);
        assert(Seq::<u8>::empty() + Seq::<u8>::empty() + stream_bytes(chunks) =~= stream_bytes(
            chunks,
        ));
    }
}

/// A window and the one read at its `next_offset` join without a gap or an overlap: together
/// they hold exactly the bytes of the file from the start of the first to the end of the second.
pub proof fn consecutive_windows_join(
    file: Seq<u8>,
    first: ReadFileWindowBounds,
    second: ReadFileWindowBounds,
    first_chunks: Seq<Result<Seq<u8>, (IoErrorKind, Seq<char>)>>,
    second_chunks: Seq<Result<Seq<u8>, (IoErrorKind, Seq<char>)>>,
)
    requires
        file.len() <= u64::MAX,
        stream_bytes(first_chunks) == file.skip(first.offset as int),
        stream_bytes(second_chunks) == file.skip(second.offset as int),
        window_result(first, file.len() as u64, first_chunks) matches Ok(w) && w.next_offset
            == Some(second.offset as nat),
        window_result(second, file.len() as u64, second_chunks) is Ok,
    ensures
        ({
            let a = window_result(first, file.len() as u64, first_chunks)->Ok_0;
            let b = window_result(second, file.len() as u64, second_chunks)->Ok_0;
            &&& first.offset < second.offset
            &&& encode_utf8(a.text + b.text) == file.subrange(
                first.offset as int,
                b.end_byte as int,
            )
        }),
{
    let size = file.len() as u64;
    window_exact(first, size, first_chunks);
    window_exact(second, size, second_chunks);
    let a = window_result(first, size, first_chunks)->Ok_0;
    let b = window_result(second, size, second_chunks)->Ok_0;
    utf8_len_bounds(a.text);
    encode_concat(a.text, b.text);
    assert(encode_utf8(a.text) + encode_utf8(b.text) =~= file.subrange(
        first.offset as int,
        b.end_byte as int,
    ));
}

} // verus!
