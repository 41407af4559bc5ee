//! A consistent snapshot of a part of a file: path and metadata are taken before and after the
//! bytes are read, and the bytes are read twice.

use vstd::prelude::*;
use vstd::string::*;

use crate::io_error::{IoError, IoErrorKind};
use crate::read_file_window::{ReadFileWindow, ReadFileWindowBounds, WindowModel};
use crate::text::same_text;

verus! {

/// What a reader is told when the file is not what it was a moment ago.
pub const FILE_CHANGED_DURING_READ: &'static str = "file changed during the read; retry read_file";

/// What the file system says of a file.
#[derive(Clone, Copy, Debug, PartialEq, Eq, Structural)]
pub struct FileMetadata {
    pub is_directory: bool,
    pub is_file: bool,
    pub is_symlink: bool,
    pub size: u64,
    pub created_at_ms: i64,
    pub modified_at_ms: i64,
}

/// A snapshot of a part of a file.
#[derive(Debug)]
pub struct ReadFileSnapshot {
    pub canonical_path: String,
    pub metadata: FileMetadata,
    pub window: ReadFileWindow,
}

/// What the file system is to be asked next.
#[derive(Clone, Copy, Debug, PartialEq, Eq, Structural)]
pub enum SnapshotPhase {
    /// The canonical path.
    Path,
    /// The metadata.
    Metadata,
    /// The window.
    Window,
    /// The metadata, once more.
    MetadataAgain,
    /// The canonical path, once more.
    PathAgain,
    /// The window, once more.
    WindowAgain,
    /// Nothing: the snapshot is complete.
    Done,
}

/// What the file system answered.
#[derive(Debug)]
pub enum SnapshotEvent {
    Path(Result<String, IoError>),
    Metadata(Result<FileMetadata, IoError>),
    Window(Result<ReadFileWindow, IoError>),
    /// No stream to read a window from.
    Unopened(IoError),
}

/// An answer as the specification sees it.
pub enum EventModel {
    Path(Result<Seq<char>, (IoErrorKind, Seq<char>)>),
    Metadata(Result<FileMetadata, (IoErrorKind, Seq<char>)>),
    Window(Result<WindowModel, (IoErrorKind, Seq<char>)>),
    Unopened((IoErrorKind, Seq<char>)),
}

impl View for SnapshotEvent {
    type V = EventModel;

    open spec fn view(&self) -> EventModel {
        match self {
            SnapshotEvent::Path(Ok(path)) => EventModel::Path(Ok(path@)),
            SnapshotEvent::Path(Err(error)) => EventModel::Path(Err(error@)),
            SnapshotEvent::Metadata(Ok(metadata)) => EventModel::Metadata(Ok(*metadata)),
            SnapshotEvent::Metadata(Err(error)) => EventModel::Metadata(Err(error@)),
            SnapshotEvent::Window(Ok(window)) => EventModel::Window(Ok(window@)),
            SnapshotEvent::Window(Err(error)) => EventModel::Window(Err(error@)),
            SnapshotEvent::Unopened(error) => EventModel::Unopened(error@),
        }
    }
}

/// A transaction as the specification sees it.
pub struct TransactionModel {
    pub bounds: ReadFileWindowBounds,
    pub offsets_supported: bool,
    pub phase: SnapshotPhase,
    pub canonical_path: Seq<char>,
    pub metadata: FileMetadata,
    pub window: WindowModel,
}

/// The window behind the last byte of a file.
pub open spec fn end_window(offset: u64) -> WindowModel {
    WindowModel {
        text: seq![],
        start_byte: offset as nat,
        end_byte: offset as nat,
        line_fragments: 0,
        line_continues: false,
        next_offset: None,
        eof: true,
    }
}

/// That the file changed.
pub open spec fn changed() -> (IoErrorKind, Seq<char>) {
    (IoErrorKind::Interrupted, FILE_CHANGED_DURING_READ@)
}

/// Why a file with this metadata is not read.
pub open spec fn refused(
    bounds: ReadFileWindowBounds,
    offsets_supported: bool,
    metadata: FileMetadata,
) -> Option<(IoErrorKind, Seq<char>)> {
    if !metadata.is_file {
        Some((IoErrorKind::InvalidInput, "only regular files can be read"@))
    } else if bounds.offset > metadata.size {
        Some((IoErrorKind::InvalidInput, "read offset is beyond the end of the file"@))
    } else if bounds.offset != 0 && !offsets_supported {
        Some((IoErrorKind::Unsupported, "filesystem does not support efficient offset reads"@))
    } else {
        None
    }
}

/// Whether metadata still describes the same file.
pub open spec fn same_file(before: FileMetadata, after: FileMetadata) -> bool {
    after.is_file && after.size == before.size && after.created_at_ms == before.created_at_ms
        && after.modified_at_ms == before.modified_at_ms
}

/// Whether this is an answer to what was asked.
pub open spec fn answers(phase: SnapshotPhase, event: EventModel) -> bool {
    match phase {
        SnapshotPhase::Path | SnapshotPhase::PathAgain => event is Path,
        SnapshotPhase::Metadata | SnapshotPhase::MetadataAgain => event is Metadata,
        SnapshotPhase::Window | SnapshotPhase::WindowAgain => event is Window || event is Unopened,
        SnapshotPhase::Done => false,
    }
}

/// The transaction after an answer, or why it failed.
pub open spec fn advanced(state: TransactionModel, event: EventModel) -> Result<
    TransactionModel,
    (IoErrorKind, Seq<char>),
> {
    match (state.phase, event) {
        (SnapshotPhase::Path, EventModel::Path(Ok(path))) => Ok(
            TransactionModel { phase: SnapshotPhase::Metadata, canonical_path: path, ..state },
        ),
        (SnapshotPhase::Metadata, EventModel::Metadata(Ok(metadata))) => match refused(
            state.bounds,
            state.offsets_supported,
            metadata,
        ) {
            Some(error) => Err(error),
            None => Ok(
                if state.bounds.offset == metadata.size {
                    TransactionModel {
                        phase: SnapshotPhase::MetadataAgain,
                        metadata,
                        window: end_window(state.bounds.offset),
                        ..state
                    }
                } else {
                    TransactionModel { phase: SnapshotPhase::Window, metadata, ..state }
                },
            ),
        },
        (SnapshotPhase::Window, EventModel::Window(Ok(window))) => Ok(
            TransactionModel { phase: SnapshotPhase::MetadataAgain, window, ..state },
        ),
        (SnapshotPhase::MetadataAgain, EventModel::Metadata(Ok(metadata))) => if same_file(
            state.metadata,
            metadata,
        ) {
            Ok(TransactionModel { phase: SnapshotPhase::PathAgain, ..state })
        } else {
            Err(changed())
        },
        (SnapshotPhase::PathAgain, EventModel::Path(Ok(path))) => if path == state.canonical_path {
            Ok(
                TransactionModel {
                    phase: if state.window.start_byte != state.window.end_byte {
                        SnapshotPhase::WindowAgain
                    } else {
                        SnapshotPhase::Done
                    },
                    ..state
                },
            )
        } else {
            Err(changed())
        },
        (SnapshotPhase::WindowAgain, EventModel::Window(Ok(window))) => if window == state.window {
            Ok(TransactionModel { phase: SnapshotPhase::Done, ..state })
        } else {
            Err(changed())
        },
        (SnapshotPhase::WindowAgain, EventModel::Window(Err(_))) => Err(changed()),
        (_, EventModel::Path(Err(error))) => Err(error),
        (_, EventModel::Metadata(Err(error))) => Err(error),
        (_, EventModel::Window(Err(error))) => Err(error),
        (_, EventModel::Unopened(error)) => Err(error),
        _ => Err(changed()),
    }
}

/// A read of a part of a file, from the first look at its path to the last.
#[derive(Debug)]
pub struct SnapshotTransaction {
    bounds: ReadFileWindowBounds,
    offsets_supported: bool,
    phase: SnapshotPhase,
    canonical_path: String,
    metadata: FileMetadata,
    window: ReadFileWindow,
}

impl View for SnapshotTransaction {
    type V = TransactionModel;

    closed spec fn view(&self) -> TransactionModel {
        TransactionModel {
            bounds: self.bounds,
            offsets_supported: self.offsets_supported,
            phase: self.phase,
            canonical_path: self.canonical_path@,
            metadata: self.metadata,
            window: self.window@,
        }
    }
}

fn same_window(a: &ReadFileWindow, b: &ReadFileWindow) -> (r: bool)
    ensures
        r == (a@ == b@),
{
    let same_offset = match (a.next_offset, b.next_offset) {
        (Some(x), Some(y)) => x == y,
        (None, None) => true,
        _ => false,
    };
    same_text(a.text.as_str(), b.text.as_str()) && a.start_byte == b.start_byte && a.end_byte
        == b.end_byte && a.line_fragments == b.line_fragments && a.line_continues
        == b.line_continues && same_offset && a.eof == b.eof
}

fn file_changed() -> (r: IoError)
    ensures
        r@ == changed(),
{
    IoError::new(IoErrorKind::Interrupted, FILE_CHANGED_DURING_READ)
}

fn check_metadata(
    bounds: ReadFileWindowBounds,
    offsets_supported: bool,
    metadata: FileMetadata,
) -> (r: Result<(), IoError>)
    ensures
        (match r {
            Ok(_) => refused(bounds, offsets_supported, metadata) is None,
            Err(error) => refused(bounds, offsets_supported, metadata) == Some(error@),
        }),
{
    if !metadata.is_file {
        return Err(IoError::new(IoErrorKind::InvalidInput, "only regular files can be read"));
    }
    if bounds.offset > metadata.size {
        return Err(
            IoError::new(IoErrorKind::InvalidInput, "read offset is beyond the end of the file"),
        );
    }
    if bounds.offset != 0 && !offsets_supported {
        return Err(
            IoError::new(
                IoErrorKind::Unsupported,
                "filesystem does not support efficient offset reads",
            ),
        );
    }
    Ok(())
}

fn empty_window(offset: u64) -> (r: ReadFileWindow)
    ensures
        r@ == end_window(offset),
{
    let window = ReadFileWindow {
        text: String::new(),
        start_byte: offset,
        end_byte: offset,
        line_fragments: 0,
        line_continues: false,
        next_offset: None,
        eof: true,
    };
    proof {
        assert(window.text@ =~= Seq::<char>::empty());
    }
    window
}

impl SnapshotTransaction {
    /// A transaction that has not begun.
    pub fn new(bounds: ReadFileWindowBounds, offsets_supported: bool) -> (r: SnapshotTransaction)
        ensures
            r@.bounds == bounds,
            r@.offsets_supported == offsets_supported,
            r@.phase == SnapshotPhase::Path,
    {
        SnapshotTransaction {
            bounds,
            offsets_supported,
            phase: SnapshotPhase::Path,
            canonical_path: String::new(),
            metadata: FileMetadata {
                is_directory: false,
                is_file: false,
                is_symlink: false,
                size: 0,
                created_at_ms: 0,
                modified_at_ms: 0,
            },
            window: empty_window(bounds.offset),
        }
    }

    /// What the file system is to be asked next.
    pub fn phase(&self) -> (r: SnapshotPhase)
        ensures
            r == self@.phase,
    {
        self.phase
    }

    /// The size of the file, once its metadata is known.
    pub fn file_size(&self) -> (r: u64)
        ensures
            r == self@.metadata.size,
    {
        self.metadata.size
    }

    /// Takes an answer of the file system.
    pub fn advance(self, event: SnapshotEvent) -> (r: Result<SnapshotTransaction, IoError>)
        requires
            answers(self@.phase, event@),
        ensures
            (match r {
                Ok(next) => advanced(self@, event@) == Ok::<
                    TransactionModel,
                    (IoErrorKind, Seq<char>),
                >(next@),
                Err(error) => advanced(self@, event@) == Err::<
                    TransactionModel,
                    (IoErrorKind, Seq<char>),
                >(error@),
            }),
    {
        let mut next = self;
        match event {
            SnapshotEvent::Path(path) => {
                let path = match path {
                    Ok(path) => path,
                    Err(error) => {
                        return Err(error);
                    },
                };
                if next.phase == SnapshotPhase::Path {
                    next.canonical_path = path;
                    next.phase = SnapshotPhase::Metadata;
                } else {
                    if !same_text(path.as_str(), next.canonical_path.as_str()) {
                        return Err(file_changed());
                    }
                    next.phase = if next.window.start_byte != next.window.end_byte {
                        SnapshotPhase::WindowAgain
                    } else {
                        SnapshotPhase::Done
                    };
                }
            },
            SnapshotEvent::Metadata(metadata) => {
                let metadata = match metadata {
                    Ok(metadata) => metadata,
                    Err(error) => {
                        return Err(error);
                    },
                };
                if next.phase == SnapshotPhase::Metadata {
                    if let Err(error) = check_metadata(
                        next.bounds,
                        next.offsets_supported,
                        metadata,
                    ) {
                        return Err(error);
                    }
                    next.metadata = metadata;
                    if next.bounds.offset == metadata.size {
                        next.window = empty_window(next.bounds.offset);
                        next.phase = SnapshotPhase::MetadataAgain;
                    } else {
                        next.phase = SnapshotPhase::Window;
                    }
                } else {
                    if !metadata.is_file || metadata.size != next.metadata.size
                        || metadata.created_at_ms != next.metadata.created_at_ms
                        || metadata.modified_at_ms != next.metadata.modified_at_ms {
                        return Err(file_changed());
                    }
                    next.phase = SnapshotPhase::PathAgain;
                }
            },
            SnapshotEvent::Window(window) => {
                if next.phase == SnapshotPhase::Window {
                    match window {
                        Ok(window) => {
                            next.window = window;
                        },
                        Err(error) => {
                            return Err(error);
                        },
                    }
                    next.phase = SnapshotPhase::MetadataAgain;
                } else {
                    match window {
                        Ok(window) => {
                            if !same_window(&window, &next.window) {
                                return Err(file_changed());
                            }
                        },
                        Err(_) => {
                            return Err(file_changed());
                        },
                    }
                    next.phase = SnapshotPhase::Done;
                }
            },
            SnapshotEvent::Unopened(error) => {
                return Err(error);
            },
        }
        Ok(next)
    }

    /// The snapshot of a complete transaction.
    pub fn into_snapshot(self) -> (r: Option<ReadFileSnapshot>)
        ensures
            (match r {
                Some(snapshot) => {
                    &&& self@.phase == SnapshotPhase::Done
                    &&& snapshot.canonical_path@ == self@.canonical_path
                    &&& snapshot.metadata == self@.metadata
                    &&& snapshot.window@ == self@.window
                },
                None => self@.phase != SnapshotPhase::Done,
            }),
    {
        if self.phase == SnapshotPhase::Done {
            Some(
                ReadFileSnapshot {
                    canonical_path: self.canonical_path,
                    metadata: self.metadata,
                    window: self.window,
                },
            )
        } else {
            None
        }
    }
}

/// The transaction after several answers.
pub open spec fn run(state: TransactionModel, events: Seq<EventModel>) -> Result<
    TransactionModel,
    (IoErrorKind, Seq<char>),
>
    decreases events.len(),
{
    if events.len() == 0 {
        Ok(state)
    } else {
        match advanced(state, events[0]) {
            Ok(next) => run(next, events.drop_first()),
            Err(error) => Err(error),
        }
    }
}

/// The answers that a complete transaction got: a path and metadata of a regular file that holds
/// the offset, a window unless the offset is the end of the file, metadata and path that agree
/// with the first ones, and the same window once more if it holds any byte.
pub open spec fn consistent(
    start: TransactionModel,
    done: TransactionModel,
    events: Seq<EventModel>,
) -> bool {
    let at_end = start.bounds.offset == done.metadata.size;
    let again: int = if at_end {
        2
    } else {
        3
    };
    let reread = done.window.start_byte != done.window.end_byte;
    &&& events.len() == again + (if reread {
        3int
    } else {
        2int
    })
    &&& events[0] == EventModel::Path(Ok(done.canonical_path))
    &&& events[1] == EventModel::Metadata(Ok(done.metadata))
    &&& refused(start.bounds, start.offsets_supported, done.metadata) is None
    &&& if at_end {
        done.window == end_window(start.bounds.offset)
    } else {
        events[2] == EventModel::Window(Ok(done.window))
    }
    &&& events[again] matches EventModel::Metadata(Ok(metadata)) && same_file(
        done.metadata,
        metadata,
    )
    &&& events[again + 1] == EventModel::Path(Ok(done.canonical_path))
    &&& reread ==> events[again + 2] == EventModel::Window(Ok(done.window))
}

/// Every complete snapshot is consistent, whatever the file system answered.
pub proof fn snapshot_is_consistent(start: TransactionModel, events: Seq<EventModel>)
    requires
        start.phase == SnapshotPhase::Path,
        run(start, events) matches Ok(done) && done.phase == SnapshotPhase::Done,
    ensures
        consistent(start, run(start, events)->Ok_0, events),
{
    reveal_with_fuel(run, 8);
    let rest1 = events.drop_first();
    let rest2 = rest1.drop_first();
    let rest3 = rest2.drop_first();
    let rest4 = rest3.drop_first();
    let rest5 = rest4.drop_first();
    if events.len() > 1 {
        assert(rest1[0] == events[1]);
    }
    if events.len() > 2 {
        assert(rest2[0] == events[2]);
    }
    if events.len() > 3 {
        assert(rest3[0] == events[3]);
    }
    if events.len() > 4 {
        assert(rest4[0] == events[4]);
    }
    if events.len() > 5 {
        assert(rest5[0] == events[5]);
    }
}

/// Whether an answer differs from what the transaction saw before.
pub open spec fn sees_change(state: TransactionModel, event: EventModel) -> bool {
    match (state.phase, event) {
        (SnapshotPhase::MetadataAgain, EventModel::Metadata(Ok(metadata))) => !same_file(
            state.metadata,
            metadata,
        ),
        (SnapshotPhase::PathAgain, EventModel::Path(Ok(path))) => path != state.canonical_path,
        (SnapshotPhase::WindowAgain, EventModel::Window(Ok(window))) => window != state.window,
        (SnapshotPhase::WindowAgain, EventModel::Window(Err(_))) => true,
        _ => false,
    }
}

/// Any change that is seen between the two looks at a file ends the read with the advice to try
/// again.
pub proof fn seen_changes_interrupt(state: TransactionModel, event: EventModel)
    requires
        answers(state.phase, event),
        sees_change(state, event),
    ensures
        advanced(state, event) == Err::<TransactionModel, (IoErrorKind, Seq<char>)>(changed()),
{
}

} // verus!
