//! A buffer that keeps the start and the end of a stream and drops the middle.

use vstd::prelude::*;
use vstd::string::*;

use crate::numbers::{decimal, decimal_text};
use crate::read_tool_output::sum_size;

verus! {

/// What a buffer has kept of a stream.
#[verifier::ext_equal]
pub struct KeptBytes {
    pub head: Seq<u8>,
    pub tail: Seq<u8>,
    /// How many bytes between them were dropped.
    pub omitted: usize,
    /// Everything, as long as it is recorded.
    pub complete: Option<Seq<u8>>,
    /// How much may be recorded, if anything is to be.
    pub capture_limit: Option<usize>,
    /// Whether more came than may be recorded.
    pub exceeded: bool,
}

/// How many bytes of the start are kept.
pub open spec fn head_budget(max: int) -> int {
    max / 2
}

/// How many bytes of the end are kept.
pub open spec fn tail_budget(max: int) -> int {
    max - max / 2
}

/// The last bytes of a sequence.
pub open spec fn last_bytes(bytes: Seq<u8>, count: int) -> Seq<u8> {
    if bytes.len() <= count {
        bytes
    } else {
        bytes.skip(bytes.len() - count)
    }
}

/// How many bytes of a chunk still belong to the start.
pub open spec fn into_head(kept: KeptBytes, max: int, chunk: Seq<u8>) -> int {
    let room = head_budget(max) - kept.head.len();
    if room <= 0 {
        0
    } else if chunk.len() < room {
        chunk.len() as int
    } else {
        room
    }
}

/// What is recorded with one more chunk.
pub open spec fn recorded(kept: KeptBytes, chunk: Seq<u8>) -> (Option<Seq<u8>>, bool) {
    match (kept.complete, kept.capture_limit) {
        (Some(bytes), Some(limit)) => if bytes.len() + chunk.len() <= limit {
            (Some(bytes + chunk), kept.exceeded)
        } else {
            (None, true)
        },
        _ => (kept.complete, kept.exceeded),
    }
}

/// What is kept with one more chunk, what is recorded aside.
pub open spec fn previewed(kept: KeptBytes, max: int, chunk: Seq<u8>) -> KeptBytes {
    let n = into_head(kept, max, chunk);
    let rest = kept.tail + chunk.skip(n);
    let tail = last_bytes(rest, tail_budget(max));
    KeptBytes {
        head: kept.head + chunk.take(n),
        tail,
        omitted: sum_size(kept.omitted as int, rest.len() - tail.len()),
        ..kept
    }
}

/// What is kept with one more chunk.
pub open spec fn pushed(kept: KeptBytes, max: int, chunk: Seq<u8>) -> KeptBytes {
    KeptBytes {
        complete: recorded(kept, chunk).0,
        exceeded: recorded(kept, chunk).1,
        ..previewed(kept, max, chunk)
    }
}

/// What is kept before anything came.
pub open spec fn nothing_kept(capture_limit: Option<usize>) -> KeptBytes {
    KeptBytes {
        head: seq![],
        tail: seq![],
        omitted: 0,
        complete: if capture_limit is Some {
            Some(seq![])
        } else {
            None
        },
        capture_limit,
        exceeded: false,
    }
}

/// What is recorded with everything that another buffer recorded.
pub open spec fn recorded_buffer(kept: KeptBytes, other: KeptBytes) -> (Option<Seq<u8>>, bool) {
    match (kept.complete, kept.capture_limit) {
        (Some(bytes), Some(limit)) => match other.complete {
            Some(more) => if bytes.len() + more.len() <= limit {
                (Some(bytes + more), kept.exceeded)
            } else {
                (None, true)
            },
            None => (None, kept.exceeded || other.exceeded),
        },
        _ => (kept.complete, kept.exceeded),
    }
}

/// What is kept with everything that another buffer has kept.
pub open spec fn pushed_buffer(kept: KeptBytes, max: int, other: KeptBytes) -> KeptBytes {
    let begun = previewed(kept, max, other.head);
    let skipped = KeptBytes {
        omitted: sum_size(begun.omitted as int, other.omitted as int),
        ..begun
    };
    KeptBytes {
        complete: recorded_buffer(kept, other).0,
        exceeded: recorded_buffer(kept, other).1,
        ..previewed(skipped, max, other.tail)
    }
}

/// What a buffer of a size keeps of a whole stream.
pub open spec fn ends_of(max: int, stream: Seq<u8>, capture_limit: Option<usize>) -> KeptBytes {
    let h = if stream.len() < head_budget(max) {
        stream.len() as int
    } else {
        head_budget(max)
    };
    let tail = last_bytes(stream.skip(h), tail_budget(max));
    KeptBytes {
        head: stream.take(h),
        tail,
        omitted: sum_size(stream.len() - h - tail.len(), 0),
        complete: match capture_limit {
            Some(limit) => if stream.len() <= limit {
                Some(stream)
            } else {
                None
            },
            None => None,
        },
        capture_limit,
        exceeded: capture_limit matches Some(limit) && stream.len() > limit,
    }
}

/// However a stream is cut into chunks, the buffer keeps its start and its end, counts what lies
/// between, and records all of it as long as that is within the limit.
pub proof fn chunking_does_not_matter(
    max: int,
    stream: Seq<u8>,
    chunk: Seq<u8>,
    capture_limit: Option<usize>,
)
    requires
        max >= 0,
    ensures
        nothing_kept(capture_limit) == ends_of(max, seq![], capture_limit),
        pushed(ends_of(max, stream, capture_limit), max, chunk) == ends_of(
            max,
            stream + chunk,
            capture_limit,
        ),
{
    assert(nothing_kept(capture_limit) =~= ends_of(max, seq![], capture_limit));
    let before = ends_of(max, stream, capture_limit);
    let after = ends_of(max, stream + chunk, capture_limit);
    let n = into_head(before, max, chunk);
    assert(before.head + chunk.take(n) =~= after.head);
    let h = before.head.len() as int;
    let whole = stream.skip(h) + chunk.skip(n);
    assert((stream + chunk).skip(after.head.len() as int) =~= whole);
    let t = tail_budget(max);
    if stream.skip(h).len() > t {
        assert(n == 0);
        assert(chunk.skip(0) =~= chunk);
    }
    assert(last_bytes(last_bytes(stream.skip(h), t) + chunk.skip(n), t) =~= last_bytes(whole, t));
    assert(pushed(before, max, chunk) =~= after);
}

/// Handing everything on to an empty buffer of the same size and limit loses nothing more.
pub proof fn draining_keeps_everything(
    max: int,
    stream: Seq<u8>,
    capture_limit: Option<usize>,
)
    requires
        max >= 0,
    ensures
        pushed_buffer(
            nothing_kept(capture_limit),
            max,
            ends_of(max, stream, capture_limit),
        ) == ends_of(max, stream, capture_limit),
{
    let other = ends_of(max, stream, capture_limit);
    let empty = nothing_kept(capture_limit);
    let begun = previewed(empty, max, other.head);
    assert(into_head(empty, max, other.head) == other.head.len());
    assert(other.head.take(other.head.len() as int) =~= other.head);
    assert(other.head.skip(other.head.len() as int) =~= Seq::<u8>::empty());
    assert(begun.head =~= other.head);
    assert(begun.tail =~= Seq::<u8>::empty());
    if other.tail.len() > 0 {
        assert(into_head(begun, max, other.tail) == 0);
    }
    assert(other.tail.skip(0) =~= other.tail);
    assert(other.tail.take(0) =~= Seq::<u8>::empty());
    assert(begun.tail + other.tail =~= other.tail);
    assert(begun.head + other.tail.take(0) =~= other.head);
    if let Some(bytes) = other.complete {
        assert(Seq::<u8>::empty() + bytes =~= bytes);
    }
    assert(pushed_buffer(empty, max, other) =~= other);
}

/// The first half of its size holds the start of a stream, the rest the end of it.
#[derive(Debug)]
pub struct HeadTailBuffer<const MAX_BYTES: usize> {
    head: Vec<u8>,
    tail: Vec<u8>,
    omitted: usize,
    complete: Option<Vec<u8>>,
    capture_limit: Option<usize>,
    exceeded: bool,
}

/// The bytes of an optional list.
pub open spec fn optional_bytes(bytes: Option<Vec<u8>>) -> Option<Seq<u8>> {
    match bytes {
        Some(bytes) => Some(bytes@),
        None => None,
    }
}

impl<const MAX_BYTES: usize> View for HeadTailBuffer<MAX_BYTES> {
    type V = KeptBytes;

    closed spec fn view(&self) -> KeptBytes {
        KeptBytes {
            head: self.head@,
            tail: self.tail@,
            omitted: self.omitted,
            complete: optional_bytes(self.complete),
            capture_limit: self.capture_limit,
            exceeded: self.exceeded,
        }
    }
}

/// Appends a part of a list of bytes.
fn append_part(out: &mut Vec<u8>, bytes: &[u8], from: usize, to: usize)
    requires
        from <= to <= bytes@.len(),
    ensures
        final(out)@ == old(out)@ + bytes@.subrange(from as int, to as int),
{
    let mut i: usize = from;
    proof {
        assert(out@ =~= old(out)@ + bytes@.subrange(from as int, from as int));
    }
    while i < to
        invariant
            from <= i <= to <= bytes@.len(),
            out@ == old(out)@ + bytes@.subrange(from as int, i as int),
        decreases to - i,
    {
        out.push(bytes[i]);
        i += 1;
        proof {
            assert(out@ =~= old(out)@ + bytes@.subrange(from as int, i as int));
        }
    }
}

/// The text between the start and the end of a stream.
pub open spec fn omission_marker_text(omitted: nat) -> Seq<char> {
    "\n... "@ + decimal(omitted) + " bytes omitted ...\n"@
}

impl<const MAX_BYTES: usize> Default for HeadTailBuffer<MAX_BYTES> {
    fn default() -> (r: Self)
        ensures
            r@ == nothing_kept(None),
    {
        let r = HeadTailBuffer {
            head: Vec::new(),
            tail: Vec::new(),
            omitted: 0,
            complete: None,
            capture_limit: None,
            exceeded: false,
        };
        proof {
            assert(r@ =~= nothing_kept(None));
        }
        r
    }
}

impl<const MAX_BYTES: usize> HeadTailBuffer<MAX_BYTES> {
    /// Start and end stay within their halves.
    #[verifier::type_invariant]
    spec fn bounded(&self) -> bool {
        self.head@.len() <= head_budget(MAX_BYTES as int) && self.tail@.len() <= tail_budget(
            MAX_BYTES as int,
        )
    }

    /// A buffer that also records everything, up to a limit.
    pub fn new_recoverable(capture_limit: usize) -> (r: Self)
        ensures
            r@ == nothing_kept(Some(capture_limit)),
    {
        let r = HeadTailBuffer {
            head: Vec::new(),
            tail: Vec::new(),
            omitted: 0,
            complete: Some(Vec::new()),
            capture_limit: Some(capture_limit),
            exceeded: false,
        };
        proof {
            assert(r@ =~= nothing_kept(Some(capture_limit)));
        }
        r
    }

    fn preview(&mut self, chunk: &[u8])
        ensures
            final(self)@ == previewed(old(self)@, MAX_BYTES as int, chunk@),
    {
        proof {
            use_type_invariant(&*self);
        }
        let head_room: usize = (MAX_BYTES / 2).saturating_sub(self.head.len());
        let tail_size: usize = MAX_BYTES - MAX_BYTES / 2;
        let total: usize = chunk.len();
        let n: usize = if total < head_room {
            total
        } else {
            head_room
        };
        let ghost before = self@;
        proof {
            assert(n == into_head(before, MAX_BYTES as int, chunk@));
            assert(chunk@.subrange(0, n as int) =~= chunk@.take(n as int));
        }
        let mut head: Vec<u8> = Vec::new();
        std::mem::swap(&mut head, &mut self.head);
        append_part(&mut head, chunk, 0, n);
        self.head = head;
        let rest: usize = total - n;
        let ghost all = before.tail + chunk@.skip(n as int);
        if rest >= tail_size {
            let from: usize = total - tail_size;
            self.omitted = self.omitted.saturating_add(self.tail.len()).saturating_add(
                rest - tail_size,
            );
            let mut tail: Vec<u8> = Vec::new();
            append_part(&mut tail, chunk, from, total);
            self.tail = tail;
            proof {
                assert(self.tail@ =~= last_bytes(all, tail_size as int));
            }
        } else {
            let kept: usize = if self.tail.len() > tail_size - rest {
                tail_size - rest
            } else {
                self.tail.len()
            };
            let dropped: usize = self.tail.len() - kept;
            let mut tail: Vec<u8> = Vec::new();
            append_part(&mut tail, self.tail.as_slice(), dropped, self.tail.len());
            append_part(&mut tail, chunk, n, total);
            self.omitted = self.omitted.saturating_add(dropped);
            self.tail = tail;
            proof {
                assert(self.tail@ =~= last_bytes(all, tail_size as int));
            }
        }
        proof {
            assert(self@ =~= previewed(before, MAX_BYTES as int, chunk@));
        }
    }

    /// Takes the next bytes of the stream.
    pub fn push_chunk(&mut self, chunk: &[u8])
        ensures
            final(self)@ == pushed(old(self)@, MAX_BYTES as int, chunk@),
    {
        let ghost before = self@;
        self.preview(chunk);
        proof {
            use_type_invariant(&*self);
        }
        let mut complete: Option<Vec<u8>> = None;
        std::mem::swap(&mut complete, &mut self.complete);
        if let Some(limit) = self.capture_limit {
            if let Some(mut bytes) = complete {
                if bytes.len() <= limit && chunk.len() <= limit - bytes.len() {
                    append_part(&mut bytes, chunk, 0, chunk.len());
                    proof {
                        assert(chunk@.subrange(0, chunk@.len() as int) =~= chunk@);
                    }
                    self.complete = Some(bytes);
                } else {
                    self.exceeded = true;
                }
            }
        } else {
            self.complete = complete;
        }
        proof {
            assert(self@ =~= pushed(before, MAX_BYTES as int, chunk@));
        }
    }

    /// Takes what another buffer of the same size has kept.
    pub fn push_buffer(&mut self, other: HeadTailBuffer<MAX_BYTES>)
        ensures
            final(self)@ == pushed_buffer(old(self)@, MAX_BYTES as int, other@),
    {
        let ghost before = self@;
        self.preview(other.head.as_slice());
        proof {
            use_type_invariant(&*self);
        }
        self.omitted = self.omitted.saturating_add(other.omitted);
        self.preview(other.tail.as_slice());
        proof {
            use_type_invariant(&*self);
        }
        let mut complete: Option<Vec<u8>> = None;
        std::mem::swap(&mut complete, &mut self.complete);
        if let Some(limit) = self.capture_limit {
            if let Some(mut bytes) = complete {
                match other.complete {
                    Some(more) => {
                        if bytes.len() <= limit && more.len() <= limit - bytes.len() {
                            append_part(&mut bytes, more.as_slice(), 0, more.len());
                            proof {
                                assert(more@.subrange(0, more@.len() as int) =~= more@);
                            }
                            self.complete = Some(bytes);
                        } else {
                            self.exceeded = true;
                        }
                    },
                    None => {
                        self.exceeded = self.exceeded || other.exceeded;
                    },
                }
            }
        } else {
            self.complete = complete;
        }
        proof {
            assert(self@ =~= pushed_buffer(before, MAX_BYTES as int, other@));
        }
    }

    /// Hands out what has been kept, and starts anew with the same limit.
    pub fn drain(&mut self) -> (r: HeadTailBuffer<MAX_BYTES>)
        ensures
            r@ == old(self)@,
            final(self)@ == nothing_kept(old(self)@.capture_limit),
    {
        let mut drained = match self.capture_limit {
            Some(limit) => HeadTailBuffer::<MAX_BYTES>::new_recoverable(limit),
            None => HeadTailBuffer::<MAX_BYTES>::default(),
        };
        std::mem::swap(&mut drained, self);
        drained
    }

    /// How many bytes are kept of the start and of the end.
    pub fn retained_bytes(&self) -> (r: usize)
        ensures
            r == self@.head.len() + self@.tail.len(),
            r <= MAX_BYTES,
    {
        proof {
            use_type_invariant(self);
        }
        self.head.len() + self.tail.len()
    }

    /// How many bytes between them were dropped.
    pub fn omitted_bytes(&self) -> (r: usize)
        ensures
            r == self@.omitted,
    {
        self.omitted
    }

    /// Whether more came than may be recorded.
    pub fn capture_limit_exceeded(&self) -> (r: bool)
        ensures
            r == self@.exceeded,
    {
        self.exceeded
    }

    /// The start and the end.
    pub fn to_bytes(&self) -> (r: Vec<u8>)
        ensures
            r@ == self@.head + self@.tail,
    {
        let mut out: Vec<u8> = Vec::new();
        append_part(&mut out, self.head.as_slice(), 0, self.head.len());
        append_part(&mut out, self.tail.as_slice(), 0, self.tail.len());
        proof {
            assert(out@ =~= self@.head + self@.tail);
        }
        out
    }

    /// The start and the end, and between them how much is missing.
    pub fn to_bytes_with_omission_marker(&self) -> (r: Vec<u8>)
        ensures
            r@ == (if self@.omitted == 0 {
                self@.head + self@.tail
            } else {
                self@.head + vstd::utf8::encode_utf8(
                    omission_marker_text(self@.omitted as nat),
                ) + self@.tail
            }),
    {
        if self.omitted == 0 {
            return self.to_bytes();
        }
        let mut marker = String::from_str("\n... ");
        marker.append(decimal_text(self.omitted as u64).as_str());
        marker.append(" bytes omitted ...\n");
        let bytes = marker.as_str().as_bytes();
        let mut out: Vec<u8> = Vec::new();
        append_part(&mut out, self.head.as_slice(), 0, self.head.len());
        append_part(&mut out, bytes, 0, bytes.len());
        append_part(&mut out, self.tail.as_slice(), 0, self.tail.len());
        proof {
            assert(bytes@.subrange(0, bytes@.len() as int) =~= bytes@);
            assert(out@ =~= self@.head + bytes@ + self@.tail);
        }
        out
    }

    /// Everything that was recorded, once.
    pub fn take_complete_bytes(&mut self) -> (r: Option<Vec<u8>>)
        ensures
            optional_bytes(r) == old(self)@.complete,
            final(self)@ == (KeptBytes { complete: None, ..old(self)@ }),
    {
        proof {
            use_type_invariant(&*self);
        }
        let mut complete: Option<Vec<u8>> = None;
        std::mem::swap(&mut complete, &mut self.complete);
        complete
    }
}

} // verus!
