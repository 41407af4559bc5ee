//! What has been read in a session, so that a repeated read is recognised.

use vstd::prelude::*;
use vstd::string::*;

use crate::text::same_text;

verus! {

/// The most reads that are remembered.
pub const MAX_READ_LEDGER_ENTRIES: usize = 256;

/// What identifies a read.
#[derive(Debug)]
pub struct ReadLedgerKey {
    pub environment_id: String,
    /// The canonical path of the file.
    pub canonical_path: String,
    pub file_size: u64,
    pub created_at_ms: i64,
    pub modified_at_ms: i64,
    pub start_byte: u64,
    pub end_byte: u64,
    pub next_offset: Option<u64>,
    pub eof: bool,
    pub line_continues: bool,
}

/// The model of a [`ReadLedgerKey`].
pub struct KeyModel {
    pub environment_id: Seq<char>,
    pub canonical_path: Seq<char>,
    pub file_size: u64,
    pub created_at_ms: i64,
    pub modified_at_ms: i64,
    pub start_byte: u64,
    pub end_byte: u64,
    pub next_offset: Option<u64>,
    pub eof: bool,
    pub line_continues: bool,
}

impl View for ReadLedgerKey {
    type V = KeyModel;

    open spec fn view(&self) -> KeyModel {
        KeyModel {
            environment_id: self.environment_id@,
            canonical_path: self.canonical_path@,
            file_size: self.file_size,
            created_at_ms: self.created_at_ms,
            modified_at_ms: self.modified_at_ms,
            start_byte: self.start_byte,
            end_byte: self.end_byte,
            next_offset: self.next_offset,
            eof: self.eof,
            line_continues: self.line_continues,
        }
    }
}

impl Clone for ReadLedgerKey {
    fn clone(&self) -> (r: Self)
        ensures
            r@ == self@,
    {
        ReadLedgerKey {
            environment_id: self.environment_id.clone(),
            canonical_path: self.canonical_path.clone(),
            file_size: self.file_size,
            created_at_ms: self.created_at_ms,
            modified_at_ms: self.modified_at_ms,
            start_byte: self.start_byte,
            end_byte: self.end_byte,
            next_offset: self.next_offset,
            eof: self.eof,
            line_continues: self.line_continues,
        }
    }
}

/// Whether two keys ask for the same window of the same file, whatever the file was like then.
pub open spec fn same_request(a: KeyModel, b: KeyModel) -> bool {
    &&& a.environment_id == b.environment_id
    &&& a.canonical_path == b.canonical_path
    &&& a.start_byte == b.start_byte
    &&& a.end_byte == b.end_byte
    &&& a.next_offset == b.next_offset
    &&& a.eof == b.eof
    &&& a.line_continues == b.line_continues
}

fn same_offset(a: Option<u64>, b: Option<u64>) -> (r: bool)
    ensures
        r == (a == b),
{
    match (a, b) {
        (Some(a), Some(b)) => a == b,
        (None, None) => true,
        _ => false,
    }
}

impl ReadLedgerKey {
    /// Whether two keys ask for the same window of the same file.
    pub fn same_read_request(&self, other: &ReadLedgerKey) -> (r: bool)
        ensures
            r == same_request(self@, other@),
    {
        same_text(self.environment_id.as_str(), other.environment_id.as_str()) && same_text(
            self.canonical_path.as_str(),
            other.canonical_path.as_str(),
        ) && self.start_byte == other.start_byte && self.end_byte == other.end_byte && same_offset(
            self.next_offset,
            other.next_offset,
        ) && self.eof == other.eof && self.line_continues == other.line_continues
    }

    /// Whether two keys are the same.
    pub fn same(&self, other: &ReadLedgerKey) -> (r: bool)
        ensures
            r == (self@ == other@),
    {
        self.same_read_request(other) && self.file_size == other.file_size && self.created_at_ms
            == other.created_at_ms && self.modified_at_ms == other.modified_at_ms
    }
}

/// What a read is, compared with those before it.
#[derive(Clone, Copy, Debug, PartialEq, Eq, Structural)]
pub enum ReadLedgerObservation {
    FirstRead,
    FingerprintChanged,
    ExactDuplicate,
}

#[derive(Debug)]
struct ReadLedgerEntry {
    key: ReadLedgerKey,
    serialized_digest: String,
}

/// The reads that are remembered, the least recent first, each with the digest of its result.
pub type Entries = Seq<(KeyModel, Seq<char>)>;

/// The position of the first entry with this key.
pub open spec fn key_position(entries: Entries, key: KeyModel) -> Option<int>
    decreases entries.len(),
{
    if entries.len() == 0 {
        None
    } else {
        match key_position(entries.drop_last(), key) {
            Some(i) => Some(i),
            None => if entries.last().0 == key {
                Some(entries.len() - 1)
            } else {
                None
            },
        }
    }
}

/// The position of the first entry with the same request.
pub open spec fn request_position(entries: Entries, key: KeyModel) -> Option<int>
    decreases entries.len(),
{
    if entries.len() == 0 {
        None
    } else {
        match request_position(entries.drop_last(), key) {
            Some(i) => Some(i),
            None => if same_request(entries.last().0, key) {
                Some(entries.len() - 1)
            } else {
                None
            },
        }
    }
}

/// What a read is, compared with those before it.
pub open spec fn observation(
    entries: Entries,
    key: KeyModel,
    digest: Seq<char>,
) -> ReadLedgerObservation {
    match key_position(entries, key) {
        Some(i) => if entries[i].1 == digest {
            ReadLedgerObservation::ExactDuplicate
        } else {
            ReadLedgerObservation::FingerprintChanged
        },
        None => if request_position(entries, key) is Some {
            ReadLedgerObservation::FingerprintChanged
        } else {
            ReadLedgerObservation::FirstRead
        },
    }
}

/// The last entries, as many as are remembered.
pub open spec fn remembered(entries: Entries) -> Entries {
    if entries.len() > MAX_READ_LEDGER_ENTRIES {
        entries.skip(entries.len() - MAX_READ_LEDGER_ENTRIES)
    } else {
        entries
    }
}

/// The entries after one more read.
pub open spec fn after_read(entries: Entries, key: KeyModel, digest: Seq<char>) -> Entries {
    match key_position(entries, key) {
        Some(i) => entries.remove(i).push((key, digest)),
        None => match request_position(entries, key) {
            Some(i) => entries.remove(i).push((key, digest)),
            None => remembered(entries.push((key, digest))),
        },
    }
}

proof fn positions_in_range(entries: Entries, key: KeyModel)
    ensures
        key_position(entries, key) matches Some(i) ==> 0 <= i < entries.len() && entries[i].0
            == key,
        request_position(entries, key) matches Some(i) ==> 0 <= i < entries.len()
            && same_request(entries[i].0, key),
        key_position(entries, key) is None ==> forall|i: int|
            0 <= i < entries.len() ==> (#[trigger] entries[i]).0 != key,
        request_position(entries, key) is None ==> forall|i: int|
            0 <= i < entries.len() ==> !same_request((#[trigger] entries[i]).0, key),
    decreases entries.len(),
{
    if entries.len() > 0 {
        let fewer = entries.drop_last();
        positions_in_range(fewer, key);
        if key_position(entries, key) is None {
            assert forall|i: int| 0 <= i < entries.len() implies (#[trigger] entries[i]).0
                != key by {
                if i < fewer.len() {
                    assert(fewer[i] == entries[i]);
                }
            }
        }
        if request_position(entries, key) is None {
            assert forall|i: int| 0 <= i < entries.len() implies !same_request(
                (#[trigger] entries[i]).0,
                key,
            ) by {
                if i < fewer.len() {
                    assert(fewer[i] == entries[i]);
                }
            }
        }
    }
}

/// Whether no two entries are for the same request.
pub open spec fn one_each(entries: Entries) -> bool {
    forall|i: int, j: int|
        0 <= i < j < entries.len() ==> !same_request(
            (#[trigger] entries[i]).0,
            (#[trigger] entries[j]).0,
        )
}

/// What is remembered stays bounded and holds each request once; the read itself is the most
/// recent, and only a full list forgets anything, the least recent read first.
pub proof fn ledger_stays_bounded(entries: Entries, key: KeyModel, digest: Seq<char>)
    requires
        entries.len() <= MAX_READ_LEDGER_ENTRIES,
        one_each(entries),
    ensures
        after_read(entries, key, digest).len() <= MAX_READ_LEDGER_ENTRIES,
        one_each(after_read(entries, key, digest)),
        after_read(entries, key, digest).len() > 0,
        after_read(entries, key, digest).last() == (key, digest),
        observation(entries, key, digest) == ReadLedgerObservation::FirstRead && entries.len()
            == MAX_READ_LEDGER_ENTRIES ==> after_read(entries, key, digest)
            == entries.drop_first().push((key, digest)),
{
    positions_in_range(entries, key);
    let after = after_read(entries, key, digest);
    if let Some(i) = key_position(entries, key) {
        one_each_moved(entries, i, key, digest);
    } else if let Some(i) = request_position(entries, key) {
        one_each_moved(entries, i, key, digest);
    } else {
        let grown = entries.push((key, digest));
        if grown.len() > MAX_READ_LEDGER_ENTRIES {
            assert(after =~= entries.drop_first().push((key, digest)));
        }
        assert forall|i: int, j: int| 0 <= i < j < after.len() implies !same_request(
            (#[trigger] after[i]).0,
            (#[trigger] after[j]).0,
        ) by {
            let shift = grown.len() - after.len();
            assert(after[i] == grown[i + shift]);
            assert(after[j] == grown[j + shift]);
            assert(grown[i + shift] == entries[i + shift]);
            if j + shift < entries.len() {
                assert(grown[j + shift] == entries[j + shift]);
            }
        }
    }
}

proof fn one_each_moved(entries: Entries, index: int, key: KeyModel, digest: Seq<char>)
    requires
        one_each(entries),
        0 <= index < entries.len(),
        same_request(entries[index].0, key),
    ensures
        one_each(entries.remove(index).push((key, digest))),
{
    let after = entries.remove(index).push((key, digest));
    assert forall|i: int, j: int| 0 <= i < j < after.len() implies !same_request(
        (#[trigger] after[i]).0,
        (#[trigger] after[j]).0,
    ) by {
        let from = if i < index {
            i
        } else {
            i + 1
        };
        assert(after[i] == entries[from]);
        if j < after.len() - 1 {
            let to = if j < index {
                j
            } else {
                j + 1
            };
            assert(after[j] == entries[to]);
        } else if from < index {
            assert(!same_request(entries[from].0, entries[index].0));
        } else {
            assert(!same_request(entries[index].0, entries[from].0));
        }
    }
}

/// A read that is repeated at once, with the same result, is an exact duplicate; with another
/// result it is a change.
pub proof fn repeated_read_is_recognised(
    entries: Entries,
    key: KeyModel,
    digest: Seq<char>,
    again: Seq<char>,
)
    requires
        entries.len() <= MAX_READ_LEDGER_ENTRIES,
        one_each(entries),
    ensures
        observation(after_read(entries, key, digest), key, again) == (if again == digest {
            ReadLedgerObservation::ExactDuplicate
        } else {
            ReadLedgerObservation::FingerprintChanged
        }),
{
    ledger_stays_bounded(entries, key, digest);
    let after = after_read(entries, key, digest);
    positions_in_range(after, key);
    let last = after.len() - 1;
    assert(after[last].0 == key);
    match key_position(after, key) {
        Some(i) => {
            if i < last {
                assert(!same_request(after[i].0, after[last].0));
            }
        },
        None => {},
    }
}

/// A file that changed since a read, in size or in time, is never taken for a duplicate.
pub proof fn changed_file_is_no_duplicate(
    entries: Entries,
    key: KeyModel,
    digest: Seq<char>,
    changed: KeyModel,
    again: Seq<char>,
)
    requires
        entries.len() <= MAX_READ_LEDGER_ENTRIES,
        one_each(entries),
        same_request(key, changed),
        changed != key,
    ensures
        observation(after_read(entries, key, digest), changed, again)
            == ReadLedgerObservation::FingerprintChanged,
{
    ledger_stays_bounded(entries, key, digest);
    let after = after_read(entries, key, digest);
    positions_in_range(after, changed);
    let last = after.len() - 1;
    assert(after[last].0 == key);
    match key_position(after, changed) {
        Some(i) => {
            if i < last {
                assert(!same_request(after[i].0, after[last].0));
            }
        },
        None => {},
    }
}

/// Remembers what has been read in one session. It starts empty with every session: losing it
/// loses an opportunity to refer back to a result, never a result.
#[derive(Debug)]
pub struct ReadLedger {
    entries: Vec<ReadLedgerEntry>,
}

impl View for ReadLedger {
    type V = Entries;

    closed spec fn view(&self) -> Entries {
        self.entries@.map_values(
            |entry: ReadLedgerEntry| (entry.key@, entry.serialized_digest@),
        )
    }
}

impl Default for ReadLedger {
    fn default() -> (r: Self)
        ensures
            r@ == Seq::<(KeyModel, Seq<char>)>::empty(),
    {
        let entries: Vec<ReadLedgerEntry> = Vec::new();
        let r = ReadLedger { entries };
        proof {
            assert(r@ =~= Seq::<(KeyModel, Seq<char>)>::empty());
        }
        r
    }
}

impl ReadLedger {
    /// At most so many reads are remembered, and each request once.
    #[verifier::type_invariant]
    spec fn well_formed(&self) -> bool {
        self@.len() <= MAX_READ_LEDGER_ENTRIES && one_each(self@)
    }

    fn find(&self, key: &ReadLedgerKey) -> (r: (Option<usize>, Option<usize>))
        ensures
            (match r.0 {
                Some(i) => key_position(self@, key@) == Some(i as int) && i < self.entries@.len(),
                None => key_position(self@, key@) is None,
            }),
            (match r.1 {
                Some(i) => request_position(self@, key@) == Some(i as int) && i
                    < self.entries@.len(),
                None => request_position(self@, key@) is None,
            }),
    {
        let mut exact: Option<usize> = None;
        let mut request: Option<usize> = None;
        let mut i: usize = 0;
        let ghost all = self@;
        while i < self.entries.len()
            invariant
                i <= self.entries@.len(),
                all == self@,
                all.len() == self.entries@.len(),
                (match exact {
                    Some(k) => key_position(all.take(i as int), key@) == Some(k as int) && k < i,
                    None => key_position(all.take(i as int), key@) is None,
                }),
                (match request {
                    Some(k) => request_position(all.take(i as int), key@) == Some(k as int) && k
                        < i,
                    None => request_position(all.take(i as int), key@) is None,
                }),
            decreases self.entries@.len() - i,
        {
            proof {
                assert(all[i as int].0 == self.entries@[i as int].key@);
                assert(all.take(i + 1).drop_last() =~= all.take(i as int));
            }
            if exact.is_none() && self.entries[i].key.same(key) {
                exact = Some(i);
            }
            if request.is_none() && self.entries[i].key.same_read_request(key) {
                request = Some(i);
            }
            i += 1;
        }
        proof {
            assert(all.take(i as int) =~= all);
        }
        (exact, request)
    }

    /// Remembers a read, and says what it is, compared with those before it.
    pub fn observe(&mut self, key: ReadLedgerKey, serialized_digest: String) -> (r:
        ReadLedgerObservation)
        ensures
            r == observation(old(self)@, key@, serialized_digest@),
            final(self)@ == after_read(old(self)@, key@, serialized_digest@),
            old(self)@.len() <= MAX_READ_LEDGER_ENTRIES,
            one_each(old(self)@),
    {
        proof {
            use_type_invariant(&*self);
            ledger_stays_bounded(self@, key@, serialized_digest@);
        }
        let ghost before = self@;
        let (exact, request) = self.find(&key);
        let mut entries: Vec<ReadLedgerEntry> = Vec::new();
        proof {
            assert(entries@.map_values(
                |entry: ReadLedgerEntry| (entry.key@, entry.serialized_digest@),
            ) =~= Seq::<(KeyModel, Seq<char>)>::empty());
        }
        std::mem::swap(&mut entries, &mut self.entries);
        let ghost models = |list: Seq<ReadLedgerEntry>|
            list.map_values(|entry: ReadLedgerEntry| (entry.key@, entry.serialized_digest@));
        let ghost listed = entries@;
        let mut observed = ReadLedgerObservation::FirstRead;
        let place: Option<usize> = match exact {
            Some(i) => {
                proof {
                    assert(before[i as int].1 == entries@[i as int].serialized_digest@);
                }
                if same_text(
                    entries[i].serialized_digest.as_str(),
                    serialized_digest.as_str(),
                ) {
                    observed = ReadLedgerObservation::ExactDuplicate;
                } else {
                    observed = ReadLedgerObservation::FingerprintChanged;
                }
                Some(i)
            },
            None => {
                if request.is_some() {
                    observed = ReadLedgerObservation::FingerprintChanged;
                }
                request
            },
        };
        let ghost added = (key@, serialized_digest@);
        match place {
            Some(i) => {
                let _forgotten = entries.remove(i);
                let ghost shorter = entries@;
                entries.push(ReadLedgerEntry { key, serialized_digest });
                proof {
                    assert(models(entries@) =~= before.remove(i as int).push(added));
                }
            },
            None => {
                entries.push(ReadLedgerEntry { key, serialized_digest });
                proof {
                    assert(models(entries@) =~= before.push(added));
                }
                if entries.len() > MAX_READ_LEDGER_ENTRIES {
                    let ghost grown = entries@;
                    let _forgotten = entries.remove(0);
                    proof {
                        assert(models(entries@) =~= remembered(before.push(added)));
                    }
                }
            },
        }
        *self = ReadLedger { entries };
        observed
    }
}

} // verus!
