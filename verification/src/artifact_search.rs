//! Searching a stored tool output for a byte string, one bounded read at a time.
//!
//! The search asks for consecutive reads of the artifact. After each it either is complete or
//! asks for the next one; at no time does it hold more than one read and the tail of the last.

use vstd::prelude::*;
use vstd::string::*;
use vstd::utf8::*;

use crate::io_error::{IoError, IoErrorKind};
use crate::read_tool_output_window::{sum64, MAX_SEARCH_SCAN_BYTES};

verus! {

/// The longest query.
pub const MAX_QUERY_BYTES: usize = 1024;

/// Whether `query` stands at position `i` of `data`.
pub open spec fn matches_at(data: Seq<u8>, query: Seq<u8>, i: int) -> bool {
    0 <= i && i + query.len() <= data.len() && data.subrange(i, i + query.len()) == query
}

/// The offsets below `scan_end` at which `query` stands in the first `n` positions of `data`,
/// which starts at `offset`.
pub open spec fn match_offsets(
    data: Seq<u8>,
    query: Seq<u8>,
    offset: int,
    scan_end: int,
    n: int,
) -> Seq<u64>
    decreases n,
{
    if n <= 0 {
        seq![]
    } else {
        let before = match_offsets(data, query, offset, scan_end, n - 1);
        if matches_at(data, query, n - 1) && offset + n - 1 < scan_end {
            before.push((offset + n - 1) as u64)
        } else {
            before
        }
    }
}

/// All matches of `query` in `data`.
pub open spec fn all_matches(data: Seq<u8>, query: Seq<u8>, offset: int, scan_end: int) -> Seq<
    u64,
> {
    match_offsets(data, query, offset, scan_end, data.len() as int)
}

/// The result of a search: the matches, and where to search on.
pub type SearchFound = (Seq<u64>, Option<u64>);

/// The result when the bytes `data` from `offset` on are known, and whether more follow.
///
/// `None` means that the next read is needed.
pub open spec fn search_found(
    data: Seq<u8>,
    query: Seq<u8>,
    offset: u64,
    limit: usize,
    more: bool,
) -> Option<SearchFound> {
    let scan_end = sum64(offset as int, MAX_SEARCH_SCAN_BYTES as int);
    let read_end = sum64(scan_end as int, query.len() - 1);
    let all = all_matches(data, query, offset as int, scan_end as int);
    if all.len() >= limit {
        Some((all.take(limit as int), Some(sum64(all[limit - 1] as int, 1))))
    } else if !more {
        Some((all, None))
    } else if offset + data.len() >= read_end {
        Some((all, Some(scan_end)))
    } else {
        None
    }
}

/// What a search does after a read.
pub enum SearchStep {
    /// It wants the next read.
    More,
    /// It is complete.
    Found { offsets: Vec<u64>, next: Option<u64> },
}

/// A search under way.
pub struct ArtifactSearch {
    query: Vec<u8>,
    limit: usize,
    offset: u64,
    cursor: u64,
    carry: Vec<u8>,
    offsets: Vec<u64>,
    seen: Ghost<Seq<u8>>,
}

impl ArtifactSearch {
    /// The bytes that are looked for.
    pub closed spec fn spec_query(self) -> Seq<u8> {
        self.query@
    }

    /// The most matches that are returned.
    pub closed spec fn spec_limit(self) -> usize {
        self.limit
    }

    /// Where the search starts.
    pub closed spec fn spec_offset(self) -> u64 {
        self.offset
    }

    /// The bytes read so far.
    pub closed spec fn spec_seen(self) -> Seq<u8> {
        self.seen@
    }

    /// A search that is not complete.
    pub closed spec fn wf(self) -> bool {
        let scan_end = sum64(self.offset as int, MAX_SEARCH_SCAN_BYTES as int);
        &&& 0 < self.query@.len() <= MAX_QUERY_BYTES
        &&& self.limit > 0
        &&& self.cursor == self.offset + self.seen@.len()
        &&& self.carry@.len() < self.query@.len()
        &&& self.carry@.len() <= self.seen@.len()
        &&& self.carry@.len() == self.query@.len() - 1 || self.carry@.len() == self.seen@.len()
        &&& self.carry@ == self.seen@.skip(self.seen@.len() - self.carry@.len())
        &&& self.offsets@ == match_offsets(
            self.seen@,
            self.query@,
            self.offset as int,
            scan_end as int,
            self.seen@.len() - self.carry@.len(),
        )
        &&& self.offsets@.len() < self.limit
    }

    /// Starts a search.
    pub fn new(query: &str, offset: u64, limit: usize, ceiling: usize) -> (r: Result<
        ArtifactSearch,
        IoError,
    >)
        requires
            ceiling > 0,
        ensures
            match r {
                Ok(search) => {
                    &&& 0 < encode_utf8(query@).len() <= MAX_QUERY_BYTES && limit > 0
                    &&& search.wf()
                    &&& search.spec_query() == encode_utf8(query@)
                    &&& search.spec_limit() == (if limit < ceiling {
                        limit
                    } else {
                        ceiling
                    })
                    &&& search.spec_offset() == offset
                    &&& search.spec_seen() == Seq::<u8>::empty()
                },
                Err(error) => !(0 < encode_utf8(query@).len() <= MAX_QUERY_BYTES && limit > 0)
                    && error@ == (IoErrorKind::InvalidInput, "invalid search bounds"@),
            },
    {
        let bytes = query.as_bytes();
        if bytes.len() == 0 || bytes.len() > MAX_QUERY_BYTES || limit == 0 {
            return Err(IoError::new(IoErrorKind::InvalidInput, "invalid search bounds"));
        }
        let mut pattern: Vec<u8> = Vec::new();
        let mut i: usize = 0;
        while i < bytes.len()
            invariant
                i <= bytes@.len(),
                pattern@ == bytes@.take(i as int),
            decreases bytes@.len() - i,
        {
            proof {
                assert(bytes@.take(i + 1) =~= bytes@.take(i as int).push(bytes@[i as int]));
            }
            pattern.push(bytes[i]);
            i += 1;
        }
        proof {
            assert(bytes@.take(i as int) =~= bytes@);
        }
        let search = ArtifactSearch {
            query: pattern,
            limit: if limit < ceiling {
                limit
            } else {
                ceiling
            },
            offset,
            cursor: offset,
            carry: Vec::new(),
            offsets: Vec::new(),
            seen: Ghost(Seq::empty()),
        };
        proof {
            assert(search.carry@ =~= search.seen@.skip(0));
        }
        Ok(search)
    }

    /// The first offset that is not searched.
    fn scan_end(&self) -> (r: u64)
        ensures
            r == sum64(self.offset as int, MAX_SEARCH_SCAN_BYTES as int),
    {
        self.offset.saturating_add(MAX_SEARCH_SCAN_BYTES as u64)
    }

    /// The first offset that is not read.
    fn read_end(&self) -> (r: u64)
        requires
            self.query@.len() > 0,
        ensures
            r == sum64(
                sum64(self.offset as int, MAX_SEARCH_SCAN_BYTES as int) as int,
                self.query@.len() - 1,
            ),
    {
        self.scan_end().saturating_add((self.query.len() - 1) as u64)
    }

    /// The next read: where it starts and how many bytes it asks for, at most `max_read`.
    pub fn request(&self, max_read: usize) -> (r: (u64, usize))
        requires
            self.wf(),
        ensures
            ({
                let scan_end = sum64(self.spec_offset() as int, MAX_SEARCH_SCAN_BYTES as int);
                let read_end = sum64(scan_end as int, self.spec_query().len() - 1);
                let cursor = self.spec_offset() + self.spec_seen().len();
                let left = if cursor < read_end {
                    read_end - cursor
                } else {
                    0
                };
                &&& r.0 == cursor
                &&& r.1 == (if left < max_read {
                    left
                } else {
                    max_read as int
                })
            }),
    {
        let left: u64 = self.read_end().saturating_sub(self.cursor);
        let count: usize = if left < max_read as u64 {
            left as usize
        } else {
            max_read
        };
        (self.cursor, count)
    }

    /// The result when nothing is left to read.
    pub fn exhausted(self) -> (r: (Vec<u64>, Option<u64>))
        requires
            self.wf(),
        ensures
            r.0@ == all_matches(
                self.spec_seen(),
                self.spec_query(),
                self.spec_offset() as int,
                sum64(self.spec_offset() as int, MAX_SEARCH_SCAN_BYTES as int) as int,
            ),
            r.1 == Some(sum64(self.spec_offset() as int, MAX_SEARCH_SCAN_BYTES as int)),
    {
        let next: u64 = self.scan_end();
        proof {
            no_late_matches(
                self.seen@,
                self.query@,
                self.offset as int,
                next as int,
                self.seen@.len() - self.carry@.len(),
                self.seen@.len() as int,
            );
        }
        (self.offsets, Some(next))
    }

    /// Whether the query stands at `index` of the bytes at hand.
    fn stands_at(&self, index: usize) -> (r: bool)
        requires
            index + self.query@.len() <= self.carry@.len(),
        ensures
            r == matches_at(self.carry@, self.query@, index as int),
    {
        let ghost here = self.carry@.subrange(index as int, index + self.query@.len());
        let total: usize = self.carry.len();
        let mut i: usize = 0;
        while i < self.query.len()
            invariant
                i <= self.query@.len(),
                total == self.carry@.len(),
                index + self.query@.len() <= total,
                here == self.carry@.subrange(index as int, index + self.query@.len()),
                forall|j: int| 0 <= j < i ==> here[j] == self.query@[j],
            decreases self.query@.len() - i,
        {
            if self.carry[index + i] != self.query[i] {
                proof {
                    assert(here[i as int] != self.query@[i as int]);
                }
                return false;
            }
            i += 1;
        }
        proof {
            assert(here =~= self.query@);
        }
        true
    }

    /// Takes the next read. `more` says whether the artifact goes on behind it.
    pub fn supply(&mut self, bytes: &[u8], more: bool) -> (r: SearchStep)
        requires
            old(self).wf(),
            old(self).spec_offset() + old(self).spec_seen().len() + bytes@.len() <= u64::MAX,
        ensures
            final(self).spec_query() == old(self).spec_query(),
            final(self).spec_limit() == old(self).spec_limit(),
            final(self).spec_offset() == old(self).spec_offset(),
            match search_found(
                old(self).spec_seen() + bytes@,
                old(self).spec_query(),
                old(self).spec_offset(),
                old(self).spec_limit(),
                more,
            ) {
                None => r is More && final(self).wf() && final(self).spec_seen() == old(
                    self,
                ).spec_seen() + bytes@,
                Some((found, next_offset)) => r matches SearchStep::Found { offsets, next }
                    && offsets@ == found && next == next_offset,
            },
    {
        let ghost before = self.seen@;
        let ghost data = self.seen@ + bytes@;
        let ghost offset = self.offset as int;
        let ghost query = self.query@;
        let scan_end: u64 = self.scan_end();
        let read_end: u64 = self.read_end();
        let base: u64 = self.cursor - self.carry.len() as u64;
        let ghost first = before.len() - self.carry@.len();
        proof {
            assert(data.take(before.len() as int) =~= before);
            same_matches(before, data, query, offset, scan_end as int, first);
        }
        let mut i: usize = 0;
        let ghost carry0 = self.carry@;
        while i < bytes.len()
            invariant
                i <= bytes@.len(),
                self.carry@ == carry0 + bytes@.take(i as int),
                self.query == old(self).query,
                self.limit == old(self).limit,
                self.offset == old(self).offset,
                self.cursor == old(self).cursor,
                self.offsets == old(self).offsets,
                self.seen == old(self).seen,
            decreases bytes@.len() - i,
        {
            proof {
                assert(bytes@.take(i + 1) =~= bytes@.take(i as int).push(bytes@[i as int]));
                assert((carry0 + bytes@.take(i as int)).push(bytes@[i as int]) =~= carry0
                    + bytes@.take(i + 1));
            }
            self.carry.push(bytes[i]);
            i += 1;
        }
        proof {
            assert(bytes@.take(i as int) =~= bytes@);
            assert(self.carry@ =~= data.skip(first));
            assert(carry0 + bytes@.take(0) =~= carry0);
        }
        self.seen = Ghost(data);
        self.cursor = self.cursor + bytes.len() as u64;
        let mut index: usize = 0;
        while self.query.len() <= self.carry.len() && index <= self.carry.len() - self.query.len()
            invariant
                self.query@ == query,
                self.query@.len() > 0,
                self.limit == old(self).limit,
                self.limit > 0,
                self.offset == old(self).offset,
                self.offset == offset,
                self.seen@ == data,
                self.carry@ == data.skip(first),
                0 <= first <= data.len(),
                self.carry@.len() == data.len() - first,
                base == offset + first,
                offset + data.len() <= u64::MAX,
                self.cursor == offset + data.len(),
                scan_end == sum64(offset, MAX_SEARCH_SCAN_BYTES as int),
                index <= self.carry@.len() - self.query@.len() + 1 || index == 0,
                self.offsets@ == match_offsets(
                    data,
                    query,
                    offset,
                    scan_end as int,
                    first + index,
                ),
                self.offsets@.len() < self.limit,
                data == old(self).seen@ + bytes@,
                query == old(self).query@,
            decreases self.carry@.len() + 1 - index,
        {
            proof {
                assert(matches_at(self.carry@, query, index as int) == matches_at(
                    data,
                    query,
                    first + index,
                )) by {
                    assert(self.carry@.subrange(index as int, index + query.len())
                        =~= data.subrange(first + index, first + index + query.len()));
                }
            }
            let found: u64 = base + index as u64;
            if self.stands_at(index) && found < scan_end {
                self.offsets.push(found);
                if self.offsets.len() == self.limit {
                    let mut offsets: Vec<u64> = Vec::new();
                    std::mem::swap(&mut offsets, &mut self.offsets);
                    proof {
                        matches_prefix(
                            data,
                            query,
                            offset,
                            scan_end as int,
                            first + index + 1,
                            data.len() as int,
                        );
                        let all = all_matches(data, query, offset, scan_end as int);
                        assert(offsets@ == all.take(offsets@.len() as int));
                        assert(offsets@[offsets@.len() - 1] == found);
                        assert(all[offsets@.len() - 1] == found);
                    }
                    return SearchStep::Found { offsets, next: Some(found.saturating_add(1)) };
                }
            }
            index += 1;
        }
        proof {
            let processed = first + index;
            no_late_matches(
                data,
                query,
                offset,
                scan_end as int,
                processed,
                data.len() as int,
            );
        }
        if !more {
            let mut offsets: Vec<u64> = Vec::new();
            std::mem::swap(&mut offsets, &mut self.offsets);
            return SearchStep::Found { offsets, next: None };
        }
        if self.cursor >= read_end {
            let mut offsets: Vec<u64> = Vec::new();
            std::mem::swap(&mut offsets, &mut self.offsets);
            return SearchStep::Found { offsets, next: Some(scan_end) };
        }
        let keep: usize = if self.query.len() - 1 < self.carry.len() {
            self.query.len() - 1
        } else {
            self.carry.len()
        };
        let drop: usize = self.carry.len() - keep;
        let kept = self.carry.split_off(drop);
        proof {
            assert(kept@ =~= data.skip(data.len() - keep));
            if index == 0 {
                no_late_matches(
                    data,
                    query,
                    offset,
                    scan_end as int,
                    first,
                    data.len() - keep,
                );
            } else {
                no_late_matches(
                    data,
                    query,
                    offset,
                    scan_end as int,
                    first + index,
                    data.len() - keep,
                );
            }
        }
        self.carry = kept;
        SearchStep::More
    }
}

/// Matches that end within the shorter of two prefixes are the same in both.
proof fn same_matches(
    before: Seq<u8>,
    data: Seq<u8>,
    query: Seq<u8>,
    offset: int,
    scan_end: int,
    n: int,
)
    requires
        before.len() <= data.len(),
        data.take(before.len() as int) == before,
        n <= 0 || n - 1 + query.len() <= before.len(),
    ensures
        match_offsets(before, query, offset, scan_end, n) == match_offsets(
            data,
            query,
            offset,
            scan_end,
            n,
        ),
    decreases n,
{
    if n > 0 {
        same_matches(before, data, query, offset, scan_end, n - 1);
        assert(before.subrange(n - 1, n - 1 + query.len()) =~= data.subrange(
            n - 1,
            n - 1 + query.len(),
        ));
    }
}

/// No match starts where too few bytes are left.
proof fn no_late_matches(
    data: Seq<u8>,
    query: Seq<u8>,
    offset: int,
    scan_end: int,
    from: int,
    to: int,
)
    requires
        from <= to,
        from + query.len() > data.len(),
    ensures
        match_offsets(data, query, offset, scan_end, from) == match_offsets(
            data,
            query,
            offset,
            scan_end,
            to,
        ),
    decreases to - from,
{
    if from < to {
        no_late_matches(data, query, offset, scan_end, from, to - 1);
    }
}

/// The matches in fewer positions are the first of those in more.
proof fn matches_prefix(
    data: Seq<u8>,
    query: Seq<u8>,
    offset: int,
    scan_end: int,
    from: int,
    to: int,
)
    requires
        from <= to,
    ensures
        match_offsets(data, query, offset, scan_end, from).len() <= match_offsets(
            data,
            query,
            offset,
            scan_end,
            to,
        ).len(),
        match_offsets(data, query, offset, scan_end, from) == match_offsets(
            data,
            query,
            offset,
            scan_end,
            to,
        ).take(match_offsets(data, query, offset, scan_end, from).len() as int),
    decreases to - from,
{
    let few = match_offsets(data, query, offset, scan_end, from);
    if from < to {
        matches_prefix(data, query, offset, scan_end, from, to - 1);
        let most = match_offsets(data, query, offset, scan_end, to - 1);
        let all = match_offsets(data, query, offset, scan_end, to);
        assert(all.take(few.len() as int) =~= most.take(few.len() as int));
    } else {
        assert(few.take(few.len() as int) =~= few);
    }
}

proof fn matches_exact(data: Seq<u8>, query: Seq<u8>, offset: int, scan_end: int, n: int)
    requires
        0 <= offset,
        offset + data.len() <= u64::MAX,
        0 <= n <= data.len(),
    ensures
        ({
            let all = match_offsets(data, query, offset, scan_end, n);
            &&& forall|k: int|
                0 <= k < all.len() ==> offset <= #[trigger] all[k] < offset + n && all[k] < scan_end
                    && matches_at(data, query, all[k] - offset)
            &&& forall|k: int, m: int|
                0 <= k < m < all.len() ==> #[trigger] all[k] < #[trigger] all[m]
            &&& forall|i: int|
                0 <= i < n && #[trigger] matches_at(data, query, i) && offset + i < scan_end
                    ==> all.contains((offset + i) as u64)
        }),
    decreases n,
{
    if n > 0 {
        matches_exact(data, query, offset, scan_end, n - 1);
        let before = match_offsets(data, query, offset, scan_end, n - 1);
        let all = match_offsets(data, query, offset, scan_end, n);
        assert forall|i: int|
            0 <= i < n && #[trigger] matches_at(data, query, i) && offset + i
                < scan_end implies all.contains((offset + i) as u64) by {
            if i < n - 1 {
                let value = (offset + i) as u64;
                let k = choose|k: int| 0 <= k < before.len() && before[k] == value;
                assert(all[k] == value);
            } else {
                assert(all[all.len() - 1] == (offset + i) as u64);
            }
        }
        assert forall|k: int| 0 <= k < all.len() implies offset <= #[trigger] all[k] < offset + n
            && all[k] < scan_end && matches_at(data, query, all[k] - offset) by {
            if k < before.len() {
                assert(all[k] == before[k]);
            }
        }
        assert forall|k: int, m: int| 0 <= k < m < all.len() implies #[trigger] all[k]
            < #[trigger] all[m] by {
            assert(all[k] == before[k]);
            if m < before.len() {
                assert(all[m] == before[m]);
            }
        }
    }
}

/// A search reports matches only, each once and in order, and none below the offset at which it
/// says to search on is missing; without such an offset none is missing at all.
pub proof fn search_is_complete(
    data: Seq<u8>,
    query: Seq<u8>,
    offset: u64,
    limit: usize,
    more: bool,
)
    requires
        0 < query.len() <= MAX_QUERY_BYTES,
        limit > 0,
        offset + data.len() <= u64::MAX,
        search_found(data, query, offset, limit, more) is Some,
    ensures
        ({
            let scan_end = sum64(offset as int, MAX_SEARCH_SCAN_BYTES as int);
            let (found, next) = search_found(data, query, offset, limit, more)->0;
            &&& found.len() <= limit
            &&& forall|k: int|
                0 <= k < found.len() ==> offset <= #[trigger] found[k] < scan_end && matches_at(
                    data,
                    query,
                    found[k] - offset,
                )
            &&& forall|k: int, m: int|
                0 <= k < m < found.len() ==> #[trigger] found[k] < #[trigger] found[m]
            &&& forall|i: int| #[trigger]
                matches_at(data, query, i) && offset + i < scan_end && (next matches Some(n)
                    ==> offset + i < n) ==> found.contains((offset + i) as u64)
        }),
{
    let scan_end = sum64(offset as int, MAX_SEARCH_SCAN_BYTES as int);
    let all = all_matches(data, query, offset as int, scan_end as int);
    let (found, next) = search_found(data, query, offset, limit, more)->0;
    matches_exact(data, query, offset as int, scan_end as int, data.len() as int);
    assert forall|i: int| #[trigger]
        matches_at(data, query, i) && offset + i < scan_end && (next matches Some(n) ==> offset + i
            < n) implies found.contains((offset + i) as u64) by {
        let value = (offset + i) as u64;
        assert(all.contains(value));
        let k = choose|k: int| 0 <= k < all.len() && all[k] == value;
        if all.len() >= limit {
            if k >= limit {
                assert(all[limit - 1] < all[k]);
            }
            assert(found[k] == value);
        } else {
            assert(found[k] == value);
        }
    }
}

/// Whether a search of a stored output from `offset` on can end with `page`: it has read some
/// bytes from there, not beyond those that its scan needs, and knows whether more follow.
pub open spec fn is_page(
    stored: Seq<u8>,
    query: Seq<u8>,
    offset: u64,
    limit: usize,
    page: SearchFound,
) -> bool {
    exists|end: int| #[trigger] ends_page(stored, query, offset, limit, page, end)
}

/// Whether a search that has read up to `end` ends with `page`.
pub open spec fn ends_page(
    stored: Seq<u8>,
    query: Seq<u8>,
    offset: u64,
    limit: usize,
    page: SearchFound,
    end: int,
) -> bool {
    let scan_end = sum64(offset as int, MAX_SEARCH_SCAN_BYTES as int);
    &&& offset <= end <= stored.len()
    &&& end <= sum64(scan_end as int, query.len() - 1)
    &&& search_found(
        stored.subrange(offset as int, end),
        query,
        offset,
        limit,
        end < stored.len(),
    ) == Some(page)
}

/// One page of a search: the matches that it reports, in order, are those from its offset up to
/// the offset at which it says to search on, or up to the end; that offset lies behind its own.
pub proof fn page_is_complete(
    stored: Seq<u8>,
    query: Seq<u8>,
    offset: u64,
    limit: usize,
    page: SearchFound,
)
    requires
        0 < query.len() <= MAX_QUERY_BYTES,
        limit > 0,
        stored.len() < u64::MAX,
        is_page(stored, query, offset, limit, page),
    ensures
        page.0.len() <= limit,
        forall|k: int|
            0 <= k < page.0.len() ==> offset <= #[trigger] page.0[k] && matches_at(
                stored,
                query,
                page.0[k] as int,
            ) && (page.1 matches Some(next) ==> page.0[k] < next),
        forall|k: int, m: int|
            0 <= k < m < page.0.len() ==> #[trigger] page.0[k] < #[trigger] page.0[m],
        forall|i: int|
            offset <= i && #[trigger] matches_at(stored, query, i) && (page.1 matches Some(next)
                ==> i < next) ==> page.0.contains(i as u64),
        page.1 matches Some(next) ==> offset < next <= stored.len(),
{
    let end = choose|end: int| #[trigger] ends_page(stored, query, offset, limit, page, end);
    let data = stored.subrange(offset as int, end);
    let scan_end = sum64(offset as int, MAX_SEARCH_SCAN_BYTES as int);
    let more = end < stored.len();
    let all = all_matches(data, query, offset as int, scan_end as int);
    matches_exact(data, query, offset as int, scan_end as int, data.len() as int);
    search_is_complete(data, query, offset, limit, more);
    assert forall|i: int| offset <= i && i + query.len() <= end implies matches_at(
        stored,
        query,
        i,
    ) == #[trigger] matches_at(data, query, i - offset) by {
        assert(data.subrange(i - offset, i - offset + query.len()) =~= stored.subrange(
            i,
            i + query.len(),
        ));
    }
    assert forall|k: int| 0 <= k < page.0.len() implies offset <= #[trigger] page.0[k]
        && matches_at(stored, query, page.0[k] as int) && (page.1 matches Some(next) ==> page.0[k]
        < next) by {
        assert(matches_at(data, query, page.0[k] - offset));
        assert(page.0[k] == all[k]);
        if all.len() >= limit && k < limit - 1 {
            assert(all[k] < all[limit - 1]);
        }
    }
    if all.len() >= limit {
        assert(matches_at(data, query, all[limit - 1] - offset));
    }
    assert forall|i: int|
        offset <= i && #[trigger] matches_at(stored, query, i) && (page.1 matches Some(next) ==> i
            < next) implies page.0.contains(i as u64) by {
        assert(i + query.len() <= end);
        assert(matches_at(data, query, i - offset));
        assert(offset + (i - offset) < scan_end);
    }
}

/// The matches of all pages.
pub open spec fn joined_pages(pages: Seq<SearchFound>) -> Seq<u64>
    decreases pages.len(),
{
    if pages.len() == 0 {
        seq![]
    } else {
        pages[0].0 + joined_pages(pages.drop_first())
    }
}

/// Whether these are the pages of a search from `offset` on, each searched from where the one
/// before said, up to the first that says that nothing is left.
pub open spec fn are_pages(
    stored: Seq<u8>,
    query: Seq<u8>,
    offset: u64,
    limit: usize,
    pages: Seq<SearchFound>,
) -> bool
    decreases pages.len(),
{
    pages.len() > 0 && is_page(stored, query, offset, limit, pages[0]) && match pages[0].1 {
        None => pages.len() == 1,
        Some(next) => are_pages(stored, query, next, limit, pages.drop_first()),
    }
}

/// The pages of a search, each searched from where the one before said, together report every
/// match from the first offset on, overlapping ones and those across the end of a scan too, each
/// once and in order, and nothing else.
pub proof fn search_pages_are_complete(
    stored: Seq<u8>,
    query: Seq<u8>,
    offset: u64,
    limit: usize,
    pages: Seq<SearchFound>,
)
    requires
        0 < query.len() <= MAX_QUERY_BYTES,
        limit > 0,
        stored.len() < u64::MAX,
        are_pages(stored, query, offset, limit, pages),
    ensures
        forall|k: int|
            0 <= k < joined_pages(pages).len() ==> offset <= #[trigger] joined_pages(pages)[k]
                && matches_at(stored, query, joined_pages(pages)[k] as int),
        forall|k: int, m: int|
            0 <= k < m < joined_pages(pages).len() ==> #[trigger] joined_pages(pages)[k]
                < #[trigger] joined_pages(pages)[m],
        forall|i: int|
            offset <= i && #[trigger] matches_at(stored, query, i) ==> joined_pages(
                pages,
            ).contains(i as u64),
        forall|p: int| 0 <= p < pages.len() ==> (#[trigger] pages[p]).0.len() <= limit,
    decreases pages.len(),
{
    let first = pages[0].0;
    let rest = pages.drop_first();
    let later = joined_pages(rest);
    let all = joined_pages(pages);
    page_is_complete(stored, query, offset, limit, pages[0]);
    match pages[0].1 {
        None => {
            assert(rest =~= Seq::<SearchFound>::empty());
            assert(all =~= first);
        },
        Some(next) => {
            search_pages_are_complete(stored, query, next, limit, rest);
            assert forall|k: int| 0 <= k < all.len() implies offset <= #[trigger] all[k]
                && matches_at(stored, query, all[k] as int) by {
                if k >= first.len() {
                    assert(all[k] == later[k - first.len()]);
                } else {
                    assert(all[k] == first[k]);
                }
            }
            assert forall|k: int, m: int| 0 <= k < m < all.len() implies #[trigger] all[k]
                < #[trigger] all[m] by {
                if k >= first.len() {
                    assert(all[k] == later[k - first.len()]);
                } else {
                    assert(all[k] == first[k]);
                }
                if m >= first.len() {
                    assert(all[m] == later[m - first.len()]);
                } else {
                    assert(all[m] == first[m]);
                }
            }
            assert forall|i: int| offset <= i && #[trigger] matches_at(
                stored,
                query,
                i,
            ) implies all.contains(i as u64) by {
                let value = i as u64;
                if i < next {
                    let k = choose|k: int| 0 <= k < first.len() && first[k] == value;
                    assert(all[k] == value);
                } else {
                    assert(later.contains(value));
                    let k = choose|k: int| 0 <= k < later.len() && later[k] == value;
                    assert(all[first.len() + k] == value);
                }
            }
            assert forall|p: int| 0 <= p < pages.len() implies (#[trigger] pages[p]).0.len()
                <= limit by {
                if p > 0 {
                    assert(pages[p] == rest[p - 1]);
                }
            }
        },
    }
}

} // verus!
