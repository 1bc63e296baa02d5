//! An append-only, mergeable journal of entries addressed by sequence number.
//!
//! A journal covers the half-open range `[start, end)` of sequence numbers.
//! The entry at sequence number `lsn` is stored at position `lsn - start`.
//! Entries are appended at the tail, merged from batches that overlap or abut
//! the tail, and reclaimed from the front by a rollup.

use std::ops::Range;
use std::slice::Iter;
use vstd::prelude::*;
use vstd::std_specs::iter::IteratorSpec;
use vstd::std_specs::slice::into_iter_elts;

pub mod durable;

verus! {

/// A log sequence number: one position in a journal.
pub type LSN = u64;

/// A pointer to a position in a journal. Constructing one checks nothing; the
/// operation that consumes it decides whether the position is valid.
pub struct Cursor {
    lsn: LSN,
}

impl View for Cursor {
    type V = LSN;

    closed spec fn view(&self) -> LSN {
        self.lsn
    }
}

impl Cursor {
    /// A cursor that points at `lsn`.
    pub fn new(lsn: LSN) -> (cursor: Self)
        ensures
            cursor@ == lsn,
    {
        Self { lsn }
    }

    /// The sequence number this cursor points at.
    pub fn lsn(&self) -> (lsn: LSN)
        ensures
            lsn == self@,
    {
        self.lsn
    }
}

/// The error of asking an empty journal for its last position.
#[derive(Debug)]
pub struct EmptyJournal;

/// What a batch stands for: the entries `data` at sequence numbers
/// `start, start + 1, ..`.
pub struct BatchView<T> {
    pub start: nat,
    pub data: Seq<T>,
}

impl<T> BatchView<T> {
    /// The sequence number just past the last entry of the batch.
    pub open spec fn end(self) -> nat {
        self.start + self.data.len()
    }
}

/// A contiguous run of entries occupying `[start, start + data.len())`.
pub struct Batch<'a, T> {
    start: LSN,
    data: &'a [T],
}

impl<'a, T> View for Batch<'a, T> {
    type V = BatchView<T>;

    closed spec fn view(&self) -> BatchView<T> {
        BatchView { start: self.start as nat, data: self.data@ }
    }
}

impl<'a, T> Batch<'a, T> {
    /// The batch of the entries `data` at the positions from `start` on.
    pub fn new(start: LSN, data: &'a [T]) -> (batch: Self)
        ensures
            batch@ == (BatchView { start: start as nat, data: data@ }),
    {
        Self { start, data }
    }

    /// The sequence number of the first entry.
    pub fn start(&self) -> (start: LSN)
        ensures
            start == self@.start,
    {
        self.start
    }

    /// The entries, in sequence order.
    pub fn data(&self) -> (data: &'a [T])
        ensures
            data@ == self@.data,
    {
        self.data
    }
}

/// The state of a journal: its range and the entries it retains.
pub struct JournalView<T> {
    pub start: nat,
    pub end: nat,
    pub entries: Seq<T>,
}

impl<T> JournalView<T> {
    /// The journal that covers `[0, 0)` and retains nothing.
    pub open spec fn empty() -> Self {
        JournalView { start: 0, end: 0, entries: Seq::empty() }
    }

    /// Every position of the range has its entry, and the range fits the
    /// machine's sequence numbers.
    pub open spec fn wf(self) -> bool {
        &&& self.start <= self.end <= u64::MAX
        &&& self.end - self.start <= self.entries.len()
    }

    /// The range holds exactly the retained entries.
    pub open spec fn dense(self) -> bool {
        self.end - self.start == self.entries.len()
    }

    /// `lsn` names a retained position.
    pub open spec fn covers(self, lsn: nat) -> bool {
        self.start <= lsn < self.end
    }

    /// `lsn` is a position the journal can be rolled up to: a retained
    /// position or the tail.
    pub open spec fn reaches(self, lsn: nat) -> bool {
        self.start <= lsn <= self.end
    }

    /// The batch starts inside the journal or at its tail, and ends at or
    /// after the tail.
    pub open spec fn accepts(self, batch: BatchView<T>) -> bool {
        &&& self.start <= batch.start <= self.end
        &&& self.end <= batch.end() <= u64::MAX
    }

    /// The entry at position `lsn`.
    pub open spec fn entry(self, lsn: nat) -> T {
        self.entries[lsn - self.start]
    }

    /// The last position of the range, if the journal retains an entry.
    pub open spec fn last(self) -> Option<nat> {
        if self.entries.len() > 0 {
            Some((self.end - 1) as nat)
        } else {
            None
        }
    }

    /// The journal after one entry was appended at the tail.
    pub open spec fn append(self, entry: T) -> Self {
        JournalView { start: self.start, end: self.end + 1, entries: self.entries.push(entry) }
    }

    /// The journal after an accepted batch was merged, each entry of the
    /// batch at or after the tail copied as it is.
    pub open spec fn merge(self, batch: BatchView<T>) -> Self {
        JournalView {
            start: self.start,
            end: batch.end(),
            entries: self.entries + batch.data.skip(self.end - batch.start),
        }
    }

    /// The entries at `[lsn, min(lsn + max_len, end))`.
    pub open spec fn read(self, lsn: nat, max_len: nat) -> Seq<T> {
        let stop = if lsn + max_len < self.end {
            lsn + max_len
        } else {
            self.end
        };
        self.entries.subrange(lsn - self.start, stop - self.start)
    }

    /// The entries stored from the position of `lsn` on.
    pub open spec fn suffix(self, lsn: nat) -> Seq<T> {
        self.entries.skip(lsn - self.start)
    }

    /// The journal after everything before `lsn` was dropped.
    pub open spec fn rollup(self, lsn: nat) -> Self {
        JournalView { start: lsn, end: self.end, entries: self.suffix(lsn) }
    }

    /// The journal after a rollup to `lsn` that put `summary` in front of the
    /// entries stored from `lsn` on.
    pub open spec fn compact(self, lsn: nat, summary: T) -> Self {
        JournalView { start: lsn, end: self.end, entries: seq![summary] + self.suffix(lsn) }
    }
}

impl<T: Clone> JournalView<T> {
    /// `post` is a journal that merging an accepted batch into `self` may
    /// leave: the retained entries are untouched, and a clone of each entry
    /// of the batch at or after the tail follows them.
    pub open spec fn merged(self, batch: BatchView<T>, post: Self) -> bool {
        let kept = self.entries.len() as int;
        let overlap = self.end - batch.start;
        &&& post.start == self.start
        &&& post.end == batch.end()
        &&& post.entries.len() == kept + batch.data.len() - overlap
        &&& forall|i: int| 0 <= i < kept ==> #[trigger] post.entries[i] == self.entries[i]
        &&& forall|i: int|
            kept <= i < post.entries.len() ==> cloned::<T>(
                batch.data[i - kept + overlap],
                #[trigger] post.entries[i],
            )
    }
}

/// `it` walks exactly the entries `entries`, front to back.
pub open spec fn walks<'a, T>(it: Iter<'a, T>, entries: Seq<T>) -> bool {
    into_iter_elts(it) == entries
}

/// An append-only sequence of entries over the range `[start, end)` of
/// sequence numbers. It grows at the tail and loses a prefix only by
/// [`Journal::rollup`].
///
/// A new journal is well formed (`JournalView::wf`), and every operation
/// keeps it so. Its range holds exactly its entries (`JournalView::dense`)
/// until a rollup with a compactor adds the compactor's entry to them.
pub struct Journal<T> where T: Clone {
    /// The range of sequence numbers covered by this journal.
    range: Range<LSN>,
    data: Vec<T>,
}

impl<T> View for Journal<T> where T: Clone {
    type V = JournalView<T>;

    closed spec fn view(&self) -> JournalView<T> {
        JournalView {
            start: self.range.start as nat,
            end: self.range.end as nat,
            entries: self.data@,
        }
    }
}

impl<T> Journal<T> where T: Clone {
    /// An empty journal that covers `[0, 0)`.
    pub fn new() -> (journal: Self)
        ensures
            journal@ == JournalView::<T>::empty(),
            journal@.wf(),
            journal@.dense(),
    {
        Self { range: 0..0, data: Vec::new() }
    }

    /// The range `[start, end)` of sequence numbers the journal covers.
    pub fn range(&self) -> (range: Range<LSN>)
        ensures
            range.start == self@.start,
            range.end == self@.end,
    {
        self.range.start..self.range.end
    }

    /// The number of entries the journal retains.
    pub fn len(&self) -> (len: usize)
        ensures
            len == self@.entries.len(),
    {
        self.data.len()
    }

    /// Return a cursor pointing at the last position of the journal, or
    /// `EmptyJournal` if it retains no entry. A journal that retains an entry
    /// must have a position before its tail.
    pub fn end(&self) -> (result: Result<Cursor, EmptyJournal>)
        requires
            self@.wf(),
            self@.entries.len() > 0 ==> self@.end > 0,
        ensures
            match result {
                Ok(cursor) => self@.last() == Some(cursor@ as nat),
                Err(_) => self@.last() is None,
            },
    {
        if self.data.is_empty() {
            Err(EmptyJournal)
        } else {
            Ok(Cursor::new(self.range.end - 1))
        }
    }

    /// Append a single entry to the journal. The tail must not be the last
    /// sequence number there is.
    pub fn append(&mut self, entry: T)
        requires
            old(self)@.wf(),
            old(self)@.end < u64::MAX,
        ensures
            final(self)@ == old(self)@.append(entry),
            final(self)@.wf(),
            old(self)@.dense() ==> final(self)@.dense(),
    {
        self.data.push(entry);
        self.range.end += 1;
    }

    /// Merge a batch into the journal. The batch must start inside the
    /// journal or at its tail, and reach the tail. Entries the journal already
    /// retains are not replaced; only the part of the batch at or after the
    /// tail is appended, and the tail moves to the end of the batch.
    pub fn write(&mut self, batch: Batch<T>)
        requires
            old(self)@.wf(),
            old(self)@.accepts(batch@),
        ensures
            old(self)@.merged(batch@, final(self)@),
            final(self)@.wf(),
            old(self)@.dense() ==> final(self)@.dense(),
    {
        let offset: u64 = self.range.end - batch.start;
        let fresh = &batch.data[offset as usize..batch.data.len()];
        self.data.extend_from_slice(fresh);
        self.range.end = batch.start + batch.data.len() as u64;
    }

    /// Read a batch of at most `max_len` entries starting at `cursor`, which
    /// must point at a retained position.
    pub fn read<'a>(&'a self, cursor: Cursor, max_len: usize) -> (batch: Batch<'a, T>)
        requires
            self@.wf(),
            self@.covers(cursor@ as nat),
        ensures
            batch@.start == cursor@,
            batch@.data == self@.read(cursor@ as nat, max_len as nat),
    {
        let lsn = cursor.lsn;
        assert(self.data@.len() == self.data.len());
        let offset: u64 = lsn - self.range.start;
        let left: u64 = self.range.end - lsn;
        let count: u64 = if (max_len as u64) < left {
            max_len as u64
        } else {
            left
        };
        let stop: u64 = offset + count;
        Batch { start: lsn, data: &self.data[offset as usize..stop as usize] }
    }

    /// Roll the journal up to `cursor`: drop the entries before it and make
    /// its position the new start. A compactor, if given, is handed the
    /// entries stored from that position on and returns one entry, which is
    /// put in front of them.
    pub fn rollup<F>(&mut self, cursor: Cursor, cb: Option<F>) where F: FnOnce(Iter<T>) -> T
        requires
            old(self)@.wf(),
            old(self)@.reaches(cursor@ as nat),
            cb matches Some(f) ==> forall|it: Iter<T>|
                walks(it, old(self)@.suffix(cursor@ as nat)) && IteratorSpec::decrease(&it) is Some
                    && IteratorSpec::initial_value_relation(&it, &it) ==> call_requires(f, (it,)),
        ensures
            cb is None ==> final(self)@ == old(self)@.rollup(cursor@ as nat),
            cb matches Some(f) ==> {
                &&& final(self)@.entries.len() > 0
                &&& final(self)@ == old(self)@.compact(cursor@ as nat, final(self)@.entries[0])
                &&& exists|it: Iter<T>|
                    walks(it, old(self)@.suffix(cursor@ as nat)) && call_ensures(
                        f,
                        (it,),
                        final(self)@.entries[0],
                    )
            },
            final(self)@.wf(),
            cb is None && old(self)@.dense() ==> final(self)@.dense(),
    {
        let lsn = cursor.lsn;
        let retained = self.data.len();
        let offset = (lsn - self.range.start) as usize;
        if let Some(compactor) = cb {
            let tail = &self.data[offset..retained];
            let it = tail.iter();
            proof {
                assert(into_iter_elts(it) =~= tail@);
                assert(tail@ =~= self@.suffix(lsn as nat));
                assert(walks(it, old(self)@.suffix(cursor@ as nat)));
            }
            let summary = compactor(it);
            let mut kept = self.data.split_off(offset);
            kept.insert(0, summary);
            self.data = kept;
            proof {
                assert(self.data@ =~= seq![summary] + old(self)@.suffix(lsn as nat));
            }
        } else {
            let kept = self.data.split_off(offset);
            self.data = kept;
        }
        self.range.start = lsn;
    }

    /// The retained entries, in storage order.
    pub fn iter(&self) -> (it: Iter<'_, T>)
        ensures
            walks(it, self@.entries),
            IteratorSpec::decrease(&it) is Some,
            IteratorSpec::initial_value_relation(&it, &it),
    {
        let it = self.data.iter();
        proof {
            assert(into_iter_elts(it) =~= self.data@);
        }
        it
    }
}

/// The range of a new journal holds exactly its entries, and appending,
/// merging and rolling up without a compactor keep it so.
pub proof fn lemma_range_counts_entries<T>(
    journal: JournalView<T>,
    entry: T,
    batch: BatchView<T>,
    lsn: nat,
)
    requires
        journal.wf(),
        journal.dense(),
    ensures
        JournalView::<T>::empty().wf() && JournalView::<T>::empty().dense(),
        journal.append(entry).dense(),
        journal.accepts(batch) ==> journal.merge(batch).dense(),
        journal.reaches(lsn) ==> journal.rollup(lsn).dense(),
{
}

/// A rollup with a compactor retains one entry more than its range counts.
pub proof fn lemma_compact_retains_summary<T>(journal: JournalView<T>, lsn: nat, summary: T)
    requires
        journal.wf(),
        journal.reaches(lsn),
    ensures
        journal.compact(lsn, summary).wf(),
        journal.compact(lsn, summary).entries.len() == journal.entries.len() - (lsn
            - journal.start) + 1,
        journal.dense() ==> !journal.compact(lsn, summary).dense(),
{
}

/// After an entry is appended to a journal whose range holds exactly its
/// entries, as that of an empty journal does, the last position is the former
/// tail, and a read of one entry from there returns the entry.
pub proof fn lemma_append_read_back<T>(journal: JournalView<T>, entry: T)
    requires
        journal.wf(),
        journal.dense(),
    ensures
        journal.append(entry).last() == Some(journal.end),
        journal.append(entry).covers(journal.end),
        journal.append(entry).read(journal.end, 1) == seq![entry],
{
    assert(journal.append(entry).read(journal.end, 1) =~= seq![entry]);
}

/// Merging a batch leaves every retained entry as it was and appends the
/// part of the batch from the tail on, whatever the overlap holds.
pub proof fn lemma_merge_appends_suffix<T>(journal: JournalView<T>, batch: BatchView<T>)
    requires
        journal.wf(),
        journal.accepts(batch),
    ensures
        journal.merge(batch).wf(),
        journal.merge(batch).start == journal.start,
        journal.merge(batch).end == batch.end(),
        journal.merge(batch).entries.take(journal.entries.len() as int) == journal.entries,
        journal.merge(batch).entries.skip(journal.entries.len() as int) == batch.data.skip(
            journal.end - batch.start,
        ),
{
    let merged = journal.merge(batch);
    assert(merged.entries.take(journal.entries.len() as int) =~= journal.entries);
    assert(merged.entries.skip(journal.entries.len() as int) =~= batch.data.skip(
        journal.end - batch.start,
    ));
}

/// Where the overlap of a batch matches what the journal retains, the
/// journal after the merge holds the whole batch at its positions.
pub proof fn lemma_merge_holds_batch<T>(journal: JournalView<T>, batch: BatchView<T>)
    requires
        journal.wf(),
        journal.dense(),
        journal.accepts(batch),
        forall|lsn: nat|
            batch.start <= lsn < journal.end ==> journal.entry(lsn) == batch.data[lsn
                - batch.start],
    ensures
        journal.merge(batch).suffix(batch.start) == batch.data,
{
    let merged = journal.merge(batch);
    assert forall|i: int| 0 <= i < batch.data.len() implies merged.suffix(batch.start)[i]
        == batch.data[i] by {
        let lsn = (batch.start + i) as nat;
        if lsn < journal.end {
            assert(journal.entry(lsn) == batch.data[lsn - batch.start]);
        }
    }
    assert(merged.suffix(batch.start) =~= batch.data);
}

/// Merging is idempotent: a batch that was merged is accepted again, and
/// merging it again changes nothing.
pub proof fn lemma_merge_idempotent<T: Clone>(
    journal: JournalView<T>,
    batch: BatchView<T>,
    once: JournalView<T>,
    twice: JournalView<T>,
)
    requires
        journal.wf(),
        journal.accepts(batch),
        journal.merged(batch, once),
        once.merged(batch, twice),
    ensures
        once.accepts(batch),
        twice == once,
        journal.merge(batch).merge(batch) == journal.merge(batch),
{
    assert(twice.entries =~= once.entries);
    let exact = journal.merge(batch);
    assert(exact.merge(batch).entries =~= exact.entries);
}

/// Where every clone equals what it was cloned from, a merge leaves exactly
/// the journal with the part of the batch from the tail on appended.
pub proof fn lemma_merged_exact<T: Clone>(
    journal: JournalView<T>,
    batch: BatchView<T>,
    post: JournalView<T>,
)
    requires
        journal.wf(),
        journal.accepts(batch),
        journal.merged(batch, post),
        forall|a: T, b: T| cloned::<T>(a, b) ==> a == b,
    ensures
        post == journal.merge(batch),
{
    assert(post.entries =~= journal.merge(batch).entries);
}

/// A rollup without a compactor starts the journal at `lsn` and retains
/// exactly the entries at `lsn` and after, each at its position.
pub proof fn lemma_rollup_keeps_later<T>(journal: JournalView<T>, lsn: nat)
    requires
        journal.wf(),
        journal.dense(),
        journal.reaches(lsn),
    ensures
        journal.rollup(lsn).wf(),
        journal.rollup(lsn).start == lsn,
        journal.rollup(lsn).end == journal.end,
        journal.rollup(lsn).entries.len() == journal.end - lsn,
        forall|at: nat|
            lsn <= at < journal.end ==> #[trigger] journal.rollup(lsn).entry(at) == journal.entry(
                at,
            ),
{
}

} // verus!
