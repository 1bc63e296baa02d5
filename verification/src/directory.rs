//! The serialized page directory: a header that carries the greatest page
//! index, then one record per page, sorted ascending by page index. All
//! numbers are big-endian.
//!
//! ```text
//! offset 0        : greatest page index   (8 bytes)
//! offset 8 + k*S  : page index            (8 bytes)      record k,
//! offset 16 + k*S : page content          (4096 bytes)   S = 8 + 4096
//! ```

use crate::endian::{
    be_bytes, be_value, decode_u64, encode_u64, lemma_be_round_trip, lemma_be_unique,
    lemma_be_value_fits,
};
use crate::page::{
    is_max_idx, page_at, read_outcome, Page, PageIdx, SparsePages, PAGESIZE, PAGE_IDX_SIZE,
};
use crate::positioned_io::PositionedReader;
use crate::Serializable;
use vstd::prelude::*;
use vstd::std_specs::btree::increasing_seq;
use vstd::std_specs::cmp::OrdSpec;
use vstd::std_specs::iter::IteratorSpec;

verus! {

/// The size of one record: a page index and the content of the page.
pub const RECORD_SIZE: usize = PAGE_IDX_SIZE + PAGESIZE;

/// The number of whole records in a directory of `size` bytes. A directory
/// too short for its header holds none.
pub open spec fn record_count(size: nat) -> nat {
    if size >= PAGE_IDX_SIZE {
        ((size - PAGE_IDX_SIZE) / (RECORD_SIZE as int)) as nat
    } else {
        0
    }
}

/// The offset of record `k`.
pub open spec fn record_offset(k: nat) -> nat {
    (PAGE_IDX_SIZE + k * RECORD_SIZE) as nat
}

/// The page index in the header.
pub open spec fn header_idx(dir: Seq<u8>) -> PageIdx {
    be_value(dir.subrange(0, PAGE_IDX_SIZE as int)) as PageIdx
}

/// The page index of record `k`.
pub open spec fn record_idx(dir: Seq<u8>, k: nat) -> PageIdx {
    be_value(
        dir.subrange(record_offset(k) as int, record_offset(k) + PAGE_IDX_SIZE),
    ) as PageIdx
}

/// The page content of record `k`.
pub open spec fn record_page(dir: Seq<u8>, k: nat) -> Seq<u8> {
    dir.subrange(record_offset(k) + PAGE_IDX_SIZE, record_offset(k + 1) as int)
}

/// The page indices of the records grow strictly from each record to the next.
pub open spec fn ascending(dir: Seq<u8>) -> bool {
    forall|i: nat, j: nat|
        i < j < record_count(dir.len()) ==> record_idx(dir, i) < record_idx(dir, j)
}

/// Record `k` of the directory is the record of page `idx`.
pub open spec fn holds_at(dir: Seq<u8>, idx: PageIdx, k: nat) -> bool {
    k < record_count(dir.len()) && record_idx(dir, k) == idx
}

/// The content that the directory records for page `idx`, if it has a record
/// of that page.
pub open spec fn lookup(dir: Seq<u8>, idx: PageIdx) -> Option<Seq<u8>> {
    if exists|k: nat| holds_at(dir, idx, k) {
        Some(record_page(dir, choose|k: nat| holds_at(dir, idx, k)))
    } else {
        None
    }
}

/// `dir` is the directory of `pages`: the header carries the greatest index,
/// the records are sorted ascending, every record is a page of the store,
/// and every page of the store has its record.
pub open spec fn encodes(dir: Seq<u8>, pages: Map<PageIdx, Page>) -> bool {
    &&& pages.dom().finite()
    &&& pages.len() > 0
    &&& dir.len() == record_offset(pages.len())
    &&& is_max_idx(pages, header_idx(dir))
    &&& ascending(dir)
    &&& forall|k: nat|
        k < pages.len() ==> page_at(pages, #[trigger] record_idx(dir, k)) == Some(
            record_page(dir, k),
        )
    &&& forall|idx: PageIdx|
        pages.contains_key(idx) ==> exists|k: nat| k < pages.len() && record_idx(dir, k) == idx
}

/// A directory of `n` records has `n` records.
pub proof fn lemma_record_count(n: nat)
    ensures
        record_count(record_offset(n)) == n,
{
    assert((n * RECORD_SIZE) / (RECORD_SIZE as int) == n) by (nonlinear_arith);
}

/// Each of the records that a directory counts lies inside it.
pub proof fn lemma_record_inside(size: nat, k: nat)
    requires
        k < record_count(size),
    ensures
        record_offset(k + 1) <= size,
{
    let n = record_count(size);
    assert(n * RECORD_SIZE <= size - PAGE_IDX_SIZE) by (nonlinear_arith)
        requires
            n == (size - PAGE_IDX_SIZE) / (RECORD_SIZE as int),
            RECORD_SIZE > 0,
    ;
    assert((k + 1) * RECORD_SIZE <= n * RECORD_SIZE) by (nonlinear_arith)
        requires
            k + 1 <= n,
    ;
}

/// In a directory sorted ascending, a page has at most one record: looking
/// a page up finds the record that holds it.
pub proof fn lemma_lookup_ascending(dir: Seq<u8>, idx: PageIdx, k: nat)
    requires
        ascending(dir),
        holds_at(dir, idx, k),
    ensures
        lookup(dir, idx) == Some(record_page(dir, k)),
{
    let found = choose|k: nat| holds_at(dir, idx, k);
    assert(holds_at(dir, idx, found));
    if found < k {
        assert(record_idx(dir, found) < record_idx(dir, k));
    } else if k < found {
        assert(record_idx(dir, k) < record_idx(dir, found));
    }
}

/// Looking a page up in the directory of a store finds what the store holds:
/// the content of the page where the store has it, and nothing where it has
/// not. The header carries the greatest index of the store.
pub proof fn lemma_directory_round_trip(dir: Seq<u8>, pages: Map<PageIdx, Page>, idx: PageIdx)
    requires
        encodes(dir, pages),
    ensures
        lookup(dir, idx) == page_at(pages, idx),
        is_max_idx(pages, header_idx(dir)),
        record_count(dir.len()) == pages.len(),
{
    lemma_record_count(pages.len());
    if pages.contains_key(idx) {
        let k = choose|k: nat| k < pages.len() && record_idx(dir, k) == idx;
        lemma_lookup_ascending(dir, idx, k);
    } else {
        if exists|k: nat| holds_at(dir, idx, k) {
            let k = choose|k: nat| holds_at(dir, idx, k);
            assert(page_at(pages, record_idx(dir, k)) is Some);
        }
    }
}

/// Two directories of one store list its pages in one order.
proof fn lemma_same_order(a: Seq<u8>, b: Seq<u8>, pages: Map<PageIdx, Page>, k: nat)
    requires
        encodes(a, pages),
        encodes(b, pages),
        k < pages.len(),
    ensures
        record_idx(a, k) == record_idx(b, k),
    decreases k,
{
    lemma_record_count(pages.len());
    assert forall|j: nat| j < k implies record_idx(a, j) == record_idx(b, j) by {
        lemma_same_order(a, b, pages, j);
    }
    let in_a = record_idx(a, k);
    let in_b = record_idx(b, k);
    if in_a < in_b {
        assert(page_at(pages, in_a) is Some);
        let j = choose|j: nat| j < pages.len() && record_idx(b, j) == in_a;
        if j < k {
            assert(record_idx(a, j) < record_idx(a, k));
        } else if j > k {
            assert(record_idx(b, k) < record_idx(b, j));
        }
    } else if in_b < in_a {
        assert(page_at(pages, in_b) is Some);
        let j = choose|j: nat| j < pages.len() && record_idx(a, j) == in_b;
        if j < k {
            assert(record_idx(b, j) < record_idx(b, k));
        } else if j > k {
            assert(record_idx(a, k) < record_idx(a, j));
        }
    }
}

/// Two directories of one store carry the same header.
proof fn lemma_same_header(a: Seq<u8>, b: Seq<u8>, pages: Map<PageIdx, Page>)
    requires
        encodes(a, pages),
        encodes(b, pages),
    ensures
        a.subrange(0, PAGE_IDX_SIZE as int) == b.subrange(0, PAGE_IDX_SIZE as int),
{
    let header_a = a.subrange(0, PAGE_IDX_SIZE as int);
    let header_b = b.subrange(0, PAGE_IDX_SIZE as int);
    lemma_be_unique(header_a);
    lemma_be_unique(header_b);
    lemma_be_value_fits(header_a);
    lemma_be_value_fits(header_b);
    assert(header_idx(a) <= header_idx(b) && header_idx(b) <= header_idx(a));
}

/// Two directories of one store carry the same record at each place.
proof fn lemma_same_record(a: Seq<u8>, b: Seq<u8>, pages: Map<PageIdx, Page>, k: nat)
    requires
        encodes(a, pages),
        encodes(b, pages),
        k < pages.len(),
    ensures
        a.subrange(record_offset(k) as int, record_offset(k) + PAGE_IDX_SIZE) == b.subrange(
            record_offset(k) as int,
            record_offset(k) + PAGE_IDX_SIZE,
        ),
        record_page(a, k) == record_page(b, k),
{
    let start = record_offset(k) as int;
    let idx_a = a.subrange(start, start + PAGE_IDX_SIZE);
    let idx_b = b.subrange(start, start + PAGE_IDX_SIZE);
    lemma_same_order(a, b, pages, k);
    lemma_be_unique(idx_a);
    lemma_be_unique(idx_b);
    lemma_be_value_fits(idx_a);
    lemma_be_value_fits(idx_b);
    assert(page_at(pages, record_idx(a, k)) == Some(record_page(a, k)));
    assert(page_at(pages, record_idx(b, k)) == Some(record_page(b, k)));
}

/// Each byte after the header lies in one record: in its page index or in
/// its page.
proof fn lemma_record_of_byte(n: nat, at: int) -> (k: nat)
    requires
        PAGE_IDX_SIZE <= at < record_offset(n),
    ensures
        k < n,
        record_offset(k) <= at < record_offset(k + 1) <= record_offset(n),
{
    let past = at - PAGE_IDX_SIZE;
    let k = (past / (RECORD_SIZE as int)) as nat;
    assert(k * RECORD_SIZE <= past < (k + 1) * RECORD_SIZE) by (nonlinear_arith)
        requires
            k == past / (RECORD_SIZE as int),
            past >= 0,
            RECORD_SIZE > 0,
    ;
    if k >= n {
        assert(k * RECORD_SIZE >= n * RECORD_SIZE) by (nonlinear_arith)
            requires
                k >= n,
        ;
    }
    assert((k + 1) * RECORD_SIZE <= n * RECORD_SIZE) by (nonlinear_arith)
        requires
            k + 1 <= n,
    ;
    k
}

/// A store has one directory: the pages fix every byte of it.
pub proof fn lemma_directory_unique(a: Seq<u8>, b: Seq<u8>, pages: Map<PageIdx, Page>)
    requires
        encodes(a, pages),
        encodes(b, pages),
    ensures
        a == b,
{
    assert(a.len() == b.len());
    assert forall|at: int| 0 <= at < a.len() implies a[at] == b[at] by {
        if at < PAGE_IDX_SIZE {
            lemma_same_header(a, b, pages);
            assert(a[at] == a.subrange(0, PAGE_IDX_SIZE as int)[at]);
            assert(b[at] == b.subrange(0, PAGE_IDX_SIZE as int)[at]);
        } else {
            let k = lemma_record_of_byte(pages.len(), at);
            let start = record_offset(k) as int;
            lemma_same_record(a, b, pages, k);
            if at < start + PAGE_IDX_SIZE {
                assert(a[at] == a.subrange(start, start + PAGE_IDX_SIZE)[at - start]);
                assert(b[at] == b.subrange(start, start + PAGE_IDX_SIZE)[at - start]);
            } else {
                assert(a[at] == record_page(a, k)[at - start - PAGE_IDX_SIZE]);
                assert(b[at] == record_page(b, k)[at - start - PAGE_IDX_SIZE]);
            }
        }
    }
    assert(a =~= b);
}

/// The bytes of the record of page `idx` with content `page`.
pub open spec fn record_bytes(idx: PageIdx, page: Page) -> Seq<u8> {
    be_bytes(idx) + page@
}

/// The header for `max`, then the records of `written`, one after another.
pub open spec fn layout(max: PageIdx, written: Seq<(PageIdx, Page)>) -> Seq<u8>
    decreases written.len(),
{
    if written.len() == 0 {
        be_bytes(max)
    } else {
        layout(max, written.drop_last()) + record_bytes(
            written.last().0,
            written.last().1,
        )
    }
}

/// What is laid out reads back: the length counts the records, the header
/// carries `max`, and record `k` carries the index and the page of
/// `written[k]`.
pub proof fn lemma_layout(max: PageIdx, written: Seq<(PageIdx, Page)>)
    ensures
        layout(max, written).len() == record_offset(written.len()),
        header_idx(layout(max, written)) == max,
        forall|k: nat|
            k < written.len() ==> {
                &&& #[trigger] record_idx(layout(max, written), k) == written[k as int].0
                &&& record_page(layout(max, written), k) == written[k as int].1@
            },
    decreases written.len(),
{
    let dir = layout(max, written);
    lemma_be_round_trip(max);
    if written.len() == 0 {
        assert(dir.subrange(0, PAGE_IDX_SIZE as int) =~= be_bytes(max));
    } else {
        let init = written.drop_last();
        let shorter = layout(max, init);
        let (idx, page) = written.last();
        lemma_layout(max, init);
        lemma_be_round_trip(idx);
        assert(dir.subrange(0, PAGE_IDX_SIZE as int) =~= shorter.subrange(0, PAGE_IDX_SIZE as int));
        assert forall|k: nat| k < written.len() implies {
            &&& #[trigger] record_idx(dir, k) == written[k as int].0
            &&& record_page(dir, k) == written[k as int].1@
        } by {
            let at = record_offset(k) as int;
            if k < init.len() {
                assert(dir.subrange(at, at + PAGE_IDX_SIZE) =~= shorter.subrange(
                    at,
                    at + PAGE_IDX_SIZE,
                ));
                assert(record_page(dir, k) =~= record_page(shorter, k));
                assert(record_idx(shorter, k) == init[k as int].0);
            } else {
                assert(dir.subrange(at, at + PAGE_IDX_SIZE) =~= be_bytes(idx));
                assert(record_page(dir, k) =~= page@);
            }
        }
    }
}

/// Keys that come out in increasing order grow strictly from each to the next.
proof fn lemma_increasing_keys(keys: Seq<PageIdx>)
    requires
        increasing_seq(keys),
    ensures
        forall|i: int, j: int| 0 <= i < j < keys.len() ==> keys[i] < keys[j],
{
    assert forall|i: int, j: int| 0 <= i < j < keys.len() implies keys[i] < keys[j] by {
        assert(keys[i].cmp_spec(&keys[j]) is Less);
    }
}

impl Serializable for SparsePages {
    /// Only a store that holds a page has a directory.
    open spec fn can_serialize(&self) -> bool {
        self@.len() > 0
    }

    /// The writer keeps what it held, and the directory of the store
    /// follows.
    open spec fn serialized(&self, before: Seq<u8>, after: Seq<u8>) -> bool {
        before.is_prefix_of(after) && encodes(after.skip(before.len() as int), self@)
    }

    /// Append the directory of the store to `writer`: the greatest page
    /// index, then each page index with its page, sorted by page index.
    fn serialize_into(&self, writer: &mut Vec<u8>)
        ensures
            old(writer)@.is_prefix_of(final(writer)@),
            encodes(final(writer)@.skip(old(writer)@.len() as int), self@),
            old(writer)@.len() == 0 ==> encodes(final(writer)@, self@),
    {
        let ghost base = writer@;
        let max = self.max_page_idx().unwrap();
        let header = encode_u64(max);
        writer.extend_from_slice(header.as_slice());
        let ghost mut written: Seq<(PageIdx, Page)> = Seq::empty();
        assert(writer@ =~= base + layout(max, written));
        let entries = self.entries().iter();
        proof {
            let keys = entries.remaining().map_values(|kv: (&PageIdx, &Page)| *kv.0);
            lemma_increasing_keys(keys);
            let pairs = entries.remaining();
            assert forall|i: int, j: int| 0 <= i < j < pairs.len() implies *pairs[i].0
                < *pairs[j].0 by {
                assert(keys[i] < keys[j]);
            }
        }
        for entry in it: entries
            invariant
                writer@ == base + layout(max, written),
                written.len() == it.index(),
                it.seq().len() == self@.len(),
                it.seq().unref().to_set() == self@.kv_pairs(),
                forall|i: int, j: int|
                    0 <= i < j < it.seq().len() ==> *it.seq()[i].0 < *it.seq()[j].0,
                forall|k: int| 0 <= k < written.len() ==> written[k] == it.seq().unref()[k],
                forall|k: int|
                    0 <= k < written.len() ==> self@.contains_pair(
                        (#[trigger] written[k]).0,
                        written[k].1,
                    ),
                forall|i: int, j: int| 0 <= i < j < written.len() ==> written[i].0 < written[j].0,
                written.len() == it.seq().len() ==> forall|idx: PageIdx|
                    self@.contains_key(idx) ==> exists|k: int|
                        0 <= k < written.len() && (#[trigger] written[k]).0 == idx,
        {
            let (page_idx, page) = entry;
            let idx_bytes = encode_u64(*page_idx);
            writer.extend_from_slice(idx_bytes.as_slice());
            writer.extend_from_slice(page.as_slice());
            proof {
                let pairs = it.seq().unref();
                let longer = written.push((*page_idx, *page));
                assert(longer.drop_last() =~= written);
                assert(writer@ =~= base + layout(max, longer));
                assert(pairs[it.index()] == (*page_idx, *page));
                assert(pairs.to_set().contains(pairs[it.index()]));
                assert forall|idx: PageIdx|
                    longer.len() == pairs.len() && self@.contains_key(idx) implies exists|k: int|
                    0 <= k < longer.len() && (#[trigger] longer[k]).0 == idx by {
                    assert(pairs.to_set().contains((idx, self@[idx])));
                    let k = choose|k: int| 0 <= k < pairs.len() && pairs[k] == (idx, self@[idx]);
                    assert(longer[k].0 == idx);
                }
                written = longer;
            }
        }
        proof {
            lemma_layout(max, written);
            lemma_record_count(written.len());
            let dir = writer@.skip(base.len() as int);
            assert(dir =~= layout(max, written));
            if base.len() == 0 {
                assert(writer@ =~= dir);
            }
            assert forall|idx: PageIdx| self@.contains_key(idx) implies exists|k: nat|
                k < self@.len() && record_idx(dir, k) == idx by {
                let k = choose|k: int| 0 <= k < written.len() && (#[trigger] written[k]).0 == idx;
                assert(record_idx(dir, k as nat) == idx);
            }
        }
    }
}

/// A reader of a serialized page directory that lies on a medium of
/// positioned reads. It never loads the directory: each lookup is a binary
/// search over the records by positioned reads.
pub struct SerializedPagesReader<R: PositionedReader>(pub R);

impl<R: PositionedReader> View for SerializedPagesReader<R> {
    type V = Seq<u8>;

    /// The bytes of the directory.
    open spec fn view(&self) -> Seq<u8> {
        self.0.bytes()
    }
}

impl<R: PositionedReader> SerializedPagesReader<R> {
    /// The number of records in the directory.
    pub fn num_pages(&self) -> (result: Result<usize, std::io::Error>)
        ensures
            result matches Ok(count) ==> count <= record_count(usize::MAX as nat),
            self.0.faithful() ==> (result matches Ok(count) ==> count == record_count(self@.len())),
            self.0.faithful() ==> forall|pages: Map<PageIdx, Page>| #[trigger]
                encodes(self@, pages) ==> (result matches Ok(count) ==> count == pages.len()),
            self.0.never_fails() ==> result is Ok,
    {
        proof {
            assert forall|pages: Map<PageIdx, Page>| #[trigger]
                encodes(self@, pages) implies record_count(self@.len()) == pages.len() by {
                lemma_record_count(pages.len());
            }
        }
        let file_size = self.0.size()?;
        if file_size >= PAGE_IDX_SIZE {
            Ok((file_size - PAGE_IDX_SIZE) / RECORD_SIZE)
        } else {
            Ok(0)
        }
    }

    /// The greatest page index of the directory, read from its header.
    pub fn max_page_idx(&self) -> (result: Result<PageIdx, std::io::Error>)
        ensures
            self.0.faithful() ==> (result matches Ok(idx) ==> self@.len() >= PAGE_IDX_SIZE && idx
                == header_idx(self@)),
            self.0.faithful() ==> forall|pages: Map<PageIdx, Page>| #[trigger]
                encodes(self@, pages) ==> (result matches Ok(idx) ==> is_max_idx(pages, idx)),
            self.0.never_fails() && self@.len() >= PAGE_IDX_SIZE ==> result is Ok,
    {
        let mut buf = [0u8; PAGE_IDX_SIZE];
        self.0.read_exact_at(0, &mut buf)?;
        proof {
            lemma_be_value_fits(buf@);
        }
        Ok(decode_u64(&buf))
    }

    /// Copy `buf.len()` bytes of the page at `page_idx`, starting at
    /// `page_offset` within the page, into `buf`, and return how many bytes
    /// were copied. Where the directory has no record of the page nothing is
    /// copied.
    ///
    /// The record is found by binary search: each step reads the page index
    /// of one record, and a hit reads the bytes asked for.
    pub fn read(&self, page_idx: PageIdx, page_offset: usize, buf: &mut [u8]) -> (result: Result<
        usize,
        std::io::Error,
    >)
        requires
            page_offset + old(buf)@.len() <= PAGESIZE,
        ensures
            final(buf)@.len() == old(buf)@.len(),
            result matches Ok(copied) ==> copied == 0 || copied == old(buf)@.len(),
            self.0.faithful() ==> (result matches Ok(copied) ==> {
                ||| exists|k: nat|
                    holds_at(self@, page_idx, k) && read_outcome(
                        Some(record_page(self@, k)),
                        page_offset as int,
                        old(buf)@,
                        final(buf)@,
                        copied as int,
                    )
                ||| read_outcome(None, page_offset as int, old(buf)@, final(buf)@, copied as int)
            }),
            self.0.faithful() && ascending(self@) ==> (result matches Ok(copied) ==> read_outcome(
                lookup(self@, page_idx),
                page_offset as int,
                old(buf)@,
                final(buf)@,
                copied as int,
            )),
            self.0.faithful() ==> forall|pages: Map<PageIdx, Page>| #[trigger]
                encodes(self@, pages) ==> (result matches Ok(copied) ==> read_outcome(
                    page_at(pages, page_idx),
                    page_offset as int,
                    old(buf)@,
                    final(buf)@,
                    copied as int,
                )),
            self.0.faithful() && self.0.never_fails() ==> result is Ok,
    {
        proof {
            assert forall|pages: Map<PageIdx, Page>| #[trigger]
                encodes(self@, pages) implies lookup(self@, page_idx) == page_at(
                pages,
                page_idx,
            ) by {
                lemma_directory_round_trip(self@, pages, page_idx);
            }
        }
        let num_pages = self.num_pages()?;

        let mut left: usize = 0;
        let mut right: usize = num_pages;
        let mut page_idx_buf = [0u8; PAGE_IDX_SIZE];

        while left < right
            invariant
                left <= right <= num_pages <= record_count(usize::MAX as nat),
                self.0.faithful() ==> num_pages == record_count(self@.len()),
                page_offset + buf@.len() <= PAGESIZE,
                buf@ == old(buf)@,
                self.0.faithful() && ascending(self@) ==> forall|k: nat|
                    k < left || right <= k < num_pages ==> record_idx(self@, k) != page_idx,
            decreases right - left,
        {
            let mid = left + (right - left) / 2;
            proof {
                lemma_record_inside(usize::MAX as nat, mid as nat);
                if self.0.faithful() {
                    lemma_record_inside(self@.len(), mid as nat);
                }
            }
            let mid_offset = PAGE_IDX_SIZE + (mid * RECORD_SIZE);
            self.0.read_exact_at(mid_offset, &mut page_idx_buf)?;

            proof {
                lemma_be_value_fits(page_idx_buf@);
            }
            let mid_idx = decode_u64(&page_idx_buf);
            assert(self.0.faithful() ==> mid_idx == record_idx(self@, mid as nat));

            if mid_idx == page_idx {
                let read_start = mid_offset + PAGE_IDX_SIZE + page_offset;
                self.0.read_exact_at(read_start, buf)?;
                proof {
                    let k = mid as nat;
                    if self.0.faithful() {
                        assert(holds_at(self@, page_idx, k));
                        assert(buf@ =~= record_page(self@, k).subrange(
                            page_offset as int,
                            page_offset + buf@.len(),
                        ));
                        if ascending(self@) {
                            lemma_lookup_ascending(self@, page_idx, k);
                        }
                    }
                }
                return Ok(buf.len());
            } else if mid_idx < page_idx {
                left = mid + 1;
            } else {
                right = mid;
            }
        }

        Ok(0)
    }
}

} // verus!
