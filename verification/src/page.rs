//! Fixed-size pages and a sparse store of them: a mapping from page index to
//! page content that holds only the pages that were written.

use std::collections::BTreeMap;
use vstd::prelude::*;

verus! {

/// The size of a page in bytes.
pub const PAGESIZE: usize = 4096;

/// The position of a page in the page-addressed space.
pub type PageIdx = u64;

/// The size of a serialized page index in bytes.
pub const PAGE_IDX_SIZE: usize = 8;

/// The content of one page.
pub type Page = [u8; PAGESIZE];

/// The bytes of the page at `idx`, if the store holds one.
pub open spec fn page_at(pages: Map<PageIdx, Page>, idx: PageIdx) -> Option<Seq<u8>> {
    if pages.contains_key(idx) {
        Some(pages[idx]@)
    } else {
        None
    }
}

/// What a read of `before.len()` bytes at `offset` within a page leaves: the
/// buffer filled from the page and its length as the count, or, where there
/// is no page, the buffer as it was and a count of zero.
pub open spec fn read_outcome(
    page: Option<Seq<u8>>,
    offset: int,
    before: Seq<u8>,
    after: Seq<u8>,
    copied: int,
) -> bool {
    match page {
        Some(content) => copied == before.len() && after == content.subrange(
            offset,
            offset + before.len(),
        ),
        None => copied == 0 && after == before,
    }
}

/// A page that was never written reads as absent: nothing is copied, and the
/// buffer stays as it was.
pub proof fn lemma_read_absent(
    pages: Map<PageIdx, Page>,
    idx: PageIdx,
    offset: int,
    before: Seq<u8>,
    after: Seq<u8>,
    copied: int,
)
    requires
        !pages.contains_key(idx),
        read_outcome(page_at(pages, idx), offset, before, after, copied),
    ensures
        copied == 0,
        after == before,
{
}

/// After a page was written, a read of the whole page returns its content
/// byte for byte.
pub proof fn lemma_read_back_written(
    pages: Map<PageIdx, Page>,
    idx: PageIdx,
    page: Page,
    before: Seq<u8>,
    after: Seq<u8>,
    copied: int,
)
    requires
        before.len() == PAGESIZE,
        read_outcome(page_at(pages.insert(idx, page), idx), 0, before, after, copied),
    ensures
        copied == PAGESIZE,
        after == page@,
{
    assert(page@.subrange(0, PAGESIZE as int) =~= page@);
}

/// `idx` is the greatest index of `pages`.
pub open spec fn is_max_idx(pages: Map<PageIdx, Page>, idx: PageIdx) -> bool {
    &&& pages.contains_key(idx)
    &&& forall|other: PageIdx| pages.contains_key(other) ==> other <= idx
}

/// A mapping from page index to page content that holds only the pages that
/// were written. An index without a page reads as absent, not as zeroes.
#[derive(Debug)]
pub struct SparsePages {
    pages: BTreeMap<PageIdx, Page>,
}

impl View for SparsePages {
    type V = Map<PageIdx, Page>;

    closed spec fn view(&self) -> Map<PageIdx, Page> {
        self.pages@
    }
}

impl Clone for SparsePages {
    fn clone(&self) -> (pages: Self)
        ensures
            pages@ == self@,
    {
        Self { pages: self.pages.clone() }
    }
}

impl Default for SparsePages {
    fn default() -> (pages: Self)
        ensures
            pages@ == Map::<PageIdx, Page>::empty(),
    {
        SparsePages::new()
    }
}

impl SparsePages {
    /// A store that holds no page.
    pub fn new() -> (pages: SparsePages)
        ensures
            pages@ == Map::<PageIdx, Page>::empty(),
    {
        Self { pages: BTreeMap::new() }
    }

    /// The number of pages the store holds.
    pub fn num_pages(&self) -> (count: usize)
        ensures
            self@.dom().finite(),
            count == self@.len(),
    {
        self.pages.len()
    }

    /// The pages by index, in the order of their indices.
    pub(crate) fn entries(&self) -> (entries: &BTreeMap<PageIdx, Page>)
        ensures
            entries@ == self@,
    {
        &self.pages
    }

    /// Discard every page.
    pub fn clear(&mut self)
        ensures
            final(self)@ == Map::<PageIdx, Page>::empty(),
    {
        self.pages.clear();
    }

    /// Set the content of the page at `page_idx`.
    pub fn write(&mut self, page_idx: PageIdx, page: Page)
        ensures
            final(self)@ == old(self)@.insert(page_idx, page),
    {
        self.pages.insert(page_idx, page);
    }

    /// The greatest index that has a page, or `None` if the store is empty.
    pub fn max_page_idx(&self) -> (max: Option<PageIdx>)
        ensures
            match max {
                Some(idx) => is_max_idx(self@, idx),
                None => self@.dom().is_empty(),
            },
    {
        let mut max: Option<PageIdx> = None;
        for key in it: self.pages.keys()
            invariant
                it.seq().unref().to_set() == self@.dom(),
                match max {
                    Some(idx) => {
                        &&& self@.contains_key(idx)
                        &&& forall|i: int| 0 <= i < it.index() ==> *it.seq()[i] <= idx
                    },
                    None => it.index() == 0,
                },
                it.index() == it.seq().len() ==> match max {
                    Some(idx) => is_max_idx(self@, idx),
                    None => self@.dom().is_empty(),
                },
        {
            proof {
                assert(it.seq().unref()[it.index()] == *key);
                assert(it.seq().unref().to_set().contains(*key));
            }
            max = match max {
                Some(idx) if idx >= *key => Some(idx),
                _ => Some(*key),
            };
            proof {
                let keys = it.seq().unref();
                assert forall|other: PageIdx| self@.contains_key(other) && it.index() + 1
                    == keys.len() implies other <= max.unwrap() by {
                    assert(keys.to_set().contains(other));
                    let i = choose|i: int| 0 <= i < keys.len() && keys[i] == other;
                    assert(*it.seq()[i] == other);
                }
            }
        }
        max
    }

    /// Copy `buf.len()` bytes of the page at `page_idx`, starting at
    /// `page_offset` within the page, into `buf`, and return how many bytes
    /// were copied. Where the store holds no such page nothing is copied.
    pub fn read(&self, page_idx: PageIdx, page_offset: usize, buf: &mut [u8]) -> (copied: usize)
        requires
            page_offset + old(buf)@.len() <= PAGESIZE,
        ensures
            read_outcome(
                page_at(self@, page_idx),
                page_offset as int,
                old(buf)@,
                final(buf)@,
                copied as int,
            ),
    {
        match self.pages.get(&page_idx) {
            Some(page) => {
                let end = page_offset + buf.len();
                buf.copy_from_slice(&page[page_offset..end]);
                buf.len()
            },
            None => 0,
        }
    }
}

} // verus!
