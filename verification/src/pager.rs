//! The pager: a block-oriented cache over the bytes of an append-capable
//! heap file.
//!
//! The embedding program reads the backing file once and hands its bytes to
//! [`Pager::new`]; at shutdown it writes back the image that [`Pager::flush`]
//! returns.  In between, the pager is the sole arbiter of page contents:
//! pages are loaded from the file bytes on first reference (a short read past
//! the end of the file leaves the unread suffix zero), cached, and mutated
//! only through [`Pager::put_page`].

use crate::constants::{lemma_constant_values, MAX_PAGES, PAGE_SIZE};
use vstd::prelude::*;

verus! {

/// A fixed-size page buffer; the unit of file I/O and of cache residency.
#[derive(Debug)]
pub struct Page {
    pub buffer: Vec<u8>,
}

impl Page {
    /// A page buffer covers exactly one page.
    pub open spec fn wf(&self) -> bool {
        self.buffer@.len() == PAGE_SIZE
    }
}

/// What can go wrong inside the pager.
#[derive(Debug)]
pub enum PagerError {
    /// An I/O error of the backing file, surfaced by the embedding program.
    File,
    /// A page index beyond the cache ceiling was requested.
    PagesFull,
    /// The file's length is not a whole multiple of the page size.
    CorruptFile,
}

/// The `PAGE_SIZE` bytes of page `p` of a file image, zero-extended past the
/// end of the image.
pub open spec fn spec_disk_page(disk: Seq<u8>, p: int) -> Seq<u8> {
    Seq::new(
        PAGE_SIZE as nat,
        |i: int|
            if p * (PAGE_SIZE as int) + i < disk.len() {
                disk[p * (PAGE_SIZE as int) + i]
            } else {
                0u8
            },
    )
}

/// Owns the file bytes, a cache of pages keyed by page number, the observed
/// file length and the logical page count.
pub struct Pager {
    /// The bytes the backing file held when the pager was opened.
    pub disk: Vec<u8>,
    /// The page cache: slot `p` holds page `p` once it has been referenced.
    pub pages: Vec<Option<Page>>,
    /// Length of the backing file at open, in bytes.
    pub file_length: u64,
    /// Pages the file logically holds, growing as new pages are referenced.
    pub num_pages: u32,
}

impl Pager {
    /// Structural well-formedness: a page-aligned file image and a cache of
    /// full-size page buffers.
    pub open spec fn wf(&self) -> bool {
        &&& self.disk@.len() as int % (PAGE_SIZE as int) == 0
        &&& self.disk@.len() as int / (PAGE_SIZE as int) <= u32::MAX
        &&& self.file_length == self.disk@.len()
        &&& self.pages@.len() == MAX_PAGES + 1
        &&& forall|p: int|
            #![trigger self.pages@[p]]
            0 <= p < self.pages@.len() && self.pages@[p] is Some
                ==> self.pages@[p]->Some_0.buffer@.len() == PAGE_SIZE
    }

    /// Whether page `p` is resident in the cache.
    pub open spec fn is_cached(&self, p: int) -> bool {
        0 <= p < self.pages@.len() && self.pages@[p] is Some
    }

    /// The current content of page `p`: the cached buffer if resident, else
    /// the file bytes (zero-extended).
    pub open spec fn page_view(&self, p: int) -> Seq<u8> {
        if self.is_cached(p) {
            self.pages@[p]->Some_0.buffer@
        } else {
            spec_disk_page(self.disk@, p)
        }
    }

    /// The pager after `new`, before any page is referenced.
    pub open spec fn fresh(&self, contents: Seq<u8>) -> bool {
        &&& self.disk@ == contents
        &&& self.file_length == contents.len()
        &&& self.num_pages == contents.len() as int / (PAGE_SIZE as int)
        &&& forall|p: int| !(#[trigger] self.is_cached(p))
    }

    /// Opens a pager over the bytes of the backing file.
    ///
    /// Fails with `CorruptFile` exactly when the length is not a whole
    /// multiple of the page size.
    pub fn new(contents: Vec<u8>) -> (r: Result<Pager, PagerError>)
        requires
            contents@.len() as int / (PAGE_SIZE as int) <= u32::MAX,
        ensures
            contents@.len() as int % (PAGE_SIZE as int) != 0 ==> r == Err::<Pager, PagerError>(
                PagerError::CorruptFile,
            ),
            contents@.len() as int % (PAGE_SIZE as int) == 0 ==> {
                &&& r is Ok
                &&& r->Ok_0.wf()
                &&& r->Ok_0.fresh(contents@)
            },
    {
        let len: usize = contents.len();
        if len % PAGE_SIZE != 0 {
            return Err(PagerError::CorruptFile);
        }
        let mut pages: Vec<Option<Page>> = Vec::new();
        let mut k: usize = 0;
        while k < MAX_PAGES + 1
            invariant
                pages@.len() == k,
                k <= MAX_PAGES + 1,
                forall|i: int| 0 <= i < k ==> pages@[i] is None,
            decreases MAX_PAGES + 1 - k,
        {
            pages.push(None);
            k = k + 1;
        }
        Ok(
            Pager {
                file_length: len as u64,
                num_pages: (len / PAGE_SIZE) as u32,
                disk: contents,
                pages,
            },
        )
    }

    /// Fetches page `page_num`, loading it from the file bytes on a cache
    /// miss, and returns a copy of its current content.
    ///
    /// Fails with `PagesFull` exactly when `page_num` exceeds the ceiling.
    /// The content of every page is unchanged; on a miss the page becomes
    /// resident, and the logical page count grows by one if `page_num` was
    /// beyond it.
    pub fn get_page(&mut self, page_num: u32) -> (r: Result<Page, PagerError>)
        requires
            old(self).wf(),
        ensures
            final(self).wf(),
            final(self).disk@ == old(self).disk@,
            final(self).file_length == old(self).file_length,
            forall|p: int| #[trigger] final(self).page_view(p) == old(self).page_view(p),
            page_num > MAX_PAGES ==> r == Err::<Page, PagerError>(PagerError::PagesFull)
                && *final(self) == *old(self),
            page_num <= MAX_PAGES ==> {
                &&& r is Ok
                &&& r->Ok_0.wf()
                &&& r->Ok_0.buffer@ == old(self).page_view(page_num as int)
                &&& final(self).is_cached(page_num as int)
                &&& forall|p: int|
                    #![trigger final(self).is_cached(p)]
                    p != page_num ==> final(self).is_cached(p) == old(self).is_cached(p)
                &&& final(self).num_pages == if old(self).is_cached(page_num as int) || page_num
                    < old(self).num_pages {
                    old(self).num_pages
                } else {
                    (old(self).num_pages + 1) as u32
                }
            },
    {
        proof {
            lemma_constant_values();
        }
        if page_num > MAX_PAGES as u32 {
            return Err(PagerError::PagesFull);
        }
        let idx = page_num as usize;
        if self.pages[idx].is_none() {
            // Miss: start from a zero-filled buffer and overlay the file
            // bytes of this page, tolerating a short read at end of file.
            let mut buffer: Vec<u8> = Vec::new();
            let mut j: usize = 0;
            while j < PAGE_SIZE
                invariant
                    buffer@.len() == j,
                    j <= PAGE_SIZE,
                    forall|i: int| 0 <= i < j ==> buffer@[i] == spec_disk_page(self.disk@, idx as int)[i],
                    idx <= MAX_PAGES,
                decreases PAGE_SIZE - j,
            {
                let off = idx * PAGE_SIZE + j;
                if off < self.disk.len() {
                    buffer.push(self.disk[off]);
                } else {
                    buffer.push(0u8);
                }
                j = j + 1;
            }
            proof {
                assert(buffer@ =~= spec_disk_page(self.disk@, idx as int));
            }
            if page_num >= self.num_pages {
                self.num_pages = self.num_pages + 1;
            }
            self.pages[idx] = Some(Page { buffer });
        }
        match &self.pages[idx] {
            Some(pg) => {
                let copy = Page { buffer: vstd::slice::slice_to_vec(pg.buffer.as_slice()) };
                Ok(copy)
            },
            None => {
                proof {
                    assert(false);
                }
                Err(PagerError::PagesFull)
            },
        }
    }

    /// Length in bytes that a flush of the first `upto` cache slots must
    /// cover: one past the last resident slot, in whole pages.
    pub open spec fn spec_flushed_len(pages: Seq<Option<Page>>, upto: int) -> int
        decreases upto,
    {
        if upto <= 0 {
            0
        } else if pages[upto - 1] is Some {
            upto * (PAGE_SIZE as int)
        } else {
            Self::spec_flushed_len(pages, upto - 1)
        }
    }

    /// Length of the image a flush writes back: the whole file, extended to
    /// cover every resident page.
    pub open spec fn image_len(&self) -> int {
        let c = Self::spec_flushed_len(self.pages@, self.pages@.len() as int);
        if self.disk@.len() >= c {
            self.disk@.len() as int
        } else {
            c
        }
    }

    /// Byte `i` of the image a flush writes back: the cached byte where the
    /// page is resident, else the original file byte, else zero.
    pub open spec fn image_byte(&self, i: int) -> u8 {
        if self.is_cached(i / (PAGE_SIZE as int)) {
            self.pages@[i / (PAGE_SIZE as int)]->Some_0.buffer@[i % (PAGE_SIZE as int)]
        } else if i < self.disk@.len() {
            self.disk@[i]
        } else {
            0u8
        }
    }

    /// The image a flush writes back.
    pub open spec fn flush_image(&self) -> Seq<u8> {
        Seq::new(self.image_len() as nat, |i: int| self.image_byte(i))
    }

    /// Produces the file image to write back at shutdown: every resident
    /// page at its own offset over the original file bytes.
    pub fn flush(&self) -> (r: Vec<u8>)
        requires
            self.wf(),
        ensures
            r@ == self.flush_image(),
    {
        proof {
            lemma_constant_values();
            vstd::arithmetic::div_mod::lemma_fundamental_div_mod(self.disk@.len() as int, PAGE_SIZE as int);
        }
        let disk_pages: usize = self.disk.len() / PAGE_SIZE;
        let mut last_plus_one: usize = 0;
        let mut q: usize = 0;
        while q < self.pages.len()
            invariant
                self.wf(),
                q <= self.pages@.len(),
                last_plus_one <= q,
                last_plus_one as int * (PAGE_SIZE as int) == Self::spec_flushed_len(
                    self.pages@,
                    q as int,
                ),
            decreases self.pages@.len() - q,
        {
            if self.pages[q].is_some() {
                last_plus_one = q + 1;
            }
            q = q + 1;
        }
        let n: usize = if disk_pages >= last_plus_one {
            disk_pages
        } else {
            last_plus_one
        };
        proof {
            assert(self.disk@.len() == disk_pages as int * (PAGE_SIZE as int));
        }
        let total: usize = n * PAGE_SIZE;
        let mut r: Vec<u8> = Vec::new();
        let mut i: usize = 0;
        while i < total
            invariant
                self.wf(),
                r@.len() == i,
                i <= total,
                total == self.image_len(),
                forall|k: int| 0 <= k < i ==> r@[k] == self.image_byte(k),
            decreases total - i,
        {
            let p: usize = i / PAGE_SIZE;
            let off: usize = i % PAGE_SIZE;
            let b: u8 = if p < self.pages.len() {
                match &self.pages[p] {
                    Some(pg) => pg.buffer[off],
                    None => if i < self.disk.len() {
                        self.disk[i]
                    } else {
                        0u8
                    },
                }
            } else if i < self.disk.len() {
                self.disk[i]
            } else {
                0u8
            };
            r.push(b);
            i = i + 1;
        }
        proof {
            assert(r@ =~= self.flush_image());
        }
        r
    }

    /// Replaces the cached content of page `page_num`.
    ///
    /// The page must be resident (callers fetch it first); every other page
    /// keeps its content.
    pub fn put_page(&mut self, page_num: u32, page: Page)
        requires
            old(self).wf(),
            page.wf(),
            page_num <= MAX_PAGES,
            old(self).is_cached(page_num as int),
        ensures
            final(self).wf(),
            final(self).disk@ == old(self).disk@,
            final(self).file_length == old(self).file_length,
            final(self).num_pages == old(self).num_pages,
            final(self).page_view(page_num as int) == page.buffer@,
            forall|p: int|
                #![trigger final(self).page_view(p)]
                p != page_num ==> final(self).page_view(p) == old(self).page_view(p),
            forall|p: int|
                #![trigger final(self).is_cached(p)]
                final(self).is_cached(p) == old(self).is_cached(p),
    {
        let idx = page_num as usize;
        self.pages[idx] = Some(page);
    }
}

} // verus!
