//! The table: lifecycle owner of the pager and factory for cursors; the
//! cursor: a position in the tree, supporting read-current, advance and
//! insert-at-position.

use crate::btree::{
    lemma_cell_agreement, spec_cell_offset, spec_leaf_cell, spec_leaf_key, spec_leaf_num_cells,
    spec_leaf_value, LeafNode,
};
use crate::byteops::{lemma_u32_le_bytes_of, spec_u32_le_bytes};
use crate::constants::{
    lemma_constant_values, LEAF_NODE_KEY_SIZE, LEAF_NODE_MAX_CELLS, LEAF_NODE_NUM_CELLS_OFFSET,
    MAX_PAGES, PAGE_SIZE, ROW_SIZE,
};
use crate::pager::{spec_disk_page, Page, Pager, PagerError};
use vstd::arithmetic::div_mod::{
    lemma_basic_div, lemma_div_is_ordered, lemma_fundamental_div_mod, lemma_mod_multiples_basic,
    lemma_small_mod,
};
use vstd::prelude::*;

verus! {

/// What can go wrong at the table layer.
#[derive(Debug)]
pub enum TableError {
    /// A pager failure, wrapped.
    Pager(PagerError),
    /// An insert would overflow the single leaf; splits do not exist yet.
    SplitNotImplemented,
    /// A cell does not fit inside its page: the leaf lens cannot produce a
    /// full-size slice for it.
    BadPageSize,
}

/// Owns a pager and the root page number (always zero: the tree is a single
/// root leaf).
pub struct Table {
    pub root_page_num: u32,
    pub pager: Pager,
}

impl Table {
    /// A well-formed table: a well-formed pager rooted at page zero.
    pub open spec fn wf(&self) -> bool {
        &&& self.pager.wf()
        &&& self.root_page_num == 0
    }

    /// The current content of the root page.
    pub open spec fn page0(&self) -> Seq<u8> {
        self.pager.page_view(0)
    }

    /// The cell count of the root leaf: the number of stored rows.
    pub open spec fn row_count(&self) -> u32 {
        spec_leaf_num_cells(self.page0())
    }

    /// Opens (or logically creates) a table over the bytes of the backing
    /// file.  A fresh, zero-length file gets its root initialized as an
    /// empty leaf; in both cases the root page content equals the first
    /// page of `contents`, zero-extended.
    ///
    /// Fails with `CorruptFile` exactly when the length is not a whole
    /// multiple of the page size.
    pub fn new(contents: Vec<u8>) -> (r: Result<Table, TableError>)
        requires
            contents@.len() as int / (PAGE_SIZE as int) <= u32::MAX,
        ensures
            contents@.len() as int % (PAGE_SIZE as int) != 0 ==> r == Err::<Table, TableError>(
                TableError::Pager(PagerError::CorruptFile),
            ),
            contents@.len() as int % (PAGE_SIZE as int) == 0 ==> {
                &&& r is Ok
                &&& r->Ok_0.wf()
                &&& r->Ok_0.pager.disk@ == contents@
                &&& r->Ok_0.page0() == spec_disk_page(contents@, 0)
            },
    {
        proof {
            lemma_constant_values();
        }
        let mut pager = match Pager::new(contents) {
            Ok(p) => p,
            Err(e) => {
                return Err(TableError::Pager(e));
            },
        };
        if pager.num_pages == 0 {
            let ghost disk = pager.disk@;
            let page = match pager.get_page(0) {
                Ok(p) => p,
                Err(e) => {
                    return Err(TableError::Pager(e));
                },
            };
            let mut ln = LeafNode::new(page.buffer);
            ln.reset_node_num_cells();
            proof {
                // A zero-length file loads as a zero page, and resetting the
                // cell count keeps every byte zero.
                assert(disk.len() == 0);
                lemma_u32_le_bytes_of(seq![0u8, 0u8, 0u8, 0u8]);
                assert(ln.buffer@ =~= spec_disk_page(disk, 0));
            }
            pager.put_page(0, Page { buffer: ln.buffer });
        }
        Ok(Table { root_page_num: 0, pager })
    }

    /// A cursor at the first row; at end-of-table exactly when the table is
    /// empty.  The content of every page is unchanged.
    pub fn start(&mut self) -> (r: Result<Cursor, TableError>)
        requires
            old(self).wf(),
        ensures
            final(self).wf(),
            final(self).pager.disk@ == old(self).pager.disk@,
            final(self).root_page_num == old(self).root_page_num,
            forall|p: int|
                #[trigger] final(self).pager.page_view(p) == old(self).pager.page_view(p),
            r is Ok,
            r->Ok_0.page_num == 0,
            r->Ok_0.cell_num == 0,
            r->Ok_0.end_of_table == (spec_leaf_num_cells(old(self).page0()) == 0),
    {
        proof {
            lemma_constant_values();
        }
        let page_num = self.root_page_num;
        let page = match self.pager.get_page(page_num) {
            Ok(p) => p,
            Err(e) => {
                return Err(TableError::Pager(e));
            },
        };
        let ln = LeafNode::new(page.buffer);
        let num_cells = ln.leaf_node_num_cells();
        Ok(Cursor { cell_num: 0, page_num, end_of_table: num_cells == 0 })
    }

    /// A cursor one past the last row: the append position.  The content of
    /// every page is unchanged.
    pub fn end(&mut self) -> (r: Result<Cursor, TableError>)
        requires
            old(self).wf(),
        ensures
            final(self).wf(),
            final(self).pager.disk@ == old(self).pager.disk@,
            final(self).root_page_num == old(self).root_page_num,
            forall|p: int|
                #[trigger] final(self).pager.page_view(p) == old(self).pager.page_view(p),
            r is Ok,
            r->Ok_0.page_num == 0,
            r->Ok_0.cell_num == spec_leaf_num_cells(old(self).page0()),
            r->Ok_0.end_of_table,
    {
        proof {
            lemma_constant_values();
        }
        let page_num = self.root_page_num;
        let page = match self.pager.get_page(page_num) {
            Ok(p) => p,
            Err(e) => {
                return Err(TableError::Pager(e));
            },
        };
        let ln = LeafNode::new(page.buffer);
        let num_cells = ln.leaf_node_num_cells();
        Ok(Cursor { cell_num: num_cells, page_num, end_of_table: true })
    }

    /// The file image to write back at shutdown.  Durability is tied to the
    /// embedding program writing exactly this image.
    pub fn close(&self) -> (r: Vec<u8>)
        requires
            self.wf(),
        ensures
            r@ == self.pager.flush_image(),
    {
        self.pager.flush()
    }
}

/// The flushed image of a well-formed table is page-aligned, small enough
/// to reopen, and reopens to the very same root page content.
pub proof fn lemma_flush_image_page0(t: Table)
    requires
        t.wf(),
    ensures
        t.pager.flush_image().len() as int % (PAGE_SIZE as int) == 0,
        t.pager.flush_image().len() as int / (PAGE_SIZE as int) <= u32::MAX,
        spec_disk_page(t.pager.flush_image(), 0) == t.page0(),
{
    lemma_constant_values();
    let pages = t.pager.pages@;
    let upto = pages.len() as int;
    let disk = t.pager.disk@;
    let image = t.pager.flush_image();
    lemma_flushed_len_properties(pages, upto);
    let c = Pager::spec_flushed_len(pages, upto);
    assert(image.len() == if disk.len() >= c {
        disk.len() as int
    } else {
        c
    });
    lemma_fundamental_div_mod(disk.len() as int, PAGE_SIZE as int);
    lemma_fundamental_div_mod(image.len() as int, PAGE_SIZE as int);
    if disk.len() as int >= c {
        lemma_div_is_ordered(image.len() as int, disk.len() as int, PAGE_SIZE as int);
    } else {
        lemma_div_is_ordered(image.len() as int, 101 * (PAGE_SIZE as int), PAGE_SIZE as int);
    }
    if image.len() == 0 {
        assert forall|p: int| !(#[trigger] t.pager.is_cached(p)) by {
            if 0 <= p < upto && pages[p] is Some {
                assert((p + 1) * (PAGE_SIZE as int) <= c);
            }
        }
        assert(spec_disk_page(image, 0) =~= t.page0());
    } else {
        assert(image.len() >= PAGE_SIZE);
        if t.pager.is_cached(0) {
            assert(1 * (PAGE_SIZE as int) <= c);
        } else if disk.len() > 0 {
            assert(disk.len() >= PAGE_SIZE);
        }
        assert forall|i: int| 0 <= i < PAGE_SIZE implies spec_disk_page(image, 0)[i] == t.page0()[i]
            by {
            lemma_basic_div(i, PAGE_SIZE as int);
            lemma_small_mod(i as nat, PAGE_SIZE as nat);
            assert(image[i] == t.pager.image_byte(i));
        }
        assert(spec_disk_page(image, 0) =~= t.page0());
    }
}

/// `spec_flushed_len` is page-aligned, bounded by `upto` pages, and covers
/// every resident slot.
pub proof fn lemma_flushed_len_properties(pages: Seq<Option<Page>>, upto: int)
    requires
        0 <= upto,
    ensures
        0 <= Pager::spec_flushed_len(pages, upto) <= upto * (PAGE_SIZE as int),
        Pager::spec_flushed_len(pages, upto) % (PAGE_SIZE as int) == 0,
        forall|p: int|
            0 <= p < upto && pages[p] is Some ==> (p + 1) * (PAGE_SIZE as int)
                <= Pager::spec_flushed_len(pages, upto),
    decreases upto,
{
    lemma_constant_values();
    if upto > 0 {
        lemma_flushed_len_properties(pages, upto - 1);
        lemma_mod_multiples_basic(upto, PAGE_SIZE as int);
        if pages[upto - 1] is Some {
            assert forall|p: int|
                0 <= p < upto && pages[p] is Some implies (p + 1) * (PAGE_SIZE as int)
                <= Pager::spec_flushed_len(pages, upto) by {
                vstd::arithmetic::mul::lemma_mul_inequality(p + 1, upto, PAGE_SIZE as int);
            }
        } else {
            assert((upto - 1) * (PAGE_SIZE as int) <= upto * (PAGE_SIZE as int));
        }
    }
}

/// A position in the table: a page, a cell inside its leaf, and whether the
/// position is one past the last row.
pub struct Cursor {
    pub page_num: u32,
    pub cell_num: u32,
    pub end_of_table: bool,
}

impl Cursor {
    /// The value slot of the current cell: one serialized row, read from the
    /// current page content.  The content of every page is unchanged.
    ///
    /// Fails with `PagesFull` when the cursor's page exceeds the ceiling and
    /// with `BadPageSize` when the cell does not fit inside the page.
    pub fn value(&self, table: &mut Table) -> (r: Result<Vec<u8>, TableError>)
        requires
            old(table).wf(),
        ensures
            final(table).wf(),
            final(table).pager.disk@ == old(table).pager.disk@,
            final(table).root_page_num == old(table).root_page_num,
            forall|p: int|
                #[trigger] final(table).pager.page_view(p) == old(table).pager.page_view(p),
            self.page_num > MAX_PAGES ==> r == Err::<Vec<u8>, TableError>(
                TableError::Pager(PagerError::PagesFull),
            ),
            self.page_num <= MAX_PAGES && self.cell_num < LEAF_NODE_MAX_CELLS ==> {
                &&& r is Ok
                &&& r->Ok_0@ == spec_leaf_value(
                    old(table).pager.page_view(self.page_num as int),
                    self.cell_num as int,
                )
                &&& r->Ok_0@.len() == ROW_SIZE
            },
            self.page_num <= MAX_PAGES && self.cell_num >= LEAF_NODE_MAX_CELLS ==> r == Err::<
                Vec<u8>,
                TableError,
            >(TableError::BadPageSize),
    {
        proof {
            lemma_constant_values();
        }
        let page = match table.pager.get_page(self.page_num) {
            Ok(p) => p,
            Err(e) => {
                return Err(TableError::Pager(e));
            },
        };
        if self.cell_num >= LEAF_NODE_MAX_CELLS as u32 {
            return Err(TableError::BadPageSize);
        }
        let ln = LeafNode::new(page.buffer);
        Ok(ln.leaf_node_value(self.cell_num as usize))
    }

    /// Steps to the next cell, reaching end-of-table when the new position
    /// is at or past the cell count.  On a pager failure nothing changes.
    pub fn advance(&mut self, table: &mut Table)
        requires
            old(table).wf(),
            old(self).cell_num < u32::MAX,
        ensures
            final(table).wf(),
            final(table).pager.disk@ == old(table).pager.disk@,
            final(table).root_page_num == old(table).root_page_num,
            forall|p: int|
                #[trigger] final(table).pager.page_view(p) == old(table).pager.page_view(p),
            final(self).page_num == old(self).page_num,
            old(self).page_num > MAX_PAGES ==> *final(self) == *old(self),
            old(self).page_num <= MAX_PAGES ==> {
                &&& final(self).cell_num == old(self).cell_num + 1
                &&& final(self).end_of_table == (old(self).end_of_table || old(self).cell_num + 1
                    >= spec_leaf_num_cells(
                    old(table).pager.page_view(old(self).page_num as int),
                ))
            },
    {
        proof {
            lemma_constant_values();
        }
        let page = match table.pager.get_page(self.page_num) {
            Ok(p) => p,
            Err(_) => {
                return ;
            },
        };
        let ln = LeafNode::new(page.buffer);
        let num_cells = ln.leaf_node_num_cells();
        self.cell_num = self.cell_num + 1;
        if self.cell_num >= num_cells {
            self.end_of_table = true;
        }
    }

    /// Inserts `(key, value)` at the cursor's cell, shifting the cells from
    /// that position on one slot to the right and growing the cell count by
    /// one.
    ///
    /// Fails with `SplitNotImplemented`, changing no page content, when the
    /// leaf is full.
    #[verifier::rlimit(100)]
    #[verifier::spinoff_prover]
    pub fn insert(&self, table: &mut Table, key: u32, value: &Vec<u8>) -> (r: Result<
        (),
        TableError,
    >)
        requires
            old(table).wf(),
            value@.len() == ROW_SIZE,
            self.page_num <= MAX_PAGES ==> self.cell_num <= spec_leaf_num_cells(
                old(table).pager.page_view(self.page_num as int),
            ),
        ensures
            final(table).wf(),
            final(table).pager.disk@ == old(table).pager.disk@,
            final(table).root_page_num == old(table).root_page_num,
            self.page_num > MAX_PAGES ==> r == Err::<(), TableError>(
                TableError::Pager(PagerError::PagesFull),
            ) && (forall|p: int|
                #[trigger] final(table).pager.page_view(p) == old(table).pager.page_view(p)),
            self.page_num <= MAX_PAGES ==> {
                let pv = old(table).pager.page_view(self.page_num as int);
                let n = spec_leaf_num_cells(pv) as int;
                &&& (n >= LEAF_NODE_MAX_CELLS ==> r == Err::<(), TableError>(
                    TableError::SplitNotImplemented,
                ) && (forall|p: int|
                    #[trigger] final(table).pager.page_view(p) == old(table).pager.page_view(p)))
                &&& (n < LEAF_NODE_MAX_CELLS ==> {
                    let nv = final(table).pager.page_view(self.page_num as int);
                    &&& r is Ok
                    &&& forall|p: int|
                        p != self.page_num ==> #[trigger] final(table).pager.page_view(p) == old(
                            table,
                        ).pager.page_view(p)
                    &&& spec_leaf_num_cells(nv) == n + 1
                    &&& forall|i: int|
                        0 <= i < self.cell_num ==> #[trigger] spec_leaf_cell(nv, i)
                            == spec_leaf_cell(pv, i)
                    &&& spec_leaf_key(nv, self.cell_num as int) == key
                    &&& spec_leaf_value(nv, self.cell_num as int) == value@
                    &&& forall|i: int|
                        self.cell_num < i <= n ==> #[trigger] spec_leaf_cell(nv, i)
                            == spec_leaf_cell(pv, i - 1)
                    &&& forall|b: int|
                        0 <= b < LEAF_NODE_NUM_CELLS_OFFSET ==> #[trigger] nv[b] == pv[b]
                    &&& forall|b: int|
                        spec_cell_offset(n + 1) <= b < PAGE_SIZE ==> #[trigger] nv[b] == pv[b]
                })
            },
    {
        proof {
            lemma_constant_values();
        }
        let page = match table.pager.get_page(self.page_num) {
            Ok(p) => p,
            Err(e) => {
                return Err(TableError::Pager(e));
            },
        };
        let ghost pv = old(table).pager.page_view(self.page_num as int);
        let mut ln = LeafNode::new(page.buffer);
        let num_cells = ln.leaf_node_num_cells();
        if num_cells >= LEAF_NODE_MAX_CELLS as u32 {
            return Err(TableError::SplitNotImplemented);
        }
        // Shift the cells [cell_num, num_cells) one slot to the right, from
        // the top down so that no cell is overwritten before it is moved.
        let mut i = num_cells;
        while i > self.cell_num
            invariant
                ln.wf(),
                pv.len() == PAGE_SIZE,
                self.cell_num <= i <= num_cells,
                num_cells < LEAF_NODE_MAX_CELLS,
                forall|b: int| 0 <= b < spec_cell_offset(i as int) ==> #[trigger] ln.buffer@[b] == pv[b],
                forall|j: int|
                    i < j <= num_cells ==> #[trigger] spec_leaf_cell(ln.buffer@, j)
                        == spec_leaf_cell(pv, j - 1),
                forall|b: int|
                    spec_cell_offset(num_cells as int + 1) <= b < PAGE_SIZE ==> #[trigger] ln.buffer@[b]
                        == pv[b],
            decreases i,
        {
            proof {
                lemma_constant_values();
                lemma_cell_agreement(ln.buffer@, pv, i as int - 1);
            }
            let ghost before = ln.buffer@;
            let c = ln.leaf_node_cell((i - 1) as usize);
            ln.write_cell(i as usize, &c);
            proof {
                assert forall|j: int|
                    (i - 1) < j <= num_cells implies #[trigger] spec_leaf_cell(ln.buffer@, j)
                    == spec_leaf_cell(pv, j - 1) by {
                    if j > i {
                        lemma_cell_agreement(ln.buffer@, before, j);
                    }
                }
            }
            i = i - 1;
        }
        let ghost shifted = ln.buffer@;
        ln.write_key(self.cell_num as usize, key);
        ln.write_value(self.cell_num as usize, value);
        ln.set_num_cells(num_cells + 1);
        proof {
            let cn = self.cell_num as int;
            let n = num_cells as int;
            let nv = ln.buffer@;
            assert forall|i: int| 0 <= i < cn implies #[trigger] spec_leaf_cell(nv, i)
                == spec_leaf_cell(pv, i) by {
                lemma_cell_agreement(nv, pv, i);
            }
            assert(nv.subrange(spec_cell_offset(cn), spec_cell_offset(cn) + LEAF_NODE_KEY_SIZE as int)
                =~= spec_u32_le_bytes(key));
            assert(spec_leaf_value(nv, cn) =~= value@);
            assert forall|i: int| cn < i <= n implies #[trigger] spec_leaf_cell(nv, i)
                == spec_leaf_cell(pv, i - 1) by {
                lemma_cell_agreement(nv, shifted, i);
            }
        }
        table.pager.put_page(self.page_num, Page { buffer: ln.buffer });
        Ok(())
    }
}

} // verus!
