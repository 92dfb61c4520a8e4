//! The B-tree leaf-node view: a typed lens over one page buffer.
//!
//! A leaf page holds a small header (node type, is-root, parent pointer,
//! cell count) followed by an array of fixed-size cells, each a little-endian
//! u32 key and one serialized row as value.

use crate::byteops::{
    copy_range, read_u32_le, spec_u32_le, spec_u32_le_bytes, write_range, write_u32_le,
};
use crate::constants::{
    lemma_constant_values, LEAF_NODE_CELL_SIZE, LEAF_NODE_HEADER_SIZE, LEAF_NODE_KEY_SIZE, LEAF_NODE_MAX_CELLS,
    LEAF_NODE_NUM_CELLS_OFFSET, LEAF_NODE_NUM_CELLS_SIZE, LEAF_NODE_VALUE_SIZE, PAGE_SIZE,
};
use vstd::prelude::*;

verus! {

/// Byte offset of cell `i` in a leaf page.
pub open spec fn spec_cell_offset(i: int) -> int {
    LEAF_NODE_HEADER_SIZE as int + i * (LEAF_NODE_CELL_SIZE as int)
}

/// Number of cells recorded in a leaf page's header.
pub open spec fn spec_leaf_num_cells(page: Seq<u8>) -> u32 {
    spec_u32_le(
        page.subrange(
            LEAF_NODE_NUM_CELLS_OFFSET as int,
            LEAF_NODE_NUM_CELLS_OFFSET as int + LEAF_NODE_NUM_CELLS_SIZE as int,
        ),
    )
}

/// The whole cell `i`: key bytes followed by value bytes.
pub open spec fn spec_leaf_cell(page: Seq<u8>, i: int) -> Seq<u8> {
    page.subrange(spec_cell_offset(i), spec_cell_offset(i) + LEAF_NODE_CELL_SIZE as int)
}

/// The key of cell `i`.
pub open spec fn spec_leaf_key(page: Seq<u8>, i: int) -> u32 {
    spec_u32_le(
        page.subrange(spec_cell_offset(i), spec_cell_offset(i) + LEAF_NODE_KEY_SIZE as int),
    )
}

/// The value of cell `i`: one serialized row.
pub open spec fn spec_leaf_value(page: Seq<u8>, i: int) -> Seq<u8> {
    page.subrange(
        spec_cell_offset(i) + LEAF_NODE_KEY_SIZE as int,
        spec_cell_offset(i) + LEAF_NODE_CELL_SIZE as int,
    )
}

/// Two pages that agree on the bytes of cell `i` agree on the cell, its key
/// and its value.
pub proof fn lemma_cell_agreement(a: Seq<u8>, b: Seq<u8>, i: int)
    requires
        a.len() == PAGE_SIZE,
        b.len() == PAGE_SIZE,
        0 <= i,
        spec_cell_offset(i) + LEAF_NODE_CELL_SIZE as int <= PAGE_SIZE,
        forall|k: int|
            spec_cell_offset(i) <= k < spec_cell_offset(i) + LEAF_NODE_CELL_SIZE as int
                ==> a[k] == b[k],
    ensures
        spec_leaf_cell(a, i) == spec_leaf_cell(b, i),
        spec_leaf_key(a, i) == spec_leaf_key(b, i),
        spec_leaf_value(a, i) == spec_leaf_value(b, i),
{
    assert(spec_leaf_cell(a, i) =~= spec_leaf_cell(b, i));
    assert(a.subrange(spec_cell_offset(i), spec_cell_offset(i) + LEAF_NODE_KEY_SIZE as int)
        =~= b.subrange(spec_cell_offset(i), spec_cell_offset(i) + LEAF_NODE_KEY_SIZE as int));
    assert(spec_leaf_value(a, i) =~= spec_leaf_value(b, i));
}

/// The key and the value of cell `i` are the two parts of its cell bytes.
pub proof fn lemma_cell_parts(page: Seq<u8>, i: int)
    requires
        page.len() == PAGE_SIZE,
        0 <= i,
        spec_cell_offset(i) + LEAF_NODE_CELL_SIZE as int <= PAGE_SIZE,
    ensures
        spec_leaf_key(page, i) == spec_u32_le(
            spec_leaf_cell(page, i).subrange(0, LEAF_NODE_KEY_SIZE as int),
        ),
        spec_leaf_value(page, i) == spec_leaf_cell(page, i).subrange(
            LEAF_NODE_KEY_SIZE as int,
            LEAF_NODE_CELL_SIZE as int,
        ),
{
    assert(spec_leaf_cell(page, i).subrange(0, LEAF_NODE_KEY_SIZE as int) =~= page.subrange(
        spec_cell_offset(i),
        spec_cell_offset(i) + LEAF_NODE_KEY_SIZE as int,
    ));
    assert(spec_leaf_cell(page, i).subrange(LEAF_NODE_KEY_SIZE as int, LEAF_NODE_CELL_SIZE as int)
        =~= spec_leaf_value(page, i));
}

/// A typed lens over one page buffer, interpreting it as a leaf node.
pub struct LeafNode {
    pub buffer: Vec<u8>,
}

impl LeafNode {
    /// The lens covers a full page.
    pub open spec fn wf(&self) -> bool {
        self.buffer@.len() == PAGE_SIZE
    }

    /// Wraps a page buffer.
    pub fn new(buffer: Vec<u8>) -> (node: LeafNode)
        ensures
            node.buffer@ == buffer@,
    {
        LeafNode { buffer }
    }

    /// Writes zero to the cell-count header field.
    pub fn reset_node_num_cells(&mut self)
        requires
            old(self).wf(),
        ensures
            final(self).wf(),
            spec_leaf_num_cells(final(self).buffer@) == 0,
            forall|i: int|
                0 <= i < PAGE_SIZE && !(LEAF_NODE_NUM_CELLS_OFFSET <= i < LEAF_NODE_HEADER_SIZE)
                    ==> final(self).buffer@[i] == old(self).buffer@[i],
    {
        write_u32_le(&mut self.buffer, LEAF_NODE_NUM_CELLS_OFFSET, 0);
    }

    /// Reads the cell count from the header.
    pub fn leaf_node_num_cells(&self) -> (n: u32)
        requires
            self.wf(),
        ensures
            n == spec_leaf_num_cells(self.buffer@),
    {
        read_u32_le(&self.buffer, LEAF_NODE_NUM_CELLS_OFFSET)
    }

    /// Writes the cell count to the header.
    pub fn set_num_cells(&mut self, n: u32)
        requires
            old(self).wf(),
        ensures
            final(self).wf(),
            spec_leaf_num_cells(final(self).buffer@) == n,
            forall|i: int|
                0 <= i < PAGE_SIZE && !(LEAF_NODE_NUM_CELLS_OFFSET <= i < LEAF_NODE_HEADER_SIZE)
                    ==> final(self).buffer@[i] == old(self).buffer@[i],
    {
        write_u32_le(&mut self.buffer, LEAF_NODE_NUM_CELLS_OFFSET, n);
    }

    /// Returns a copy of the bytes of cell `cell_num`.
    pub fn leaf_node_cell(&self, cell_num: usize) -> (cell: Vec<u8>)
        requires
            self.wf(),
            cell_num < LEAF_NODE_MAX_CELLS,
        ensures
            cell@ == spec_leaf_cell(self.buffer@, cell_num as int),
            cell@.len() == LEAF_NODE_CELL_SIZE,
    {
        proof {
            lemma_constant_values();
        }
        copy_range(
            &self.buffer,
            LEAF_NODE_HEADER_SIZE + cell_num * LEAF_NODE_CELL_SIZE,
            LEAF_NODE_CELL_SIZE,
        )
    }

    /// Reads the key of cell `cell_num`.
    pub fn leaf_node_key(&self, cell_num: usize) -> (key: u32)
        requires
            self.wf(),
            cell_num < LEAF_NODE_MAX_CELLS,
        ensures
            key == spec_leaf_key(self.buffer@, cell_num as int),
    {
        proof {
            lemma_constant_values();
        }
        read_u32_le(&self.buffer, LEAF_NODE_HEADER_SIZE + cell_num * LEAF_NODE_CELL_SIZE)
    }

    /// Returns a copy of the value of cell `cell_num`: one serialized row.
    pub fn leaf_node_value(&self, cell_num: usize) -> (value: Vec<u8>)
        requires
            self.wf(),
            cell_num < LEAF_NODE_MAX_CELLS,
        ensures
            value@ == spec_leaf_value(self.buffer@, cell_num as int),
            value@.len() == LEAF_NODE_VALUE_SIZE,
    {
        proof {
            lemma_constant_values();
        }
        copy_range(
            &self.buffer,
            LEAF_NODE_HEADER_SIZE + cell_num * LEAF_NODE_CELL_SIZE + LEAF_NODE_KEY_SIZE,
            LEAF_NODE_VALUE_SIZE,
        )
    }

    /// Overwrites the bytes of cell `cell_num`.
    pub fn write_cell(&mut self, cell_num: usize, cell: &Vec<u8>)
        requires
            old(self).wf(),
            cell_num < LEAF_NODE_MAX_CELLS,
            cell@.len() == LEAF_NODE_CELL_SIZE,
        ensures
            final(self).wf(),
            spec_leaf_cell(final(self).buffer@, cell_num as int) == cell@,
            forall|i: int|
                0 <= i < PAGE_SIZE && !(spec_cell_offset(cell_num as int) <= i < spec_cell_offset(
                    cell_num as int,
                ) + LEAF_NODE_CELL_SIZE as int) ==> final(self).buffer@[i] == old(
                    self,
                ).buffer@[i],
    {
        proof {
            lemma_constant_values();
        }
        write_range(&mut self.buffer, LEAF_NODE_HEADER_SIZE + cell_num * LEAF_NODE_CELL_SIZE, cell);
    }

    /// Overwrites the key of cell `cell_num`.
    pub fn write_key(&mut self, cell_num: usize, key: u32)
        requires
            old(self).wf(),
            cell_num < LEAF_NODE_MAX_CELLS,
        ensures
            final(self).wf(),
            spec_leaf_key(final(self).buffer@, cell_num as int) == key,
            forall|i: int|
                0 <= i < PAGE_SIZE && !(spec_cell_offset(cell_num as int) <= i < spec_cell_offset(
                    cell_num as int,
                ) + LEAF_NODE_KEY_SIZE as int) ==> final(self).buffer@[i] == old(self).buffer@[i],
    {
        proof {
            lemma_constant_values();
        }
        write_u32_le(&mut self.buffer, LEAF_NODE_HEADER_SIZE + cell_num * LEAF_NODE_CELL_SIZE, key);
    }

    /// Overwrites the value of cell `cell_num` with one serialized row.
    pub fn write_value(&mut self, cell_num: usize, value: &Vec<u8>)
        requires
            old(self).wf(),
            cell_num < LEAF_NODE_MAX_CELLS,
            value@.len() == LEAF_NODE_VALUE_SIZE,
        ensures
            final(self).wf(),
            spec_leaf_value(final(self).buffer@, cell_num as int) == value@,
            forall|i: int|
                0 <= i < PAGE_SIZE && !(spec_cell_offset(cell_num as int)
                    + LEAF_NODE_KEY_SIZE as int <= i < spec_cell_offset(cell_num as int)
                    + LEAF_NODE_CELL_SIZE as int) ==> final(self).buffer@[i] == old(
                    self,
                ).buffer@[i],
    {
        proof {
            lemma_constant_values();
        }
        write_range(
            &mut self.buffer,
            LEAF_NODE_HEADER_SIZE + cell_num * LEAF_NODE_CELL_SIZE + LEAF_NODE_KEY_SIZE,
            value,
        );
    }
}

} // verus!

