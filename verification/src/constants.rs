//! Compile-time sizes and offsets for rows, pages and leaf-node layout.
//!
//! All multi-byte integers on disk are little-endian.

use vstd::prelude::*;

verus! {

/// Width of the serialized row id, in bytes.
pub const ID_SIZE: usize = 4;

/// Fixed width of the username field, in bytes.
pub const USERNAME_SIZE: usize = 32;

/// Fixed width of the email field, in bytes.
pub const EMAIL_SIZE: usize = 255;

/// Total width of a serialized row.
pub const ROW_SIZE: usize = ID_SIZE + USERNAME_SIZE + EMAIL_SIZE;

/// Ceiling on cached and file pages.
pub const MAX_PAGES: usize = 100;

/// Size of one page, the unit of file I/O and of cache residency.
pub const PAGE_SIZE: usize = 4096;

/// Byte offset of the row id inside a serialized row.
pub const ID_OFFSET: usize = 0;

/// Byte offset of the username inside a serialized row.
pub const USERNAME_OFFSET: usize = ID_OFFSET + ID_SIZE;

/// Byte offset of the email inside a serialized row.
pub const EMAIL_OFFSET: usize = USERNAME_OFFSET + USERNAME_SIZE;

/// Rows that fit in one page under the flat, headerless layout.
pub const ROWS_PER_PAGE: usize = PAGE_SIZE / ROW_SIZE;

/// Capacity of the flat, headerless layout; kept for reference.
pub const TABLE_MAX_ROWS: usize = ROWS_PER_PAGE * MAX_PAGES;

/// Width of the node-type byte in the common node header.
pub const NODE_TYPE_SIZE: usize = 1;

/// Offset of the node-type byte.
pub const NODE_TYPE_OFFSET: usize = 0;

/// Width of the is-root byte in the common node header.
pub const IS_ROOT_SIZE: usize = 1;

/// Offset of the is-root byte.
pub const IS_ROOT_OFFSET: usize = NODE_TYPE_SIZE;

/// Width of the parent pointer in the common node header.
pub const PARENT_POINTER_SIZE: usize = 4;

/// Offset of the parent pointer.
pub const PARENT_POINTER_OFFSET: usize = IS_ROOT_OFFSET + IS_ROOT_SIZE;

/// Total width of the common node header.
pub const COMMON_NODE_HEADER_SIZE: usize = NODE_TYPE_SIZE + IS_ROOT_SIZE + PARENT_POINTER_SIZE;

/// Width of the cell-count field in the leaf node header.
pub const LEAF_NODE_NUM_CELLS_SIZE: usize = 4;

/// Offset of the cell-count field.
pub const LEAF_NODE_NUM_CELLS_OFFSET: usize = COMMON_NODE_HEADER_SIZE;

/// Total width of the leaf node header.
pub const LEAF_NODE_HEADER_SIZE: usize = COMMON_NODE_HEADER_SIZE + LEAF_NODE_NUM_CELLS_SIZE;

/// Width of a cell's key.
pub const LEAF_NODE_KEY_SIZE: usize = 4;

/// Offset of the key inside a cell.
pub const LEAF_NODE_KEY_OFFSET: usize = 0;

/// Width of a cell's value: one serialized row.
pub const LEAF_NODE_VALUE_SIZE: usize = ROW_SIZE;

/// Offset of the value inside a cell.
pub const LEAF_NODE_VALUE_OFFSET: usize = LEAF_NODE_KEY_OFFSET + LEAF_NODE_KEY_SIZE;

/// Total width of a cell.
pub const LEAF_NODE_CELL_SIZE: usize = LEAF_NODE_KEY_SIZE + LEAF_NODE_VALUE_SIZE;

/// Bytes of a page left for cells after the leaf header.
pub const LEAF_NODE_SPACE_FOR_CELLS: usize = PAGE_SIZE - LEAF_NODE_HEADER_SIZE;

/// Cells that fit in one leaf page.
pub const LEAF_NODE_MAX_CELLS: usize = LEAF_NODE_SPACE_FOR_CELLS / LEAF_NODE_CELL_SIZE;

/// Numeric values of the derived constants, so that proofs can treat
/// products and sums over them as linear arithmetic.
pub proof fn lemma_constant_values()
    ensures
        ID_SIZE == 4,
        USERNAME_SIZE == 32,
        EMAIL_SIZE == 255,
        ROW_SIZE == 291,
        MAX_PAGES == 100,
        PAGE_SIZE == 4096,
        ID_OFFSET == 0,
        USERNAME_OFFSET == 4,
        EMAIL_OFFSET == 36,
        ROWS_PER_PAGE == 14,
        TABLE_MAX_ROWS == 1400,
        COMMON_NODE_HEADER_SIZE == 6,
        LEAF_NODE_NUM_CELLS_OFFSET == 6,
        LEAF_NODE_NUM_CELLS_SIZE == 4,
        LEAF_NODE_HEADER_SIZE == 10,
        LEAF_NODE_KEY_SIZE == 4,
        LEAF_NODE_VALUE_SIZE == 291,
        LEAF_NODE_CELL_SIZE == 295,
        LEAF_NODE_SPACE_FOR_CELLS == 4086,
        LEAF_NODE_MAX_CELLS == 13,
{
}

} // verus!
