use leafdb::btree::LeafNode;
use leafdb::constants::{LEAF_NODE_MAX_CELLS, PAGE_SIZE, ROW_SIZE};
use leafdb::pager::{Pager, PagerError};
use leafdb::table::{Table, TableError};
use leafdb::virtual_machine::{deserialize_row, serialize_row, Row};

#[test]
fn serialize_row_layout_is_exact() {
    let row = Row { id: 0x01020304, username: b"ada".to_vec(), email: b"ada@x".to_vec() };
    let buf = serialize_row(&row);
    assert_eq!(buf.len(), ROW_SIZE);
    // The id is little-endian in the first four bytes.
    assert_eq!(&buf[0..4], &[0x04, 0x03, 0x02, 0x01]);
    // The username occupies 32 bytes, zero-padded.
    assert_eq!(&buf[4..7], b"ada");
    assert!(buf[7..36].iter().all(|&b| b == 0));
    // The email occupies 255 bytes, zero-padded.
    assert_eq!(&buf[36..41], b"ada@x");
    assert!(buf[41..291].iter().all(|&b| b == 0));
}

#[test]
fn codec_round_trip_preserves_fields() {
    let row = Row { id: 9, username: b"sam".to_vec(), email: b"sam@example.com".to_vec() };
    let buf = serialize_row(&row);
    let back = deserialize_row(&buf);
    assert_eq!(back.id, 9);
    assert_eq!(&back.username[..3], b"sam");
    assert!(back.username[3..].iter().all(|&b| b == 0));
    assert_eq!(&back.email[..15], b"sam@example.com");
    assert!(back.email[15..].iter().all(|&b| b == 0));
}

#[test]
fn leaf_node_reads_back_what_it_writes() {
    let node = LeafNode::new(vec![0u8; PAGE_SIZE]);
    let mut node = node;
    node.reset_node_num_cells();
    assert_eq!(node.leaf_node_num_cells(), 0);
    node.set_num_cells(2);
    assert_eq!(node.leaf_node_num_cells(), 2);
    node.write_key(0, 77);
    node.write_key(1, 0xDEADBEEF);
    assert_eq!(node.leaf_node_key(0), 77);
    assert_eq!(node.leaf_node_key(1), 0xDEADBEEF);
    let value = vec![7u8; ROW_SIZE];
    node.write_value(1, &value);
    assert_eq!(node.leaf_node_value(1), value);
    // The neighboring key is untouched by the value write.
    assert_eq!(node.leaf_node_key(1), 0xDEADBEEF);
    let cell = node.leaf_node_cell(1);
    assert_eq!(&cell[4..], &value[..]);
}

#[test]
fn leaf_node_max_cells_is_thirteen() {
    assert_eq!(LEAF_NODE_MAX_CELLS, 13);
}

#[test]
fn pager_loads_pages_and_tolerates_short_reads() {
    let mut contents = vec![0u8; PAGE_SIZE];
    contents[0] = 0xAB;
    contents[PAGE_SIZE - 1] = 0xCD;
    let mut pager = Pager::new(contents).expect("page-aligned file opens");
    assert_eq!(pager.num_pages, 1);
    let page = pager.get_page(0).expect("page zero loads");
    assert_eq!(page.buffer[0], 0xAB);
    assert_eq!(page.buffer[PAGE_SIZE - 1], 0xCD);
    // A page past the end of the file reads as zeros and grows the count.
    let fresh = pager.get_page(1).expect("page one allocates");
    assert!(fresh.buffer.iter().all(|&b| b == 0));
    assert_eq!(fresh.buffer.len(), PAGE_SIZE);
    assert_eq!(pager.num_pages, 2);
}

#[test]
fn pager_rejects_pages_beyond_the_ceiling() {
    let mut pager = Pager::new(Vec::new()).expect("an empty file opens");
    assert!(matches!(pager.get_page(101), Err(PagerError::PagesFull)));
    // The boundary page itself is fine.
    assert!(pager.get_page(100).is_ok());
}

#[test]
fn pager_rejects_unaligned_length() {
    assert!(matches!(
        Pager::new(vec![0u8; PAGE_SIZE + 1]),
        Err(PagerError::CorruptFile)
    ));
}

#[test]
fn flush_writes_cached_pages_at_their_offsets() {
    let mut contents = vec![1u8; PAGE_SIZE * 2];
    for b in contents[PAGE_SIZE..].iter_mut() {
        *b = 2;
    }
    let mut pager = Pager::new(contents).expect("two-page file opens");
    let mut page = pager.get_page(1).expect("page one loads");
    page.buffer[0] = 9;
    pager.put_page(1, page);
    let image = pager.flush();
    assert_eq!(image.len(), PAGE_SIZE * 2);
    // Page zero was never touched and keeps its file bytes.
    assert!(image[..PAGE_SIZE].iter().all(|&b| b == 1));
    // Page one carries the cached mutation.
    assert_eq!(image[PAGE_SIZE], 9);
    assert!(image[PAGE_SIZE + 1..].iter().all(|&b| b == 2));
}

#[test]
fn fresh_table_initializes_an_empty_root_leaf() {
    let mut table = Table::new(Vec::new()).expect("an empty file opens");
    assert_eq!(table.root_page_num, 0);
    let cursor = table.start().expect("a start cursor exists");
    assert!(cursor.end_of_table);
    let end = table.end().expect("an end cursor exists");
    assert_eq!(end.cell_num, 0);
    // A fresh table flushes to a single zero page.
    let image = table.close();
    assert_eq!(image.len(), PAGE_SIZE);
    assert!(image.iter().all(|&b| b == 0));
}

#[test]
fn cursor_insert_and_value_round_trip() {
    let mut table = Table::new(Vec::new()).expect("an empty file opens");
    let row = Row { id: 5, username: b"eli".to_vec(), email: b"eli@x".to_vec() };
    let bytes = serialize_row(&row);
    let cursor = table.end().expect("an end cursor exists");
    cursor.insert(&mut table, row.id, &bytes).expect("insert succeeds");
    let cursor = table.start().expect("a start cursor exists");
    assert!(!cursor.end_of_table);
    let slot = cursor.value(&mut table).expect("the value slot reads");
    assert_eq!(slot, bytes);
    let back = deserialize_row(&slot);
    assert_eq!(back.id, 5);
}

#[test]
fn cursor_insert_in_the_middle_shifts_cells() {
    let mut table = Table::new(Vec::new()).expect("an empty file opens");
    let first = serialize_row(&Row { id: 1, username: b"a".to_vec(), email: b"a@x".to_vec() });
    let second = serialize_row(&Row { id: 2, username: b"b".to_vec(), email: b"b@x".to_vec() });
    let end = table.end().expect("an end cursor exists");
    end.insert(&mut table, 2, &second).expect("first insert succeeds");
    // Insert at the start: the existing cell moves one slot right.
    let start = table.start().expect("a start cursor exists");
    start.insert(&mut table, 1, &first).expect("second insert succeeds");
    let mut cursor = table.start().expect("a start cursor exists");
    assert_eq!(cursor.value(&mut table).expect("first slot"), first);
    cursor.advance(&mut table);
    assert_eq!(cursor.value(&mut table).expect("second slot"), second);
    cursor.advance(&mut table);
    assert!(cursor.end_of_table);
}

#[test]
fn cursor_insert_reports_leaf_overflow() {
    let mut table = Table::new(Vec::new()).expect("an empty file opens");
    let bytes = serialize_row(&Row { id: 0, username: b"x".to_vec(), email: b"x@x".to_vec() });
    for i in 0..13u32 {
        let cursor = table.end().expect("an end cursor exists");
        cursor.insert(&mut table, i, &bytes).expect("insert fits");
    }
    let cursor = table.end().expect("an end cursor exists");
    assert!(matches!(
        cursor.insert(&mut table, 13, &bytes),
        Err(TableError::SplitNotImplemented)
    ));
}
