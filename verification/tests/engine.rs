use leafdb::table::{Table, TableError};
use leafdb::pager::PagerError;
use leafdb::virtual_machine::{
    prepare_statement, ResultRow, Row, Statement, VMErr, VMResult, VirtualMachine,
};

fn open_vm(contents: Vec<u8>) -> VirtualMachine {
    let table = Table::new(contents).expect("could not create table");
    VirtualMachine { table }
}

fn run(vm: &mut VirtualMachine, line: &str) -> Result<VMResult, VMErr> {
    let statement = prepare_statement(line).expect("statement should parse");
    vm.execute_statement(statement)
}

fn select_rows(vm: &mut VirtualMachine) -> Vec<ResultRow> {
    match run(vm, "select") {
        Ok(VMResult::Rows(rows)) => rows,
        other => panic!("select did not return rows: {:?}", other),
    }
}

#[test]
fn database_inserts_and_retrieves_a_row() {
    let mut vm = open_vm(Vec::new());
    let result = run(&mut vm, "insert 1 user1 person1@example.com");
    assert!(matches!(result, Ok(VMResult::Success)));
    let rows = select_rows(&mut vm);
    assert_eq!(rows.len(), 1);
    assert_eq!(rows[0].id, 1);
    assert_eq!(rows[0].trimmed_username(), b"user1".to_vec());
    assert_eq!(rows[0].trimmed_email(), b"person1@example.com".to_vec());
}

#[test]
fn prints_error_message_when_table_is_full() {
    // In the single-leaf layout the capacity boundary is 13 rows; the
    // 14th insert must report a full table.
    let mut vm = open_vm(Vec::new());
    for i in 1..=13u32 {
        let line = format!("insert {} user{} person{}@example.com", i, i, i);
        let result = run(&mut vm, &line);
        assert!(matches!(result, Ok(VMResult::Success)), "insert {} failed", i);
    }
    let result = run(&mut vm, "insert 14 user14 person14@example.com");
    assert!(matches!(result, Err(VMErr::TableFull)));
    // The failed insert altered nothing.
    let rows = select_rows(&mut vm);
    assert_eq!(rows.len(), 13);
    for (k, row) in rows.iter().enumerate() {
        assert_eq!(row.id, (k + 1) as u32);
    }
}

#[test]
fn allows_inserting_and_selecting_strings_that_are_the_max_length() {
    let username: String = "a".repeat(32);
    let email: String = "a".repeat(255);
    let mut vm = open_vm(Vec::new());
    let line = format!("insert 1 {} {}", username, email);
    let result = run(&mut vm, &line);
    assert!(matches!(result, Ok(VMResult::Success)));
    let rows = select_rows(&mut vm);
    assert_eq!(rows.len(), 1);
    assert_eq!(rows[0].trimmed_username(), username.as_bytes().to_vec());
    assert_eq!(rows[0].trimmed_email(), email.as_bytes().to_vec());
}

#[test]
fn keeps_data_after_closing_connection() {
    // Run 1: insert one row, then shut down cleanly.
    let mut vm = open_vm(Vec::new());
    let result = run(&mut vm, "insert 1 user1 person1@example.com");
    assert!(matches!(result, Ok(VMResult::Success)));
    let image = vm.table.close();
    assert_eq!(image.len() % 4096, 0);
    // Run 2 over the same file: the row is still there.
    let mut vm2 = open_vm(image);
    let rows = select_rows(&mut vm2);
    assert_eq!(rows.len(), 1);
    assert_eq!(rows[0].id, 1);
    assert_eq!(rows[0].trimmed_username(), b"user1".to_vec());
    assert_eq!(rows[0].trimmed_email(), b"person1@example.com".to_vec());
}

#[test]
fn insert_at_exact_capacity_succeeds() {
    let mut vm = open_vm(Vec::new());
    for i in 1..=12u32 {
        let line = format!("insert {} u{} e{}", i, i, i);
        assert!(matches!(run(&mut vm, &line), Ok(VMResult::Success)));
    }
    // The 13th row fills the leaf exactly and still succeeds.
    assert!(matches!(
        run(&mut vm, "insert 13 u13 e13"),
        Ok(VMResult::Success)
    ));
    let rows = select_rows(&mut vm);
    assert_eq!(rows.len(), 13);
    assert_eq!(rows[12].id, 13);
    assert_eq!(rows[12].trimmed_username(), b"u13".to_vec());
}

#[test]
fn select_on_empty_table_returns_no_rows() {
    let mut vm = open_vm(Vec::new());
    let rows = select_rows(&mut vm);
    assert_eq!(rows.len(), 0);
}

#[test]
fn select_preserves_insertion_order() {
    let mut vm = open_vm(Vec::new());
    for (i, name) in [(7u32, "gamma"), (3u32, "alpha"), (5u32, "beta")].iter() {
        let line = format!("insert {} {} {}@example.com", i, name, name);
        assert!(matches!(run(&mut vm, &line), Ok(VMResult::Success)));
    }
    let rows = select_rows(&mut vm);
    assert_eq!(rows.len(), 3);
    assert_eq!(rows[0].id, 7);
    assert_eq!(rows[0].trimmed_username(), b"gamma".to_vec());
    assert_eq!(rows[1].id, 3);
    assert_eq!(rows[1].trimmed_username(), b"alpha".to_vec());
    assert_eq!(rows[2].id, 5);
    assert_eq!(rows[2].trimmed_username(), b"beta".to_vec());
}

#[test]
fn corrupt_file_length_rejected() {
    // A file whose size is not a multiple of the page size does not open.
    let result = Table::new(vec![0u8; 100]);
    assert!(matches!(
        result,
        Err(TableError::Pager(PagerError::CorruptFile))
    ));
}

#[test]
fn full_table_error_preserved_after_reopen() {
    let mut vm = open_vm(Vec::new());
    for i in 1..=13u32 {
        let line = format!("insert {} u{} e{}", i, i, i);
        assert!(matches!(run(&mut vm, &line), Ok(VMResult::Success)));
    }
    let image = vm.table.close();
    let mut vm2 = open_vm(image);
    let result = run(&mut vm2, "insert 14 u14 e14");
    assert!(matches!(result, Err(VMErr::TableFull)));
    assert_eq!(select_rows(&mut vm2).len(), 13);
}

#[test]
fn direct_insert_statement_appends_padded_row() {
    let mut vm = open_vm(Vec::new());
    let row = Row { id: 42, username: b"zoe".to_vec(), email: b"z@e".to_vec() };
    let result = vm.execute_statement(Statement::Insert { row });
    assert!(matches!(result, Ok(VMResult::Success)));
    let rows = select_rows(&mut vm);
    assert_eq!(rows.len(), 1);
    assert_eq!(rows[0].id, 42);
    // Stored fields come back padded to their fixed widths.
    assert_eq!(rows[0].username.len(), 32);
    assert_eq!(rows[0].email.len(), 255);
    assert_eq!(&rows[0].username[..3], b"zoe");
    assert!(rows[0].username[3..].iter().all(|&b| b == 0));
    assert_eq!(rows[0].trimmed_username(), b"zoe".to_vec());
    assert_eq!(rows[0].trimmed_email(), b"z@e".to_vec());
}
