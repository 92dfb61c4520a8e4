use leafdb::repl::{meta_command, repl_action, MetaCommand, ReplAction};
use leafdb::virtual_machine::{prepare_statement, Statement, StatementError};

fn parsed_insert(line: &str) -> (u32, Vec<u8>, Vec<u8>) {
    match prepare_statement(line) {
        Ok(Statement::Insert { row }) => (row.id, row.username, row.email),
        other => panic!("expected an insert statement, got {:?}", other.map(|_| ())),
    }
}

#[test]
fn prints_error_messages_if_strings_are_too_long() {
    let username: String = "a".repeat(33);
    let email: String = "a".repeat(256);
    let line = format!("insert 1 {} {}", username, email);
    let result = prepare_statement(&line);
    assert!(matches!(result, Err(StatementError::TooLong)));
}

#[test]
fn prints_error_messages_if_id_is_negative() {
    let result = prepare_statement("insert -1 a a");
    assert!(matches!(result, Err(StatementError::InvalidId)));
}

#[test]
fn username_just_over_limit_rejected() {
    let username: String = "a".repeat(33);
    let line = format!("insert 1 {} ok@example.com", username);
    assert!(matches!(
        prepare_statement(&line),
        Err(StatementError::TooLong)
    ));
}

#[test]
fn email_just_over_limit_rejected() {
    let email: String = "a".repeat(256);
    let line = format!("insert 1 ok {}", email);
    assert!(matches!(
        prepare_statement(&line),
        Err(StatementError::TooLong)
    ));
}

#[test]
fn insert_statement_parses_fields() {
    let (id, username, email) = parsed_insert("insert 7 kim kim@example.com");
    assert_eq!(id, 7);
    assert_eq!(username, b"kim".to_vec());
    assert_eq!(email, b"kim@example.com".to_vec());
}

#[test]
fn insert_with_extra_tokens_ignores_the_rest() {
    let (id, username, email) = parsed_insert("insert 2 bo bo@x extra tokens");
    assert_eq!(id, 2);
    assert_eq!(username, b"bo".to_vec());
    assert_eq!(email, b"bo@x".to_vec());
}

#[test]
fn insert_with_missing_fields_rejected() {
    assert!(matches!(
        prepare_statement("insert 1 onlyname"),
        Err(StatementError::Sql)
    ));
    assert!(matches!(prepare_statement("insert"), Err(StatementError::Sql)));
}

#[test]
fn unknown_verb_rejected() {
    assert!(matches!(
        prepare_statement("delete 1"),
        Err(StatementError::Sql)
    ));
    assert!(matches!(prepare_statement(""), Err(StatementError::Sql)));
}

#[test]
fn select_statement_parses() {
    assert!(matches!(prepare_statement("select"), Ok(Statement::Select)));
    // As in the original, anything starting with the verb is a select.
    assert!(matches!(
        prepare_statement("select anything"),
        Ok(Statement::Select)
    ));
}

#[test]
fn doubled_space_makes_an_empty_id_token() {
    // `split(' ')` yields an empty token between two spaces, so the id
    // token is empty and does not parse.
    assert!(matches!(
        prepare_statement("insert  1 a a"),
        Err(StatementError::InvalidId)
    ));
}

#[test]
fn plus_prefixed_id_accepted() {
    // `str::parse::<u32>` accepts a leading plus sign.
    let (id, _, _) = parsed_insert("insert +12 a b");
    assert_eq!(id, 12);
}

#[test]
fn id_at_u32_bounds() {
    let (id, _, _) = parsed_insert("insert 4294967295 a b");
    assert_eq!(id, u32::MAX);
    assert!(matches!(
        prepare_statement("insert 4294967296 a b"),
        Err(StatementError::InvalidId)
    ));
    assert!(matches!(
        prepare_statement("insert 12x a b"),
        Err(StatementError::InvalidId)
    ));
    assert!(matches!(
        prepare_statement("insert  a b c"),
        Err(StatementError::InvalidId)
    ));
}

#[test]
fn exit_is_a_meta_command() {
    assert!(matches!(meta_command(".exit"), MetaCommand::Exit));
    assert!(matches!(meta_command(".quit"), MetaCommand::Unsupported));
}

#[test]
fn repl_action_classifies_lines() {
    assert!(matches!(repl_action(".exit"), ReplAction::Exit));
    assert!(matches!(
        repl_action(".help"),
        ReplAction::Unsupported { original_input: ".help" }
    ));
    match repl_action("insert 1 a b") {
        ReplAction::Statement { original_input } => assert_eq!(original_input, "insert 1 a b"),
        _ => panic!("a plain line is a statement"),
    }
    match repl_action("") {
        ReplAction::Statement { original_input } => assert_eq!(original_input, ""),
        _ => panic!("an empty line is handed to the parser"),
    }
}
