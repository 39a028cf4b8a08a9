use claude_history::db::{clear_session, has_column, migrate, reset_schema, Change, Table};

fn strings(parts: &[&str]) -> Vec<String> {
    parts.iter().map(|p| p.to_string()).collect()
}

#[test]
fn reset_drops_children_before_parents() {
    assert_eq!(
        reset_schema(),
        vec![
            "DROP TABLE IF EXISTS search_index;",
            "DROP TABLE IF EXISTS content_blocks;",
            "DROP TABLE IF EXISTS messages;",
            "DROP TABLE IF EXISTS events;",
            "DROP TABLE IF EXISTS records;",
            "DROP TABLE IF EXISTS sessions;",
            "DROP TABLE IF EXISTS files;",
        ]
    );
}

#[test]
fn clearing_a_session_takes_children_first() {
    assert_eq!(
        clear_session(),
        vec![
            "DELETE FROM search_index WHERE rowid IN (SELECT id FROM content_blocks WHERE session_id = ?1)",
            "DELETE FROM content_blocks WHERE session_id = ?1",
            "DELETE FROM messages WHERE session_id = ?1",
            "DELETE FROM events WHERE session_id = ?1",
            "DELETE FROM records WHERE session_id = ?1",
        ]
    );
    assert_eq!(Table::Sessions.name(), "sessions");
}

#[test]
fn old_database_gets_the_column_once() {
    let mut columns = strings(&["session_id", "cwd"]);
    assert!(!has_column(&columns, "parent_session_id"));
    let first = migrate(&columns);
    assert_eq!(first.len(), 3);
    assert!(matches!(first[0], Change::AddParent));
    assert!(matches!(first[1], Change::FillParent));
    assert!(matches!(first[2], Change::IndexParent));
    columns.push("parent_session_id".to_string());
    assert!(has_column(&columns, "parent_session_id"));
    let second = migrate(&columns);
    assert_eq!(second.len(), 1);
    assert!(matches!(second[0], Change::IndexParent));
}
