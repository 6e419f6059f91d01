use rlocate::mounts::MountEntry;
use rlocate::query::{complete_query, prepare_query, QueryResult};
use rlocate::store::{
    scan_statement, ReplaceSession, StorageError, StoreCommand, StoreReply,
};
use rlocate::traversal::{FileIndex, WalkEntry};
use rlocate::update::{UpdateEvent, UpdateSession, UpdateStep, UpdateSummary};
use rusqlite::Connection;

fn texts(items: &[&str]) -> Vec<String> {
    items.iter().map(|s| s.to_string()).collect()
}

fn filled(paths: &[&str]) -> FileIndex {
    let mut index = FileIndex::new();
    index.record_walk(texts(paths));
    index
}

fn execute(connection: &Connection, command: &StoreCommand) -> StoreReply {
    let outcome = match command {
        StoreCommand::Insert(path) => {
            connection.execute(command.statement(), [path.as_str()]).map(|_| ())
        }
        _ => connection.execute_batch(command.statement()),
    };
    match outcome {
        Ok(()) => StoreReply::Done,
        Err(_) => StoreReply::Failed,
    }
}

fn stored_rows(connection: &Connection) -> Result<Vec<String>, StorageError> {
    let mut statement = match connection.prepare(scan_statement()) {
        Ok(statement) => statement,
        Err(_) => return Err(StorageError::ReadFailed),
    };
    let rows = match statement.query_map([], |row| row.get::<usize, String>(0)) {
        Ok(rows) => rows,
        Err(_) => return Err(StorageError::ReadFailed),
    };
    let mut paths = Vec::new();
    for row in rows {
        match row {
            Ok(path) => paths.push(path),
            Err(_) => return Err(StorageError::ReadFailed),
        }
    }
    Ok(paths)
}

/// Runs a replacement on the database; the command at position `refused`,
/// if any, is not run and reported as failed.
fn replace(
    connection: &Connection,
    paths: &[&str],
    refused: Option<usize>,
) -> Result<(), StorageError> {
    let mut session = ReplaceSession::new(filled(paths));
    let mut position = 0;
    while let Some(command) = session.command() {
        let reply = if refused == Some(position) {
            StoreReply::Failed
        } else {
            execute(connection, &command)
        };
        session.advance(reply);
        position += 1;
    }
    session.outcome().unwrap()
}

#[test]
fn a_database_without_an_index_cannot_be_read() {
    let connection = Connection::open_in_memory().unwrap();
    assert_eq!(stored_rows(&connection), Err(StorageError::ReadFailed));
}

#[test]
fn a_replacement_fills_an_empty_database() {
    let connection = Connection::open_in_memory().unwrap();
    assert_eq!(replace(&connection, &["/b", "/a", "/c"], None), Ok(()));
    assert_eq!(stored_rows(&connection), Ok(texts(&["/b", "/a", "/c"])));
    assert!(connection.is_autocommit());
}

#[test]
fn a_replacement_discards_the_index_from_before() {
    let connection = Connection::open_in_memory().unwrap();
    assert_eq!(replace(&connection, &["/old/1", "/old/2"], None), Ok(()));
    assert_eq!(replace(&connection, &["/new"], None), Ok(()));
    assert_eq!(stored_rows(&connection), Ok(texts(&["/new"])));
    assert_eq!(replace(&connection, &[], None), Ok(()));
    assert_eq!(stored_rows(&connection), Ok(Vec::new()));
}

#[test]
fn a_replacement_that_fails_leaves_the_database_as_it_was() {
    let connection = Connection::open_in_memory().unwrap();
    assert_eq!(replace(&connection, &["/old/1", "/old/2"], None), Ok(()));
    let paths = ["/a", "/b", "/c"];
    for refused in 0..paths.len() + 4 {
        assert_eq!(replace(&connection, &paths, Some(refused)), Err(StorageError::WriteFailed));
        assert_eq!(stored_rows(&connection), Ok(texts(&["/old/1", "/old/2"])));
        assert!(connection.is_autocommit());
    }
    assert_eq!(replace(&connection, &paths, None), Ok(()));
    assert_eq!(stored_rows(&connection), Ok(texts(&["/a", "/b", "/c"])));
}

#[test]
fn a_failure_on_an_empty_database_leaves_it_empty() {
    let connection = Connection::open_in_memory().unwrap();
    for refused in 0..5 {
        assert_eq!(replace(&connection, &["/a"], Some(refused)), Err(StorageError::WriteFailed));
        assert_eq!(stored_rows(&connection), Err(StorageError::ReadFailed));
    }
}

#[test]
fn a_command_that_the_database_refuses_ends_the_session() {
    let connection = Connection::open_in_memory().unwrap();
    connection.execute_batch("BEGIN").unwrap();
    let mut session = ReplaceSession::new(filled(&["/a"]));
    let command = session.command().unwrap();
    assert_eq!(command, StoreCommand::Begin);
    assert_eq!(execute(&connection, &command), StoreReply::Failed);
    session.advance(StoreReply::Failed);
    assert_eq!(session.command(), None);
    assert_eq!(session.outcome(), Some(Err(StorageError::WriteFailed)));
}

#[test]
fn an_update_is_stored_and_found_again() {
    let connection = Connection::open_in_memory().unwrap();
    let mut session = UpdateSession::new();
    let summary = loop {
        let event = match session.step() {
            UpdateStep::ListMounts => UpdateEvent::Mounts(vec![
                MountEntry {
                    path: "/data".to_string(),
                    filesystem_type: "ext4".to_string(),
                    is_virtual: false,
                },
                MountEntry {
                    path: "/proc".to_string(),
                    filesystem_type: "proc".to_string(),
                    is_virtual: true,
                },
            ]),
            UpdateStep::Walk(root) => {
                assert_eq!(root, "/data");
                UpdateEvent::Walked(vec![
                    WalkEntry::Visited("/data".to_string()),
                    WalkEntry::Visited("/data/report.txt".to_string()),
                    WalkEntry::Unreadable,
                    WalkEntry::Visited("/data/notes.md".to_string()),
                    WalkEntry::Visited("/data/REPORT.TXT".to_string()),
                ])
            }
            UpdateStep::Store(command) => UpdateEvent::Store(execute(&connection, &command)),
            UpdateStep::Finished(result) => break result,
        };
        session = session.advance(event);
    };
    assert_eq!(summary, Ok(UpdateSummary { indexed_paths: 4, mounts_processed: 1 }));

    let pattern = prepare_query("report", false, false).unwrap();
    let outcome = complete_query(&pattern, stored_rows(&connection)).unwrap();
    assert_eq!(outcome.expression, "^.*report.*$");
    assert_eq!(outcome.result, QueryResult::Paths(texts(&["/data/report.txt"])));

    let pattern = prepare_query("report", false, true).unwrap();
    let outcome = complete_query(&pattern, stored_rows(&connection)).unwrap();
    assert_eq!(outcome.result, QueryResult::Count(1));

    let pattern = prepare_query("(?i).*report.*", true, false).unwrap();
    let outcome = complete_query(&pattern, stored_rows(&connection)).unwrap();
    assert_eq!(
        outcome.result,
        QueryResult::Paths(texts(&["/data/report.txt", "/data/REPORT.TXT"]))
    );

    let pattern = prepare_query("/data/report", true, false).unwrap();
    let outcome = complete_query(&pattern, stored_rows(&connection)).unwrap();
    assert_eq!(outcome.result, QueryResult::Paths(Vec::new()));

    let pattern = prepare_query("/data/notes\\.md", true, true).unwrap();
    let outcome = complete_query(&pattern, stored_rows(&connection)).unwrap();
    assert_eq!(outcome.result, QueryResult::Count(1));
}
