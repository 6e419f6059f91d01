use rlocate::store::{
    scan_statement, ReplaceSession, StorageError, StoreCommand, StoreReply,
};
use rlocate::traversal::FileIndex;

fn index_of(paths: &[&str]) -> FileIndex {
    let mut index = FileIndex::new();
    for path in paths {
        assert!(index.record(path.to_string()));
    }
    index
}

/// A store that keeps what is committed apart from the table of the open
/// transaction.
struct Table {
    committed: Option<Vec<String>>,
    working: Option<Option<Vec<String>>>,
}

fn run_on(table: &mut Table, command: &StoreCommand) {
    match command {
        StoreCommand::Begin => {
            if table.working.is_none() {
                table.working = Some(table.committed.clone());
            }
        }
        StoreCommand::DropTable => match table.working.as_mut() {
            Some(inner) => *inner = None,
            None => table.committed = None,
        },
        StoreCommand::CreateTable => match table.working.as_mut() {
            Some(inner) => *inner = Some(Vec::new()),
            None => table.committed = Some(Vec::new()),
        },
        StoreCommand::Insert(path) => {
            let target = match table.working.as_mut() {
                Some(inner) => inner,
                None => &mut table.committed,
            };
            if let Some(rows) = target.as_mut() {
                rows.push(path.clone());
            }
        }
        StoreCommand::Commit => {
            if let Some(inner) = table.working.take() {
                table.committed = inner;
            }
        }
        StoreCommand::Rollback => table.working = None,
    }
}

/// Runs a session to its end on a table that refuses the command at
/// position `refused`, if any, with `refusal`.
fn replace_on(
    table: &mut Table,
    paths: &[&str],
    refused: Option<usize>,
    refusal: StoreReply,
) -> Result<(), StorageError> {
    let mut session = ReplaceSession::new(index_of(paths));
    let mut position = 0;
    while let Some(command) = session.command() {
        if refused == Some(position) {
            session.advance(refusal);
        } else {
            run_on(table, &command);
            session.advance(StoreReply::Done);
        }
        position += 1;
    }
    session.outcome().unwrap()
}

#[test]
fn a_replacement_runs_in_one_transaction() {
    let mut session = ReplaceSession::new(index_of(&["/a", "/b"]));
    assert_eq!(session.len(), 2);
    let expected = vec![
        StoreCommand::Begin,
        StoreCommand::DropTable,
        StoreCommand::CreateTable,
        StoreCommand::Insert("/a".to_string()),
        StoreCommand::Insert("/b".to_string()),
        StoreCommand::Commit,
    ];
    for command in expected {
        assert_eq!(session.outcome(), None);
        assert_eq!(session.command(), Some(command));
        session.advance(StoreReply::Done);
    }
    assert_eq!(session.command(), None);
    assert_eq!(session.outcome(), Some(Ok(())));
}

#[test]
fn an_empty_index_is_stored_as_an_empty_table() {
    let mut session = ReplaceSession::new(FileIndex::new());
    for command in [
        StoreCommand::Begin,
        StoreCommand::DropTable,
        StoreCommand::CreateTable,
        StoreCommand::Commit,
    ] {
        assert_eq!(session.command(), Some(command));
        session.advance(StoreReply::Done);
    }
    assert_eq!(session.outcome(), Some(Ok(())));
}

#[test]
fn a_failed_insertion_is_rolled_back() {
    let mut session = ReplaceSession::new(index_of(&["/a", "/b"]));
    for _ in 0..4 {
        session.advance(StoreReply::Done);
    }
    assert_eq!(session.command(), Some(StoreCommand::Insert("/b".to_string())));
    session.advance(StoreReply::Failed);
    assert_eq!(session.outcome(), None);
    assert_eq!(session.command(), Some(StoreCommand::Rollback));
    session.advance(StoreReply::Done);
    assert_eq!(session.command(), None);
    assert_eq!(session.outcome(), Some(Err(StorageError::WriteFailed)));
}

#[test]
fn a_busy_store_ends_the_session_at_once() {
    let mut session = ReplaceSession::new(index_of(&["/a"]));
    assert_eq!(session.command(), Some(StoreCommand::Begin));
    session.advance(StoreReply::Busy);
    assert_eq!(session.command(), None);
    assert_eq!(session.outcome(), Some(Err(StorageError::Busy)));
}

#[test]
fn a_refused_opening_needs_no_rollback() {
    let mut session = ReplaceSession::new(index_of(&["/a"]));
    session.advance(StoreReply::Failed);
    assert_eq!(session.command(), None);
    assert_eq!(session.outcome(), Some(Err(StorageError::WriteFailed)));
}

#[test]
fn a_busy_commit_is_rolled_back() {
    let mut session = ReplaceSession::new(index_of(&["/a"]));
    for _ in 0..4 {
        session.advance(StoreReply::Done);
    }
    assert_eq!(session.command(), Some(StoreCommand::Commit));
    session.advance(StoreReply::Busy);
    assert_eq!(session.command(), Some(StoreCommand::Rollback));
    session.advance(StoreReply::Failed);
    assert_eq!(session.outcome(), Some(Err(StorageError::Busy)));
}

#[test]
fn replies_after_the_end_change_nothing() {
    let mut session = ReplaceSession::new(FileIndex::new());
    for _ in 0..4 {
        session.advance(StoreReply::Done);
    }
    assert_eq!(session.outcome(), Some(Ok(())));
    session.advance(StoreReply::Failed);
    session.advance(StoreReply::Busy);
    session.advance(StoreReply::Done);
    assert_eq!(session.outcome(), Some(Ok(())));
    assert_eq!(session.command(), None);

    let mut session = ReplaceSession::new(FileIndex::new());
    session.advance(StoreReply::Busy);
    session.advance(StoreReply::Done);
    assert_eq!(session.outcome(), Some(Err(StorageError::Busy)));
}

#[test]
fn the_commands_are_written_for_one_table() {
    assert_eq!(StoreCommand::Begin.statement(), "BEGIN IMMEDIATE");
    assert_eq!(StoreCommand::DropTable.statement(), "DROP TABLE IF EXISTS FILES");
    assert_eq!(StoreCommand::CreateTable.statement(), "CREATE TABLE FILES(PATH TEXT)");
    assert_eq!(
        StoreCommand::Insert("/a".to_string()).statement(),
        "INSERT INTO FILES (PATH) VALUES(?1)"
    );
    assert_eq!(StoreCommand::Commit.statement(), "COMMIT");
    assert_eq!(StoreCommand::Rollback.statement(), "ROLLBACK");
    assert_eq!(scan_statement(), "SELECT PATH FROM FILES ORDER BY ROWID");
}

#[test]
fn a_completed_replacement_shows_the_new_index() {
    let mut table = Table { committed: Some(vec!["/old".to_string()]), working: None };
    assert_eq!(replace_on(&mut table, &["/a", "/b", "/c"], None, StoreReply::Done), Ok(()));
    assert_eq!(
        table.committed,
        Some(vec!["/a".to_string(), "/b".to_string(), "/c".to_string()])
    );
    assert_eq!(table.working, None);

    let mut table = Table { committed: None, working: None };
    assert_eq!(replace_on(&mut table, &[], None, StoreReply::Done), Ok(()));
    assert_eq!(table.committed, Some(Vec::new()));
}

#[test]
fn an_interrupted_replacement_leaves_the_previous_index() {
    let before = Some(vec!["/old/1".to_string(), "/old/2".to_string()]);
    let paths = ["/a", "/b", "/c"];
    for refused in 0..paths.len() + 4 {
        for refusal in [StoreReply::Failed, StoreReply::Busy] {
            let mut table = Table { committed: before.clone(), working: None };
            let outcome = replace_on(&mut table, &paths, Some(refused), refusal);
            let expected = if refusal == StoreReply::Busy {
                StorageError::Busy
            } else {
                StorageError::WriteFailed
            };
            assert_eq!(outcome, Err(expected));
            assert_eq!(table.committed, before);
            assert_eq!(table.working, None);
        }
    }
}

#[test]
fn readers_see_the_previous_index_until_the_commit() {
    let before = Some(vec!["/old".to_string()]);
    let mut table = Table { committed: before.clone(), working: None };
    let mut session = ReplaceSession::new(index_of(&["/a", "/b"]));
    while let Some(command) = session.command() {
        assert_eq!(table.committed, before);
        run_on(&mut table, &command);
        session.advance(StoreReply::Done);
    }
    assert_eq!(table.committed, Some(vec!["/a".to_string(), "/b".to_string()]));
}
