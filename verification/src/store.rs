//! The index store: how the persisted index is replaced as a whole.
//!
//! The store itself lives outside this crate. A `ReplaceSession` says which
//! command the store is to run next and takes the store's reply; it keeps
//! every change inside one transaction, so that readers see the previous
//! index until the new one is committed, and the previous one again after
//! any failure.
//!
//! The index is one table, `FILES`, with one text column, `PATH`.

use vstd::prelude::*;
use crate::traversal::FileIndex;

verus! {

/// One command to the store.
#[derive(Debug, PartialEq, Eq)]
pub enum StoreCommand {
    Begin,
    DropTable,
    CreateTable,
    Insert(String),
    Commit,
    Rollback,
}

/// A store command as plain values.
pub ghost enum CommandView {
    Begin,
    DropTable,
    CreateTable,
    Insert(Seq<char>),
    Commit,
    Rollback,
}

impl View for StoreCommand {
    type V = CommandView;

    open spec fn view(&self) -> CommandView {
        match self {
            StoreCommand::Begin => CommandView::Begin,
            StoreCommand::DropTable => CommandView::DropTable,
            StoreCommand::CreateTable => CommandView::CreateTable,
            StoreCommand::Insert(path) => CommandView::Insert(path@),
            StoreCommand::Commit => CommandView::Commit,
            StoreCommand::Rollback => CommandView::Rollback,
        }
    }
}

/// What the store answered to a command.
#[derive(Clone, Copy, Debug, PartialEq, Eq, Structural)]
pub enum StoreReply {
    /// The command took effect.
    Done,
    /// The command failed and changed nothing.
    Failed,
    /// Another writer holds the store; the command changed nothing.
    Busy,
}

/// Why the store could not be written or read.
#[derive(Clone, Copy, Debug, PartialEq, Eq, Structural)]
pub enum StorageError {
    WriteFailed,
    ReadFailed,
    Busy,
}

/// Where a replacement stands.
#[derive(Clone, Copy, Debug, PartialEq, Eq, Structural)]
pub enum Stage {
    /// The transaction is to be opened.
    Begin,
    /// The previous table is to be dropped.
    DropTable,
    /// The new table is to be created.
    CreateTable,
    /// The path at this position is to be inserted.
    Insert(usize),
    /// The transaction is to be committed.
    Commit,
    /// The transaction is to be rolled back after this error.
    Rollback(StorageError),
    /// The new index is stored.
    Stored,
    /// The replacement was given up; the previous index stands.
    GivenUp(StorageError),
}

/// A replacement as plain values: the paths to store and the stage reached.
pub ghost struct SessionView {
    pub paths: Seq<Seq<char>>,
    pub stage: Stage,
}

/// The session at its start.
pub open spec fn starting(paths: Seq<Seq<char>>) -> SessionView {
    SessionView { paths, stage: Stage::Begin }
}

/// The stage is one that the session's paths allow, and the paths can be
/// counted.
pub open spec fn in_range(session: SessionView) -> bool {
    &&& session.paths.len() <= usize::MAX
    &&& session.stage matches Stage::Insert(position) ==> position < session.paths.len()
}

/// The command that the store is to run next, if any is left.
pub open spec fn command_of(session: SessionView) -> Option<CommandView> {
    match session.stage {
        Stage::Begin => Some(CommandView::Begin),
        Stage::DropTable => Some(CommandView::DropTable),
        Stage::CreateTable => Some(CommandView::CreateTable),
        Stage::Insert(position) => Some(CommandView::Insert(session.paths[position as int])),
        Stage::Commit => Some(CommandView::Commit),
        Stage::Rollback(_) => Some(CommandView::Rollback),
        Stage::Stored => None,
        Stage::GivenUp(_) => None,
    }
}

/// The error that a reply other than `Done` stands for.
pub open spec fn error_of(reply: StoreReply) -> StorageError {
    if reply == StoreReply::Busy {
        StorageError::Busy
    } else {
        StorageError::WriteFailed
    }
}

/// The stage after a command went through.
pub open spec fn stage_after_done(session: SessionView) -> Stage {
    match session.stage {
        Stage::Begin => Stage::DropTable,
        Stage::DropTable => Stage::CreateTable,
        Stage::CreateTable => if session.paths.len() == 0 {
            Stage::Commit
        } else {
            Stage::Insert(0)
        },
        Stage::Insert(position) => if position + 1 < session.paths.len() {
            Stage::Insert((position + 1) as usize)
        } else {
            Stage::Commit
        },
        Stage::Commit => Stage::Stored,
        Stage::Rollback(error) => Stage::GivenUp(error),
        Stage::Stored => Stage::Stored,
        Stage::GivenUp(error) => Stage::GivenUp(error),
    }
}

/// The stage after a command did not go through. Before the transaction is
/// open there is nothing to roll back; once a rollback was asked for, the
/// session ends whatever the store says.
pub open spec fn stage_after_refusal(session: SessionView, error: StorageError) -> Stage {
    match session.stage {
        Stage::Begin => Stage::GivenUp(error),
        Stage::Rollback(earlier) => Stage::GivenUp(earlier),
        Stage::Stored => Stage::Stored,
        Stage::GivenUp(earlier) => Stage::GivenUp(earlier),
        _ => Stage::Rollback(error),
    }
}

/// The session after the store's reply to its command.
pub open spec fn after_reply(session: SessionView, reply: StoreReply) -> SessionView {
    SessionView {
        paths: session.paths,
        stage: if reply == StoreReply::Done {
            stage_after_done(session)
        } else {
            stage_after_refusal(session, error_of(reply))
        },
    }
}

/// How the replacement ended, once it has.
pub open spec fn outcome_of(session: SessionView) -> Option<Result<(), StorageError>> {
    match session.stage {
        Stage::Stored => Some(Ok(())),
        Stage::GivenUp(error) => Some(Err(error)),
        _ => None,
    }
}

/// The text of a command in the store's language. An insertion binds its
/// path to the one parameter.
pub open spec fn statement_of(command: CommandView) -> Seq<char> {
    match command {
        CommandView::Begin => "BEGIN IMMEDIATE"@,
        CommandView::DropTable => "DROP TABLE IF EXISTS FILES"@,
        CommandView::CreateTable => "CREATE TABLE FILES(PATH TEXT)"@,
        CommandView::Insert(_) => "INSERT INTO FILES (PATH) VALUES(?1)"@,
        CommandView::Commit => "COMMIT"@,
        CommandView::Rollback => "ROLLBACK"@,
    }
}

impl StoreCommand {
    /// The text of the command in the store's language.
    pub fn statement(&self) -> (text: &'static str)
        ensures
            text@ == statement_of(self@),
    {
        match self {
            StoreCommand::Begin => "BEGIN IMMEDIATE",
            StoreCommand::DropTable => "DROP TABLE IF EXISTS FILES",
            StoreCommand::CreateTable => "CREATE TABLE FILES(PATH TEXT)",
            StoreCommand::Insert(_) => "INSERT INTO FILES (PATH) VALUES(?1)",
            StoreCommand::Commit => "COMMIT",
            StoreCommand::Rollback => "ROLLBACK",
        }
    }
}

/// The text that reads the whole index, in insertion order.
pub fn scan_statement() -> (text: &'static str)
    ensures
        text@ == "SELECT PATH FROM FILES ORDER BY ROWID"@,
{
    "SELECT PATH FROM FILES ORDER BY ROWID"
}

/// One replacement of the stored index, command by command.
#[derive(Debug)]
pub struct ReplaceSession {
    paths: Vec<String>,
    stage: Stage,
}

impl View for ReplaceSession {
    type V = SessionView;

    closed spec fn view(&self) -> SessionView {
        SessionView { paths: self.paths.deep_view(), stage: self.stage }
    }
}

impl ReplaceSession {
    #[verifier::type_invariant]
    spec fn wf(self) -> bool {
        in_range(self@)
    }

    /// A session that will store the paths of `index` in place of whatever
    /// the store holds.
    pub fn new(index: FileIndex) -> (session: ReplaceSession)
        ensures
            session@ == starting(index@),
            in_range(session@),
    {
        let paths = index.into_paths();
        assert(paths.deep_view().len() == paths.len());
        ReplaceSession { paths, stage: Stage::Begin }
    }

    /// The command that the store is to run next; none once the session has
    /// ended.
    pub fn command(&self) -> (command: Option<StoreCommand>)
        ensures
            in_range(self@),
            match command {
                Some(next) => command_of(self@) == Some(next@),
                None => command_of(self@) is None,
            },
    {
        proof {
            use_type_invariant(self);
        }
        match self.stage {
            Stage::Begin => Some(StoreCommand::Begin),
            Stage::DropTable => Some(StoreCommand::DropTable),
            Stage::CreateTable => Some(StoreCommand::CreateTable),
            Stage::Insert(position) => Some(StoreCommand::Insert(self.paths[position].clone())),
            Stage::Commit => Some(StoreCommand::Commit),
            Stage::Rollback(_) => Some(StoreCommand::Rollback),
            Stage::Stored => None,
            Stage::GivenUp(_) => None,
        }
    }

    /// Takes the store's reply to the command last handed out.
    pub fn advance(&mut self, reply: StoreReply)
        ensures
            final(self)@ == after_reply(old(self)@, reply),
            in_range(final(self)@),
    {
        proof {
            use_type_invariant(&*self);
        }
        let count = self.paths.len();
        let next = match reply {
            StoreReply::Done => match self.stage {
                Stage::Begin => Stage::DropTable,
                Stage::DropTable => Stage::CreateTable,
                Stage::CreateTable => if count == 0 {
                    Stage::Commit
                } else {
                    Stage::Insert(0)
                },
                Stage::Insert(position) => if position + 1 < count {
                    Stage::Insert(position + 1)
                } else {
                    Stage::Commit
                },
                Stage::Commit => Stage::Stored,
                Stage::Rollback(error) => Stage::GivenUp(error),
                Stage::Stored => Stage::Stored,
                Stage::GivenUp(error) => Stage::GivenUp(error),
            },
            _ => {
                let error = match reply {
                    StoreReply::Busy => StorageError::Busy,
                    _ => StorageError::WriteFailed,
                };
                match self.stage {
                    Stage::Begin => Stage::GivenUp(error),
                    Stage::Rollback(earlier) => Stage::GivenUp(earlier),
                    Stage::Stored => Stage::Stored,
                    Stage::GivenUp(earlier) => Stage::GivenUp(earlier),
                    _ => Stage::Rollback(error),
                }
            },
        };
        self.stage = next;
    }

    /// How the replacement ended; nothing while commands are left.
    pub fn outcome(&self) -> (outcome: Option<Result<(), StorageError>>)
        ensures
            outcome == outcome_of(self@),
    {
        match self.stage {
            Stage::Stored => Some(Ok(())),
            Stage::GivenUp(error) => Some(Err(error)),
            _ => None,
        }
    }

    /// The number of paths that the session stores.
    pub fn len(&self) -> (n: usize)
        ensures
            n == self@.paths.len(),
            in_range(self@),
    {
        proof {
            use_type_invariant(self);
        }
        self.paths.len()
    }
}

/// A store that honours transactions, as this crate takes it to behave:
/// what is committed, which readers see, and the writer's own table while
/// a transaction is open. A table may be missing.
pub ghost struct StoreModel {
    pub committed: Option<Seq<Seq<char>>>,
    pub working: Option<Option<Seq<Seq<char>>>>,
}

/// A store with these contents and no transaction open.
pub open spec fn idle(contents: Option<Seq<Seq<char>>>) -> StoreModel {
    StoreModel { committed: contents, working: None }
}

/// A table after one more row; a missing table takes none.
pub open spec fn with_row(table: Option<Seq<Seq<char>>>, path: Seq<char>) -> Option<
    Seq<Seq<char>>,
> {
    match table {
        Some(rows) => Some(rows.push(path)),
        None => None,
    }
}

/// The store after a command that went through. Inside a transaction a
/// command changes the writer's table alone; outside of one it changes what
/// is committed at once.
pub open spec fn apply(store: StoreModel, command: CommandView) -> StoreModel {
    match command {
        CommandView::Begin => match store.working {
            Some(_) => store,
            None => StoreModel { committed: store.committed, working: Some(store.committed) },
        },
        CommandView::DropTable => match store.working {
            Some(_) => StoreModel { committed: store.committed, working: Some(None) },
            None => StoreModel { committed: None, working: None },
        },
        CommandView::CreateTable => match store.working {
            Some(_) => StoreModel { committed: store.committed, working: Some(Some(Seq::empty())) },
            None => StoreModel { committed: Some(Seq::empty()), working: None },
        },
        CommandView::Insert(path) => match store.working {
            Some(table) => StoreModel {
                committed: store.committed,
                working: Some(with_row(table, path)),
            },
            None => StoreModel { committed: with_row(store.committed, path), working: None },
        },
        CommandView::Commit => match store.working {
            Some(table) => StoreModel { committed: table, working: None },
            None => store,
        },
        CommandView::Rollback => StoreModel { committed: store.committed, working: None },
    }
}

/// A session together with the store it talks to.
pub ghost struct Progress {
    pub session: SessionView,
    pub store: StoreModel,
}

/// A session at its start, before a store with these contents.
pub open spec fn at_start(paths: Seq<Seq<char>>, before: Option<Seq<Seq<char>>>) -> Progress {
    Progress { session: starting(paths), store: idle(before) }
}

/// One exchange: the store runs the session's command and replies. A
/// command that did not go through changed nothing.
pub open spec fn exchange(progress: Progress, reply: StoreReply) -> Progress {
    Progress {
        session: after_reply(progress.session, reply),
        store: match command_of(progress.session) {
            Some(command) => if reply == StoreReply::Done {
                apply(progress.store, command)
            } else {
                progress.store
            },
            None => progress.store,
        },
    }
}

/// The exchanges that a sequence of replies leads through.
pub open spec fn run(start: Progress, replies: Seq<StoreReply>) -> Progress
    decreases replies.len(),
{
    if replies.len() == 0 {
        start
    } else {
        exchange(run(start, replies.drop_last()), replies.last())
    }
}

/// What holds between a session and its store at every stage, given what
/// the store held before.
pub open spec fn consistent(progress: Progress, before: Option<Seq<Seq<char>>>) -> bool {
    let paths = progress.session.paths;
    let store = progress.store;
    match progress.session.stage {
        Stage::Begin => store == idle(before),
        Stage::DropTable => store.committed == before && store.working == Some(before),
        Stage::CreateTable => store.committed == before && store.working == Some(
            None::<Seq<Seq<char>>>,
        ),
        Stage::Insert(position) => position < paths.len() && store.committed == before
            && store.working == Some(Some(paths.take(position as int))),
        Stage::Commit => store.committed == before && store.working == Some(Some(paths)),
        Stage::Rollback(_) => store.committed == before,
        Stage::Stored => store == idle(Some(paths)),
        Stage::GivenUp(_) => store.committed == before,
    }
}

/// One exchange keeps session and store consistent.
pub proof fn lemma_exchange_keeps_consistent(
    progress: Progress,
    before: Option<Seq<Seq<char>>>,
    reply: StoreReply,
)
    requires
        progress.session.paths.len() <= usize::MAX,
        consistent(progress, before),
    ensures
        consistent(exchange(progress, reply), before),
{
    let paths = progress.session.paths;
    if reply == StoreReply::Done {
        match progress.session.stage {
            Stage::CreateTable => {
                assert(paths.take(0) =~= Seq::<Seq<char>>::empty());
                if paths.len() == 0 {
                    assert(paths =~= Seq::<Seq<char>>::empty());
                }
            },
            Stage::Insert(position) => {
                assert(paths.take(position as int).push(paths[position as int]) =~= paths.take(
                    position + 1,
                ));
                if position + 1 >= paths.len() {
                    assert(paths.take(position + 1) =~= paths);
                }
            },
            _ => {},
        }
    }
}

/// Whatever the store replies, session and store stay consistent.
pub proof fn lemma_run_keeps_consistent(
    paths: Seq<Seq<char>>,
    before: Option<Seq<Seq<char>>>,
    replies: Seq<StoreReply>,
)
    requires
        paths.len() <= usize::MAX,
    ensures
        run(at_start(paths, before), replies).session.paths == paths,
        consistent(run(at_start(paths, before), replies), before),
    decreases replies.len(),
{
    if replies.len() > 0 {
        lemma_run_keeps_consistent(paths, before, replies.drop_last());
        lemma_exchange_keeps_consistent(
            run(at_start(paths, before), replies.drop_last()),
            before,
            replies.last(),
        );
    }
}

/// Atomic replace: whatever the store replies and wherever the exchanges
/// stop, readers see the contents from before the replacement, untouched,
/// unless the session has stored the new index; then they see exactly its
/// paths, in order.
pub proof fn lemma_replace_is_atomic(
    paths: Seq<Seq<char>>,
    before: Option<Seq<Seq<char>>>,
    replies: Seq<StoreReply>,
)
    requires
        paths.len() <= usize::MAX,
    ensures
        run(at_start(paths, before), replies).store.committed == if run(
            at_start(paths, before),
            replies,
        ).session.stage == Stage::Stored {
            Some(paths)
        } else {
            before
        },
{
    lemma_run_keeps_consistent(paths, before, replies);
}

/// The stage that a session of `count` paths has reached after `done`
/// commands went through, none refused.
pub open spec fn stage_when_done(count: nat, done: nat) -> Stage {
    if done == 0 {
        Stage::Begin
    } else if done == 1 {
        Stage::DropTable
    } else if done == 2 {
        Stage::CreateTable
    } else if done < 3 + count {
        Stage::Insert((done - 3) as usize)
    } else if done == 3 + count {
        Stage::Commit
    } else {
        Stage::Stored
    }
}

/// While the store refuses nothing, the session goes through its stages in
/// order.
pub proof fn lemma_unrefused_stage(
    paths: Seq<Seq<char>>,
    before: Option<Seq<Seq<char>>>,
    replies: Seq<StoreReply>,
)
    requires
        paths.len() <= usize::MAX,
        forall|i: int| 0 <= i < replies.len() ==> replies[i] == StoreReply::Done,
    ensures
        run(at_start(paths, before), replies).session.stage == stage_when_done(
            paths.len(),
            replies.len(),
        ),
    decreases replies.len(),
{
    if replies.len() > 0 {
        lemma_unrefused_stage(paths, before, replies.drop_last());
        lemma_run_keeps_consistent(paths, before, replies.drop_last());
    }
}

/// A replacement that the store does not refuse ends after the opening,
/// the dropping and creating of the table, one insertion for each path, and
/// the commit; the store then holds exactly the new paths.
pub proof fn lemma_replace_completes(
    paths: Seq<Seq<char>>,
    before: Option<Seq<Seq<char>>>,
    replies: Seq<StoreReply>,
)
    requires
        paths.len() <= usize::MAX,
        replies.len() == paths.len() + 4,
        forall|i: int| 0 <= i < replies.len() ==> replies[i] == StoreReply::Done,
    ensures
        outcome_of(run(at_start(paths, before), replies).session) == Some(
            Ok::<(), StorageError>(()),
        ),
        run(at_start(paths, before), replies).store == idle(Some(paths)),
{
    lemma_unrefused_stage(paths, before, replies);
    lemma_run_keeps_consistent(paths, before, replies);
}

/// A session that was given up leaves the store as it was before.
pub proof fn lemma_given_up_changes_nothing(
    paths: Seq<Seq<char>>,
    before: Option<Seq<Seq<char>>>,
    replies: Seq<StoreReply>,
)
    requires
        paths.len() <= usize::MAX,
        outcome_of(run(at_start(paths, before), replies).session) matches Some(Err(_)),
    ensures
        run(at_start(paths, before), replies).store.committed == before,
{
    lemma_run_keeps_consistent(paths, before, replies);
}

} // verus!
