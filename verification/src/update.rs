//! One full rebuild of the index, step by step.
//!
//! Listing the mounts, walking a tree and running a store command are done
//! outside this crate. An `UpdateSession` says which of them is due and
//! takes what came of it: it settles which mounts are walked, which visited
//! paths are kept, and how the store is written.

use vstd::prelude::*;
use vstd::pervasive::unreached;
use crate::mounts::{
    discover_mounts,
    nesting_free,
    paths_distinct,
    retained_mounts,
    MountEntry,
    MountView,
};
use crate::store::{
    after_reply,
    at_start,
    command_of,
    idle,
    in_range,
    lemma_replace_completes,
    lemma_run_keeps_consistent,
    outcome_of,
    run,
    starting,
    CommandView,
    ReplaceSession,
    SessionView,
    StorageError,
    StoreCommand,
    StoreReply,
};
use crate::traversal::{
    free_of_reserved,
    indexable,
    lemma_indexable_walk_added,
    lemma_rebuild_same_contents,
    readable,
    readable_entries,
    EntryView,
    FileIndex,
    WalkEntry,
};

verus! {

/// What a completed update did.
#[derive(Clone, Copy, Debug, PartialEq, Eq, Structural)]
pub struct UpdateSummary {
    pub indexed_paths: usize,
    pub mounts_processed: usize,
}

/// Why an update was given up. The stored index is then the one from before.
#[derive(Clone, Copy, Debug, PartialEq, Eq, Structural)]
pub enum BuildError {
    /// The mount table could not be listed.
    MountEnumeration,
    /// The store failed before the new index was committed.
    Storage,
    /// Another update holds the store.
    ConcurrentUpdate,
}

/// The build error that a storage error stands for.
pub open spec fn build_error_of(error: StorageError) -> BuildError {
    if error == StorageError::Busy {
        BuildError::ConcurrentUpdate
    } else {
        BuildError::Storage
    }
}

/// The build error that a storage error stands for.
pub fn build_error(error: StorageError) -> (out: BuildError)
    ensures
        out == build_error_of(error),
{
    match error {
        StorageError::Busy => BuildError::ConcurrentUpdate,
        _ => BuildError::Storage,
    }
}

/// What is to be done next for an update.
#[derive(Debug, PartialEq, Eq)]
pub enum UpdateStep {
    /// List the mount table.
    ListMounts,
    /// Walk the tree under this root.
    Walk(String),
    /// Run this command on the store.
    Store(StoreCommand),
    /// Nothing: the update has ended like this.
    Finished(Result<UpdateSummary, BuildError>),
}

/// A step as plain values.
pub ghost enum StepView {
    ListMounts,
    Walk(Seq<char>),
    Store(CommandView),
    Finished(Result<UpdateSummary, BuildError>),
}

impl View for UpdateStep {
    type V = StepView;

    open spec fn view(&self) -> StepView {
        match self {
            UpdateStep::ListMounts => StepView::ListMounts,
            UpdateStep::Walk(root) => StepView::Walk(root@),
            UpdateStep::Store(command) => StepView::Store(command@),
            UpdateStep::Finished(result) => StepView::Finished(*result),
        }
    }
}

/// What came of a step.
#[derive(Debug, PartialEq, Eq)]
pub enum UpdateEvent {
    /// The mount table.
    Mounts(Vec<MountEntry>),
    /// The mount table could not be listed.
    MountsUnavailable,
    /// What a walk met, entry by entry, in visiting order.
    Walked(Vec<WalkEntry>),
    /// The store's reply to a command.
    Store(StoreReply),
}

/// An event as plain values.
pub ghost enum EventView {
    Mounts(Seq<MountView>),
    MountsUnavailable,
    Walked(Seq<EntryView>),
    Store(StoreReply),
}

impl View for UpdateEvent {
    type V = EventView;

    open spec fn view(&self) -> EventView {
        match self {
            UpdateEvent::Mounts(listing) => EventView::Mounts(listing.deep_view()),
            UpdateEvent::MountsUnavailable => EventView::MountsUnavailable,
            UpdateEvent::Walked(entries) => EventView::Walked(entries.deep_view()),
            UpdateEvent::Store(reply) => EventView::Store(*reply),
        }
    }
}

/// An update as plain values.
pub ghost enum UpdateView {
    /// The mount table is awaited.
    Listing,
    /// The mounts are being walked: `walked` of them are done, and `index`
    /// holds what was kept of their entries.
    Walking { mounts: Seq<MountView>, walked: usize, index: Seq<Seq<char>> },
    /// The index of `walks` walks is being stored.
    Storing { walks: usize, session: SessionView },
    /// The update has ended.
    Finished(Result<UpdateSummary, BuildError>),
}

/// What holds of every update in progress.
pub open spec fn well_formed(state: UpdateView) -> bool {
    match state {
        UpdateView::Listing => true,
        UpdateView::Walking { mounts, walked, index } => {
            &&& walked < mounts.len() <= usize::MAX
            &&& nesting_free(mounts)
            &&& paths_distinct(mounts)
            &&& free_of_reserved(index)
        },
        UpdateView::Storing { walks, session } => {
            &&& in_range(session)
            &&& outcome_of(session) is None
            &&& free_of_reserved(session.paths)
        },
        UpdateView::Finished(_) => true,
    }
}

/// The step that is due.
pub open spec fn step_of(state: UpdateView) -> StepView {
    match state {
        UpdateView::Listing => StepView::ListMounts,
        UpdateView::Walking { mounts, walked, index } => StepView::Walk(mounts[walked as int].path),
        UpdateView::Storing { walks, session } => StepView::Store(command_of(session).unwrap()),
        UpdateView::Finished(result) => StepView::Finished(result),
    }
}

/// The update once the walks are over: its index goes to the store.
pub open spec fn storing(walks: usize, index: Seq<Seq<char>>) -> UpdateView {
    UpdateView::Storing { walks, session: starting(index) }
}

/// The update after the mount table came in.
pub open spec fn after_listing(listing: Seq<MountView>) -> UpdateView {
    let mounts = retained_mounts(listing);
    if mounts.len() == 0 {
        storing(0, Seq::empty())
    } else {
        UpdateView::Walking { mounts, walked: 0, index: Seq::empty() }
    }
}

/// The update after one more walk came in: what the walk could read and
/// the exclusion policy lets through is added to the index. An entry that
/// could not be read is passed over; no walk ends an update.
pub open spec fn after_walk(
    mounts: Seq<MountView>,
    walked: usize,
    index: Seq<Seq<char>>,
    met: Seq<EntryView>,
) -> UpdateView {
    let grown = index + indexable(readable(met));
    if walked + 1 < mounts.len() {
        UpdateView::Walking { mounts, walked: (walked + 1) as usize, index: grown }
    } else {
        storing(mounts.len() as usize, grown)
    }
}

/// The update after the store replied to a command.
pub open spec fn after_store_reply(
    walks: usize,
    session: SessionView,
    reply: StoreReply,
) -> UpdateView {
    let next = after_reply(session, reply);
    match outcome_of(next) {
        Some(Ok(_)) => UpdateView::Finished(
            Ok(UpdateSummary { indexed_paths: next.paths.len() as usize, mounts_processed: walks }),
        ),
        Some(Err(error)) => UpdateView::Finished(Err(build_error_of(error))),
        None => UpdateView::Storing { walks, session: next },
    }
}

/// The update after an event. An event that does not answer the step that
/// was due changes nothing.
pub open spec fn after_event(state: UpdateView, event: EventView) -> UpdateView {
    match (state, event) {
        (UpdateView::Listing, EventView::Mounts(listing)) => after_listing(listing),
        (UpdateView::Listing, EventView::MountsUnavailable) => UpdateView::Finished(
            Err(BuildError::MountEnumeration),
        ),
        (UpdateView::Walking { mounts, walked, index }, EventView::Walked(met)) => after_walk(
            mounts,
            walked,
            index,
            met,
        ),
        (UpdateView::Storing { walks, session }, EventView::Store(reply)) => after_store_reply(
            walks,
            session,
            reply,
        ),
        _ => state,
    }
}

/// The update after a sequence of events.
pub open spec fn after_events(state: UpdateView, events: Seq<EventView>) -> UpdateView
    decreases events.len(),
{
    if events.len() == 0 {
        state
    } else {
        after_event(after_events(state, events.drop_last()), events.last())
    }
}

#[derive(Debug)]
enum Phase {
    Listing,
    Walking { mounts: Vec<MountEntry>, walked: usize, index: FileIndex },
    Storing { walks: usize, session: ReplaceSession },
    Finished(Result<UpdateSummary, BuildError>),
}

/// One rebuild of the index in progress.
#[derive(Debug)]
pub struct UpdateSession {
    phase: Phase,
}

impl View for UpdateSession {
    type V = UpdateView;

    closed spec fn view(&self) -> UpdateView {
        match self.phase {
            Phase::Listing => UpdateView::Listing,
            Phase::Walking { mounts, walked, index } => UpdateView::Walking {
                mounts: mounts.deep_view(),
                walked,
                index: index@,
            },
            Phase::Storing { walks, session } => UpdateView::Storing { walks, session: session@ },
            Phase::Finished(result) => UpdateView::Finished(result),
        }
    }
}

impl UpdateSession {
    #[verifier::type_invariant]
    spec fn wf(self) -> bool {
        well_formed(self@)
    }

    /// An update at its start: the mount table is awaited.
    pub fn new() -> (session: UpdateSession)
        ensures
            session@ == UpdateView::Listing,
    {
        UpdateSession { phase: Phase::Listing }
    }

    /// The step that is due.
    pub fn step(&self) -> (step: UpdateStep)
        ensures
            well_formed(self@),
            step@ == step_of(self@),
    {
        proof {
            use_type_invariant(self);
        }
        match &self.phase {
            Phase::Listing => UpdateStep::ListMounts,
            Phase::Walking { mounts, walked, index } => {
                assert(mounts.deep_view()[*walked as int] == mounts[*walked as int]@);
                UpdateStep::Walk(mounts[*walked].path.clone())
            },
            Phase::Storing { walks, session } => {
                match session.command() {
                    Some(command) => UpdateStep::Store(command),
                    None => unreached(),
                }
            },
            Phase::Finished(result) => UpdateStep::Finished(*result),
        }
    }

    /// How the update ended; nothing while steps are left.
    pub fn result(&self) -> (result: Option<Result<UpdateSummary, BuildError>>)
        ensures
            result == match self@ {
                UpdateView::Finished(ended) => Some(ended),
                _ => None,
            },
    {
        match &self.phase {
            Phase::Finished(ended) => Some(*ended),
            _ => None,
        }
    }

    /// Takes what came of the step that was due.
    pub fn advance(self, event: UpdateEvent) -> (next: UpdateSession)
        ensures
            next@ == after_event(self@, event@),
    {
        proof {
            use_type_invariant(&self);
        }
        match self.phase {
            Phase::Listing => match event {
                UpdateEvent::Mounts(listing) => {
                    let mounts = discover_mounts(&listing);
                    if mounts.len() == 0 {
                        UpdateSession {
                            phase: Phase::Storing {
                                walks: 0,
                                session: ReplaceSession::new(FileIndex::new()),
                            },
                        }
                    } else {
                        UpdateSession {
                            phase: Phase::Walking { mounts, walked: 0, index: FileIndex::new() },
                        }
                    }
                },
                UpdateEvent::MountsUnavailable => UpdateSession {
                    phase: Phase::Finished(Err(BuildError::MountEnumeration)),
                },
                _ => UpdateSession { phase: Phase::Listing },
            },
            Phase::Walking { mounts, walked, index } => match event {
                UpdateEvent::Walked(met) => {
                    let mut index = index;
                    index.record_walk(readable_entries(met));
                    if walked + 1 < mounts.len() {
                        UpdateSession {
                            phase: Phase::Walking { mounts, walked: walked + 1, index },
                        }
                    } else {
                        UpdateSession {
                            phase: Phase::Storing {
                                walks: mounts.len(),
                                session: ReplaceSession::new(index),
                            },
                        }
                    }
                },
                _ => UpdateSession { phase: Phase::Walking { mounts, walked, index } },
            },
            Phase::Storing { walks, session } => match event {
                UpdateEvent::Store(reply) => {
                    let mut session = session;
                    session.advance(reply);
                    match session.outcome() {
                        Some(Ok(_)) => UpdateSession {
                            phase: Phase::Finished(
                                Ok(
                                    UpdateSummary {
                                        indexed_paths: session.len(),
                                        mounts_processed: walks,
                                    },
                                ),
                            ),
                        },
                        Some(Err(error)) => UpdateSession {
                            phase: Phase::Finished(Err(build_error(error))),
                        },
                        None => UpdateSession { phase: Phase::Storing { walks, session } },
                    }
                },
                _ => UpdateSession { phase: Phase::Storing { walks, session } },
            },
            Phase::Finished(result) => UpdateSession { phase: Phase::Finished(result) },
        }
    }
}

/// The events of these walks, one after the other.
pub open spec fn walk_events(walks: Seq<Seq<EntryView>>) -> Seq<EventView> {
    Seq::new(walks.len(), |i: int| EventView::Walked(walks[i]))
}

/// What each of these walks could read.
pub open spec fn read_by(walks: Seq<Seq<EntryView>>) -> Seq<Seq<Seq<char>>> {
    Seq::new(walks.len(), |i: int| readable(walks[i]))
}

/// The index that these walks lead to: what they could read, one walk after
/// the other, without the paths under a reserved root.
pub open spec fn index_of(walks: Seq<Seq<EntryView>>) -> Seq<Seq<char>> {
    indexable(read_by(walks).flatten())
}

/// The events of these store replies, one after the other.
pub open spec fn store_events(replies: Seq<StoreReply>) -> Seq<EventView> {
    Seq::new(replies.len(), |i: int| EventView::Store(replies[i]))
}

/// The update that stands for a store session of its own, `walks` walks
/// having gone before: storing while the session runs, ended once it has.
pub open spec fn update_of(walks: usize, session: SessionView) -> UpdateView {
    match outcome_of(session) {
        Some(Ok(_)) => UpdateView::Finished(
            Ok(
                UpdateSummary {
                    indexed_paths: session.paths.len() as usize,
                    mounts_processed: walks,
                },
            ),
        ),
        Some(Err(error)) => UpdateView::Finished(Err(build_error_of(error))),
        None => UpdateView::Storing { walks, session },
    }
}

/// Events taken in two batches are events taken in one.
pub proof fn lemma_events_in_turn(state: UpdateView, first: Seq<EventView>, then: Seq<EventView>)
    ensures
        after_events(state, first + then) == after_events(after_events(state, first), then),
    decreases then.len(),
{
    if then.len() == 0 {
        assert(first + then =~= first);
    } else {
        lemma_events_in_turn(state, first, then.drop_last());
        assert((first + then).drop_last() =~= first + then.drop_last());
    }
}

/// A single event taken as a sequence is that event taken alone.
pub proof fn lemma_single_event(state: UpdateView, event: EventView)
    ensures
        after_events(state, seq![event]) == after_event(state, event),
{
    assert(seq![event].drop_last() =~= Seq::<EventView>::empty());
    assert(after_events(state, seq![event].drop_last()) == state);
}

/// An update that has ended stays as it ended, whatever comes in.
pub proof fn lemma_finished_stays(result: Result<UpdateSummary, BuildError>, events: Seq<EventView>)
    ensures
        after_events(UpdateView::Finished(result), events) == UpdateView::Finished(result),
    decreases events.len(),
{
    if events.len() > 0 {
        lemma_finished_stays(result, events.drop_last());
    }
}

/// When the mount table cannot be listed, the update ends there: whatever
/// comes in afterwards, it has failed on the mount table, and no store
/// command is ever due.
pub proof fn lemma_unlisted_mounts_end_update(events: Seq<EventView>)
    requires
        events.len() > 0,
        events[0] == EventView::MountsUnavailable,
    ensures
        after_events(UpdateView::Listing, events) == UpdateView::Finished(
            Err(BuildError::MountEnumeration),
        ),
        !(step_of(after_events(UpdateView::Listing, events)) is Store),
{
    let first = seq![EventView::MountsUnavailable];
    let rest = events.skip(1);
    assert(first + rest =~= events);
    lemma_events_in_turn(UpdateView::Listing, first, rest);
    lemma_single_event(UpdateView::Listing, EventView::MountsUnavailable);
    lemma_finished_stays(Err(BuildError::MountEnumeration), rest);
}

/// While mounts are left to walk, each walk adds what it may to the index;
/// after the last one the index goes to the store.
pub proof fn lemma_walks_gather(mounts: Seq<MountView>, walks: Seq<Seq<EntryView>>)
    requires
        0 < mounts.len() <= usize::MAX,
        walks.len() <= mounts.len(),
    ensures
        after_events(
            UpdateView::Walking { mounts, walked: 0, index: Seq::empty() },
            walk_events(walks),
        ) == if walks.len() < mounts.len() {
            UpdateView::Walking { mounts, walked: walks.len() as usize, index: index_of(walks) }
        } else {
            storing(mounts.len() as usize, index_of(walks))
        },
    decreases walks.len(),
{
    let none = Seq::<Seq<char>>::empty();
    if walks.len() == 0 {
        assert(index_of(walks) =~= none) by {
            reveal(Seq::filter);
        }
    } else {
        let earlier = walks.drop_last();
        lemma_walks_gather(mounts, earlier);
        assert(walk_events(walks).drop_last() =~= walk_events(earlier));
        assert(walk_events(walks).last() == EventView::Walked(walks.last()));
        lemma_indexable_walk_added(read_by(earlier), readable(walks.last()));
        assert(read_by(earlier).push(readable(walks.last())) =~= read_by(walks));
    }
}

/// An update that is given the mount table and then one walk for each
/// retained mount reaches the store with exactly the indexable paths of
/// those walks, in visiting order.
pub proof fn lemma_update_reaches_store(listing: Seq<MountView>, walks: Seq<Seq<EntryView>>)
    requires
        walks.len() == retained_mounts(listing).len(),
        walks.len() <= usize::MAX,
    ensures
        after_events(UpdateView::Listing, seq![EventView::Mounts(listing)] + walk_events(walks))
            == storing(walks.len() as usize, index_of(walks)),
{
    let first = seq![EventView::Mounts(listing)];
    lemma_events_in_turn(UpdateView::Listing, first, walk_events(walks));
    lemma_single_event(UpdateView::Listing, EventView::Mounts(listing));
    if walks.len() == 0 {
        assert(index_of(walks) =~= Seq::<Seq<char>>::empty()) by {
            reveal(Seq::filter);
        }
    } else {
        lemma_walks_gather(retained_mounts(listing), walks);
    }
}

/// While the index is being stored, the update follows the store session:
/// it is where the session is, and has ended as the session ended.
pub proof fn lemma_storing_follows_session(
    walks: usize,
    paths: Seq<Seq<char>>,
    before: Option<Seq<Seq<char>>>,
    replies: Seq<StoreReply>,
)
    requires
        paths.len() <= usize::MAX,
    ensures
        after_events(storing(walks, paths), store_events(replies)) == update_of(
            walks,
            run(at_start(paths, before), replies).session,
        ),
    decreases replies.len(),
{
    if replies.len() > 0 {
        lemma_storing_follows_session(walks, paths, before, replies.drop_last());
        lemma_run_keeps_consistent(paths, before, replies.drop_last());
        assert(store_events(replies).drop_last() =~= store_events(replies.drop_last()));
        assert(store_events(replies).last() == EventView::Store(replies.last()));
    }
}

/// A rebuild that nothing refuses: given the mount table, one walk for each
/// retained mount, and a store that runs every command, the update ends
/// with the summary of what it did, and the store holds exactly the
/// indexable paths of the walks.
pub proof fn lemma_update_completes(
    listing: Seq<MountView>,
    walks: Seq<Seq<EntryView>>,
    before: Option<Seq<Seq<char>>>,
    replies: Seq<StoreReply>,
)
    requires
        walks.len() == retained_mounts(listing).len(),
        walks.len() <= usize::MAX,
        index_of(walks).len() <= usize::MAX,
        replies.len() == index_of(walks).len() + 4,
        forall|i: int| 0 <= i < replies.len() ==> replies[i] == StoreReply::Done,
    ensures
        after_events(
            UpdateView::Listing,
            seq![EventView::Mounts(listing)] + walk_events(walks) + store_events(replies),
        ) == UpdateView::Finished(
            Ok(
                UpdateSummary {
                    indexed_paths: index_of(walks).len() as usize,
                    mounts_processed: walks.len() as usize,
                },
            ),
        ),
        run(at_start(index_of(walks), before), replies).store == idle(Some(index_of(walks))),
{
    let paths = index_of(walks);
    lemma_events_in_turn(
        UpdateView::Listing,
        seq![EventView::Mounts(listing)] + walk_events(walks),
        store_events(replies),
    );
    lemma_update_reaches_store(listing, walks);
    lemma_storing_follows_session(walks.len() as usize, paths, before, replies);
    lemma_replace_completes(paths, before, replies);
    lemma_run_keeps_consistent(paths, before, replies);
}

/// Idempotent rebuild: two rebuilds whose walks could read the same
/// entries, in whatever order, and which the store did not refuse, leave
/// stores of the same contents.
pub proof fn lemma_rebuild_is_idempotent(
    first: Seq<Seq<EntryView>>,
    first_before: Option<Seq<Seq<char>>>,
    first_replies: Seq<StoreReply>,
    second: Seq<Seq<EntryView>>,
    second_before: Option<Seq<Seq<char>>>,
    second_replies: Seq<StoreReply>,
)
    requires
        read_by(first).flatten().to_set() == read_by(second).flatten().to_set(),
        index_of(first).len() <= usize::MAX,
        index_of(second).len() <= usize::MAX,
        first_replies.len() == index_of(first).len() + 4,
        second_replies.len() == index_of(second).len() + 4,
        forall|i: int| 0 <= i < first_replies.len() ==> first_replies[i] == StoreReply::Done,
        forall|i: int| 0 <= i < second_replies.len() ==> second_replies[i] == StoreReply::Done,
    ensures
        run(at_start(index_of(first), first_before), first_replies).store.committed matches Some(
            one,
        ) && run(at_start(index_of(second), second_before), second_replies).store.committed
            matches Some(other) && one.to_set() == other.to_set(),
{
    lemma_replace_completes(index_of(first), first_before, first_replies);
    lemma_replace_completes(index_of(second), second_before, second_replies);
    lemma_rebuild_same_contents(read_by(first).flatten(), read_by(second).flatten());
}

/// No walk ends an update, whatever it met: the update goes on to the next
/// mount or to the store.
pub proof fn lemma_walk_never_fails(
    mounts: Seq<MountView>,
    walked: usize,
    index: Seq<Seq<char>>,
    met: Seq<EntryView>,
)
    ensures
        !(after_event(UpdateView::Walking { mounts, walked, index }, EventView::Walked(met))
            is Finished),
{
}

} // verus!
