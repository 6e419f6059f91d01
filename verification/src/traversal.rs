//! The file index as it is built: every visited path that the exclusion
//! policy lets through, in the order in which the walks delivered them.
//!
//! A walk meets entries that it cannot read. They are passed over: no entry
//! ends a walk, and none of them ends a build.

use vstd::prelude::*;
use crate::exclusion::{reserved_root, should_skip};

verus! {

/// What a walk met at one entry of a tree.
#[derive(Debug, PartialEq, Eq)]
pub enum WalkEntry {
    /// The entry was read; this is its path.
    Visited(String),
    /// The entry could not be read.
    Unreadable,
}

/// What a walk met at one entry, as plain values.
pub ghost enum EntryView {
    Visited(Seq<char>),
    Unreadable,
}

impl View for WalkEntry {
    type V = EntryView;

    open spec fn view(&self) -> EntryView {
        match self {
            WalkEntry::Visited(path) => EntryView::Visited(path@),
            WalkEntry::Unreadable => EntryView::Unreadable,
        }
    }
}

impl DeepView for WalkEntry {
    type V = EntryView;

    open spec fn deep_view(&self) -> EntryView {
        self@
    }
}

/// The paths of the entries that were read, in walk order.
pub open spec fn readable(met: Seq<EntryView>) -> Seq<Seq<char>>
    decreases met.len(),
{
    if met.len() == 0 {
        Seq::empty()
    } else {
        let earlier = readable(met.drop_last());
        match met.last() {
            EntryView::Visited(path) => earlier.push(path),
            EntryView::Unreadable => earlier,
        }
    }
}

/// The paths of the entries that a walk could read, in walk order; the
/// entries that it could not read are passed over.
pub fn readable_entries(met: Vec<WalkEntry>) -> (paths: Vec<String>)
    ensures
        paths.deep_view() == readable(met.deep_view()),
{
    let ghost all = met.deep_view();
    let mut paths: Vec<String> = Vec::new();
    assert(paths.deep_view() =~= readable(all.take(0)));
    for entry in it: met
        invariant
            it.seq().len() == all.len(),
            forall|k: int| 0 <= k < all.len() ==> (#[trigger] it.seq()[k])@ == all[k],
            paths.deep_view() == readable(all.take(it.index())),
    {
        let ghost k = it.index();
        let ghost before = paths.deep_view();
        proof {
            assert(all.take(k + 1).drop_last() =~= all.take(k));
            assert(all.take(k + 1).last() == all[k]);
        }
        match entry {
            WalkEntry::Visited(path) => {
                paths.push(path);
                assert(paths.deep_view() =~= before.push(path@));
            },
            WalkEntry::Unreadable => {},
        }
    }
    assert(all.take(all.len() as int) =~= all);
    paths
}

/// The visited paths that are indexed, in visiting order.
pub open spec fn indexable(visited: Seq<Seq<char>>) -> Seq<Seq<char>> {
    visited.filter(|path: Seq<char>| !reserved_root(path))
}

/// No path lies under a reserved root.
pub open spec fn free_of_reserved(paths: Seq<Seq<char>>) -> bool {
    forall|i: int| 0 <= i < paths.len() ==> !reserved_root(#[trigger] paths[i])
}

/// The paths of one build. A well-formed index holds no path under a
/// reserved root.
#[derive(Debug)]
pub struct FileIndex {
    paths: Vec<String>,
}

impl View for FileIndex {
    type V = Seq<Seq<char>>;

    closed spec fn view(&self) -> Seq<Seq<char>> {
        self.paths.deep_view()
    }
}

impl FileIndex {
    /// What every index made by this module satisfies.
    pub open spec fn wf(&self) -> bool {
        free_of_reserved(self@)
    }

    /// An index without paths.
    pub fn new() -> (index: FileIndex)
        ensures
            index.wf(),
            index@ == Seq::<Seq<char>>::empty(),
    {
        let index = FileIndex { paths: Vec::new() };
        assert(index@ =~= Seq::<Seq<char>>::empty());
        index
    }

    /// Takes in one visited path, unless the exclusion policy skips it.
    pub fn record(&mut self, visited: String) -> (kept: bool)
        ensures
            old(self).wf() ==> final(self).wf(),
            kept == !reserved_root(visited@),
            final(self)@ == if kept {
                old(self)@.push(visited@)
            } else {
                old(self)@
            },
    {
        if should_skip(visited.as_str()) {
            false
        } else {
            let ghost before = self.paths.deep_view();
            self.paths.push(visited);
            assert(self.paths.deep_view() =~= before.push(visited@));
            true
        }
    }

    /// Takes in the entries that one walk visited, in visiting order.
    pub fn record_walk(&mut self, walk: Vec<String>)
        ensures
            old(self).wf() ==> final(self).wf(),
            final(self)@ == old(self)@ + indexable(walk.deep_view()),
    {
        let ghost entries = walk.deep_view();
        let ghost start = self@;
        assert(indexable(entries.take(0)) =~= Seq::<Seq<char>>::empty()) by {
            reveal(Seq::filter);
        }
        for entry in it: walk
            invariant
                free_of_reserved(start) ==> self.wf(),
                it.seq().len() == entries.len(),
                forall|k: int| 0 <= k < entries.len() ==> (#[trigger] it.seq()[k])@ == entries[k],
                self@ == start + indexable(entries.take(it.index())),
        {
            let ghost k = it.index();
            proof {
                assert(entries.take(k + 1) =~= entries.take(k).push(entries[k]));
                entries.take(k).lemma_filter_push(
                    entries[k],
                    |path: Seq<char>| !reserved_root(path),
                );
            }
            self.record(entry);
        }
        assert(entries.take(entries.len() as int) =~= entries);
    }

    /// The number of paths.
    pub fn len(&self) -> (n: usize)
        ensures
            n == self@.len(),
    {
        self.paths.len()
    }

    /// The paths, in order.
    pub fn paths(&self) -> (paths: &Vec<String>)
        ensures
            paths.deep_view() == self@,
    {
        &self.paths
    }

    /// Gives the paths up, in order.
    pub fn into_paths(self) -> (paths: Vec<String>)
        ensures
            paths.deep_view() == self@,
    {
        self.paths
    }
}

/// The index over the walks of all retained mounts: what each walk visited,
/// one walk after the other, without the paths under a reserved root.
pub fn build_file_set(walks: Vec<Vec<String>>) -> (index: FileIndex)
    ensures
        index.wf(),
        index@ == indexable(walks.deep_view().flatten()),
{
    let ghost all = walks.deep_view();
    let mut index = FileIndex::new();
    assert(indexable(all.take(0).flatten()) =~= Seq::<Seq<char>>::empty()) by {
        reveal(Seq::filter);
    }
    for walk in it: walks
        invariant
            index.wf(),
            it.seq().len() == all.len(),
            forall|k: int| 0 <= k < all.len() ==> (#[trigger] it.seq()[k]).deep_view() == all[k],
            index@ == indexable(all.take(it.index()).flatten()),
    {
        let ghost k = it.index();
        proof {
            assert(all.take(k + 1) =~= all.take(k).push(all[k]));
            all.take(k).lemma_flatten_push(all[k]);
            Seq::filter_distributes_over_add(
                all.take(k).flatten(),
                all[k],
                |path: Seq<char>| !reserved_root(path),
            );
        }
        index.record_walk(walk);
    }
    assert(all.take(all.len() as int) =~= all);
    index
}

/// One more walk adds its indexable paths behind those of the walks before.
pub proof fn lemma_indexable_walk_added(walks: Seq<Seq<Seq<char>>>, walk: Seq<Seq<char>>)
    ensures
        indexable(walks.push(walk).flatten()) == indexable(walks.flatten()) + indexable(walk),
{
    walks.lemma_flatten_push(walk);
    Seq::filter_distributes_over_add(walks.flatten(), walk, |path: Seq<char>| !reserved_root(path));
}

/// A path under a reserved root is in no index, whatever was visited; any
/// other visited path is in the index.
pub proof fn lemma_indexable_membership(visited: Seq<Seq<char>>, path: Seq<char>)
    ensures
        indexable(visited).contains(path) <==> visited.contains(path) && !reserved_root(path),
        free_of_reserved(indexable(visited)),
{
    let keep = |p: Seq<char>| !reserved_root(p);
    if indexable(visited).contains(path) {
        let i = choose|i: int| 0 <= i < indexable(visited).len() && indexable(visited)[i] == path;
        visited.lemma_filter_pred(keep, i);
        visited.lemma_filter_contains_rev(keep, path);
    }
    if visited.contains(path) && !reserved_root(path) {
        let i = choose|i: int| 0 <= i < visited.len() && visited[i] == path;
        visited.lemma_filter_contains(keep, i);
    }
    assert forall|i: int| 0 <= i < indexable(visited).len() implies !reserved_root(
        #[trigger] indexable(visited)[i],
    ) by {
        visited.lemma_filter_pred(keep, i);
    }
}

/// Rebuilding over the same visited entries, in whatever order the walks
/// deliver them, gives an index of the same contents.
pub proof fn lemma_rebuild_same_contents(first: Seq<Seq<char>>, second: Seq<Seq<char>>)
    requires
        first.to_set() == second.to_set(),
    ensures
        indexable(first).to_set() == indexable(second).to_set(),
{
    assert forall|path: Seq<char>| indexable(first).to_set().contains(path) == indexable(
        second,
    ).to_set().contains(path) by {
        lemma_indexable_membership(first, path);
        lemma_indexable_membership(second, path);
        assert(first.contains(path) == first.to_set().contains(path));
        assert(second.contains(path) == second.to_set().contains(path));
    }
    assert(indexable(first).to_set() =~= indexable(second).to_set());
}

} // verus!
