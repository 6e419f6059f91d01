//! The mount catalog: which mounted filesystems are walked.
//!
//! An entry of the mount table is eligible when it is backed by real storage
//! and its filesystem type is on the allow-list. Of the eligible entries
//! those are retained that lie below no other eligible entry, each path once.

use vstd::prelude::*;
use vstd::std_specs::iter::IteratorSpec;
use crate::text::same_text;

verus! {

/// The separator between the components of a path.
pub const SEPARATOR: char = '/';

/// One entry of the mount table.
#[derive(Debug, PartialEq, Eq)]
pub struct MountEntry {
    pub path: String,
    pub filesystem_type: String,
    pub is_virtual: bool,
}

/// A mount entry as plain values.
pub ghost struct MountView {
    pub path: Seq<char>,
    pub filesystem_type: Seq<char>,
    pub is_virtual: bool,
}

impl View for MountEntry {
    type V = MountView;

    open spec fn view(&self) -> MountView {
        MountView {
            path: self.path@,
            filesystem_type: self.filesystem_type@,
            is_virtual: self.is_virtual,
        }
    }
}

impl DeepView for MountEntry {
    type V = MountView;

    open spec fn deep_view(&self) -> MountView {
        self@
    }
}

/// The filesystem types that are indexed.
pub open spec fn allowed_filesystem(name: Seq<char>) -> bool {
    ||| name == "FAT12"@
    ||| name == "FAT16"@
    ||| name == "FAT32"@
    ||| name == "exFAT"@
    ||| name == "NTFS"@
    ||| name == "fuseblk"@
    ||| name == "ReFS"@
    ||| name == "HFS"@
    ||| name == "HFS+"@
    ||| name == "HPFS"@
    ||| name == "APFS"@
    ||| name == "UFS"@
    ||| name == "ext2"@
    ||| name == "ext3"@
    ||| name == "ext4"@
}

/// An entry that may be walked at all: real storage of an allowed type.
pub open spec fn eligible(mount: MountView) -> bool {
    !mount.is_virtual && allowed_filesystem(mount.filesystem_type)
}

/// `inner` is a strict descendant of `outer`: it continues `outer` past a
/// separator. A path that already ends in a separator, as the root does,
/// carries its own.
pub open spec fn strictly_below(inner: Seq<char>, outer: Seq<char>) -> bool {
    &&& outer.len() < inner.len()
    &&& outer.is_prefix_of(inner)
    &&& (inner[outer.len() as int] == SEPARATOR || (outer.len() > 0 && outer.last() == SEPARATOR))
}

/// Entry `j` keeps entry `i` out of the retained set: it is eligible, and
/// either `i` lies strictly below it or it is an earlier entry of the same
/// path.
pub open spec fn shadows(listing: Seq<MountView>, j: int, i: int) -> bool {
    &&& eligible(listing[j])
    &&& (strictly_below(listing[i].path, listing[j].path) || (j < i && listing[j].path
        == listing[i].path))
}

/// Entry `i` of the listing is retained.
pub open spec fn retained_at(listing: Seq<MountView>, i: int) -> bool {
    &&& eligible(listing[i])
    &&& forall|j: int| 0 <= j < listing.len() ==> !shadows(listing, j, i)
}

/// The retained entries among the first `n` of the listing, in listing order.
pub open spec fn retained_upto(listing: Seq<MountView>, n: nat) -> Seq<MountView>
    decreases n,
{
    if n == 0 {
        Seq::empty()
    } else {
        let earlier = retained_upto(listing, (n - 1) as nat);
        if retained_at(listing, n - 1) {
            earlier.push(listing[n - 1])
        } else {
            earlier
        }
    }
}

/// The retained mount set of a listing.
pub open spec fn retained_mounts(listing: Seq<MountView>) -> Seq<MountView> {
    retained_upto(listing, listing.len())
}

/// No member lies strictly below another.
pub open spec fn nesting_free(mounts: Seq<MountView>) -> bool {
    forall|a: int, b: int|
        0 <= a < mounts.len() && 0 <= b < mounts.len() ==> !strictly_below(
            #[trigger] mounts[a].path,
            #[trigger] mounts[b].path,
        )
}

/// No two members share a path.
pub open spec fn paths_distinct(mounts: Seq<MountView>) -> bool {
    forall|a: int, b: int|
        0 <= a < b < mounts.len() ==> #[trigger] mounts[a].path != #[trigger] mounts[b].path
}

/// Whether a filesystem type is on the allow-list.
pub fn is_allowed_filesystem(name: &str) -> (allowed: bool)
    ensures
        allowed == allowed_filesystem(name@),
{
    same_text(name, "FAT12") || same_text(name, "FAT16") || same_text(name, "FAT32") || same_text(
        name,
        "exFAT",
    ) || same_text(name, "NTFS") || same_text(name, "fuseblk") || same_text(name, "ReFS")
        || same_text(name, "HFS") || same_text(name, "HFS+") || same_text(name, "HPFS")
        || same_text(name, "APFS") || same_text(name, "UFS") || same_text(name, "ext2")
        || same_text(name, "ext3") || same_text(name, "ext4")
}

/// Whether `inner` is a strict descendant of `outer`.
pub fn is_strictly_below(inner: &str, outer: &str) -> (below: bool)
    ensures
        below == strictly_below(inner@, outer@),
{
    let mut rest = inner.chars();
    let mut wanted = outer.chars();
    let mut closed = false;
    let ghost mut seen: int = 0;
    loop
        invariant
            0 <= seen <= outer@.len(),
            seen <= inner@.len(),
            rest.obeys_prophetic_iter_laws(),
            wanted.obeys_prophetic_iter_laws(),
            rest.remaining() == inner@.skip(seen),
            wanted.remaining() == outer@.skip(seen),
            inner@.take(seen) == outer@.take(seen),
            closed == (seen > 0 && outer@[seen - 1] == SEPARATOR),
        decreases outer@.len() - seen,
    {
        match wanted.next() {
            None => {
                assert(outer@.take(seen) == outer@);
                assert(inner@.take(seen) == inner@.subrange(0, outer@.len() as int));
                match rest.next() {
                    None => {
                        return false;
                    },
                    Some(following) => {
                        return closed || following == SEPARATOR;
                    },
                }
            },
            Some(expected) => {
                match rest.next() {
                    None => {
                        return false;
                    },
                    Some(actual) => {
                        if actual != expected {
                            assert(inner@[seen] != outer@[seen]);
                            return false;
                        }
                        closed = expected == SEPARATOR;
                        proof {
                            assert(inner@.take(seen + 1) == inner@.take(seen).push(inner@[seen]));
                            assert(outer@.take(seen + 1) == outer@.take(seen).push(outer@[seen]));
                            assert(inner@.skip(seen).drop_first() == inner@.skip(seen + 1));
                            assert(outer@.skip(seen).drop_first() == outer@.skip(seen + 1));
                            seen = seen + 1;
                        }
                    },
                }
            },
        }
    }
}

impl MountEntry {
    /// Whether the entry may be walked at all.
    pub fn is_eligible(&self) -> (ok: bool)
        ensures
            ok == eligible(self@),
    {
        !self.is_virtual && is_allowed_filesystem(self.filesystem_type.as_str())
    }

}

impl Clone for MountEntry {
    fn clone(&self) -> (copy: MountEntry)
        ensures
            copy@ == self@,
    {
        MountEntry {
            path: self.path.clone(),
            filesystem_type: self.filesystem_type.clone(),
            is_virtual: self.is_virtual,
        }
    }
}

/// The retained set only grows as more of the listing is taken into account.
pub proof fn lemma_retained_grows(listing: Seq<MountView>, m: nat, n: nat)
    requires
        m <= n,
    ensures
        retained_upto(listing, m).is_prefix_of(retained_upto(listing, n)),
    decreases n,
{
    if m < n {
        lemma_retained_grows(listing, m, (n - 1) as nat);
    }
}

/// The listing index that the `k`-th retained entry came from.
pub open spec fn origin(listing: Seq<MountView>, n: nat, k: int) -> int
    decreases n,
{
    if n == 0 {
        0
    } else if k < retained_upto(listing, (n - 1) as nat).len() {
        origin(listing, (n - 1) as nat, k)
    } else {
        n - 1
    }
}

/// Each retained entry is an entry of the listing that is retained there,
/// and stands after as many retained entries as precede it in the listing.
pub proof fn lemma_origin(listing: Seq<MountView>, n: nat, k: int)
    requires
        n <= listing.len(),
        0 <= k < retained_upto(listing, n).len(),
    ensures
        0 <= origin(listing, n, k) < n,
        retained_at(listing, origin(listing, n, k)),
        retained_upto(listing, n)[k] == listing[origin(listing, n, k)],
        retained_upto(listing, origin(listing, n, k) as nat).len() == k,
    decreases n,
{
    if k < retained_upto(listing, (n - 1) as nat).len() {
        lemma_origin(listing, (n - 1) as nat, k);
    }
}

/// Nesting invariant: among the retained mounts of any listing no member
/// lies strictly below another, and no path occurs twice.
pub proof fn lemma_retained_is_nesting_free(listing: Seq<MountView>)
    ensures
        nesting_free(retained_mounts(listing)),
        paths_distinct(retained_mounts(listing)),
{
    let n = listing.len();
    let kept = retained_mounts(listing);
    assert forall|a: int, b: int|
        0 <= a < kept.len() && 0 <= b < kept.len() implies !strictly_below(
        #[trigger] kept[a].path,
        #[trigger] kept[b].path,
    ) by {
        lemma_origin(listing, n, a);
        lemma_origin(listing, n, b);
        assert(!shadows(listing, origin(listing, n, b), origin(listing, n, a)));
    }
    assert forall|a: int, b: int| 0 <= a < b < kept.len() implies #[trigger] kept[a].path
        != #[trigger] kept[b].path by {
        lemma_origin(listing, n, a);
        lemma_origin(listing, n, b);
        let ia = origin(listing, n, a);
        let ib = origin(listing, n, b);
        if ib <= ia {
            lemma_retained_grows(listing, ib as nat, ia as nat);
        }
        assert(!shadows(listing, ia, ib));
    }
}

/// Each retained mount is an eligible entry of the listing.
pub proof fn lemma_retained_are_eligible(listing: Seq<MountView>, k: int)
    requires
        0 <= k < retained_mounts(listing).len(),
    ensures
        eligible(retained_mounts(listing)[k]),
        listing.contains(retained_mounts(listing)[k]),
{
    lemma_origin(listing, listing.len(), k);
}

/// `outer` is the path `inner` itself or one that `inner` lies strictly
/// below.
pub open spec fn at_or_above(outer: Seq<char>, inner: Seq<char>) -> bool {
    outer == inner || strictly_below(inner, outer)
}

/// Some member is the path itself or lies above it.
pub open spec fn covered(mounts: Seq<MountView>, path: Seq<char>) -> bool {
    exists|k: int| 0 <= k < mounts.len() && at_or_above(#[trigger] mounts[k].path, path)
}

/// What lies below a descendant lies below the ancestor.
pub proof fn lemma_below_is_transitive(inner: Seq<char>, middle: Seq<char>, outer: Seq<char>)
    requires
        strictly_below(inner, middle),
        strictly_below(middle, outer),
    ensures
        strictly_below(inner, outer),
{
    assert(outer =~= inner.subrange(0, outer.len() as int));
    assert(inner[outer.len() as int] == middle[outer.len() as int]);
}

/// An entry that is retained in the listing is among the retained mounts.
pub proof fn lemma_retained_entry_is_kept(listing: Seq<MountView>, i: int, n: nat)
    requires
        0 <= i < n <= listing.len(),
        retained_at(listing, i),
    ensures
        retained_upto(listing, n).contains(listing[i]),
    decreases n,
{
    let kept = retained_upto(listing, n);
    if i == n - 1 {
        assert(kept[kept.len() - 1] == listing[i]);
    } else {
        lemma_retained_entry_is_kept(listing, i, (n - 1) as nat);
        let earlier = retained_upto(listing, (n - 1) as nat);
        let k = choose|k: int| 0 <= k < earlier.len() && earlier[k] == listing[i];
        assert(kept[k] == listing[i]);
    }
}

/// Nothing is lost: every eligible entry of the listing is a retained mount
/// or lies strictly below one, so that the walks of the retained mounts
/// reach it.
pub proof fn lemma_eligible_is_covered(listing: Seq<MountView>, i: int)
    requires
        0 <= i < listing.len(),
        eligible(listing[i]),
    ensures
        covered(retained_mounts(listing), listing[i].path),
    decreases listing[i].path.len(), i,
{
    let kept = retained_mounts(listing);
    let path = listing[i].path;
    if exists|j: int|
        0 <= j < listing.len() && eligible(listing[j]) && strictly_below(path, listing[j].path) {
        let j = choose|j: int|
            0 <= j < listing.len() && eligible(listing[j]) && strictly_below(path, listing[j].path);
        lemma_eligible_is_covered(listing, j);
        let k = choose|k: int|
            0 <= k < kept.len() && at_or_above(#[trigger] kept[k].path, listing[j].path);
        if kept[k].path != listing[j].path {
            lemma_below_is_transitive(path, listing[j].path, kept[k].path);
        }
        assert(at_or_above(kept[k].path, path));
    } else if exists|j: int| 0 <= j < i && eligible(listing[j]) && listing[j].path == path {
        let j = choose|j: int| 0 <= j < i && eligible(listing[j]) && listing[j].path == path;
        lemma_eligible_is_covered(listing, j);
        let k = choose|k: int|
            0 <= k < kept.len() && at_or_above(#[trigger] kept[k].path, listing[j].path);
        assert(at_or_above(kept[k].path, path));
    } else {
        assert(retained_at(listing, i));
        lemma_retained_entry_is_kept(listing, i, listing.len());
        let k = choose|k: int| 0 <= k < kept.len() && kept[k] == listing[i];
        assert(at_or_above(kept[k].path, path));
    }
}

/// Filters the mount table down to the retained mount set: the eligible
/// entries that lie strictly below no other eligible entry, each path kept
/// at its first occurrence, in the order of the listing.
pub fn discover_mounts(listing: &Vec<MountEntry>) -> (retained: Vec<MountEntry>)
    ensures
        retained.deep_view() == retained_mounts(listing.deep_view()),
        nesting_free(retained.deep_view()),
        paths_distinct(retained.deep_view()),
{
    let n = listing.len();
    let ghost entries = listing.deep_view();
    let mut usable: Vec<bool> = Vec::new();
    for i in 0..n
        invariant
            n == listing.len(),
            entries == listing.deep_view(),
            usable.len() == i,
            forall|k: int| 0 <= k < i ==> usable[k] == eligible(#[trigger] entries[k]),
    {
        usable.push(listing[i].is_eligible());
    }
    let mut retained: Vec<MountEntry> = Vec::new();
    for i in 0..n
        invariant
            n == listing.len(),
            entries == listing.deep_view(),
            usable.len() == n,
            forall|k: int| 0 <= k < n ==> usable[k] == eligible(#[trigger] entries[k]),
            retained.deep_view() == retained_upto(entries, i as nat),
    {
        let mut shadowed = false;
        for j in 0..n
            invariant
                i < n,
                n == listing.len(),
                entries == listing.deep_view(),
                usable.len() == n,
                forall|k: int| 0 <= k < n ==> usable[k] == eligible(#[trigger] entries[k]),
                shadowed == exists|k: int| 0 <= k < j && shadows(entries, k, i as int),
        {
            if usable[j] && (is_strictly_below(listing[i].path.as_str(), listing[j].path.as_str())
                || (j < i && same_text(listing[j].path.as_str(), listing[i].path.as_str()))) {
                assert(shadows(entries, j as int, i as int));
                shadowed = true;
            }
        }
        let ghost before = retained.deep_view();
        if usable[i] && !shadowed {
            assert(retained_at(entries, i as int));
            retained.push(listing[i].clone());
            assert(retained.deep_view() == before.push(entries[i as int]));
        } else {
            assert(!retained_at(entries, i as int));
        }
    }
    proof {
        lemma_retained_is_nesting_free(entries);
    }
    retained
}

} // verus!
