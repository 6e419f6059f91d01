//! The path exclusion policy: trees that are never indexed.

use vstd::prelude::*;
use crate::text::has_prefix;

verus! {

/// A path under one of the reserved roots: boot files, device nodes,
/// process and kernel information, scratch space.
pub open spec fn reserved_root(path: Seq<char>) -> bool {
    ||| "/boot"@.is_prefix_of(path)
    ||| "/dev"@.is_prefix_of(path)
    ||| "/proc"@.is_prefix_of(path)
    ||| "/sys"@.is_prefix_of(path)
    ||| "/tmp"@.is_prefix_of(path)
}

/// Whether a visited path is left out of the index. The test is anchored at
/// the start of the path, so a later segment of the same name does not count.
pub fn should_skip(path: &str) -> (skip: bool)
    ensures
        skip == reserved_root(path@),
{
    has_prefix(path, "/boot") || has_prefix(path, "/dev") || has_prefix(path, "/proc")
        || has_prefix(path, "/sys") || has_prefix(path, "/tmp")
}

} // verus!
