//! Character-level helpers on string slices.
//!
//! Paths and query texts are handled as sequences of characters; the
//! functions here walk two slices side by side without copying them.

use vstd::prelude::*;
use vstd::std_specs::iter::IteratorSpec;

verus! {

/// Whether `s` begins with `prefix`.
pub fn has_prefix(s: &str, prefix: &str) -> (found: bool)
    ensures
        found == prefix@.is_prefix_of(s@),
{
    let mut rest = s.chars();
    let mut wanted = prefix.chars();
    let ghost mut seen: int = 0;
    loop
        invariant
            0 <= seen <= prefix@.len(),
            seen <= s@.len(),
            rest.obeys_prophetic_iter_laws(),
            wanted.obeys_prophetic_iter_laws(),
            rest.remaining() == s@.skip(seen),
            wanted.remaining() == prefix@.skip(seen),
            s@.take(seen) == prefix@.take(seen),
        decreases prefix@.len() - seen,
    {
        match wanted.next() {
            None => {
                assert(prefix@.take(seen) == prefix@);
                assert(s@.take(seen) == s@.subrange(0, prefix@.len() as int));
                return true;
            },
            Some(expected) => {
                match rest.next() {
                    None => {
                        return false;
                    },
                    Some(actual) => {
                        if actual != expected {
                            assert(s@[seen] != prefix@[seen]);
                            return false;
                        }
                        proof {
                            assert(s@.take(seen + 1) == s@.take(seen).push(s@[seen]));
                            assert(prefix@.take(seen + 1) == prefix@.take(seen).push(
                                prefix@[seen],
                            ));
                            assert(s@.skip(seen).drop_first() == s@.skip(seen + 1));
                            assert(prefix@.skip(seen).drop_first() == prefix@.skip(seen + 1));
                            seen = seen + 1;
                        }
                    },
                }
            },
        }
    }
}

/// Whether `a` and `b` hold the same characters.
pub fn same_text(a: &str, b: &str) -> (same: bool)
    ensures
        same == (a@ == b@),
{
    let mut left = a.chars();
    let mut right = b.chars();
    let ghost mut seen: int = 0;
    loop
        invariant
            0 <= seen <= a@.len(),
            seen <= b@.len(),
            left.obeys_prophetic_iter_laws(),
            right.obeys_prophetic_iter_laws(),
            left.remaining() == a@.skip(seen),
            right.remaining() == b@.skip(seen),
            a@.take(seen) == b@.take(seen),
        decreases a@.len() - seen,
    {
        match left.next() {
            None => {
                let end = right.next();
                assert(a@.take(seen) == a@);
                if end.is_none() {
                    assert(b@.take(seen) == b@);
                }
                return end.is_none();
            },
            Some(x) => {
                match right.next() {
                    None => {
                        return false;
                    },
                    Some(y) => {
                        if x != y {
                            assert(a@[seen] != b@[seen]);
                            return false;
                        }
                        proof {
                            assert(a@.take(seen + 1) == a@.take(seen).push(a@[seen]));
                            assert(b@.take(seen + 1) == b@.take(seen).push(b@[seen]));
                            assert(a@.skip(seen).drop_first() == a@.skip(seen + 1));
                            assert(b@.skip(seen).drop_first() == b@.skip(seen + 1));
                            seen = seen + 1;
                        }
                    },
                }
            },
        }
    }
}

/// `String::push`: appends one character to the end of `target`.
#[verifier::external_body]
pub(crate) fn push_char(target: &mut String, c: char)
    ensures
        final(target)@ == old(target)@.push(c),
{
    target.push(c);
}

} // verus!
