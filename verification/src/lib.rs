//! A locate-style file index: which mounts to walk, which paths to keep,
//! how the stored index is replaced, and how queries are answered.
//!
//! The crate decides; it does not touch the machine. Listing mounts, walking
//! directories and running commands on the database are left to the caller,
//! who hands in what came of them as plain values.
//!
//! * `mounts`: the mount catalog, which retains the eligible mounts that lie
//!   below no other.
//! * `exclusion`: the reserved roots that are never indexed.
//! * `traversal`: the file index, built from what the walks visited.
//! * `store`: the replacement of the stored index inside one transaction.
//! * `update`: one full rebuild, from the mount table to the commit.
//! * `pattern`: the compiler from a query to one regular expression.
//! * `query`: the scan of the index rows with a compiled pattern.
//! * `engine`: the regular-expression engine that queries are handed to.
//! * `text`: comparisons of string slices, character by character.

pub mod text;
pub mod engine;
pub mod mounts;
pub mod exclusion;
pub mod traversal;
pub mod pattern;
pub mod store;
pub mod query;
pub mod update;
