//! Core of a concurrent breadth-first web crawler: a pure link extractor, a
//! deduplicating registry of scheduled addresses, and the coordination state of
//! a fixed pool of workers.  Addresses are plain strings (serialized URLs);
//! equality is exact string equality.

use vstd::prelude::*;

pub mod parser;
pub mod urls;
pub mod worker;

verus! {

/// The character sequences of a sequence of strings.
pub open spec fn views_of(v: Seq<String>) -> Seq<Seq<char>> {
    v.map_values(|s: String| s@)
}

} // verus!
