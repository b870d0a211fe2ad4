//! Content hashing with the standard library's default hasher.

use vstd::prelude::*;
use std::collections::hash_map::DefaultHasher;
use std::hash::{Hash, Hasher};

verus! {

/// The hash that a fresh `DefaultHasher` gives a string after hashing it.
pub uninterp spec fn default_hash_of_text(text: Seq<char>) -> u64;

/// Hashes a string with a fresh `std::collections::hash_map::DefaultHasher`
/// (`Hash::hash`, then `Hasher::finish`). A fresh `DefaultHasher` is not seeded per
/// process, so the result is a function of the text alone; nothing else is claimed.
#[verifier::external_body]
pub(crate) fn hash_text(text: &str) -> (h: u64)
    ensures
        h == default_hash_of_text(text@),
{
    let mut hasher = DefaultHasher::new();
    text.hash(&mut hasher);
    hasher.finish()
}

} // verus!
