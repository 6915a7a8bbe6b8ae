//! Gathering the results of several sources into one listing.
use vstd::prelude::*;

use crate::types::BookResult;

verus! {

/// The smaller of `a` and `b`.
pub open spec fn min(a: int, b: int) -> int {
    if a <= b {
        a
    } else {
        b
    }
}

/// `min` is the lesser of its two arguments.
pub proof fn lemma_min(a: int, b: int)
    ensures
        min(a, b) <= a && min(a, b) <= b,
        min(a, b) == a || min(a, b) == b,
{
}

/// Adds at most `limit` of one source's results, in their order, after those
/// gathered so far.
pub fn add_limited(all: &mut Vec<BookResult>, results: Vec<BookResult>, limit: usize)
    ensures
        final(all)@ == old(all)@ + results@.take(min(limit as int, results.len() as int)),
{
    let mut results = results;
    let ghost orig = results@;
    results.truncate(limit);
    assert(results@ =~= orig.take(min(limit as int, orig.len() as int)));
    all.append(&mut results);
}

} // verus!
