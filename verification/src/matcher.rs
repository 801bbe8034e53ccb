//! Deciding whether a query occurs in a read at some offset with at most a
//! given number of substituted characters. Alignment is position by position:
//! no insertions, no deletions.

use crate::fraction::{
    lemma_budget_monotonic,
    lemma_zero_fraction_grants_nothing,
    MismatchFraction,
    Ratio,
};
use crate::text::chars_of;
use vstd::prelude::*;

verus! {

/// Number of positions `j < upto` at which `query[j]` differs from
/// `read[start + j]`.
pub open spec fn mismatches(read: Seq<char>, query: Seq<char>, start: int, upto: int) -> nat
    decreases upto,
{
    if upto <= 0 {
        0
    } else {
        mismatches(read, query, start, upto - 1) + if read[start + upto - 1] != query[upto - 1] {
            1nat
        } else {
            0nat
        }
    }
}

/// `query` fits inside `read` at offset `start` and differs from the
/// characters it covers in at most `budget` positions.
pub open spec fn aligns_at(read: Seq<char>, query: Seq<char>, start: int, budget: nat) -> bool {
    &&& 0 <= start
    &&& start + query.len() <= read.len()
    &&& mismatches(read, query, start, query.len() as int) <= budget
}

/// `query` occurs in `read` at some offset with at most `budget` mismatches.
pub open spec fn has_match(read: Seq<char>, query: Seq<char>, budget: nat) -> bool {
    exists|start: int| aligns_at(read, query, start, budget)
}

/// `query` occurs in `read` as a contiguous run of equal characters.
pub open spec fn occurs_in(read: Seq<char>, query: Seq<char>) -> bool {
    exists|start: int|
        0 <= start && start + query.len() <= read.len() && #[trigger] read.subrange(
            start,
            start + query.len(),
        ) == query
}

/// Counting further positions never lowers the number of mismatches.
proof fn lemma_mismatches_grow(read: Seq<char>, query: Seq<char>, start: int, lo: int, hi: int)
    requires
        lo <= hi,
    ensures
        mismatches(read, query, start, lo) <= mismatches(read, query, start, hi),
    decreases hi - lo,
{
    if lo < hi {
        lemma_mismatches_grow(read, query, start, lo, hi - 1);
    }
}

/// No mismatch over the first `upto` positions means those positions agree.
proof fn lemma_no_mismatch_means_equal(read: Seq<char>, query: Seq<char>, start: int, upto: int)
    requires
        0 <= upto,
    ensures
        mismatches(read, query, start, upto) == 0 <==> forall|j: int|
            0 <= j < upto ==> read[start + j] == #[trigger] query[j],
    decreases upto,
{
    if upto > 0 {
        lemma_no_mismatch_means_equal(read, query, start, upto - 1);
        if mismatches(read, query, start, upto) == 0 {
            assert forall|j: int| 0 <= j < upto implies read[start + j] == #[trigger] query[j] by {
                if j < upto - 1 {
                } else {
                    assert(j == upto - 1);
                }
            }
        }
    }
}

/// Whether `query` occurs in `read`, at any offset, with at most `budget`
/// substituted characters. Offsets are tried from the left and the first one
/// that fits decides; an offset is given up as soon as it has used more than
/// the budget.
pub fn matches_within(read: &[char], query: &[char], budget: usize) -> (found: bool)
    ensures
        found == has_match(read@, query@, budget as nat),
        query@.len() > read@.len() ==> !found,
{
    if query.len() > read.len() {
        return false;
    }
    let last: usize = read.len() - query.len();
    let mut start: usize = 0;
    loop
        invariant
            read@.len() <= usize::MAX,
            last == read@.len() - query@.len(),
            start <= last,
            forall|s: int| 0 <= s < start ==> !aligns_at(read@, query@, s, budget as nat),
        decreases last - start,
    {
        let mut seen: usize = 0;
        let mut misses: usize = 0;
        while seen < query.len() && misses <= budget
            invariant
                read@.len() <= usize::MAX,
                last == read@.len() - query@.len(),
                start <= last,
                seen <= query@.len(),
                misses <= seen,
                misses == mismatches(read@, query@, start as int, seen as int),
            decreases query@.len() - seen,
        {
            if read[start + seen] != query[seen] {
                misses = misses + 1;
            }
            seen = seen + 1;
        }
        if misses <= budget {
            assert(aligns_at(read@, query@, start as int, budget as nat));
            return true;
        }
        proof {
            lemma_mismatches_grow(read@, query@, start as int, seen as int, query@.len() as int);
        }
        if start == last {
            return false;
        }
        start = start + 1;
    }
}

/// Whether `sequence` occurs in `read` under the mismatch budget that
/// `fraction` grants to the sequence's length in characters. Both texts are
/// compared as given: bring them to one case beforehand.
pub fn is_match(read: &str, sequence: &str, fraction: &MismatchFraction) -> (found: bool)
    ensures
        found == has_match(read@, sequence@, fraction@.budget(sequence@.len())),
        sequence@.len() > read@.len() ==> !found,
{
    let read_chars = chars_of(read);
    let pattern = chars_of(sequence);
    let budget = fraction.budget(pattern.len());
    matches_within(read_chars.as_slice(), pattern.as_slice(), budget)
}

/// With no mismatch allowed, a query matches exactly when it occurs in the
/// read as a contiguous run of characters.
pub proof fn lemma_exact_match_is_occurrence(read: Seq<char>, query: Seq<char>)
    ensures
        has_match(read, query, 0) <==> occurs_in(read, query),
{
    if has_match(read, query, 0) {
        let start = choose|start: int| aligns_at(read, query, start, 0);
        lemma_no_mismatch_means_equal(read, query, start, query.len() as int);
        assert(read.subrange(start, start + query.len()) =~= query);
    }
    if occurs_in(read, query) {
        let start = choose|start: int|
            0 <= start && start + query.len() <= read.len() && #[trigger] read.subrange(
                start,
                start + query.len(),
            ) == query;
        let window = read.subrange(start, start + query.len());
        assert forall|j: int| 0 <= j < query.len() implies read[start + j] == #[trigger] query[j] by {
            assert(window[j] == read[start + j]);
        }
        lemma_no_mismatch_means_equal(read, query, start, query.len() as int);
        assert(aligns_at(read, query, start, 0));
    }
}

/// Under a tolerated fraction of zero, a query matches exactly when it occurs
/// in the read as a contiguous run of characters.
pub proof fn lemma_zero_fraction_is_exact(read: Seq<char>, query: Seq<char>, fraction: Ratio)
    requires
        fraction.numerator == 0,
        fraction.denominator > 0,
    ensures
        has_match(read, query, fraction.budget(query.len())) <==> occurs_in(read, query),
{
    lemma_zero_fraction_grants_nothing(query.len(), fraction.denominator);
    lemma_exact_match_is_occurrence(read, query);
}

/// Every sequence matches itself, whatever the budget.
pub proof fn lemma_identity_match(query: Seq<char>, budget: nat)
    ensures
        has_match(query, query, budget),
{
    lemma_no_mismatch_means_equal(query, query, 0, query.len() as int);
    assert(aligns_at(query, query, 0, budget));
}

/// Raising the budget never turns a match into a miss.
pub proof fn lemma_match_monotonic_in_budget(
    read: Seq<char>,
    query: Seq<char>,
    smaller: nat,
    larger: nat,
)
    requires
        smaller <= larger,
        has_match(read, query, smaller),
    ensures
        has_match(read, query, larger),
{
    let start = choose|start: int| aligns_at(read, query, start, smaller);
    assert(aligns_at(read, query, start, larger));
}

/// Raising the tolerated fraction never turns a match into a miss.
pub proof fn lemma_match_monotonic_in_fraction(
    read: Seq<char>,
    query: Seq<char>,
    smaller: Ratio,
    larger: Ratio,
)
    requires
        smaller.denominator > 0,
        larger.denominator > 0,
        smaller.at_most(larger),
        has_match(read, query, smaller.budget(query.len())),
    ensures
        has_match(read, query, larger.budget(query.len())),
{
    lemma_budget_monotonic(query.len(), smaller, larger);
    lemma_match_monotonic_in_budget(
        read,
        query,
        smaller.budget(query.len()),
        larger.budget(query.len()),
    );
}

/// A query longer than the read never matches, whatever the budget.
pub proof fn lemma_longer_query_never_matches(read: Seq<char>, query: Seq<char>, budget: nat)
    requires
        query.len() > read.len(),
    ensures
        !has_match(read, query, budget),
{
}

} // verus!
