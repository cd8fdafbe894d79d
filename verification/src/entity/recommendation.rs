//! Daily votes and the score aggregated from them.

use vstd::prelude::*;

verus! {

/// The votes that one game received on one day.
#[derive(Clone, Copy, Debug, PartialEq, Eq, Structural)]
pub struct Recommendation {
    pub date: u32,
    pub up: u32,
    pub down: u32,
}

/// Votes summed over a list of days; `sum` is `up - down`.
#[derive(Clone, Copy, Debug, PartialEq, Eq, Structural)]
pub struct RecommendationScore {
    pub up: u32,
    pub down: u32,
    pub sum: i32,
}

/// All up-votes of `recs`.
pub open spec fn total_up(recs: Seq<Recommendation>) -> int
    decreases recs.len(),
{
    if recs.len() == 0 {
        0
    } else {
        total_up(recs.drop_last()) + recs.last().up
    }
}

/// All down-votes of `recs`.
pub open spec fn total_down(recs: Seq<Recommendation>) -> int
    decreases recs.len(),
{
    if recs.len() == 0 {
        0
    } else {
        total_down(recs.drop_last()) + recs.last().down
    }
}

/// Appending one day adds its votes to both totals.
pub proof fn lemma_totals_push(recs: Seq<Recommendation>, r: Recommendation)
    ensures
        total_up(recs.push(r)) == total_up(recs) + r.up,
        total_down(recs.push(r)) == total_down(recs) + r.down,
{
    assert(recs.push(r).drop_last() =~= recs);
}

/// The totals of a prefix never exceed those of a longer prefix.
pub proof fn lemma_totals_monotonic(recs: Seq<Recommendation>, i: int, j: int)
    requires
        0 <= i <= j <= recs.len(),
    ensures
        0 <= total_up(recs.take(i)) <= total_up(recs.take(j)),
        0 <= total_down(recs.take(i)) <= total_down(recs.take(j)),
    decreases j,
{
    if j == 0 {
        assert(recs.take(i) =~= recs.take(j));
    } else if i == j {
        lemma_totals_monotonic(recs, 0, j - 1);
        assert(recs.take(j).drop_last() =~= recs.take(j - 1));
    } else {
        lemma_totals_monotonic(recs, i, j - 1);
        assert(recs.take(j).drop_last() =~= recs.take(j - 1));
    }
}

} // verus!
