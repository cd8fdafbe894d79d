//! A histogram of votes by day, and sums over a range of days.

use vstd::prelude::*;
use vstd::string::StringExecFns;

verus! {

/// The votes of one day as the feed reports them.
#[derive(Clone, Copy, Debug, PartialEq, Eq, Structural)]
pub struct Recommendation {
    pub date: u32,
    pub recommendations_up: u32,
    pub recommendations_down: u32,
}

/// The span of time that one entry of a histogram covers.
#[derive(Clone, Copy, Debug, PartialEq, Eq, Structural)]
pub enum RollupType {
    Month,
    Week,
}

/// The votes of a game over time.
#[derive(Clone, Debug, PartialEq, Eq)]
pub struct Histogram {
    pub start_date: u32,
    pub end_date: u32,
    pub rollup_type: RollupType,
    pub rollups: Vec<Recommendation>,
}

/// The up-votes of the days of `rollups` from `min` to `max`, both included.
pub open spec fn up_between(rollups: Seq<Recommendation>, min: u32, max: u32) -> int
    decreases rollups.len(),
{
    if rollups.len() == 0 {
        0
    } else {
        up_between(rollups.drop_last(), min, max) + if min <= rollups.last().date <= max {
            rollups.last().recommendations_up as int
        } else {
            0
        }
    }
}

/// The down-votes of the days of `rollups` from `min` to `max`, both included.
pub open spec fn down_between(rollups: Seq<Recommendation>, min: u32, max: u32) -> int
    decreases rollups.len(),
{
    if rollups.len() == 0 {
        0
    } else {
        down_between(rollups.drop_last(), min, max) + if min <= rollups.last().date <= max {
            rollups.last().recommendations_down as int
        } else {
            0
        }
    }
}

/// The sums over a prefix never exceed the sums over a longer prefix.
pub proof fn lemma_between_monotonic(
    rollups: Seq<Recommendation>,
    min: u32,
    max: u32,
    i: int,
    j: int,
)
    requires
        0 <= i <= j <= rollups.len(),
    ensures
        0 <= up_between(rollups.take(i), min, max) <= up_between(rollups.take(j), min, max),
        0 <= down_between(rollups.take(i), min, max) <= down_between(rollups.take(j), min, max),
    decreases j,
{
    if j == 0 {
        assert(rollups.take(i) =~= rollups.take(j));
    } else if i == j {
        lemma_between_monotonic(rollups, min, max, 0, j - 1);
        assert(rollups.take(j).drop_last() =~= rollups.take(j - 1));
    } else {
        lemma_between_monotonic(rollups, min, max, i, j - 1);
        assert(rollups.take(j).drop_last() =~= rollups.take(j - 1));
    }
}

/// The rollup that a name of the feed stands for: `month` is a month, and
/// every other name a week.
pub fn rollup_type_of(name: &String) -> (rollup: RollupType)
    ensures
        rollup == if name@ == "month"@ {
            RollupType::Month
        } else {
            RollupType::Week
        },
{
    if *name == String::from_str("month") {
        RollupType::Month
    } else {
        RollupType::Week
    }
}

impl Histogram {
    /// A histogram without entries.
    pub fn empty() -> (h: Histogram)
        ensures
            h.start_date == 0,
            h.end_date == 0,
            h.rollup_type == RollupType::Month,
            h.rollups@ == Seq::<Recommendation>::empty(),
    {
        Histogram {
            start_date: 0,
            end_date: 0,
            rollup_type: RollupType::Month,
            rollups: Vec::new(),
        }
    }

    /// The histogram that a response of the feed holds: none unless the
    /// response reports success with the flag 1.
    pub fn from_response(
        success: u8,
        start_date: u32,
        end_date: u32,
        rollup_type: &String,
        rollups: Vec<Recommendation>,
    ) -> (h: Option<Histogram>)
        ensures
            h is Some <==> success == 1,
            h matches Some(h) ==> h.start_date == start_date && h.end_date == end_date
                && h.rollups == rollups && h.rollup_type == if rollup_type@ == "month"@ {
                RollupType::Month
            } else {
                RollupType::Week
            },
    {
        if success == 1 {
            Some(
                Histogram {
                    start_date,
                    end_date,
                    rollup_type: rollup_type_of(rollup_type),
                    rollups,
                },
            )
        } else {
            None
        }
    }
}

/// Sums the up-votes and the down-votes of the days from `min` to `max`, both
/// included. There is no result where a sum does not fit a `u32`.
pub fn accumulate(histogram: &Histogram, min: u32, max: u32) -> (sums: Option<(u32, u32)>)
    ensures
        sums is Some <==> up_between(histogram.rollups@, min, max) <= u32::MAX && down_between(
            histogram.rollups@,
            min,
            max,
        ) <= u32::MAX,
        sums matches Some((up, down)) ==> up == up_between(histogram.rollups@, min, max) && down
            == down_between(histogram.rollups@, min, max),
{
    let rollups = &histogram.rollups;
    let n = rollups.len();
    let mut up: u32 = 0;
    let mut down: u32 = 0;
    let mut i: usize = 0;
    assert(rollups@.take(0) =~= Seq::<Recommendation>::empty());
    while i < n
        invariant
            n == rollups.len(),
            i <= n,
            *rollups == histogram.rollups,
            up == up_between(rollups@.take(i as int), min, max),
            down == down_between(rollups@.take(i as int), min, max),
        decreases n - i,
    {
        let r = rollups[i];
        proof {
            assert(rollups@.take(i + 1).drop_last() =~= rollups@.take(i as int));
            lemma_between_monotonic(rollups@, min, max, i + 1, n as int);
            assert(rollups@.take(n as int) =~= rollups@);
        }
        if r.date >= min && r.date <= max {
            match (up.checked_add(r.recommendations_up), down.checked_add(r.recommendations_down)) {
                (Some(u), Some(d)) => {
                    up = u;
                    down = d;
                },
                _ => {
                    return None;
                },
            }
        }
        i += 1;
    }
    assert(rollups@.take(n as int) =~= rollups@);
    Some((up, down))
}

} // verus!
