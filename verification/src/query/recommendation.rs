//! Range filters over aggregated votes.

use crate::arith::{ceil_div, div_ceil_i64, div_ceil_u64, i32_to_u32, u32_to_i32};
use crate::entity::recommendation::{
    lemma_totals_monotonic, lemma_totals_push, total_down, total_up, Recommendation,
    RecommendationScore,
};
use vstd::prelude::*;

verus! {

/// A pair of bounds as a caller configures it.
#[derive(Clone, Copy, Debug, PartialEq, Eq, Structural)]
pub struct SimpleRangeInput {
    pub min: i32,
    pub max: i32,
}

impl SimpleRangeInput {
    /// The rule for an unsigned magnitude: a negative `min` sets no lower bound,
    /// and a positive `max` sets no upper bound.
    pub open spec fn accepts(self, v: int) -> bool {
        (self.min < 0 || v >= self.min) && (self.max > 0 || v <= self.max)
    }

    /// `v` lies in the inclusive interval from `min` to `max`.
    pub open spec fn contains(self, v: int) -> bool {
        self.min <= v <= self.max
    }

    /// Holds an unsigned magnitude against the bounds.
    pub fn verify_u32(&self, v: u32) -> (ok: bool)
        ensures
            ok == self.accepts(v as int),
    {
        let lower = match i32_to_u32(self.min) {
            Some(min) => v >= min,
            None => true,
        };
        let upper = self.max > 0 || match i32_to_u32(self.max) {
            Some(max) => v <= max,
            None => false,
        };
        lower && upper
    }

    /// Holds a signed number against the bounds, both included.
    pub fn verify_i32(&self, v: i32) -> (ok: bool)
        ensures
            ok == self.contains(v as int),
    {
        v >= self.min && v <= self.max
    }
}

/// How the bounds of a range are read: against the raw count, or against the
/// count scaled by `baseline` and divided by the total of all votes.
#[derive(Clone, Copy, Debug, PartialEq, Eq, Structural)]
pub enum RangeFormat {
    Pct { baseline: u32 },
    Count,
}

/// Bounds together with the way to read them.
#[derive(Clone, Copy, Debug, PartialEq, Eq, Structural)]
pub struct ComplexRangeInput {
    pub format: RangeFormat,
    pub range: SimpleRangeInput,
}

impl ComplexRangeInput {
    /// The number that is held against the bounds for a count `v` out of `total`
    /// votes. An empty aggregate has zero percent of anything.
    pub open spec fn compared(self, v: int, total: int) -> int {
        match self.format {
            RangeFormat::Count => v,
            RangeFormat::Pct { baseline } => if total != 0 {
                ceil_div(v * baseline, total)
            } else {
                0
            },
        }
    }

    /// The unsigned rule applied to `compared`.
    pub open spec fn accepts(self, v: int, total: int) -> bool {
        self.range.accepts(self.compared(v, total))
    }

    /// The signed rule applied to `compared`. A percentage whose total or
    /// baseline does not fit a signed 32-bit number is never accepted.
    pub open spec fn accepts_signed(self, v: int, total: int) -> bool {
        match self.format {
            RangeFormat::Count => self.range.contains(v),
            RangeFormat::Pct { baseline } => if total == 0 {
                self.range.contains(0)
            } else {
                total <= i32::MAX && baseline <= i32::MAX && self.range.contains(
                    ceil_div(v * baseline, total),
                )
            },
        }
    }

    /// Holds the count `v`, or its share of `total`, against the bounds.
    pub fn verify_u32(&self, v: u32, total: u32) -> (ok: bool)
        ensures
            ok == self.accepts(v as int, total as int),
    {
        match self.format {
            RangeFormat::Count => self.range.verify_u32(v),
            RangeFormat::Pct { baseline } => {
                if total != 0 {
                    assert(v * baseline <= u64::MAX) by (nonlinear_arith)
                        requires
                            0 <= v <= u32::MAX,
                            0 <= baseline <= u32::MAX,
                    ;
                    let scaled: u64 = (v as u64) * (baseline as u64);
                    let share: u64 = div_ceil_u64(scaled, total as u64);
                    // Past `u32::MAX` every magnitude meets the bounds alike.
                    let capped: u32 = if share > u32::MAX as u64 {
                        u32::MAX
                    } else {
                        share as u32
                    };
                    self.range.verify_u32(capped)
                } else {
                    self.range.verify_u32(0)
                }
            },
        }
    }

    /// Holds the signed number `v`, or its share of `total`, against the bounds.
    pub fn verify_i32(&self, v: i32, total: u32) -> (ok: bool)
        ensures
            ok == self.accepts_signed(v as int, total as int),
    {
        match self.format {
            RangeFormat::Count => self.range.verify_i32(v),
            RangeFormat::Pct { baseline } => {
                if total != 0 {
                    match (u32_to_i32(total), u32_to_i32(baseline)) {
                        (Some(total), Some(baseline)) => {
                            assert(i64::MIN <= v * baseline <= i64::MAX) by (nonlinear_arith)
                                requires
                                    i32::MIN <= v <= i32::MAX,
                                    0 <= baseline <= i32::MAX,
                            ;
                            let scaled: i64 = (v as i64) * (baseline as i64);
                            let share: i64 = div_ceil_i64(scaled, total as i64);
                            if share < i32::MIN as i64 || share > i32::MAX as i64 {
                                false
                            } else {
                                self.range.verify_i32(share as i32)
                            }
                        },
                        _ => false,
                    }
                } else {
                    self.range.verify_i32(0)
                }
            },
        }
    }
}

/// An optional pair of bounds; unset, it accepts everything.
pub struct SimpleRange(Option<SimpleRangeInput>);

impl View for SimpleRange {
    type V = Option<SimpleRangeInput>;

    closed spec fn view(&self) -> Option<SimpleRangeInput> {
        self.0
    }
}

impl SimpleRange {
    /// A range that is not set.
    pub fn none() -> (r: Self)
        ensures
            r@ is None,
    {
        SimpleRange(None)
    }

    /// Tells whether the range is not set.
    pub fn is_none(&self) -> (b: bool)
        ensures
            b == (self@ is None),
    {
        self.0.is_none()
    }

    /// `v` meets the unsigned rule of the bounds, if any are set.
    pub open spec fn accepts(self, v: int) -> bool {
        self@ matches Some(range) ==> range.accepts(v)
    }

    /// `v` lies between the bounds, both included, if any are set.
    pub open spec fn contains(self, v: int) -> bool {
        self@ matches Some(range) ==> range.contains(v)
    }

    /// Holds an unsigned magnitude against the bounds, if any are set.
    pub fn verify_u32(&self, v: u32) -> (ok: bool)
        ensures
            ok == self.accepts(v as int),
    {
        match &self.0 {
            None => true,
            Some(range) => range.verify_u32(v),
        }
    }

    /// Tells whether `date` falls inside the window, bounds included.
    pub fn holds_date(&self, date: u32) -> (ok: bool)
        ensures
            ok == self.contains(date as int),
    {
        match &self.0 {
            None => true,
            Some(range) => (date as i64) >= (range.min as i64) && (date as i64) <= (
            range.max as i64),
        }
    }
}

/// An optional range with its format; unset, it accepts everything.
pub struct ComplexRange(Option<ComplexRangeInput>);

impl View for ComplexRange {
    type V = Option<ComplexRangeInput>;

    closed spec fn view(&self) -> Option<ComplexRangeInput> {
        self.0
    }
}

impl ComplexRange {
    /// A range that is not set.
    pub fn none() -> (r: Self)
        ensures
            r@ is None,
    {
        ComplexRange(None)
    }

    /// Tells whether the range is not set.
    pub fn is_none(&self) -> (b: bool)
        ensures
            b == (self@ is None),
    {
        self.0.is_none()
    }

    /// The range, if it is set, accepts the count `v` out of `total`.
    pub open spec fn accepts(self, v: int, total: int) -> bool {
        self@ matches Some(range) ==> range.accepts(v, total)
    }

    /// The range, if it is set, accepts the signed number `v` out of `total`.
    pub open spec fn accepts_signed(self, v: int, total: int) -> bool {
        self@ matches Some(range) ==> range.accepts_signed(v, total)
    }

    /// Holds the count `v` out of `total` against the range, if it is set.
    pub fn verify_u32(&self, v: u32, total: u32) -> (ok: bool)
        ensures
            ok == self.accepts(v as int, total as int),
    {
        match &self.0 {
            None => true,
            Some(range) => range.verify_u32(v, total),
        }
    }

    /// Holds the signed number `v` out of `total` against the range, if it is
    /// set.
    pub fn verify_i32(&self, v: i32, total: u32) -> (ok: bool)
        ensures
            ok == self.accepts_signed(v as int, total as int),
    {
        match &self.0 {
            None => true,
            Some(range) => range.verify_i32(v, total),
        }
    }
}

/// One configured filter, tagged with the aggregate that it bounds.
#[derive(Clone, Copy, Debug, PartialEq, Eq, Structural)]
pub enum QueryInput {
    Date(SimpleRangeInput),
    Total(SimpleRangeInput),
    Up(ComplexRangeInput),
    Down(ComplexRangeInput),
    Sum(ComplexRangeInput),
}

/// The format that a code stands for: 1 for a percentage of `baseline`, 2 for a
/// count. Any other code stands for no format.
pub open spec fn format_of(code: u32, baseline: u32) -> Option<RangeFormat> {
    if code == 1 {
        Some(RangeFormat::Pct { baseline })
    } else if code == 2 {
        Some(RangeFormat::Count)
    } else {
        None
    }
}

impl QueryInput {
    /// The input that a flat descriptor stands for. The kinds 0 and 1, date and
    /// total, take no format; the kinds 2, 3 and 4, up, down and sum, need one.
    pub open spec fn decoded(kind: u32, format: u32, baseline: u32, min: i32, max: i32) -> Option<
        QueryInput,
    > {
        let range = SimpleRangeInput { min, max };
        match format_of(format, baseline) {
            None => if kind == 0 {
                Some(QueryInput::Date(range))
            } else if kind == 1 {
                Some(QueryInput::Total(range))
            } else {
                None
            },
            Some(format) => if kind == 2 {
                Some(QueryInput::Up(ComplexRangeInput { format, range }))
            } else if kind == 3 {
                Some(QueryInput::Down(ComplexRangeInput { format, range }))
            } else if kind == 4 {
                Some(QueryInput::Sum(ComplexRangeInput { format, range }))
            } else {
                None
            },
        }
    }

    /// Reads an input from its flat descriptor.
    pub fn from_liner(kind: u32, format: u32, baseline: u32, min: i32, max: i32) -> (input: Option<
        QueryInput,
    >)
        ensures
            input == Self::decoded(kind, format, baseline, min, max),
    {
        let format = match format {
            1 => Some(RangeFormat::Pct { baseline }),
            2 => Some(RangeFormat::Count),
            _ => None,
        };
        let range = SimpleRangeInput { min, max };
        match (kind, format) {
            (0, None) => Some(QueryInput::Date(range)),
            (1, None) => Some(QueryInput::Total(range)),
            (2, Some(format)) => Some(QueryInput::Up(ComplexRangeInput { format, range })),
            (3, Some(format)) => Some(QueryInput::Down(ComplexRangeInput { format, range })),
            (4, Some(format)) => Some(QueryInput::Sum(ComplexRangeInput { format, range })),
            _ => None,
        }
    }
}

/// The filters over the votes of one game: a date window, and ranges for the
/// total, the up-votes, the down-votes and their difference.
pub struct RecommendationQuery {
    date: SimpleRange,
    total: SimpleRange,
    up: ComplexRange,
    down: ComplexRange,
    sum: ComplexRange,
}

/// What a `RecommendationQuery` is configured with.
pub ghost struct RecommendationFilters {
    pub date: Option<SimpleRangeInput>,
    pub total: Option<SimpleRangeInput>,
    pub up: Option<ComplexRangeInput>,
    pub down: Option<ComplexRangeInput>,
    pub sum: Option<ComplexRangeInput>,
}

impl RecommendationFilters {
    /// No filter set.
    pub open spec fn empty() -> Self {
        RecommendationFilters { date: None, total: None, up: None, down: None, sum: None }
    }

    /// Takes `input` unless a filter of its kind is already set.
    pub open spec fn commit(self, input: QueryInput) -> Self {
        match input {
            QueryInput::Date(r) => if self.date is None {
                RecommendationFilters { date: Some(r), ..self }
            } else {
                self
            },
            QueryInput::Total(r) => if self.total is None {
                RecommendationFilters { total: Some(r), ..self }
            } else {
                self
            },
            QueryInput::Up(r) => if self.up is None {
                RecommendationFilters { up: Some(r), ..self }
            } else {
                self
            },
            QueryInput::Down(r) => if self.down is None {
                RecommendationFilters { down: Some(r), ..self }
            } else {
                self
            },
            QueryInput::Sum(r) => if self.sum is None {
                RecommendationFilters { sum: Some(r), ..self }
            } else {
                self
            },
        }
    }

    /// Takes the inputs one after the other, from the first to the last.
    pub open spec fn commit_all(self, inputs: Seq<QueryInput>) -> Self
        decreases inputs.len(),
    {
        if inputs.len() == 0 {
            self
        } else {
            self.commit_all(inputs.drop_last()).commit(inputs.last())
        }
    }

    /// The days that the date window keeps, in their order.
    pub open spec fn window(self, recs: Seq<Recommendation>) -> Seq<Recommendation> {
        match self.date {
            None => recs,
            Some(w) => recs.filter(|r: Recommendation| w.contains(r.date as int)),
        }
    }

    /// The score of the days in `kept`, where both totals fit a signed 32-bit
    /// number and every configured range accepts its aggregate.
    pub open spec fn score(self, kept: Seq<Recommendation>) -> Option<RecommendationScore> {
        let up = total_up(kept);
        let down = total_down(kept);
        if up <= i32::MAX && down <= i32::MAX
            && (self.total matches Some(r) ==> r.accepts(up + down))
            && (self.up matches Some(r) ==> r.accepts(up, up + down))
            && (self.down matches Some(r) ==> r.accepts(down, up + down))
            && (self.sum matches Some(r) ==> r.accepts_signed(up - down, up + down)) {
            Some(RecommendationScore { up: up as u32, down: down as u32, sum: (up - down) as i32 })
        } else {
            None
        }
    }

    /// The outcome for the votes of one game: the window first, then the score.
    pub open spec fn run(self, recs: Seq<Recommendation>) -> Option<RecommendationScore> {
        self.score(self.window(recs))
    }
}

impl View for RecommendationQuery {
    type V = RecommendationFilters;

    closed spec fn view(&self) -> RecommendationFilters {
        RecommendationFilters {
            date: self.date@,
            total: self.total@,
            up: self.up@,
            down: self.down@,
            sum: self.sum@,
        }
    }
}

impl RecommendationQuery {
    /// A query without filters.
    pub fn new() -> (q: Self)
        ensures
            q@ == RecommendationFilters::empty(),
    {
        RecommendationQuery {
            date: SimpleRange::none(),
            total: SimpleRange::none(),
            up: ComplexRange::none(),
            down: ComplexRange::none(),
            sum: ComplexRange::none(),
        }
    }

    /// Configures the query from `inputs`, in order. Of several inputs of one
    /// kind the first is kept, and a filter that is already set stays.
    pub fn build(&mut self, inputs: Vec<QueryInput>)
        ensures
            final(self)@ == old(self)@.commit_all(inputs@),
    {
        let n = inputs.len();
        let mut i: usize = 0;
        assert(inputs@.take(0) =~= Seq::<QueryInput>::empty());
        while i < n
            invariant
                n == inputs.len(),
                i <= n,
                self@ == old(self)@.commit_all(inputs@.take(i as int)),
            decreases n - i,
        {
            let input = inputs[i];
            assert(inputs@.take(i + 1).drop_last() =~= inputs@.take(i as int));
            match input {
                QueryInput::Date(filter) => {
                    if self.date.is_none() {
                        self.date = SimpleRange(Some(filter));
                    }
                },
                QueryInput::Total(filter) => {
                    if self.total.is_none() {
                        self.total = SimpleRange(Some(filter));
                    }
                },
                QueryInput::Up(filter) => {
                    if self.up.is_none() {
                        self.up = ComplexRange(Some(filter));
                    }
                },
                QueryInput::Down(filter) => {
                    if self.down.is_none() {
                        self.down = ComplexRange(Some(filter));
                    }
                },
                QueryInput::Sum(filter) => {
                    if self.sum.is_none() {
                        self.sum = ComplexRange(Some(filter));
                    }
                },
            }
            i += 1;
        }
        assert(inputs@.take(n as int) =~= inputs@);
    }

    /// Applies the date window to `recommendations` and scores what is left.
    /// `None` means that the game is left out of the results.
    pub fn run(&self, recommendations: &Vec<Recommendation>) -> (score: Option<
        RecommendationScore,
    >)
        ensures
            score == self@.run(recommendations@),
    {
        if self.date.is_none() {
            self.evaluate(recommendations)
        } else {
            let ghost keep = |r: Recommendation| self.date@.unwrap().contains(r.date as int);
            let mut kept: Vec<Recommendation> = Vec::new();
            let n = recommendations.len();
            let mut i: usize = 0;
            assert(recommendations@.take(0) =~= Seq::<Recommendation>::empty());
            while i < n
                invariant
                    n == recommendations.len(),
                    i <= n,
                    self.date@ is Some,
                    keep == |r: Recommendation| self.date@.unwrap().contains(r.date as int),
                    kept@ == recommendations@.take(i as int).filter(keep),
                decreases n - i,
            {
                let r = recommendations[i];
                assert(recommendations@.take(i + 1).drop_last() =~= recommendations@.take(
                    i as int,
                ));
                reveal(Seq::filter);
                if self.date.holds_date(r.date) {
                    kept.push(r);
                }
                i += 1;
            }
            assert(recommendations@.take(n as int) =~= recommendations@);
            self.evaluate(&kept)
        }
    }

    /// Sums the votes of `kept` and holds the sums against the configured ranges.
    pub fn evaluate(&self, kept: &Vec<Recommendation>) -> (score: Option<RecommendationScore>)
        ensures
            score == self@.score(kept@),
    {
        let n = kept.len();
        let mut up: u32 = 0;
        let mut down: u32 = 0;
        let mut i: usize = 0;
        assert(kept@.take(0) =~= Seq::<Recommendation>::empty());
        while i < n
            invariant
                n == kept.len(),
                i <= n,
                up == total_up(kept@.take(i as int)),
                down == total_down(kept@.take(i as int)),
            decreases n - i,
        {
            let r = kept[i];
            proof {
                assert(kept@.take(i + 1) =~= kept@.take(i as int).push(r));
                lemma_totals_push(kept@.take(i as int), r);
                lemma_totals_monotonic(kept@, i + 1, n as int);
                assert(kept@.take(n as int) =~= kept@);
            }
            match (up.checked_add(r.up), down.checked_add(r.down)) {
                (Some(u), Some(d)) => {
                    up = u;
                    down = d;
                },
                _ => {
                    return None;
                },
            }
            i += 1;
        }
        assert(kept@.take(n as int) =~= kept@);
        match (u32_to_i32(up), u32_to_i32(down)) {
            (Some(signed_up), Some(signed_down)) => {
                let total = up + down;
                let sum = signed_up - signed_down;
                if self.total.verify_u32(total) && self.up.verify_u32(up, total)
                    && self.down.verify_u32(down, total) && self.sum.verify_i32(sum, total) {
                    Some(RecommendationScore { up, down, sum })
                } else {
                    None
                }
            },
            _ => None,
        }
    }
}

/// A filter that is set stays as it is, whatever inputs follow: of several
/// inputs of one kind the first is kept.
pub proof fn lemma_set_filters_stay(
    filters: RecommendationFilters,
    inputs: Seq<QueryInput>,
    i: int,
)
    requires
        0 <= i <= inputs.len(),
    ensures
        filters.commit_all(inputs.take(i)).date is Some ==> filters.commit_all(inputs).date
            == filters.commit_all(inputs.take(i)).date,
        filters.commit_all(inputs.take(i)).total is Some ==> filters.commit_all(inputs).total
            == filters.commit_all(inputs.take(i)).total,
        filters.commit_all(inputs.take(i)).up is Some ==> filters.commit_all(inputs).up
            == filters.commit_all(inputs.take(i)).up,
        filters.commit_all(inputs.take(i)).down is Some ==> filters.commit_all(inputs).down
            == filters.commit_all(inputs.take(i)).down,
        filters.commit_all(inputs.take(i)).sum is Some ==> filters.commit_all(inputs).sum
            == filters.commit_all(inputs.take(i)).sum,
    decreases inputs.len(),
{
    if i == inputs.len() {
        assert(inputs.take(i) =~= inputs);
    } else {
        lemma_set_filters_stay(filters, inputs.drop_last(), i);
        assert(inputs.drop_last().take(i) =~= inputs.take(i));
    }
}

/// The date window works before anything is summed: what it keeps are days of
/// the list that lie inside the window, and every such day is kept.
pub proof fn lemma_window_keeps_inside(filters: RecommendationFilters, recs: Seq<Recommendation>)
    requires
        filters.date is Some,
    ensures
        forall|i: int|
            0 <= i < filters.window(recs).len() ==> recs.contains(
                #[trigger] filters.window(recs)[i],
            ) && filters.date->0.contains(filters.window(recs)[i].date as int),
        forall|i: int|
            0 <= i < recs.len() && filters.date->0.contains((#[trigger] recs[i]).date as int)
                ==> filters.window(recs).contains(recs[i]),
        filters.run(recs) == filters.score(filters.window(recs)),
{
    let w = filters.date->0;
    let keep = |r: Recommendation| w.contains(r.date as int);
    assert forall|i: int| 0 <= i < filters.window(recs).len() implies recs.contains(
        #[trigger] filters.window(recs)[i],
    ) && w.contains(filters.window(recs)[i].date as int) by {
        recs.lemma_filter_contains_rev(keep, filters.window(recs)[i]);
        recs.lemma_filter_pred(keep, i);
    }
    assert forall|i: int|
        0 <= i < recs.len() && w.contains((#[trigger] recs[i]).date as int) implies filters.window(
        recs,
    ).contains(recs[i]) by {
        recs.lemma_filter_contains(keep, i);
    }
}

/// Where the date window keeps no day at all, there is nothing to sum: both
/// totals are zero, and a score, if the ranges allow one, is all zeros.
pub proof fn lemma_window_excludes_all(filters: RecommendationFilters, recs: Seq<Recommendation>)
    requires
        filters.date is Some,
        forall|i: int| 0 <= i < recs.len() ==> !filters.date->0.contains(recs[i].date as int),
    ensures
        filters.window(recs) == Seq::<Recommendation>::empty(),
        total_up(filters.window(recs)) == 0,
        total_down(filters.window(recs)) == 0,
        filters.run(recs) matches Some(score) ==> score == (RecommendationScore {
            up: 0,
            down: 0,
            sum: 0,
        }),
{
    let w = filters.date->0;
    let keep = |r: Recommendation| w.contains(r.date as int);
    let kept = recs.filter(keep);
    if kept.len() > 0 {
        recs.lemma_filter_contains_rev(keep, kept[0]);
        recs.lemma_filter_pred(keep, 0);
        assert(false);
    }
    assert(kept =~= Seq::<Recommendation>::empty());
}

} // verus!
