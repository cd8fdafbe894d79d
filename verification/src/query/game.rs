//! The query over games: id filters first, vote filters second.

use crate::entity::game::{Game, GameView};
use crate::entity::recommendation::RecommendationScore;
use crate::query::id::{IdDomains, IdQuery};
use crate::query::recommendation::{RecommendationFilters, RecommendationQuery};
use vstd::prelude::*;

verus! {

/// One accepted game, with the score of its votes where it has votes.
#[derive(Clone, Debug, PartialEq, Eq)]
pub struct GameQueryResult {
    pub id: u32,
    pub name: String,
    pub tags: Option<Vec<u32>>,
    pub releaseDate: Option<u32>,
    pub recommendations: Option<RecommendationScore>,
}

/// The contents of a `GameQueryResult`.
pub ghost struct GameQueryResultView {
    pub id: u32,
    pub name: Seq<char>,
    pub tags: Option<Seq<u32>>,
    pub releaseDate: Option<u32>,
    pub recommendations: Option<RecommendationScore>,
}

impl View for GameQueryResult {
    type V = GameQueryResultView;

    open spec fn view(&self) -> GameQueryResultView {
        GameQueryResultView {
            id: self.id,
            name: self.name@,
            tags: match self.tags {
                Some(tags) => Some(tags@),
                None => None,
            },
            releaseDate: self.releaseDate,
            recommendations: self.recommendations,
        }
    }
}

/// The result for `game` when its votes came to `score`.
pub open spec fn result_of(game: GameView, score: Option<RecommendationScore>)
    -> GameQueryResultView {
    GameQueryResultView {
        id: game.id,
        name: game.name,
        tags: game.tags,
        releaseDate: game.releaseDate,
        recommendations: score,
    }
}

/// What a query with the id filters `ids` and the vote filters `votes` makes of
/// `game`. A game that fails the id filters is rejected. A game without votes
/// is then accepted as it is, whatever the vote filters say. A game with votes
/// is accepted with its score, or rejected where it has none.
pub open spec fn outcome(ids: IdDomains, votes: RecommendationFilters, game: GameView) -> Option<
    GameQueryResultView,
> {
    if !ids.admits(game) {
        None
    } else {
        match game.recommendations {
            None => Some(result_of(game, None)),
            Some(recs) => match votes.run(recs) {
                Some(score) => Some(result_of(game, Some(score))),
                None => None,
            },
        }
    }
}

/// An id query and a recommendation query, applied together.
pub struct GameQuery {
    pub idQuery: IdQuery,
    pub recommendationQuery: RecommendationQuery,
}

impl GameQuery {
    /// A query without filters: it accepts every game.
    pub fn new() -> (q: Self)
        ensures
            q.idQuery@ == IdDomains::empty(),
            q.recommendationQuery@ == RecommendationFilters::empty(),
    {
        GameQuery { idQuery: IdQuery::new(), recommendationQuery: RecommendationQuery::new() }
    }

    /// What this query makes of `game`.
    pub open spec fn outcome(&self, game: GameView) -> Option<GameQueryResultView> {
        outcome(self.idQuery@, self.recommendationQuery@, game)
    }

    /// Evaluates one game: `None` where it is rejected, its result otherwise.
    pub fn run(&self, game: &Game) -> (result: Option<GameQueryResult>)
        ensures
            match result {
                Some(r) => self.outcome(game@) == Some(r@),
                None => self.outcome(game@) is None,
            },
    {
        if !self.idQuery.run(game) {
            return None;
        }
        let mut score: Option<RecommendationScore> = None;
        if let Some(recommendations) = &game.recommendations {
            score = self.recommendationQuery.run(recommendations);
            if score.is_none() {
                return None;
            }
        }
        Some(
            GameQueryResult {
                id: game.id,
                name: game.name.clone(),
                tags: match &game.tags {
                    Some(tags) => Some(tags.clone()),
                    None => None,
                },
                releaseDate: game.releaseDate,
                recommendations: score,
            },
        )
    }
}

/// A game without votes that passes the id filters is accepted, and without a
/// score, whatever the vote filters are.
pub proof fn lemma_game_without_votes_passes(
    ids: IdDomains,
    votes: RecommendationFilters,
    game: GameView,
)
    requires
        game.recommendations is None,
        ids.admits(game),
    ensures
        outcome(ids, votes, game) == Some(result_of(game, None)),
{
}

} // verus!
