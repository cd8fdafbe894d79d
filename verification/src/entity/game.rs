//! A game as it is submitted and as it is stored.

use crate::entity::recommendation::Recommendation;
use crate::entity::tag::{
    capacity, id_of, intern_all, lemma_id_of_place, lemma_intern_all_extends,
    lemma_intern_extends, TagRegistry,
};
use vstd::prelude::*;

verus! {

/// A game as a caller submits it: its tags are still names.
#[derive(Clone, Debug, PartialEq, Eq)]
pub struct GameInput {
    pub id: u32,
    pub name: String,
    pub tags: Option<Vec<String>>,
    pub releaseDate: Option<u32>,
    pub recommendations: Option<Vec<Recommendation>>,
}

/// A stored game: its tags are ids of the owning tag registry.
#[derive(Clone, Debug, PartialEq, Eq)]
pub struct Game {
    pub id: u32,
    pub name: String,
    pub tags: Option<Vec<u32>>,
    pub releaseDate: Option<u32>,
    pub recommendations: Option<Vec<Recommendation>>,
}

/// The contents of a `GameInput`.
pub ghost struct GameInputView {
    pub id: u32,
    pub name: Seq<char>,
    pub tags: Option<Seq<Seq<char>>>,
    pub releaseDate: Option<u32>,
    pub recommendations: Option<Seq<Recommendation>>,
}

/// The contents of a `Game`.
pub ghost struct GameView {
    pub id: u32,
    pub name: Seq<char>,
    pub tags: Option<Seq<u32>>,
    pub releaseDate: Option<u32>,
    pub recommendations: Option<Seq<Recommendation>>,
}

impl View for GameInput {
    type V = GameInputView;

    open spec fn view(&self) -> GameInputView {
        GameInputView {
            id: self.id,
            name: self.name@,
            tags: match self.tags {
                Some(tags) => Some(tags@.map_values(|t: String| t@)),
                None => None,
            },
            releaseDate: self.releaseDate,
            recommendations: match self.recommendations {
                Some(recs) => Some(recs@),
                None => None,
            },
        }
    }
}

impl View for Game {
    type V = GameView;

    open spec fn view(&self) -> GameView {
        GameView {
            id: self.id,
            name: self.name@,
            tags: match self.tags {
                Some(tags) => Some(tags@),
                None => None,
            },
            releaseDate: self.releaseDate,
            recommendations: match self.recommendations {
                Some(recs) => Some(recs@),
                None => None,
            },
        }
    }
}

impl GameInputView {
    /// The names after the tags of this input were looked up in `names`.
    pub open spec fn interned(self, names: Seq<Seq<char>>) -> Seq<Seq<char>> {
        match self.tags {
            Some(tags) => intern_all(names, tags),
            None => names,
        }
    }

    /// The game that this input stands for, its tags read as ids of `names`.
    /// Everything else is carried over as it is.
    pub open spec fn to_game(self, names: Seq<Seq<char>>) -> GameView {
        GameView {
            id: self.id,
            name: self.name,
            tags: match self.tags {
                Some(tags) => Some(tags.map_values(|tag: Seq<char>| id_of(names, tag) as u32)),
                None => None,
            },
            releaseDate: self.releaseDate,
            recommendations: self.recommendations,
        }
    }
}

impl Game {
    /// Turns a submitted game into a stored one: each tag name is looked up in
    /// `allTags`, which learns the names that are new to it.
    pub fn from_game_input(json: GameInput, allTags: &mut TagRegistry) -> (game: Game)
        requires
            old(allTags).wf(),
            json@.interned(old(allTags)@).len() <= capacity(),
        ensures
            final(allTags).wf(),
            final(allTags)@ == json@.interned(old(allTags)@),
            game@ == json@.to_game(final(allTags)@),
    {
        let ghost input = json@;
        let GameInput { id, name, tags, releaseDate, recommendations } = json;
        let tagsIds = match tags {
            None => None,
            Some(tags) => {
                let ghost names = tags@.map_values(|t: String| t@);
                let n = tags.len();
                let mut ids: Vec<u32> = Vec::new();
                let mut i: usize = 0;
                assert(names.take(0) =~= Seq::<Seq<char>>::empty());
                while i < n
                    invariant
                        n == tags.len(),
                        i <= n,
                        names == tags@.map_values(|t: String| t@),
                        intern_all(old(allTags)@, names).len() <= capacity(),
                        allTags.wf(),
                        allTags@ == intern_all(old(allTags)@, names.take(i as int)),
                        ids.len() == i,
                        forall|j: int|
                            0 <= j < i ==> (#[trigger] ids[j]) < allTags@.len()
                                && allTags@[ids[j] as int] == names[j],
                    decreases n - i,
                {
                    let tag = tags[i].clone();
                    proof {
                        assert(names.take(i + 1).drop_last() =~= names.take(i as int));
                        lemma_intern_all_extends(old(allTags)@, names, i + 1);
                        lemma_intern_extends(allTags@, tag@);
                    }
                    let tagId = allTags.get_id_by_tag(tag);
                    ids.push(tagId);
                    i += 1;
                }
                proof {
                    assert(names.take(n as int) =~= names);
                    assert forall|j: int| 0 <= j < n implies ids@[j] == id_of(
                        allTags@,
                        names[j],
                    ) as u32 by {
                        lemma_id_of_place(allTags@, ids@[j] as int);
                    }
                    assert(ids@ =~= names.map_values(
                        |tag: Seq<char>| id_of(allTags@, tag) as u32,
                    ));
                }
                Some(ids)
            },
        };
        Game { id, name, tags: tagsIds, releaseDate, recommendations }
    }
}

} // verus!
