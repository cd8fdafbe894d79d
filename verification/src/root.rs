//! The catalog itself: users, games and the tag registry, with ingestion and
//! the query scan.

use crate::entity::game::{Game, GameInput, GameInputView, GameView};
use crate::entity::tag::{
    capacity, id_of, lemma_id_of_place, lemma_intern_all_bound, lemma_intern_all_contains,
    lemma_intern_all_extends, lemma_intern_all_valid, lemma_persisted_restores, persisted,
    restorable, restores, valid_names, TagRegistry,
};
use crate::query::game::{outcome, GameQuery, GameQueryResult, GameQueryResultView};
use crate::query::id::{IdDomains, QueryInput as IdQueryInput};
use crate::query::recommendation::{QueryInput as RecommendationQueryInput, RecommendationFilters};
use std::collections::HashMap;
use vstd::prelude::*;
use vstd::std_specs::iter::IteratorSpec;

verus! {

broadcast use vstd::std_specs::hash::group_hash_axioms;

/// A user of the catalog.
#[derive(Clone, Debug, PartialEq, Eq)]
pub struct User {
    pub id: u32,
    pub name: String,
}

/// The contents of a `User`.
pub ghost struct UserView {
    pub id: u32,
    pub name: Seq<char>,
}

impl View for User {
    type V = UserView;

    open spec fn view(&self) -> UserView {
        UserView { id: self.id, name: self.name@ }
    }
}

/// Everything that the catalog holds.
pub struct Root {
    users: HashMap<u32, User>,
    games: HashMap<u32, Game>,
    allTags: TagRegistry,
    c: u32,
}

/// The contents of a `Root`: users and games by id, the tag names in the order
/// of their ids, and the number of queries served.
pub ghost struct RootView {
    pub users: Map<u32, UserView>,
    pub games: Map<u32, GameView>,
    pub allTags: Seq<Seq<char>>,
    pub c: u32,
}

/// Every tag id of `game` is below `count`.
pub open spec fn tags_known(game: GameView, count: nat) -> bool {
    game.tags matches Some(tags) ==> forall|i: int|
        0 <= i < tags.len() ==> #[trigger] tags[i] < count
}

impl RootView {
    /// A catalog with nothing in it.
    pub open spec fn empty() -> Self {
        RootView { users: Map::empty(), games: Map::empty(), allTags: Seq::empty(), c: 0 }
    }

    /// The tag names are valid, every game is stored under its own id, and
    /// every tag id of a game belongs to a name.
    pub open spec fn wf(self) -> bool {
        &&& valid_names(self.allTags)
        &&& forall|id: u32| #[trigger]
            self.games.contains_key(id) ==> self.games[id].id == id && tags_known(
                self.games[id],
                self.allTags.len(),
            )
    }

    /// The catalog after `input` was submitted: its tag names are looked up,
    /// and the game takes the place of any game of the same id.
    pub open spec fn upsert(self, input: GameInputView) -> Self {
        let allTags = input.interned(self.allTags);
        RootView { games: self.games.insert(input.id, input.to_game(allTags)), allTags, ..self }
    }

    /// The catalog after the inputs were submitted one after the other.
    pub open spec fn upsert_all(self, inputs: Seq<GameInputView>) -> Self
        decreases inputs.len(),
    {
        if inputs.len() == 0 {
            self
        } else {
            self.upsert_all(inputs.drop_last()).upsert(inputs.last())
        }
    }
}

/// The number of tag names that `inputs` carry, repeated names counted again.
pub open spec fn tag_count(inputs: Seq<GameInputView>) -> nat
    decreases inputs.len(),
{
    if inputs.len() == 0 {
        0
    } else {
        tag_count(inputs.drop_last()) + match inputs.last().tags {
            Some(tags) => tags.len(),
            None => 0,
        }
    }
}

/// Some result of `results` is about the game `id`.
pub open spec fn listed(results: Seq<GameQueryResultView>, id: u32) -> bool {
    exists|i: int| 0 <= i < results.len() && (#[trigger] results[i]).id == id
}

/// `results` is what a scan of `games` with the given filters may return: the
/// outcome of every accepted game, each once, and nothing else. The order of
/// the results is left open.
pub open spec fn selects(
    results: Seq<GameQueryResultView>,
    games: Map<u32, GameView>,
    ids: IdDomains,
    votes: RecommendationFilters,
) -> bool {
    &&& forall|i: int|
        0 <= i < results.len() ==> games.contains_key((#[trigger] results[i]).id) && outcome(
            ids,
            votes,
            games[results[i].id],
        ) == Some(results[i])
    &&& forall|id: u32|
        games.contains_key(id) && outcome(ids, votes, games[id]) is Some ==> #[trigger] listed(
            results,
            id,
        )
    &&& forall|i: int, j: int|
        0 <= i < j < results.len() ==> (#[trigger] results[i]).id != (#[trigger] results[j]).id
}

impl View for Root {
    type V = RootView;

    closed spec fn view(&self) -> RootView {
        RootView {
            users: self.users@.map_values(|u: User| u@),
            games: self.games@.map_values(|g: Game| g@),
            allTags: self.allTags@,
            c: self.c,
        }
    }
}

impl Root {
    /// The invariant of the catalog.
    pub open spec fn wf(&self) -> bool {
        self@.wf()
    }

    /// An empty catalog.
    pub fn new() -> (root: Self)
        ensures
            root.wf(),
            root@ == RootView::empty(),
    {
        let root = Root {
            users: HashMap::new(),
            games: HashMap::new(),
            allTags: TagRegistry::new(),
            c: 0,
        };
        assert(root@.users =~= Map::empty());
        assert(root@.games =~= Map::empty());
        root
    }

    /// Puts a catalog together from its parts, as a snapshot holds them. Parts
    /// in which a game stands under another id than its own, or names a tag
    /// id that `allTags` does not know, are refused.
    pub fn from_parts(
        users: HashMap<u32, User>,
        games: HashMap<u32, Game>,
        allTags: TagRegistry,
        c: u32,
    ) -> (restored: Option<Root>)
        requires
            allTags.wf(),
        ensures
            restored is Some <==> (RootView {
                users: users@.map_values(|u: User| u@),
                games: games@.map_values(|g: Game| g@),
                allTags: allTags@,
                c,
            }).wf(),
            restored matches Some(root) ==> root@ == (RootView {
                users: users@.map_values(|u: User| u@),
                games: games@.map_values(|g: Game| g@),
                allTags: allTags@,
                c,
            }),
    {
        let count = allTags.len();
        let ghost views = games@.map_values(|g: Game| g@);
        let iter = games.iter();
        let ghost entries = iter.remaining();
        for entry in it: iter
            invariant
                it.seq() == entries,
                views == games@.map_values(|g: Game| g@),
                count == allTags@.len(),
                forall|p: int|
                    0 <= p < entries.len() ==> games@.contains_key(*(#[trigger] entries[p]).0)
                        && games@[*entries[p].0] == *entries[p].1,
                forall|p: int|
                    0 <= p < it.index() ==> (#[trigger] entries[p]).1.id == *entries[p].0
                        && tags_known(entries[p].1@, count as nat),
        {
            let (id, game) = entry;
            let ghost at = it.index();
            assert(entries[at] == entry);
            assert(views.contains_key(*id) && views[*id] == game@);
            if game.id != *id || !tags_below(game, count) {
                return None;
            }
        }
        proof {
            assert forall|id: u32| #[trigger] views.contains_key(id) implies views[id].id == id
                && tags_known(views[id], count as nat) by {
                assert(games@.contains_key(id));
                assert(entries.contains((&id, &games@[id])));
                let p = choose|p: int| 0 <= p < entries.len() && entries[p] == (&id, &games@[id]);
                assert(*entries[p].0 == id);
            }
        }
        Some(Root { users, games, allTags, c })
    }

    /// The users, by id.
    pub fn users(&self) -> (users: &HashMap<u32, User>)
        ensures
            users@.map_values(|u: User| u@) == self@.users,
    {
        &self.users
    }

    /// The games, by id.
    pub fn games(&self) -> (games: &HashMap<u32, Game>)
        ensures
            games@.map_values(|g: Game| g@) == self@.games,
    {
        &self.games
    }

    /// The tag registry.
    pub fn tags(&self) -> (tags: &TagRegistry)
        ensures
            tags@ == self@.allTags,
            self.wf() ==> tags.wf(),
    {
        &self.allTags
    }

    /// The number of queries served so far.
    pub fn queries(&self) -> (c: u32)
        ensures
            c == self@.c,
    {
        self.c
    }

    /// Tells whether the registry has an id left for every tag name that
    /// `games` carry. Where it has, the games can be submitted.
    pub fn has_room_for(&self, games: &Vec<GameInput>) -> (ok: bool)
        ensures
            ok == (self@.allTags.len() + tag_count(games@.map_values(|g: GameInput| g@))
                <= capacity()),
            ok ==> self@.upsert_all(games@.map_values(|g: GameInput| g@)).allTags.len()
                <= capacity(),
    {
        let ghost inputs = games@.map_values(|g: GameInput| g@);
        proof {
            lemma_upsert_all_bound(self@, inputs);
        }
        let known = self.allTags.len();
        if known as u64 > 0x1_0000_0000u64 {
            return false;
        }
        let mut total: u64 = known as u64;
        let n = games.len();
        let mut i: usize = 0;
        assert(inputs.take(0) =~= Seq::<GameInputView>::empty());
        while i < n
            invariant
                n == games.len(),
                i <= n,
                inputs == games@.map_values(|g: GameInput| g@),
                total == self@.allTags.len() + tag_count(inputs.take(i as int)),
                total <= 0x1_0000_0000u64,
            decreases n - i,
        {
            proof {
                assert(inputs.take(i + 1).drop_last() =~= inputs.take(i as int));
                lemma_tag_count_monotonic(inputs, i + 1);
            }
            let more = match &games[i].tags {
                Some(tags) => tags.len(),
                None => 0,
            };
            if more as u64 > 0x1_0000_0000u64 - total {
                return false;
            }
            total = total + more as u64;
            i += 1;
        }
        assert(inputs.take(n as int) =~= inputs);
        true
    }

    /// Stores `input`, replacing any game of the same id as a whole.
    pub fn upsert(&mut self, input: GameInput)
        requires
            old(self).wf(),
            input@.interned(old(self)@.allTags).len() <= capacity(),
        ensures
            final(self).wf(),
            final(self)@ == old(self)@.upsert(input@),
    {
        proof {
            lemma_upsert_wf(self@, input@);
        }
        let game = Game::from_game_input(input, &mut self.allTags);
        let ghost stored = game@;
        let ghost before = self.games@;
        self.games.insert(game.id, game);
        assert(self@.games =~= old(self)@.games.insert(stored.id, stored));
    }
}

/// Takes a decoded batch of submitted games into the catalog, one game after
/// the other. A batch that could not be decoded (`None`) is dropped as a whole
/// and leaves the catalog as it was.
pub fn updateGames(root: &mut Root, decoded: Option<Vec<GameInput>>)
    requires
        old(root).wf(),
        decoded matches Some(games) ==> old(root)@.upsert_all(
            games@.map_values(|g: GameInput| g@),
        ).allTags.len() <= capacity(),
    ensures
        final(root).wf(),
        final(root)@ == match decoded {
            Some(games) => old(root)@.upsert_all(games@.map_values(|g: GameInput| g@)),
            None => old(root)@,
        },
{
    if let Some(games) = decoded {
        let ghost inputs = games@.map_values(|g: GameInput| g@);
        assert(inputs.take(0) =~= Seq::<GameInputView>::empty());
        for game in it: games.into_iter()
            invariant
                it.seq() == games@,
                inputs == games@.map_values(|g: GameInput| g@),
                old(root).wf(),
                old(root)@.upsert_all(inputs).allTags.len() <= capacity(),
                root.wf(),
                root@ == old(root)@.upsert_all(inputs.take(it.index())),
        {
            proof {
                let i = it.index();
                assert(inputs.take(i + 1).drop_last() =~= inputs.take(i));
                assert(inputs[i] == game@);
                lemma_upsert_all_wf(old(root)@, inputs, i + 1);
            }
            root.upsert(game);
        }
        assert(inputs.take(inputs.len() as int) =~= inputs);
    }
}

/// Runs one query over the catalog. The filters are built from the two lists of
/// inputs, every stored game is held against them, and the accepted games come
/// back in the order in which the store yields them. Each call counts as one
/// query; the counter wraps around at `u32::MAX`.
pub fn filterGames(
    root: &mut Root,
    idQueryInputs: Vec<IdQueryInput>,
    rcmQueryInputs: Vec<RecommendationQueryInput>,
) -> (results: Vec<GameQueryResult>)
    requires
        old(root).wf(),
    ensures
        final(root).wf(),
        final(root)@ == (RootView {
            c: if old(root)@.c == u32::MAX {
                0u32
            } else {
                (old(root)@.c + 1) as u32
            },
            ..old(root)@
        }),
        selects(
            results@.map_values(|r: GameQueryResult| r@),
            old(root)@.games,
            IdDomains::empty().commit_all(idQueryInputs@),
            RecommendationFilters::empty().commit_all(rcmQueryInputs@),
        ),
{
    let mut query = GameQuery::new();
    query.idQuery.build(idQueryInputs);
    query.recommendationQuery.build(rcmQueryInputs);
    let mut results: Vec<GameQueryResult> = Vec::new();
    root.c = root.c.wrapping_add(1);
    let ghost games = root@.games;
    let ghost ids = query.idQuery@;
    let ghost votes = query.recommendationQuery@;
    let iter = root.games.iter();
    let ghost entries = iter.remaining();
    for entry in it: iter
        invariant
            it.seq() == entries,
            entries.no_duplicates(),
            games == root.games@.map_values(|g: Game| g@),
            ids == query.idQuery@,
            votes == query.recommendationQuery@,
            forall|id: u32| #[trigger]
                games.contains_key(id) ==> games[id].id == id,
            forall|p: int|
                0 <= p < entries.len() ==> root.games@.contains_key(*(#[trigger] entries[p]).0)
                    && root.games@[*entries[p].0] == *entries[p].1,
            forall|i: int|
                0 <= i < results.len() ==> games.contains_key((#[trigger] results[i])@.id)
                    && outcome(ids, votes, games[results[i]@.id]) == Some(results[i]@)
                    && exists|p: int|
                    0 <= p < it.index() && *(#[trigger] entries[p]).0 == results[i]@.id,
            forall|p: int|
                0 <= p < it.index() && outcome(ids, votes, games[*(#[trigger] entries[p]).0])
                    is Some ==> listed(results@.map_values(|r: GameQueryResult| r@), *entries[p].0),
            forall|i: int, j: int|
                0 <= i < j < results.len() ==> (#[trigger] results[i])@.id != (
                #[trigger] results[j])@.id,
    {
        let (_, game) = entry;
        let ghost seen = results@.map_values(|r: GameQueryResult| r@);
        let ghost at = it.index();
        assert(entries[at] == entry);
        assert(games.contains_key(*entry.0) && games[*entry.0] == game@);
        if let Some(result) = query.run(game) {
            results.push(result);
            proof {
                let now = results@.map_values(|r: GameQueryResult| r@);
                assert(now[seen.len() as int] == result@);
                assert(now[seen.len() as int].id == *entry.0);
                assert forall|p: int|
                    0 <= p < at + 1 && outcome(ids, votes, games[*(#[trigger] entries[p]).0])
                        is Some implies listed(now, *entries[p].0) by {
                    if p < at {
                        let i = choose|i: int|
                            0 <= i < seen.len() && (#[trigger] seen[i]).id == *entries[p].0;
                        assert(now[i].id == *entries[p].0);
                    }
                }
            }
        }
    }
    proof {
        let listing = results@.map_values(|r: GameQueryResult| r@);
        assert forall|id: u32|
            games.contains_key(id) && outcome(ids, votes, games[id]) is Some implies #[trigger]
            listed(listing, id) by {
            assert(root.games@.contains_key(id));
            assert(entries.contains((&id, &root.games@[id])));
            let p = choose|p: int| 0 <= p < entries.len() && entries[p] == (&id, &root.games@[id]);
            assert(*entries[p].0 == id);
        }
    }
    results
}

/// A scan is settled up to the order of its results: two lists that a scan of
/// the same games with the same filters may return hold the same results, and
/// equally many.
pub proof fn lemma_selects_same_results(
    first: Seq<GameQueryResultView>,
    second: Seq<GameQueryResultView>,
    games: Map<u32, GameView>,
    ids: IdDomains,
    votes: RecommendationFilters,
)
    requires
        selects(first, games, ids, votes),
        selects(second, games, ids, votes),
    ensures
        first.to_set() == second.to_set(),
        first.len() == second.len(),
{
    assert forall|x: GameQueryResultView| first.contains(x) implies second.contains(x) by {
        let i = choose|i: int| 0 <= i < first.len() && first[i] == x;
        assert(listed(second, first[i].id));
        let j = choose|j: int| 0 <= j < second.len() && (#[trigger] second[j]).id == x.id;
        assert(second[j] == x);
    }
    assert forall|x: GameQueryResultView| second.contains(x) implies first.contains(x) by {
        let i = choose|i: int| 0 <= i < second.len() && second[i] == x;
        assert(listed(first, second[i].id));
        let j = choose|j: int| 0 <= j < first.len() && (#[trigger] first[j]).id == x.id;
        assert(first[j] == x);
    }
    assert(first.to_set() =~= second.to_set());
    assert(first.no_duplicates()) by {
        assert forall|i: int, j: int|
            0 <= i < first.len() && 0 <= j < first.len() && i != j implies first[i]
            != first[j] by {
            if i < j {
                assert(first[i].id != first[j].id);
            } else {
                assert(first[j].id != first[i].id);
            }
        }
    }
    assert(second.no_duplicates()) by {
        assert forall|i: int, j: int|
            0 <= i < second.len() && 0 <= j < second.len() && i != j implies second[i]
            != second[j] by {
            if i < j {
                assert(second[i].id != second[j].id);
            } else {
                assert(second[j].id != second[i].id);
            }
        }
    }
    first.unique_seq_to_set();
    second.unique_seq_to_set();
}

/// Submitting a game under an id replaces whatever was stored under that id as
/// a whole: the stored game is the submitted one, and what was stored before
/// has no part in it. The other games stay, and so does the id of every tag
/// name that was known before.
pub proof fn lemma_upsert_replaces(root: RootView, input: GameInputView)
    requires
        root.wf(),
        input.interned(root.allTags).len() <= capacity(),
    ensures
        root.upsert(input).games.contains_key(input.id),
        root.upsert(input).games[input.id] == input.to_game(root.upsert(input).allTags),
        root.upsert(input) == (RootView { games: root.games.remove(input.id), ..root }).upsert(
            input,
        ),
        forall|id: u32|
            id != input.id ==> (root.upsert(input).games.contains_key(id)
                <==> root.games.contains_key(id)) && root.upsert(input).games[id]
                == root.games[id],
        forall|i: int|
            0 <= i < root.allTags.len() ==> i < root.upsert(input).allTags.len() && root.upsert(
                input,
            ).allTags[i] == #[trigger] root.allTags[i] && id_of(
                root.upsert(input).allTags,
                root.allTags[i],
            ) == i,
{
    let after = root.upsert(input);
    lemma_upsert_wf(root, input);
    assert(root.games.remove(input.id).insert(input.id, after.games[input.id]) =~= after.games);
    assert forall|i: int| 0 <= i < root.allTags.len() implies i < after.allTags.len()
        && after.allTags[i] == #[trigger] root.allTags[i] && id_of(after.allTags, root.allTags[i])
        == i by {
        assert(after.allTags.subrange(0, root.allTags.len() as int)[i] == after.allTags[i]);
        lemma_id_of_place(after.allTags, i);
    }
}

/// A well-formed catalog survives being taken apart and put together again:
/// the stored form of its tag names can be restored, only to the same names,
/// and with them the parts are a well-formed catalog with the same contents.
pub proof fn lemma_parts_round_trip(root: RootView, names: Seq<Seq<char>>)
    requires
        root.wf(),
        restores(persisted(root.allTags), names),
    ensures
        restorable(persisted(root.allTags)),
        names == root.allTags,
        (RootView { allTags: names, ..root }).wf(),
        (RootView { allTags: names, ..root }) == root,
{
    lemma_persisted_restores(root.allTags, names);
}

/// Submitting a game keeps a well-formed catalog well-formed, as long as the
/// tag ids last.
pub proof fn lemma_upsert_wf(root: RootView, input: GameInputView)
    requires
        root.wf(),
        input.interned(root.allTags).len() <= capacity(),
    ensures
        root.upsert(input).wf(),
        root.allTags.is_prefix_of(root.upsert(input).allTags),
{
    let after = root.upsert(input);
    match input.tags {
        Some(tags) => {
            lemma_intern_all_valid(root.allTags, tags);
            assert forall|i: int| 0 <= i < tags.len() implies #[trigger] input.to_game(
                after.allTags,
            ).tags.unwrap()[i] < after.allTags.len() by {
                lemma_intern_all_contains(root.allTags, tags, i);
            }
        },
        None => {
            assert(root.allTags =~= root.allTags.subrange(0, root.allTags.len() as int));
        },
    }
    assert forall|id: u32| #[trigger] after.games.contains_key(id) implies after.games[id].id == id
        && tags_known(after.games[id], after.allTags.len()) by {
        if id != input.id {
            assert(root.games.contains_key(id));
        }
    }
}

/// Submitting a list of games keeps a well-formed catalog well-formed, as long
/// as the tag ids last, and it never moves a tag name: after the first `i`
/// inputs the names are a prefix of the names after all of them.
pub proof fn lemma_upsert_all_wf(root: RootView, inputs: Seq<GameInputView>, i: int)
    requires
        root.wf(),
        root.upsert_all(inputs).allTags.len() <= capacity(),
        0 <= i <= inputs.len(),
    ensures
        root.upsert_all(inputs.take(i)).wf(),
        root.upsert_all(inputs).wf(),
        root.upsert_all(inputs.take(i)).allTags.is_prefix_of(root.upsert_all(inputs).allTags),
    decreases inputs.len(),
{
    let all = root.upsert_all(inputs);
    if inputs.len() == 0 {
        assert(inputs.take(i) =~= inputs);
        assert(all.allTags =~= all.allTags.subrange(0, all.allTags.len() as int));
    } else {
        let shorter = inputs.drop_last();
        let before = root.upsert_all(shorter);
        assert(before.allTags.len() <= all.allTags.len()) by {
            match inputs.last().tags {
                Some(tags) => {
                    lemma_intern_all_extends(before.allTags, tags, 0);
                    assert(tags.take(0) =~= Seq::<Seq<char>>::empty());
                },
                None => {},
            }
        }
        if i == inputs.len() {
            lemma_upsert_all_wf(root, shorter, 0);
            lemma_upsert_wf(before, inputs.last());
            assert(inputs.take(i) =~= inputs);
            assert(all.allTags =~= all.allTags.subrange(0, all.allTags.len() as int));
        } else {
            lemma_upsert_all_wf(root, shorter, i);
            lemma_upsert_wf(before, inputs.last());
            assert(shorter.take(i) =~= inputs.take(i));
            let early = root.upsert_all(inputs.take(i));
            assert(early.allTags =~= all.allTags.subrange(0, early.allTags.len() as int));
        }
    }
}

/// A prefix of a list of inputs carries no more tag names than the list.
pub proof fn lemma_tag_count_monotonic(inputs: Seq<GameInputView>, i: int)
    requires
        0 <= i <= inputs.len(),
    ensures
        tag_count(inputs.take(i)) <= tag_count(inputs),
    decreases inputs.len(),
{
    if i == inputs.len() {
        assert(inputs.take(i) =~= inputs);
    } else {
        lemma_tag_count_monotonic(inputs.drop_last(), i);
        assert(inputs.drop_last().take(i) =~= inputs.take(i));
    }
}

/// Submitting games adds at most as many tag names as the games carry.
pub proof fn lemma_upsert_all_bound(root: RootView, inputs: Seq<GameInputView>)
    ensures
        root.upsert_all(inputs).allTags.len() <= root.allTags.len() + tag_count(inputs),
    decreases inputs.len(),
{
    if inputs.len() > 0 {
        lemma_upsert_all_bound(root, inputs.drop_last());
        match inputs.last().tags {
            Some(tags) => lemma_intern_all_bound(root.upsert_all(inputs.drop_last()).allTags, tags),
            None => {},
        }
    }
}

/// Tells whether every tag id of `game` is below `count`.
fn tags_below(game: &Game, count: usize) -> (ok: bool)
    ensures
        ok == tags_known(game@, count as nat),
{
    match &game.tags {
        None => true,
        Some(tags) => {
            let n = tags.len();
            let mut i: usize = 0;
            while i < n
                invariant
                    n == tags.len(),
                    i <= n,
                    game.tags == Some(*tags),
                    forall|j: int| 0 <= j < i ==> #[trigger] tags[j] < count,
                decreases n - i,
            {
                if tags[i] as u64 >= count as u64 {
                    assert(!(game@.tags->0[i as int] < count));
                    return false;
                }
                i += 1;
            }
            true
        },
    }
}

} // verus!
