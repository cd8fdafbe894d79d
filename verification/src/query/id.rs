//! Include and exclude filters over game ids and tag ids.

use crate::entity::game::{Game, GameView};
use std::collections::HashSet;
use vstd::prelude::*;

verus! {

broadcast use vstd::std_specs::hash::group_hash_axioms;

/// Whether the ids of a list must be met or must be avoided.
#[derive(Clone, Copy, Debug, PartialEq, Eq, Structural)]
pub enum FilterPolicy {
    Include,
    Exclude,
}

/// One list of ids with its policy.
#[derive(Clone, Debug, PartialEq, Eq)]
pub struct IdFilterInput {
    pub policy: FilterPolicy,
    pub list: Vec<u32>,
}

/// A list of ids, tagged with the domain that it filters.
#[derive(Clone, Debug, PartialEq, Eq)]
pub enum QueryInput {
    GameId(IdFilterInput),
    TagId(IdFilterInput),
}

/// The policy that a code stands for: 0 for include, 1 for exclude.
pub open spec fn policy_of(code: u32) -> Option<FilterPolicy> {
    if code == 0 {
        Some(FilterPolicy::Include)
    } else if code == 1 {
        Some(FilterPolicy::Exclude)
    } else {
        None
    }
}

impl QueryInput {
    /// The input that a flat descriptor stands for: domain 0 is the game id,
    /// domain 1 the tag id. Other codes stand for nothing.
    pub open spec fn decoded(kind: u32, policy: u32, list: Vec<u32>) -> Option<QueryInput> {
        match policy_of(policy) {
            Some(policy) => if kind == 0 {
                Some(QueryInput::GameId(IdFilterInput { policy, list }))
            } else if kind == 1 {
                Some(QueryInput::TagId(IdFilterInput { policy, list }))
            } else {
                None
            },
            None => None,
        }
    }

    /// Reads an input from its flat descriptor.
    pub fn from_liner(kind: u32, policy: u32, list: Vec<u32>) -> (input: Option<QueryInput>)
        ensures
            input == Self::decoded(kind, policy, list),
    {
        let policy = match policy {
            0 => FilterPolicy::Include,
            1 => FilterPolicy::Exclude,
            _ => {
                return None;
            },
        };
        match kind {
            0 => Some(QueryInput::GameId(IdFilterInput { policy, list })),
            1 => Some(QueryInput::TagId(IdFilterInput { policy, list })),
            _ => None,
        }
    }
}

/// The filter of one domain: the union of its include lists and the union of
/// its exclude lists, each absent until a list of that policy arrives.
pub struct IdFilter {
    shouldIncludes: Option<HashSet<u32>>,
    shouldExcludes: Option<HashSet<u32>>,
}

/// The two sets of an `IdFilter`.
pub ghost struct IdSets {
    pub includes: Option<Set<u32>>,
    pub excludes: Option<Set<u32>>,
}

impl IdSets {
    /// Neither set configured.
    pub open spec fn empty() -> Self {
        IdSets { includes: None, excludes: None }
    }

    /// Unites `list` with the set of its policy, starting that set if need be.
    pub open spec fn add(self, policy: FilterPolicy, list: Seq<u32>) -> Self {
        match policy {
            FilterPolicy::Include => IdSets {
                includes: Some(
                    match self.includes {
                        Some(s) => s.union(list.to_set()),
                        None => list.to_set(),
                    },
                ),
                ..self
            },
            FilterPolicy::Exclude => IdSets {
                excludes: Some(
                    match self.excludes {
                        Some(s) => s.union(list.to_set()),
                        None => list.to_set(),
                    },
                ),
                ..self
            },
        }
    }

    /// A single id passes: it is included, if anything is, and not excluded.
    pub open spec fn admits(self, id: u32) -> bool {
        &&& self.includes matches Some(s) ==> s.contains(id)
        &&& self.excludes matches Some(s) ==> !s.contains(id)
    }

    /// A list of ids passes: it meets the include set, if there is one, and
    /// stays clear of the exclude set.
    pub open spec fn admits_any(self, ids: Seq<u32>) -> bool {
        &&& self.includes matches Some(s) ==> exists|i: int|
            0 <= i < ids.len() && s.contains(#[trigger] ids[i])
        &&& self.excludes matches Some(s) ==> forall|i: int|
            0 <= i < ids.len() ==> !s.contains(#[trigger] ids[i])
    }
}

impl View for IdFilter {
    type V = IdSets;

    closed spec fn view(&self) -> IdSets {
        IdSets {
            includes: match self.shouldIncludes {
                Some(s) => Some(s@),
                None => None,
            },
            excludes: match self.shouldExcludes {
                Some(s) => Some(s@),
                None => None,
            },
        }
    }
}

/// Inserts every id of `list` into `set`.
fn insert_all(set: &mut HashSet<u32>, list: &Vec<u32>)
    ensures
        final(set)@ == old(set)@.union(list@.to_set()),
{
    let n = list.len();
    let mut i: usize = 0;
    while i < n
        invariant
            n == list.len(),
            i <= n,
            set@ == old(set)@.union(list@.take(i as int).to_set()),
        decreases n - i,
    {
        set.insert(list[i]);
        assert(list@.take(i + 1) =~= list@.take(i as int).push(list[i as int]));
        assert(list@.take(i + 1).to_set() =~= list@.take(i as int).to_set().insert(
            list[i as int],
        )) by {
            list@.take(i as int).lemma_push_to_set_commute(list[i as int]);
        }
        i += 1;
    }
    assert(list@.take(n as int) =~= list@);
}

/// Tells whether some id of `ids` is in `set`.
fn meets(set: &HashSet<u32>, ids: &Vec<u32>) -> (found: bool)
    ensures
        found == exists|i: int| 0 <= i < ids.len() && set@.contains(#[trigger] ids[i]),
{
    let n = ids.len();
    let mut i: usize = 0;
    while i < n
        invariant
            n == ids.len(),
            i <= n,
            forall|j: int| 0 <= j < i ==> !set@.contains(#[trigger] ids[j]),
        decreases n - i,
    {
        if set.contains(&ids[i]) {
            return true;
        }
        i += 1;
    }
    false
}

impl IdFilter {
    /// A filter without lists: it passes everything.
    pub fn new() -> (f: Self)
        ensures
            f@ == IdSets::empty(),
    {
        IdFilter { shouldIncludes: None, shouldExcludes: None }
    }

    /// Tells whether no list of either policy has arrived yet.
    pub fn is_none(&self) -> (b: bool)
        ensures
            b == (self@.includes is None && self@.excludes is None),
    {
        self.shouldExcludes.is_none() && self.shouldIncludes.is_none()
    }

    /// Unites the ids of `list` with the set of `policy`.
    fn add_list(&mut self, policy: FilterPolicy, list: &Vec<u32>)
        ensures
            final(self)@ == old(self)@.add(policy, list@),
    {
        assert(Set::<u32>::empty().union(list@.to_set()) =~= list@.to_set());
        match policy {
            FilterPolicy::Include => {
                let mut set = match self.shouldIncludes.take() {
                    Some(set) => set,
                    None => HashSet::new(),
                };
                insert_all(&mut set, list);
                self.shouldIncludes = Some(set);
            },
            FilterPolicy::Exclude => {
                let mut set = match self.shouldExcludes.take() {
                    Some(set) => set,
                    None => HashSet::new(),
                };
                insert_all(&mut set, list);
                self.shouldExcludes = Some(set);
            },
        }
    }

    /// Adds one list to the filter. Lists of one policy accumulate.
    pub fn add_input(&mut self, input: IdFilterInput)
        ensures
            final(self)@ == old(self)@.add(input.policy, input.list@),
    {
        self.add_list(input.policy, &input.list);
    }

    /// Checks one id against both sets.
    pub fn verify_single(&self, compareee: &u32) -> (ok: bool)
        ensures
            ok == self@.admits(*compareee),
    {
        let included = match &self.shouldIncludes {
            Some(set) => set.contains(compareee),
            None => true,
        };
        let excluded = match &self.shouldExcludes {
            Some(set) => set.contains(compareee),
            None => false,
        };
        included && !excluded
    }

    /// Checks a list of ids against both sets, by intersection.
    pub fn verify_list(&self, compareees: &Vec<u32>) -> (ok: bool)
        ensures
            ok == self@.admits_any(compareees@),
    {
        if self.is_none() {
            return true;
        }
        let included = match &self.shouldIncludes {
            Some(set) => meets(set, compareees),
            None => true,
        };
        let excluded = match &self.shouldExcludes {
            Some(set) => meets(set, compareees),
            None => false,
        };
        included && !excluded
    }
}

/// The id filters of a query: one over game ids, one over tag ids.
pub struct IdQuery {
    gameId: IdFilter,
    tagId: IdFilter,
}

/// The sets of an `IdQuery`, by domain.
pub ghost struct IdDomains {
    pub gameId: IdSets,
    pub tagId: IdSets,
}

impl IdDomains {
    /// Nothing configured in either domain.
    pub open spec fn empty() -> Self {
        IdDomains { gameId: IdSets::empty(), tagId: IdSets::empty() }
    }

    /// Adds the list of `input` to the domain that it names.
    pub open spec fn commit(self, input: QueryInput) -> Self {
        match input {
            QueryInput::GameId(filter) => IdDomains {
                gameId: self.gameId.add(filter.policy, filter.list@),
                ..self
            },
            QueryInput::TagId(filter) => IdDomains {
                tagId: self.tagId.add(filter.policy, filter.list@),
                ..self
            },
        }
    }

    /// Adds the inputs one after the other.
    pub open spec fn commit_all(self, inputs: Seq<QueryInput>) -> Self
        decreases inputs.len(),
    {
        if inputs.len() == 0 {
            self
        } else {
            self.commit_all(inputs.drop_last()).commit(inputs.last())
        }
    }

    /// A game passes: its id passes the game-id filter, and its tags, if it has
    /// any list of them, pass the tag-id filter.
    pub open spec fn admits(self, game: GameView) -> bool {
        &&& self.gameId.admits(game.id)
        &&& game.tags matches Some(tags) ==> self.tagId.admits_any(tags)
    }
}

impl View for IdQuery {
    type V = IdDomains;

    closed spec fn view(&self) -> IdDomains {
        IdDomains { gameId: self.gameId@, tagId: self.tagId@ }
    }
}

impl IdQuery {
    /// A query without lists in either domain.
    pub fn new() -> (q: Self)
        ensures
            q@ == IdDomains::empty(),
    {
        IdQuery { gameId: IdFilter::new(), tagId: IdFilter::new() }
    }

    /// Adds every input to the filter of its domain.
    pub fn build(&mut self, inputs: Vec<QueryInput>)
        ensures
            final(self)@ == old(self)@.commit_all(inputs@),
    {
        let n = inputs.len();
        let mut i: usize = 0;
        assert(inputs@.take(0) =~= Seq::<QueryInput>::empty());
        while i < n
            invariant
                n == inputs.len(),
                i <= n,
                self@ == old(self)@.commit_all(inputs@.take(i as int)),
            decreases n - i,
        {
            assert(inputs@.take(i + 1).drop_last() =~= inputs@.take(i as int));
            match &inputs[i] {
                QueryInput::GameId(filter) => self.gameId.add_list(filter.policy, &filter.list),
                QueryInput::TagId(filter) => self.tagId.add_list(filter.policy, &filter.list),
            }
            i += 1;
        }
        assert(inputs@.take(n as int) =~= inputs@);
    }

    /// Tells whether `game` passes both filters.
    pub fn run(&self, game: &Game) -> (ok: bool)
        ensures
            ok == self@.admits(game@),
    {
        self.gameId.verify_single(&game.id) && match &game.tags {
            Some(tags) => self.tagId.verify_list(tags),
            None => true,
        }
    }
}

} // verus!
