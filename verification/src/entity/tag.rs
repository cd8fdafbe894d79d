//! The registry that interns tag names as small integers.

use vstd::prelude::*;

verus! {

/// The most names a registry can hold: one for each `u32`.
pub open spec fn capacity() -> int {
    0x1_0000_0000
}

/// What holds of the names of every registry: none occurs twice, and there are
/// no more of them than ids.
pub open spec fn valid_names(names: Seq<Seq<char>>) -> bool {
    &&& names.no_duplicates()
    &&& names.len() <= capacity()
}

/// The names after `tag` was looked up: a new name goes to the end.
pub open spec fn intern(names: Seq<Seq<char>>, tag: Seq<char>) -> Seq<Seq<char>> {
    if names.contains(tag) {
        names
    } else {
        names.push(tag)
    }
}

/// The names after every tag of `tags` was looked up, the first one first.
pub open spec fn intern_all(names: Seq<Seq<char>>, tags: Seq<Seq<char>>) -> Seq<Seq<char>>
    decreases tags.len(),
{
    if tags.len() == 0 {
        names
    } else {
        intern(intern_all(names, tags.drop_last()), tags.last())
    }
}

/// The id of `tag`: the place at which `names` holds it.
pub open spec fn id_of(names: Seq<Seq<char>>, tag: Seq<char>) -> int {
    choose|i: int| 0 <= i < names.len() && names[i] == tag
}

/// The tag at place `p` of `tags` occurs there for the first time.
pub open spec fn first_seen_at(tags: Seq<Seq<char>>, p: int) -> bool {
    0 <= p < tags.len() && !tags.take(p).contains(tags[p])
}

/// The stored form of a list of names: every name under its id.
pub open spec fn persisted(names: Seq<Seq<char>>) -> Seq<(u32, Seq<char>)> {
    Seq::new(names.len(), |i: int| (i as u32, names[i]))
}

/// Entries from which a registry can be restored: the ids are `0..n`, each
/// once, and no name occurs twice.
pub open spec fn restorable(entries: Seq<(u32, Seq<char>)>) -> bool {
    &&& entries.len() <= capacity()
    &&& forall|i: int| 0 <= i < entries.len() ==> (#[trigger] entries[i]).0 < entries.len()
    &&& forall|i: int, j: int|
        0 <= i < j < entries.len() ==> (#[trigger] entries[i]).0 != (#[trigger] entries[j]).0
            && entries[i].1 != entries[j].1
}

/// `names` holds the name of every entry at the place that its id gives.
pub open spec fn restores(entries: Seq<(u32, Seq<char>)>, names: Seq<Seq<char>>) -> bool {
    &&& names.len() == entries.len()
    &&& forall|i: int|
        0 <= i < entries.len() ==> (#[trigger] entries[i]).0 < names.len()
            && names[entries[i].0 as int] == entries[i].1
}

/// A table of tag names. The id of a name is its place in the order in which
/// the names were first seen, so the ids in use are always `0..len`.
pub struct TagRegistry {
    names: Vec<String>,
}

impl View for TagRegistry {
    type V = Seq<Seq<char>>;

    closed spec fn view(&self) -> Seq<Seq<char>> {
        self.names@.map_values(|name: String| name@)
    }
}

impl TagRegistry {
    /// No name occurs twice and every id fits a `u32`.
    pub open spec fn wf(&self) -> bool {
        valid_names(self@)
    }

    /// A registry without names.
    pub fn new() -> (r: Self)
        ensures
            r@ == Seq::<Seq<char>>::empty(),
            r.wf(),
    {
        let r = TagRegistry { names: Vec::new() };
        assert(r@ =~= Seq::<Seq<char>>::empty());
        r
    }

    /// The number of names, which is also the next id to be given out.
    pub fn len(&self) -> (n: usize)
        ensures
            n == self@.len(),
    {
        self.names.len()
    }

    /// The id of `tag`, if the registry knows the name.
    pub fn find(&self, tag: &String) -> (found: Option<u32>)
        requires
            self.wf(),
        ensures
            found is Some <==> self@.contains(tag@),
            found matches Some(id) ==> id < self@.len() && self@[id as int] == tag@,
    {
        let n = self.names.len();
        let mut i: usize = 0;
        while i < n
            invariant
                n == self.names.len(),
                n == self@.len(),
                n <= capacity(),
                i <= n,
                forall|j: int| 0 <= j < i ==> self@[j] != tag@,
            decreases n - i,
        {
            if self.names[i] == *tag {
                assert(self@[i as int] == tag@);
                return Some(i as u32);
            }
            i += 1;
        }
        None
    }

    /// The registry in its stored form: one entry for each name, the id first,
    /// in the order of the ids.
    pub fn entries(&self) -> (out: Vec<(u32, String)>)
        requires
            self.wf(),
        ensures
            out@.map_values(|e: (u32, String)| (e.0, e.1@)) == persisted(self@),
    {
        let n = self.names.len();
        let mut out: Vec<(u32, String)> = Vec::new();
        let mut i: usize = 0;
        while i < n
            invariant
                n == self.names.len(),
                n == self@.len(),
                n <= capacity(),
                i <= n,
                out.len() == i,
                forall|j: int|
                    0 <= j < i ==> (#[trigger] out[j]).0 == j && out[j].1@ == self@[j],
            decreases n - i,
        {
            out.push((i as u32, self.names[i].clone()));
            i += 1;
        }
        assert(out@.map_values(|e: (u32, String)| (e.0, e.1@)) =~= persisted(self@));
        out
    }

    /// Restores a registry from its stored form, whatever the order of the
    /// entries. Entries with an id twice, a name twice or an id that is not
    /// below their number are refused as a whole.
    pub fn from_entries(entries: Vec<(u32, String)>) -> (restored: Option<TagRegistry>)
        ensures
            restored is Some <==> restorable(entries@.map_values(|e: (u32, String)| (e.0, e.1@))),
            restored matches Some(r) ==> r.wf() && restores(
                entries@.map_values(|e: (u32, String)| (e.0, e.1@)),
                r@,
            ),
    {
        let ghost stored = entries@.map_values(|e: (u32, String)| (e.0, e.1@));
        let n = entries.len();
        if n as u64 > 0x1_0000_0000u64 {
            return None;
        }
        let mut slots: Vec<Option<String>> = Vec::new();
        let mut k: usize = 0;
        while k < n
            invariant
                k <= n,
                slots.len() == k,
                forall|j: int| 0 <= j < k ==> (#[trigger] slots[j]) is None,
            decreases n - k,
        {
            slots.push(None);
            k += 1;
        }
        let ghost mut owner: Seq<int> = Seq::new(n as nat, |j: int| 0);
        proof {
            lemma_filled_bound(slots@);
        }
        for entry in it: entries.into_iter()
            invariant
                it.seq() == entries@,
                stored == entries@.map_values(|e: (u32, String)| (e.0, e.1@)),
                n == entries.len(),
                n <= capacity(),
                slots.len() == n,
                owner.len() == n,
                filled(slots@) == it.index(),
                forall|i: int| 0 <= i < it.index() ==> (#[trigger] stored[i]).0 < n,
                forall|i: int, j: int|
                    0 <= i < j < it.index() ==> (#[trigger] stored[i]).0 != (
                    #[trigger] stored[j]).0,
                forall|i: int|
                    0 <= i < it.index() ==> (#[trigger] slots[stored[i].0 as int]) is Some,
                forall|j: int|
                    0 <= j < n && (#[trigger] slots[j]) is Some ==> 0 <= owner[j] < it.index()
                        && stored[owner[j]].0 == j && slots[j]->0@ == stored[owner[j]].1,
        {
            let ghost at = it.index();
            assert(stored[at] == (entry.0, entry.1@));
            let (id, name) = entry;
            let place = id as usize;
            if place >= n {
                return None;
            }
            if slots[place].is_some() {
                assert(stored[owner[place as int]].0 == stored[at].0);
                return None;
            }
            proof {
                lemma_filled_update(slots@, place as int, name);
                owner = owner.update(place as int, at);
            }
            slots.set(place, Some(name));
        }
        proof {
            lemma_filled_bound(slots@);
        }
        let mut registry = TagRegistry::new();
        for slot in it: slots.into_iter()
            invariant
                it.seq() == slots@,
                stored == entries@.map_values(|e: (u32, String)| (e.0, e.1@)),
                n == entries.len(),
                n <= capacity(),
                slots.len() == n,
                owner.len() == n,
                forall|i: int| 0 <= i < n ==> (#[trigger] stored[i]).0 < n,
                forall|i: int, j: int|
                    0 <= i < j < n ==> (#[trigger] stored[i]).0 != (#[trigger] stored[j]).0,
                forall|j: int|
                    0 <= j < n ==> (#[trigger] slots[j]) is Some && 0 <= owner[j] < n
                        && stored[owner[j]].0 == j && slots[j]->0@ == stored[owner[j]].1,
                registry.wf(),
                registry@.len() == it.index(),
                forall|j: int|
                    0 <= j < it.index() ==> (#[trigger] registry@[j]) == stored[owner[j]].1,
        {
            let ghost at = it.index();
            assert(slots[at] == slot);
            let name = slot.unwrap();
            match registry.find(&name) {
                Some(twin) => {
                    proof {
                        let a = owner[twin as int];
                        let b = owner[at];
                        assert(slots[twin as int] is Some && slots[at] is Some);
                        assert(registry@[twin as int] == stored[a].1);
                        assert(stored[a].1 == stored[b].1);
                        assert(stored[a].0 != stored[b].0);
                        assert(a < b || b < a);
                    }
                    return None;
                },
                None => {
                    assert(registry@.push(name@) =~= registry.names@.push(name).map_values(
                        |name: String| name@,
                    ));
                    registry.names.push(name);
                },
            }
        }
        proof {
            assert forall|i: int| 0 <= i < n implies registry@[(#[trigger] stored[i]).0 as int]
                == stored[i].1 by {
                let j = stored[i].0 as int;
                assert(slots[j] is Some);
                assert(stored[owner[j]].0 == stored[i].0);
            }
            assert forall|i: int, j: int| 0 <= i < j < n implies (#[trigger] stored[i]).1 != (
            #[trigger] stored[j]).1 by {
                assert(registry@[stored[i].0 as int] == stored[i].1);
                assert(registry@[stored[j].0 as int] == stored[j].1);
            }
        }
        Some(registry)
    }

    /// Returns the id of `tag`. A name that was seen before keeps its id; a new
    /// name gets the next free one.
    pub fn get_id_by_tag(&mut self, tag: String) -> (id: u32)
        requires
            old(self).wf(),
            intern(old(self)@, tag@).len() <= capacity(),
        ensures
            final(self).wf(),
            final(self)@ == intern(old(self)@, tag@),
            id < final(self)@.len(),
            final(self)@[id as int] == tag@,
            id == id_of(final(self)@, tag@),
    {
        let id = match self.find(&tag) {
            Some(id) => id,
            None => {
                let id = self.names.len() as u32;
                assert(self@.push(tag@) =~= self.names@.push(tag).map_values(
                    |name: String| name@,
                ));
                self.names.push(tag);
                id
            },
        };
        proof {
            lemma_id_of_place(self@, id as int);
        }
        id
    }
}

/// Looking a name up twice in a row is the same as looking it up once: the
/// second lookup changes nothing and gives the same id.
pub proof fn lemma_lookup_idempotent(names: Seq<Seq<char>>, tag: Seq<char>)
    ensures
        intern(intern(names, tag), tag) == intern(names, tag),
        id_of(intern(intern(names, tag), tag), tag) == id_of(intern(names, tag), tag),
{
    lemma_intern_extends(names, tag);
}

/// A lookup never changes an id that was given out before.
pub proof fn lemma_lookup_keeps_ids(names: Seq<Seq<char>>, tag: Seq<char>, i: int)
    requires
        names.no_duplicates(),
        0 <= i < names.len(),
    ensures
        id_of(names, names[i]) == i,
        id_of(intern(names, tag), names[i]) == i,
{
    lemma_id_of_place(names, i);
    lemma_intern_extends(names, tag);
    let after = intern(names, tag);
    assert(after[i] == names.subrange(0, names.len() as int)[i]);
    lemma_id_of_place(after, i);
}

/// The ids are dense: after any list of lookups in a registry that starts
/// empty, the names with an id are exactly the names looked up, and the ids in
/// use are `0..n`, where `n` is the number of different names.
pub proof fn lemma_ids_dense(tags: Seq<Seq<char>>)
    ensures
        intern_all(Seq::empty(), tags).no_duplicates(),
        intern_all(Seq::empty(), tags).len() == tags.to_set().len(),
        forall|j: int|
            0 <= j < tags.len() ==> 0 <= id_of(intern_all(Seq::empty(), tags), #[trigger] tags[j])
                < tags.to_set().len(),
        forall|k: int|
            0 <= k < tags.to_set().len() ==> tags.contains(
                #[trigger] intern_all(Seq::empty(), tags)[k],
            ) && id_of(intern_all(Seq::empty(), tags), intern_all(Seq::empty(), tags)[k]) == k,
{
    let none = Seq::<Seq<char>>::empty();
    let all = intern_all(none, tags);
    lemma_intern_all_no_duplicates(none, tags);
    assert forall|x: Seq<char>| all.to_set().contains(x) <==> tags.to_set().contains(x) by {
        if all.contains(x) {
            let k = choose|k: int| 0 <= k < all.len() && all[k] == x;
            lemma_intern_all_origin(none, tags, k);
        }
        if tags.contains(x) {
            let j = choose|j: int| 0 <= j < tags.len() && tags[j] == x;
            lemma_intern_all_contains(none, tags, j);
        }
    }
    assert(all.to_set() =~= tags.to_set());
    all.unique_seq_to_set();
    assert forall|j: int| 0 <= j < tags.len() implies 0 <= id_of(all, #[trigger] tags[j])
        < tags.to_set().len() by {
        lemma_intern_all_contains(none, tags, j);
    }
    assert forall|k: int| 0 <= k < tags.to_set().len() implies tags.contains(#[trigger] all[k])
        && id_of(all, all[k]) == k by {
        lemma_intern_all_origin(none, tags, k);
        lemma_id_of_place(all, k);
    }
}

/// Ids follow the order of first sight: in a registry that starts empty, a
/// name first seen earlier has the lower id.
pub proof fn lemma_ids_in_first_seen_order(tags: Seq<Seq<char>>, p: int, q: int)
    requires
        first_seen_at(tags, p),
        first_seen_at(tags, q),
        p < q,
    ensures
        id_of(intern_all(Seq::empty(), tags), tags[p]) < id_of(
            intern_all(Seq::empty(), tags),
            tags[q],
        ),
{
    let none = Seq::<Seq<char>>::empty();
    lemma_id_counts_earlier_names(tags, p);
    lemma_id_counts_earlier_names(tags, q);
    let upto = tags.take(q);
    assert(upto.take(p + 1) =~= tags.take(p + 1));
    assert(upto.take(p) =~= tags.take(p));
    assert(tags.take(p + 1).drop_last() =~= tags.take(p));
    lemma_intern_all_extends(none, upto, p + 1);
    if intern_all(none, tags.take(p)).contains(tags[p]) {
        let k = choose|k: int|
            0 <= k < intern_all(none, tags.take(p)).len() && intern_all(none, tags.take(p))[k]
                == tags[p];
        lemma_intern_all_origin(none, tags.take(p), k);
    }
}

/// In a registry that starts empty, a name that is seen for the first time
/// gets the number of names seen before it as its id.
pub proof fn lemma_id_counts_earlier_names(tags: Seq<Seq<char>>, p: int)
    requires
        first_seen_at(tags, p),
    ensures
        id_of(intern_all(Seq::empty(), tags), tags[p]) == intern_all(
            Seq::empty(),
            tags.take(p),
        ).len(),
{
    let none = Seq::<Seq<char>>::empty();
    let all = intern_all(none, tags);
    let before = intern_all(none, tags.take(p));
    let with = intern_all(none, tags.take(p + 1));
    assert(tags.take(p + 1).drop_last() =~= tags.take(p));
    if before.contains(tags[p]) {
        let k = choose|k: int| 0 <= k < before.len() && before[k] == tags[p];
        lemma_intern_all_origin(none, tags.take(p), k);
    }
    assert(with[before.len() as int] == tags[p]);
    lemma_intern_all_extends(none, tags, p + 1);
    assert(all[before.len() as int] == with.subrange(0, with.len() as int)[before.len() as int]);
    lemma_intern_all_no_duplicates(none, tags);
    lemma_id_of_place(all, before.len() as int);
}

/// The stored form of valid names can be restored, and only to those names.
pub proof fn lemma_persisted_restores(names: Seq<Seq<char>>, restored: Seq<Seq<char>>)
    requires
        valid_names(names),
    ensures
        restorable(persisted(names)),
        restores(persisted(names), names),
        restores(persisted(names), restored) ==> restored == names,
{
    let entries = persisted(names);
    if restores(entries, restored) {
        assert forall|i: int| 0 <= i < names.len() implies restored[i] == names[i] by {
            assert(entries[i].0 == i);
        }
        assert(restored =~= names);
    }
}

/// Where no name occurs twice, the place of a name is its id.
pub proof fn lemma_id_of_place(names: Seq<Seq<char>>, i: int)
    requires
        names.no_duplicates(),
        0 <= i < names.len(),
    ensures
        id_of(names, names[i]) == i,
{
    let j = id_of(names, names[i]);
    assert(0 <= j < names.len() && names[j] == names[i]);
}

/// Looking a name up keeps every name at its place, and so every id.
pub proof fn lemma_intern_extends(names: Seq<Seq<char>>, tag: Seq<char>)
    ensures
        names.is_prefix_of(intern(names, tag)),
        intern(names, tag).contains(tag),
        valid_names(names) && intern(names, tag).len() <= capacity() ==> valid_names(
            intern(names, tag),
        ),
{
    let after = intern(names, tag);
    if names.contains(tag) {
        assert(names =~= after.subrange(0, names.len() as int));
    } else {
        assert(names =~= after.subrange(0, names.len() as int));
        assert(after[names.len() as int] == tag);
    }
}

/// Looking up the first `i` tags gives a prefix of what looking up all of them
/// gives: later lookups never move a name.
pub proof fn lemma_intern_all_extends(names: Seq<Seq<char>>, tags: Seq<Seq<char>>, i: int)
    requires
        0 <= i <= tags.len(),
    ensures
        intern_all(names, tags.take(i)).is_prefix_of(intern_all(names, tags)),
    decreases tags.len(),
{
    if i == tags.len() {
        assert(tags.take(i) =~= tags);
        let all = intern_all(names, tags);
        assert(all =~= all.subrange(0, all.len() as int));
    } else {
        let shorter = tags.drop_last();
        lemma_intern_all_extends(names, shorter, i);
        assert(shorter.take(i) =~= tags.take(i));
        lemma_intern_extends(intern_all(names, shorter), tags.last());
        let early = intern_all(names, tags.take(i));
        let mid = intern_all(names, shorter);
        let all = intern_all(names, tags);
        assert(early =~= all.subrange(0, early.len() as int));
    }
}

/// After the tags of `tags` were looked up, every one of them has an id.
pub proof fn lemma_intern_all_contains(names: Seq<Seq<char>>, tags: Seq<Seq<char>>, j: int)
    requires
        0 <= j < tags.len(),
    ensures
        intern_all(names, tags).contains(tags[j]),
        0 <= id_of(intern_all(names, tags), tags[j]) < intern_all(names, tags).len(),
    decreases tags.len(),
{
    let all = intern_all(names, tags);
    let before = intern_all(names, tags.drop_last());
    lemma_intern_extends(before, tags.last());
    if j < tags.len() - 1 {
        lemma_intern_all_contains(names, tags.drop_last(), j);
        let k = choose|k: int| 0 <= k < before.len() && before[k] == tags[j];
        assert(all[k] == before.subrange(0, before.len() as int)[k]);
    }
    let k = choose|k: int| 0 <= k < all.len() && all[k] == tags[j];
}

/// Every name that is there after lookups was there before or was looked up.
pub proof fn lemma_intern_all_origin(names: Seq<Seq<char>>, tags: Seq<Seq<char>>, k: int)
    requires
        0 <= k < intern_all(names, tags).len(),
    ensures
        names.contains(intern_all(names, tags)[k]) || tags.contains(intern_all(names, tags)[k]),
    decreases tags.len(),
{
    if tags.len() > 0 {
        let before = intern_all(names, tags.drop_last());
        let all = intern_all(names, tags);
        if k < before.len() {
            lemma_intern_extends(before, tags.last());
            assert(all[k] == before.subrange(0, before.len() as int)[k]);
            lemma_intern_all_origin(names, tags.drop_last(), k);
            if tags.drop_last().contains(all[k]) {
                let j = choose|j: int| 0 <= j < tags.len() - 1 && tags.drop_last()[j] == all[k];
                assert(tags[j] == all[k]);
            }
        } else {
            assert(all[k] == tags.last());
            assert(tags[tags.len() - 1] == all[k]);
        }
    }
}

/// Looking names up never makes a name occur twice.
pub proof fn lemma_intern_all_no_duplicates(names: Seq<Seq<char>>, tags: Seq<Seq<char>>)
    requires
        names.no_duplicates(),
    ensures
        intern_all(names, tags).no_duplicates(),
    decreases tags.len(),
{
    if tags.len() > 0 {
        lemma_intern_all_no_duplicates(names, tags.drop_last());
    }
}

/// Looking tags up keeps a valid list of names valid, as long as the ids last.
pub proof fn lemma_intern_all_valid(names: Seq<Seq<char>>, tags: Seq<Seq<char>>)
    requires
        valid_names(names),
        intern_all(names, tags).len() <= capacity(),
    ensures
        valid_names(intern_all(names, tags)),
        names.is_prefix_of(intern_all(names, tags)),
    decreases tags.len(),
{
    if tags.len() == 0 {
        assert(names =~= names.subrange(0, names.len() as int));
    } else {
        let before = intern_all(names, tags.drop_last());
        lemma_intern_extends(before, tags.last());
        lemma_intern_all_valid(names, tags.drop_last());
        let all = intern_all(names, tags);
        assert(names =~= all.subrange(0, names.len() as int));
    }
}

/// Lookups add at most one name each.
pub proof fn lemma_intern_all_bound(names: Seq<Seq<char>>, tags: Seq<Seq<char>>)
    ensures
        intern_all(names, tags).len() <= names.len() + tags.len(),
    decreases tags.len(),
{
    if tags.len() > 0 {
        lemma_intern_all_bound(names, tags.drop_last());
    }
}

/// The number of slots of `slots` that hold something.
pub open spec fn filled<T>(slots: Seq<Option<T>>) -> nat
    decreases slots.len(),
{
    if slots.len() == 0 {
        0
    } else {
        filled(slots.drop_last()) + if slots.last() is Some {
            1nat
        } else {
            0nat
        }
    }
}

/// No more slots are filled than there are, and where as many are filled as
/// there are, each one is.
pub proof fn lemma_filled_bound<T>(slots: Seq<Option<T>>)
    ensures
        filled(slots) <= slots.len(),
        filled(slots) == slots.len() ==> forall|k: int|
            0 <= k < slots.len() ==> (#[trigger] slots[k]) is Some,
        (forall|k: int| 0 <= k < slots.len() ==> (#[trigger] slots[k]) is None) ==> filled(slots)
            == 0,
    decreases slots.len(),
{
    if slots.len() > 0 {
        lemma_filled_bound(slots.drop_last());
        if filled(slots) == slots.len() {
            assert forall|k: int| 0 <= k < slots.len() implies (#[trigger] slots[k]) is Some by {
                if k < slots.len() - 1 {
                    assert(slots.drop_last()[k] == slots[k]);
                }
            }
        }
        if forall|k: int| 0 <= k < slots.len() ==> (#[trigger] slots[k]) is None {
            assert forall|k: int| 0 <= k < slots.len() - 1 implies (#[trigger] slots.drop_last()[k])
                is None by {
                assert(slots.drop_last()[k] == slots[k]);
            }
        }
    }
}

/// Filling an empty slot raises the count by one.
pub proof fn lemma_filled_update<T>(slots: Seq<Option<T>>, k: int, value: T)
    requires
        0 <= k < slots.len(),
        slots[k] is None,
    ensures
        filled(slots.update(k, Some(value))) == filled(slots) + 1,
    decreases slots.len(),
{
    let after = slots.update(k, Some(value));
    if k == slots.len() - 1 {
        assert(after.drop_last() =~= slots.drop_last());
    } else {
        assert(after.drop_last() =~= slots.drop_last().update(k, Some(value)));
        lemma_filled_update(slots.drop_last(), k, value);
    }
}

} // verus!
