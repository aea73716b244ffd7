//! Refnames and the object ids they point at, kept in name order

use vstd::prelude::*;

use crate::text;

verus! {

/// Refname and object id
pub type Pair = (Seq<char>, Seq<char>);

/// Names strictly ascending, so no name occurs twice
pub open spec fn ascending(pairs: Seq<Pair>) -> bool {
    forall|i: int, j: int|
        0 <= i < j < pairs.len() ==> text::precedes(#[trigger] pairs[i].0, #[trigger] pairs[j].0)
}

/// `pairs` is the content of `refs` in ascending name order
pub open spec fn is_listing(pairs: Seq<Pair>, refs: Map<Seq<char>, Seq<char>>) -> bool {
    &&& ascending(pairs)
    &&& forall|i: int|
        0 <= i < pairs.len() ==> refs.contains_key(#[trigger] pairs[i].0) && refs[pairs[i].0]
            == pairs[i].1
    &&& forall|name: Seq<char>| #[trigger]
        refs.contains_key(name) ==> exists|i: int|
            0 <= i < pairs.len() && #[trigger] pairs[i].0 == name
}

/// The content of `refs` in ascending name order
pub open spec fn listing(refs: Map<Seq<char>, Seq<char>>) -> Seq<Pair> {
    choose|pairs: Seq<Pair>| is_listing(pairs, refs)
}

/// The map a list of pairs builds, a later pair replacing an earlier one of the same name
pub open spec fn map_of(pairs: Seq<Pair>) -> Map<Seq<char>, Seq<char>>
    decreases pairs.len(),
{
    if pairs.len() == 0 {
        Map::empty()
    } else {
        map_of(pairs.drop_last()).insert(pairs.last().0, pairs.last().1)
    }
}

/// Ascending pairs list the map that they build
pub proof fn ascending_lists_its_map(pairs: Seq<Pair>)
    requires
        ascending(pairs),
    ensures
        is_listing(pairs, map_of(pairs)),
        map_of(pairs).len() == pairs.len(),
        map_of(pairs).dom().finite(),
    decreases pairs.len(),
{
    if pairs.len() > 0 {
        let init = pairs.drop_last();
        let n = pairs.len() - 1;
        ascending_lists_its_map(init);
        assert(!map_of(init).contains_key(pairs.last().0)) by {
            if map_of(init).contains_key(pairs.last().0) {
                let i = choose|i: int| 0 <= i < init.len() && #[trigger] init[i].0 == pairs.last().0;
                assert(text::precedes(pairs[i].0, pairs[n].0));
                text::precedes_irreflexive(pairs.last().0);
            }
        }
        assert forall|i: int| 0 <= i < pairs.len() implies map_of(pairs).contains_key(
            #[trigger] pairs[i].0,
        ) && map_of(pairs)[pairs[i].0] == pairs[i].1 by {
            if i < n {
                assert(init[i] == pairs[i]);
                assert(map_of(init).contains_key(init[i].0));
            }
        }
        assert forall|name: Seq<char>| #[trigger]
            map_of(pairs).contains_key(name) implies exists|i: int|
            0 <= i < pairs.len() && #[trigger] pairs[i].0 == name by {
            if name == pairs.last().0 {
                assert(pairs[n].0 == name);
            } else {
                let i = choose|i: int| 0 <= i < init.len() && #[trigger] init[i].0 == name;
                assert(pairs[i].0 == name);
            }
        }
    }
}

/// A map has one listing
pub proof fn listing_is_unique(a: Seq<Pair>, b: Seq<Pair>, refs: Map<Seq<char>, Seq<char>>)
    requires
        is_listing(a, refs),
        is_listing(b, refs),
    ensures
        a == b,
{
    assert forall|i: int| 0 <= i < a.len() && i < b.len() implies a[i] == b[i] by {
        listing_agrees_at(a, b, refs, i);
    }
    listing_has_no_extra(a, b, refs);
    listing_has_no_extra(b, a, refs);
    assert(a =~= b);
}

proof fn listing_agrees_at(
    a: Seq<Pair>,
    b: Seq<Pair>,
    refs: Map<Seq<char>, Seq<char>>,
    i: int,
)
    requires
        is_listing(a, refs),
        is_listing(b, refs),
        0 <= i < a.len(),
        i < b.len(),
    ensures
        a[i] == b[i],
    decreases i,
{
    if i > 0 {
        assert forall|k: int| 0 <= k < i implies a[k] == b[k] by {
            listing_agrees_at(a, b, refs, k);
        }
    }
    if a[i].0 != b[i].0 {
        text::precedes_total(a[i].0, b[i].0);
        listing_has_no_smaller(a, b, refs, i);
        listing_has_no_smaller(b, a, refs, i);
    }
    assert(refs[a[i].0] == a[i].1 && refs[b[i].0] == b[i].1);
}

proof fn listing_has_no_smaller(
    a: Seq<Pair>,
    b: Seq<Pair>,
    refs: Map<Seq<char>, Seq<char>>,
    i: int,
)
    requires
        is_listing(a, refs),
        is_listing(b, refs),
        0 <= i < a.len(),
        i < b.len(),
        forall|k: int| 0 <= k < i ==> a[k] == b[k],
    ensures
        !text::precedes(a[i].0, b[i].0),
{
    assert(refs.contains_key(a[i].0));
    let j = choose|j: int| 0 <= j < b.len() && #[trigger] b[j].0 == a[i].0;
    text::precedes_irreflexive(a[i].0);
    if j < i {
        assert(a[j] == b[j]);
        assert(text::precedes(a[j].0, a[i].0));
    } else if j > i {
        assert(text::precedes(b[i].0, b[j].0));
        if text::precedes(a[i].0, b[i].0) {
            text::precedes_transitive(a[i].0, b[i].0, a[i].0);
        }
    }
}

proof fn listing_has_no_extra(a: Seq<Pair>, b: Seq<Pair>, refs: Map<Seq<char>, Seq<char>>)
    requires
        is_listing(a, refs),
        is_listing(b, refs),
        forall|i: int| 0 <= i < a.len() && i < b.len() ==> a[i] == b[i],
    ensures
        a.len() <= b.len(),
{
    if a.len() > b.len() {
        let n = b.len() as int;
        assert(refs.contains_key(a[n].0));
        let j = choose|j: int| 0 <= j < b.len() && #[trigger] b[j].0 == a[n].0;
        assert(a[j] == b[j]);
        assert(text::precedes(a[j].0, a[n].0));
        text::precedes_irreflexive(a[n].0);
    }
}

/// Ascending pairs are the listing of the map that they build
pub proof fn listing_of_ascending(pairs: Seq<Pair>)
    requires
        ascending(pairs),
    ensures
        listing(map_of(pairs)) == pairs,
        is_listing(pairs, map_of(pairs)),
        map_of(pairs).len() == pairs.len(),
        map_of(pairs).dom().finite(),
{
    ascending_lists_its_map(pairs);
    listing_is_unique(listing(map_of(pairs)), pairs, map_of(pairs));
}

/// A listing builds the map that it lists
pub proof fn listing_builds_its_map(pairs: Seq<Pair>, refs: Map<Seq<char>, Seq<char>>)
    requires
        is_listing(pairs, refs),
    ensures
        map_of(pairs) == refs,
{
    ascending_lists_its_map(pairs);
    let built = map_of(pairs);
    assert forall|name: Seq<char>| built.contains_key(name) == refs.contains_key(name) by {
        if built.contains_key(name) {
            let i = choose|i: int| 0 <= i < pairs.len() && #[trigger] pairs[i].0 == name;
            assert(refs.contains_key(pairs[i].0));
        }
        if refs.contains_key(name) {
            let i = choose|i: int| 0 <= i < pairs.len() && #[trigger] pairs[i].0 == name;
            assert(built.contains_key(pairs[i].0));
        }
    }
    assert forall|name: Seq<char>| built.contains_key(name) implies built[name] == refs[name] by {
        let i = choose|i: int| 0 <= i < pairs.len() && #[trigger] pairs[i].0 == name;
        assert(refs.contains_key(pairs[i].0));
    }
    assert(built =~= refs);
}

/// A pair put where it belongs makes the listing of a map that has it too
proof fn listing_with(
    pairs: Seq<Pair>,
    refs: Map<Seq<char>, Seq<char>>,
    at: int,
    pair: Pair,
)
    requires
        is_listing(pairs, refs),
        !refs.contains_key(pair.0),
        0 <= at <= pairs.len(),
        forall|i: int| 0 <= i < at ==> text::precedes(#[trigger] pairs[i].0, pair.0),
        forall|i: int| at <= i < pairs.len() ==> !text::precedes(#[trigger] pairs[i].0, pair.0),
    ensures
        is_listing(pairs.insert(at, pair), refs.insert(pair.0, pair.1)),
{
    let after = pairs.insert(at, pair);
    let map = refs.insert(pair.0, pair.1);
    assert forall|i: int, j: int| 0 <= i < j < after.len() implies text::precedes(
        #[trigger] after[i].0,
        #[trigger] after[j].0,
    ) by {
        if i < at && j < at {
            assert(pairs[i] == after[i] && pairs[j] == after[j]);
        } else if i < at && j == at {
            assert(pairs[i] == after[i]);
        } else if i < at {
            assert(pairs[i] == after[i] && pairs[j - 1] == after[j]);
        } else if i == at {
            assert(pairs[j - 1] == after[j]);
            text::precedes_total(pairs[j - 1].0, pair.0);
            if pairs[j - 1].0 == pair.0 {
                assert(refs.contains_key(pairs[j - 1].0));
            }
        } else {
            assert(pairs[i - 1] == after[i] && pairs[j - 1] == after[j]);
        }
    }
    assert forall|k: Seq<char>| #[trigger] map.contains_key(k) implies exists|i: int|
        0 <= i < after.len() && #[trigger] after[i].0 == k by {
        if k == pair.0 {
            assert(after[at].0 == k);
        } else {
            let i = choose|i: int| 0 <= i < pairs.len() && #[trigger] pairs[i].0 == k;
            if i < at {
                assert(after[i].0 == k);
            } else {
                assert(after[i + 1].0 == k);
            }
        }
    }
    assert forall|i: int| 0 <= i < after.len() implies map.contains_key(#[trigger] after[i].0)
        && map[after[i].0] == after[i].1 by {
        if i < at {
            assert(after[i] == pairs[i]);
            assert(refs.contains_key(pairs[i].0));
        } else if i > at {
            assert(after[i] == pairs[i - 1]);
            assert(refs.contains_key(pairs[i - 1].0));
        }
    }
}

/// How many of some ascending pairs come before a name
spec fn place_of(pairs: Seq<Pair>, name: Seq<char>) -> int
    decreases pairs.len(),
{
    if pairs.len() == 0 {
        0
    } else if text::precedes(pairs.last().0, name) {
        pairs.len() as int
    } else {
        place_of(pairs.drop_last(), name)
    }
}

proof fn place_parts(pairs: Seq<Pair>, name: Seq<char>)
    requires
        ascending(pairs),
    ensures
        0 <= place_of(pairs, name) <= pairs.len(),
        forall|i: int|
            0 <= i < place_of(pairs, name) ==> text::precedes(#[trigger] pairs[i].0, name),
        forall|i: int|
            place_of(pairs, name) <= i < pairs.len() ==> !text::precedes(
                #[trigger] pairs[i].0,
                name,
            ),
    decreases pairs.len(),
{
    if pairs.len() > 0 {
        let last = pairs.len() - 1;
        if text::precedes(pairs.last().0, name) {
            assert forall|i: int| 0 <= i < pairs.len() implies text::precedes(
                #[trigger] pairs[i].0,
                name,
            ) by {
                if i < last {
                    assert(text::precedes(pairs[i].0, pairs[last].0));
                    text::precedes_transitive(pairs[i].0, pairs[last].0, name);
                }
            }
        } else {
            let init = pairs.drop_last();
            assert forall|i: int, j: int| 0 <= i < j < init.len() implies text::precedes(
                #[trigger] init[i].0,
                #[trigger] init[j].0,
            ) by {
                assert(text::precedes(pairs[i].0, pairs[j].0));
            }
            place_parts(init, name);
            assert forall|i: int| 0 <= i < place_of(pairs, name) implies text::precedes(
                #[trigger] pairs[i].0,
                name,
            ) by {
                assert(pairs[i] == init[i]);
            }
            assert forall|i: int| place_of(pairs, name) <= i < pairs.len() implies !text::precedes(
                #[trigger] pairs[i].0,
                name,
            ) by {
                if i < last {
                    assert(pairs[i] == init[i]);
                }
            }
        }
    }
}

/// Every finite map can be listed in name order
pub proof fn listing_exists(refs: Map<Seq<char>, Seq<char>>)
    requires
        refs.dom().finite(),
    ensures
        is_listing(listing(refs), refs),
    decreases refs.dom().len(),
{
    if refs.dom().len() == 0 {
        assert forall|name: Seq<char>| !(#[trigger] refs.contains_key(name)) by {
            assert(!refs.dom().contains(name));
        }
        assert(is_listing(Seq::<Pair>::empty(), refs));
    } else {
        let name = refs.dom().choose();
        let rest = refs.remove(name);
        listing_exists(rest);
        let pairs = listing(rest);
        let pair = (name, refs[name]);
        place_parts(pairs, name);
        listing_with(pairs, rest, place_of(pairs, name), pair);
        assert(rest.insert(pair.0, pair.1) =~= refs);
        assert(is_listing(pairs.insert(place_of(pairs, name), pair), refs));
    }
}

/// Full refname to object id, in name order
#[derive(Debug)]
pub struct Refs {
    entries: Vec<(String, String)>,
}

impl View for Refs {
    type V = Map<Seq<char>, Seq<char>>;

    closed spec fn view(&self) -> Map<Seq<char>, Seq<char>> {
        map_of(self.pairs())
    }
}

impl Refs {
    closed spec fn pairs(&self) -> Seq<Pair> {
        pairs_of(self.entries@)
    }

    #[verifier::type_invariant]
    closed spec fn in_order(&self) -> bool {
        ascending(self.pairs())
    }

    /// No refs
    pub fn new() -> (refs: Refs)
        ensures
            refs@ == Map::<Seq<char>, Seq<char>>::empty(),
    {
        Refs { entries: Vec::new() }
    }

    /// How many refs there are
    pub fn len(&self) -> (n: usize)
        ensures
            n == self@.len(),
            n == listing(self@).len(),
            is_listing(listing(self@), self@),
            self@.dom().finite(),
    {
        proof {
            use_type_invariant(self);
            listing_of_ascending(self.pairs());
        }
        self.entries.len()
    }

    /// Refname at a place in name order
    pub fn name_at(&self, i: usize) -> (name: &String)
        requires
            i < listing(self@).len(),
        ensures
            name@ == listing(self@)[i as int].0,
    {
        proof {
            use_type_invariant(self);
            listing_of_ascending(self.pairs());
        }
        &self.entries[i].0
    }

    /// Object id at a place in name order
    pub fn id_at(&self, i: usize) -> (id: &String)
        requires
            i < listing(self@).len(),
        ensures
            id@ == listing(self@)[i as int].1,
    {
        proof {
            use_type_invariant(self);
            listing_of_ascending(self.pairs());
        }
        &self.entries[i].1
    }

    /// Where `name` is, or belongs
    fn place(&self, name: &str) -> (at: usize)
        ensures
            at <= self.entries@.len(),
            forall|i: int| 0 <= i < at ==> text::precedes(#[trigger] self.pairs()[i].0, name@),
            forall|i: int|
                at <= i < self.entries@.len() ==> !text::precedes(#[trigger] self.pairs()[i].0, name@),
            self@.contains_key(name@) <==> at < self.entries@.len() && self.pairs()[at as int].0
                == name@,
            self@.contains_key(name@) ==> self@[name@] == self.pairs()[at as int].1,
    {
        proof {
            use_type_invariant(self);
        }
        let mut at: usize = 0;
        while at < self.entries.len() && text::comes_before(self.entries[at].0.as_str(), name)
            invariant
                at <= self.entries@.len(),
                forall|i: int| 0 <= i < at ==> text::precedes(#[trigger] self.pairs()[i].0, name@),
            decreases self.entries.len() - at,
        {
            at = at + 1;
        }
        proof {
            let pairs = self.pairs();
            ascending_lists_its_map(pairs);
            assert forall|i: int| at <= i < pairs.len() implies !text::precedes(
                #[trigger] pairs[i].0,
                name@,
            ) by {
                if i > at {
                    assert(text::precedes(pairs[at as int].0, pairs[i].0));
                    if text::precedes(pairs[i].0, name@) {
                        text::precedes_transitive(pairs[at as int].0, pairs[i].0, name@);
                    }
                }
            }
            if self@.contains_key(name@) {
                let i = choose|i: int| 0 <= i < pairs.len() && #[trigger] pairs[i].0 == name@;
                text::precedes_irreflexive(name@);
                if i > at {
                    assert(text::precedes(pairs[at as int].0, pairs[i].0));
                }
                assert(i == at);
            }
        }
        at
    }

    /// Object id a ref points at
    pub fn get(&self, name: &str) -> (id: Option<&String>)
        ensures
            match id {
                Some(id) => self@.contains_key(name@) && self@[name@] == id@,
                None => !self@.contains_key(name@),
            },
    {
        let at = self.place(name);
        if at < self.entries.len() && text::same(self.entries[at].0.as_str(), name) {
            Some(&self.entries[at].1)
        } else {
            None
        }
    }

    /// Whether a ref exists
    pub fn contains_key(&self, name: &str) -> (found: bool)
        ensures
            found == self@.contains_key(name@),
    {
        match self.get(name) {
            Some(_) => true,
            None => false,
        }
    }

    /// Point a ref at an object id, creating it if need be
    pub fn insert(&mut self, name: String, id: String)
        ensures
            final(self)@ == old(self)@.insert(name@, id@),
    {
        let at = self.place(name.as_str());
        let ghost before = self.pairs();
        proof {
            use_type_invariant(&*self);
            ascending_lists_its_map(before);
        }
        let found = at < self.entries.len() && self.entries[at].0 == name;
        let ghost was = self@;
        let ghost pair = (name@, id@);
        let mut entries: Vec<(String, String)> = Vec::new();
        std::mem::swap(&mut entries, &mut self.entries);
        if found {
            entries.set(at, (name, id));
            proof {
                assert(pairs_of(entries@) =~= before.update(at as int, pair));
            }
        } else {
            entries.insert(at, (name, id));
            proof {
                assert(pairs_of(entries@) =~= before.insert(at as int, pair));
            }
        }
        proof {
            let after = pairs_of(entries@);
            let map = was.insert(pair.0, pair.1);
            if found {
                assert(after == before.update(at as int, pair));
                assert forall|i: int, j: int| 0 <= i < j < after.len() implies text::precedes(
                    #[trigger] after[i].0,
                    #[trigger] after[j].0,
                ) by {
                    assert(before[i].0 == after[i].0 && before[j].0 == after[j].0);
                }
                assert forall|k: Seq<char>| #[trigger] map.contains_key(k) implies exists|i: int|
                    0 <= i < after.len() && #[trigger] after[i].0 == k by {
                    if k == pair.0 {
                        assert(after[at as int].0 == k);
                    } else {
                        let i = choose|i: int| 0 <= i < before.len() && #[trigger] before[i].0 == k;
                        assert(after[i].0 == k);
                    }
                }
                assert forall|i: int| 0 <= i < after.len() implies map.contains_key(
                    #[trigger] after[i].0,
                ) && map[after[i].0] == after[i].1 by {
                    if i != at {
                        assert(after[i] == before[i]);
                        if i < at {
                            assert(text::precedes(before[i].0, before[at as int].0));
                        } else {
                            assert(text::precedes(before[at as int].0, before[i].0));
                        }
                        text::precedes_irreflexive(pair.0);
                    }
                }
            } else {
                listing_with(before, was, at as int, pair);
            }
            listing_builds_its_map(after, map);
        }
        self.entries = entries;
    }

    /// Drop a ref, if it is there
    pub fn remove(&mut self, name: &str)
        ensures
            final(self)@ == old(self)@.remove(name@),
    {
        let at = self.place(name);
        let ghost before = self.pairs();
        let ghost was = self@;
        proof {
            use_type_invariant(&*self);
            ascending_lists_its_map(before);
        }
        if at < self.entries.len() && text::same(self.entries[at].0.as_str(), name) {
            let mut entries: Vec<(String, String)> = Vec::new();
            std::mem::swap(&mut entries, &mut self.entries);
            entries.remove(at);
            proof {
                let after = pairs_of(entries@);
                let map = was.remove(name@);
                assert(after =~= before.remove(at as int));
                assert forall|i: int, j: int| 0 <= i < j < after.len() implies text::precedes(
                    #[trigger] after[i].0,
                    #[trigger] after[j].0,
                ) by {
                    let p = if i < at { i } else { i + 1 };
                    let q = if j < at { j } else { j + 1 };
                    assert(before[p] == after[i] && before[q] == after[j]);
                }
                assert forall|i: int| 0 <= i < after.len() implies map.contains_key(
                    #[trigger] after[i].0,
                ) && map[after[i].0] == after[i].1 by {
                    text::precedes_irreflexive(name@);
                    if i < at {
                        assert(after[i] == before[i]);
                        assert(text::precedes(before[i].0, before[at as int].0));
                        assert(was.contains_key(before[i].0));
                    } else {
                        assert(after[i] == before[i + 1]);
                        assert(text::precedes(before[at as int].0, before[i + 1].0));
                        assert(was.contains_key(before[i + 1].0));
                    }
                }
                assert forall|k: Seq<char>| #[trigger] map.contains_key(k) implies exists|i: int|
                    0 <= i < after.len() && #[trigger] after[i].0 == k by {
                    assert(was.contains_key(k));
                    let i = choose|i: int| 0 <= i < before.len() && #[trigger] before[i].0 == k;
                    if i < at {
                        assert(after[i].0 == k);
                    } else {
                        assert(after[i - 1].0 == k);
                    }
                }
                listing_builds_its_map(after, map);
            }
            self.entries = entries;
        } else {
            assert(was.remove(name@) =~= was);
        }
    }
}

impl Clone for Refs {
    fn clone(&self) -> (copy: Refs)
        ensures
            copy@ == self@,
    {
        proof {
            use_type_invariant(self);
        }
        let mut entries: Vec<(String, String)> = Vec::new();
        let mut i: usize = 0;
        while i < self.entries.len()
            invariant
                i <= self.entries@.len(),
                entries@.len() == i,
                forall|k: int|
                    0 <= k < i ==> entries@[k].0@ == self.entries@[k].0@ && entries@[k].1@
                        == self.entries@[k].1@,
            decreases self.entries.len() - i,
        {
            entries.push((self.entries[i].0.clone(), self.entries[i].1.clone()));
            i = i + 1;
        }
        assert(pairs_of(entries@) =~= pairs_of(self.entries@));
        Refs { entries }
    }
}

spec fn pairs_of(entries: Seq<(String, String)>) -> Seq<Pair> {
    entries.map_values(|e: (String, String)| (e.0@, e.1@))
}

} // verus!
