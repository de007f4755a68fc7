use vstd::prelude::*;

verus! {

/// The wire-level name of one subscription: the exchange's channel and market.
#[derive(Debug, PartialEq, Eq)]
pub struct SubscriptionId {
    pub channel: String,
    pub market: String,
}

impl View for SubscriptionId {
    type V = (Seq<char>, Seq<char>);

    open spec fn view(&self) -> (Seq<char>, Seq<char>) {
        (self.channel@, self.market@)
    }
}

impl SubscriptionId {
    /// Whether two names are the same channel and market.
    pub fn same(&self, other: &SubscriptionId) -> (same: bool)
        ensures
            same == (self@ == other@),
    {
        self.channel == other.channel && self.market == other.market
    }

    /// A copy of the name.
    pub fn duplicate(&self) -> (copy: SubscriptionId)
        ensures
            copy@ == self@,
    {
        SubscriptionId { channel: self.channel.clone(), market: self.market.clone() }
    }
}

/// One entry of a resolution map: a wire-level name, and the position of the
/// subscription that it stands for in the list that was subscribed to.
#[derive(Debug)]
pub struct Entry {
    pub id: SubscriptionId,
    pub target: usize,
}

pub open spec fn names(ids: Seq<SubscriptionId>, key: (Seq<char>, Seq<char>)) -> bool {
    exists|i: int| 0 <= i < ids.len() && (#[trigger] ids[i])@ == key
}

/// `i` is the first position in `ids` that holds the name `key`.
pub open spec fn first_named(
    ids: Seq<SubscriptionId>,
    key: (Seq<char>, Seq<char>),
    i: int,
) -> bool {
    &&& 0 <= i < ids.len()
    &&& ids[i]@ == key
    &&& forall|j: int| 0 <= j < i ==> (#[trigger] ids[j])@ != key
}

pub open spec fn has_key(entries: Seq<Entry>, key: (Seq<char>, Seq<char>)) -> bool {
    exists|i: int| 0 <= i < entries.len() && (#[trigger] entries[i]).id@ == key
}

pub open spec fn key_index(entries: Seq<Entry>, key: (Seq<char>, Seq<char>)) -> int {
    choose|i: int| 0 <= i < entries.len() && (#[trigger] entries[i]).id@ == key
}

/// No two entries have the same name.
pub open spec fn unique_keys(entries: Seq<Entry>) -> bool {
    forall|i: int, j: int|
        0 <= i < j < entries.len() ==> (#[trigger] entries[i]).id@ != (#[trigger] entries[j]).id@
}

/// The lookup from wire-level names to subscriptions, built once when the
/// subscriptions are accepted. It holds each name once.
#[derive(Debug)]
pub struct ResolutionMap {
    entries: Vec<Entry>,
    subscribed: usize,
}

impl ResolutionMap {
    /// No name occurs twice.
    pub closed spec fn wf(&self) -> bool {
        &&& unique_keys(self.entries@)
        &&& forall|i: int|
            0 <= i < self.entries@.len() ==> (#[trigger] self.entries@[i]).target < self.subscribed
    }

    /// The length of the list of names that the map was built from.
    pub closed spec fn subscribed_of(&self) -> usize {
        self.subscribed
    }

    /// The entries, in the order in which their names first occurred.
    pub closed spec fn entries_of(&self) -> Seq<Entry> {
        self.entries@
    }

    /// The position that each name resolves to.
    pub closed spec fn view(&self) -> Map<(Seq<char>, Seq<char>), usize> {
        Map::new(
            |key: (Seq<char>, Seq<char>)| has_key(self.entries@, key),
            |key: (Seq<char>, Seq<char>)| self.entries@[key_index(self.entries@, key)].target,
        )
    }

    proof fn lemma_entry(&self, i: int)
        requires
            self.wf(),
            0 <= i < self.entries@.len(),
        ensures
            self@.dom().contains(self.entries@[i].id@),
            self@[self.entries@[i].id@] == self.entries@[i].target,
    {
        let key = self.entries@[i].id@;
        let j = key_index(self.entries@, key);
        assert(0 <= j < self.entries@.len() && self.entries@[j].id@ == key);
        if i < j {
            assert(self.entries@[i].id@ != self.entries@[j].id@);
        }
        if j < i {
            assert(self.entries@[j].id@ != self.entries@[i].id@);
        }
    }

    /// Every name resolves to a position in the list that the map was built
    /// from.
    pub proof fn lemma_targets_in_range(&self)
        requires
            self.wf(),
        ensures
            forall|key: (Seq<char>, Seq<char>)| #[trigger]
                self@.dom().contains(key) ==> self@[key] < self.subscribed_of(),
    {
        assert forall|key: (Seq<char>, Seq<char>)| #[trigger]
            self@.dom().contains(key) implies self@[key] < self.subscribed_of() by {
            let i = key_index(self.entries@, key);
            self.lemma_entry(i);
        }
    }

    /// The map of a list of names: every name in the list resolves to the
    /// first position at which it stands, and no other name resolves.
    pub fn build(ids: &Vec<SubscriptionId>) -> (map: ResolutionMap)
        ensures
            map.wf(),
            forall|key: (Seq<char>, Seq<char>)| map@.dom().contains(key) <==> names(ids@, key),
            forall|key: (Seq<char>, Seq<char>)| #[trigger]
                map@.dom().contains(key) ==> first_named(ids@, key, map@[key] as int),
            unique_keys(map.entries_of()),
            forall|key: (Seq<char>, Seq<char>)|
                map@.dom().contains(key) <==> has_key(map.entries_of(), key),
            forall|e: int|
                0 <= e < map.entries_of().len() ==> first_named(
                    ids@,
                    (#[trigger] map.entries_of()[e]).id@,
                    map.entries_of()[e].target as int,
                ),
            map.entries_of().len() <= ids.len(),
            map.subscribed_of() == ids.len(),
    {
        let mut map = ResolutionMap { entries: Vec::new(), subscribed: ids.len() };
        let mut i: usize = 0;
        while i < ids.len()
            invariant
                i <= ids.len(),
                map.wf(),
                map.subscribed == ids.len(),
                map.entries@.len() <= i,
                forall|e: int|
                    0 <= e < map.entries@.len() ==> first_named(
                        ids@,
                        (#[trigger] map.entries@[e]).id@,
                        map.entries@[e].target as int,
                    ),
                forall|key: (Seq<char>, Seq<char>)|
                    map@.dom().contains(key) <==> names(ids@.take(i as int), key),
                forall|key: (Seq<char>, Seq<char>)| #[trigger]
                    map@.dom().contains(key) ==> first_named(ids@, key, map@[key] as int)
                        && map@[key] < i,
            decreases ids.len() - i,
        {
            let ghost before = map;
            let known = map.find(&ids[i]);
            if known.is_none() {
                map.entries.push(Entry { id: ids[i].duplicate(), target: i });
                proof {
                    let added = map.entries@.len() - 1;
                    assert forall|a: int, b: int| 0 <= a < b < map.entries@.len() implies (
                    #[trigger] map.entries@[a]).id@ != (#[trigger] map.entries@[b]).id@ by {
                        assert(map.entries@[a] == before.entries@[a]);
                        if b < added {
                            assert(map.entries@[b] == before.entries@[b]);
                        } else {
                            assert(has_key(before.entries@, before.entries@[a].id@));
                        }
                    }
                    assert forall|a: int| 0 <= a < map.entries@.len() implies (
                    #[trigger] map.entries@[a]).target < map.subscribed by {
                        if a < added {
                            assert(map.entries@[a] == before.entries@[a]);
                        }
                    }
                    assert(map.wf());
                    assert forall|key: (Seq<char>, Seq<char>)| #[trigger]
                        map@.dom().contains(key) implies (before@.dom().contains(key) && map@[key]
                        == before@[key]) || (key == ids@[i as int]@ && map@[key] == i) by {
                        let j = key_index(map.entries@, key);
                        map.lemma_entry(j);
                        if j < added {
                            assert(map.entries@[j] == before.entries@[j]);
                            before.lemma_entry(j);
                        }
                    }
                    assert forall|key: (Seq<char>, Seq<char>)| #[trigger]
                        before@.dom().contains(key) implies map@.dom().contains(key) by {
                        let j = key_index(before.entries@, key);
                        assert(map.entries@[j] == before.entries@[j]);
                    }
                    map.lemma_entry(added);
                    assert(map.entries@[added].id@ == ids@[i as int]@);
                    assert(map@.dom().contains(ids@[i as int]@));
                    assert forall|j: int| 0 <= j < i implies (#[trigger] ids@[j])@
                        != ids@[i as int]@ by {
                        assert(ids@.take(i as int)[j] == ids@[j]);
                        assert(names(ids@.take(i as int), ids@[j]@));
                    }
                    assert forall|e: int| 0 <= e < map.entries@.len() implies first_named(
                        ids@,
                        (#[trigger] map.entries@[e]).id@,
                        map.entries@[e].target as int,
                    ) by {
                        if e < added {
                            assert(map.entries@[e] == before.entries@[e]);
                        }
                    }
                }
            }
            proof {
                assert(map@.dom().contains(ids@[i as int]@));
                assert(ids@.take(i + 1)[i as int] == ids@[i as int]);
                assert forall|key: (Seq<char>, Seq<char>)| #[trigger]
                    names(ids@.take(i + 1), key) implies map@.dom().contains(key) by {
                    let j = choose|j: int|
                        0 <= j < ids@.take(i + 1).len() && (#[trigger] ids@.take(i + 1)[j])@ == key;
                    if j < i {
                        assert(ids@.take(i as int)[j]@ == key);
                        assert(names(ids@.take(i as int), key));
                        assert(before@.dom().contains(key));
                    } else {
                        assert(key == ids@[i as int]@);
                    }
                }
                assert forall|key: (Seq<char>, Seq<char>)| #[trigger]
                    map@.dom().contains(key) implies names(ids@.take(i + 1), key) by {
                    if before@.dom().contains(key) {
                        assert(names(ids@.take(i as int), key));
                        let j = choose|j: int|
                            0 <= j < ids@.take(i as int).len() && (#[trigger] ids@.take(
                                i as int,
                            )[j])@ == key;
                        assert(ids@.take(i + 1)[j]@ == key);
                    } else {
                        assert(key == ids@[i as int]@);
                        assert(ids@.take(i + 1)[i as int]@ == key);
                    }
                }
            }
            i = i + 1;
        }
        proof {
            assert(ids@.take(i as int) == ids@);
        }
        map
    }

    /// The position that a name resolves to, if it resolves.
    pub fn find(&self, id: &SubscriptionId) -> (target: Option<usize>)
        requires
            self.wf(),
        ensures
            target is Some <==> self@.dom().contains(id@),
            target is Some ==> target->0 == self@[id@] && target->0 < self.subscribed_of(),
    {
        let mut i: usize = 0;
        while i < self.entries.len()
            invariant
                self.wf(),
                i <= self.entries.len(),
                forall|j: int| 0 <= j < i ==> (#[trigger] self.entries@[j]).id@ != id@,
            decreases self.entries.len() - i,
        {
            if self.entries[i].id.same(id) {
                proof {
                    self.lemma_entry(i as int);
                }
                return Some(self.entries[i].target);
            }
            i = i + 1;
        }
        None
    }

    /// The length of the list of names that the map was built from.
    pub fn subscribed(&self) -> (n: usize)
        ensures
            n == self.subscribed_of(),
    {
        self.subscribed
    }

    /// The number of names that resolve.
    pub fn len(&self) -> (n: usize)
        ensures
            n == self.entries_of().len(),
    {
        self.entries.len()
    }
}

} // verus!
