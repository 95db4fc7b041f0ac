//! A small map from string keys to string values, kept as a list of
//! distinct keys in insertion order.

use vstd::prelude::*;

verus! {

/// The map that a list of key/value pairs denotes: later pairs override
/// earlier ones with the same key.
pub open spec fn map_of(entries: Seq<(Seq<char>, Seq<char>)>) -> Map<Seq<char>, Seq<char>>
    decreases entries.len(),
{
    if entries.len() == 0 {
        Map::empty()
    } else {
        map_of(entries.drop_last()).insert(entries.last().0, entries.last().1)
    }
}

/// The value stored under `k` in `m`, if any.
pub open spec fn lookup(m: Map<Seq<char>, Seq<char>>, k: Seq<char>) -> Option<Seq<char>> {
    if m.dom().contains(k) {
        Some(m[k])
    } else {
        None
    }
}

/// The view of an optional string.
pub open spec fn opt_view(o: Option<String>) -> Option<Seq<char>> {
    match o {
        Some(s) => Some(s@),
        None => None,
    }
}

/// Views of the pairs of an entry list.
pub open spec fn pair_views(entries: Seq<(String, String)>) -> Seq<(Seq<char>, Seq<char>)> {
    entries.map_values(|p: (String, String)| (p.0@, p.1@))
}

/// Whether no key occurs twice in an entry list.
pub open spec fn distinct_keys(entries: Seq<(Seq<char>, Seq<char>)>) -> bool {
    forall|i: int, j: int|
        0 <= i < entries.len() && 0 <= j < entries.len() && i != j ==> #[trigger] entries[i].0
            != #[trigger] entries[j].0
}

/// The position of key `k` in an entry list, if it occurs there.
pub open spec fn key_index(entries: Seq<(Seq<char>, Seq<char>)>, k: Seq<char>) -> Option<int> {
    if exists|j: int| 0 <= j < entries.len() && #[trigger] entries[j].0 == k {
        Some(choose|j: int| 0 <= j < entries.len() && #[trigger] entries[j].0 == k)
    } else {
        None
    }
}

/// Every key of `map_of(entries)` is the key of some entry, and the other way round.
pub proof fn lemma_map_of_dom(entries: Seq<(Seq<char>, Seq<char>)>, k: Seq<char>)
    ensures
        map_of(entries).dom().contains(k) <==> exists|i: int|
            0 <= i < entries.len() && #[trigger] entries[i].0 == k,
    decreases entries.len(),
{
    if entries.len() > 0 {
        let init = entries.drop_last();
        lemma_map_of_dom(init, k);
        if map_of(entries).dom().contains(k) {
            if entries.last().0 != k {
                let i = choose|i: int| 0 <= i < init.len() && #[trigger] init[i].0 == k;
                assert(entries[i].0 == k);
            } else {
                assert(entries[entries.len() - 1].0 == k);
            }
        }
        if exists|i: int| 0 <= i < entries.len() && #[trigger] entries[i].0 == k {
            let i = choose|i: int| 0 <= i < entries.len() && #[trigger] entries[i].0 == k;
            if i < init.len() {
                assert(init[i].0 == k);
            }
        }
    }
}

/// With distinct keys, the value of a key is the value of its entry.
pub proof fn lemma_map_of_value(entries: Seq<(Seq<char>, Seq<char>)>, i: int)
    requires
        distinct_keys(entries),
        0 <= i < entries.len(),
    ensures
        map_of(entries).dom().contains(entries[i].0),
        map_of(entries)[entries[i].0] == entries[i].1,
    decreases entries.len(),
{
    let init = entries.drop_last();
    if i < entries.len() - 1 {
        assert(init[i] == entries[i]);
        assert forall|a: int, b: int|
            0 <= a < init.len() && 0 <= b < init.len() && a != b implies #[trigger] init[a].0
            != #[trigger] init[b].0 by {
            assert(init[a] == entries[a] && init[b] == entries[b]);
        }
        lemma_map_of_value(init, i);
        assert(entries[i].0 != entries[entries.len() - 1].0);
    }
}

/// A string-keyed map of strings that keeps its keys in insertion order.
pub struct StrMap {
    entries: Vec<(String, String)>,
}

impl View for StrMap {
    type V = Map<Seq<char>, Seq<char>>;

    closed spec fn view(&self) -> Map<Seq<char>, Seq<char>> {
        map_of(pair_views(self.entries@))
    }
}

impl StrMap {
    #[verifier::type_invariant]
    closed spec fn keys_distinct(self) -> bool {
        distinct_keys(pair_views(self.entries@))
    }

    /// The entries, as views, in insertion order.
    pub closed spec fn entry_views(self) -> Seq<(Seq<char>, Seq<char>)> {
        pair_views(self.entries@)
    }

    /// An empty map.
    pub fn new() -> (m: StrMap)
        ensures
            m@ == Map::<Seq<char>, Seq<char>>::empty(),
            m.entry_views().len() == 0,
    {
        let m = StrMap { entries: Vec::new() };
        assert(pair_views(m.entries@) =~= Seq::<(Seq<char>, Seq<char>)>::empty());
        m
    }

    /// Position of `key` among the entries.
    fn position(&self, key: &String) -> (r: Option<usize>)
        ensures
            match r {
                Some(i) => i < self.entries@.len() && self.entries@[i as int].0@ == key@,
                None => forall|i: int|
                    0 <= i < self.entries@.len() ==> #[trigger] self.entries@[i].0@ != key@,
            },
    {
        let mut i: usize = 0;
        while i < self.entries.len()
            invariant
                0 <= i <= self.entries@.len(),
                forall|j: int| 0 <= j < i ==> #[trigger] self.entries@[j].0@ != key@,
            decreases self.entries@.len() - i,
        {
            if self.entries[i].0 == *key {
                return Some(i);
            }
            i = i + 1;
        }
        None
    }

    /// The value stored under `key`.
    pub fn get(&self, key: &str) -> (r: Option<String>)
        ensures
            r matches Some(v) ==> self@.dom().contains(key@) && v@ == self@[key@],
            r is None ==> !self@.dom().contains(key@),
    {
        proof {
            use_type_invariant(self);
        }
        let k = key.to_owned();
        match self.position(&k) {
            Some(i) => {
                proof {
                    let pv = pair_views(self.entries@);
                    assert(pv[i as int] == (self.entries@[i as int].0@, self.entries@[i as int].1@));
                    lemma_map_of_value(pv, i as int);
                }
                Some(self.entries[i].1.clone())
            },
            None => {
                proof {
                    let pv = pair_views(self.entries@);
                    lemma_map_of_dom(pv, key@);
                    assert forall|i: int| 0 <= i < pv.len() implies #[trigger] pv[i].0 != key@ by {
                        assert(pv[i].0 == self.entries@[i].0@);
                    }
                }
                None
            },
        }
    }

    /// Stores `value` under `key`, replacing any earlier value.  A new key
    /// goes after the existing ones; an existing key keeps its place.
    pub fn insert(&mut self, key: String, value: String)
        ensures
            final(self)@ == old(self)@.insert(key@, value@),
            final(self).entry_views() == match key_index(old(self).entry_views(), key@) {
                Some(i) => old(self).entry_views().update(i, (key@, value@)),
                None => old(self).entry_views().push((key@, value@)),
            },
    {
        proof {
            use_type_invariant(&*self);
        }
        let pos = self.position(&key);
        let mut entries: Vec<(String, String)> = Vec::new();
        std::mem::swap(&mut entries, &mut self.entries);
        let ghost old_pv = pair_views(entries@);
        let ghost k = key@;
        let ghost v = value@;
        match pos {
            Some(i) => {
                entries.set(i, (key, value));
                proof {
                    let j = choose|j: int| 0 <= j < old_pv.len() && #[trigger] old_pv[j].0 == k;
                    assert(old_pv[i as int].0 == k);
                    assert(j == i);
                    let new_pv = pair_views(entries@);
                    assert(new_pv =~= old_pv.update(i as int, (k, v)));
                    assert(old_pv[i as int].0 == k);
                    assert(distinct_keys(new_pv)) by {
                        assert forall|a: int, b: int|
                            0 <= a < new_pv.len() && 0 <= b < new_pv.len() && a != b implies
                            #[trigger] new_pv[a].0 != #[trigger] new_pv[b].0 by {
                            assert(new_pv[a].0 == old_pv[a].0);
                            assert(new_pv[b].0 == old_pv[b].0);
                        }
                    }
                    let m = map_of(old_pv).insert(k, v);
                    assert forall|x: Seq<char>| m.dom().contains(x) <==> exists|j: int|
                        0 <= j < new_pv.len() && #[trigger] new_pv[j].0 == x by {
                        lemma_map_of_dom(old_pv, x);
                        if exists|j: int| 0 <= j < old_pv.len() && #[trigger] old_pv[j].0 == x {
                            let j = choose|j: int| 0 <= j < old_pv.len() && #[trigger] old_pv[j].0 == x;
                            assert(new_pv[j].0 == x);
                        }
                        if exists|j: int| 0 <= j < new_pv.len() && #[trigger] new_pv[j].0 == x {
                            let j = choose|j: int| 0 <= j < new_pv.len() && #[trigger] new_pv[j].0 == x;
                            assert(old_pv[j].0 == x);
                        }
                    }
                    assert forall|j: int| 0 <= j < new_pv.len() implies #[trigger] m[new_pv[j].0]
                        == new_pv[j].1 by {
                        if j != i {
                            lemma_map_of_value(old_pv, j);
                            assert(old_pv[j] == new_pv[j]);
                        }
                    }
                    lemma_map_of_eq(new_pv, m);
                }
            },
            None => {
                entries.push((key, value));
                proof {
                    assert forall|j: int| 0 <= j < old_pv.len() implies #[trigger] old_pv[j].0 != k by {
                        assert(old_pv[j].0 == old(self).entries@[j].0@);
                    }
                    let new_pv = pair_views(entries@);
                    assert(new_pv.drop_last() =~= old_pv);
                    assert(distinct_keys(new_pv)) by {
                        assert forall|a: int, b: int|
                            0 <= a < new_pv.len() && 0 <= b < new_pv.len() && a != b implies
                            #[trigger] new_pv[a].0 != #[trigger] new_pv[b].0 by {
                            if a < old_pv.len() && b < old_pv.len() {
                                assert(new_pv[a] == old_pv[a] && new_pv[b] == old_pv[b]);
                            } else if a < old_pv.len() {
                                assert(new_pv[a].0 == entries@[a].0@);
                            } else {
                                assert(new_pv[b].0 == entries@[b].0@);
                            }
                        }
                    }
                }
            },
        }
        self.entries = entries;
    }

    /// The entries in insertion order.
    pub fn entries(&self) -> (r: &Vec<(String, String)>)
        ensures
            pair_views(r@) == self.entry_views(),
            self@ == map_of(self.entry_views()),
            distinct_keys(self.entry_views()),
    {
        proof {
            use_type_invariant(self);
        }
        &self.entries
    }

    /// Whether the map holds no key.
    pub fn is_empty(&self) -> (b: bool)
        ensures
            b == (self@ == Map::<Seq<char>, Seq<char>>::empty()),
    {
        proof {
            let pv = pair_views(self.entries@);
            if pv.len() > 0 {
                lemma_map_of_dom(pv, pv[0].0);
                assert(self@.dom().contains(pv[0].0));
            } else {
                assert(self@ =~= Map::<Seq<char>, Seq<char>>::empty());
            }
        }
        self.entries.len() == 0
    }

    /// The map that stores the pairs in order, later pairs overriding earlier ones.
    pub fn from_pairs(pairs: &Vec<(String, String)>) -> (m: StrMap)
        ensures
            m@ == map_of(pair_views(pairs@)),
    {
        let mut m = StrMap::new();
        let ghost pv = pair_views(pairs@);
        let mut i: usize = 0;
        assert(pv.take(0) =~= Seq::<(Seq<char>, Seq<char>)>::empty());
        while i < pairs.len()
            invariant
                0 <= i <= pairs@.len(),
                pv == pair_views(pairs@),
                m@ == map_of(pv.take(i as int)),
            decreases pairs@.len() - i,
        {
            let k = pairs[i].0.clone();
            let v = pairs[i].1.clone();
            m.insert(k, v);
            proof {
                assert(pv.take(i + 1).drop_last() =~= pv.take(i as int));
                assert(pv.take(i + 1).last() == pv[i as int]);
            }
            i = i + 1;
        }
        assert(pv.take(pairs@.len() as int) =~= pv);
        m
    }
}

/// A map equals `map_of` a distinct-key list when it has the same keys and values.
pub proof fn lemma_map_of_eq(e: Seq<(Seq<char>, Seq<char>)>, m: Map<Seq<char>, Seq<char>>)
    requires
        distinct_keys(e),
        forall|x: Seq<char>| m.dom().contains(x) <==> exists|j: int|
            0 <= j < e.len() && #[trigger] e[j].0 == x,
        forall|j: int| 0 <= j < e.len() ==> #[trigger] m[e[j].0] == e[j].1,
    ensures
        map_of(e) == m,
{
    assert forall|x: Seq<char>| map_of(e).dom().contains(x) == m.dom().contains(x) by {
        lemma_map_of_dom(e, x);
    }
    assert forall|x: Seq<char>| #[trigger] map_of(e).dom().contains(x) implies map_of(e)[x]
        == m[x] by {
        lemma_map_of_dom(e, x);
        let j = choose|j: int| 0 <= j < e.len() && #[trigger] e[j].0 == x;
        lemma_map_of_value(e, j);
    }
    assert(map_of(e) =~= m);
}

} // verus!
