//! A map keyed by strings, kept as a list of entries with distinct keys in insertion order.
use vstd::prelude::*;

verus! {

/// The views of a list of entries.
pub open spec fn entries_view<V: View>(e: Seq<(String, V)>) -> Seq<(Seq<char>, V::V)> {
    e.map_values(|p: (String, V)| (p.0@, p.1@))
}

/// The map that inserting `ps` in order into an empty map gives.
pub open spec fn map_of<A>(ps: Seq<(Seq<char>, A)>) -> Map<Seq<char>, A>
    decreases ps.len(),
{
    if ps.len() == 0 {
        Map::empty()
    } else {
        map_of(ps.drop_last()).insert(ps.last().0, ps.last().1)
    }
}

/// The keys of `ps` are pairwise distinct.
pub open spec fn distinct_keys<A>(ps: Seq<(Seq<char>, A)>) -> bool {
    forall|i: int, j: int| 0 <= i < j < ps.len() ==> #[trigger] ps[i].0 != #[trigger] ps[j].0
}

pub proof fn lemma_map_of_push<A>(ps: Seq<(Seq<char>, A)>, k: Seq<char>, v: A)
    ensures
        map_of(ps.push((k, v))) == map_of(ps).insert(k, v),
{
    assert(ps.push((k, v)).drop_last() =~= ps);
}

pub proof fn lemma_map_of_dom<A>(ps: Seq<(Seq<char>, A)>)
    ensures
        map_of(ps).dom() == ps.map_values(|p: (Seq<char>, A)| p.0).to_set(),
    decreases ps.len(),
{
    if ps.len() > 0 {
        lemma_map_of_dom(ps.drop_last());
        assert(ps.map_values(|p: (Seq<char>, A)| p.0).to_set() =~= ps.drop_last().map_values(
            |p: (Seq<char>, A)| p.0,
        ).to_set().insert(ps.last().0)) by {
            let ks = ps.map_values(|p: (Seq<char>, A)| p.0);
            let kd = ps.drop_last().map_values(|p: (Seq<char>, A)| p.0);
            assert forall|x: Seq<char>| ks.to_set().contains(x) implies kd.to_set().insert(
                ps.last().0,
            ).contains(x) by {
                let i = choose|i: int| 0 <= i < ks.len() && ks[i] == x;
                if i < ps.len() - 1 {
                    assert(kd[i] == x);
                }
            }
            assert forall|x: Seq<char>| kd.to_set().insert(ps.last().0).contains(x) implies ks.to_set().contains(
                x,
            ) by {
                if x == ps.last().0 {
                    assert(ks[ps.len() - 1] == x);
                } else {
                    let i = choose|i: int| 0 <= i < kd.len() && kd[i] == x;
                    assert(ks[i] == x);
                }
            }
        }
    }
}

pub proof fn lemma_map_of_lookup<A>(ps: Seq<(Seq<char>, A)>, j: int)
    requires
        distinct_keys(ps),
        0 <= j < ps.len(),
    ensures
        map_of(ps).contains_key(ps[j].0),
        map_of(ps)[ps[j].0] == ps[j].1,
    decreases ps.len(),
{
    if j < ps.len() - 1 {
        lemma_map_of_lookup(ps.drop_last(), j);
        assert(ps.drop_last()[j] == ps[j]);
    }
}

pub proof fn lemma_map_of_absent<A>(ps: Seq<(Seq<char>, A)>, k: Seq<char>)
    requires
        forall|i: int| 0 <= i < ps.len() ==> #[trigger] ps[i].0 != k,
    ensures
        !map_of(ps).contains_key(k),
    decreases ps.len(),
{
    if ps.len() > 0 {
        assert forall|i: int| 0 <= i < ps.drop_last().len() implies #[trigger] ps.drop_last()[i].0 != k by {
            assert(ps.drop_last()[i] == ps[i]);
        }
        lemma_map_of_absent(ps.drop_last(), k);
    }
}

pub proof fn lemma_map_of_update<A>(ps: Seq<(Seq<char>, A)>, j: int, v: A)
    requires
        distinct_keys(ps),
        0 <= j < ps.len(),
    ensures
        map_of(ps.update(j, (ps[j].0, v))) == map_of(ps).insert(ps[j].0, v),
    decreases ps.len(),
{
    let k = ps[j].0;
    let qs = ps.update(j, (k, v));
    if j == ps.len() - 1 {
        assert(qs.drop_last() =~= ps.drop_last());
        assert(map_of(ps).insert(k, v) =~= map_of(ps.drop_last()).insert(k, v));
    } else {
        assert(qs.drop_last() =~= ps.drop_last().update(j, (k, v)));
        assert(ps.drop_last()[j] == ps[j]);
        lemma_map_of_update(ps.drop_last(), j, v);
        assert(ps.last().0 != k);
        assert(map_of(qs) =~= map_of(ps).insert(k, v));
    }
}

/// A map from strings to values, holding its entries in the order their keys were first inserted.
#[derive(Debug)]
pub struct StrMap<V: View> {
    entries: Vec<(String, V)>,
}

impl<V: View> View for StrMap<V> {
    type V = Map<Seq<char>, V::V>;

    closed spec fn view(&self) -> Map<Seq<char>, V::V> {
        map_of(entries_view(self.entries@))
    }
}

impl<V: View> StrMap<V> {
    /// The entries in order, as views.
    pub closed spec fn ordered(&self) -> Seq<(Seq<char>, V::V)> {
        entries_view(self.entries@)
    }

    /// Keys are distinct and the map is the entries inserted in order.
    #[verifier::type_invariant]
    pub closed spec fn wf(&self) -> bool {
        distinct_keys(entries_view(self.entries@))
    }

    /// The map is the entries inserted in order.
    pub proof fn lemma_view(&self)
        ensures
            self@ == map_of(self.ordered()),
    {
    }

    /// An empty map.
    pub fn new() -> (m: StrMap<V>)
        ensures
            m.wf(),
            m@ == Map::<Seq<char>, V::V>::empty(),
            m.ordered() == Seq::<(Seq<char>, V::V)>::empty(),
    {
        let m = StrMap { entries: Vec::new() };
        assert(entries_view(m.entries@) =~= Seq::<(Seq<char>, V::V)>::empty());
        m
    }

    /// Number of entries.
    pub fn len(&self) -> (n: usize)
        ensures
            n == self@.dom().len(),
            n == self.ordered().len(),
    {
        proof {
            use_type_invariant(self);
        }
        let ghost ps = entries_view(self.entries@);
        proof {
            lemma_map_of_dom(ps);
            let ks = ps.map_values(|p: (Seq<char>, V::V)| p.0);
            assert(ks.no_duplicates()) by {
                assert forall|i: int, j: int| 0 <= i < ks.len() && 0 <= j < ks.len() && i != j implies ks[i] != ks[j] by {
                    if i < j {
                        assert(ps[i].0 != ps[j].0);
                    } else {
                        assert(ps[j].0 != ps[i].0);
                    }
                }
            }
            ks.unique_seq_to_set();
        }
        self.entries.len()
    }

    /// Whether the map has no entries.
    pub fn is_empty(&self) -> (b: bool)
        ensures
            b == (self@.dom().len() == 0),
    {
        self.len() == 0
    }

    fn position(&self, key: &str) -> (r: Option<usize>)
        ensures
            r matches Some(j) ==> j < self.entries@.len() && self.entries@[j as int].0@ == key@,
            r is None ==> forall|i: int| 0 <= i < self.entries@.len() ==> #[trigger] entries_view(self.entries@)[i].0 != key@,
    {
        let k = String::from_str(key);
        let mut i: usize = 0;
        while i < self.entries.len()
            invariant
                i <= self.entries@.len(),
                k@ == key@,
                forall|m: int| 0 <= m < i ==> #[trigger] entries_view(self.entries@)[m].0 != key@,
            decreases self.entries.len() - i,
        {
            let same = self.entries[i].0 == k;
            assert(same == (self.entries@[i as int].0@ == key@));
            assert(entries_view(self.entries@)[i as int].0 == self.entries@[i as int].0@);
            if same {
                return Some(i);
            }
            i = i + 1;
        }
        None
    }

    /// The value stored under `key`.
    pub fn get(&self, key: &str) -> (r: Option<&V>)
        ensures
            r matches Some(v) ==> self@.contains_key(key@) && v@ == self@[key@],
            r is None ==> !self@.contains_key(key@),
    {
        proof {
            use_type_invariant(self);
        }
        match self.position(key) {
            Some(j) => {
                proof {
                    lemma_map_of_lookup(entries_view(self.entries@), j as int);
                }
                Some(&self.entries[j].1)
            },
            None => {
                proof {
                    lemma_map_of_absent(entries_view(self.entries@), key@);
                }
                None
            },
        }
    }

    /// Whether `key` has a value.
    pub fn contains_key(&self, key: &str) -> (b: bool)
        ensures
            b == self@.contains_key(key@),
    {
        self.get(key).is_some()
    }

    /// Stores `value` under `key`, replacing any earlier value.
    pub fn insert(&mut self, key: String, value: V)
        ensures
            final(self)@ == old(self)@.insert(key@, value@),
    {
        proof {
            use_type_invariant(&*self);
        }
        let ghost ps = entries_view(self.entries@);
        let pos = self.position(key.as_str());
        let mut es: Vec<(String, V)> = Vec::new();
        std::mem::swap(&mut es, &mut self.entries);
        match pos {
            Some(j) => {
                let k2 = es[j].0.clone();
                es.set(j, (k2, value));
                proof {
                    lemma_map_of_update(ps, j as int, value@);
                    assert(entries_view(es@) =~= ps.update(j as int, (ps[j as int].0, value@)));
                    assert forall|a: int, b: int| 0 <= a < b < entries_view(es@).len() implies #[trigger] entries_view(es@)[a].0 != #[trigger] entries_view(es@)[b].0 by {
                        assert(entries_view(es@)[a].0 == ps[a].0);
                        assert(entries_view(es@)[b].0 == ps[b].0);
                    }
                }
            },
            None => {
                es.push((key, value));
                proof {
                    assert(entries_view(es@) =~= ps.push((key@, value@)));
                    lemma_map_of_push(ps, key@, value@);
                }
            },
        }
        self.entries = es;
    }

    /// The key and value of the `i`-th entry.
    pub fn entry(&self, i: usize) -> (r: (&String, &V))
        requires
            i < self.ordered().len(),
        ensures
            r.0@ == self.ordered()[i as int].0,
            r.1@ == self.ordered()[i as int].1,
    {
        (&self.entries[i].0, &self.entries[i].1)
    }

    /// Number of entries, for walking them in order.
    pub fn count(&self) -> (n: usize)
        ensures
            n == self.ordered().len(),
    {
        self.entries.len()
    }
}

impl StrMap<String> {
    /// A copy with the same entries in the same order.
    pub fn duplicate(&self) -> (r: StrMap<String>)
        ensures
            r@ == self@,
            r.ordered() == self.ordered(),
    {
        proof {
            use_type_invariant(self);
        }
        let mut es: Vec<(String, String)> = Vec::new();
        let mut i: usize = 0;
        while i < self.entries.len()
            invariant
                i <= self.entries@.len(),
                distinct_keys(entries_view(self.entries@)),
                entries_view(es@) == entries_view(self.entries@).take(i as int),
            decreases self.entries.len() - i,
        {
            let k = self.entries[i].0.clone();
            let v = self.entries[i].1.clone();
            let ghost prev = es@;
            es.push((k, v));
            assert(es@ == prev.push((k, v)));
            assert(entries_view(es@) =~= entries_view(prev).push((k@, v@)));
            assert(entries_view(self.entries@)[i as int] == (self.entries@[i as int].0@, self.entries@[i as int].1@));
            assert(entries_view(es@) =~= entries_view(self.entries@).take(i + 1));
            i = i + 1;
        }
        assert(entries_view(es@) =~= entries_view(self.entries@));
        StrMap { entries: es }
    }
}

} // verus!
