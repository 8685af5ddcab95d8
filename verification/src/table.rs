//! A small association table with unique keys, the map each service owns:
//! connection id to slot, login to account, login to id. Backed by a vector
//! of pairs; viewed as a `Map` over the views of keys and values, together
//! with the key order, which fixes the order of broadcasts.
use vstd::prelude::*;

verus! {

/// A table key: equality on keys agrees with equality of their views,
/// and a key can be duplicated.
pub trait TableKey: View + Sized {
    fn key_eq(&self, other: &Self) -> (r: bool)
        ensures
            r == (self@ == other@),
    ;

    fn key_dup(&self) -> (r: Self)
        ensures
            r@ == self@,
    ;
}

impl TableKey for u64 {
    fn key_eq(&self, other: &Self) -> (r: bool)
        ensures
            r == (self@ == other@),
    {
        *self == *other
    }

    fn key_dup(&self) -> (r: Self)
        ensures
            r@ == self@,
    {
        *self
    }
}

impl TableKey for String {
    fn key_eq(&self, other: &Self) -> (r: bool)
        ensures
            r == (self@ == other@),
    {
        *self == *other
    }

    fn key_dup(&self) -> (r: Self)
        ensures
            r@ == self@,
    {
        self.clone()
    }
}

/// The map held by a sequence of pairs; a later pair with the same key
/// would win, though well-formed tables have no such pair.
pub open spec fn map_of<K: View, V: View>(s: Seq<(K, V)>) -> Map<K::V, V::V>
    decreases s.len(),
{
    if s.len() == 0 {
        Map::empty()
    } else {
        map_of(s.drop_last()).insert(s.last().0@, s.last().1@)
    }
}

/// The key views of a sequence of pairs, in table order.
pub open spec fn keys_of<K: View, V: View>(s: Seq<(K, V)>) -> Seq<K::V> {
    s.map_values(|p: (K, V)| p.0@)
}

/// The value views of a sequence of pairs, in table order.
pub open spec fn vals_of<K: View, V: View>(s: Seq<(K, V)>) -> Seq<V::V> {
    s.map_values(|p: (K, V)| p.1@)
}

proof fn lemma_map_of_dom<K: View, V: View>(s: Seq<(K, V)>)
    ensures
        map_of(s).dom() =~= keys_of(s).to_set(),
    decreases s.len(),
{
    if s.len() == 0 {
        assert(keys_of::<K, V>(s) =~= Seq::<K::V>::empty());
    } else {
        lemma_map_of_dom(s.drop_last());
        assert(keys_of(s.drop_last()) =~= keys_of(s).drop_last());
        assert forall|x: K::V| keys_of(s).to_set().contains(x) implies map_of(s).dom().contains(
            x,
        ) by {
            let j = choose|j: int| 0 <= j < keys_of(s).len() && keys_of(s)[j] == x;
            if j < s.len() - 1 {
                assert(keys_of(s).drop_last()[j] == x);
            }
        }
        assert forall|x: K::V| map_of(s).dom().contains(x) implies keys_of(s).to_set().contains(
            x,
        ) by {
            if x == s.last().0@ {
                assert(keys_of(s)[s.len() - 1] == x);
            } else {
                let j = choose|j: int|
                    0 <= j < keys_of(s.drop_last()).len() && keys_of(s.drop_last())[j] == x;
                assert(keys_of(s)[j] == x);
            }
        }
    }
}

proof fn lemma_map_of_at<K: View, V: View>(s: Seq<(K, V)>, k: int)
    requires
        keys_of(s).no_duplicates(),
        0 <= k < s.len(),
    ensures
        map_of(s).dom().contains(s[k].0@),
        map_of(s)[s[k].0@] == s[k].1@,
    decreases s.len(),
{
    if k == s.len() - 1 {
    } else {
        assert(keys_of(s)[k] == s[k].0@);
        assert(keys_of(s)[s.len() - 1] == s.last().0@);
        assert(s[k].0@ != s.last().0@);
        assert(keys_of(s.drop_last()) =~= keys_of(s).drop_last());
        lemma_map_of_at(s.drop_last(), k);
        assert(s.drop_last()[k] == s[k]);
    }
}

proof fn lemma_map_of_remove<K: View, V: View>(s: Seq<(K, V)>, i: int)
    requires
        keys_of(s).no_duplicates(),
        0 <= i < s.len(),
    ensures
        map_of(s.remove(i)) =~= map_of(s).remove(s[i].0@),
        keys_of(s.remove(i)) =~= keys_of(s).remove(i),
    decreases s.len(),
{
    assert(keys_of(s.remove(i)) =~= keys_of(s).remove(i));
    if i == s.len() - 1 {
        assert(s.remove(i) =~= s.drop_last());
        lemma_map_of_dom(s.drop_last());
        assert(keys_of(s.drop_last()) =~= keys_of(s).drop_last());
        assert(!keys_of(s).drop_last().contains(s.last().0@)) by {
            if keys_of(s).drop_last().contains(s.last().0@) {
                let j = choose|j: int|
                    0 <= j < s.len() - 1 && keys_of(s).drop_last()[j] == s.last().0@;
                assert(keys_of(s)[j] == keys_of(s)[s.len() - 1]);
            }
        }
        assert(map_of(s.drop_last()) =~= map_of(s).remove(s.last().0@));
    } else {
        let t = s.remove(i);
        assert(t.drop_last() =~= s.drop_last().remove(i));
        assert(t.last() == s.last());
        assert(keys_of(s.drop_last()) =~= keys_of(s).drop_last());
        lemma_map_of_remove(s.drop_last(), i);
        assert(s.drop_last()[i] == s[i]);
        assert(keys_of(s)[i] == s[i].0@);
        assert(keys_of(s)[s.len() - 1] == s.last().0@);
        assert(s[i].0@ != s.last().0@);
        assert(map_of(t) =~= map_of(s).remove(s[i].0@));
    }
}

proof fn lemma_map_of_update<K: View, V: View>(s: Seq<(K, V)>, i: int, p: (K, V))
    requires
        keys_of(s).no_duplicates(),
        0 <= i < s.len(),
        p.0@ == s[i].0@,
    ensures
        map_of(s.update(i, p)) =~= map_of(s).insert(p.0@, p.1@),
        keys_of(s.update(i, p)) =~= keys_of(s),
    decreases s.len(),
{
    assert(keys_of(s.update(i, p)) =~= keys_of(s));
    if i == s.len() - 1 {
        assert(s.update(i, p).drop_last() =~= s.drop_last());
        assert(s.update(i, p).last() == p);
        assert(map_of(s.update(i, p)) =~= map_of(s).insert(p.0@, p.1@));
    } else {
        let t = s.update(i, p);
        assert(t.drop_last() =~= s.drop_last().update(i, p));
        assert(t.last() == s.last());
        assert(keys_of(s.drop_last()) =~= keys_of(s).drop_last());
        lemma_map_of_update(s.drop_last(), i, p);
        assert(s.drop_last()[i] == s[i]);
        assert(keys_of(s)[i] == s[i].0@);
        assert(keys_of(s)[s.len() - 1] == s.last().0@);
        assert(s[i].0@ != s.last().0@);
        assert(map_of(t) =~= map_of(s).insert(p.0@, p.1@));
    }
}

/// An association table with unique keys.
pub struct Table<K, V> {
    items: Vec<(K, V)>,
}

impl<K: TableKey, V: View> Table<K, V> {
    /// Each key appears at most once.
    pub closed spec fn wf(&self) -> bool {
        keys_of(self.items@).no_duplicates()
    }

    /// The table as a map over views.
    pub closed spec fn map(&self) -> Map<K::V, V::V> {
        map_of(self.items@)
    }

    /// The key views in table order.
    pub closed spec fn keys(&self) -> Seq<K::V> {
        keys_of(self.items@)
    }

    /// The value views in table order.
    pub closed spec fn vals(&self) -> Seq<V::V> {
        vals_of(self.items@)
    }

    /// How the three views fit together.
    pub proof fn lemma_views(&self)
        requires
            self.wf(),
        ensures
            self.keys().no_duplicates(),
            self.keys().len() == self.vals().len(),
            self.map().dom() =~= self.keys().to_set(),
            forall|k: int|
                0 <= k < self.keys().len() ==> self.map().contains_key(#[trigger] self.keys()[k])
                    && self.map()[self.keys()[k]] == self.vals()[k],
    {
        lemma_map_of_dom(self.items@);
        assert forall|k: int| 0 <= k < self.keys().len() implies self.map().contains_key(
            #[trigger] self.keys()[k],
        ) && self.map()[self.keys()[k]] == self.vals()[k] by {
            lemma_map_of_at(self.items@, k);
        }
    }

    pub fn new() -> (t: Table<K, V>)
        ensures
            t.wf(),
            t.map() == Map::<K::V, V::V>::empty(),
            t.keys() == Seq::<K::V>::empty(),
            t.vals() == Seq::<V::V>::empty(),
    {
        let t = Table { items: Vec::new() };
        proof {
            assert(keys_of(t.items@) =~= Seq::<K::V>::empty());
            assert(vals_of(t.items@) =~= Seq::<V::V>::empty());
        }
        t
    }

    pub fn len(&self) -> (n: usize)
        ensures
            n == self.keys().len(),
    {
        self.items.len()
    }

    /// The pair at a table position.
    pub fn pair_at(&self, i: usize) -> (p: &(K, V))
        requires
            self.wf(),
            i < self.keys().len(),
        ensures
            p.0@ == self.keys()[i as int],
            p.1@ == self.vals()[i as int],
            self.map().contains_key(p.0@),
            self.map()[p.0@] == p.1@,
    {
        proof {
            lemma_map_of_at(self.items@, i as int);
        }
        &self.items[i]
    }

    fn index_of(&self, key: &K) -> (r: Option<usize>)
        requires
            self.wf(),
        ensures
            match r {
                Some(i) => i < self.keys().len() && self.keys()[i as int] == key@,
                None => !self.map().contains_key(key@),
            },
    {
        let mut i: usize = 0;
        while i < self.items.len()
            invariant
                0 <= i <= self.items@.len(),
                forall|k: int| 0 <= k < i ==> keys_of(self.items@)[k] != key@,
            decreases self.items@.len() - i,
        {
            if self.items[i].0.key_eq(key) {
                return Some(i);
            }
            i = i + 1;
        }
        proof {
            lemma_map_of_dom(self.items@);
            if keys_of(self.items@).to_set().contains(key@) {
                let j = choose|j: int|
                    0 <= j < keys_of(self.items@).len() && keys_of(self.items@)[j] == key@;
            }
        }
        None
    }

    /// Whether the table holds the key.
    pub fn contains(&self, key: &K) -> (r: bool)
        requires
            self.wf(),
        ensures
            r == self.map().contains_key(key@),
    {
        proof {
            self.lemma_views();
        }
        self.index_of(key).is_some()
    }

    /// The value stored under the key.
    pub fn get(&self, key: &K) -> (r: Option<&V>)
        requires
            self.wf(),
        ensures
            match r {
                Some(v) => self.map().contains_key(key@) && v@ == self.map()[key@],
                None => !self.map().contains_key(key@),
            },
    {
        match self.index_of(key) {
            Some(i) => {
                proof {
                    lemma_map_of_at(self.items@, i as int);
                }
                Some(&self.items[i].1)
            },
            None => None,
        }
    }

    /// Store a value under the key, replacing any previous value. A new
    /// key takes the last table position; a present key keeps its place.
    pub fn insert(&mut self, key: K, value: V)
        requires
            old(self).wf(),
        ensures
            final(self).wf(),
            final(self).map() == old(self).map().insert(key@, value@),
            final(self).keys() == if old(self).map().contains_key(key@) {
                old(self).keys()
            } else {
                old(self).keys().push(key@)
            },
            old(self).map().contains_key(key@) ==> exists|i: int|
                {
                    &&& 0 <= i < old(self).keys().len()
                    &&& old(self).keys()[i] == key@
                    &&& final(self).vals() =~= old(self).vals().update(i, value@)
                },
            !old(self).map().contains_key(key@) ==> final(self).vals() == old(self).vals().push(
                value@,
            ),
    {
        proof {
            self.lemma_views();
        }
        match self.index_of(&key) {
            Some(i) => {
                proof {
                    assert(keys_of(self.items@)[i as int] == self.items@[i as int].0@);
                    lemma_map_of_at(self.items@, i as int);
                    lemma_map_of_update(self.items@, i as int, (key, value));
                }
                let slot = vstd::std_specs::vec::vec_index_mut(&mut self.items, i);
                *slot = (key, value);
                proof {
                    assert(vals_of(self.items@) =~= vals_of(old(self).items@).update(
                        i as int,
                        value@,
                    ));
                    assert(keys_of(self.items@) =~= keys_of(old(self).items@));
                }
            },
            None => {
                proof {
                    lemma_map_of_dom(self.items@);
                }
                self.items.push((key, value));
                proof {
                    assert(self.items@.drop_last() =~= old(self).items@);
                    assert(keys_of(self.items@) =~= keys_of(old(self).items@).push(key@));
                    assert(vals_of(self.items@) =~= vals_of(old(self).items@).push(value@));
                    assert(keys_of(self.items@).drop_last() =~= keys_of(old(self).items@));
                }
            },
        }
    }

    /// Take the value stored under the key out of the table.
    pub fn remove(&mut self, key: &K) -> (r: Option<V>)
        requires
            old(self).wf(),
        ensures
            final(self).wf(),
            match r {
                Some(v) => {
                    &&& old(self).map().contains_key(key@)
                    &&& v@ == old(self).map()[key@]
                    &&& final(self).map() == old(self).map().remove(key@)
                    &&& exists|i: int|
                        {
                            &&& 0 <= i < old(self).keys().len()
                            &&& old(self).keys()[i] == key@
                            &&& final(self).keys() =~= old(self).keys().remove(i)
                            &&& final(self).vals() =~= old(self).vals().remove(i)
                        }
                },
                None => !old(self).map().contains_key(key@) && *final(self) == *old(self),
            },
    {
        proof {
            self.lemma_views();
        }
        match self.index_of(key) {
            Some(i) => {
                proof {
                    lemma_map_of_at(self.items@, i as int);
                    lemma_map_of_remove(self.items@, i as int);
                }
                let (_, v) = self.items.remove(i);
                proof {
                    assert(keys_of(self.items@) =~= keys_of(old(self).items@).remove(i as int));
                    assert(vals_of(self.items@) =~= vals_of(old(self).items@).remove(i as int));
                    assert(keys_of(old(self).items@).remove(i as int).no_duplicates());
                }
                Some(v)
            },
            None => None,
        }
    }
}

} // verus!
