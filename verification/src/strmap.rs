//! A small verified map from string names to values, backed by an
//! association list where the first entry for a name wins. Form state is
//! built on it: field values, checkbox states and radio selections are maps
//! from names.

use vstd::prelude::*;

use crate::strutil::{str_chars, str_eq, string_from_chars};

verus! {

/// A map from names to values. Its view is a `Map<Seq<char>, V::V>`; the
/// entry sequence `kvs` is also exposed, so callers can state what an
/// iteration over the map computes.
#[derive(Debug)]
pub struct StrMap<V> {
    entries: Vec<(String, V)>,
}

/// The map an entry sequence denotes, earlier entries winning.
pub open spec fn map_of<T>(s: Seq<(Seq<char>, T)>) -> Map<Seq<char>, T>
    decreases s.len(),
{
    if s.len() == 0 {
        Map::empty()
    } else {
        map_of(s.drop_first()).insert(s[0].0, s[0].1)
    }
}

pub proof fn lemma_map_of_contains<T>(s: Seq<(Seq<char>, T)>, k: Seq<char>)
    ensures
        map_of(s).contains_key(k) <==> exists|i: int| 0 <= i < s.len() && (#[trigger] s[i]).0 == k,
    decreases s.len(),
{
    if s.len() > 0 {
        lemma_map_of_contains(s.drop_first(), k);
        if map_of(s).contains_key(k) {
            if s[0].0 == k {
            } else {
                let i = choose|i: int|
                    0 <= i < s.drop_first().len() && (#[trigger] s.drop_first()[i]).0 == k;
                assert(s[i + 1].0 == k);
            }
        } else {
            assert(forall|i: int|
                1 <= i < s.len() ==> (#[trigger] s[i]) == s.drop_first()[i - 1]);
        }
    }
}

/// The first entry for a name gives its value.
pub proof fn lemma_map_of_get<T>(s: Seq<(Seq<char>, T)>, i: int)
    requires
        0 <= i < s.len(),
        forall|j: int| 0 <= j < i ==> (#[trigger] s[j]).0 != s[i].0,
    ensures
        map_of(s).contains_key(s[i].0),
        map_of(s)[s[i].0] == s[i].1,
    decreases s.len(),
{
    if i > 0 {
        assert(s.drop_first()[i - 1] == s[i]);
        assert(forall|j: int| 0 <= j < i - 1 ==> (#[trigger] s.drop_first()[j]) == s[j + 1]);
        lemma_map_of_get(s.drop_first(), i - 1);
        assert(s[0].0 != s[i].0);
    }
}

/// Updating the first entry of a name in place is inserting that name.
proof fn lemma_map_of_update<T>(s: Seq<(Seq<char>, T)>, i: int, k: Seq<char>, v: T)
    requires
        0 <= i < s.len(),
        s[i].0 == k,
        forall|j: int| 0 <= j < i ==> (#[trigger] s[j]).0 != k,
    ensures
        map_of(s.update(i, (k, v))) == map_of(s).insert(k, v),
    decreases s.len(),
{
    let su = s.update(i, (k, v));
    if i == 0 {
        assert(su.drop_first() =~= s.drop_first());
        assert(su[0] == (k, v));
        assert(map_of(s.drop_first()).insert(k, s[0].1).insert(k, v) =~= map_of(
            s.drop_first(),
        ).insert(k, v));
    } else {
        assert(su.drop_first() =~= s.drop_first().update(i - 1, (k, v)));
        assert(s.drop_first()[i - 1] == s[i]);
        assert(forall|j: int| 0 <= j < i - 1 ==> (#[trigger] s.drop_first()[j]) == s[j + 1]);
        lemma_map_of_update(s.drop_first(), i - 1, k, v);
        assert(s[0].0 != k);
        assert(su[0] == s[0]);
        assert(map_of(s.drop_first()).insert(k, v).insert(s[0].0, s[0].1) =~= map_of(
            s.drop_first(),
        ).insert(s[0].0, s[0].1).insert(k, v));
    }
}

/// Appending an entry for an absent name is inserting that name.
proof fn lemma_map_of_push_absent<T>(s: Seq<(Seq<char>, T)>, k: Seq<char>, v: T)
    requires
        forall|j: int| 0 <= j < s.len() ==> (#[trigger] s[j]).0 != k,
    ensures
        map_of(s.push((k, v))) == map_of(s).insert(k, v),
    decreases s.len(),
{
    let sp = s.push((k, v));
    if s.len() == 0 {
        assert(sp.drop_first() =~= Seq::<(Seq<char>, T)>::empty());
        assert(sp[0] == (k, v));
        assert(map_of(sp) == map_of(sp.drop_first()).insert(k, v));
        assert(s =~= Seq::<(Seq<char>, T)>::empty());
        assert(map_of(sp) =~= map_of(s).insert(k, v));
    } else {
        assert(sp.drop_first() =~= s.drop_first().push((k, v)));
        assert(forall|j: int|
            0 <= j < s.len() - 1 ==> (#[trigger] s.drop_first()[j]) == s[j + 1]);
        lemma_map_of_push_absent(s.drop_first(), k, v);
        assert(sp[0] == s[0]);
        assert(s[0].0 != k);
        assert(map_of(s.drop_first()).insert(k, v).insert(s[0].0, s[0].1) =~= map_of(
            s.drop_first(),
        ).insert(s[0].0, s[0].1).insert(k, v));
    }
}

impl<V: View> StrMap<V> {
    /// The entries, in insertion order, as views.
    pub closed spec fn kvs(&self) -> Seq<(Seq<char>, V::V)> {
        Seq::new(self.entries@.len(), |i: int| (self.entries@[i].0@, self.entries@[i].1@))
    }

    /// An empty map.
    pub fn new() -> (r: StrMap<V>)
        ensures
            r@ == Map::<Seq<char>, V::V>::empty(),
            r.kvs() == Seq::<(Seq<char>, V::V)>::empty(),
    {
        let r = StrMap::<V> { entries: Vec::new() };
        proof {
            assert(r.kvs() =~= Seq::<(Seq<char>, V::V)>::empty());
            assert(r@ =~= Map::<Seq<char>, V::V>::empty());
        }
        r
    }

    /// How many entries the map holds.
    pub fn len(&self) -> (n: usize)
        ensures
            n == self.kvs().len(),
    {
        self.entries.len()
    }

    /// The entry at one position of the insertion order.
    pub fn entry_at(&self, i: usize) -> (r: (&String, &V))
        requires
            i < self.kvs().len(),
        ensures
            r.0@ == self.kvs()[i as int].0,
            r.1@ == self.kvs()[i as int].1,
    {
        (&self.entries[i].0, &self.entries[i].1)
    }

    /// The position of the first entry for a name, if any.
    fn find(&self, k: &str) -> (r: Option<usize>)
        ensures
            match r {
                Some(i) => i < self.kvs().len() && self.kvs()[i as int].0 == k@ && (forall|j: int|
                    0 <= j < i ==> (#[trigger] self.kvs()[j]).0 != k@),
                None => forall|i: int|
                    0 <= i < self.kvs().len() ==> (#[trigger] self.kvs()[i]).0 != k@,
            },
    {
        let mut i: usize = 0;
        while i < self.entries.len()
            invariant
                i <= self.entries@.len(),
                forall|j: int| 0 <= j < i ==> (#[trigger] self.entries@[j]).0@ != k@,
            decreases self.entries@.len() - i,
        {
            if str_eq(self.entries[i].0.as_str(), k) {
                return Some(i);
            }
            i = i + 1;
        }
        None
    }

    /// Whether a name has a value.
    pub fn contains_key(&self, k: &str) -> (r: bool)
        ensures
            r == self@.contains_key(k@),
    {
        proof {
            lemma_map_of_contains(self.kvs(), k@);
        }
        self.find(k).is_some()
    }

    /// The value of a name, if any.
    pub fn get(&self, k: &str) -> (r: Option<&V>)
        ensures
            match r {
                Some(v) => self@.contains_key(k@) && v@ == self@[k@],
                None => !self@.contains_key(k@),
            },
    {
        proof {
            lemma_map_of_contains(self.kvs(), k@);
        }
        match self.find(k) {
            Some(i) => {
                proof {
                    lemma_map_of_get(self.kvs(), i as int);
                }
                Some(&self.entries[i].1)
            },
            None => None,
        }
    }

    /// Gives a name a value, replacing any old one.
    pub fn insert(&mut self, k: &str, v: V)
        ensures
            final(self)@ == old(self)@.insert(k@, v@),
    {
        let ghost oldkvs = self.kvs();
        let key = string_from_chars(&str_chars(k));
        match self.find(k) {
            Some(i) => {
                self.entries[i] = (key, v);
                proof {
                    assert(self.kvs() =~= oldkvs.update(i as int, (k@, v@)));
                    lemma_map_of_update(oldkvs, i as int, k@, v@);
                }
            },
            None => {
                self.entries.push((key, v));
                proof {
                    assert(self.kvs() =~= oldkvs.push((k@, v@)));
                    lemma_map_of_push_absent(oldkvs, k@, v@);
                }
            },
        }
    }

    /// Gives a name a value only if it has none; the seeding step.
    pub fn seed(&mut self, k: &str, v: V)
        ensures
            final(self)@ == (if old(self)@.contains_key(k@) {
                old(self)@
            } else {
                old(self)@.insert(k@, v@)
            }),
            final(self).kvs() == (if old(self)@.contains_key(k@) {
                old(self).kvs()
            } else {
                old(self).kvs().push((k@, v@))
            }),
    {
        proof {
            lemma_map_of_contains(self.kvs(), k@);
        }
        let ghost oldkvs = self.kvs();
        match self.find(k) {
            Some(_) => {},
            None => {
                let key = string_from_chars(&str_chars(k));
                self.entries.push((key, v));
                proof {
                    assert(self.kvs() =~= oldkvs.push((k@, v@)));
                    lemma_map_of_push_absent(oldkvs, k@, v@);
                }
            },
        }
    }

    /// Removes every entry.
    pub fn clear(&mut self)
        ensures
            final(self)@ == Map::<Seq<char>, V::V>::empty(),
            final(self).kvs() == Seq::<(Seq<char>, V::V)>::empty(),
    {
        self.entries.clear();
        proof {
            assert(self.kvs() =~= Seq::<(Seq<char>, V::V)>::empty());
            assert(self@ =~= Map::<Seq<char>, V::V>::empty());
        }
    }
}

impl<V: View> View for StrMap<V> {
    type V = Map<Seq<char>, V::V>;

    open spec fn view(&self) -> Map<Seq<char>, V::V> {
        map_of(self.kvs())
    }
}

impl StrMap<String> {
    /// An identical copy.
    pub fn clone_map(&self) -> (r: Self)
        ensures
            r@ == self@,
            r.kvs() == self.kvs(),
    {
        let mut entries: Vec<(String, String)> = Vec::new();
        let mut i: usize = 0;
        while i < self.entries.len()
            invariant
                i <= self.entries@.len(),
                entries@.len() == i,
                forall|j: int|
                    0 <= j < i ==> (#[trigger] entries@[j]).0@ == self.entries@[j].0@
                        && entries@[j].1@ == self.entries@[j].1@,
            decreases self.entries@.len() - i,
        {
            let k = self.entries[i].0.clone();
            let v = self.entries[i].1.clone();
            entries.push((k, v));
            i = i + 1;
        }
        let r = StrMap { entries };
        proof {
            assert(r.kvs() =~= self.kvs());
        }
        r
    }
}

impl StrMap<bool> {
    /// An identical copy.
    pub fn clone_map(&self) -> (r: Self)
        ensures
            r@ == self@,
            r.kvs() == self.kvs(),
    {
        let mut entries: Vec<(String, bool)> = Vec::new();
        let mut i: usize = 0;
        while i < self.entries.len()
            invariant
                i <= self.entries@.len(),
                entries@.len() == i,
                forall|j: int|
                    0 <= j < i ==> (#[trigger] entries@[j]).0@ == self.entries@[j].0@
                        && entries@[j].1 == self.entries@[j].1,
            decreases self.entries@.len() - i,
        {
            let k = self.entries[i].0.clone();
            let v = self.entries[i].1;
            entries.push((k, v));
            i = i + 1;
        }
        let r = StrMap { entries };
        proof {
            assert(r.kvs() =~= self.kvs());
        }
        r
    }
}

} // verus!
