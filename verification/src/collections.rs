//! Small maps kept as vectors of entries, with distinct keys.
//!
//! `KeyMap` is keyed by a plain value (a mapping, a binding, an owner id);
//! `ProfileMap` is keyed by a profile, compared by its names. A set is a map
//! to `()`. The entries keep the order in which their keys first came in.
use vstd::prelude::*;
use crate::entries::{
    distinct_by, keys_by, map_by, lemma_entry_by, lemma_keys_by, lemma_empty_by, lemma_update_by,
    lemma_push_by, lemma_remove_by, lemma_same_by,
};
use crate::keys::{is_plain, same, dup, same_profile, dup_profile, lemma_take_one_more, ProfileView};

verus! {

/// A plain key is its own view.
pub open spec fn plain_key<K>() -> spec_fn(K) -> K {
    |k: K| k
}

/// A profile is seen as its names.
pub open spec fn profile_key() -> spec_fn(Vec<String>) -> ProfileView {
    |k: Vec<String>| k.deep_view()
}

/// A map from plain keys to values.
pub struct KeyMap<K: PartialEq + Clone, V> {
    entries: Vec<(K, V)>,
}

impl<K: PartialEq + Clone, V> KeyMap<K, V> {
    /// The keys are plain values, and no key occurs twice.
    #[verifier::type_invariant]
    pub open spec fn inv(&self) -> bool {
        &&& is_plain::<K>()
        &&& self.distinct()
    }

    /// No key occurs twice.
    pub closed spec fn distinct(&self) -> bool {
        distinct_by(self.entries@, plain_key())
    }

    /// The keys, in the order of the entries.
    pub closed spec fn keys(&self) -> Seq<K> {
        keys_by(self.entries@, plain_key())
    }

    /// The map that the entries make.
    pub closed spec fn as_map(&self) -> Map<K, V> {
        map_by(self.entries@, plain_key())
    }

    /// An empty map.
    pub fn new() -> (m: Self)
        requires
            is_plain::<K>(),
        ensures
            m@ == Map::<K, V>::empty(),
            m.keys() == Seq::<K>::empty(),
    {
        proof {
            lemma_empty_by::<K, K, V>(plain_key());
        }
        KeyMap { entries: Vec::new() }
    }

    /// The number of entries; the keys are distinct and are those of the map.
    pub fn len(&self) -> (n: usize)
        ensures
            n == self.keys().len(),
            n == self@.len(),
            is_plain::<K>(),
            self.keys().no_duplicates(),
            forall|k: K| self@.contains_key(k) <==> self.keys().contains(k),
    {
        proof {
            use_type_invariant(self);
            lemma_keys_by(self.entries@, plain_key());
            self.keys().unique_seq_to_set();
            assert(self@.dom() =~= self.keys().to_set());
        }
        self.entries.len()
    }

    /// The position of a key among the entries, if it is there.
    pub fn find(&self, k: &K) -> (r: Option<usize>)
        ensures
            match r {
                Some(i) => i < self.keys().len() && self.keys()[i as int] == *k
                    && self@.contains_key(*k),
                None => !self@.contains_key(*k),
            },
    {
        proof {
            use_type_invariant(self);
            lemma_keys_by(self.entries@, plain_key());
        }
        let n = self.entries.len();
        for i in 0..n
            invariant
                n == self.entries@.len(),
                self.inv(),
                forall|j: int| 0 <= j < i ==> self.entries@[j].0 != *k,
        {
            if same(&self.entries[i].0, k) {
                proof {
                    lemma_entry_by(self.entries@, plain_key(), i as int);
                }
                return Some(i);
            }
        }
        None
    }

    /// Whether the map has the key.
    pub fn contains_key(&self, k: &K) -> (b: bool)
        ensures
            b == self@.contains_key(*k),
    {
        self.find(k).is_some()
    }

    /// The key of an entry.
    pub fn key_at(&self, i: usize) -> (k: &K)
        requires
            i < self.keys().len(),
        ensures
            *k == self.keys()[i as int],
    {
        &self.entries[i].0
    }

    /// The value of an entry.
    pub fn value_at(&self, i: usize) -> (v: &V)
        requires
            i < self.keys().len(),
        ensures
            self@.contains_key(self.keys()[i as int]),
            *v == self@[self.keys()[i as int]],
    {
        proof {
            use_type_invariant(self);
            lemma_entry_by(self.entries@, plain_key(), i as int);
        }
        &self.entries[i].1
    }

    /// The value of a key, if the map has it.
    pub fn get(&self, k: &K) -> (r: Option<&V>)
        ensures
            match r {
                Some(v) => self@.contains_key(*k) && *v == self@[*k],
                None => !self@.contains_key(*k),
            },
    {
        match self.find(k) {
            Some(i) => Some(self.value_at(i)),
            None => None,
        }
    }

    /// Sets the value of a key; a new key goes after the others.
    pub fn insert(&mut self, k: K, v: V)
        ensures
            final(self)@ == old(self)@.insert(k, v),
    {
        proof {
            use_type_invariant(&*self);
            lemma_keys_by(self.entries@, plain_key());
        }
        let found = self.find(&k);
        let mut entries: Vec<(K, V)> = Vec::new();
        std::mem::swap(&mut entries, &mut self.entries);
        let ghost old_entries = entries@;
        proof {
            match found {
                Some(i) => lemma_update_by(old_entries, plain_key(), i as int, k, v),
                None => lemma_push_by(old_entries, plain_key(), k, v),
            }
        }
        match found {
            Some(i) => {
                entries.set(i, (k, v));
            },
            None => {
                entries.push((k, v));
            },
        }
        self.entries = entries;
    }

    /// Removes a key, and gives back its value if the map had it.
    pub fn remove(&mut self, k: &K) -> (r: Option<V>)
        ensures
            final(self)@ == old(self)@.remove(*k),
            r == old(self)@.get(*k),
    {
        proof {
            use_type_invariant(&*self);
        }
        match self.find(k) {
            None => {
                assert(old(self)@.remove(*k) =~= old(self)@);
                None
            },
            Some(i) => {
                let mut entries: Vec<(K, V)> = Vec::new();
                std::mem::swap(&mut entries, &mut self.entries);
                proof {
                    lemma_entry_by(entries@, plain_key(), i as int);
                    lemma_remove_by(entries@, plain_key(), i as int);
                }
                let e = entries.remove(i);
                self.entries = entries;
                Some(e.1)
            },
        }
    }
}

impl<K: PartialEq + Clone, V: Copy> KeyMap<K, V> {
    /// Adds each entry of `other` whose key this map does not have.
    pub fn fill_from(&mut self, other: &Self)
        ensures
            final(self)@ == other@.union_prefer_right(old(self)@),
    {
        let n = other.len();
        let mut i: usize = 0;
        while i < n
            invariant
                i <= n,
                n == other.keys().len(),
                is_plain::<K>(),
                other.keys().no_duplicates(),
                forall|k: K| other@.contains_key(k) <==> other.keys().contains(k),
                forall|k: K|
                    #[trigger] self@.contains_key(k) <==> (old(self)@.contains_key(k)
                        || other.keys().take(i as int).contains(k)),
                forall|k: K|
                    #[trigger] self@.contains_key(k) ==> self@[k] == (if old(self)@.contains_key(k) {
                        old(self)@[k]
                    } else {
                        other@[k]
                    }),
            decreases n - i,
        {
            let k = other.key_at(i);
            if !self.contains_key(k) {
                let v = *other.value_at(i);
                self.insert(dup(k), v);
            }
            proof {
                lemma_take_one_more(other.keys(), i as int);
            }
            i = i + 1;
        }
        proof {
            assert(other.keys().take(i as int) =~= other.keys());
        }
        assert(self@ =~= other@.union_prefer_right(old(self)@));
    }

    /// A copy of the map.
    pub fn duplicate(&self) -> (r: Self)
        ensures
            r@ == self@,
    {
        proof {
            use_type_invariant(self);
        }
        let mut r: Vec<(K, V)> = Vec::new();
        let n = self.entries.len();
        for i in 0..n
            invariant
                n == self.entries@.len(),
                self.inv(),
                r@ == self.entries@.take(i as int),
        {
            let k = dup(&self.entries[i].0);
            r.push((k, self.entries[i].1));
            assert(self.entries@.take(i + 1) =~= self.entries@.take(i as int).push(
                self.entries@[i as int],
            ));
        }
        assert(self.entries@.take(n as int) =~= self.entries@);
        KeyMap { entries: r }
    }
}

/// A map from profiles to values; two profiles are the same key when they
/// have the same names.
pub struct ProfileMap<V> {
    entries: Vec<(Vec<String>, V)>,
}

impl<V> ProfileMap<V> {
    #[verifier::type_invariant]
    closed spec fn inv(&self) -> bool {
        distinct_by(self.entries@, profile_key())
    }

    /// The keys, in the order of the entries.
    pub closed spec fn keys(&self) -> Seq<ProfileView> {
        keys_by(self.entries@, profile_key())
    }

    /// The map that the entries make.
    pub closed spec fn as_map(&self) -> Map<ProfileView, V> {
        map_by(self.entries@, profile_key())
    }

    /// An empty map.
    pub fn new() -> (m: Self)
        ensures
            m@ == Map::<ProfileView, V>::empty(),
            m.keys() == Seq::<ProfileView>::empty(),
    {
        proof {
            lemma_empty_by::<Vec<String>, ProfileView, V>(profile_key());
        }
        ProfileMap { entries: Vec::new() }
    }

    /// The number of entries; the keys are distinct and are those of the map.
    pub fn len(&self) -> (n: usize)
        ensures
            n == self.keys().len(),
            n == self@.len(),
            self.keys().no_duplicates(),
            forall|k: ProfileView| self@.contains_key(k) <==> self.keys().contains(k),
    {
        proof {
            use_type_invariant(self);
            lemma_keys_by(self.entries@, profile_key());
            self.keys().unique_seq_to_set();
            assert(self@.dom() =~= self.keys().to_set());
        }
        self.entries.len()
    }

    /// The position of a key among the entries, if it is there.
    pub fn find(&self, k: &Vec<String>) -> (r: Option<usize>)
        ensures
            match r {
                Some(i) => i < self.keys().len() && self.keys()[i as int] == k.deep_view()
                    && self@.contains_key(k.deep_view()),
                None => !self@.contains_key(k.deep_view()),
            },
    {
        proof {
            use_type_invariant(self);
            lemma_keys_by(self.entries@, profile_key());
        }
        let n = self.entries.len();
        for i in 0..n
            invariant
                n == self.entries@.len(),
                self.inv(),
                forall|j: int| 0 <= j < i ==> self.entries@[j].0.deep_view() != k.deep_view(),
        {
            if same_profile(&self.entries[i].0, k) {
                proof {
                    lemma_entry_by(self.entries@, profile_key(), i as int);
                }
                return Some(i);
            }
        }
        None
    }

    /// Whether the map has the key.
    pub fn contains_key(&self, k: &Vec<String>) -> (b: bool)
        ensures
            b == self@.contains_key(k.deep_view()),
    {
        self.find(k).is_some()
    }

    /// The key of an entry.
    pub fn key_at(&self, i: usize) -> (k: &Vec<String>)
        requires
            i < self.keys().len(),
        ensures
            k.deep_view() == self.keys()[i as int],
    {
        &self.entries[i].0
    }

    /// The value of an entry.
    pub fn value_at(&self, i: usize) -> (v: &V)
        requires
            i < self.keys().len(),
        ensures
            self@.contains_key(self.keys()[i as int]),
            *v == self@[self.keys()[i as int]],
    {
        proof {
            use_type_invariant(self);
            lemma_entry_by(self.entries@, profile_key(), i as int);
        }
        &self.entries[i].1
    }

    /// The value of a key, if the map has it.
    pub fn get(&self, k: &Vec<String>) -> (r: Option<&V>)
        ensures
            match r {
                Some(v) => self@.contains_key(k.deep_view()) && *v == self@[k.deep_view()],
                None => !self@.contains_key(k.deep_view()),
            },
    {
        match self.find(k) {
            Some(i) => Some(self.value_at(i)),
            None => None,
        }
    }

    /// Sets the value of a key; a new key goes after the others.
    pub fn insert(&mut self, k: Vec<String>, v: V)
        ensures
            final(self)@ == old(self)@.insert(k.deep_view(), v),
    {
        proof {
            use_type_invariant(&*self);
            lemma_keys_by(self.entries@, profile_key());
        }
        let found = self.find(&k);
        let mut entries: Vec<(Vec<String>, V)> = Vec::new();
        std::mem::swap(&mut entries, &mut self.entries);
        let ghost old_entries = entries@;
        proof {
            match found {
                Some(i) => lemma_update_by(old_entries, profile_key(), i as int, k, v),
                None => lemma_push_by(old_entries, profile_key(), k, v),
            }
        }
        match found {
            Some(i) => {
                entries.set(i, (k, v));
            },
            None => {
                entries.push((k, v));
            },
        }
        self.entries = entries;
    }

    /// Removes a key, and gives back its value if the map had it.
    pub fn remove(&mut self, k: &Vec<String>) -> (r: Option<V>)
        ensures
            final(self)@ == old(self)@.remove(k.deep_view()),
            r == old(self)@.get(k.deep_view()),
    {
        proof {
            use_type_invariant(&*self);
        }
        match self.find(k) {
            None => {
                assert(old(self)@.remove(k.deep_view()) =~= old(self)@);
                None
            },
            Some(i) => {
                let mut entries: Vec<(Vec<String>, V)> = Vec::new();
                std::mem::swap(&mut entries, &mut self.entries);
                proof {
                    lemma_entry_by(entries@, profile_key(), i as int);
                    lemma_remove_by(entries@, profile_key(), i as int);
                }
                let e = entries.remove(i);
                self.entries = entries;
                Some(e.1)
            },
        }
    }
}

impl<V: Copy> ProfileMap<V> {
    /// A copy of the map.
    pub fn duplicate(&self) -> (r: Self)
        ensures
            r@ == self@,
    {
        proof {
            use_type_invariant(self);
        }
        let mut r: Vec<(Vec<String>, V)> = Vec::new();
        let n = self.entries.len();
        for i in 0..n
            invariant
                n == self.entries@.len(),
                self.inv(),
                r@.len() == i,
                forall|j: int|
                    #![trigger r@[j]]
                    0 <= j < i ==> r@[j].0.deep_view() == self.entries@[j].0.deep_view()
                        && r@[j].1 == self.entries@[j].1,
        {
            let k = dup_profile(&self.entries[i].0);
            r.push((k, self.entries[i].1));
        }
        proof {
            lemma_same_by(self.entries@, r@, profile_key());
        }
        ProfileMap { entries: r }
    }
}

impl<K: PartialEq + Clone, V> View for KeyMap<K, V> {
    type V = Map<K, V>;

    open spec fn view(&self) -> Map<K, V> {
        self.as_map()
    }
}

impl<V> View for ProfileMap<V> {
    type V = Map<ProfileView, V>;

    open spec fn view(&self) -> Map<ProfileView, V> {
        self.as_map()
    }
}

} // verus!
