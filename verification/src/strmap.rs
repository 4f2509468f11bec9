//! An insertion-ordered map keyed by strings.
//!
//! Keys are kept distinct; the abstract view is a `Map` from the key's
//! characters to the stored value.
use vstd::prelude::*;
use crate::text::{str_eq, owned};

verus! {

/// Keys of an entry list are pairwise distinct.
pub open spec fn distinct_keys<V>(e: Seq<(String, V)>) -> bool {
    forall|i: int, j: int| 0 <= i < e.len() && 0 <= j < e.len() && i != j ==> e[i].0@ != e[j].0@
}

/// The map that an entry list denotes (later entries win).
pub open spec fn map_of<V>(e: Seq<(String, V)>) -> Map<Seq<char>, V>
    decreases e.len(),
{
    if e.len() == 0 {
        Map::empty()
    } else {
        map_of(e.drop_last()).insert(e.last().0@, e.last().1)
    }
}

/// The keys of an entry list, in order.
pub open spec fn keys_of<V>(e: Seq<(String, V)>) -> Seq<Seq<char>> {
    e.map_values(|p: (String, V)| p.0@)
}

/// Domain of the denoted map: exactly the keys that occur.
pub proof fn lemma_map_of_dom<V>(e: Seq<(String, V)>, k: Seq<char>)
    ensures
        map_of(e).dom().contains(k) <==> exists|i: int| 0 <= i < e.len() && e[i].0@ == k,
    decreases e.len(),
{
    if e.len() > 0 {
        lemma_map_of_dom(e.drop_last(), k);
        if map_of(e).dom().contains(k) && k != e.last().0@ {
            let i = choose|i: int| 0 <= i < e.len() - 1 && e.drop_last()[i].0@ == k;
            assert(e[i].0@ == k);
        }
        if exists|i: int| 0 <= i < e.len() && e[i].0@ == k {
            let i = choose|i: int| 0 <= i < e.len() && e[i].0@ == k;
            if i < e.len() - 1 {
                assert(e.drop_last()[i].0@ == k);
            }
        }
    }
}

/// Value of a key in the denoted map, when keys are distinct.
pub proof fn lemma_map_of_index<V>(e: Seq<(String, V)>, i: int)
    requires
        distinct_keys(e),
        0 <= i < e.len(),
    ensures
        map_of(e).dom().contains(e[i].0@),
        map_of(e)[e[i].0@] == e[i].1,
    decreases e.len(),
{
    if i < e.len() - 1 {
        assert(distinct_keys(e.drop_last()));
        lemma_map_of_index(e.drop_last(), i);
        assert(e.drop_last()[i] == e[i]);
    }
}

/// Overwriting the value of an existing key.
pub proof fn lemma_map_of_update<V>(e: Seq<(String, V)>, i: int, key: String, v: V)
    requires
        distinct_keys(e),
        0 <= i < e.len(),
        key@ == e[i].0@,
    ensures
        map_of(e.update(i, (key, v))) == map_of(e).insert(key@, v),
        distinct_keys(e.update(i, (key, v))),
    decreases e.len(),
{
    let u = e.update(i, (key, v));
    if i == e.len() - 1 {
        assert(u.drop_last() =~= e.drop_last());
        assert(!map_of(e.drop_last()).dom().contains(key@)) by {
            lemma_map_of_dom(e.drop_last(), key@);
        }
        assert(map_of(u) =~= map_of(e).insert(key@, v));
    } else {
        assert(distinct_keys(e.drop_last()));
        lemma_map_of_update(e.drop_last(), i, key, v);
        assert(u.drop_last() =~= e.drop_last().update(i, (key, v)));
        assert(map_of(u) =~= map_of(e).insert(key@, v));
    }
}

/// Removing the entry of an existing key.
pub proof fn lemma_map_of_remove<V>(e: Seq<(String, V)>, i: int)
    requires
        distinct_keys(e),
        0 <= i < e.len(),
    ensures
        map_of(e.remove(i)) == map_of(e).remove(e[i].0@),
        distinct_keys(e.remove(i)),
    decreases e.len(),
{
    let k = e[i].0@;
    let r = e.remove(i);
    if i == e.len() - 1 {
        assert(r =~= e.drop_last());
        assert(!map_of(e.drop_last()).dom().contains(k)) by {
            lemma_map_of_dom(e.drop_last(), k);
        }
        assert(map_of(r) =~= map_of(e).remove(k));
    } else {
        assert(distinct_keys(e.drop_last()));
        lemma_map_of_remove(e.drop_last(), i);
        assert(r.drop_last() =~= e.drop_last().remove(i));
        assert(r.last() == e.last());
        assert(map_of(r) =~= map_of(e).remove(k));
    }
}

/// Appending a fresh key.
pub proof fn lemma_push_distinct<V>(e: Seq<(String, V)>, key: String, v: V)
    requires
        distinct_keys(e),
        !map_of(e).dom().contains(key@),
    ensures
        distinct_keys(e.push((key, v))),
{
    lemma_map_of_dom(e, key@);
}

/// The denoted map is finite and has one key per entry.
pub proof fn lemma_map_of_len<V>(e: Seq<(String, V)>)
    requires
        distinct_keys(e),
    ensures
        map_of(e).dom().finite(),
        map_of(e).dom().len() == e.len(),
    decreases e.len(),
{
    if e.len() > 0 {
        assert(distinct_keys(e.drop_last()));
        lemma_map_of_len(e.drop_last());
        assert(!map_of(e.drop_last()).dom().contains(e.last().0@)) by {
            lemma_map_of_dom(e.drop_last(), e.last().0@);
        }
    }
}

/// A map from strings to values that remembers insertion order.
#[derive(Debug)]
pub struct StrMap<V> {
    entries: Vec<(String, V)>,
}

impl<V> View for StrMap<V> {
    type V = Map<Seq<char>, V>;

    closed spec fn view(&self) -> Map<Seq<char>, V> {
        map_of(self.entries@)
    }
}

impl<V> StrMap<V> {
    /// Keys stay distinct.
    #[verifier::type_invariant]
    pub closed spec fn inv(&self) -> bool {
        distinct_keys(self.entries@)
    }

    /// The entries in insertion order.
    pub closed spec fn entry_seq(&self) -> Seq<(String, V)> {
        self.entries@
    }

    /// The keys in insertion order.
    pub open spec fn key_seq(&self) -> Seq<Seq<char>> {
        keys_of(self.entry_seq())
    }

    /// The entry sequence denotes the view.
    pub proof fn lemma_view(&self)
        requires
            self.inv(),
        ensures
            self@ == map_of(self.entry_seq()),
            distinct_keys(self.entry_seq()),
            self@.dom().finite(),
            self@.dom().len() == self.entry_seq().len(),
    {
        lemma_map_of_len(self.entries@);
    }

    /// Every key in order is a key of the view.
    pub proof fn lemma_key_seq_in_dom(&self)
        ensures
            forall|i: int| 0 <= i < self.key_seq().len() ==> self@.dom().contains(#[trigger] self.key_seq()[i]),
    {
        assert forall|i: int| 0 <= i < self.key_seq().len() implies self@.dom().contains(#[trigger] self.key_seq()[i]) by {
            lemma_map_of_dom(self.entries@, self.key_seq()[i]);
            assert(self.entries@[i].0@ == self.key_seq()[i]);
        }
    }

    /// Every key of the view occurs in the keys in order.
    pub proof fn lemma_dom_in_key_seq(&self)
        ensures
            forall|k: Seq<char>| #[trigger] self@.dom().contains(k) ==> self.key_seq().contains(k),
    {
        assert forall|k: Seq<char>| #[trigger] self@.dom().contains(k) implies self.key_seq().contains(k) by {
            lemma_map_of_dom(self.entries@, k);
            let i = choose|i: int| 0 <= i < self.entries@.len() && self.entries@[i].0@ == k;
            assert(self.key_seq()[i] == k);
        }
    }

    /// The keys in order are distinct and are exactly the keys of the view.
    pub proof fn lemma_keys(&self)
        requires
            self.inv(),
        ensures
            forall|k: Seq<char>| self@.dom().contains(k) <==> self.key_seq().contains(k),
            forall|i: int, j: int|
                0 <= i < self.key_seq().len() && 0 <= j < self.key_seq().len() && i != j ==> self.key_seq()[i]
                    != self.key_seq()[j],
            self.key_seq().len() == self.entry_seq().len(),
    {
        assert forall|k: Seq<char>| self@.dom().contains(k) <==> self.key_seq().contains(k) by {
            lemma_map_of_dom(self.entries@, k);
            if self@.dom().contains(k) {
                let i = choose|i: int| 0 <= i < self.entries@.len() && self.entries@[i].0@ == k;
                assert(self.key_seq()[i] == k);
            }
        }
    }

    /// An empty map.
    pub fn new() -> (m: Self)
        ensures
            m@ == Map::<Seq<char>, V>::empty(),
            m.entry_seq().len() == 0,
    {
        StrMap { entries: Vec::new() }
    }

    /// Position of a key, if present.
    pub fn position(&self, key: &str) -> (r: Option<usize>)
        ensures
            match r {
                Some(i) => i < self.entry_seq().len() && self.entry_seq()[i as int].0@ == key@,
                None => !self@.dom().contains(key@),
            },
    {
        proof {
            use_type_invariant(self);
            lemma_map_of_dom(self.entries@, key@);
        }
        let mut i: usize = 0;
        while i < self.entries.len()
            invariant
                i <= self.entries@.len(),
                forall|j: int| 0 <= j < i ==> self.entries@[j].0@ != key@,
            decreases self.entries.len() - i,
        {
            if str_eq(self.entries[i].0.as_str(), key) {
                return Some(i);
            }
            i = i + 1;
        }
        None
    }

    /// Whether the key is present.
    pub fn contains_key(&self, key: &str) -> (r: bool)
        ensures
            r == self@.dom().contains(key@),
    {
        match self.position(key) {
            Some(i) => {
                proof {
                    use_type_invariant(self);
                    lemma_map_of_index(self.entries@, i as int);
                }
                true
            },
            None => false,
        }
    }

    /// The value stored under a key.
    pub fn get(&self, key: &str) -> (r: Option<&V>)
        ensures
            match r {
                Some(v) => self@.dom().contains(key@) && *v == self@[key@],
                None => !self@.dom().contains(key@),
            },
    {
        match self.position(key) {
            Some(i) => {
                proof {
                    use_type_invariant(self);
                    lemma_map_of_index(self.entries@, i as int);
                }
                Some(&self.entries[i].1)
            },
            None => None,
        }
    }

    /// Stores a value under a key, replacing any earlier value.
    pub fn insert(&mut self, key: &str, value: V)
        ensures
            final(self)@ == old(self)@.insert(key@, value),
            old(self)@.dom().contains(key@) ==> final(self).key_seq() == old(self).key_seq(),
            !old(self)@.dom().contains(key@) ==> final(self).key_seq() == old(self).key_seq().push(key@),
    {
        proof {
            use_type_invariant(&*self);
        }
        match self.position(key) {
            Some(i) => {
                let k = owned(key);
                proof {
                    lemma_map_of_index(self.entries@, i as int);
                    lemma_map_of_update(self.entries@, i as int, k, value);
                }
                let ghost old_e = self.entries@;
                let mut e: Vec<(String, V)> = Vec::new();
                std::mem::swap(&mut e, &mut self.entries);
                e.set(i, (k, value));
                assert(keys_of(e@) =~= keys_of(old_e));
                self.entries = e;
            },
            None => {
                let k = owned(key);
                proof {
                    lemma_push_distinct(self.entries@, k, value);
                }
                let ghost old_e = self.entries@;
                let mut e: Vec<(String, V)> = Vec::new();
                std::mem::swap(&mut e, &mut self.entries);
                e.push((k, value));
                assert(e@.drop_last() =~= old_e);
                assert(keys_of(e@) =~= keys_of(old_e).push(key@));
                self.entries = e;
            },
        }
    }

    /// Removes a key and returns its value.
    pub fn remove(&mut self, key: &str) -> (r: Option<V>)
        ensures
            final(self)@ == old(self)@.remove(key@),
            match r {
                Some(v) => old(self)@.dom().contains(key@) && v == old(self)@[key@],
                None => !old(self)@.dom().contains(key@),
            },
            r is Some ==> exists|i: int|
                0 <= i < old(self).key_seq().len() && old(self).key_seq()[i] == key@ && final(self).key_seq()
                    == old(self).key_seq().remove(i),
            r is None ==> final(self).key_seq() == old(self).key_seq(),
    {
        proof {
            use_type_invariant(&*self);
        }
        match self.position(key) {
            Some(i) => {
                proof {
                    lemma_map_of_remove(self.entries@, i as int);
                    lemma_map_of_index(self.entries@, i as int);
                }
                let ghost old_e = self.entries@;
                let mut e: Vec<(String, V)> = Vec::new();
                std::mem::swap(&mut e, &mut self.entries);
                let (_, v) = e.remove(i);
                self.entries = e;
                assert(keys_of(self.entries@) =~= keys_of(old_e).remove(i as int));
                assert(keys_of(old_e)[i as int] == key@);
                assert(old(self).key_seq() == keys_of(old_e));
                assert(self.key_seq() == old(self).key_seq().remove(i as int));
                assert(old(self).key_seq()[i as int] == key@);
                Some(v)
            },
            None => {
                assert(old(self)@.remove(key@) =~= old(self)@);
                None
            },
        }
    }

    /// Removes every entry.
    pub fn clear(&mut self)
        ensures
            final(self)@ == Map::<Seq<char>, V>::empty(),
            final(self).entry_seq().len() == 0,
    {
        self.entries = Vec::new();
    }

    /// Number of entries.
    pub fn len(&self) -> (n: usize)
        ensures
            n == self@.dom().len(),
            n == self.entry_seq().len(),
    {
        proof {
            use_type_invariant(self);
            self.lemma_view();
        }
        self.entries.len()
    }

    /// Whether the map is empty.
    pub fn is_empty(&self) -> (b: bool)
        ensures
            b == (self@.dom().len() == 0),
    {
        self.len() == 0
    }

    /// The `i`-th key in insertion order.
    pub fn key_at(&self, i: usize) -> (r: &String)
        requires
            i < self.entry_seq().len(),
        ensures
            r@ == self.key_seq()[i as int],
            self@.dom().contains(r@),
    {
        proof {
            use_type_invariant(self);
            lemma_map_of_index(self.entries@, i as int);
        }
        &self.entries[i].0
    }

    /// The `i`-th value in insertion order.
    pub fn value_at(&self, i: usize) -> (r: &V)
        requires
            i < self.entry_seq().len(),
        ensures
            *r == self@[self.key_seq()[i as int]],
            *r == self.entry_seq()[i as int].1,
    {
        proof {
            use_type_invariant(self);
            lemma_map_of_index(self.entries@, i as int);
        }
        &self.entries[i].1
    }
}

impl StrMap<String> {
    /// The map with each stored string taken by its characters.
    pub open spec fn sview(&self) -> Map<Seq<char>, Seq<char>> {
        self@.map_values(|v: String| v@)
    }

    /// Stores a copy of `value` under `key`.
    pub fn set_str(&mut self, key: &str, value: &str)
        ensures
            final(self).sview() == old(self).sview().insert(key@, value@),
            old(self)@.dom().contains(key@) ==> final(self).key_seq() == old(self).key_seq(),
            !old(self)@.dom().contains(key@) ==> final(self).key_seq() == old(self).key_seq().push(key@),
    {
        let v = owned(value);
        self.insert(key, v);
        assert(final(self).sview() =~= old(self).sview().insert(key@, value@));
    }

    /// The characters stored under `key`.
    pub fn get_str(&self, key: &str) -> (r: Option<&String>)
        ensures
            match r {
                Some(v) => self.sview().dom().contains(key@) && v@ == self.sview()[key@],
                None => !self.sview().dom().contains(key@),
            },
    {
        self.get(key)
    }

    /// A copy with equal keys and values, in the same order.
    pub fn copy(&self) -> (r: Self)
        ensures
            r@ == self@,
            r.key_seq() == self.key_seq(),
    {
        proof {
            use_type_invariant(self);
        }
        let mut e: Vec<(String, String)> = Vec::new();
        let mut i: usize = 0;
        while i < self.entries.len()
            invariant
                i <= self.entries@.len(),
                distinct_keys(self.entries@),
                e@ == self.entries@.take(i as int),
            decreases self.entries.len() - i,
        {
            let k = self.entries[i].0.clone();
            let v = self.entries[i].1.clone();
            e.push((k, v));
            i = i + 1;
            assert(e@ =~= self.entries@.take(i as int));
        }
        assert(e@ =~= self.entries@);
        StrMap { entries: e }
    }

    /// Removes `key`.
    pub fn remove_str(&mut self, key: &str)
        ensures
            final(self).sview() == old(self).sview().remove(key@),
    {
        let _ = self.remove(key);
        assert(final(self).sview() =~= old(self).sview().remove(key@));
    }
}

impl<V: Clone> Clone for StrMap<V> {
    /// A copy with the same keys in the same order; each value is cloned.
    fn clone(&self) -> (r: Self)
        ensures
            r.key_seq() == self.key_seq(),
    {
        proof {
            use_type_invariant(self);
        }
        let mut e: Vec<(String, V)> = Vec::new();
        let mut i: usize = 0;
        while i < self.entries.len()
            invariant
                i <= self.entries@.len(),
                distinct_keys(self.entries@),
                e@.len() == i,
                forall|j: int| 0 <= j < i ==> #[trigger] e@[j].0 == self.entries@[j].0,
            decreases self.entries.len() - i,
        {
            let k = self.entries[i].0.clone();
            let v = self.entries[i].1.clone();
            e.push((k, v));
            i = i + 1;
        }
        assert(keys_of(e@) =~= keys_of(self.entries@));
        StrMap { entries: e }
    }
}

} // verus!
