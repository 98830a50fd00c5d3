//! A string-keyed map whose entries keep the order in which keys first
//! arrived. Attribute documents, placeholder bindings and transaction labels
//! are held in it; its contracts speak of the `Map` it stands for.

use crate::text::views;
use vstd::prelude::*;

verus! {

/// The map that a list of entries stands for: a later entry for a key
/// replaces an earlier one.
pub open spec fn entry_map<V>(s: Seq<(String, V)>) -> Map<Seq<char>, V>
    decreases s.len(),
{
    if s.len() == 0 {
        Map::empty()
    } else {
        entry_map(s.drop_last()).insert(s.last().0@, s.last().1)
    }
}

/// No key occurs twice among the entries.
pub open spec fn distinct_keys<V>(s: Seq<(String, V)>) -> bool {
    forall|i: int, j: int| 0 <= i < j < s.len() ==> s[i].0@ != s[j].0@
}

/// A key is in the map exactly when some entry carries it.
pub proof fn lemma_entry_map_contains<V>(s: Seq<(String, V)>, k: Seq<char>)
    ensures
        entry_map(s).contains_key(k) <==> exists|i: int| 0 <= i < s.len() && s[i].0@ == k,
    decreases s.len(),
{
    if s.len() > 0 {
        lemma_entry_map_contains(s.drop_last(), k);
        if entry_map(s).contains_key(k) && k != s.last().0@ {
            let i = choose|i: int| 0 <= i < s.drop_last().len() && s.drop_last()[i].0@ == k;
            assert(s[i].0@ == k);
        }
        if exists|i: int| 0 <= i < s.len() && s[i].0@ == k {
            let i = choose|i: int| 0 <= i < s.len() && s[i].0@ == k;
            if i < s.len() - 1 {
                assert(s.drop_last()[i].0@ == k);
            }
        }
    }
}

/// With distinct keys, each entry's value is the map's value at its key.
pub proof fn lemma_entry_map_value<V>(s: Seq<(String, V)>, i: int)
    requires
        distinct_keys(s),
        0 <= i < s.len(),
    ensures
        entry_map(s).contains_key(s[i].0@),
        entry_map(s)[s[i].0@] == s[i].1,
    decreases s.len(),
{
    if i < s.len() - 1 {
        assert(distinct_keys(s.drop_last()));
        lemma_entry_map_value(s.drop_last(), i);
        assert(s.drop_last()[i] == s[i]);
    }
}

/// With distinct keys, the map has as many keys as there are entries.
pub proof fn lemma_entry_map_len<V>(s: Seq<(String, V)>)
    requires
        distinct_keys(s),
    ensures
        entry_map(s).dom().finite(),
        entry_map(s).len() == s.len(),
    decreases s.len(),
{
    if s.len() > 0 {
        assert(distinct_keys(s.drop_last()));
        lemma_entry_map_len(s.drop_last());
        lemma_entry_map_contains(s.drop_last(), s.last().0@);
        if entry_map(s.drop_last()).contains_key(s.last().0@) {
            let i = choose|i: int|
                0 <= i < s.drop_last().len() && s.drop_last()[i].0@ == s.last().0@;
            assert(s[i].0@ == s[s.len() - 1].0@);
        }
    }
}

/// Replacing the value of an existing entry replaces it in the map.
pub proof fn lemma_entry_map_update<V>(s: Seq<(String, V)>, i: int, k: String, v: V)
    requires
        distinct_keys(s),
        0 <= i < s.len(),
        k@ == s[i].0@,
    ensures
        distinct_keys(s.update(i, (k, v))),
        entry_map(s.update(i, (k, v))) == entry_map(s).insert(k@, v),
    decreases s.len(),
{
    let t = s.update(i, (k, v));
    assert(distinct_keys(t)) by {
        assert forall|a: int, b: int| 0 <= a < b < t.len() implies t[a].0@ != t[b].0@ by {
            assert(s[a].0@ != s[b].0@);
        }
    }
    if i == s.len() - 1 {
        assert(t.drop_last() =~= s.drop_last());
        assert(entry_map(t) =~= entry_map(s).insert(k@, v));
    } else {
        assert(t.drop_last() =~= s.drop_last().update(i, (k, v)));
        assert(distinct_keys(s.drop_last()));
        lemma_entry_map_update(s.drop_last(), i, k, v);
        assert(s[i].0@ != s.last().0@);
        assert(entry_map(t) =~= entry_map(s).insert(k@, v));
    }
}

/// Removing an entry removes its key from the map.
pub proof fn lemma_entry_map_remove<V>(s: Seq<(String, V)>, i: int)
    requires
        distinct_keys(s),
        0 <= i < s.len(),
    ensures
        distinct_keys(s.remove(i)),
        entry_map(s.remove(i)) == entry_map(s).remove(s[i].0@),
    decreases s.len(),
{
    let t = s.remove(i);
    assert(distinct_keys(t)) by {
        assert forall|a: int, b: int| 0 <= a < b < t.len() implies t[a].0@ != t[b].0@ by {
            let a2 = if a < i { a } else { a + 1 };
            let b2 = if b < i { b } else { b + 1 };
            assert(t[a] == s[a2] && t[b] == s[b2]);
            assert(s[a2].0@ != s[b2].0@);
        }
    }
    if i == s.len() - 1 {
        assert(t =~= s.drop_last());
        assert(distinct_keys(s.drop_last()));
        lemma_entry_map_contains(s.drop_last(), s.last().0@);
        if entry_map(s.drop_last()).contains_key(s.last().0@) {
            let j = choose|j: int|
                0 <= j < s.drop_last().len() && s.drop_last()[j].0@ == s.last().0@;
            assert(s[j].0@ == s[s.len() - 1].0@);
        }
        assert(entry_map(t) =~= entry_map(s).remove(s[i].0@));
    } else {
        assert(t.drop_last() =~= s.drop_last().remove(i));
        assert(t.last() == s.last());
        assert(distinct_keys(s.drop_last()));
        lemma_entry_map_remove(s.drop_last(), i);
        assert(s.drop_last()[i] == s[i]);
        assert(s[i].0@ != s.last().0@);
        assert(entry_map(t) =~= entry_map(s).remove(s[i].0@));
    }
}

/// Appending an entry with a new key keeps the keys distinct.
pub proof fn lemma_push_distinct<V>(s: Seq<(String, V)>, k: String, v: V)
    requires
        distinct_keys(s),
        !entry_map(s).contains_key(k@),
    ensures
        distinct_keys(s.push((k, v))),
        entry_map(s.push((k, v))) == entry_map(s).insert(k@, v),
{
    lemma_entry_map_contains(s, k@);
    let t = s.push((k, v));
    assert forall|a: int, b: int| 0 <= a < b < t.len() implies t[a].0@ != t[b].0@ by {
        if b == s.len() {
            assert(t[a] == s[a]);
        } else {
            assert(s[a].0@ != s[b].0@);
        }
    }
    assert(t.drop_last() =~= s);
}

/// A map from strings to values, kept as a list of entries with distinct
/// keys.
#[derive(Debug)]
pub struct StrMap<V> {
    entries: Vec<(String, V)>,
}

impl<V> View for StrMap<V> {
    type V = Map<Seq<char>, V>;

    closed spec fn view(&self) -> Map<Seq<char>, V> {
        entry_map(self.entries@)
    }
}

impl<V> StrMap<V> {
    #[verifier::type_invariant]
    spec fn well_formed(self) -> bool {
        distinct_keys(self.entries@)
    }

    /// The empty map.
    pub fn new() -> (m: Self)
        ensures
            m@ == Map::<Seq<char>, V>::empty(),
    {
        StrMap { entries: Vec::new() }
    }

    /// The position of the entry for `key`, if any.
    fn position(&self, key: &str) -> (r: Option<usize>)
        ensures
            match r {
                Some(i) => i < self.entries@.len() && self.entries@[i as int].0@ == key@,
                None => !self@.contains_key(key@),
            },
    {
        let wanted = key.to_owned();
        let mut i: usize = 0;
        while i < self.entries.len()
            invariant
                wanted@ == key@,
                i <= self.entries@.len(),
                forall|j: int| 0 <= j < i ==> self.entries@[j].0@ != key@,
            decreases self.entries.len() - i,
        {
            if self.entries[i].0 == wanted {
                return Some(i);
            }
            i = i + 1;
        }
        proof {
            lemma_entry_map_contains(self.entries@, key@);
        }
        None
    }

    /// The number of keys.
    pub fn len(&self) -> (n: usize)
        ensures
            self@.dom().finite(),
            n == self@.len(),
    {
        proof {
            use_type_invariant(self);
            lemma_entry_map_len(self.entries@);
        }
        self.entries.len()
    }

    /// Whether the map has no key.
    pub fn is_empty(&self) -> (r: bool)
        ensures
            r <==> self@ == Map::<Seq<char>, V>::empty(),
    {
        proof {
            use_type_invariant(self);
            lemma_entry_map_len(self.entries@);
            if self.entries@.len() == 0 {
                assert(self@ =~= Map::<Seq<char>, V>::empty());
            } else {
                assert(self@.contains_key(self.entries@.last().0@));
            }
        }
        self.entries.len() == 0
    }

    /// Whether `key` is in the map.
    pub fn contains_key(&self, key: &str) -> (r: bool)
        ensures
            r == self@.contains_key(key@),
    {
        proof {
            use_type_invariant(self);
        }
        match self.position(key) {
            Some(i) => {
                proof {
                    lemma_entry_map_value(self.entries@, i as int);
                }
                true
            },
            None => false,
        }
    }

    /// The value stored at `key`, if any.
    pub fn get(&self, key: &str) -> (r: Option<&V>)
        ensures
            match r {
                Some(v) => self@.contains_key(key@) && *v == self@[key@],
                None => !self@.contains_key(key@),
            },
    {
        proof {
            use_type_invariant(self);
        }
        match self.position(key) {
            Some(i) => {
                proof {
                    lemma_entry_map_value(self.entries@, i as int);
                }
                Some(&self.entries[i].1)
            },
            None => None,
        }
    }

    /// Stores `value` at `key`, replacing any value stored there.
    pub fn insert(&mut self, key: String, value: V)
        ensures
            final(self)@ == old(self)@.insert(key@, value),
    {
        proof {
            use_type_invariant(&*self);
        }
        match self.position(key.as_str()) {
            Some(i) => {
                proof {
                    lemma_entry_map_update(self.entries@, i as int, key, value);
                }
                let mut entries = Vec::new();
                std::mem::swap(&mut entries, &mut self.entries);
                entries.set(i, (key, value));
                self.entries = entries;
            },
            None => {
                proof {
                    lemma_push_distinct(self.entries@, key, value);
                }
                let mut entries = Vec::new();
                std::mem::swap(&mut entries, &mut self.entries);
                entries.push((key, value));
                self.entries = entries;
            },
        }
    }

    /// Removes `key` and its value, if present.
    pub fn remove(&mut self, key: &str)
        ensures
            final(self)@ == old(self)@.remove(key@),
    {
        proof {
            use_type_invariant(&*self);
        }
        match self.position(key) {
            Some(i) => {
                proof {
                    lemma_entry_map_remove(self.entries@, i as int);
                }
                let mut entries = Vec::new();
                std::mem::swap(&mut entries, &mut self.entries);
                entries.remove(i);
                self.entries = entries;
            },
            None => {
                assert(self@.remove(key@) =~= self@);
            },
        }
    }

    /// Removes `key` and gives back its value, if present.
    pub fn take(&mut self, key: &str) -> (r: Option<V>)
        ensures
            match r {
                Some(v) => old(self)@.contains_key(key@) && v == old(self)@[key@],
                None => !old(self)@.contains_key(key@),
            },
            final(self)@ == old(self)@.remove(key@),
    {
        proof {
            use_type_invariant(&*self);
        }
        match self.position(key) {
            Some(i) => {
                proof {
                    lemma_entry_map_value(self.entries@, i as int);
                    lemma_entry_map_remove(self.entries@, i as int);
                }
                let mut entries = Vec::new();
                std::mem::swap(&mut entries, &mut self.entries);
                let (_, v) = entries.remove(i);
                self.entries = entries;
                Some(v)
            },
            None => {
                assert(self@.remove(key@) =~= self@);
                None
            },
        }
    }

    /// Adds every entry of `other`; its values win where both hold a key.
    pub fn extend(&mut self, other: StrMap<V>)
        ensures
            final(self)@ == old(self)@.union_prefer_right(other@),
    {
        proof {
            use_type_invariant(&other);
        }
        let StrMap { entries } = other;
        let ghost source = entries@;
        let mut entries = entries;
        let mut rest: Vec<(String, V)> = Vec::new();
        // Take the entries from the back so that each removal is cheap, then
        // insert them in their order.
        while entries.len() > 0
            invariant
                entries@ + rest@.reverse() == source,
            decreases entries.len(),
        {
            let e = entries.pop().unwrap();
            rest.push(e);
            assert(entries@ + rest@.reverse() =~= source);
        }
        assert(rest@ =~= source.subrange(0, source.len() as int).reverse());
        let ghost start = self@;
        assert(self@ =~= start.union_prefer_right(entry_map(source.subrange(0, 0))));
        while rest.len() > 0
            invariant
                rest@.len() <= source.len(),
                rest@ == source.subrange(source.len() - rest@.len(), source.len() as int).reverse(),
                self@ == start.union_prefer_right(
                    entry_map(source.subrange(0, source.len() - rest@.len())),
                ),
            decreases rest.len(),
        {
            let ghost k = source.len() - rest@.len();
            let e = rest.pop().unwrap();
            assert(e == source[k]);
            let ghost done = source.subrange(0, k + 1);
            assert(done.drop_last() =~= source.subrange(0, k));
            assert(rest@ =~= source.subrange(k + 1, source.len() as int).reverse());
            self.insert(e.0, e.1);
            assert(self@ =~= start.union_prefer_right(entry_map(done)));
        }
        assert(source.subrange(0, source.len() as int) =~= source);
    }

    /// The keys, each once.
    pub fn keys(&self) -> (r: Vec<String>)
        ensures
            views(r@).no_duplicates(),
            views(r@).to_set() == self@.dom(),
    {
        let entries = self.entries();
        let mut r: Vec<String> = Vec::new();
        let mut i: usize = 0;
        while i < entries.len()
            invariant
                i <= entries@.len(),
                distinct_keys(entries@),
                entry_map(entries@) == self@,
                views(r@) == entries@.subrange(0, i as int).map_values(|e: (String, V)| e.0@),
            decreases entries.len() - i,
        {
            let k = entries[i].0.clone();
            let ghost prev = r@;
            r.push(k);
            assert(views(r@) =~= views(prev).push(k@));
            assert(entries@.subrange(0, i + 1) =~= entries@.subrange(0, i as int).push(entries@[i as int]));
            i = i + 1;
            assert(views(r@) =~= entries@.subrange(0, i as int).map_values(|e: (String, V)| e.0@));
        }
        assert(entries@.subrange(0, entries@.len() as int) =~= entries@);
        assert(views(r@).no_duplicates()) by {
            assert forall|a: int, b: int| 0 <= a < views(r@).len() && 0 <= b < views(r@).len() && a != b implies views(r@)[a] != views(r@)[b] by {
                if a < b {
                    assert(entries@[a].0@ != entries@[b].0@);
                } else {
                    assert(entries@[b].0@ != entries@[a].0@);
                }
            }
        }
        assert(views(r@).to_set() =~= self@.dom()) by {
            assert forall|k: Seq<char>| views(r@).to_set().contains(k) <==> self@.dom().contains(k) by {
                lemma_entry_map_contains(entries@, k);
                if self@.dom().contains(k) {
                    let j = choose|j: int| 0 <= j < entries@.len() && entries@[j].0@ == k;
                    assert(views(r@)[j] == k);
                }
            }
        }
        r
    }

    /// Gives up the entries, in the order in which their keys first arrived.
    pub fn into_entries(self) -> (r: Vec<(String, V)>)
        ensures
            distinct_keys(r@),
            entry_map(r@) == self@,
    {
        proof {
            use_type_invariant(&self);
        }
        self.entries
    }

    /// The entries, in the order in which their keys first arrived.
    pub fn entries(&self) -> (r: &Vec<(String, V)>)
        ensures
            distinct_keys(r@),
            entry_map(r@) == self@,
    {
        proof {
            use_type_invariant(self);
        }
        &self.entries
    }
}

} // verus!
