use vstd::prelude::*;
use crate::text::{lemma_str_lt_order, str_less, str_lt};

verus! {

/// The map that a list of (key, value) entries denotes; a later entry for a
/// key replaces an earlier one.
pub open spec fn entries_map<V>(s: Seq<(String, V)>) -> Map<Seq<char>, V>
    decreases s.len(),
{
    if s.len() == 0 {
        Map::empty()
    } else {
        entries_map(s.drop_last()).insert(s.last().0@, s.last().1)
    }
}

/// The keys of a list of entries, in order.
pub open spec fn entry_keys<V>(s: Seq<(String, V)>) -> Seq<Seq<char>> {
    s.map_values(|e: (String, V)| e.0@)
}

/// No key occurs twice in the entries.
pub open spec fn unique_keys<V>(s: Seq<(String, V)>) -> bool {
    forall|i: int, j: int|
        0 <= i < s.len() && 0 <= j < s.len() && i != j ==> #[trigger] s[i].0@ != #[trigger] s[j].0@
}

/// Every entry's key is in the denoted map, bound to that entry's value.
pub proof fn lemma_entries_map_index<V>(s: Seq<(String, V)>, i: int)
    requires
        unique_keys(s),
        0 <= i < s.len(),
    ensures
        entries_map(s).contains_key(s[i].0@),
        entries_map(s)[s[i].0@] == s[i].1,
    decreases s.len(),
{
    if i < s.len() - 1 {
        lemma_entries_map_index(s.drop_last(), i);
    }
}

/// A key is in the denoted map exactly when some entry has it.
pub proof fn lemma_entries_map_dom<V>(s: Seq<(String, V)>, k: Seq<char>)
    ensures
        entries_map(s).contains_key(k) <==> exists|i: int| 0 <= i < s.len() && #[trigger] s[i].0@ == k,
    decreases s.len(),
{
    if s.len() > 0 {
        lemma_entries_map_dom(s.drop_last(), k);
        if entries_map(s).contains_key(k) && s.last().0@ != k {
            let i = choose|i: int| 0 <= i < s.len() - 1 && #[trigger] s.drop_last()[i].0@ == k;
            assert(s[i].0@ == k);
        }
        if exists|i: int| 0 <= i < s.len() && #[trigger] s[i].0@ == k {
            let i = choose|i: int| 0 <= i < s.len() && #[trigger] s[i].0@ == k;
            if i < s.len() - 1 {
                assert(s.drop_last()[i].0@ == k);
            }
        }
    }
}

/// Replacing the entry at `i` by one with the same key rebinds that key.
pub proof fn lemma_entries_map_update<V>(s: Seq<(String, V)>, i: int, e: (String, V))
    requires
        unique_keys(s),
        0 <= i < s.len(),
        s[i].0@ == e.0@,
    ensures
        entries_map(s.update(i, e)) == entries_map(s).insert(e.0@, e.1),
    decreases s.len(),
{
    let t = s.update(i, e);
    if i == s.len() - 1 {
        assert(t.drop_last() =~= s.drop_last());
        lemma_entries_map_absent(s.drop_last(), e.0@);
        assert(entries_map(t) =~= entries_map(s).insert(e.0@, e.1));
    } else {
        assert(t.drop_last() =~= s.drop_last().update(i, e));
        lemma_entries_map_update(s.drop_last(), i, e);
        assert(s.last().0@ != e.0@);
        assert(entries_map(t) =~= entries_map(s).insert(e.0@, e.1));
    }
}

/// The keys of the entries come in strictly ascending order.
pub open spec fn ascending_keys<V>(s: Seq<(String, V)>) -> bool {
    forall|i: int, j: int| 0 <= i < j < s.len() ==> str_lt(#[trigger] s[i].0@, #[trigger] s[j].0@)
}

/// Inserting an entry with a new key anywhere binds that key and leaves the
/// other keys alone.
pub proof fn lemma_entries_map_insert_at<V>(s: Seq<(String, V)>, p: int, e: (String, V))
    requires
        0 <= p <= s.len(),
        forall|j: int| 0 <= j < s.len() ==> #[trigger] s[j].0@ != e.0@,
    ensures
        entries_map(s.insert(p, e)) == entries_map(s).insert(e.0@, e.1),
    decreases s.len(),
{
    let t = s.insert(p, e);
    if p == s.len() {
        assert(t =~= s.push(e));
        assert(t.drop_last() =~= s);
    } else {
        assert(t.drop_last() =~= s.drop_last().insert(p, e));
        assert(t.last() == s.last());
        lemma_entries_map_insert_at(s.drop_last(), p, e);
        assert(s.last().0@ != e.0@);
        assert(entries_map(t) =~= entries_map(s).insert(e.0@, e.1));
    }
}

/// Dropping the last entry of a list with unique keys leaves its key unbound.
pub proof fn lemma_entries_map_absent<V>(s: Seq<(String, V)>, k: Seq<char>)
    requires
        forall|j: int| 0 <= j < s.len() ==> #[trigger] s[j].0@ != k,
    ensures
        !entries_map(s).contains_key(k),
{
    lemma_entries_map_dom(s, k);
}

/// A map from string keys to values that keeps its entries in ascending
/// key order, with each key at most once.
#[derive(Debug)]
pub struct StrMap<V> {
    entries: Vec<(String, V)>,
}

impl<V: Clone> Clone for StrMap<V> {
    /// A copy with the same keys; each value is a clone.
    fn clone(&self) -> (r: Self)
        ensures
            r.key_seq() == self.key_seq(),
            forall|i: int|
                0 <= i < r.spec_entries().len() ==> cloned::<V>(
                    self.spec_entries()[i].1,
                    #[trigger] r.spec_entries()[i].1,
                ),
    {
        proof {
            use_type_invariant(self);
        }
        let mut entries: Vec<(String, V)> = Vec::new();
        let mut i: usize = 0;
        while i < self.entries.len()
            invariant
                i <= self.entries@.len(),
                entries@.len() == i,
                unique_keys(self.entries@),
                ascending_keys(self.entries@),
                forall|j: int| 0 <= j < i ==> #[trigger] entries@[j].0@ == self.entries@[j].0@,
                forall|j: int| 0 <= j < i ==> cloned::<V>(self.entries@[j].1, #[trigger] entries@[j].1),
            decreases self.entries@.len() - i,
        {
            let k = self.entries[i].0.clone();
            let v = self.entries[i].1.clone();
            entries.push((k, v));
            i = i + 1;
        }
        proof {
            assert forall|a: int, b: int|
                0 <= a < entries@.len() && 0 <= b < entries@.len() && a != b implies
                #[trigger] entries@[a].0@ != #[trigger] entries@[b].0@ by {
                assert(self.entries@[a].0@ != self.entries@[b].0@);
            }
            assert forall|a: int, b: int| 0 <= a < b < entries@.len() implies str_lt(
                #[trigger] entries@[a].0@,
                #[trigger] entries@[b].0@,
            ) by {
                assert(str_lt(self.entries@[a].0@, self.entries@[b].0@));
            }
        }
        let r = StrMap { entries };
        proof {
            assert(entry_keys(r.entries@) =~= entry_keys(self.entries@));
        }
        r
    }
}

impl<V> View for StrMap<V> {
    type V = Map<Seq<char>, V>;

    open spec fn view(&self) -> Map<Seq<char>, V> {
        entries_map(self.spec_entries())
    }
}

impl<V> StrMap<V> {
    /// The entries, in ascending key order.
    pub closed spec fn spec_entries(&self) -> Seq<(String, V)> {
        self.entries@
    }

    /// No key is held twice, and the keys are in ascending order.
    #[verifier::type_invariant]
    pub closed spec fn wf(&self) -> bool {
        unique_keys(self.entries@) && ascending_keys(self.entries@)
    }

    /// The keys, in ascending order.
    pub open spec fn key_seq(&self) -> Seq<Seq<char>> {
        entry_keys(self.spec_entries())
    }

    /// A well-formed map binds each held key to its value, and nothing else.
    pub proof fn lemma_wf_view(&self)
        requires
            self.wf(),
        ensures
            self.key_seq().no_duplicates(),
            self.key_seq().len() == self.spec_entries().len(),
            forall|k: Seq<char>| #[trigger] self@.contains_key(k) <==> self.key_seq().contains(k),
            forall|i: int|
                0 <= i < self.spec_entries().len() ==> #[trigger] self@[self.spec_entries()[i].0@]
                    == self.spec_entries()[i].1,
            forall|i: int, j: int| 0 <= i < j < self.key_seq().len() ==> str_lt(#[trigger] self.key_seq()[i], #[trigger] self.key_seq()[j]),
    {
        let s = self.entries@;
        assert forall|i: int, j: int| 0 <= i < j < self.key_seq().len() implies str_lt(#[trigger] self.key_seq()[i], #[trigger] self.key_seq()[j]) by {
            assert(str_lt(s[i].0@, s[j].0@));
        }
        assert forall|k: Seq<char>| #[trigger] self@.contains_key(k) <==> self.key_seq().contains(k) by {
            lemma_entries_map_dom(s, k);
            if self.key_seq().contains(k) {
                let i = choose|i: int| 0 <= i < self.key_seq().len() && self.key_seq()[i] == k;
                assert(s[i].0@ == k);
            }
            if self@.contains_key(k) {
                let i = choose|i: int| 0 <= i < s.len() && #[trigger] s[i].0@ == k;
                assert(self.key_seq()[i] == k);
            }
        }
        assert forall|i: int| 0 <= i < s.len() implies #[trigger] self@[s[i].0@] == s[i].1 by {
            lemma_entries_map_index(s, i);
        }
        assert forall|i: int, j: int|
            0 <= i < self.key_seq().len() && 0 <= j < self.key_seq().len() && i != j implies
            self.key_seq()[i] != self.key_seq()[j] by {
            assert(s[i].0@ != s[j].0@);
        }
    }

    /// An empty map.
    pub fn new() -> (m: Self)
        ensures
            m@ == Map::<Seq<char>, V>::empty(),
            m.spec_entries().len() == 0,
    {
        StrMap { entries: Vec::new() }
    }

    /// The number of keys held.
    pub fn len(&self) -> (n: usize)
        ensures
            n == self@.dom().len(),
            n == self.spec_entries().len(),
    {
        proof {
            use_type_invariant(self);
            self.lemma_wf_view();
            self.key_seq().unique_seq_to_set();
            assert(self@.dom() =~= self.key_seq().to_set());
        }
        self.entries.len()
    }

    /// The position of `key` among the entries, if it is held.
    fn find(&self, key: &str) -> (r: Option<usize>)
        ensures
            match r {
                Some(i) => i < self.entries@.len() && self.entries@[i as int].0@ == key@,
                None => forall|j: int| 0 <= j < self.entries@.len() ==> #[trigger] self.entries@[j].0@ != key@,
            },
    {
        let mut i: usize = 0;
        while i < self.entries.len()
            invariant
                i <= self.entries@.len(),
                forall|j: int| 0 <= j < i ==> #[trigger] self.entries@[j].0@ != key@,
            decreases self.entries@.len() - i,
        {
            if self.entries[i].0.as_str().eq(key) {
                return Some(i);
            }
            i = i + 1;
        }
        None
    }

    /// Whether `key` is held.
    pub fn contains_key(&self, key: &str) -> (r: bool)
        ensures
            r == self@.contains_key(key@),
    {
        let f = self.find(key);
        proof {
            lemma_entries_map_dom(self.entries@, key@);
        }
        f.is_some()
    }

    /// The value bound to `key`, if any.
    pub fn get(&self, key: &str) -> (r: Option<&V>)
        ensures
            r == (if self@.contains_key(key@) { Some(&self@[key@]) } else { None }),
    {
        match self.find(key) {
            Some(i) => {
                proof {
                    use_type_invariant(self);
                    lemma_entries_map_index(self.entries@, i as int);
                }
                Some(&self.entries[i].1)
            },
            None => {
                proof {
                    lemma_entries_map_dom(self.entries@, key@);
                }
                None
            },
        }
    }

    /// The position of the first entry whose key does not come before `key`.
    fn slot(&self, key: &str) -> (r: usize)
        ensures
            r <= self.entries@.len(),
            forall|j: int| 0 <= j < r ==> str_lt(#[trigger] self.entries@[j].0@, key@),
            r < self.entries@.len() ==> !str_lt(self.entries@[r as int].0@, key@),
    {
        let mut i: usize = 0;
        while i < self.entries.len()
            invariant
                i <= self.entries@.len(),
                forall|j: int| 0 <= j < i ==> str_lt(#[trigger] self.entries@[j].0@, key@),
            decreases self.entries@.len() - i,
        {
            if !str_less(self.entries[i].0.as_str(), key) {
                return i;
            }
            i = i + 1;
        }
        i
    }

    /// Bind `key` to `value`, replacing the value of a key already held; a new
    /// key goes in its place in the key order.
    pub fn insert(&mut self, key: String, value: V)
        ensures
            final(self)@ == old(self)@.insert(key@, value),
            old(self)@.contains_key(key@) ==> final(self).key_seq() == old(self).key_seq(),
            !old(self)@.contains_key(key@) ==> exists|p: int|
                0 <= p <= old(self).key_seq().len() && final(self).key_seq() == old(self).key_seq().insert(p, key@),
    {
        proof {
            use_type_invariant(&*self);
            lemma_entries_map_dom(self.entries@, key@);
        }
        match self.find(key.as_str()) {
            Some(i) => {
                let ghost s = self.entries@;
                let ghost k = key@;
                proof {
                    lemma_entries_map_update(s, i as int, (key, value));
                }
                let mut entries: Vec<(String, V)> = Vec::new();
                std::mem::swap(&mut entries, &mut self.entries);
                entries.set(i, (key, value));
                proof {
                    assert(entries@ == s.update(i as int, (key, value)));
                    assert forall|a: int, b: int|
                        0 <= a < entries@.len() && 0 <= b < entries@.len() && a != b implies
                        #[trigger] entries@[a].0@ != #[trigger] entries@[b].0@ by {
                        assert(s[a].0@ != s[b].0@);
                    }
                    assert forall|a: int, b: int| 0 <= a < b < entries@.len() implies str_lt(
                        #[trigger] entries@[a].0@,
                        #[trigger] entries@[b].0@,
                    ) by {
                        assert(str_lt(s[a].0@, s[b].0@));
                    }
                    assert(entry_keys(entries@) =~= entry_keys(s));
                }
                self.entries = entries;
            },
            None => {
                let ghost s = self.entries@;
                let p = self.slot(key.as_str());
                let ghost k = key@;
                proof {
                    lemma_entries_map_insert_at(s, p as int, (key, value));
                    assert forall|j: int| p <= j < s.len() implies str_lt(k, #[trigger] s[j].0@) by {
                        lemma_str_lt_order(s[p as int].0@, k, s[j].0@);
                        lemma_str_lt_order(k, s[p as int].0@, s[j].0@);
                        if j > p {
                            assert(str_lt(s[p as int].0@, s[j].0@));
                        }
                    }
                }
                let mut entries: Vec<(String, V)> = Vec::new();
                std::mem::swap(&mut entries, &mut self.entries);
                entries.insert(p, (key, value));
                proof {
                    let t = entries@;
                    assert(t == s.insert(p as int, (key, value)));
                    assert forall|a: int, b: int| 0 <= a < b < t.len() implies str_lt(
                        #[trigger] t[a].0@,
                        #[trigger] t[b].0@,
                    ) by {
                        if b < p {
                            assert(str_lt(s[a].0@, s[b].0@));
                        } else if b == p {
                            assert(t[b].0@ == k);
                            assert(t[a] == s[a]);
                        } else if a < p {
                            assert(t[b] == s[b - 1]);
                            assert(t[a] == s[a]);
                            lemma_str_lt_order(s[a].0@, k, s[b - 1].0@);
                        } else if a == p {
                            assert(t[b] == s[b - 1]);
                        } else {
                            assert(t[a] == s[a - 1]);
                            assert(t[b] == s[b - 1]);
                            assert(str_lt(s[a - 1].0@, s[b - 1].0@));
                        }
                    }
                    assert forall|a: int, b: int|
                        0 <= a < t.len() && 0 <= b < t.len() && a != b implies
                        #[trigger] t[a].0@ != #[trigger] t[b].0@ by {
                        if a < b {
                            assert(str_lt(t[a].0@, t[b].0@));
                            lemma_str_lt_order(t[a].0@, t[a].0@, t[a].0@);
                        } else {
                            assert(str_lt(t[b].0@, t[a].0@));
                            lemma_str_lt_order(t[b].0@, t[b].0@, t[b].0@);
                        }
                    }
                    assert(entry_keys(t) =~= entry_keys(s).insert(p as int, k));
                }
                self.entries = entries;
                proof {
                    assert(self.key_seq() == old(self).key_seq().insert(p as int, k));
                }
            },
        }
    }

    /// The entries, in ascending key order.
    pub fn entries(&self) -> (r: &Vec<(String, V)>)
        ensures
            r@ == self.spec_entries(),
    {
        &self.entries
    }
}

} // verus!

verus! {

/// The contents of a string-valued map, values taken as character sequences.
pub open spec fn str_values(m: Map<Seq<char>, String>) -> Map<Seq<char>, Seq<char>> {
    m.map_values(|v: String| v@)
}

/// Binding a key then taking views is taking views then binding.
pub proof fn lemma_str_values_insert(m: Map<Seq<char>, String>, k: Seq<char>, v: String)
    ensures
        str_values(m.insert(k, v)) == str_values(m).insert(k, v@),
{
    assert(str_values(m.insert(k, v)) =~= str_values(m).insert(k, v@));
}

/// The empty map has no entries after taking views.
pub proof fn lemma_str_values_empty()
    ensures
        str_values(Map::<Seq<char>, String>::empty()) == Map::<Seq<char>, Seq<char>>::empty(),
{
    assert(str_values(Map::<Seq<char>, String>::empty()) =~= Map::<Seq<char>, Seq<char>>::empty());
}

/// The views of a list of strings.
pub open spec fn str_views(v: Seq<String>) -> Seq<Seq<char>> {
    v.map_values(|s: String| s@)
}

} // verus!
