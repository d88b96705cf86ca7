//! A map from text keys to values, kept as a list of entries in insertion order
//! with no key twice. It stands where a `HashMap<String, V>` would: its view is a
//! `Map`, and its entries can be walked in a fixed order.
use vstd::prelude::*;
use crate::text::str_equal;

verus! {

/// The map that a list of entries describes (a later entry wins for equal keys;
/// a `KeyedList` never holds two).
pub open spec fn entries_map<V>(s: Seq<(String, V)>) -> Map<Seq<char>, V>
    decreases s.len(),
{
    if s.len() == 0 {
        Map::empty()
    } else {
        entries_map(s.drop_last()).insert(s.last().0@, s.last().1)
    }
}

/// No key occurs twice.
pub open spec fn keys_distinct<V>(s: Seq<(String, V)>) -> bool {
    forall|i: int, j: int| 0 <= i < s.len() && 0 <= j < s.len() && i != j ==> #[trigger] s[i].0@ != #[trigger] s[j].0@
}

/// Entries describe their map: a key is present iff some entry has it, that
/// entry's value is the key's value, and there are as many keys as entries.
pub proof fn lemma_entries_map<V>(s: Seq<(String, V)>)
    requires
        keys_distinct(s),
    ensures
        entries_map(s).dom().finite(),
        entries_map(s).dom().len() == s.len(),
        forall|k: Seq<char>| #[trigger] entries_map(s).contains_key(k) <==> exists|i: int| 0 <= i < s.len() && s[i].0@ == k,
        forall|i: int| 0 <= i < s.len() ==> #[trigger] entries_map(s)[s[i].0@] == s[i].1,
    decreases s.len(),
{
    if s.len() > 0 {
        let t = s.drop_last();
        assert(keys_distinct(t)) by {
            assert forall|i: int, j: int| 0 <= i < t.len() && 0 <= j < t.len() && i != j implies #[trigger] t[i].0@ != #[trigger] t[j].0@ by {
                assert(t[i] == s[i] && t[j] == s[j]);
            }
        }
        lemma_entries_map(t);
        let e = s.last();
        assert(!entries_map(t).contains_key(e.0@)) by {
            if entries_map(t).contains_key(e.0@) {
                let i = choose|i: int| 0 <= i < t.len() && t[i].0@ == e.0@;
                assert(s[i] == t[i]);
                assert(s[s.len() - 1] == e);
            }
        }
        assert forall|k: Seq<char>| #[trigger] entries_map(s).contains_key(k) <==> exists|i: int| 0 <= i < s.len() && s[i].0@ == k by {
            if entries_map(s).contains_key(k) {
                if k == e.0@ {
                    assert(s[s.len() - 1].0@ == k);
                } else {
                    let i = choose|i: int| 0 <= i < t.len() && t[i].0@ == k;
                    assert(s[i] == t[i]);
                }
            }
            if exists|i: int| 0 <= i < s.len() && s[i].0@ == k {
                let i = choose|i: int| 0 <= i < s.len() && s[i].0@ == k;
                if i < s.len() - 1 {
                    assert(t[i] == s[i]);
                }
            }
        }
        assert forall|i: int| 0 <= i < s.len() implies #[trigger] entries_map(s)[s[i].0@] == s[i].1 by {
            if i < s.len() - 1 {
                assert(t[i] == s[i]);
                assert(s[i].0@ != s[s.len() - 1].0@);
            }
        }
    }
}

/// Removing the entry at `i` removes its key from the map.
pub proof fn lemma_entries_map_remove<V>(s: Seq<(String, V)>, i: int)
    requires
        keys_distinct(s),
        0 <= i < s.len(),
    ensures
        keys_distinct(s.remove(i)),
        entries_map(s.remove(i)) == entries_map(s).remove(s[i].0@),
{
    let t = s.remove(i);
    assert forall|a: int, b: int| 0 <= a < t.len() && 0 <= b < t.len() && a != b implies #[trigger] t[a].0@ != #[trigger] t[b].0@ by {
        let a2 = if a < i { a } else { a + 1 };
        let b2 = if b < i { b } else { b + 1 };
        assert(t[a] == s[a2] && t[b] == s[b2]);
    }
    lemma_entries_map(s);
    lemma_entries_map(t);
    let m = entries_map(s).remove(s[i].0@);
    assert forall|k: Seq<char>| entries_map(t).contains_key(k) <==> m.contains_key(k) by {
        if entries_map(t).contains_key(k) {
            let j = choose|j: int| 0 <= j < t.len() && t[j].0@ == k;
            let j2 = if j < i { j } else { j + 1 };
            assert(t[j] == s[j2]);
            assert(s[j2].0@ != s[i].0@);
        }
        if m.contains_key(k) {
            let j = choose|j: int| 0 <= j < s.len() && s[j].0@ == k;
            assert(j != i);
            let j2 = if j < i { j } else { j - 1 };
            assert(t[j2] == s[j]);
        }
    }
    assert forall|k: Seq<char>| entries_map(t).contains_key(k) implies entries_map(t)[k] == m[k] by {
        let j = choose|j: int| 0 <= j < t.len() && t[j].0@ == k;
        let j2 = if j < i { j } else { j + 1 };
        assert(t[j] == s[j2]);
        assert(entries_map(t)[t[j].0@] == t[j].1);
        assert(entries_map(s)[s[j2].0@] == s[j2].1);
    }
    assert(entries_map(t) =~= m);
}

/// Changing the value of the entry at `i` changes the value of its key.
pub proof fn lemma_entries_map_update<V>(s: Seq<(String, V)>, i: int, x: V)
    requires
        keys_distinct(s),
        0 <= i < s.len(),
    ensures
        keys_distinct(s.update(i, (s[i].0, x))),
        entries_map(s.update(i, (s[i].0, x))) == entries_map(s).insert(s[i].0@, x),
{
    let t = s.update(i, (s[i].0, x));
    assert forall|a: int, b: int| 0 <= a < t.len() && 0 <= b < t.len() && a != b implies #[trigger] t[a].0@ != #[trigger] t[b].0@ by {
        assert(t[a].0 == s[a].0 && t[b].0 == s[b].0);
    }
    lemma_entries_map_remove(s, i);
    assert(t.remove(i) =~= s.remove(i));
    lemma_entries_map_remove(t, i);
    lemma_entries_map_insert(t.remove(i), i, (s[i].0, x));
    assert(t.remove(i).insert(i, (s[i].0, x)) =~= t);
    assert(entries_map(t) =~= entries_map(s).insert(s[i].0@, x));
}

/// Inserting an entry with a new key at `i` adds the key to the map.
pub proof fn lemma_entries_map_insert<V>(s: Seq<(String, V)>, i: int, e: (String, V))
    requires
        keys_distinct(s),
        0 <= i <= s.len(),
        !entries_map(s).contains_key(e.0@),
    ensures
        keys_distinct(s.insert(i, e)),
        entries_map(s.insert(i, e)) == entries_map(s).insert(e.0@, e.1),
{
    let t = s.insert(i, e);
    lemma_entries_map(s);
    assert forall|a: int, b: int| 0 <= a < t.len() && 0 <= b < t.len() && a != b implies #[trigger] t[a].0@ != #[trigger] t[b].0@ by {
        if a != i && b != i {
            let a2 = if a < i { a } else { a - 1 };
            let b2 = if b < i { b } else { b - 1 };
            assert(t[a] == s[a2] && t[b] == s[b2]);
        } else if a == i {
            let b2 = if b < i { b } else { b - 1 };
            assert(t[b] == s[b2]);
        } else {
            let a2 = if a < i { a } else { a - 1 };
            assert(t[a] == s[a2]);
        }
    }
    lemma_entries_map(t);
    let m = entries_map(s).insert(e.0@, e.1);
    assert forall|k: Seq<char>| entries_map(t).contains_key(k) <==> m.contains_key(k) by {
        if entries_map(t).contains_key(k) {
            let j = choose|j: int| 0 <= j < t.len() && t[j].0@ == k;
            if j != i {
                let j2 = if j < i { j } else { j - 1 };
                assert(t[j] == s[j2]);
            }
        }
        if m.contains_key(k) {
            if k == e.0@ {
                assert(t[i] == e);
            } else {
                let j = choose|j: int| 0 <= j < s.len() && s[j].0@ == k;
                let j2 = if j < i { j } else { j + 1 };
                assert(t[j2] == s[j]);
            }
        }
    }
    assert forall|k: Seq<char>| entries_map(t).contains_key(k) implies entries_map(t)[k] == m[k] by {
        let j = choose|j: int| 0 <= j < t.len() && t[j].0@ == k;
        assert(entries_map(t)[t[j].0@] == t[j].1);
        if j == i {
            assert(t[j] == e);
        } else {
            let j2 = if j < i { j } else { j - 1 };
            assert(t[j] == s[j2]);
            assert(entries_map(s)[s[j2].0@] == s[j2].1);
        }
    }
    assert(entries_map(t) =~= m);
}

/// A map from text keys to values that keeps its entries in insertion order.
pub struct KeyedList<V> {
    entries: Vec<(String, V)>,
}

impl<V> View for KeyedList<V> {
    type V = Map<Seq<char>, V>;

    open spec fn view(&self) -> Map<Seq<char>, V> {
        entries_map(self.entries())
    }
}

impl<V> KeyedList<V> {
    /// No key occurs twice; every operation keeps this.
    pub closed spec fn wf(self) -> bool {
        keys_distinct(self.entries@)
    }

    /// The entries, in insertion order.
    pub closed spec fn entries(self) -> Seq<(String, V)> {
        self.entries@
    }

    /// An empty map.
    pub fn new() -> (r: Self)
        ensures
            r@ == Map::<Seq<char>, V>::empty(),
            r.entries().len() == 0,
            r.wf(),
    {
        KeyedList { entries: Vec::new() }
    }

    /// The number of entries; also what every `KeyedList` satisfies: distinct
    /// keys, and a map that its entries describe.
    pub fn len(&self) -> (r: usize)
        requires
            self.wf(),
        ensures
            r == self.entries().len(),
            r == self@.len(),
            keys_distinct(self.entries()),
            self@.dom().finite(),
            forall|k: Seq<char>| #[trigger] self@.contains_key(k) <==> exists|i: int| 0 <= i < self.entries().len() && self.entries()[i].0@ == k,
            forall|i: int| 0 <= i < self.entries().len() ==> #[trigger] self@[self.entries()[i].0@] == self.entries()[i].1,
    {
        proof { lemma_entries_map(self.entries@); }
        self.entries.len()
    }

    /// The key of the entry at position `i`.
    pub fn key_at(&self, i: usize) -> (r: &String)
        requires
            self.wf(),
            i < self.entries().len(),
        ensures
            *r == self.entries()[i as int].0,
    {
        &self.entries[i].0
    }

    /// The value of the entry at position `i`.
    pub fn value_at(&self, i: usize) -> (r: &V)
        requires
            self.wf(),
            i < self.entries().len(),
        ensures
            *r == self.entries()[i as int].1,
    {
        &self.entries[i].1
    }

    /// The position of the entry with the given key.
    pub fn index_of(&self, key: &str) -> (r: Option<usize>)
        requires
            self.wf(),
        ensures
            match r {
                Some(i) => i < self.entries().len() && self.entries()[i as int].0@ == key@
                    && self@.contains_key(key@) && self@[key@] == self.entries()[i as int].1,
                None => !self@.contains_key(key@),
            },
    {
        proof { lemma_entries_map(self.entries@); }
        let mut i: usize = 0;
        while i < self.entries.len()
            invariant
                i <= self.entries@.len(),
                keys_distinct(self.entries@),
                forall|j: int| 0 <= j < i ==> self.entries@[j].0@ != key@,
            decreases self.entries.len() - i,
        {
            if str_equal(self.entries[i].0.as_str(), key) {
                proof { lemma_entries_map(self.entries@); }
                return Some(i);
            }
            i = i + 1;
        }
        None
    }

    /// Whether the key is present.
    pub fn contains_key(&self, key: &str) -> (r: bool)
        requires
            self.wf(),
        ensures
            r == self@.contains_key(key@),
    {
        proof { lemma_entries_map(self.entries@); }
        match self.index_of(key) {
            Some(_) => true,
            None => false,
        }
    }

    /// The value of the key, if present.
    pub fn get(&self, key: &str) -> (r: Option<&V>)
        requires
            self.wf(),
        ensures
            match r {
                Some(v) => self@.contains_key(key@) && *v == self@[key@],
                None => !self@.contains_key(key@),
            },
    {
        proof { lemma_entries_map(self.entries@); }
        match self.index_of(key) {
            Some(i) => Some(&self.entries[i].1),
            None => None,
        }
    }

    /// The value of the key, if present, to be changed in place.
    pub fn get_mut(&mut self, key: &str) -> (r: Option<&mut V>)
        requires
            old(self).wf(),
        ensures
            final(self).wf(),
            match r {
                Some(v) => old(self)@.contains_key(key@) && *v == old(self)@[key@] && final(self)@ == old(
                    self,
                )@.insert(key@, *final(v)),
                None => !old(self)@.contains_key(key@) && final(self)@ == old(self)@,
            },
    {
        proof { lemma_entries_map(self.entries@); }
        match self.index_of(key) {
            Some(i) => {
                let ghost e = self.entries@;
                assert forall|x: V| #[trigger] entries_map(e.update(i as int, (e[i as int].0, x))) == entries_map(e).insert(e[i as int].0@, x)
                    && keys_distinct(e.update(i as int, (e[i as int].0, x))) by {
                    lemma_entries_map_update(e, i as int, x);
                }
                Some(&mut self.entries[i].1)
            },
            None => None,
        }
    }

    /// Sets the value of a key; a present key keeps its position. Returns the
    /// value it replaced.
    pub fn insert(&mut self, key: String, value: V) -> (r: Option<V>)
        requires
            old(self).wf(),
        ensures
            final(self).wf(),
            final(self)@ == old(self)@.insert(key@, value),
            match r {
                Some(v) => old(self)@.contains_key(key@) && v == old(self)@[key@] && exists|i: int|
                    0 <= i < old(self).entries().len() && old(self).entries()[i].0@ == key@ && #[trigger] old(self).entries().update(
                        i,
                        (key, value),
                    ) == final(self).entries(),
                None => !old(self)@.contains_key(key@) && final(self).entries() == old(self).entries().push(
                    (key, value),
                ),
            },
    {
        proof { lemma_entries_map(self.entries@); }
        match self.index_of(key.as_str()) {
            Some(i) => {
                let ghost e = self.entries@;
                let (old_key, old_value) = self.remove_at(i);
                self.insert_at(i, key, value);
                assert(e.update(i as int, (key, value)) =~= self.entries@);
                Some(old_value)
            },
            None => {
                let n = self.entries.len();
                self.insert_at(n, key, value);
                None
            },
        }
    }

    /// Removes the entry at position `i` and returns it.
    pub fn remove_at(&mut self, i: usize) -> (r: (String, V))
        requires
            old(self).wf(),
            i < old(self).entries().len(),
        ensures
            final(self).wf(),
            r == old(self).entries()[i as int],
            final(self).entries() == old(self).entries().remove(i as int),
            final(self)@ == old(self)@.remove(r.0@),
            old(self)@.contains_key(r.0@),
            old(self)@[r.0@] == r.1,
    {
        proof {
            lemma_entries_map(self.entries@);
            lemma_entries_map_remove(self.entries@, i as int);
        }
        let mut v: Vec<(String, V)> = Vec::new();
        std::mem::swap(&mut v, &mut self.entries);
        let r = v.remove(i);
        self.entries = v;
        r
    }

    /// Puts an entry with a key that is not present at position `i`.
    pub fn insert_at(&mut self, i: usize, key: String, value: V)
        requires
            old(self).wf(),
            i <= old(self).entries().len(),
            !old(self)@.contains_key(key@),
        ensures
            final(self).wf(),
            final(self).entries() == old(self).entries().insert(i as int, (key, value)),
            final(self)@ == old(self)@.insert(key@, value),
    {
        proof {
            lemma_entries_map(self.entries@);
            lemma_entries_map_insert(self.entries@, i as int, (key, value));
        }
        let mut v: Vec<(String, V)> = Vec::new();
        std::mem::swap(&mut v, &mut self.entries);
        v.insert(i, (key, value));
        self.entries = v;
    }

    /// Removes a key; returns its value.
    pub fn remove(&mut self, key: &str) -> (r: Option<V>)
        requires
            old(self).wf(),
        ensures
            final(self).wf(),
            final(self)@ == old(self)@.remove(key@),
            match r {
                Some(v) => old(self)@.contains_key(key@) && v == old(self)@[key@],
                None => !old(self)@.contains_key(key@) && final(self).entries() == old(self).entries(),
            },
    {
        proof { lemma_entries_map(self.entries@); }
        match self.index_of(key) {
            Some(i) => {
                let (_k, v) = self.remove_at(i);
                Some(v)
            },
            None => {
                assert(old(self)@.remove(key@) =~= old(self)@);
                None
            },
        }
    }

    /// What every well-formed `KeyedList` satisfies: distinct keys, and a map with
    /// one key per entry.
    pub proof fn lemma_wf(self)
        requires
            self.wf(),
        ensures
            keys_distinct(self.entries()),
            self@.dom().finite(),
            self@.len() == self.entries().len(),
    {
        lemma_entries_map(self.entries@);
    }

    /// The entries, in insertion order.
    pub fn as_slice(&self) -> (r: &[(String, V)])
        requires
            self.wf(),
        ensures
            r@ == self.entries(),
    {
        self.entries.as_slice()
    }

    /// Every key, in entry order.
    pub fn keys(&self) -> (r: Vec<String>)
        requires
            self.wf(),
        ensures
            strings_distinct(r@),
            forall|k: Seq<char>| #[trigger] has_string(r@, k) <==> self@.contains_key(k),
    {
        let n = self.len();
        let mut mask: Vec<bool> = Vec::new();
        let mut i: usize = 0;
        while i < n
            invariant
                n == self.entries().len(),
                i <= n,
                mask@.len() == i,
                forall|j: int| 0 <= j < i ==> mask@[j],
            decreases n - i,
        {
            mask.push(true);
            i = i + 1;
        }
        let r = self.select_keys(&mask);
        assert forall|k: Seq<char>| #[trigger] has_string(r@, k) <==> self@.contains_key(k) by {
            assert(has_string(r@, k) <==> selected_key(self.entries(), mask@, k));
            if self@.contains_key(k) {
                let m = choose|m: int| 0 <= m < self.entries().len() && self.entries()[m].0@ == k;
                assert(mask@[m]);
            }
        }
        r
    }

    /// References to the keys of the entries that `mask` selects (the entry at position `i` when
    /// `mask[i]` holds), in entry order; no key twice.
    pub fn select_key_refs(&self, mask: &Vec<bool>) -> (r: Vec<&String>)
        requires
            self.wf(),
            mask@.len() == self.entries().len(),
        ensures
            strings_distinct(ref_texts(r@)),
            forall|k: Seq<char>| #![trigger has_string(ref_texts(r@), k)] #![trigger selected_key(self.entries(), mask@, k)]
                has_string(ref_texts(r@), k) <==> selected_key(self.entries(), mask@, k),
    {
        let mut r: Vec<&String> = Vec::new();
        let mut i: usize = 0;
        while i < self.entries.len()
            invariant
                i <= self.entries@.len(),
                mask@.len() == self.entries@.len(),
                keys_distinct(self.entries@),
                strings_distinct(ref_texts(r@)),
                forall|k: Seq<char>| #![trigger has_string(ref_texts(r@), k)] #![trigger selected_key(self.entries@.take(i as int), mask@, k)]
                    has_string(ref_texts(r@), k) <==> selected_key(self.entries@.take(i as int), mask@, k),
            decreases self.entries.len() - i,
        {
            let ghost before = ref_texts(r@);
            let ghost e = self.entries@;
            assert forall|k: Seq<char>| selected_key(e.take(i + 1), mask@, k) <==> (selected_key(e.take(i as int), mask@, k) || (e[i as int].0@ == k && mask@[i as int])) by {
                if selected_key(e.take(i + 1), mask@, k) {
                    let m = choose|m: int| 0 <= m < e.take(i + 1).len() && e.take(i + 1)[m].0@ == k && mask@[m];
                    if m < i {
                        assert(e.take(i as int)[m] == e[m]);
                    }
                }
                if selected_key(e.take(i as int), mask@, k) {
                    let m = choose|m: int| 0 <= m < e.take(i as int).len() && e.take(i as int)[m].0@ == k && mask@[m];
                    assert(e.take(i + 1)[m] == e[m]);
                }
                if e[i as int].0@ == k && mask@[i as int] {
                    assert(e.take(i + 1)[i as int] == e[i as int]);
                }
            }
            if mask[i] {
                let k = &self.entries[i].0;
                assert forall|j: int| 0 <= j < before.len() implies before[j]@ != k@ by {
                    assert(has_string(before, before[j]@));
                    let m = choose|m: int| 0 <= m < e.take(i as int).len() && e.take(i as int)[m].0@ == before[j]@ && mask@[m];
                    assert(e.take(i as int)[m] == e[m]);
                    assert(e[m].0@ != e[i as int].0@);
                }
                let ghost rb = r@;
                r.push(k);
                assert(ref_texts(r@) =~= ref_texts(rb).push(*k));
                assert forall|kk: Seq<char>| has_string(ref_texts(r@), kk) <==> has_string(before, kk) || kk == k@ by {
                    if has_string(ref_texts(r@), kk) {
                        let j = choose|j: int| 0 <= j < ref_texts(r@).len() && ref_texts(r@)[j]@ == kk;
                        if j < before.len() {
                            assert(before[j] == ref_texts(r@)[j]);
                        }
                    }
                    if has_string(before, kk) {
                        let j = choose|j: int| 0 <= j < before.len() && before[j]@ == kk;
                        assert(ref_texts(r@)[j] == before[j]);
                    }
                    if kk == k@ {
                        assert(ref_texts(r@)[before.len() as int]@ == kk);
                    }
                }
            }
            assert forall|kk: Seq<char>| has_string(ref_texts(r@), kk) <==> selected_key(e.take(i + 1), mask@, kk) by {
                assert(has_string(before, kk) <==> selected_key(e.take(i as int), mask@, kk));
                if !mask@[i as int] {
                    assert(ref_texts(r@) == before);
                }
            }
            i = i + 1;
        }
        assert(self.entries@.take(i as int) =~= self.entries@);
        r
    }

    /// The keys of the entries that `mask` selects (the entry at position `i` when
    /// `mask[i]` holds), in entry order; no key twice.
    pub fn select_keys(&self, mask: &Vec<bool>) -> (r: Vec<String>)
        requires
            self.wf(),
            mask@.len() == self.entries().len(),
        ensures
            strings_distinct(r@),
            forall|k: Seq<char>| #![trigger has_string(r@, k)] #![trigger selected_key(self.entries(), mask@, k)]
                has_string(r@, k) <==> selected_key(self.entries(), mask@, k),
    {
        let refs = self.select_key_refs(mask);
        let r = owned_strings(&refs);
        assert(r@ =~= ref_texts(refs@));
        r
    }
}

/// `k` is the text of one of the strings.
pub open spec fn has_string(s: Seq<String>, k: Seq<char>) -> bool {
    exists|j: int| 0 <= j < s.len() && s[j]@ == k
}

/// No text occurs twice.
pub open spec fn strings_distinct(s: Seq<String>) -> bool {
    forall|a: int, b: int| 0 <= a < s.len() && 0 <= b < s.len() && a != b ==> #[trigger] s[a]@ != #[trigger] s[b]@
}

/// The strings that a list of references points at.
pub open spec fn ref_texts(s: Seq<&String>) -> Seq<String> {
    s.map_values(|x: &String| *x)
}

/// Copies of the strings that the references point at.
pub fn owned_strings(v: &Vec<&String>) -> (r: Vec<String>)
    ensures
        r@ == ref_texts(v@),
{
    let mut r: Vec<String> = Vec::new();
    let mut i: usize = 0;
    while i < v.len()
        invariant
            i <= v@.len(),
            r@ == ref_texts(v@.take(i as int)),
        decreases v.len() - i,
    {
        r.push(v[i].clone());
        i = i + 1;
        assert(ref_texts(v@.take(i as int)) =~= ref_texts(v@.take((i - 1) as int)).push(*v@[i - 1]));
    }
    assert(v@.take(i as int) =~= v@);
    r
}

/// Holds of a string whose text is not `id`.
pub open spec fn other_text(id: Seq<char>) -> spec_fn(String) -> bool {
    |x: String| x@ != id
}

/// The strings other than those with the text `id`.
pub open spec fn without_text(s: Seq<String>, id: Seq<char>) -> Seq<String> {
    s.filter(other_text(id))
}

/// Whether one of the strings has the text of `s`.
pub fn contains_string(v: &Vec<String>, s: &str) -> (r: bool)
    ensures
        r == has_string(v@, s@),
{
    let mut i: usize = 0;
    while i < v.len()
        invariant
            i <= v@.len(),
            forall|j: int| 0 <= j < i ==> v@[j]@ != s@,
        decreases v.len() - i,
    {
        if str_equal(v[i].as_str(), s) {
            return true;
        }
        i = i + 1;
    }
    false
}

/// The strings other than those with the text of `s`, in order.
pub fn without_string(v: &Vec<String>, s: &str) -> (r: Vec<String>)
    ensures
        r@ == without_text(v@, s@),
{
    let ghost p = other_text(s@);
    let mut r: Vec<String> = Vec::new();
    let mut i: usize = 0;
    while i < v.len()
        invariant
            i <= v@.len(),
            p == other_text(s@),
            r@ == v@.take(i as int).filter(p),
        decreases v.len() - i,
    {
        proof { crate::seqs::lemma_filter_step(v@, p, i as int); }
        if !str_equal(v[i].as_str(), s) {
            r.push(v[i].clone());
        }
        i = i + 1;
    }
    assert(v@.take(i as int) =~= v@);
    r
}

/// Filtering out a text that does not occur leaves the strings as they are, and
/// filtering out one that does shortens them.
pub proof fn lemma_without_string_len(v: Seq<String>, s: Seq<char>)
    ensures
        has_string(v, s) <==> without_text(v, s).len() < v.len(),
        !has_string(v, s) ==> without_text(v, s) == v,
    decreases v.len(),
{
    let p = other_text(s);
    if v.len() > 0 {
        let t = v.drop_last();
        lemma_without_string_len(t, s);
        assert(v =~= t.push(v.last()));
        t.lemma_filter_push(v.last(), p);
        t.lemma_filter_len(p);
        assert(has_string(v, s) <==> has_string(t, s) || v.last()@ == s) by {
            if has_string(v, s) {
                let j = choose|j: int| 0 <= j < v.len() && v[j]@ == s;
                if j < t.len() {
                    assert(t[j] == v[j]);
                }
            }
            if has_string(t, s) {
                let j = choose|j: int| 0 <= j < t.len() && t[j]@ == s;
                assert(v[j] == t[j]);
            }
        }
    } else {
        assert(v.filter(p) =~= v);
    }
}

/// `k` is the key of an entry that `mask` selects.
pub open spec fn selected_key<V>(e: Seq<(String, V)>, mask: Seq<bool>, k: Seq<char>) -> bool {
    exists|m: int| 0 <= m < e.len() && e[m].0@ == k && mask[m]
}

/// Selecting entries by a property of their values selects exactly the keys whose
/// value in the map has that property.
pub proof fn lemma_selected_keys<V>(s: Seq<(String, V)>, mask: Seq<bool>, pred: spec_fn(V) -> bool)
    requires
        keys_distinct(s),
        mask.len() == s.len(),
        forall|i: int| 0 <= i < s.len() ==> mask[i] == pred(#[trigger] s[i].1),
    ensures
        forall|k: Seq<char>| #[trigger] selected_key(s, mask, k) <==> entries_map(s).contains_key(k) && pred(entries_map(s)[k]),
{
    lemma_entries_map(s);
    assert forall|k: Seq<char>| #[trigger] selected_key(s, mask, k) <==> entries_map(s).contains_key(k) && pred(entries_map(s)[k]) by {
        if selected_key(s, mask, k) {
            let m = choose|m: int| 0 <= m < s.len() && s[m].0@ == k && mask[m];
            assert(entries_map(s)[s[m].0@] == s[m].1);
        }
        if entries_map(s).contains_key(k) && pred(entries_map(s)[k]) {
            let m = choose|m: int| 0 <= m < s.len() && s[m].0@ == k;
            assert(entries_map(s)[s[m].0@] == s[m].1);
            assert(mask[m] == pred(s[m].1));
        }
    }
}

} // verus!
