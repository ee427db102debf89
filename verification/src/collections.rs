//! Keyed collections of the oracle state: a map from string keys to values
//! and a set of string keys, each held as a vector without repeated keys.
use vstd::prelude::*;

verus! {

/// Whether `k` is the key of some entry of `s`.
pub open spec fn has_key<V>(s: Seq<(String, V)>, k: Seq<char>) -> bool {
    exists|i: int| 0 <= i < s.len() && #[trigger] s[i].0@ == k
}

/// No two entries of `s` share a key.
pub open spec fn keys_unique<V>(s: Seq<(String, V)>) -> bool {
    forall|i: int, j: int|
        0 <= i < s.len() && 0 <= j < s.len() && i != j ==> #[trigger] s[i].0@ != #[trigger] s[j].0@
}

/// The map that a sequence of entries with distinct keys denotes.
pub open spec fn entries_map<V>(s: Seq<(String, V)>) -> Map<Seq<char>, V> {
    Map::new(
        |k: Seq<char>| has_key(s, k),
        |k: Seq<char>| s[choose|i: int| 0 <= i < s.len() && #[trigger] s[i].0@ == k].1,
    )
}

/// The entry of a key is the value at the one index that holds the key.
proof fn lemma_entries_map_at<V>(s: Seq<(String, V)>, i: int)
    requires
        keys_unique(s),
        0 <= i < s.len(),
    ensures
        entries_map(s).dom().contains(s[i].0@),
        entries_map(s)[s[i].0@] == s[i].1,
{
    let k = s[i].0@;
    assert(has_key(s, k));
    let j = choose|j: int| 0 <= j < s.len() && #[trigger] s[j].0@ == k;
    assert(j == i);
}

/// A map from string keys to values.
pub struct StrMap<V> {
    entries: Vec<(String, V)>,
}

impl<V> StrMap<V> {
    #[verifier::type_invariant]
    spec fn inv(self) -> bool {
        keys_unique(self.entries@)
    }

    pub closed spec fn view(&self) -> Map<Seq<char>, V> {
        entries_map(self.entries@)
    }

    /// The keys in the order in which they are held.
    pub closed spec fn key_seq(&self) -> Seq<Seq<char>> {
        self.entries@.map_values(|e: (String, V)| e.0@)
    }

    pub fn new() -> (r: Self)
        ensures
            r.view() == Map::<Seq<char>, V>::empty(),
            r.key_seq() == Seq::<Seq<char>>::empty(),
    {
        let r = StrMap { entries: Vec::new() };
        assert(r.view() =~= Map::<Seq<char>, V>::empty());
        assert(r.key_seq() =~= Seq::<Seq<char>>::empty());
        r
    }

    /// The number of keys; also what the order of `key_seq` shows of the map.
    pub fn len(&self) -> (r: usize)
        ensures
            r == self.key_seq().len(),
            self.key_seq().len() == self.view().dom().len(),
            self.view().dom().finite(),
            forall|k: Seq<char>| self.key_seq().contains(k) <==> #[trigger] self.view().dom().contains(k),
            self.key_seq().no_duplicates(),
    {
        proof {
            use_type_invariant(self);
            let s = self.entries@;
            let ks = self.key_seq();
            assert forall|k: Seq<char>| ks.contains(k) <==> #[trigger] self.view().dom().contains(k) by {
                if ks.contains(k) {
                    let i = choose|i: int| 0 <= i < ks.len() && ks[i] == k;
                    assert(s[i].0@ == k);
                }
                if self.view().dom().contains(k) {
                    let i = choose|i: int| 0 <= i < s.len() && #[trigger] s[i].0@ == k;
                    assert(ks[i] == k);
                }
            }
            assert(ks.no_duplicates()) by {
                assert forall|i: int, j: int| 0 <= i < ks.len() && 0 <= j < ks.len() && i != j implies ks[i] != ks[j] by {
                    assert(s[i].0@ != s[j].0@);
                }
            }
            ks.unique_seq_to_set();
            assert(ks.to_set() =~= self.view().dom());
        }
        self.entries.len()
    }

    /// The index of the entry with this key, if there is one.
    fn index_of(&self, key: &String) -> (r: Option<usize>)
        ensures
            r matches Some(i) ==> i < self.entries@.len() && self.entries@[i as int].0@ == key@,
            r is None ==> !has_key(self.entries@, key@),
    {
        let mut i: usize = 0;
        while i < self.entries.len()
            invariant
                i <= self.entries@.len(),
                forall|j: int| 0 <= j < i ==> self.entries@[j].0@ != key@,
            decreases self.entries@.len() - i,
        {
            if self.entries[i].0 == *key {
                return Some(i);
            }
            i = i + 1;
        }
        None
    }

    pub fn contains_key(&self, key: &String) -> (r: bool)
        ensures
            r == self.view().dom().contains(key@),
    {
        self.index_of(key).is_some()
    }

    pub fn get(&self, key: &String) -> (r: Option<&V>)
        ensures
            r is Some <==> self.view().dom().contains(key@),
            r matches Some(v) ==> *v == self.view()[key@],
    {
        proof {
            use_type_invariant(self);
        }
        match self.index_of(key) {
            Some(i) => {
                proof {
                    lemma_entries_map_at(self.entries@, i as int);
                }
                Some(&self.entries[i].1)
            },
            None => None,
        }
    }

    /// The key and value held at position `i` of `key_seq`.
    pub fn entry_at(&self, i: usize) -> (r: (&String, &V))
        requires
            i < self.key_seq().len(),
        ensures
            r.0@ == self.key_seq()[i as int],
            self.view().dom().contains(r.0@),
            *r.1 == self.view()[r.0@],
    {
        proof {
            use_type_invariant(self);
            lemma_entries_map_at(self.entries@, i as int);
        }
        (&self.entries[i].0, &self.entries[i].1)
    }

    /// Sets the value of `key`, adding the key at the end where it is new.
    pub fn insert(&mut self, key: String, value: V)
        ensures
            final(self).view() == old(self).view().insert(key@, value),
            old(self).view().dom().contains(key@) ==> final(self).key_seq() == old(self).key_seq(),
            !old(self).view().dom().contains(key@) ==> final(self).key_seq() == old(self).key_seq().push(key@),
    {
        proof {
            use_type_invariant(&*self);
        }
        let ghost old_s = self.entries@;
        match self.index_of(&key) {
            Some(i) => {
                proof {
                    lemma_update_same_key(old_s, i as int, (key, value));
                    assert(old_s.update(i as int, (key, value)).map_values(|e: (String, V)| e.0@)
                        =~= old_s.map_values(|e: (String, V)| e.0@));
                }
                let mut entries = Vec::new();
                std::mem::swap(&mut entries, &mut self.entries);
                entries.set(i, (key, value));
                self.entries = entries;
            },
            None => {
                proof {
                    lemma_push_new_key(old_s, (key, value));
                    assert(old_s.push((key, value)).map_values(|e: (String, V)| e.0@)
                        =~= old_s.map_values(|e: (String, V)| e.0@).push(key@));
                }
                let mut entries = Vec::new();
                std::mem::swap(&mut entries, &mut self.entries);
                entries.push((key, value));
                self.entries = entries;
            },
        }
    }

    /// Removes `key`, handing back its value where it was present.
    pub fn remove(&mut self, key: &String) -> (r: Option<V>)
        ensures
            final(self).view() == old(self).view().remove(key@),
            r is Some <==> old(self).view().dom().contains(key@),
            r matches Some(v) ==> v == old(self).view()[key@],
    {
        proof {
            use_type_invariant(&*self);
        }
        let ghost old_s = self.entries@;
        match self.index_of(key) {
            Some(i) => {
                proof {
                    lemma_remove_at(old_s, i as int);
                    lemma_entries_map_at(old_s, i as int);
                }
                let mut entries = Vec::new();
                std::mem::swap(&mut entries, &mut self.entries);
                let (_, v) = entries.remove(i);
                self.entries = entries;
                Some(v)
            },
            None => {
                assert(old_s.len() == self.entries@.len());
                assert(entries_map(old_s).remove(key@) =~= entries_map(old_s));
                None
            },
        }
    }
}

proof fn lemma_update_same_key<V>(s: Seq<(String, V)>, i: int, e: (String, V))
    requires
        keys_unique(s),
        0 <= i < s.len(),
        e.0@ == s[i].0@,
    ensures
        keys_unique(s.update(i, e)),
        entries_map(s.update(i, e)) =~= entries_map(s).insert(e.0@, e.1),
{
    let s2 = s.update(i, e);
    assert forall|a: int, b: int|
        0 <= a < s2.len() && 0 <= b < s2.len() && a != b implies #[trigger] s2[a].0@ != #[trigger] s2[b].0@ by {
        assert(s[a].0@ != s[b].0@);
    }
    assert forall|k: Seq<char>| #[trigger] has_key(s2, k) <==> has_key(s, k) by {
        if has_key(s2, k) {
            let j = choose|j: int| 0 <= j < s2.len() && #[trigger] s2[j].0@ == k;
            assert(s[j].0@ == k);
        }
        if has_key(s, k) {
            let j = choose|j: int| 0 <= j < s.len() && #[trigger] s[j].0@ == k;
            assert(s2[j].0@ == k);
        }
    }
    assert forall|k: Seq<char>| #[trigger] has_key(s2, k) implies entries_map(s2)[k]
        == entries_map(s).insert(e.0@, e.1)[k] by {
        let j = choose|j: int| 0 <= j < s2.len() && #[trigger] s2[j].0@ == k;
        lemma_entries_map_at(s2, j);
        if j != i {
            lemma_entries_map_at(s, j);
        }
    }
}

proof fn lemma_push_new_key<V>(s: Seq<(String, V)>, e: (String, V))
    requires
        keys_unique(s),
        !has_key(s, e.0@),
    ensures
        keys_unique(s.push(e)),
        entries_map(s.push(e)) =~= entries_map(s).insert(e.0@, e.1),
{
    let s2 = s.push(e);
    assert forall|a: int, b: int|
        0 <= a < s2.len() && 0 <= b < s2.len() && a != b implies #[trigger] s2[a].0@ != #[trigger] s2[b].0@ by {
        if a < s.len() && b < s.len() {
            assert(s[a].0@ != s[b].0@);
        } else if a < s.len() {
            assert(s[a].0@ != e.0@);
        } else {
            assert(s[b].0@ != e.0@);
        }
    }
    assert forall|k: Seq<char>| #[trigger] has_key(s2, k) <==> (has_key(s, k) || k == e.0@) by {
        if has_key(s2, k) {
            let j = choose|j: int| 0 <= j < s2.len() && #[trigger] s2[j].0@ == k;
            if j < s.len() {
                assert(s[j].0@ == k);
            }
        }
        if has_key(s, k) {
            let j = choose|j: int| 0 <= j < s.len() && #[trigger] s[j].0@ == k;
            assert(s2[j].0@ == k);
        }
        if k == e.0@ {
            assert(s2[s.len() as int].0@ == k);
        }
    }
    assert forall|k: Seq<char>| #[trigger] has_key(s2, k) implies entries_map(s2)[k]
        == entries_map(s).insert(e.0@, e.1)[k] by {
        let j = choose|j: int| 0 <= j < s2.len() && #[trigger] s2[j].0@ == k;
        lemma_entries_map_at(s2, j);
        if j < s.len() {
            lemma_entries_map_at(s, j);
        }
    }
}

proof fn lemma_remove_at<V>(s: Seq<(String, V)>, i: int)
    requires
        keys_unique(s),
        0 <= i < s.len(),
    ensures
        keys_unique(s.remove(i)),
        entries_map(s.remove(i)) =~= entries_map(s).remove(s[i].0@),
{
    let s2 = s.remove(i);
    let old_index = |a: int| if a < i { a } else { a + 1 };
    assert forall|a: int, b: int|
        0 <= a < s2.len() && 0 <= b < s2.len() && a != b implies #[trigger] s2[a].0@ != #[trigger] s2[b].0@ by {
        assert(s2[a] == s[old_index(a)]);
        assert(s2[b] == s[old_index(b)]);
        assert(s[old_index(a)].0@ != s[old_index(b)].0@);
    }
    assert forall|k: Seq<char>| #[trigger] has_key(s2, k) <==> (has_key(s, k) && k != s[i].0@) by {
        if has_key(s2, k) {
            let j = choose|j: int| 0 <= j < s2.len() && #[trigger] s2[j].0@ == k;
            assert(s2[j] == s[old_index(j)]);
            assert(s[old_index(j)].0@ != s[i].0@);
        }
        if has_key(s, k) && k != s[i].0@ {
            let j = choose|j: int| 0 <= j < s.len() && #[trigger] s[j].0@ == k;
            if j < i {
                assert(s2[j].0@ == k);
            } else {
                assert(s2[j - 1].0@ == k);
            }
        }
    }
    assert forall|k: Seq<char>| #[trigger] has_key(s2, k) implies entries_map(s2)[k]
        == entries_map(s)[k] by {
        let j = choose|j: int| 0 <= j < s2.len() && #[trigger] s2[j].0@ == k;
        lemma_entries_map_at(s2, j);
        assert(s2[j] == s[old_index(j)]);
        lemma_entries_map_at(s, old_index(j));
    }
}


/// A set of string keys.
pub struct StrSet {
    map: StrMap<()>,
}

impl StrSet {
    pub closed spec fn view(&self) -> Set<Seq<char>> {
        self.map.view().dom()
    }

    /// The keys in the order in which they are held.
    pub closed spec fn key_seq(&self) -> Seq<Seq<char>> {
        self.map.key_seq()
    }

    pub fn new() -> (r: Self)
        ensures
            r.view() == Set::<Seq<char>>::empty(),
            r.key_seq() == Seq::<Seq<char>>::empty(),
    {
        let r = StrSet { map: StrMap::new() };
        assert(r.view() =~= Set::<Seq<char>>::empty());
        r
    }

    pub fn len(&self) -> (r: usize)
        ensures
            r == self.key_seq().len(),
            self.key_seq().len() == self.view().len(),
            self.view().finite(),
            forall|k: Seq<char>| self.key_seq().contains(k) <==> #[trigger] self.view().contains(k),
            self.key_seq().no_duplicates(),
    {
        self.map.len()
    }

    pub fn contains(&self, key: &String) -> (r: bool)
        ensures
            r == self.view().contains(key@),
    {
        self.map.contains_key(key)
    }

    /// The key held at position `i` of `key_seq`.
    pub fn key_at(&self, i: usize) -> (r: &String)
        requires
            i < self.key_seq().len(),
        ensures
            r@ == self.key_seq()[i as int],
            self.view().contains(r@),
    {
        self.map.entry_at(i).0
    }

    /// Adds `key`; true where it was not there before.
    pub fn insert(&mut self, key: String) -> (r: bool)
        ensures
            final(self).view() == old(self).view().insert(key@),
            r == !old(self).view().contains(key@),
            old(self).view().contains(key@) ==> final(self).key_seq() == old(self).key_seq(),
            !old(self).view().contains(key@) ==> final(self).key_seq() == old(self).key_seq().push(key@),
    {
        let fresh = !self.map.contains_key(&key);
        self.map.insert(key, ());
        fresh
    }

    /// Removes `key`; true where it was there.
    pub fn remove(&mut self, key: &String) -> (r: bool)
        ensures
            final(self).view() == old(self).view().remove(key@),
            r == old(self).view().contains(key@),
    {
        self.map.remove(key).is_some()
    }
}


/// The character sequences of a sequence of strings.
pub open spec fn strings_view(v: Seq<String>) -> Seq<Seq<char>> {
    v.map_values(|s: String| s@)
}

/// The first position of `s` in `v`, if it occurs.
pub fn position_of(v: &Vec<String>, s: &String) -> (r: Option<usize>)
    ensures
        r is None <==> !strings_view(v@).contains(s@),
        r matches Some(i) ==> i < v@.len() && v@[i as int]@ == s@ && forall|j: int|
            0 <= j < i ==> #[trigger] v@[j]@ != s@,
{
    let mut i: usize = 0;
    while i < v.len()
        invariant
            i <= v@.len(),
            forall|j: int| 0 <= j < i ==> #[trigger] v@[j]@ != s@,
        decreases v@.len() - i,
    {
        if v[i] == *s {
            assert(strings_view(v@)[i as int] == s@);
            return Some(i);
        }
        i = i + 1;
    }
    proof {
        if strings_view(v@).contains(s@) {
            let j = choose|j: int| 0 <= j < strings_view(v@).len() && strings_view(v@)[j] == s@;
            assert(v@[j]@ == s@);
        }
    }
    None
}

/// Whether `s` occurs in `v`.
pub fn contains_string(v: &Vec<String>, s: &String) -> (r: bool)
    ensures
        r == strings_view(v@).contains(s@),
{
    match position_of(v, s) {
        Some(i) => {
            assert(strings_view(v@)[i as int] == s@);
            true
        },
        None => false,
    }
}

/// Removing the element at `i` of a sequence without duplicates by moving the
/// last element into its place keeps the others and drops only it.
pub proof fn lemma_swap_remove_unique<A>(s: Seq<A>, i: int)
    requires
        s.no_duplicates(),
        0 <= i < s.len(),
    ensures
        s.update(i, s.last()).drop_last().no_duplicates(),
        s.update(i, s.last()).drop_last().to_set() == s.to_set().remove(s[i]),
{
    let r = s.update(i, s.last()).drop_last();
    let n = s.len() - 1;
    assert forall|a: int, b: int| 0 <= a < r.len() && 0 <= b < r.len() && a != b implies r[a] != r[b] by {
        let sa = if a == i { n } else { a };
        let sb = if b == i { n } else { b };
        assert(r[a] == s[sa]);
        assert(r[b] == s[sb]);
    }
    assert forall|x: A| r.contains(x) <==> s.to_set().remove(s[i]).contains(x) by {
        if r.contains(x) {
            let a = choose|a: int| 0 <= a < r.len() && r[a] == x;
            let sa = if a == i { n } else { a };
            assert(s[sa] == x);
            assert(sa != i);
        }
        if s.to_set().remove(s[i]).contains(x) {
            let a = choose|a: int| 0 <= a < s.len() && s[a] == x;
            assert(a != i);
            if a == n {
                assert(r[i] == x);
            } else {
                assert(r[a] == x);
            }
        }
    }
    assert(r.to_set() =~= s.to_set().remove(s[i]));
}

} // verus!
