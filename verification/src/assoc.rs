use vstd::prelude::*;

verus! {

/// Keys whose equality can be decided at run time, in agreement with their views.
pub trait KeyEq: View + Sized {
    fn key_eq(&self, other: &Self) -> (r: bool)
        ensures
            r == (self@ == other@),
    ;
}

impl KeyEq for u128 {
    fn key_eq(&self, other: &Self) -> (r: bool) {
        *self == *other
    }
}

impl KeyEq for String {
    fn key_eq(&self, other: &Self) -> (r: bool) {
        *self == *other
    }
}

impl KeyEq for Vec<char> {
    fn key_eq(&self, other: &Self) -> (r: bool) {
        chars_equal(self.as_slice(), other.as_slice())
    }
}

/// Compares two character slices element by element.
pub fn chars_equal(a: &[char], b: &[char]) -> (r: bool)
    ensures
        r == (a@ == b@),
{
    if a.len() != b.len() {
        return false;
    }
    let mut i: usize = 0;
    while i < a.len()
        invariant
            a@.len() == b@.len(),
            i <= a@.len(),
            forall|j: int| 0 <= j < i ==> a@[j] == b@[j],
        decreases a@.len() - i,
    {
        if a[i] != b[i] {
            return false;
        }
        i = i + 1;
    }
    assert(a@ =~= b@);
    true
}

/// The map that a list of entries stands for: a later entry for a key
/// replaces an earlier one.
pub open spec fn entries_map<K: View, V>(s: Seq<(K, V)>) -> Map<K::V, V>
    decreases s.len(),
{
    if s.len() == 0 {
        Map::empty()
    } else {
        entries_map(s.drop_last()).insert(s.last().0@, s.last().1)
    }
}

/// No two entries have keys with the same view.
pub open spec fn keys_unique<K: View, V>(s: Seq<(K, V)>) -> bool {
    forall|i: int, j: int| 0 <= i < s.len() && 0 <= j < s.len() && i != j ==> s[i].0@ != s[j].0@
}

/// The key of every entry is in the map, and only those keys are.
pub proof fn lemma_entries_map_dom<K: View, V>(s: Seq<(K, V)>)
    ensures
        forall|k: K::V|
            entries_map(s).dom().contains(k) <==> exists|i: int| 0 <= i < s.len() && s[i].0@ == k,
        entries_map(s).dom().finite(),
    decreases s.len(),
{
    if s.len() > 0 {
        lemma_entries_map_dom(s.drop_last());
        assert forall|k: K::V|
            entries_map(s).dom().contains(k) implies exists|i: int|
                0 <= i < s.len() && s[i].0@ == k by {
            if k != s.last().0@ {
                let i = choose|i: int| 0 <= i < s.drop_last().len() && s.drop_last()[i].0@ == k;
                assert(s[i].0@ == k);
            } else {
                assert(s[s.len() - 1].0@ == k);
            }
        }
        assert forall|k: K::V| (exists|i: int| 0 <= i < s.len() && s[i].0@ == k) implies entries_map(
            s,
        ).dom().contains(k) by {
            let i = choose|i: int| 0 <= i < s.len() && s[i].0@ == k;
            if i < s.len() - 1 {
                assert(s.drop_last()[i].0@ == k);
            }
        }
    }
}

/// With unique keys, each entry's value is what the map holds for its key.
pub proof fn lemma_entries_map_index<K: View, V>(s: Seq<(K, V)>, i: int)
    requires
        keys_unique(s),
        0 <= i < s.len(),
    ensures
        entries_map(s).dom().contains(s[i].0@),
        entries_map(s)[s[i].0@] == s[i].1,
    decreases s.len(),
{
    if i < s.len() - 1 {
        let t = s.drop_last();
        assert(keys_unique(t));
        assert(t[i] == s[i]);
        lemma_entries_map_index(t, i);
        assert(s[i].0@ != s[s.len() - 1].0@);
    }
}

/// A key that no entry has is not in the map.
pub proof fn lemma_entries_map_absent<K: View, V>(s: Seq<(K, V)>, k: K::V)
    requires
        forall|i: int| 0 <= i < s.len() ==> s[i].0@ != k,
    ensures
        !entries_map(s).dom().contains(k),
{
    lemma_entries_map_dom(s);
}

/// Replacing the value of an entry replaces the value that the map holds for its key.
pub proof fn lemma_entries_map_update<K: View, V>(s: Seq<(K, V)>, i: int, v: V)
    requires
        keys_unique(s),
        0 <= i < s.len(),
    ensures
        keys_unique(s.update(i, (s[i].0, v))),
        entries_map(s.update(i, (s[i].0, v))) == entries_map(s).insert(s[i].0@, v),
    decreases s.len(),
{
    let u = s.update(i, (s[i].0, v));
    assert(keys_unique(u));
    if i == s.len() - 1 {
        assert(u.drop_last() =~= s.drop_last());
        assert(entries_map(u) =~= entries_map(s).insert(s[i].0@, v));
    } else {
        let t = s.drop_last();
        assert(keys_unique(t));
        assert(u.drop_last() =~= t.update(i, (t[i].0, v)));
        lemma_entries_map_update(t, i, v);
        assert(s[i].0@ != s.last().0@);
        assert(entries_map(u) =~= entries_map(s).insert(s[i].0@, v));
    }
}

/// Removing an entry removes its key from the map.
pub proof fn lemma_entries_map_remove<K: View, V>(s: Seq<(K, V)>, i: int)
    requires
        keys_unique(s),
        0 <= i < s.len(),
    ensures
        keys_unique(s.remove(i)),
        entries_map(s.remove(i)) == entries_map(s).remove(s[i].0@),
    decreases s.len(),
{
    let r = s.remove(i);
    assert forall|a: int, b: int| 0 <= a < r.len() && 0 <= b < r.len() && a != b implies r[a].0@
        != r[b].0@ by {
        let a1 = if a < i { a } else { a + 1 };
        let b1 = if b < i { b } else { b + 1 };
        assert(r[a] == s[a1]);
        assert(r[b] == s[b1]);
    }
    let t = s.drop_last();
    assert(keys_unique(t));
    if i == s.len() - 1 {
        assert(r =~= t);
        assert forall|j: int| 0 <= j < t.len() implies t[j].0@ != s[i].0@ by {
            assert(t[j] == s[j]);
        }
        lemma_entries_map_absent(t, s[i].0@);
        assert(entries_map(r) =~= entries_map(s).remove(s[i].0@));
    } else {
        assert(r.drop_last() =~= t.remove(i));
        assert(r.last() == s.last());
        lemma_entries_map_remove(t, i);
        assert(s[i].0@ != s.last().0@);
        assert(entries_map(r) =~= entries_map(s).remove(s[i].0@));
    }
}

/// With unique keys, the map has one key per entry.
pub proof fn lemma_entries_map_len<K: View, V>(s: Seq<(K, V)>)
    requires
        keys_unique(s),
    ensures
        entries_map(s).dom().len() == s.len(),
    decreases s.len(),
{
    if s.len() > 0 {
        let t = s.drop_last();
        assert(keys_unique(t));
        lemma_entries_map_len(t);
        lemma_entries_map_dom(t);
        assert forall|j: int| 0 <= j < t.len() implies t[j].0@ != s.last().0@ by {
            assert(t[j] == s[j]);
        }
        lemma_entries_map_absent(t, s.last().0@);
    }
}

/// A finite map from keys to values, kept as a list of entries with distinct keys.
///
/// The maps keyed by text (rustlets and socklets by name, URI mappings, header
/// and query maps, the values of a session) use it in place of std's
/// `HashMap`: vstd specifies `HashMap` only for key types that obey its key
/// model (the integer types, `bool` and boxes of them), and gives nothing for
/// `String` or `Vec<char>` keys. The maps keyed by `u128` use `HashMap`.
pub struct AssocMap<K, V> {
    entries: Vec<(K, V)>,
}

impl<K: KeyEq, V> View for AssocMap<K, V> {
    type V = Map<K::V, V>;

    closed spec fn view(&self) -> Map<K::V, V> {
        entries_map(self.entries@)
    }
}

impl<K: KeyEq, V> AssocMap<K, V> {
    /// The entries, in the order in which their keys were first inserted.
    pub closed spec fn entry_seq(&self) -> Seq<(K, V)> {
        self.entries@
    }

    pub closed spec fn wf(&self) -> bool {
        keys_unique(self.entries@)
    }

    pub fn new() -> (m: Self)
        ensures
            m.wf(),
            m@ == Map::<K::V, V>::empty(),
            m.entry_seq().len() == 0,
    {
        AssocMap { entries: Vec::new() }
    }

    /// The number of keys in the map.
    pub fn len(&self) -> (n: usize)
        requires
            self.wf(),
        ensures
            n == self@.dom().len(),
            self@.dom().finite(),
    {
        proof {
            lemma_entries_map_len(self.entries@);
            lemma_entries_map_dom(self.entries@);
        }
        self.entries.len()
    }

    /// The position of the entry for `k`, if there is one.
    pub fn find(&self, k: &K) -> (r: Option<usize>)
        requires
            self.wf(),
        ensures
            r is Some <==> self@.dom().contains(k@),
            r matches Some(i) ==> i < self.entry_seq().len() && self.entry_seq()[i as int].0@ == k@
                && self@[k@] == self.entry_seq()[i as int].1,
    {
        let mut i: usize = 0;
        while i < self.entries.len()
            invariant
                i <= self.entries@.len(),
                keys_unique(self.entries@),
                forall|j: int| 0 <= j < i ==> self.entries@[j].0@ != k@,
            decreases self.entries@.len() - i,
        {
            if self.entries[i].0.key_eq(k) {
                proof {
                    lemma_entries_map_index(self.entries@, i as int);
                }
                return Some(i);
            }
            i = i + 1;
        }
        proof {
            lemma_entries_map_absent(self.entries@, k@);
        }
        None
    }

    /// The value for `k`, if the map has one.
    pub fn get(&self, k: &K) -> (r: Option<&V>)
        requires
            self.wf(),
        ensures
            r is Some <==> self@.dom().contains(k@),
            r matches Some(v) ==> *v == self@[k@],
    {
        match self.find(k) {
            Some(i) => Some(&self.entries[i].1),
            None => None,
        }
    }

    /// Sets the value for `k`; an entry already there keeps its place.
    pub fn insert(&mut self, k: K, v: V)
        requires
            old(self).wf(),
        ensures
            final(self).wf(),
            final(self)@ == old(self)@.insert(k@, v),
    {
        match self.find(&k) {
            Some(i) => {
                let ghost s = self.entries@;
                proof {
                    lemma_entries_map_update(s, i as int, v);
                }
                let ghost key = s[i as int].0;
                self.entries.set(i, (k, v));
                proof {
                    // The entry's key and `k` have the same view.
                    assert(self.entries@ =~= s.update(i as int, (k, v)));
                    assert(entries_map(s.update(i as int, (k, v))) =~= entries_map(
                        s.update(i as int, (key, v)),
                    )) by {
                        lemma_entries_map_same_key_views(s, i as int, k, key, v);
                    }
                }
            },
            None => {
                let ghost s = self.entries@;
                proof {
                    lemma_entries_map_dom(s);
                }
                self.entries.push((k, v));
                proof {
                    assert(self.entries@.drop_last() =~= s);
                    assert forall|a: int, b: int|
                        0 <= a < self.entries@.len() && 0 <= b < self.entries@.len() && a != b
                            implies self.entries@[a].0@ != self.entries@[b].0@ by {
                        if a < s.len() && b < s.len() {
                            assert(self.entries@[a] == s[a]);
                            assert(self.entries@[b] == s[b]);
                        } else if a < s.len() {
                            assert(self.entries@[a] == s[a]);
                        } else {
                            assert(self.entries@[b] == s[b]);
                        }
                    }
                }
            },
        }
    }

    /// Removes the entry for `k`, if there is one, and hands its value back.
    pub fn remove(&mut self, k: &K) -> (r: Option<V>)
        requires
            old(self).wf(),
        ensures
            final(self).wf(),
            final(self)@ == old(self)@.remove(k@),
            r is Some <==> old(self)@.dom().contains(k@),
            r matches Some(v) ==> v == old(self)@[k@],
    {
        match self.find(k) {
            Some(i) => {
                let ghost s = self.entries@;
                proof {
                    lemma_entries_map_remove(s, i as int);
                }
                let e = self.entries.remove(i);
                Some(e.1)
            },
            None => {
                proof {
                    assert(old(self)@.remove(k@) =~= old(self)@);
                }
                None
            },
        }
    }
}

/// Two keys with the same view stand for the same map.
proof fn lemma_entries_map_same_key_views<K: View, V>(
    s: Seq<(K, V)>,
    i: int,
    k1: K,
    k2: K,
    v: V,
)
    requires
        0 <= i < s.len(),
        k1@ == k2@,
    ensures
        entries_map(s.update(i, (k1, v))) == entries_map(s.update(i, (k2, v))),
    decreases s.len(),
{
    let a = s.update(i, (k1, v));
    let b = s.update(i, (k2, v));
    if i == s.len() - 1 {
        assert(a.drop_last() =~= b.drop_last());
    } else {
        let t = s.drop_last();
        assert(a.drop_last() =~= t.update(i, (k1, v)));
        assert(b.drop_last() =~= t.update(i, (k2, v)));
        lemma_entries_map_same_key_views(t, i, k1, k2, v);
        assert(a.last() == b.last());
    }
}

} // verus!
