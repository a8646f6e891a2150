//! A map from textual ids (peer ids, auction ids) to values that remembers
//! the order in which keys were first inserted.

use vstd::prelude::*;

verus! {

/// Index of the first entry with key `k`, or `s.len()` when there is none.
pub open spec fn key_index<V>(s: Seq<(Seq<char>, V)>, k: Seq<char>) -> int
    decreases s.len(),
{
    if s.len() == 0 {
        0
    } else if s[0].0 == k {
        0
    } else {
        1 + key_index(s.drop_first(), k)
    }
}

/// The value stored under `k`, if any.
pub open spec fn lookup<V>(s: Seq<(Seq<char>, V)>, k: Seq<char>) -> Option<V> {
    if key_index(s, k) < s.len() {
        Some(s[key_index(s, k)].1)
    } else {
        None
    }
}

/// `k` is a key of the entries.
pub open spec fn has_key<V>(s: Seq<(Seq<char>, V)>, k: Seq<char>) -> bool {
    key_index(s, k) < s.len()
}

/// The entries after storing `v` under `k`: in place when `k` is present,
/// appended otherwise.
pub open spec fn insert_entry<V>(s: Seq<(Seq<char>, V)>, k: Seq<char>, v: V) -> Seq<(Seq<char>, V)> {
    if has_key(s, k) {
        s.update(key_index(s, k), (k, v))
    } else {
        s.push((k, v))
    }
}

/// No key occurs twice.
pub open spec fn keys_distinct<V>(s: Seq<(Seq<char>, V)>) -> bool {
    forall|i: int, j: int| 0 <= i < j < s.len() ==> s[i].0 != s[j].0
}

/// `key_index` is the first position holding `k`.
pub proof fn lemma_key_index<V>(s: Seq<(Seq<char>, V)>, k: Seq<char>)
    ensures
        0 <= key_index(s, k) <= s.len(),
        key_index(s, k) < s.len() ==> s[key_index(s, k)].0 == k,
        forall|j: int| 0 <= j < key_index(s, k) ==> s[j].0 != k,
    decreases s.len(),
{
    if s.len() > 0 && s[0].0 != k {
        lemma_key_index(s.drop_first(), k);
        assert forall|j: int| 0 <= j < key_index(s, k) implies s[j].0 != k by {
            if j > 0 {
                assert(s[j] == s.drop_first()[j - 1]);
            }
        }
    }
}

/// In distinct entries, the entry at `i` is the one found for its key.
pub proof fn lemma_key_index_distinct<V>(s: Seq<(Seq<char>, V)>, i: int)
    requires
        keys_distinct(s),
        0 <= i < s.len(),
    ensures
        key_index(s, s[i].0) == i,
{
    lemma_key_index(s, s[i].0);
}

/// Reading a key after storing a value under it gives that value, and the
/// values of other keys are unchanged; distinct keys stay distinct.
pub proof fn law_read_after_insert<V>(s: Seq<(Seq<char>, V)>, k: Seq<char>, v: V, other: Seq<char>)
    requires
        keys_distinct(s),
        other != k,
    ensures
        lookup(insert_entry(s, k, v), k) == Some(v),
        lookup(insert_entry(s, k, v), other) == lookup(s, other),
        keys_distinct(insert_entry(s, k, v)),
{
    let t = insert_entry(s, k, v);
    lemma_key_index(s, k);
    lemma_key_index(s, other);
    lemma_key_index(t, k);
    lemma_key_index(t, other);
    if has_key(s, k) {
        let i = key_index(s, k);
        assert(t[i].0 == k);
        assert forall|j: int| 0 <= j < t.len() && j != i implies t[j] == s[j] by {}
        assert(key_index(t, k) == i) by {
            if key_index(t, k) < i {
                assert(t[key_index(t, k)] == s[key_index(t, k)]);
            }
        }
        if key_index(s, other) < s.len() {
            assert(key_index(s, other) != i);
            assert(key_index(t, other) == key_index(s, other)) by {
                if key_index(t, other) < key_index(s, other) {
                    let m = key_index(t, other);
                    if m != i {
                        assert(t[m] == s[m]);
                    }
                }
                assert(t[key_index(s, other)] == s[key_index(s, other)]);
            }
        } else {
            assert(key_index(t, other) == t.len()) by {
                if key_index(t, other) < t.len() {
                    let m = key_index(t, other);
                    if m != i {
                        assert(t[m] == s[m]);
                    }
                }
            }
        }
    } else {
        let i = s.len() as int;
        assert(t[i].0 == k);
        assert(key_index(t, k) == i) by {
            if key_index(t, k) < i {
                assert(t[key_index(t, k)] == s[key_index(t, k)]);
            }
        }
        if key_index(s, other) < s.len() {
            assert(key_index(t, other) == key_index(s, other)) by {
                if key_index(t, other) < key_index(s, other) {
                    assert(t[key_index(t, other)] == s[key_index(t, other)]);
                }
                assert(t[key_index(s, other)] == s[key_index(s, other)]);
            }
        } else {
            assert(key_index(t, other) == t.len()) by {
                if key_index(t, other) < t.len() {
                    let m = key_index(t, other);
                    if m < i {
                        assert(t[m] == s[m]);
                    }
                }
            }
        }
        assert forall|a: int, b: int| 0 <= a < b < t.len() implies t[a].0 != t[b].0 by {
            if b == i {
                assert(t[a] == s[a]);
            }
        }
    }
}

/// Entries keyed by textual ids; no key occurs twice.
pub struct IdMap<V> {
    entries: Vec<(String, V)>,
}

impl<V> View for IdMap<V> {
    type V = Seq<(Seq<char>, V)>;

    closed spec fn view(&self) -> Seq<(Seq<char>, V)> {
        self.entries@.map_values(|e: (String, V)| (e.0@, e.1))
    }
}

impl<V> IdMap<V> {
    #[verifier::type_invariant]
    spec fn distinct(self) -> bool {
        keys_distinct(self@)
    }

    /// An empty map.
    pub fn new() -> (m: Self)
        ensures
            m@ == Seq::<(Seq<char>, V)>::empty(),
    {
        let m = IdMap { entries: Vec::new() };
        assert(m@ =~= Seq::<(Seq<char>, V)>::empty());
        m
    }

    /// Number of keys (no key occurs twice).
    pub fn len(&self) -> (n: usize)
        ensures
            n == self@.len(),
            keys_distinct(self@),
    {
        proof {
            use_type_invariant(self);
        }
        self.entries.len()
    }

    /// Position of the entry with key `key`, or the length when absent.
    fn position(&self, key: &String) -> (i: usize)
        ensures
            i == key_index(self@, key@),
    {
        proof {
            lemma_key_index(self@, key@);
        }
        let mut i: usize = 0;
        while i < self.entries.len()
            invariant
                i <= self@.len(),
                self@.len() == self.entries@.len(),
                forall|j: int| 0 <= j < i ==> self@[j].0 != key@,
                0 <= key_index(self@, key@) <= self@.len(),
                key_index(self@, key@) < self@.len() ==> self@[key_index(self@, key@)].0 == key@,
                forall|j: int| 0 <= j < key_index(self@, key@) ==> self@[j].0 != key@,
            decreases self@.len() - i,
        {
            assert(self@[i as int].0 == self.entries@[i as int].0@);
            if self.entries[i].0 == *key {
                return i;
            }
            i = i + 1;
        }
        i
    }

    /// Whether `key` has a value.
    pub fn contains_key(&self, key: &String) -> (b: bool)
        ensures
            b == has_key(self@, key@),
    {
        self.position(key) < self.entries.len()
    }

    /// The value stored under `key`.
    pub fn get(&self, key: &String) -> (r: Option<&V>)
        ensures
            r matches Some(v) ==> lookup(self@, key@) == Some(*v),
            r is None <==> lookup(self@, key@) is None,
    {
        let i = self.position(key);
        if i < self.entries.len() {
            assert(self@[i as int].1 == self.entries@[i as int].1);
            Some(&self.entries[i].1)
        } else {
            None
        }
    }

    /// The key of the `i`-th entry.
    pub fn key_at(&self, i: usize) -> (k: &String)
        requires
            i < self@.len(),
        ensures
            k@ == self@[i as int].0,
    {
        &self.entries[i].0
    }

    /// The value of the `i`-th entry.
    pub fn value_at(&self, i: usize) -> (v: &V)
        requires
            i < self@.len(),
        ensures
            *v == self@[i as int].1,
    {
        &self.entries[i].1
    }

    /// Stores `value` under `key`, replacing the value of an existing key in
    /// place and appending a new key at the end.
    pub fn insert(&mut self, key: String, value: V)
        ensures
            final(self)@ == insert_entry(old(self)@, key@, value),
    {
        proof {
            use_type_invariant(&*self);
            lemma_key_index(self@, key@);
        }
        let i = self.position(&key);
        let ghost old_view = self@;
        let ghost kv = key@;
        let mut entries: Vec<(String, V)> = Vec::new();
        std::mem::swap(&mut entries, &mut self.entries);
        assert(entries@.map_values(|e: (String, V)| (e.0@, e.1)) == old_view);
        if i < entries.len() {
            entries.set(i, (key, value));
        } else {
            entries.push((key, value));
        }
        let ghost new_view = entries@.map_values(|e: (String, V)| (e.0@, e.1));
        proof {
            if i < old_view.len() {
                assert(new_view =~= old_view.update(i as int, (kv, value)));
            } else {
                assert(new_view =~= old_view.push((kv, value)));
            }
            assert(keys_distinct(new_view));
        }
        self.entries = entries;
    }
}

} // verus!
