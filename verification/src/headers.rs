//! Header fields: a map from names to values that keeps insertion order.

use vstd::prelude::*;
use crate::text::{chars_of, string_from_chars};

verus! {

/// No two entries of `e` share a name.
pub open spec fn keys_distinct<V>(e: Seq<(Seq<char>, V)>) -> bool {
    forall|i: int, j: int| 0 <= i < e.len() && 0 <= j < e.len() && i != j ==> #[trigger] e[i].0
        != #[trigger] e[j].0
}

/// `i` is a position of an entry named `k`.
pub open spec fn key_at<V>(e: Seq<(Seq<char>, V)>, k: Seq<char>, i: int) -> bool {
    0 <= i < e.len() && e[i].0 == k
}

/// The position of the entry named `k`, if any.
pub open spec fn find_key<V>(e: Seq<(Seq<char>, V)>, k: Seq<char>) -> Option<int> {
    if exists|i: int| key_at(e, k, i) {
        Some(choose|i: int| #[trigger] key_at(e, k, i))
    } else {
        None
    }
}

/// The value stored under `k`, if any.
pub open spec fn lookup<V>(e: Seq<(Seq<char>, V)>, k: Seq<char>) -> Option<V> {
    match find_key(e, k) {
        Some(i) => Some(e[i].1),
        None => None,
    }
}

/// `e` with `k` mapped to `v`: an existing entry named `k` keeps its place
/// and takes the new value, otherwise the entry is added at the end.
pub open spec fn insert_entry<V>(e: Seq<(Seq<char>, V)>, k: Seq<char>, v: V) -> Seq<
    (Seq<char>, V),
> {
    match find_key(e, k) {
        Some(i) => e.update(i, (k, v)),
        None => e.push((k, v)),
    }
}

/// Where names are distinct, the entry named `k` is at `i` exactly when `find_key` says so.
pub proof fn lemma_find_key<V>(e: Seq<(Seq<char>, V)>, k: Seq<char>, i: int)
    requires
        keys_distinct(e),
        key_at(e, k, i),
    ensures
        find_key(e, k) == Some(i),
{
    let j = choose|j: int| #[trigger] key_at(e, k, j);
    assert(key_at(e, k, j));
    if i != j {
        assert(e[i].0 != e[j].0);
    }
}

/// Setting a name keeps names distinct: afterwards the name maps to the new
/// value and every other name maps to what it mapped to before.
pub proof fn lemma_insert_distinct<V>(e: Seq<(Seq<char>, V)>, k: Seq<char>, v: V)
    requires
        keys_distinct(e),
    ensures
        keys_distinct(insert_entry(e, k, v)),
        lookup(insert_entry(e, k, v), k) == Some(v),
        forall|k2: Seq<char>| k2 != k ==> lookup(insert_entry(e, k, v), k2) == lookup(e, k2),
{
    let r = insert_entry(e, k, v);
    match find_key(e, k) {
        Some(i) => {
            assert(key_at(e, k, i));
            assert forall|a: int, b: int| 0 <= a < r.len() && 0 <= b < r.len() && a != b implies #[trigger] r[a].0
                != #[trigger] r[b].0 by {
                if a != i && b != i {
                    assert(e[a].0 != e[b].0);
                } else if a == i {
                    assert(e[i].0 != e[b].0);
                } else {
                    assert(e[a].0 != e[i].0);
                }
            }
            lemma_find_key(r, k, i);
            assert forall|k2: Seq<char>| k2 != k implies lookup(r, k2) == lookup(e, k2) by {
                if exists|j: int| key_at(e, k2, j) {
                    let j = choose|j: int| key_at(e, k2, j);
                    lemma_find_key(e, k2, j);
                    assert(key_at(r, k2, j));
                    lemma_find_key(r, k2, j);
                } else {
                    if exists|j: int| key_at(r, k2, j) {
                        let j = choose|j: int| key_at(r, k2, j);
                        assert(key_at(e, k2, j));
                    }
                }
            }
        },
        None => {
            assert forall|a: int, b: int| 0 <= a < r.len() && 0 <= b < r.len() && a != b implies #[trigger] r[a].0
                != #[trigger] r[b].0 by {
                if a < e.len() && b < e.len() {
                    assert(e[a].0 != e[b].0);
                } else if a < e.len() {
                    assert(!key_at(e, k, a));
                } else {
                    assert(!key_at(e, k, b));
                }
            }
            lemma_find_key(r, k, e.len() as int);
            assert forall|k2: Seq<char>| k2 != k implies lookup(r, k2) == lookup(e, k2) by {
                if exists|j: int| key_at(e, k2, j) {
                    let j = choose|j: int| key_at(e, k2, j);
                    lemma_find_key(e, k2, j);
                    assert(key_at(r, k2, j));
                    lemma_find_key(r, k2, j);
                } else {
                    if exists|j: int| key_at(r, k2, j) {
                        let j = choose|j: int| key_at(r, k2, j);
                        assert(key_at(e, k2, j));
                    }
                }
            }
        },
    }
}

/// Header fields by name, in the order in which they were first set; no name
/// occurs twice.
pub struct HeaderMap {
    entries: Vec<(String, String)>,
}

impl View for HeaderMap {
    type V = Seq<(Seq<char>, Seq<char>)>;

    closed spec fn view(&self) -> Seq<(Seq<char>, Seq<char>)> {
        self.entries@.map_values(|e: (String, String)| (e.0@, e.1@))
    }
}

impl HeaderMap {
    #[verifier::type_invariant]
    spec fn names_distinct(self) -> bool {
        keys_distinct(self@)
    }

    /// An empty map.
    pub fn new() -> (r: HeaderMap)
        ensures
            r@ == Seq::<(Seq<char>, Seq<char>)>::empty(),
    {
        let r = HeaderMap { entries: Vec::new() };
        assert(r@ =~= Seq::<(Seq<char>, Seq<char>)>::empty());
        r
    }

    /// Number of fields.
    pub fn len(&self) -> (r: usize)
        ensures
            r == self@.len(),
    {
        self.entries.len()
    }

    /// Name of the field at position `i`.
    pub fn name_at(&self, i: usize) -> (r: &String)
        requires
            i < self@.len(),
        ensures
            r@ == self@[i as int].0,
    {
        &self.entries[i].0
    }

    /// Value of the field at position `i`.
    pub fn value_at(&self, i: usize) -> (r: &String)
        requires
            i < self@.len(),
        ensures
            r@ == self@[i as int].1,
    {
        &self.entries[i].1
    }

    fn position(&self, key: &String) -> (r: Option<usize>)
        ensures
            match r {
                Some(i) => find_key(self@, key@) == Some(i as int),
                None => find_key(self@, key@) is None,
            },
    {
        proof {
            use_type_invariant(self);
        }
        let n = self.entries.len();
        let mut i: usize = 0;
        while i < n
            invariant
                n == self@.len(),
                i <= n,
                keys_distinct(self@),
                forall|j: int| 0 <= j < i ==> !#[trigger] key_at(self@, key@, j),
            decreases n - i,
        {
            if self.entries[i].0 == *key {
                proof {
                    assert(key_at(self@, key@, i as int));
                    lemma_find_key(self@, key@, i as int);
                }
                return Some(i);
            }
            assert(!key_at(self@, key@, i as int));
            i = i + 1;
        }
        None
    }

    /// The value of the field named by the characters `key`.
    pub fn get_chars(&self, key: &[char]) -> (r: Option<&String>)
        ensures
            match r {
                Some(v) => lookup(self@, key@) == Some(v@),
                None => lookup(self@, key@) is None,
            },
    {
        let k = string_from_chars(key);
        match self.position(&k) {
            Some(i) => Some(&self.entries[i].1),
            None => None,
        }
    }

    /// The value of the field named `key`.
    pub fn get(&self, key: &str) -> (r: Option<&String>)
        ensures
            match r {
                Some(v) => lookup(self@, key@) == Some(v@),
                None => lookup(self@, key@) is None,
            },
    {
        let k = chars_of(key);
        self.get_chars(k.as_slice())
    }

    /// Whether a field is named `key`.
    pub fn contains_key(&self, key: &str) -> (r: bool)
        ensures
            r == (lookup(self@, key@) is Some),
    {
        self.get(key).is_some()
    }

    /// Sets the field `key` to `value`, replacing its former value.
    pub fn insert(&mut self, key: String, value: String)
        ensures
            final(self)@ == insert_entry(old(self)@, key@, value@),
            keys_distinct(final(self)@),
    {
        proof {
            use_type_invariant(&*self);
            lemma_insert_distinct(self@, key@, value@);
        }
        let pos = self.position(&key);
        let ghost old_view = self@;
        let mut entries: Vec<(String, String)> = Vec::new();
        std::mem::swap(&mut entries, &mut self.entries);
        match pos {
            Some(i) => {
                entries.set(i, (key, value));
            },
            None => {
                entries.push((key, value));
            },
        }
        assert(entries@.map_values(|e: (String, String)| (e.0@, e.1@)) =~= insert_entry(
            old_view,
            key@,
            value@,
        ));
        self.entries = entries;
    }

    /// Removes every field.
    pub fn clear(&mut self)
        ensures
            final(self)@ == Seq::<(Seq<char>, Seq<char>)>::empty(),
    {
        self.entries = Vec::new();
        assert(self@ =~= Seq::<(Seq<char>, Seq<char>)>::empty());
    }
}

} // verus!
