use vstd::prelude::*;

verus! {

// An association sequence models a name-keyed map while keeping the order of
// its entries. The spec functions below are shared by every map-like contract
// in the crate.

/// Index of the first entry with key `k`, or -1 if no entry has that key.
pub open spec fn assoc_index_of<T>(m: Seq<(Seq<char>, T)>, k: Seq<char>) -> int
    decreases m.len(),
{
    if m.len() == 0 {
        -1
    } else if m[0].0 == k {
        0
    } else {
        let r = assoc_index_of(m.subrange(1, m.len() as int), k);
        if r < 0 {
            -1
        } else {
            r + 1
        }
    }
}

pub open spec fn assoc_has_key<T>(m: Seq<(Seq<char>, T)>, k: Seq<char>) -> bool {
    assoc_index_of(m, k) >= 0
}

/// Value of the first entry with key `k`.
pub open spec fn assoc_get<T>(m: Seq<(Seq<char>, T)>, k: Seq<char>) -> Option<T> {
    if assoc_has_key(m, k) {
        Some(m[assoc_index_of(m, k)].1)
    } else {
        None
    }
}

pub open spec fn assoc_keys_unique<T>(m: Seq<(Seq<char>, T)>) -> bool {
    forall|i: int, j: int| 0 <= i < j < m.len() ==> m[i].0 != m[j].0
}

/// `assoc_index_of` finds the first entry with the key, and -1 means no entry
/// has it.
pub proof fn lemma_assoc_index_of<T>(m: Seq<(Seq<char>, T)>, k: Seq<char>)
    ensures
        assoc_has_key(m, k) ==> {
            &&& 0 <= assoc_index_of(m, k) < m.len()
            &&& m[assoc_index_of(m, k)].0 == k
            &&& forall|i: int| 0 <= i < assoc_index_of(m, k) ==> m[i].0 != k
        },
        !assoc_has_key(m, k) ==> forall|i: int| 0 <= i < m.len() ==> m[i].0 != k,
    decreases m.len(),
{
    if m.len() > 0 && m[0].0 != k {
        let rest = m.subrange(1, m.len() as int);
        lemma_assoc_index_of(rest, k);
        assert forall|i: int| 1 <= i < m.len() implies m[i] == rest[i - 1] by {}
    }
}

/// If entry `i` holds key `k` and no earlier entry does, then `i` is the
/// index `assoc_index_of` finds.
pub proof fn lemma_assoc_index_first<T>(m: Seq<(Seq<char>, T)>, k: Seq<char>, i: int)
    requires
        0 <= i < m.len(),
        m[i].0 == k,
        forall|j: int| 0 <= j < i ==> m[j].0 != k,
    ensures
        assoc_index_of(m, k) == i,
    decreases m.len(),
{
    if i > 0 {
        let rest = m.subrange(1, m.len() as int);
        assert forall|j: int| 0 <= j < i - 1 implies rest[j].0 != k by {
            assert(rest[j] == m[j + 1]);
        }
        lemma_assoc_index_first(rest, k, i - 1);
    }
}

/// Association sequences with the same keys at each index agree on every key
/// lookup.
pub proof fn lemma_assoc_index_same_keys<T, U>(
    a: Seq<(Seq<char>, T)>,
    b: Seq<(Seq<char>, U)>,
    k: Seq<char>,
)
    requires
        a.len() == b.len(),
        forall|i: int| 0 <= i < a.len() ==> a[i].0 == b[i].0,
    ensures
        assoc_index_of(a, k) == assoc_index_of(b, k),
    decreases a.len(),
{
    if a.len() > 0 && a[0].0 != k {
        let ra = a.subrange(1, a.len() as int);
        let rb = b.subrange(1, b.len() as int);
        assert forall|i: int| 0 <= i < ra.len() implies ra[i].0 == rb[i].0 by {
            assert(ra[i] == a[i + 1]);
            assert(rb[i] == b[i + 1]);
        }
        lemma_assoc_index_same_keys(ra, rb, k);
    }
}

/// Removing an entry keeps the remaining keys unique.
pub proof fn lemma_assoc_unique_remove<T>(m: Seq<(Seq<char>, T)>, i: int)
    requires
        assoc_keys_unique(m),
        0 <= i < m.len(),
    ensures
        assoc_keys_unique(m.remove(i)),
{
    let r = m.remove(i);
    assert forall|x: int, y: int| 0 <= x < y < r.len() implies r[x].0 != r[y].0 by {
        let ox = if x < i { x } else { x + 1 };
        let oy = if y < i { y } else { y + 1 };
        assert(r[x] == m[ox]);
        assert(r[y] == m[oy]);
    }
}

/// When keys are unique, removing the entry that holds a key removes the key.
pub proof fn lemma_assoc_remove_key<T>(m: Seq<(Seq<char>, T)>, k: Seq<char>)
    requires
        assoc_keys_unique(m),
        assoc_has_key(m, k),
    ensures
        !assoc_has_key(m.remove(assoc_index_of(m, k)), k),
{
    lemma_assoc_index_of(m, k);
    let i = assoc_index_of(m, k);
    let r = m.remove(i);
    assert forall|x: int| 0 <= x < r.len() implies r[x].0 != k by {
        let ox = if x < i { x } else { x + 1 };
        assert(r[x] == m[ox]);
        if ox != i {
            assert(m[ox].0 != m[i].0);
        }
    }
    lemma_assoc_index_of(r, k);
    if assoc_has_key(r, k) {
        assert(r[assoc_index_of(r, k)].0 == k);
    }
}

/// A key-to-value map with string keys, kept as an ordered sequence of
/// entries. Lookups find the first entry with the key; the well-formed maps
/// of this crate keep their keys unique.
#[derive(Debug)]
pub struct StrMap<V> {
    pairs: Vec<(String, V)>,
}

impl<V: View> View for StrMap<V> {
    type V = Seq<(Seq<char>, V::V)>;

    closed spec fn view(&self) -> Seq<(Seq<char>, V::V)> {
        self.pairs@.map_values(|p: (String, V)| (p.0@, p.1@))
    }
}

impl<V: View> StrMap<V> {
    pub fn new() -> (r: Self)
        ensures
            r@ == Seq::<(Seq<char>, V::V)>::empty(),
    {
        let r = StrMap { pairs: Vec::new() };
        proof {
            assert(r@ =~= Seq::<(Seq<char>, V::V)>::empty());
        }
        r
    }

    pub fn len(&self) -> (n: usize)
        ensures
            n == self@.len(),
    {
        self.pairs.len()
    }

    pub fn key_at(&self, i: usize) -> (k: &String)
        requires
            i < self@.len(),
        ensures
            k@ == self@[i as int].0,
    {
        &self.pairs[i].0
    }

    pub fn value_at(&self, i: usize) -> (v: &V)
        requires
            i < self@.len(),
        ensures
            v@ == self@[i as int].1,
    {
        &self.pairs[i].1
    }

    /// Index of the first entry whose key is `key`, if any entry has it.
    pub fn index_of(&self, key: &str) -> (r: Option<usize>)
        ensures
            match r {
                Some(i) => i == assoc_index_of(self@, key@) && i < self@.len()
                    && self@[i as int].0 == key@,
                None => !assoc_has_key(self@, key@),
            },
    {
        proof {
            lemma_assoc_index_of(self@, key@);
        }
        let needle = key_string(key);
        let n = self.pairs.len();
        let mut i: usize = 0;
        while i < n
            invariant
                n == self@.len(),
                n == self.pairs@.len(),
                i <= n,
                needle@ == key@,
                forall|j: int| 0 <= j < i ==> self@[j].0 != key@,
            decreases n - i,
        {
            if self.pairs[i].0 == needle {
                proof {
                    assert(self@[i as int].0 == key@);
                    lemma_assoc_index_first(self@, key@, i as int);
                }
                return Some(i);
            }
            proof {
                assert(self@[i as int].0 != key@);
            }
            i += 1;
        }
        None
    }

    pub fn contains_key(&self, key: &str) -> (r: bool)
        ensures
            r == assoc_has_key(self@, key@),
    {
        self.index_of(key).is_some()
    }

    pub fn get(&self, key: &str) -> (r: Option<&V>)
        ensures
            match r {
                Some(v) => assoc_get(self@, key@) == Some(v@),
                None => assoc_get(self@, key@) is None,
            },
    {
        match self.index_of(key) {
            Some(i) => Some(&self.pairs[i].1),
            None => None,
        }
    }

    /// Inserts the value under the key: replaces the value of the entry that
    /// has the key, or appends a new entry.
    pub fn insert(&mut self, key: String, value: V)
        ensures
            assoc_has_key(old(self)@, key@) ==> final(self)@ == old(self)@.update(
                assoc_index_of(old(self)@, key@),
                (key@, value@),
            ),
            !assoc_has_key(old(self)@, key@) ==> final(self)@ == old(self)@.push((key@, value@)),
    {
        match self.index_of(key.as_str()) {
            Some(i) => {
                self.pairs.remove(i);
                self.pairs.insert(i, (key, value));
                proof {
                    assert(self@ =~= old(self)@.update(
                        assoc_index_of(old(self)@, key@),
                        (key@, value@),
                    ));
                }
            },
            None => {
                self.pairs.push((key, value));
                proof {
                    assert(self@ =~= old(self)@.push((key@, value@)));
                }
            },
        }
    }

    /// Removes the first entry with the key and hands its value back; the
    /// entries after it move up one place.
    pub fn remove(&mut self, key: &str) -> (r: Option<V>)
        ensures
            match r {
                Some(v) => {
                    &&& assoc_has_key(old(self)@, key@)
                    &&& Some(v@) == assoc_get(old(self)@, key@)
                    &&& final(self)@ == old(self)@.remove(assoc_index_of(old(self)@, key@))
                },
                None => {
                    &&& !assoc_has_key(old(self)@, key@)
                    &&& final(self)@ == old(self)@
                },
            },
    {
        match self.index_of(key) {
            Some(i) => {
                let p = self.pairs.remove(i);
                proof {
                    assert(self@ =~= old(self)@.remove(assoc_index_of(old(self)@, key@)));
                }
                Some(p.1)
            },
            None => None,
        }
    }

    /// Takes the entry at `i` out; the entries after it move up one place.
    pub fn remove_at(&mut self, i: usize) -> (kv: (String, V))
        requires
            i < old(self)@.len(),
        ensures
            kv.0@ == old(self)@[i as int].0,
            kv.1@ == old(self)@[i as int].1,
            final(self)@ == old(self)@.remove(i as int),
    {
        let kv = self.pairs.remove(i);
        proof {
            assert(self@ =~= old(self)@.remove(i as int));
        }
        kv
    }

    /// Whether no two entries share a key.
    pub fn keys_unique(&self) -> (r: bool)
        ensures
            r == assoc_keys_unique(self@),
    {
        let n = self.pairs.len();
        let mut i: usize = 0;
        while i < n
            invariant
                n == self@.len(),
                n == self.pairs@.len(),
                i <= n,
                forall|x: int, y: int| 0 <= x < y < n && x < i ==> self@[x].0 != self@[y].0,
            decreases n - i,
        {
            let mut j: usize = i + 1;
            while j < n
                invariant
                    n == self@.len(),
                    n == self.pairs@.len(),
                    i < j <= n,
                    i < n,
                    forall|y: int| i < y < j ==> self@[i as int].0 != self@[y].0,
                decreases n - j,
            {
                if str_eq(self.pairs[i].0.as_str(), self.pairs[j].0.as_str()) {
                    proof {
                        assert(self@[i as int].0 == self@[j as int].0);
                    }
                    return false;
                }
                j += 1;
            }
            i += 1;
        }
        true
    }

    /// Puts an entry in at `i`; the entries from `i` on move down one place.
    pub fn insert_at(&mut self, i: usize, key: String, value: V)
        requires
            i <= old(self)@.len(),
        ensures
            final(self)@ == old(self)@.insert(i as int, (key@, value@)),
    {
        self.pairs.insert(i, (key, value));
        proof {
            assert(self@ =~= old(self)@.insert(i as int, (key@, value@)));
        }
    }
}

/// Owned copy of a borrowed key.
fn key_string(key: &str) -> (r: String)
    ensures
        r@ == key@,
{
    key.to_owned()
}

/// String equality by contents.
pub fn str_eq(a: &str, b: &str) -> (r: bool)
    ensures
        r == (a@ == b@),
{
    a.to_owned() == b.to_owned()
}

} // verus!
