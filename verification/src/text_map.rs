//! A map keyed by text, kept as a list of entries in the order of their keys.
use crate::text::{
    lemma_text_before_total, lemma_text_before_trans, text_before, text_eq, text_less,
};
use vstd::prelude::*;
use vstd::string::*;

verus! {

/// A map from texts to values. No key occurs twice, and the entries stand in the
/// order of their keys.
#[derive(Debug, PartialEq, Eq)]
pub struct TextMap<V> {
    pub(crate) entries: Vec<(String, V)>,
}

/// The map that a sequence of entries with different keys describes.
pub open spec fn pairs_map<V>(pairs: Seq<(Seq<char>, V)>) -> Map<Seq<char>, V> {
    Map::new(
        |k: Seq<char>| exists|i: int| 0 <= i < pairs.len() && (#[trigger] pairs[i]).0 == k,
        |k: Seq<char>| pairs[choose|i: int| 0 <= i < pairs.len() && (#[trigger] pairs[i]).0 == k].1,
    )
}

/// Whether the keys of the entries stand in strictly increasing order.
pub open spec fn keys_increase<V>(entries: Seq<(String, V)>) -> bool {
    forall|i: int, j: int|
        0 <= i < j < entries.len() ==> text_before((#[trigger] entries[i]).0@, (
        #[trigger] entries[j]).0@)
}

/// The entries with the texts of their keys.
pub open spec fn entry_pairs<V>(entries: Seq<(String, V)>) -> Seq<(Seq<char>, V)> {
    entries.map_values(|e: (String, V)| (e.0@, e.1))
}

impl<V> View for TextMap<V> {
    type V = Map<Seq<char>, V>;

    open(crate) spec fn view(&self) -> Map<Seq<char>, V> {
        pairs_map(entry_pairs(self.entries@))
    }
}

pub(crate) proof fn lemma_pairs_map_has<V>(entries: Seq<(String, V)>, i: int)
    requires
        keys_increase(entries),
        0 <= i < entries.len(),
    ensures
        pairs_map(entry_pairs(entries)).contains_key(entries[i].0@),
        pairs_map(entry_pairs(entries))[entries[i].0@] == entries[i].1,
{
    let pairs = entry_pairs(entries);
    let k = entries[i].0@;
    assert(pairs[i].0 == k);
    let j = choose|j: int| 0 <= j < pairs.len() && (#[trigger] pairs[j]).0 == k;
    assert(pairs[j].0 == entries[j].0@);
    lemma_text_before_total(k, k);
    if i < j {
        assert(text_before(entries[i].0@, entries[j].0@));
    }
    if j < i {
        assert(text_before(entries[j].0@, entries[i].0@));
    }
}

pub(crate) proof fn lemma_pairs_map_lacks<V>(entries: Seq<(String, V)>, k: Seq<char>)
    requires
        forall|i: int| 0 <= i < entries.len() ==> (#[trigger] entries[i]).0@ != k,
    ensures
        !pairs_map(entry_pairs(entries)).contains_key(k),
{
    let pairs = entry_pairs(entries);
    if exists|i: int| 0 <= i < pairs.len() && (#[trigger] pairs[i]).0 == k {
        let i = choose|i: int| 0 <= i < pairs.len() && (#[trigger] pairs[i]).0 == k;
        assert(entries[i].0@ == k);
    }
}

/// Entries with the same keys and with values related by `f` describe maps with values
/// related by `f`.
pub(crate) proof fn lemma_pairs_map_values<V, W>(
    a: Seq<(String, V)>,
    b: Seq<(Seq<char>, W)>,
    f: spec_fn(V) -> W,
)
    requires
        keys_increase(a),
        a.len() == b.len(),
        forall|i: int| 0 <= i < a.len() ==> (#[trigger] b[i]).0 == a[i].0@ && b[i].1 == f(a[i].1),
    ensures
        pairs_map(entry_pairs(a)).map_values(f) == pairs_map(b),
{
    let m = pairs_map(entry_pairs(a)).map_values(f);
    let n = pairs_map(b);
    assert forall|k: Seq<char>|
        #![trigger n.dom().contains(k)]
        #![trigger m.dom().contains(k)]
        m.dom().contains(k) == n.dom().contains(k) && (n.dom().contains(k) ==> m[k] == n[k]) by {
        if exists|i: int| 0 <= i < b.len() && (#[trigger] b[i]).0 == k {
            let i = choose|i: int| 0 <= i < b.len() && (#[trigger] b[i]).0 == k;
            assert(b[i].0 == a[i].0@);
            lemma_pairs_map_has(a, i);
        } else {
            assert forall|i: int| 0 <= i < a.len() implies (#[trigger] a[i]).0@ != k by {
                assert(b[i].0 != k);
            }
            lemma_pairs_map_lacks(a, k);
        }
    }
    assert(m =~= n);
}

impl<V: Clone> Clone for TextMap<V> {
    fn clone(&self) -> (r: Self)
        ensures
            r@.dom() == self@.dom(),
    {
        proof {
            use_type_invariant(self);
        }
        let mut entries: Vec<(String, V)> = Vec::new();
        let mut i: usize = 0;
        while i < self.entries.len()
            invariant
                i == entries@.len(),
                i <= self.entries@.len(),
                forall|j: int| 0 <= j < i ==> (#[trigger] entries@[j]).0@ == self.entries@[j].0@,
            decreases self.entries@.len() - i,
        {
            entries.push((self.entries[i].0.clone(), self.entries[i].1.clone()));
            i = i + 1;
        }
        let r = TextMap { entries };
        proof {
            assert forall|k: Seq<char>| #[trigger] r@.dom().contains(k) == self@.dom().contains(k) by {
                let a = entry_pairs(r.entries@);
                let b = entry_pairs(self.entries@);
                assert(forall|j: int| 0 <= j < a.len() ==> (#[trigger] a[j]).0 == b[j].0);
                assert(forall|j: int| 0 <= j < b.len() ==> (#[trigger] b[j]).0 == a[j].0);
            }
            assert(r@.dom() =~= self@.dom());
        }
        r
    }
}

impl<V> TextMap<V> {
    #[verifier::type_invariant]
    pub(crate) open(crate) spec fn ordered(self) -> bool {
        keys_increase(self.entries@)
    }

    /// The map without entries.
    pub fn new() -> (r: Self)
        ensures
            r@ == Map::<Seq<char>, V>::empty(),
    {
        let r = TextMap { entries: Vec::new() };
        proof {
            assert forall|k: Seq<char>| !r@.contains_key(k) by {
                lemma_pairs_map_lacks(r.entries@, k);
            }
            assert(r@ =~= Map::<Seq<char>, V>::empty());
        }
        r
    }

    /// The map with the given entries.
    pub(crate) fn from_ordered(entries: Vec<(String, V)>) -> (r: Self)
        requires
            keys_increase(entries@),
        ensures
            r.entries@ == entries@,
    {
        TextMap { entries }
    }

    fn position(&self, key: &str) -> (r: Option<usize>)
        ensures
            match r {
                Some(i) => i < self.entries@.len() && self.entries@[i as int].0@ == key@,
                None => forall|i: int|
                    0 <= i < self.entries@.len() ==> (#[trigger] self.entries@[i]).0@ != key@,
            },
    {
        let mut i: usize = 0;
        while i < self.entries.len()
            invariant
                i <= self.entries@.len(),
                forall|j: int| 0 <= j < i ==> (#[trigger] self.entries@[j]).0@ != key@,
            decreases self.entries@.len() - i,
        {
            if text_eq(self.entries[i].0.as_str(), key) {
                return Some(i);
            }
            i = i + 1;
        }
        None
    }

    /// The value at `key`.
    pub fn get(&self, key: &str) -> (r: Option<&V>)
        ensures
            match r {
                Some(v) => self@.contains_key(key@) && self@[key@] == *v,
                None => !self@.contains_key(key@),
            },
    {
        proof {
            use_type_invariant(self);
        }
        match self.position(key) {
            Some(i) => {
                proof {
                    lemma_pairs_map_has(self.entries@, i as int);
                }
                Some(&self.entries[i].1)
            },
            None => {
                proof {
                    lemma_pairs_map_lacks(self.entries@, key@);
                }
                None
            },
        }
    }

    /// Whether there is a value at `key`.
    pub fn contains_key(&self, key: &str) -> (r: bool)
        ensures
            r == self@.contains_key(key@),
    {
        self.get(key).is_some()
    }

    /// Sets the value at `key`.
    pub fn insert(&mut self, key: String, value: V)
        ensures
            final(self)@ == old(self)@.insert(key@, value),
    {
        proof {
            use_type_invariant(&*self);
        }
        let ghost before = self.entries@;
        let ghost k = key@;
        let mut entries: Vec<(String, V)> = Vec::new();
        core::mem::swap(&mut self.entries, &mut entries);
        let mut i: usize = 0;
        while i < entries.len() && text_less(entries[i].0.as_str(), key.as_str())
            invariant
                i <= entries@.len(),
                entries@ == before,
                key@ == k,
                forall|j: int| 0 <= j < i ==> text_before((#[trigger] entries@[j]).0@, k),
            decreases entries@.len() - i,
        {
            i = i + 1;
        }
        if i < entries.len() && text_eq(entries[i].0.as_str(), key.as_str()) {
            entries.set(i, (key, value));
            proof {
                assert(forall|j: int|
                    0 <= j < entries@.len() ==> (#[trigger] entries@[j]).0@ == before[j].0@);
                lemma_replaced(before, entries@, i as int);
            }
        } else {
            proof {
                if i < before.len() {
                    lemma_text_before_total(before[i as int].0@, k);
                }
            }
            entries.insert(i, (key, value));
            proof {
                lemma_inserted(before, entries@, i as int);
            }
        }
        self.entries = entries;
    }

    /// Takes the value at `key` out of the map.
    pub fn take(&mut self, key: &str) -> (r: Option<V>)
        ensures
            final(self)@ == old(self)@.remove(key@),
            match r {
                Some(v) => old(self)@.contains_key(key@) && old(self)@[key@] == v,
                None => !old(self)@.contains_key(key@),
            },
    {
        proof {
            use_type_invariant(&*self);
        }
        let ghost before = self.entries@;
        match self.position(key) {
            Some(i) => {
                let mut entries: Vec<(String, V)> = Vec::new();
                core::mem::swap(&mut self.entries, &mut entries);
                let entry = entries.remove(i);
                proof {
                    lemma_pairs_map_has(before, i as int);
                    lemma_removed(before, entries@, i as int);
                }
                self.entries = entries;
                Some(entry.1)
            },
            None => {
                proof {
                    lemma_pairs_map_lacks(before, key@);
                    assert(self@.remove(key@) =~= self@);
                }
                None
            },
        }
    }
}

proof fn lemma_same_lookup<V>(
    a: Seq<(String, V)>,
    b: Seq<(String, V)>,
    k: Seq<char>,
    i: int,
    j: int,
)
    requires
        keys_increase(a),
        keys_increase(b),
        0 <= i < a.len(),
        0 <= j < b.len(),
        a[i].0@ == k,
        b[j].0@ == k,
        a[i].1 == b[j].1,
    ensures
        pairs_map(entry_pairs(a)).contains_key(k),
        pairs_map(entry_pairs(b)).contains_key(k),
        pairs_map(entry_pairs(a))[k] == pairs_map(entry_pairs(b))[k],
{
    lemma_pairs_map_has(a, i);
    lemma_pairs_map_has(b, j);
}

proof fn lemma_replaced<V>(a: Seq<(String, V)>, b: Seq<(String, V)>, i: int)
    requires
        keys_increase(a),
        0 <= i < a.len(),
        b.len() == a.len(),
        forall|j: int| 0 <= j < b.len() ==> (#[trigger] b[j]).0@ == a[j].0@,
        forall|j: int| 0 <= j < b.len() && j != i ==> (#[trigger] b[j]).1 == a[j].1,
    ensures
        keys_increase(b),
        pairs_map(entry_pairs(b)) == pairs_map(entry_pairs(a)).insert(b[i].0@, b[i].1),
{
    let m = pairs_map(entry_pairs(a)).insert(b[i].0@, b[i].1);
    let n = pairs_map(entry_pairs(b));
    assert(keys_increase(b)) by {
        assert forall|x: int, y: int| 0 <= x < y < b.len() implies text_before(
            (#[trigger] b[x]).0@,
            (#[trigger] b[y]).0@,
        ) by {
            assert(text_before(a[x].0@, a[y].0@));
        }
    }
    assert forall|k: Seq<char>|
        #![trigger n.dom().contains(k)]
        #![trigger m.dom().contains(k)]
        m.dom().contains(k) == n.dom().contains(k) && (n.dom().contains(k) ==> m[k] == n[k]) by {
        if exists|j: int| 0 <= j < b.len() && (#[trigger] b[j]).0@ == k {
            let j = choose|j: int| 0 <= j < b.len() && (#[trigger] b[j]).0@ == k;
            lemma_pairs_map_has(b, j);
            lemma_pairs_map_has(a, j);
            lemma_pairs_map_has(b, i);
            if j != i && b[i].0@ == k {
                lemma_text_before_total(k, k);
                if i < j {
                    assert(text_before(b[i].0@, b[j].0@));
                } else {
                    assert(text_before(b[j].0@, b[i].0@));
                }
            }
        } else {
            lemma_pairs_map_lacks(b, k);
            assert forall|j: int| 0 <= j < a.len() implies (#[trigger] a[j]).0@ != k by {
                assert(b[j].0@ != k);
            }
            lemma_pairs_map_lacks(a, k);
        }
    }
    assert(n =~= m);
}

proof fn lemma_inserted<V>(a: Seq<(String, V)>, b: Seq<(String, V)>, i: int)
    requires
        keys_increase(a),
        0 <= i <= a.len(),
        b.len() == a.len() + 1,
        b == a.insert(i, b[i]),
        forall|j: int| 0 <= j < i ==> text_before((#[trigger] a[j]).0@, b[i].0@),
        i < a.len() ==> text_before(b[i].0@, a[i].0@),
    ensures
        keys_increase(b),
        pairs_map(entry_pairs(b)) == pairs_map(entry_pairs(a)).insert(b[i].0@, b[i].1),
{
    let key = b[i].0@;
    assert forall|j: int| i <= j < a.len() implies text_before(key, (#[trigger] a[j]).0@) by {
        if j > i {
            assert(text_before(a[i].0@, a[j].0@));
            lemma_text_before_trans(key, a[i].0@, a[j].0@);
        }
    }
    assert(forall|j: int| 0 <= j < i ==> b[j] == a[j]);
    assert(forall|j: int| i < j < b.len() ==> b[j] == a[j - 1]);
    assert(keys_increase(b)) by {
        assert forall|x: int, y: int| 0 <= x < y < b.len() implies text_before(
            (#[trigger] b[x]).0@,
            (#[trigger] b[y]).0@,
        ) by {
            if y < i {
                assert(text_before(a[x].0@, a[y].0@));
            } else if y == i {
                assert(text_before(a[x].0@, key));
            } else if x < i {
                assert(text_before(a[x].0@, a[y - 1].0@));
            } else if x == i {
                assert(text_before(key, a[y - 1].0@));
            } else {
                assert(text_before(a[x - 1].0@, a[y - 1].0@));
            }
        }
    }
    let m = pairs_map(entry_pairs(a)).insert(key, b[i].1);
    let n = pairs_map(entry_pairs(b));
    assert forall|k: Seq<char>|
        #![trigger n.dom().contains(k)]
        #![trigger m.dom().contains(k)]
        m.dom().contains(k) == n.dom().contains(k) && (n.dom().contains(k) ==> m[k] == n[k]) by {
        lemma_pairs_map_has(b, i);
        if k != key {
            if exists|j: int| 0 <= j < a.len() && (#[trigger] a[j]).0@ == k {
                let j = choose|j: int| 0 <= j < a.len() && (#[trigger] a[j]).0@ == k;
                let p = if j < i {
                    j
                } else {
                    j + 1
                };
                assert(b[p] == a[j]);
                lemma_same_lookup(a, b, k, j, p);
            } else {
                assert forall|j: int| 0 <= j < b.len() implies (#[trigger] b[j]).0@ != k by {
                    if j < i {
                        assert(a[j].0@ != k);
                    } else if j > i {
                        assert(a[j - 1].0@ != k);
                    }
                }
                lemma_pairs_map_lacks(a, k);
                lemma_pairs_map_lacks(b, k);
            }
        }
    }
    assert(n =~= m);
}

proof fn lemma_removed<V>(a: Seq<(String, V)>, b: Seq<(String, V)>, i: int)
    requires
        keys_increase(a),
        0 <= i < a.len(),
        b == a.remove(i),
    ensures
        keys_increase(b),
        pairs_map(entry_pairs(b)) == pairs_map(entry_pairs(a)).remove(a[i].0@),
{
    let key = a[i].0@;
    assert(forall|j: int| 0 <= j < i ==> b[j] == a[j]);
    assert(forall|j: int| i <= j < b.len() ==> b[j] == a[j + 1]);
    assert(keys_increase(b)) by {
        assert forall|x: int, y: int| 0 <= x < y < b.len() implies text_before(
            (#[trigger] b[x]).0@,
            (#[trigger] b[y]).0@,
        ) by {
            let p = if x < i {
                x
            } else {
                x + 1
            };
            let q = if y < i {
                y
            } else {
                y + 1
            };
            assert(text_before(a[p].0@, a[q].0@));
        }
    }
    let m = pairs_map(entry_pairs(a)).remove(key);
    let n = pairs_map(entry_pairs(b));
    assert forall|k: Seq<char>|
        #![trigger n.dom().contains(k)]
        #![trigger m.dom().contains(k)]
        m.dom().contains(k) == n.dom().contains(k) && (n.dom().contains(k) ==> m[k] == n[k]) by {
        if exists|j: int| 0 <= j < b.len() && (#[trigger] b[j]).0@ == k {
            let j = choose|j: int| 0 <= j < b.len() && (#[trigger] b[j]).0@ == k;
            let p = if j < i {
                j
            } else {
                j + 1
            };
            assert(a[p] == b[j]);
            lemma_same_lookup(a, b, k, p, j);
            lemma_text_before_total(k, k);
            if p < i {
                assert(text_before(a[p].0@, a[i].0@));
            } else {
                assert(text_before(a[i].0@, a[p].0@));
            }
        } else {
            lemma_pairs_map_lacks(b, k);
            if k != key {
                assert forall|j: int| 0 <= j < a.len() implies (#[trigger] a[j]).0@ != k by {
                    if j < i {
                        assert(b[j].0@ != k);
                    } else if j > i {
                        assert(b[j - 1].0@ != k);
                    }
                }
                lemma_pairs_map_lacks(a, k);
            }
        }
    }
    assert(n =~= m);
}

/// Inserting commutes with taking the values of a map through a function.
pub(crate) proof fn lemma_insert_values<K, V, W>(m: Map<K, V>, k: K, v: V, f: spec_fn(V) -> W)
    ensures
        m.insert(k, v).map_values(f) == m.map_values(f).insert(k, f(v)),
{
    assert(m.insert(k, v).map_values(f) =~= m.map_values(f).insert(k, f(v)));
}

/// Removing commutes with taking the values of a map through a function.
pub(crate) proof fn lemma_remove_values<K, V, W>(m: Map<K, V>, k: K, f: spec_fn(V) -> W)
    ensures
        m.remove(k).map_values(f) == m.map_values(f).remove(k),
{
    assert(m.remove(k).map_values(f) =~= m.map_values(f).remove(k));
}

/// One more entry is one more binding.
pub(crate) proof fn lemma_entries_grow<V>(entries: Seq<(String, V)>, i: int)
    requires
        keys_increase(entries),
        0 <= i < entries.len(),
    ensures
        pairs_map(entry_pairs(entries.take(i + 1))) == pairs_map(
            entry_pairs(entries.take(i)),
        ).insert(entries[i].0@, entries[i].1),
{
    let a = entries.take(i);
    let b = entries.take(i + 1);
    assert(keys_increase(a)) by {
        assert forall|x: int, y: int| 0 <= x < y < a.len() implies text_before(
            (#[trigger] a[x]).0@,
            (#[trigger] a[y]).0@,
        ) by {
            assert(text_before(entries[x].0@, entries[y].0@));
        }
    }
    assert(b =~= a.insert(i, b[i]));
    assert forall|j: int| 0 <= j < i implies text_before((#[trigger] a[j]).0@, b[i].0@) by {
        assert(text_before(entries[j].0@, entries[i].0@));
    }
    lemma_inserted(a, b, i);
}

/// Whether the keys of pairs increase.
pub open spec fn pairs_increase<V>(pairs: Seq<(Seq<char>, V)>) -> bool {
    forall|i: int, j: int|
        0 <= i < j < pairs.len() ==> text_before((#[trigger] pairs[i]).0, (#[trigger] pairs[j]).0)
}

/// The entries of a map in the order of their keys.
pub open spec fn ordered_pairs<V>(m: Map<Seq<char>, V>) -> Seq<(Seq<char>, V)> {
    choose|pairs: Seq<(Seq<char>, V)>| pairs_increase(pairs) && #[trigger] pairs_map(pairs) == m
}

proof fn lemma_increasing_pair<V>(pairs: Seq<(Seq<char>, V)>, i: int)
    requires
        pairs_increase(pairs),
        0 <= i < pairs.len(),
    ensures
        pairs_map(pairs).contains_key(pairs[i].0),
        pairs_map(pairs)[pairs[i].0] == pairs[i].1,
{
    let k = pairs[i].0;
    let j = choose|j: int| 0 <= j < pairs.len() && (#[trigger] pairs[j]).0 == k;
    lemma_text_before_total(k, k);
    if i < j {
        assert(text_before(pairs[i].0, pairs[j].0));
    }
    if j < i {
        assert(text_before(pairs[j].0, pairs[i].0));
    }
}

proof fn lemma_pairs_without_last<V>(pairs: Seq<(Seq<char>, V)>)
    requires
        pairs_increase(pairs),
        pairs.len() > 0,
    ensures
        pairs_increase(pairs.drop_last()),
        pairs_map(pairs.drop_last()) == pairs_map(pairs).remove(pairs.last().0),
{
    let front = pairs.drop_last();
    let m = pairs_map(pairs).remove(pairs.last().0);
    let n = pairs_map(front);
    assert forall|i: int, j: int| 0 <= i < j < front.len() implies text_before(
        (#[trigger] front[i]).0,
        (#[trigger] front[j]).0,
    ) by {
        assert(text_before(pairs[i].0, pairs[j].0));
    }
    assert forall|k: Seq<char>| n.contains_key(k) implies #[trigger] m.contains_key(k) && m[k]
        == n[k] by {
        let i = choose|i: int| 0 <= i < front.len() && (#[trigger] front[i]).0 == k;
        assert(pairs[i].0 == k);
        lemma_increasing_pair(pairs, i);
        lemma_increasing_pair(front, i);
        assert(text_before(pairs[i].0, pairs[pairs.len() - 1].0));
        lemma_text_before_total(k, k);
    }
    assert forall|k: Seq<char>| m.contains_key(k) implies #[trigger] n.contains_key(k) by {
        let i = choose|i: int| 0 <= i < pairs.len() && (#[trigger] pairs[i]).0 == k;
        assert(i < front.len());
        assert(front[i].0 == k);
    }
    assert(m =~= n);
}

/// The order of the keys leaves one way to list the entries of a map.
pub(crate) proof fn lemma_ordered_pairs_unique<V>(
    a: Seq<(Seq<char>, V)>,
    b: Seq<(Seq<char>, V)>,
)
    requires
        pairs_increase(a),
        pairs_increase(b),
        pairs_map(a) == pairs_map(b),
    ensures
        a == b,
    decreases a.len(),
{
    if a.len() == 0 {
        if b.len() > 0 {
            lemma_increasing_pair(b, 0);
            let j = choose|j: int| 0 <= j < a.len() && (#[trigger] a[j]).0 == b[0].0;
        }
        assert(a =~= b);
    } else {
        lemma_increasing_pair(a, a.len() - 1);
        let i = choose|i: int| 0 <= i < b.len() && (#[trigger] b[i]).0 == a.last().0;
        lemma_increasing_pair(b, b.len() - 1);
        let j = choose|j: int| 0 <= j < a.len() && (#[trigger] a[j]).0 == b.last().0;
        lemma_text_before_total(a.last().0, a.last().0);
        if i < b.len() - 1 {
            assert(text_before(b[i].0, b[b.len() - 1].0));
            if j < a.len() - 1 {
                assert(text_before(a[j].0, a[a.len() - 1].0));
                lemma_text_before_trans(a.last().0, b.last().0, a.last().0);
            }
        }
        assert(a.last() == b.last());
        lemma_pairs_without_last(a);
        lemma_pairs_without_last(b);
        lemma_ordered_pairs_unique(a.drop_last(), b.drop_last());
        assert(a =~= a.drop_last().push(a.last()));
        assert(b =~= b.drop_last().push(b.last()));
    }
}

/// Entries in the order of their keys are those of the map that they describe.
pub(crate) proof fn lemma_ordered_pairs<V>(pairs: Seq<(Seq<char>, V)>)
    requires
        pairs_increase(pairs),
    ensures
        ordered_pairs(pairs_map(pairs)) == pairs,
{
    lemma_ordered_pairs_unique(ordered_pairs(pairs_map(pairs)), pairs);
}

impl<V> TextMap<V> {
    /// The number of entries.
    pub fn len(&self) -> (r: usize)
        ensures
            r == ordered_pairs(self@).len(),
            pairs_increase(ordered_pairs(self@)),
            pairs_map(ordered_pairs(self@)) == self@,
    {
        proof {
            use_type_invariant(self);
            lemma_entry_pairs_ordered(self.entries@);
        }
        self.entries.len()
    }

    /// The entry at a place in the order of the keys.
    pub fn entry(&self, i: usize) -> (r: (&String, &V))
        requires
            i < ordered_pairs(self@).len(),
        ensures
            (r.0@, *r.1) == ordered_pairs(self@)[i as int],
    {
        proof {
            use_type_invariant(self);
            lemma_entry_pairs_ordered(self.entries@);
        }
        (&self.entries[i].0, &self.entries[i].1)
    }
}

proof fn lemma_entry_pairs_ordered<V>(entries: Seq<(String, V)>)
    requires
        keys_increase(entries),
    ensures
        pairs_increase(entry_pairs(entries)),
        ordered_pairs(pairs_map(entry_pairs(entries))) == entry_pairs(entries),
{
    let pairs = entry_pairs(entries);
    assert forall|i: int, j: int| 0 <= i < j < pairs.len() implies text_before(
        (#[trigger] pairs[i]).0,
        (#[trigger] pairs[j]).0,
    ) by {
        assert(text_before(entries[i].0@, entries[j].0@));
    }
    lemma_ordered_pairs(pairs);
}

/// Listing the entries of a map commutes with taking its values through a function.
pub(crate) proof fn lemma_ordered_pairs_values<V, W>(m: TextMap<V>, f: spec_fn(V) -> W)
    requires
        m.ordered(),
    ensures
        ordered_pairs(m@.map_values(f)) == ordered_pairs(m@).map_values(
            |p: (Seq<char>, V)| (p.0, f(p.1)),
        ),
{
    let pairs = entry_pairs(m.entries@);
    lemma_entry_pairs_ordered(m.entries@);
    let mapped = pairs.map_values(|p: (Seq<char>, V)| (p.0, f(p.1)));
    lemma_pairs_map_values(m.entries@, mapped, f);
    assert forall|i: int, j: int| 0 <= i < j < mapped.len() implies text_before(
        (#[trigger] mapped[i]).0,
        (#[trigger] mapped[j]).0,
    ) by {
        assert(text_before(m.entries@[i].0@, m.entries@[j].0@));
    }
    lemma_ordered_pairs(mapped);
}

} // verus!
