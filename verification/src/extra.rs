//! Free-form extra values attached to configuration entries and page
//! metadata: a small map from keys to JSON values.

use vstd::prelude::*;
use crate::text::{chars_eq, chars_of};

verus! {

/// `serde_json::Value`, the JSON value that extra settings hold; declared
/// so that maps can carry such values, which the proofs treat as opaque.
#[verifier::external_type_specification]
#[verifier::external_body]
pub struct ExJsonValue(serde_json::Value);

/// A map from text keys to values, holding each key at most once and
/// keeping its entries in the order of their keys, so that two maps with the
/// same contents hold the same entries.
#[derive(Debug, PartialEq)]
pub struct KeyMap<V> {
    entries: Vec<(String, V)>,
}

/// Extra JSON values by key.
pub type ExtraMap = KeyMap<serde_json::Value>;

/// The map that a list of entries with distinct keys stands for.
pub open spec fn map_of<V>(entries: Seq<(String, V)>) -> Map<Seq<char>, V>
    decreases entries.len(),
{
    if entries.len() == 0 {
        Map::empty()
    } else {
        map_of(entries.drop_last()).insert(entries.last().0@, entries.last().1)
    }
}

/// The keys of the entries, in order.
pub open spec fn keys_of<V>(entries: Seq<(String, V)>) -> Seq<Seq<char>> {
    entries.map_values(|e: (String, V)| e.0@)
}

/// Whether no key occurs twice.
pub open spec fn distinct_keys<V>(entries: Seq<(String, V)>) -> bool {
    forall|i: int, j: int| 0 <= i < j < entries.len() ==> entries[i].0@ != entries[j].0@
}

/// Whether `a` comes before `b` in the order of their characters (by code
/// point), a proper prefix first.
pub open spec fn key_lt(a: Seq<char>, b: Seq<char>) -> bool
    decreases a.len(),
{
    if a.len() == 0 {
        b.len() > 0
    } else if b.len() == 0 {
        false
    } else if a[0] != b[0] {
        (a[0] as int) < (b[0] as int)
    } else {
        key_lt(a.drop_first(), b.drop_first())
    }
}

/// Whether the keys of the entries are in increasing order.
pub open spec fn sorted_keys<V>(entries: Seq<(String, V)>) -> bool {
    forall|i: int, j: int| 0 <= i < j < entries.len() ==> key_lt(#[trigger] entries[i].0@, #[trigger] entries[j].0@)
}

/// No key comes before itself.
proof fn lemma_key_irreflexive(a: Seq<char>)
    ensures
        !key_lt(a, a),
    decreases a.len(),
{
    if a.len() > 0 {
        lemma_key_irreflexive(a.drop_first());
    }
}

/// Of two different keys, one comes before the other.
proof fn lemma_key_total(a: Seq<char>, b: Seq<char>)
    ensures
        a != b ==> key_lt(a, b) || key_lt(b, a),
    decreases a.len(),
{
    if a.len() == 0 && b.len() == 0 {
        assert(a =~= b);
    } else if a.len() > 0 && b.len() > 0 && a[0] == b[0] {
        lemma_key_total(a.drop_first(), b.drop_first());
        if a.drop_first() == b.drop_first() {
            assert(a.drop_first().len() == b.drop_first().len());
            assert(a.len() == b.len());
            assert forall|i: int| 0 <= i < a.len() implies a[i] == b[i] by {
                if i > 0 {
                    assert(a[i] == a.drop_first()[i - 1]);
                    assert(b[i] == b.drop_first()[i - 1]);
                }
            }
            assert(a =~= b);
        }
    }
}

/// The order of keys is transitive.
proof fn lemma_key_trans(a: Seq<char>, b: Seq<char>, c: Seq<char>)
    ensures
        key_lt(a, b) && key_lt(b, c) ==> key_lt(a, c),
    decreases a.len(),
{
    if a.len() > 0 && b.len() > 0 && c.len() > 0 {
        lemma_key_trans(a.drop_first(), b.drop_first(), c.drop_first());
    }
}

/// The order of keys is strict, total and transitive.
proof fn lemma_key_order(a: Seq<char>, b: Seq<char>, c: Seq<char>)
    ensures
        !key_lt(a, a),
        a != b ==> key_lt(a, b) || key_lt(b, a),
        key_lt(a, b) && key_lt(b, c) ==> key_lt(a, c),
{
    lemma_key_irreflexive(a);
    lemma_key_total(a, b);
    lemma_key_trans(a, b, c);
}

/// Whether `a` comes before `b` in the order of their characters.
fn text_lt(a: &str, b: &str) -> (r: bool)
    ensures
        r == key_lt(a@, b@),
{
    let x = chars_of(a);
    let y = chars_of(b);
    let mut i: usize = 0;
    assert(x@.skip(0) =~= x@);
    assert(y@.skip(0) =~= y@);
    while i < x.len() && i < y.len()
        invariant
            i <= x.len(),
            i <= y.len(),
            x@ == a@,
            y@ == b@,
            key_lt(a@, b@) == key_lt(x@.skip(i as int), y@.skip(i as int)),
            forall|j: int| 0 <= j < i ==> x@[j] == y@[j],
        decreases x.len() - i,
    {
        let c = x[i];
        let d = y[i];
        assert(x@.skip(i as int)[0] == c);
        assert(y@.skip(i as int)[0] == d);
        if c != d {
            return c < d;
        }
        assert(x@.skip(i as int).drop_first() =~= x@.skip(i + 1));
        assert(y@.skip(i as int).drop_first() =~= y@.skip(i + 1));
        i = i + 1;
    }
    i == x.len() && i < y.len()
}

proof fn lemma_map_of_lookup<V>(entries: Seq<(String, V)>)
    requires
        distinct_keys(entries),
    ensures
        forall|i: int| 0 <= i < entries.len() ==> #[trigger] map_of(entries).contains_key(entries[i].0@)
            && map_of(entries)[entries[i].0@] == entries[i].1,
        forall|k: Seq<char>| map_of(entries).contains_key(k)
            ==> exists|i: int| 0 <= i < entries.len() && #[trigger] entries[i].0@ == k,
        map_of(entries).dom().finite(),
        map_of(entries).dom().len() == entries.len(),
    decreases entries.len(),
{
    if entries.len() > 0 {
        let init = entries.drop_last();
        assert(distinct_keys(init));
        lemma_map_of_lookup(init);
        let last = entries.last();
        assert(last == entries[entries.len() - 1]);
        assert(!map_of(init).contains_key(last.0@)) by {
            if map_of(init).contains_key(last.0@) {
                let i = choose|i: int| 0 <= i < init.len() && #[trigger] init[i].0@ == last.0@;
                assert(entries[i] == init[i]);
            }
        }
        assert forall|i: int| 0 <= i < entries.len() implies #[trigger] map_of(entries).contains_key(entries[i].0@)
            && map_of(entries)[entries[i].0@] == entries[i].1 by {
            if i < entries.len() - 1 {
                assert(entries[i] == init[i]);
            }
        }
        assert forall|k: Seq<char>| map_of(entries).contains_key(k)
            implies exists|i: int| 0 <= i < entries.len() && #[trigger] entries[i].0@ == k by {
            if k != last.0@ {
                let i = choose|i: int| 0 <= i < init.len() && #[trigger] init[i].0@ == k;
                assert(entries[i] == init[i]);
            } else {
                assert(entries[entries.len() - 1].0@ == k);
            }
        }
    }
}

impl<V> View for KeyMap<V> {
    type V = Map<Seq<char>, V>;

    closed spec fn view(&self) -> Map<Seq<char>, V> {
        map_of(self.entries@)
    }
}

impl<V> KeyMap<V> {
    #[verifier::type_invariant]
    closed spec fn keys_distinct(self) -> bool {
        distinct_keys(self.entries@) && sorted_keys(self.entries@)
    }

    /// An empty map.
    pub fn new() -> (m: Self)
        ensures
            m@ == Map::<Seq<char>, V>::empty(),
    {
        KeyMap { entries: Vec::new() }
    }

    /// The number of keys.
    pub fn len(&self) -> (n: usize)
        ensures
            n == self@.dom().len(),
    {
        proof {
            use_type_invariant(self);
            lemma_map_of_lookup(self.entries@);
        }
        self.entries.len()
    }

    /// Whether the map holds no key.
    pub fn is_empty(&self) -> (r: bool)
        ensures
            r == (self@.dom().len() == 0),
    {
        self.len() == 0
    }

    /// The position of `key`, if present.
    fn position(&self, key: &str) -> (r: Option<usize>)
        ensures
            match r {
                Some(i) => i < self.entries.len() && self.entries@[i as int].0@ == key@,
                None => forall|i: int| 0 <= i < self.entries.len() ==> self.entries@[i].0@ != key@,
            },
    {
        let k = chars_of(key);
        let mut i: usize = 0;
        while i < self.entries.len()
            invariant
                i <= self.entries.len(),
                k@ == key@,
                forall|j: int| 0 <= j < i ==> self.entries@[j].0@ != key@,
            decreases self.entries.len() - i,
        {
            let c = chars_of(self.entries[i].0.as_str());
            if chars_eq(&c, &k) {
                return Some(i);
            }
            i = i + 1;
        }
        None
    }

    /// The keys, each once, in increasing order.
    pub fn keys(&self) -> (r: Vec<String>)
        ensures
            r.len() == self@.dom().len(),
            forall|i: int| 0 <= i < r.len() ==> self@.contains_key(#[trigger] r@[i]@),
            forall|k: Seq<char>| self@.contains_key(k) ==> exists|i: int| 0 <= i < r.len() && #[trigger] r@[i]@ == k,
            forall|i: int, j: int| 0 <= i < j < r.len() ==> r@[i]@ != r@[j]@,
    {
        proof {
            use_type_invariant(self);
            lemma_map_of_lookup(self.entries@);
        }
        let mut r: Vec<String> = Vec::new();
        let mut i: usize = 0;
        while i < self.entries.len()
            invariant
                i <= self.entries.len(),
                r.len() == i,
                forall|j: int| 0 <= j < i ==> (#[trigger] r@[j])@ == self.entries@[j].0@,
            decreases self.entries.len() - i,
        {
            r.push(self.entries[i].0.clone());
            i = i + 1;
        }
        proof {
            assert forall|k: Seq<char>| self@.contains_key(k) implies exists|i: int| 0 <= i < r.len() && #[trigger] r@[i]@ == k by {
                let j = choose|j: int| 0 <= j < self.entries@.len() && #[trigger] self.entries@[j].0@ == k;
                assert(r@[j]@ == k);
            }
            assert forall|i: int| 0 <= i < r.len() implies self@.contains_key(#[trigger] r@[i]@) by {
                assert(r@[i]@ == self.entries@[i].0@);
            }
        }
        r
    }

    /// The value held for `key`, if any.
    pub fn get(&self, key: &str) -> (r: Option<&V>)
        ensures
            match r {
                Some(v) => self@.contains_key(key@) && self@[key@] == *v,
                None => !self@.contains_key(key@),
            },
    {
        proof {
            use_type_invariant(self);
            lemma_map_of_lookup(self.entries@);
        }
        match self.position(key) {
            Some(i) => {
                proof {
                    assert(map_of(self.entries@).contains_key(self.entries@[i as int].0@));
                }
                Some(&self.entries[i].1)
            },
            None => {
                proof {
                    if self@.contains_key(key@) {
                        let j = choose|j: int| 0 <= j < self.entries@.len() && #[trigger] self.entries@[j].0@ == key@;
                        assert(self.entries@[j].0@ != key@);
                    }
                }
                None
            },
        }
    }

    /// Sets the value of `key`, giving back the value it replaced.
    pub fn insert(&mut self, key: String, value: V) -> (r: Option<V>)
        ensures
            final(self)@ == old(self)@.insert(key@, value),
            match r {
                Some(v) => old(self)@.contains_key(key@) && old(self)@[key@] == v,
                None => !old(self)@.contains_key(key@),
            },
    {
        proof {
            use_type_invariant(&*self);
            lemma_map_of_lookup(self.entries@);
        }
        let ghost before = self.entries@;
        match self.position(key.as_str()) {
            Some(i) => {
                let mut entries: Vec<(String, V)> = Vec::new();
                std::mem::swap(&mut entries, &mut self.entries);
                let (k, v) = entries.remove(i);
                entries.insert(i, (key, value));
                proof {
                    let after = entries@;
                    assert(after == before.update(i as int, (after[i as int].0, value)));
                    assert(after[i as int].0@ == k@);
                    assert(distinct_keys(after)) by {
                        assert forall|a: int, b: int| 0 <= a < b < after.len() implies after[a].0@ != after[b].0@ by {
                            assert(after[a].0@ == before[a].0@);
                            assert(after[b].0@ == before[b].0@);
                        }
                    }
                    assert(sorted_keys(after)) by {
                        assert forall|a: int, b: int| 0 <= a < b < after.len() implies
                            key_lt(#[trigger] after[a].0@, #[trigger] after[b].0@) by {
                            assert(after[a].0@ == before[a].0@);
                            assert(after[b].0@ == before[b].0@);
                            assert(key_lt(before[a].0@, before[b].0@));
                        }
                    }
                    lemma_map_of_lookup(after);
                    assert(map_of(after) =~= map_of(before).insert(key@, value)) by {
                        assert forall|q: Seq<char>| #[trigger] map_of(after).contains_key(q)
                            <==> map_of(before).insert(key@, value).contains_key(q) by {
                            if map_of(after).contains_key(q) {
                                let j = choose|j: int| 0 <= j < after.len() && #[trigger] after[j].0@ == q;
                                assert(after[j].0@ == before[j].0@);
                            }
                            if map_of(before).contains_key(q) {
                                let j = choose|j: int| 0 <= j < before.len() && #[trigger] before[j].0@ == q;
                                assert(after[j].0@ == before[j].0@);
                            }
                        }
                        assert forall|q: Seq<char>| #[trigger] map_of(after).contains_key(q)
                            implies map_of(after)[q] == map_of(before).insert(key@, value)[q] by {
                            let j = choose|j: int| 0 <= j < after.len() && #[trigger] after[j].0@ == q;
                            if j != i {
                                assert(after[j] == before[j]);
                            }
                        }
                    }
                }
                self.entries = entries;
                Some(v)
            },
            None => {
                let mut p: usize = 0;
                while p < self.entries.len() && !text_lt(key.as_str(), self.entries[p].0.as_str())
                    invariant
                        p <= self.entries.len(),
                        self.entries@ == before,
                        forall|j: int| 0 <= j < p ==> key_lt(#[trigger] before[j].0@, key@),
                        forall|j: int| 0 <= j < before.len() ==> before[j].0@ != key@,
                    decreases self.entries.len() - p,
                {
                    proof { lemma_key_order(before[p as int].0@, key@, key@); }
                    p = p + 1;
                }
                let mut entries: Vec<(String, V)> = Vec::new();
                std::mem::swap(&mut entries, &mut self.entries);
                let ghost kv = key@;
                entries.insert(p, (key, value));
                proof {
                    let after = entries@;
                    assert(after[p as int].0@ == kv);
                    assert forall|j: int| 0 <= j < p implies after[j] == before[j] by {}
                    assert forall|j: int| p < j < after.len() implies after[j] == before[j - 1] by {}
                    assert forall|j: int| p <= j < before.len() implies key_lt(kv, #[trigger] before[j].0@) by {
                        assert(key_lt(kv, before[p as int].0@));
                        if j > p {
                            assert(key_lt(before[p as int].0@, before[j].0@));
                            lemma_key_order(kv, before[p as int].0@, before[j].0@);
                        }
                    }
                    assert(sorted_keys(after)) by {
                        assert forall|a: int, b: int| 0 <= a < b < after.len() implies
                            key_lt(#[trigger] after[a].0@, #[trigger] after[b].0@) by {
                            if b < p {
                                assert(key_lt(before[a].0@, before[b].0@));
                            } else if b == p {
                                assert(key_lt(before[a].0@, kv));
                            } else if a > p {
                                assert(key_lt(before[a - 1].0@, before[b - 1].0@));
                            } else if a == p {
                                assert(key_lt(kv, before[b - 1].0@));
                            } else {
                                assert(key_lt(before[a].0@, kv));
                                assert(key_lt(kv, before[b - 1].0@));
                                lemma_key_order(before[a].0@, kv, before[b - 1].0@);
                            }
                        }
                    }
                    assert(distinct_keys(after)) by {
                        assert forall|a: int, b: int| 0 <= a < b < after.len() implies after[a].0@ != after[b].0@ by {
                            assert(key_lt(after[a].0@, after[b].0@));
                            lemma_key_order(after[a].0@, after[a].0@, after[a].0@);
                        }
                    }
                    lemma_map_of_lookup(after);
                    assert(map_of(after) =~= map_of(before).insert(kv, value)) by {
                        assert forall|q: Seq<char>| #[trigger] map_of(after).contains_key(q)
                            <==> map_of(before).insert(kv, value).contains_key(q) by {
                            if map_of(after).contains_key(q) && q != kv {
                                let j = choose|j: int| 0 <= j < after.len() && #[trigger] after[j].0@ == q;
                                if j < p {
                                    assert(after[j] == before[j]);
                                } else {
                                    assert(j != p);
                                    assert(after[j] == before[j - 1]);
                                }
                            }
                            if map_of(before).contains_key(q) {
                                let j = choose|j: int| 0 <= j < before.len() && #[trigger] before[j].0@ == q;
                                if j < p {
                                    assert(after[j] == before[j]);
                                } else {
                                    assert(after[j + 1] == before[j]);
                                }
                            }
                            if q == kv {
                                assert(after[p as int].0@ == kv);
                            }
                        }
                        assert forall|q: Seq<char>| #[trigger] map_of(after).contains_key(q)
                            implies map_of(after)[q] == map_of(before).insert(kv, value)[q] by {
                            let j = choose|j: int| 0 <= j < after.len() && #[trigger] after[j].0@ == q;
                            if j < p {
                                assert(after[j] == before[j]);
                            } else if j > p {
                                assert(after[j] == before[j - 1]);
                            }
                        }
                    }
                }
                self.entries = entries;
                None
            },
        }
    }
}

impl<V: Clone> Clone for KeyMap<V> {
    /// A copy with the same keys.
    fn clone(&self) -> (m: Self)
        ensures
            m@.dom() == self@.dom(),
    {
        proof {
            use_type_invariant(self);
        }
        let mut entries: Vec<(String, V)> = Vec::new();
        let mut i: usize = 0;
        while i < self.entries.len()
            invariant
                i <= self.entries.len(),
                distinct_keys(self.entries@),
                sorted_keys(self.entries@),
                entries.len() == i,
                forall|j: int| 0 <= j < i ==> #[trigger] entries@[j].0@ == self.entries@[j].0@,
            decreases self.entries.len() - i,
        {
            let k = self.entries[i].0.clone();
            let v = self.entries[i].1.clone();
            entries.push((k, v));
            i = i + 1;
        }
        proof {
            assert(distinct_keys(entries@));
            assert(sorted_keys(entries@)) by {
                assert forall|a: int, b: int| 0 <= a < b < entries@.len() implies
                    key_lt(#[trigger] entries@[a].0@, #[trigger] entries@[b].0@) by {
                    assert(key_lt(self.entries@[a].0@, self.entries@[b].0@));
                }
            }
            lemma_map_of_lookup(entries@);
            lemma_map_of_lookup(self.entries@);
            assert(map_of(entries@).dom() =~= map_of(self.entries@).dom()) by {
                assert forall|q: Seq<char>| map_of(entries@).dom().contains(q) implies map_of(self.entries@).dom().contains(q) by {
                    let j = choose|j: int| 0 <= j < entries@.len() && #[trigger] entries@[j].0@ == q;
                    assert(self.entries@[j].0@ == q);
                }
                assert forall|q: Seq<char>| map_of(self.entries@).dom().contains(q) implies map_of(entries@).dom().contains(q) by {
                    let j = choose|j: int| 0 <= j < self.entries@.len() && #[trigger] self.entries@[j].0@ == q;
                    assert(entries@[j].0@ == q);
                }
            }
        }
        KeyMap { entries }
    }
}

impl<V> Default for KeyMap<V> {
    fn default() -> (m: Self)
        ensures
            m@ == Map::<Seq<char>, V>::empty(),
    {
        KeyMap::new()
    }
}

/// What a map gives back for a key is what was last inserted under it,
/// and inserting under one key leaves every other key as it was.
pub proof fn lemma_insert_then_get<V>(before: KeyMap<V>, after: KeyMap<V>, key: Seq<char>, value: V, other: Seq<char>)
    requires
        after@ == before@.insert(key, value),
    ensures
        after@.contains_key(key),
        after@[key] == value,
        other != key ==> after@.contains_key(other) == before@.contains_key(other),
        other != key && before@.contains_key(other) ==> after@[other] == before@[other],
{
}

} // verus!
