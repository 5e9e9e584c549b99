use std::collections::HashMap;
use std::hash::Hash;
use vstd::prelude::*;
use vstd::std_specs::cmp::PartialEqSpec;
use vstd::std_specs::hash::obeys_key_model;

verus! {

/// The key type behaves as a hash map key must: hashing and equality agree
/// with identity, and a clone equals the value it was made from.
pub open spec fn lawful_key<K: Eq + Hash + Clone>() -> bool {
    &&& obeys_key_model::<K>()
    &&& <K as PartialEqSpec>::obeys_eq_spec()
    &&& forall|a: K, b: K| #[trigger] a.eq_spec(&b) <==> a == b
    &&& forall|a: K, b: K| #[trigger] cloned::<K>(a, b) ==> a == b
}

/// The order of keys after inserting `k`: `k` leaves its place, if it had
/// one, and goes last.
pub open spec fn keys_after_insert<K>(keys: Seq<K>, k: K) -> Seq<K> {
    keys.remove_value(k).push(k)
}

/// A map that remembers the order in which its keys were last inserted.
#[derive(Clone, Debug)]
pub struct OMap<K, V> {
    map: HashMap<K, V>,
    order: Vec<K>,
}

impl<K, V> OMap<K, V> {
    /// The keys, in the order of their last insertion.
    pub closed spec fn keys(&self) -> Seq<K> {
        self.order@
    }

    /// The contents of the map.
    pub closed spec fn entries(&self) -> Map<K, V> {
        self.map@
    }

    /// Every key is listed once in the order, and the order lists exactly
    /// the keys of the map.
    pub open spec fn wf(&self) -> bool {
        &&& self.keys().no_duplicates()
        &&& self.keys().to_set() == self.entries().dom()
    }
}

impl<K: Eq + Hash + Clone, V> OMap<K, V> {
    /// An empty map.
    pub fn new() -> (m: Self)
        ensures
            m.wf(),
            m.keys() == Seq::<K>::empty(),
            m.entries() == Map::<K, V>::empty(),
    {
        let m = OMap { map: HashMap::new(), order: Vec::new() };
        assert(m.order@.to_set() =~= Set::<K>::empty());
        m
    }

    /// An empty map with room for `capacity` entries.
    pub fn with_capacity(capacity: usize) -> (m: Self)
        ensures
            m.wf(),
            m.keys() == Seq::<K>::empty(),
            m.entries() == Map::<K, V>::empty(),
    {
        let m = OMap { map: HashMap::with_capacity(capacity), order: Vec::with_capacity(capacity) };
        assert(m.order@.to_set() =~= Set::<K>::empty());
        m
    }

    /// Maps `key` to `value`; `key` becomes the last key of the order.
    pub fn insert(&mut self, key: K, value: V)
        requires
            lawful_key::<K>(),
            old(self).wf(),
        ensures
            final(self).wf(),
            final(self).keys() == keys_after_insert(old(self).keys(), key),
            final(self).entries() == old(self).entries().insert(key, value),
    {
        let ghost old_order = self.order@;
        if self.map.contains_key(&key) {
            let mut index: usize = 0;
            proof {
                assert(old_order.to_set().contains(key));
            }
            while index < self.order.len()
                invariant
                    lawful_key::<K>(),
                    self.order@ == old_order,
                    old_order.contains(key),
                    forall|j: int| 0 <= j < index ==> old_order[j] != key,
                    index <= old_order.len(),
                ensures
                    index < old_order.len(),
                    old_order[index as int] == key,
                decreases old_order.len() - index,
            {
                if self.order[index] == key {
                    break;
                }
                proof {
                    if index + 1 == old_order.len() {
                        let j = choose|j: int| 0 <= j < old_order.len() && old_order[j] == key;
                        assert(j <= index);
                    }
                }
                index = index + 1;
            }
            proof {
                old_order.index_of_first_ensures(key);
                match old_order.index_of_first(key) {
                    Some(f) => {
                        if f < index {
                        } else if f > index {
                            assert(old_order[index as int] == key);
                        }
                    },
                    None => {},
                }
            }
            assert(old_order.index_of_first(key) == Some(index as int));
            self.order.remove(index);
        } else {
            proof {
                old_order.index_of_first_ensures(key);
            }
        }
        let ghost kept = self.order@;
        assert(kept == old_order.remove_value(key));
        let copy = Some(&key).cloned().unwrap();
        assert(copy == key);
        self.order.push(copy);
        self.map.insert(key, value);
        proof {
            lemma_keys_after_insert(old_order, key);
            assert(self.order@ == keys_after_insert(old_order, key));
        }
    }

    /// The entries, in the order of the keys.
    pub fn to_serialize<'a>(&'a self) -> (r: Vec<(&'a K, &'a V)>)
        requires
            obeys_key_model::<K>(),
            self.wf(),
        ensures
            r.len() == self.keys().len(),
            r.len() == self.entries().dom().len(),
            forall|i: int|
                0 <= i < r.len() ==> *(#[trigger] r@[i]).0 == self.keys()[i] && *r@[i].1
                    == self.entries()[self.keys()[i]],
            forall|i: int, j: int| 0 <= i < j < r.len() ==> *(#[trigger] r@[i]).0 != *(#[trigger] r@[j]).0,
    {
        proof {
            law_listing_length(self.keys(), self.entries());
        }
        let mut r: Vec<(&'a K, &'a V)> = Vec::new();
        for i in 0..self.order.len()
            invariant
                obeys_key_model::<K>(),
                self.wf(),
                r.len() == i,
                forall|q: int|
                    0 <= q < i ==> *(#[trigger] r@[q]).0 == self.keys()[q] && *r@[q].1
                        == self.entries()[self.keys()[q]],
        {
            let k = &self.order[i];
            proof {
                assert(self.keys().to_set().contains(self.keys()[i as int]));
            }
            let v = self.map.get(k).unwrap();
            r.push((k, v));
        }
        assert forall|i: int, j: int| 0 <= i < j < r.len() implies *(#[trigger] r@[i]).0 != *(#[trigger] r@[j]).0 by {
            assert(self.keys()[i] != self.keys()[j]);
        }
        r
    }
}

impl<K, V> std::ops::Deref for OMap<K, V> {
    type Target = HashMap<K, V>;

    /// The underlying hash map.
    fn deref(&self) -> (r: &HashMap<K, V>)
        ensures
            r@ == self.entries(),
    {
        &self.map
    }
}

/// Inserting a key into a duplicate-free order keeps it duplicate-free,
/// adds the key to the listed keys and puts it last.
pub proof fn lemma_keys_after_insert<K>(keys: Seq<K>, k: K)
    requires
        keys.no_duplicates(),
    ensures
        keys_after_insert(keys, k).no_duplicates(),
        keys_after_insert(keys, k).to_set() == keys.to_set().insert(k),
        keys_after_insert(keys, k).last() == k,
        keys_after_insert(keys, k).len() == if keys.contains(k) {
            keys.len()
        } else {
            keys.len() + 1
        },
{
    keys.index_of_first_ensures(k);
    let rest = keys.remove_value(k);
    match keys.index_of_first(k) {
        Some(i) => {
            assert(rest == keys.remove(i));
            assert forall|x: K| #[trigger] rest.contains(x) <==> (keys.contains(x) && x != k) by {
                if rest.contains(x) {
                    let j = choose|j: int| 0 <= j < rest.len() && rest[j] == x;
                    if j < i {
                        assert(keys[j] == x);
                    } else {
                        assert(keys[j + 1] == x);
                    }
                }
                if keys.contains(x) && x != k {
                    let j = choose|j: int| 0 <= j < keys.len() && keys[j] == x;
                    if j < i {
                        assert(rest[j] == x);
                    } else {
                        assert(j != i);
                        assert(rest[j - 1] == x);
                    }
                }
            }
        },
        None => {
            assert(rest == keys);
        },
    }
    let t = rest.push(k);
    assert forall|a: int, b: int| 0 <= a < b < t.len() implies t[a] != t[b] by {
        if b == t.len() - 1 {
            assert(rest.contains(t[a]));
        } else {
            match keys.index_of_first(k) {
                Some(i) => {
                    let a2 = if a < i { a } else { a + 1 };
                    let b2 = if b < i { b } else { b + 1 };
                    assert(rest[a] == keys[a2]);
                    assert(rest[b] == keys[b2]);
                },
                None => {},
            }
        }
    }
    assert(t.to_set() =~= keys.to_set().insert(k)) by {
        assert forall|x: K| #[trigger] t.to_set().contains(x) <==> keys.to_set().insert(k).contains(x) by {
            if x != k && keys.contains(x) {
                assert(rest.contains(x));
                let j = choose|j: int| 0 <= j < rest.len() && rest[j] == x;
                assert(t[j] == x);
            }
            if t.contains(x) && x != k {
                let j = choose|j: int| 0 <= j < t.len() && t[j] == x;
                assert(rest[j] == x);
            }
            if x == k {
                assert(t[t.len() - 1] == k);
            }
        }
    }
}

/// Inserting a key leaves the order of the other keys as it was.
pub proof fn law_insert_keeps_other_keys_order<K>(keys: Seq<K>, k: K)
    requires
        keys.no_duplicates(),
    ensures
        keys_after_insert(keys, k).filter(|x: K| x != k) == keys.filter(|x: K| x != k),
{
    let other = |x: K| x != k;
    keys.index_of_first_ensures(k);
    let rest = keys.remove_value(k);
    reveal(Seq::filter);
    rest.lemma_filter_push(k, other);
    match keys.index_of_first(k) {
        Some(i) => {
            assert(keys == keys.take(i) + seq![k] + keys.skip(i + 1));
            assert(rest == keys.take(i) + keys.skip(i + 1));
            Seq::filter_distributes_over_add(keys.take(i) + seq![k], keys.skip(i + 1), other);
            Seq::filter_distributes_over_add(keys.take(i), seq![k], other);
            Seq::filter_distributes_over_add(keys.take(i), keys.skip(i + 1), other);
            assert(seq![k].filter(other) =~= Seq::<K>::empty()) by {
                reveal_with_fuel(Seq::filter, 2);
            }
        },
        None => {},
    }
}

/// A duplicate-free listing of the keys of a map has one key per entry.
pub proof fn law_listing_length<K, V>(keys: Seq<K>, entries: Map<K, V>)
    requires
        keys.no_duplicates(),
        keys.to_set() == entries.dom(),
    ensures
        keys.len() == entries.dom().len(),
{
    keys.unique_seq_to_set();
}

/// The keys and entries of a map after the pairs of `ops` are inserted
/// into it, in order, as `OMap::insert` inserts them.
pub open spec fn after_inserts<K, V>(keys: Seq<K>, entries: Map<K, V>, ops: Seq<(K, V)>) -> (Seq<K>, Map<K, V>)
    decreases ops.len(),
{
    if ops.len() == 0 {
        (keys, entries)
    } else {
        after_inserts(
            keys_after_insert(keys, ops[0].0),
            entries.insert(ops[0].0, ops[0].1),
            ops.drop_first(),
        )
    }
}

/// The keys of the pairs of `ops`.
pub open spec fn inserted_keys<K, V>(ops: Seq<(K, V)>) -> Set<K> {
    ops.map_values(|op: (K, V)| op.0).to_set()
}

/// Inserting pairs into a well-formed map keeps it well formed and adds
/// their keys.
proof fn lemma_after_inserts<K, V>(keys: Seq<K>, entries: Map<K, V>, ops: Seq<(K, V)>)
    requires
        keys.no_duplicates(),
        keys.to_set() == entries.dom(),
    ensures
        after_inserts(keys, entries, ops).0.no_duplicates(),
        after_inserts(keys, entries, ops).0.to_set() == entries.dom() + inserted_keys(ops),
        after_inserts(keys, entries, ops).1.dom() == entries.dom() + inserted_keys(ops),
    decreases ops.len(),
{
    if ops.len() > 0 {
        let (k, v) = ops[0];
        lemma_keys_after_insert(keys, k);
        let keys2 = keys_after_insert(keys, k);
        let entries2 = entries.insert(k, v);
        assert(keys2.to_set() == entries2.dom());
        lemma_after_inserts(keys2, entries2, ops.drop_first());
        assert(inserted_keys(ops) =~= inserted_keys(ops.drop_first()).insert(k)) by {
            let names = ops.map_values(|op: (K, V)| op.0);
            let rest = ops.drop_first().map_values(|op: (K, V)| op.0);
            assert(names =~= seq![k] + rest);
            assert forall|x: K| #[trigger] names.to_set().contains(x) <==> (rest.to_set().contains(x) || x == k) by {
                if names.to_set().contains(x) {
                    let j = choose|j: int| 0 <= j < names.len() && names[j] == x;
                    if j > 0 {
                        assert(rest[j - 1] == x);
                    }
                }
                if rest.to_set().contains(x) {
                    let j = choose|j: int| 0 <= j < rest.len() && rest[j] == x;
                    assert(names[j + 1] == x);
                }
                if x == k {
                    assert(names[0] == x);
                }
            }
        }
        assert(entries2.dom() + inserted_keys(ops.drop_first()) =~= entries.dom() + inserted_keys(ops));
    } else {
        assert(inserted_keys(ops) =~= Set::<K>::empty());
        assert(entries.dom() + inserted_keys(ops) =~= entries.dom());
    }
}

/// A map made empty, by `new` or by `with_capacity` whatever the capacity,
/// and then given the pairs of `ops` by `insert` lists each inserted key
/// exactly once, and as many keys as it holds entries: `to_serialize`
/// gives one pair per entry, with distinct keys. The keys and entries after
/// the inserts depend on `ops` alone, so both constructors lead to the same
/// map.
pub proof fn law_inserts_from_empty<K, V>(ops: Seq<(K, V)>)
    ensures
        ({
            let (keys, entries) = after_inserts(Seq::<K>::empty(), Map::<K, V>::empty(), ops);
            &&& keys.no_duplicates()
            &&& keys.to_set() == inserted_keys(ops)
            &&& entries.dom() == inserted_keys(ops)
            &&& keys.len() == entries.dom().len()
        }),
{
    let e = Map::<K, V>::empty();
    assert(Seq::<K>::empty().to_set() =~= e.dom());
    lemma_after_inserts(Seq::<K>::empty(), e, ops);
    assert(e.dom() + inserted_keys(ops) =~= inserted_keys(ops));
    let (keys, entries) = after_inserts(Seq::<K>::empty(), e, ops);
    law_listing_length(keys, entries);
}

} // verus!
