//! A map from ids that is walked in the order of the ids.

use vstd::prelude::*;

use crate::ids::{lemma_insert_sorted, lists, strictly_sorted, IdSet};
use crate::text::lemma_id_less_asymmetric;

verus! {

/// The map that gives `keys[i]` the value `values[i]`.
pub open spec fn paired<V>(keys: Seq<Seq<char>>, values: Seq<V>) -> Map<Seq<char>, V> {
    Map::new(|k: Seq<char>| keys.contains(k), |k: Seq<char>| values[keys.index_of(k)])
}

/// A sorted listing names each key at one position only.
pub proof fn lemma_paired_at<V>(keys: Seq<Seq<char>>, values: Seq<V>, i: int)
    requires
        strictly_sorted(keys),
        0 <= i < keys.len(),
    ensures
        keys.index_of(keys[i]) == i,
        paired(keys, values).contains_key(keys[i]),
        paired(keys, values)[keys[i]] == values[i],
{
    assert(keys.contains(keys[i]));
    let j = keys.index_of(keys[i]);
    assert(0 <= j < keys.len() && keys[j] == keys[i]);
    if i < j {
        lemma_id_less_asymmetric(keys[i], keys[j]);
    } else if j < i {
        lemma_id_less_asymmetric(keys[j], keys[i]);
    }
}

/// Replacing the value at a position replaces the value of its key.
pub proof fn lemma_paired_update<V>(keys: Seq<Seq<char>>, values: Seq<V>, i: int, v: V)
    requires
        strictly_sorted(keys),
        keys.len() == values.len(),
        0 <= i < keys.len(),
    ensures
        paired(keys, values.update(i, v)) == paired(keys, values).insert(keys[i], v),
{
    let left = paired(keys, values.update(i, v));
    let right = paired(keys, values).insert(keys[i], v);
    assert forall|k: Seq<char>| #[trigger] left.contains_key(k) implies left[k] == right[k] by {
        let j = keys.index_of(k);
        assert(0 <= j < keys.len() && keys[j] == k);
        lemma_paired_at(keys, values, i);
    }
    assert(left.dom() =~= right.dom());
    assert(left =~= right);
}

proof fn lemma_paired_insert<V>(
    keys: Seq<Seq<char>>,
    values: Seq<V>,
    position: int,
    key: Seq<char>,
    v: V,
)
    requires
        strictly_sorted(keys),
        keys.len() == values.len(),
        0 <= position <= keys.len(),
        !keys.contains(key),
        strictly_sorted(keys.insert(position, key)),
        keys.insert(position, key).to_set() == keys.to_set().insert(key),
    ensures
        paired(keys.insert(position, key), values.insert(position, v)) == paired(
            keys,
            values,
        ).insert(key, v),
{
    let keys_after = keys.insert(position, key);
    let values_after = values.insert(position, v);
    let left = paired(keys_after, values_after);
    let right = paired(keys, values).insert(key, v);
    assert forall|k: Seq<char>| left.contains_key(k) <==> #[trigger] right.contains_key(k) by {
        assert(keys_after.to_set().contains(k) <==> keys_after.contains(k));
        assert(keys.to_set().contains(k) <==> keys.contains(k));
    }
    assert forall|k: Seq<char>| #[trigger] right.contains_key(k) implies left[k] == right[k] by {
        if k == key {
            assert(keys_after[position] == key);
            lemma_paired_at(keys_after, values_after, position);
        } else {
            let j = keys.index_of(k);
            assert(0 <= j < keys.len() && keys[j] == k);
            let j_after = if j < position {
                j
            } else {
                j + 1
            };
            assert(keys_after[j_after] == k);
            lemma_paired_at(keys_after, values_after, j_after);
        }
    }
    assert(left =~= right);
}

/// A map from ids, kept in the order of the ids.
#[derive(Debug)]
pub struct IdMap<V> {
    keys: IdSet,
    values: Vec<V>,
}

impl<V> View for IdMap<V> {
    type V = Map<Seq<char>, V>;

    open spec fn view(&self) -> Map<Seq<char>, V> {
        paired(self.keys(), self.values())
    }
}

impl<V> IdMap<V> {
    /// The keys in order.
    pub closed spec fn keys(&self) -> Seq<Seq<char>> {
        self.keys.listing()
    }

    /// The values, each at the position of its key.
    pub closed spec fn values(&self) -> Seq<V> {
        self.values@
    }

    /// The keys stand in strict order, and each has a value.
    pub open spec fn wf(&self) -> bool {
        &&& strictly_sorted(self.keys())
        &&& self.keys().len() == self.values().len()
    }

    pub fn new() -> (res: Self)
        ensures
            res.wf(),
            res@ == Map::<Seq<char>, V>::empty(),
            res.keys() == Seq::<Seq<char>>::empty(),
            res.values() == Seq::<V>::empty(),
    {
        let res = IdMap { keys: IdSet::new(), values: Vec::new() };
        assert(res@ =~= Map::<Seq<char>, V>::empty());
        res
    }

    pub fn len(&self) -> (res: usize)
        ensures
            res == self.keys().len(),
    {
        self.keys.len()
    }

    /// The key at position `i`.
    pub fn key_at(&self, i: usize) -> (res: &String)
        requires
            self.wf(),
            i < self.keys().len(),
        ensures
            res@ == self.keys()[i as int],
            self@.contains_key(res@),
    {
        proof {
            lemma_paired_at(self.keys(), self.values(), i as int);
        }
        self.keys.at(i)
    }

    /// The value at position `i`.
    pub fn value_at(&self, i: usize) -> (res: &V)
        requires
            self.wf(),
            i < self.keys().len(),
        ensures
            *res == self.values()[i as int],
            *res == self@[self.keys()[i as int]],
    {
        proof {
            lemma_paired_at(self.keys(), self.values(), i as int);
        }
        &self.values[i]
    }

    /// The value at position `i`, to be changed in place.
    pub fn value_at_mut(&mut self, i: usize) -> (res: &mut V)
        requires
            old(self).wf(),
            i < old(self).keys().len(),
        ensures
            *res == old(self).values()[i as int],
            final(self).keys() == old(self).keys(),
            final(self).values() == old(self).values().update(i as int, *final(res)),
    {
        &mut self.values[i]
    }

    pub fn get(&self, key: &str) -> (res: Option<&V>)
        requires
            self.wf(),
        ensures
            match res {
                Some(v) => self@.contains_key(key@) && *v == self@[key@],
                None => !self@.contains_key(key@),
            },
    {
        let (position, found) = self.keys.find(key);
        if found {
            proof {
                lemma_paired_at(self.keys(), self.values(), position as int);
            }
            Some(&self.values[position])
        } else {
            assert(self.keys().to_set().contains(key@) <==> self.keys().contains(key@));
            None
        }
    }

    pub fn contains_key(&self, key: &str) -> (res: bool)
        requires
            self.wf(),
        ensures
            res == self@.contains_key(key@),
    {
        assert(self.keys().to_set().contains(key@) <==> self.keys().contains(key@));
        self.keys.contains(key)
    }

    /// Gives `key` the value `value` if it has none; says where the key stands.
    pub fn entry(&mut self, key: &str, value: V) -> (res: usize)
        requires
            old(self).wf(),
        ensures
            final(self).wf(),
            res < final(self).keys().len(),
            final(self).keys()[res as int] == key@,
            final(self)@ == if old(self)@.contains_key(key@) {
                old(self)@
            } else {
                old(self)@.insert(key@, value)
            },
    {
        let (position, found) = self.keys.find(key);
        let ghost keys = self.keys();
        let ghost values = self.values();
        assert(keys.to_set().contains(key@) <==> keys.contains(key@));
        if !found {
            self.keys.insert_at(position, key.to_owned());
            self.values.insert(position, value);
            proof {
                lemma_insert_sorted(keys, position as int, key@);
                lemma_paired_insert(keys, values, position as int, key@, value);
            }
        }
        position
    }

    /// Gives `key` the value `value`, in place of any it had.
    pub fn insert(&mut self, key: &str, value: V)
        requires
            old(self).wf(),
        ensures
            final(self).wf(),
            final(self)@ == old(self)@.insert(key@, value),
    {
        let (position, found) = self.keys.find(key);
        let ghost keys = self.keys();
        let ghost values = self.values();
        assert(keys.to_set().contains(key@) <==> keys.contains(key@));
        if found {
            self.values.set(position, value);
            proof {
                lemma_paired_update(keys, values, position as int, value);
            }
        } else {
            self.keys.insert_at(position, key.to_owned());
            self.values.insert(position, value);
            proof {
                lemma_insert_sorted(keys, position as int, key@);
                lemma_paired_insert(keys, values, position as int, key@, value);
            }
        }
    }
}

/// The keys of a map are listed in order.
pub proof fn lemma_keys_listed<V>(map: IdMap<V>)
    requires
        map.wf(),
    ensures
        lists(map.keys(), map@.dom()),
{
    assert forall|k: Seq<char>| #[trigger]
        map.keys().to_set().contains(k) <==> map@.dom().contains(k) by {}
    assert(map.keys().to_set() =~= map@.dom());
}

} // verus!
