use vstd::prelude::*;

use crate::model::{
    all_vacant, clear_all, count_occupied, entries, insert_at, lemma_count_all_vacant,
    lemma_count_bound, lemma_count_is_cardinality, lemma_count_update, lemma_entries,
    occupied_indices, remove_at,
};
use crate::slot::Slot;
use vstd::array::{array_fill_for_copy_types, spec_array_update};

verus! {

/// A map from the keys `0..N` to values, stored directly in `N` slots.
pub struct EMap<V, const N: usize> {
    items: [Slot<V>; N],
    filled: usize,
}

impl<V: Copy, const N: usize> EMap<V, N> {
    /// The contents: position `i` holds `Some(v)` when key `i` maps to `v`.
    pub closed spec fn view(&self) -> Seq<Option<V>> {
        Seq::new(N as nat, |i: int| self.items@[i]@)
    }

    /// The stored count agrees with the slots.
    pub closed spec fn wf(&self) -> bool {
        &&& self.items@.len() == N
        &&& self.filled == count_occupied(self@)
    }

    /// The number of keys present.
    pub closed spec fn spec_len(&self) -> nat {
        self.filled as nat
    }

    /// The model always has one position per key, and the count is that of its occupied ones.
    pub proof fn lemma_view(&self)
        requires
            self.wf(),
        ensures
            self@.len() == N,
            self.spec_len() == count_occupied(self@),
    {
    }

    /// This map with position `i` holding `v` and the count left as it is.
    pub closed spec fn with_value(self, i: int, v: V) -> Self {
        EMap { items: spec_array_update(self.items, i, Slot::Occupied(v)), filled: self.filled }
    }

    /// Replacing the value at an occupied position keeps the map well formed.
    proof fn lemma_with_value(self, i: int, v: V)
        requires
            self.wf(),
            0 <= i < N,
            self@[i].is_some(),
        ensures
            self.with_value(i, v).wf(),
            self.with_value(i, v)@ == insert_at(self@, i, v),
            self.with_value(i, v).spec_len() == self.spec_len(),
    {
        let w = self.with_value(i, v);
        assert(w@ =~= insert_at(self@, i, v));
        lemma_count_update(self@, i, Some(v));
    }

    /// The length of a well-formed map is the number of keys present.
    pub proof fn lemma_len_is_occupied_count(&self)
        requires
            self.wf(),
        ensures
            self.spec_len() == occupied_indices(self@).len(),
    {
        lemma_count_is_cardinality(self@);
    }

    /// Iteration yields as many pairs as the length, each a present key with its value,
    /// strictly ascending by key, and every present key among them.
    pub proof fn lemma_entries_of_map(&self)
        requires
            self.wf(),
        ensures
            entries(self@).len() == self.spec_len(),
            forall|j: int|
                0 <= j < entries(self@).len() ==> {
                    let (k, v) = #[trigger] entries(self@)[j];
                    k < N && self@[k as int] == Some(v)
                },
            forall|j: int, l: int|
                0 <= j < l < entries(self@).len() ==> (#[trigger] entries(self@)[j]).0 < (
                #[trigger] entries(self@)[l]).0,
            forall|i: int|
                0 <= i < N && (#[trigger] self@[i]).is_some() ==> exists|j: int|
                    0 <= j < entries(self@).len() && #[trigger] entries(self@)[j] == (
                    i as usize,
                    self@[i].unwrap(),
                ),
    {
        lemma_entries(self@);
    }

    /// An empty map.
    pub fn new() -> (m: Self)
        ensures
            m.wf(),
            m@ == all_vacant::<V>(N as nat),
            m.spec_len() == 0,
    {
        let items: [Slot<V>; N] = array_fill_for_copy_types(Slot::Vacant);
        let m = EMap { items, filled: 0 };
        proof {
            assert(m@ =~= all_vacant::<V>(N as nat));
            lemma_count_all_vacant::<V>(N as nat);
        }
        m
    }

    /// Maps `index` to `value`; returns the value it replaced, if any.
    pub fn insert(&mut self, index: usize, value: V) -> (r: Option<V>)
        requires
            old(self).wf(),
            index < N,
        ensures
            final(self).wf(),
            final(self)@ == insert_at(old(self)@, index as int, value),
            r == old(self)@[index as int],
            final(self).spec_len() == old(self).spec_len() + if r.is_none() {
                1nat
            } else {
                0nat
            },
    {
        proof {
            lemma_count_update(self@, index as int, Some(value));
            lemma_count_bound(insert_at(self@, index as int, value));
        }
        let prev: Option<V> = match self.items[index].read() {
            Some(v) => Some(*v),
            None => None,
        };
        if prev.is_none() {
            self.filled = self.filled + 1;
        }
        self.items[index].write(value);
        proof {
            assert(self@ =~= insert_at(old(self)@, index as int, value));
        }
        prev
    }

    /// The value at `index`, if present.
    pub fn get(&self, index: usize) -> (r: Option<&V>)
        requires
            self.wf(),
            index < N,
        ensures
            r.is_some() == self@[index as int].is_some(),
            r.is_some() ==> *r.unwrap() == self@[index as int].unwrap(),
    {
        self.items[index].read()
    }

    /// A mutable borrow of the value at `index`, if present. Writing through it changes
    /// that value only.
    pub fn get_mut(&mut self, index: usize) -> (r: Option<&mut V>)
        requires
            old(self).wf(),
            index < N,
        ensures
            r.is_some() == old(self)@[index as int].is_some(),
            r matches Some(x) ==> *x == old(self)@[index as int].unwrap(),
            r matches Some(x) ==> *final(self) == old(self).with_value(index as int, *final(x)),
            r matches Some(x) ==> final(self).wf(),
            r matches Some(x) ==> final(self)@ == insert_at(old(self)@, index as int, *final(x)),
            r matches Some(x) ==> final(self).spec_len() == old(self).spec_len(),
            r is None ==> *final(self) == *old(self),
    {
        if !self.items[index].is_occupied() {
            return None;
        }
        match &mut self.items[index] {
            Slot::Occupied(v) => {
                proof {
                    old(self).lemma_with_value(index as int, *final(v));
                }
                Some(v)
            },
            Slot::Vacant => None,
        }
    }

    /// Whether `index` is present.
    pub fn contains(&self, index: usize) -> (r: bool)
        requires
            self.wf(),
            index < N,
        ensures
            r == self@[index as int].is_some(),
    {
        self.items[index].is_occupied()
    }

    /// Removes `index`; returns the value it held, if any.
    pub fn remove(&mut self, index: usize) -> (r: Option<V>)
        requires
            old(self).wf(),
            index < N,
        ensures
            final(self).wf(),
            final(self)@ == remove_at(old(self)@, index as int),
            r == old(self)@[index as int],
            old(self).spec_len() == final(self).spec_len() + if r.is_some() {
                1nat
            } else {
                0nat
            },
    {
        proof {
            lemma_count_update(self@, index as int, None);
        }
        let prev: Option<V> = match self.items[index].read() {
            Some(v) => Some(*v),
            None => None,
        };
        if prev.is_some() {
            self.items[index].clear();
            self.filled = self.filled - 1;
        }
        proof {
            assert(self@ =~= remove_at(old(self)@, index as int));
        }
        prev
    }

    /// The number of keys present.
    pub fn len(&self) -> (r: usize)
        requires
            self.wf(),
        ensures
            r == self.spec_len(),
            r == count_occupied(self@),
    {
        self.filled
    }

    /// Whether no key is present.
    pub fn is_empty(&self) -> (r: bool)
        requires
            self.wf(),
        ensures
            r == (count_occupied(self@) == 0),
    {
        self.filled == 0
    }

    /// Removes every key.
    pub fn clear(&mut self)
        requires
            old(self).wf(),
        ensures
            final(self).wf(),
            final(self)@ == clear_all(old(self)@),
            final(self).spec_len() == 0,
    {
        let mut i: usize = 0;
        while i < N
            invariant
                0 <= i <= N,
                self.items@.len() == N,
                forall|j: int| 0 <= j < i ==> (#[trigger] self.items@[j])@ == None::<V>,
            decreases N - i,
        {
            self.items[i].clear();
            i = i + 1;
        }
        self.filled = 0;
        proof {
            assert(self@ =~= clear_all(old(self)@));
            lemma_count_all_vacant::<V>(N as nat);
        }
    }

    /// The present `(key, value)` pairs, by ascending key.
    pub fn iter(&self) -> (r: Vec<(usize, V)>)
        requires
            self.wf(),
        ensures
            r@ == entries(self@),
    {
        let mut r: Vec<(usize, V)> = Vec::new();
        let mut i: usize = 0;
        while i < N
            invariant
                0 <= i <= N,
                self.wf(),
                r@ == entries(self@.take(i as int)),
            decreases N - i,
        {
            let ghost s = self@.take(i as int);
            proof {
                assert(self@.take(i + 1).drop_last() =~= s);
            }
            match self.items[i].read() {
                Some(v) => r.push((i, *v)),
                None => {},
            }
            i = i + 1;
        }
        proof {
            assert(self@.take(N as int) =~= self@);
        }
        r
    }
}

impl<V: Copy, const N: usize> Default for EMap<V, N> {
    fn default() -> (m: Self)
        ensures
            m.wf(),
            m@ == all_vacant::<V>(N as nat),
            m.spec_len() == 0,
    {
        Self::new()
    }
}

} // verus!
