//! An in-memory map keyed by `String` names.
//!
//! Backs the collection registry and the alias store. The entries live in
//! a vector of pairs with pairwise-distinct keys; the abstract value is a
//! `Map` from the name's characters to the value's view.

use vstd::prelude::*;

use crate::assoc::assoc_map;
use crate::assoc::lemma_assoc_map_domain;
use crate::assoc::lemma_assoc_map_index;
use crate::assoc::lemma_assoc_map_len;
use crate::assoc::lemma_assoc_map_push;
use crate::assoc::lemma_assoc_map_remove;
use crate::assoc::unique_keys;

verus! {

pub struct NamedMap<V> {
    entries: Vec<(String, V)>,
}

impl<V: View> NamedMap<V> {
    /// The entries as abstract key/value pairs, in storage order.
    pub closed spec fn kv_seq(&self) -> Seq<(Seq<char>, V::V)> {
        self.entries@.map_values(|e: (String, V)| (e.0@, e.1@))
    }

    /// Well-formed: no two entries share a key.
    pub closed spec fn wf(&self) -> bool {
        unique_keys(self.kv_seq())
    }

    pub fn new() -> (r: Self)
        ensures
            r.wf(),
            r@ == Map::<Seq<char>, V::V>::empty(),
            r.kv_seq() == Seq::<(Seq<char>, V::V)>::empty(),
    {
        let r = NamedMap { entries: Vec::new() };
        proof {
            assert(r.kv_seq() =~= Seq::<(Seq<char>, V::V)>::empty());
        }
        r
    }

    /// How many entries the map holds.
    pub fn len(&self) -> (n: usize)
        ensures
            n == self.kv_seq().len(),
            self.wf() ==> n == self@.len(),
    {
        proof {
            if self.wf() {
                lemma_assoc_map_len(self.kv_seq());
            }
        }
        self.entries.len()
    }

    /// Position of the entry holding `k`, if any.
    fn find(&self, k: &String) -> (r: Option<usize>)
        ensures
            match r {
                Some(i) => i < self.kv_seq().len() && self.kv_seq()[i as int].0 == k@,
                None => forall|j: int|
                    0 <= j < self.kv_seq().len() ==> #[trigger] self.kv_seq()[j].0 != k@,
            },
    {
        let n = self.entries.len();
        let mut i: usize = 0;
        while i < n
            invariant
                n == self.entries@.len(),
                i <= n,
                forall|j: int| 0 <= j < i ==> #[trigger] self.kv_seq()[j].0 != k@,
            decreases n - i,
        {
            if self.entries[i].0 == *k {
                return Some(i);
            }
            i = i + 1;
        }
        None
    }

    pub fn contains_key(&self, k: &String) -> (r: bool)
        ensures
            r == self@.contains_key(k@),
    {
        proof {
            lemma_assoc_map_domain(self.kv_seq(), k@);
        }
        self.find(k).is_some()
    }

    pub fn get(&self, k: &String) -> (r: Option<&V>)
        requires
            self.wf(),
        ensures
            match r {
                Some(v) => self@.contains_key(k@) && v@ == self@[k@],
                None => !self@.contains_key(k@),
            },
    {
        proof {
            lemma_assoc_map_domain(self.kv_seq(), k@);
        }
        match self.find(k) {
            Some(i) => {
                proof {
                    lemma_assoc_map_index(self.kv_seq(), i as int);
                }
                Some(&self.entries[i].1)
            },
            None => None,
        }
    }

    pub fn remove(&mut self, k: &String) -> (r: Option<V>)
        requires
            old(self).wf(),
        ensures
            final(self).wf(),
            final(self)@ == old(self)@.remove(k@),
            match r {
                Some(v) => old(self)@.contains_key(k@) && v@ == old(self)@[k@],
                None => !old(self)@.contains_key(k@) && final(self)@ == old(self)@,
            },
    {
        proof {
            lemma_assoc_map_domain(self.kv_seq(), k@);
        }
        match self.find(k) {
            Some(i) => {
                proof {
                    lemma_assoc_map_index(self.kv_seq(), i as int);
                    lemma_assoc_map_remove(self.kv_seq(), i as int);
                }
                let e = self.entries.remove(i);
                proof {
                    assert(self.kv_seq() =~= old(self).kv_seq().remove(i as int));
                    assert forall|a: int, b: int|
                        0 <= a < b < self.kv_seq().len() implies self.kv_seq()[a].0
                        != self.kv_seq()[b].0 by {
                        let s = old(self).kv_seq();
                        let ai: int = if a < i { a } else { a + 1 };
                        let bi: int = if b < i { b } else { b + 1 };
                        assert(self.kv_seq()[a] == s[ai]);
                        assert(self.kv_seq()[b] == s[bi]);
                    }
                }
                Some(e.1)
            },
            None => {
                proof {
                    assert(final(self)@ =~= old(self)@.remove(k@));
                }
                None
            },
        }
    }

    pub fn insert(&mut self, k: String, v: V)
        requires
            old(self).wf(),
        ensures
            final(self).wf(),
            final(self)@ == old(self)@.insert(k@, v@),
    {
        let _ = self.remove(&k);
        proof {
            lemma_assoc_map_domain(self.kv_seq(), k@);
            lemma_assoc_map_push(self.kv_seq(), k@, v@);
        }
        let ghost mid = self.kv_seq();
        self.entries.push((k, v));
        proof {
            assert(self.kv_seq() =~= mid.push((k@, v@)));
            assert forall|a: int, b: int|
                0 <= a < b < self.kv_seq().len() implies self.kv_seq()[a].0
                != self.kv_seq()[b].0 by {}
            assert(final(self)@ =~= old(self)@.insert(k@, v@));
        }
    }

    /// The entry at a storage position; lets callers walk the map.
    pub fn entry_at(&self, i: usize) -> (r: &(String, V))
        requires
            i < self.kv_seq().len(),
        ensures
            r.0@ == self.kv_seq()[i as int].0,
            r.1@ == self.kv_seq()[i as int].1,
    {
        &self.entries[i]
    }

    /// All keys, in storage order.
    pub fn keys(&self) -> (r: Vec<String>)
        ensures
            r@.len() == self.kv_seq().len(),
            forall|i: int| 0 <= i < r@.len() ==> #[trigger] r@[i]@ == self.kv_seq()[i].0,
    {
        let n = self.entries.len();
        let mut r: Vec<String> = Vec::new();
        let mut i: usize = 0;
        while i < n
            invariant
                n == self.entries@.len(),
                i <= n,
                r@.len() == i,
                forall|j: int| 0 <= j < i ==> #[trigger] r@[j]@ == self.kv_seq()[j].0,
            decreases n - i,
        {
            r.push(self.entries[i].0.clone());
            i = i + 1;
        }
        r
    }

    /// The abstract map is the meaning of the stored entries.
    pub proof fn lemma_view_assoc(&self)
        ensures
            self@ == assoc_map(self.kv_seq()),
    {
    }

    /// Relates the abstract map to the stored entries.
    pub proof fn lemma_view_entries(&self)
        requires
            self.wf(),
        ensures
            self@.dom().finite(),
            self@.len() == self.kv_seq().len(),
            forall|i: int|
                0 <= i < self.kv_seq().len() ==> self@.contains_key(
                    #[trigger] self.kv_seq()[i].0,
                ) && self@[self.kv_seq()[i].0] == self.kv_seq()[i].1,
            forall|k: Seq<char>|
                #[trigger] self@.contains_key(k) ==> exists|i: int|
                    0 <= i < self.kv_seq().len() && #[trigger] self.kv_seq()[i].0 == k,
            forall|i: int, j: int|
                0 <= i < j < self.kv_seq().len() ==> (#[trigger] self.kv_seq()[i]).0 != (
                #[trigger] self.kv_seq()[j]).0,
    {
        lemma_assoc_map_len(self.kv_seq());
        assert forall|i: int| 0 <= i < self.kv_seq().len() implies self@.contains_key(
            #[trigger] self.kv_seq()[i].0,
        ) && self@[self.kv_seq()[i].0] == self.kv_seq()[i].1 by {
            lemma_assoc_map_index(self.kv_seq(), i);
        }
        assert forall|k: Seq<char>| #[trigger] self@.contains_key(k) implies exists|i: int|
            0 <= i < self.kv_seq().len() && #[trigger] self.kv_seq()[i].0 == k by {
            lemma_assoc_map_domain(self.kv_seq(), k);
        }
    }
}

impl<V: View> View for NamedMap<V> {
    type V = Map<Seq<char>, V::V>;

    closed spec fn view(&self) -> Map<Seq<char>, V::V> {
        assoc_map(self.kv_seq())
    }
}

} // verus!
