//! An in-memory map keyed by byte strings.
//!
//! Backs the correlation store, whose keys are encoded consensus
//! operations: two operations share a slot exactly when their encodings
//! are equal.

use vstd::prelude::*;

use crate::assoc::assoc_map;
use crate::assoc::lemma_assoc_map_domain;
use crate::assoc::lemma_assoc_map_index;
use crate::assoc::lemma_assoc_map_push;
use crate::assoc::lemma_assoc_map_remove;
use crate::assoc::unique_keys;

verus! {

/// Byte-string equality.
pub fn bytes_eq(a: &Vec<u8>, b: &Vec<u8>) -> (r: bool)
    ensures
        r == (a@ == b@),
{
    if a.len() != b.len() {
        return false;
    }
    let n = a.len();
    let mut i: usize = 0;
    while i < n
        invariant
            n == a@.len(),
            n == b@.len(),
            i <= n,
            forall|j: int| 0 <= j < i ==> a@[j] == b@[j],
        decreases n - i,
    {
        if a[i] != b[i] {
            return false;
        }
        i = i + 1;
    }
    proof {
        assert(a@ =~= b@);
    }
    true
}

pub struct BytesMap<V> {
    entries: Vec<(Vec<u8>, V)>,
}

impl<V: View> BytesMap<V> {
    pub closed spec fn kv_seq(&self) -> Seq<(Seq<u8>, V::V)> {
        self.entries@.map_values(|e: (Vec<u8>, V)| (e.0@, e.1@))
    }

    pub closed spec fn wf(&self) -> bool {
        unique_keys(self.kv_seq())
    }

    pub fn new() -> (r: Self)
        ensures
            r.wf(),
            r@ == Map::<Seq<u8>, V::V>::empty(),
    {
        let r = BytesMap { entries: Vec::new() };
        proof {
            assert(r.kv_seq() =~= Seq::<(Seq<u8>, V::V)>::empty());
        }
        r
    }

    fn find(&self, k: &Vec<u8>) -> (r: Option<usize>)
        ensures
            match r {
                Some(i) => i < self.kv_seq().len() && self.kv_seq()[i as int].0 == k@,
                None => forall|j: int|
                    0 <= j < self.kv_seq().len() ==> (#[trigger] self.kv_seq()[j]).0 != k@,
            },
    {
        let n = self.entries.len();
        let mut i: usize = 0;
        while i < n
            invariant
                n == self.entries@.len(),
                i <= n,
                forall|j: int| 0 <= j < i ==> (#[trigger] self.kv_seq()[j]).0 != k@,
            decreases n - i,
        {
            if bytes_eq(&self.entries[i].0, k) {
                return Some(i);
            }
            i = i + 1;
        }
        None
    }

    pub fn contains_key(&self, k: &Vec<u8>) -> (r: bool)
        ensures
            r == self@.contains_key(k@),
    {
        proof {
            lemma_assoc_map_domain(self.kv_seq(), k@);
        }
        self.find(k).is_some()
    }

    pub fn remove(&mut self, k: &Vec<u8>) -> (r: Option<V>)
        requires
            old(self).wf(),
        ensures
            final(self).wf(),
            final(self)@ == old(self)@.remove(k@),
            match r {
                Some(v) => old(self)@.contains_key(k@) && v@ == old(self)@[k@],
                None => !old(self)@.contains_key(k@) && final(self)@ == old(self)@,
            },
    {
        proof {
            lemma_assoc_map_domain(self.kv_seq(), k@);
        }
        match self.find(k) {
            Some(i) => {
                proof {
                    lemma_assoc_map_index(self.kv_seq(), i as int);
                    lemma_assoc_map_remove(self.kv_seq(), i as int);
                }
                let e = self.entries.remove(i);
                proof {
                    assert(self.kv_seq() =~= old(self).kv_seq().remove(i as int));
                    assert forall|a: int, b: int|
                        0 <= a < b < self.kv_seq().len() implies (#[trigger] self.kv_seq()[a]).0
                        != (#[trigger] self.kv_seq()[b]).0 by {
                        let s = old(self).kv_seq();
                        let ai: int = if a < i { a } else { a + 1 };
                        let bi: int = if b < i { b } else { b + 1 };
                        assert(self.kv_seq()[a] == s[ai]);
                        assert(self.kv_seq()[b] == s[bi]);
                    }
                }
                Some(e.1)
            },
            None => {
                proof {
                    assert(final(self)@ =~= old(self)@.remove(k@));
                }
                None
            },
        }
    }

    pub fn insert(&mut self, k: Vec<u8>, v: V)
        requires
            old(self).wf(),
        ensures
            final(self).wf(),
            final(self)@ == old(self)@.insert(k@, v@),
    {
        let _ = self.remove(&k);
        proof {
            lemma_assoc_map_domain(self.kv_seq(), k@);
            lemma_assoc_map_push(self.kv_seq(), k@, v@);
        }
        let ghost mid = self.kv_seq();
        let ghost kview = k@;
        self.entries.push((k, v));
        proof {
            assert(self.kv_seq() =~= mid.push((kview, v@)));
            assert forall|a: int, b: int|
                0 <= a < b < self.kv_seq().len() implies (#[trigger] self.kv_seq()[a]).0
                != (#[trigger] self.kv_seq()[b]).0 by {}
            assert(final(self)@ =~= old(self)@.insert(kview, v@));
        }
    }
}

impl<V: View> View for BytesMap<V> {
    type V = Map<Seq<u8>, V::V>;

    closed spec fn view(&self) -> Map<Seq<u8>, V::V> {
        assoc_map(self.kv_seq())
    }
}

} // verus!
