//! Point payloads: named JSON values attached to a point.
//!
//! The payload values themselves are arbitrary JSON documents; the logic
//! here reads only the names, so the values stay opaque.

use vstd::prelude::*;

use crate::assoc::assoc_map;
use crate::assoc::lemma_assoc_map_domain;
use crate::assoc::lemma_assoc_map_index;
use crate::assoc::lemma_assoc_map_push;
use crate::assoc::lemma_assoc_map_remove;
use crate::assoc::unique_keys;

verus! {

#[verifier::external_type_specification]
#[verifier::external_body]
pub struct ExValue(serde_json::Value);

/// Relies on `serde_json::Value::clone`: cloning yields an equal value.
#[verifier::external_body]
fn clone_value(v: &serde_json::Value) -> (r: serde_json::Value)
    ensures
        r == *v,
{
    v.clone()
}

/// A payload: a map from field name to JSON value.
#[derive(Debug, PartialEq)]
pub struct Payload {
    entries: Vec<(String, serde_json::Value)>,
}

impl Payload {
    pub closed spec fn kv_seq(&self) -> Seq<(Seq<char>, serde_json::Value)> {
        self.entries@.map_values(|e: (String, serde_json::Value)| (e.0@, e.1))
    }

    pub closed spec fn wf(&self) -> bool {
        unique_keys(self.kv_seq())
    }

    pub fn new() -> (r: Self)
        ensures
            r.wf(),
            r@ == Map::<Seq<char>, serde_json::Value>::empty(),
    {
        let r = Payload { entries: Vec::new() };
        proof {
            assert(r.kv_seq() =~= Seq::<(Seq<char>, serde_json::Value)>::empty());
        }
        r
    }

    fn find(&self, k: &String) -> (r: Option<usize>)
        ensures
            match r {
                Some(i) => i < self.kv_seq().len() && self.kv_seq()[i as int].0 == k@,
                None => forall|j: int|
                    0 <= j < self.kv_seq().len() ==> (#[trigger] self.kv_seq()[j]).0 != k@,
            },
    {
        let n = self.entries.len();
        let mut i: usize = 0;
        while i < n
            invariant
                n == self.entries@.len(),
                i <= n,
                forall|j: int| 0 <= j < i ==> (#[trigger] self.kv_seq()[j]).0 != k@,
            decreases n - i,
        {
            if self.entries[i].0 == *k {
                return Some(i);
            }
            i = i + 1;
        }
        None
    }

    pub fn len(&self) -> (n: usize)
        ensures
            n == self.kv_seq().len(),
            self.wf() ==> n == self@.len(),
    {
        proof {
            if self.wf() {
                crate::assoc::lemma_assoc_map_len(self.kv_seq());
            }
        }
        self.entries.len()
    }

    pub fn is_empty(&self) -> (r: bool)
        requires
            self.wf(),
        ensures
            r == (self@ == Map::<Seq<char>, serde_json::Value>::empty()),
    {
        proof {
            crate::assoc::lemma_assoc_map_len(self.kv_seq());
            if self.kv_seq().len() == 0 {
                assert(self@ =~= Map::<Seq<char>, serde_json::Value>::empty());
            } else {
                lemma_assoc_map_index(self.kv_seq(), 0);
            }
        }
        self.entries.len() == 0
    }

    /// Removes a field, returning its value.
    pub fn remove(&mut self, key: &String) -> (r: Option<serde_json::Value>)
        requires
            old(self).wf(),
        ensures
            final(self).wf(),
            final(self)@ == old(self)@.remove(key@),
            match r {
                Some(v) => old(self)@.contains_key(key@) && v == old(self)@[key@],
                None => !old(self)@.contains_key(key@) && final(self)@ == old(self)@,
            },
    {
        proof {
            lemma_assoc_map_domain(self.kv_seq(), key@);
        }
        match self.find(key) {
            Some(i) => {
                proof {
                    lemma_assoc_map_index(self.kv_seq(), i as int);
                    lemma_assoc_map_remove(self.kv_seq(), i as int);
                }
                let e = self.entries.remove(i);
                proof {
                    assert(self.kv_seq() =~= old(self).kv_seq().remove(i as int));
                    assert forall|a: int, b: int|
                        0 <= a < b < self.kv_seq().len() implies (#[trigger] self.kv_seq()[a]).0
                        != (#[trigger] self.kv_seq()[b]).0 by {
                        let s = old(self).kv_seq();
                        let ai: int = if a < i { a } else { a + 1 };
                        let bi: int = if b < i { b } else { b + 1 };
                        assert(self.kv_seq()[a] == s[ai]);
                        assert(self.kv_seq()[b] == s[bi]);
                    }
                }
                Some(e.1)
            },
            None => {
                proof {
                    assert(final(self)@ =~= old(self)@.remove(key@));
                }
                None
            },
        }
    }

    /// Sets a field, replacing any previous value.
    pub fn insert(&mut self, key: String, value: serde_json::Value)
        requires
            old(self).wf(),
        ensures
            final(self).wf(),
            final(self)@ == old(self)@.insert(key@, value),
    {
        let _ = self.remove(&key);
        proof {
            lemma_assoc_map_domain(self.kv_seq(), key@);
            lemma_assoc_map_push(self.kv_seq(), key@, value);
        }
        let ghost mid = self.kv_seq();
        let ghost kview = key@;
        self.entries.push((key, value));
        proof {
            assert(self.kv_seq() =~= mid.push((kview, value)));
            assert forall|a: int, b: int|
                0 <= a < b < self.kv_seq().len() implies (#[trigger] self.kv_seq()[a]).0
                != (#[trigger] self.kv_seq()[b]).0 by {}
            assert(final(self)@ =~= old(self)@.insert(kview, value));
        }
    }

    /// Merges another payload in: its fields replace equally named ones.
    pub fn merge(&mut self, other: &Payload)
        requires
            old(self).wf(),
        ensures
            final(self).wf(),
            final(self)@ == old(self)@.union_prefer_right(other@),
    {
        let ghost s = other.kv_seq();
        let n = other.entries.len();
        let mut i: usize = 0;
        proof {
            assert(s.take(0) =~= Seq::<(Seq<char>, serde_json::Value)>::empty());
            assert(old(self)@.union_prefer_right(assoc_map(s.take(0))) =~= old(self)@);
        }
        while i < n
            invariant
                old(self).wf(),
                self.wf(),
                n == other.entries@.len(),
                s == other.kv_seq(),
                i <= n,
                self@ == old(self)@.union_prefer_right(assoc_map(s.take(i as int))),
            decreases n - i,
        {
            let e = &other.entries[i];
            self.insert(e.0.clone(), clone_value(&e.1));
            proof {
                assert(s.take(i as int + 1).drop_last() =~= s.take(i as int));
                assert(s.take(i as int + 1).last() == s[i as int]);
                assert(s[i as int] == (e.0@, e.1));
                assert(self@ =~= old(self)@.union_prefer_right(assoc_map(s.take(i as int + 1))));
            }
            i = i + 1;
        }
        proof {
            assert(s.take(n as int) =~= s);
            other.lemma_view_assoc();
        }
    }

    /// The abstract map is the meaning of the stored entries.
    pub proof fn lemma_view_assoc(&self)
        ensures
            self@ == assoc_map(self.kv_seq()),
    {
    }

    /// A deep copy of the payload.
    pub fn duplicate(&self) -> (r: Payload)
        requires
            self.wf(),
        ensures
            r.wf(),
            r@ == self@,
    {
        let n = self.entries.len();
        let mut entries: Vec<(String, serde_json::Value)> = Vec::new();
        let mut i: usize = 0;
        while i < n
            invariant
                n == self.entries@.len(),
                i <= n,
                entries@.len() == i,
                forall|j: int|
                    0 <= j < i ==> (#[trigger] entries@[j]).0@ == self.kv_seq()[j].0
                        && entries@[j].1 == self.kv_seq()[j].1,
            decreases n - i,
        {
            let e = &self.entries[i];
            entries.push((e.0.clone(), clone_value(&e.1)));
            i = i + 1;
        }
        let r = Payload { entries };
        proof {
            assert(r.kv_seq() =~= self.kv_seq());
        }
        r
    }
}

impl Default for Payload {
    /// The empty payload.
    fn default() -> (r: Payload)
        ensures
            r.wf(),
            r@ == Map::<Seq<char>, serde_json::Value>::empty(),
    {
        Payload::new()
    }
}

impl View for Payload {
    type V = Map<Seq<char>, serde_json::Value>;

    closed spec fn view(&self) -> Map<Seq<char>, serde_json::Value> {
        assoc_map(self.kv_seq())
    }
}

} // verus!
