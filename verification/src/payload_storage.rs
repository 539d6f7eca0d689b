//! An in-memory payload store, keyed by point offset — no persistence.

use vstd::prelude::*;

use crate::assoc::assoc_map;
use crate::assoc::lemma_assoc_map_domain;
use crate::assoc::lemma_assoc_map_index;
use crate::assoc::lemma_assoc_map_len;
use crate::assoc::lemma_assoc_map_push;
use crate::assoc::lemma_assoc_map_remove;
use crate::assoc::unique_keys;
use crate::errors::StorageError;
use crate::payload::Payload;

verus! {

/// Offset of a point inside a segment.
pub type PointOffsetType = u32;

pub struct InMemoryPayloadStorage {
    payload: Vec<(PointOffsetType, Payload)>,
}

impl InMemoryPayloadStorage {
    pub closed spec fn kv_seq(&self) -> Seq<(PointOffsetType, Map<Seq<char>, serde_json::Value>)> {
        self.payload@.map_values(|e: (PointOffsetType, Payload)| (e.0, e.1@))
    }

    pub closed spec fn wf(&self) -> bool {
        unique_keys(self.kv_seq()) && forall|i: int|
            0 <= i < self.payload@.len() ==> (#[trigger] self.payload@[i]).1.wf()
    }

    pub fn new() -> (r: Self)
        ensures
            r.wf(),
            r@ == Map::<PointOffsetType, Map<Seq<char>, serde_json::Value>>::empty(),
            r.kv_seq() == Seq::<(PointOffsetType, Map<Seq<char>, serde_json::Value>)>::empty(),
    {
        let r = InMemoryPayloadStorage { payload: Vec::new() };
        proof {
            assert(r.kv_seq() =~= Seq::<
                (PointOffsetType, Map<Seq<char>, serde_json::Value>),
            >::empty());
        }
        r
    }

    fn find(&self, point_id: PointOffsetType) -> (r: Option<usize>)
        ensures
            match r {
                Some(i) => i < self.kv_seq().len() && self.kv_seq()[i as int].0 == point_id,
                None => forall|j: int|
                    0 <= j < self.kv_seq().len() ==> (#[trigger] self.kv_seq()[j]).0 != point_id,
            },
    {
        let n = self.payload.len();
        let mut i: usize = 0;
        while i < n
            invariant
                n == self.payload@.len(),
                i <= n,
                forall|j: int| 0 <= j < i ==> (#[trigger] self.kv_seq()[j]).0 != point_id,
            decreases n - i,
        {
            if self.payload[i].0 == point_id {
                return Some(i);
            }
            i = i + 1;
        }
        None
    }

    /// Removes and returns the payload stored for a point.
    fn take(&mut self, point_id: PointOffsetType) -> (r: Option<Payload>)
        requires
            old(self).wf(),
        ensures
            final(self).wf(),
            final(self)@ == old(self)@.remove(point_id),
            match r {
                Some(p) => old(self)@.contains_key(point_id) && p@ == old(self)@[point_id]
                    && p.wf(),
                None => !old(self)@.contains_key(point_id) && final(self)@ == old(self)@,
            },
    {
        proof {
            lemma_assoc_map_domain(self.kv_seq(), point_id);
        }
        match self.find(point_id) {
            Some(i) => {
                proof {
                    lemma_assoc_map_index(self.kv_seq(), i as int);
                    lemma_assoc_map_remove(self.kv_seq(), i as int);
                }
                let e = self.payload.remove(i);
                proof {
                    assert(self.kv_seq() =~= old(self).kv_seq().remove(i as int));
                    assert forall|a: int, b: int|
                        0 <= a < b < self.kv_seq().len() implies (#[trigger] self.kv_seq()[a]).0
                        != (#[trigger] self.kv_seq()[b]).0 by {
                        let s = old(self).kv_seq();
                        let ai: int = if a < i { a } else { a + 1 };
                        let bi: int = if b < i { b } else { b + 1 };
                        assert(self.kv_seq()[a] == s[ai]);
                        assert(self.kv_seq()[b] == s[bi]);
                    }
                    assert forall|j: int| 0 <= j < self.payload@.len() implies (
                    #[trigger] self.payload@[j]).1.wf() by {
                        let jo: int = if j < i {
                            j
                        } else {
                            j + 1
                        };
                        assert(self.payload@[j] == old(self).payload@[jo]);
                    }
                }
                Some(e.1)
            },
            None => {
                proof {
                    assert(final(self)@ =~= old(self)@.remove(point_id));
                }
                None
            },
        }
    }

    /// Stores a payload for a point, replacing what was there.
    fn put(&mut self, point_id: PointOffsetType, payload: Payload)
        requires
            old(self).wf(),
            payload.wf(),
        ensures
            final(self).wf(),
            final(self)@ == old(self)@.insert(point_id, payload@),
    {
        let _ = self.take(point_id);
        proof {
            lemma_assoc_map_domain(self.kv_seq(), point_id);
            lemma_assoc_map_push(self.kv_seq(), point_id, payload@);
        }
        let ghost mid = self.kv_seq();
        let ghost pview = payload@;
        self.payload.push((point_id, payload));
        proof {
            assert(self.kv_seq() =~= mid.push((point_id, pview)));
            assert forall|a: int, b: int|
                0 <= a < b < self.kv_seq().len() implies (#[trigger] self.kv_seq()[a]).0
                != (#[trigger] self.kv_seq()[b]).0 by {}
            assert(final(self)@ =~= old(self)@.insert(point_id, pview));
        }
    }

    /// Merges a payload into a point's stored payload; fields of the given
    /// payload replace equally named stored ones.
    pub fn assign(&mut self, point_id: PointOffsetType, payload: &Payload) -> (r: Result<
        (),
        StorageError,
    >)
        requires
            old(self).wf(),
            payload.wf(),
        ensures
            final(self).wf(),
            final(self)@ == if old(self)@.contains_key(point_id) {
                old(self)@.insert(point_id, old(self)@[point_id].union_prefer_right(payload@))
            } else {
                old(self)@.insert(point_id, payload@)
            },
            r is Ok,
    {
        match self.take(point_id) {
            Some(mut stored) => {
                stored.merge(payload);
                self.put(point_id, stored);
            },
            None => {
                self.put(point_id, payload.duplicate());
            },
        }
        proof {
            assert(final(self)@ =~= if old(self)@.contains_key(point_id) {
                old(self)@.insert(point_id, old(self)@[point_id].union_prefer_right(payload@))
            } else {
                old(self)@.insert(point_id, payload@)
            });
        }
        Ok(())
    }

    /// The payload of a point; empty when the point holds none.
    pub fn payload(&self, point_id: PointOffsetType) -> (r: Payload)
        requires
            self.wf(),
        ensures
            r@ == if self@.contains_key(point_id) {
                self@[point_id]
            } else {
                Map::<Seq<char>, serde_json::Value>::empty()
            },
    {
        proof {
            lemma_assoc_map_domain(self.kv_seq(), point_id);
        }
        match self.find(point_id) {
            Some(i) => {
                proof {
                    lemma_assoc_map_index(self.kv_seq(), i as int);
                }
                self.payload[i].1.duplicate()
            },
            None => Payload::new(),
        }
    }

    /// Deletes one field of a point's payload, returning its value.
    pub fn delete(&mut self, point_id: PointOffsetType, key: &String) -> (r: Result<
        Option<serde_json::Value>,
        StorageError,
    >)
        requires
            old(self).wf(),
        ensures
            final(self).wf(),
            final(self)@ == if old(self)@.contains_key(point_id) {
                old(self)@.insert(point_id, old(self)@[point_id].remove(key@))
            } else {
                old(self)@
            },
            match r {
                Ok(v) => v == if old(self)@.contains_key(point_id) && old(
                    self,
                )@[point_id].contains_key(key@) {
                    Some(old(self)@[point_id][key@])
                } else {
                    None::<serde_json::Value>
                },
                Err(_) => false,
            },
    {
        match self.take(point_id) {
            Some(mut stored) => {
                let v = stored.remove(key);
                self.put(point_id, stored);
                proof {
                    assert(final(self)@ =~= old(self)@.insert(
                        point_id,
                        old(self)@[point_id].remove(key@),
                    ));
                }
                Ok(v)
            },
            None => Ok(None),
        }
    }

    /// Drops a point's payload entirely, returning it.
    pub fn drop(&mut self, point_id: PointOffsetType) -> (r: Result<Option<Payload>, StorageError>)
        requires
            old(self).wf(),
        ensures
            final(self).wf(),
            final(self)@ == old(self)@.remove(point_id),
            match r {
                Ok(p) => match p {
                    Some(p) => old(self)@.contains_key(point_id) && p@ == old(self)@[point_id],
                    None => !old(self)@.contains_key(point_id),
                },
                Err(_) => false,
            },
    {
        Ok(self.take(point_id))
    }

    /// Forgets every payload.
    pub fn wipe(&mut self) -> (r: Result<(), StorageError>)
        ensures
            final(self).wf(),
            final(self)@ == Map::<PointOffsetType, Map<Seq<char>, serde_json::Value>>::empty(),
            final(self).kv_seq() == Seq::<
                (PointOffsetType, Map<Seq<char>, serde_json::Value>),
            >::empty(),
            r is Ok,
    {
        self.payload = Vec::new();
        proof {
            assert(self.kv_seq() =~= Seq::<
                (PointOffsetType, Map<Seq<char>, serde_json::Value>),
            >::empty());
        }
        Ok(())
    }

    /// Nothing to persist: the store is in-memory only.
    pub fn flush(&self) -> (r: Result<(), StorageError>)
        ensures
            r is Ok,
    {
        Ok(())
    }

    /// Relates the abstract map to the stored entries: one entry per
    /// point, pairwise-distinct point offsets, payloads matching the map.
    /// Together with `iter_ids`' contract it makes the listed offsets an
    /// exact description of the map's domain.
    pub proof fn lemma_view_entries(&self)
        requires
            self.wf(),
        ensures
            self@.dom().finite(),
            self@.len() == self.kv_seq().len(),
            forall|i: int|
                0 <= i < self.kv_seq().len() ==> self@.contains_key(
                    (#[trigger] self.kv_seq()[i]).0,
                ) && self@[self.kv_seq()[i].0] == self.kv_seq()[i].1,
            forall|k: PointOffsetType|
                #[trigger] self@.contains_key(k) ==> exists|i: int|
                    0 <= i < self.kv_seq().len() && (#[trigger] self.kv_seq()[i]).0 == k,
            forall|i: int, j: int|
                0 <= i < j < self.kv_seq().len() ==> (#[trigger] self.kv_seq()[i]).0 != (
                #[trigger] self.kv_seq()[j]).0,
    {
        lemma_assoc_map_len(self.kv_seq());
        assert forall|i: int| 0 <= i < self.kv_seq().len() implies self@.contains_key(
            (#[trigger] self.kv_seq()[i]).0,
        ) && self@[self.kv_seq()[i].0] == self.kv_seq()[i].1 by {
            lemma_assoc_map_index(self.kv_seq(), i);
        }
        assert forall|k: PointOffsetType| #[trigger] self@.contains_key(k) implies exists|i: int|
            0 <= i < self.kv_seq().len() && (#[trigger] self.kv_seq()[i]).0 == k by {
            lemma_assoc_map_domain(self.kv_seq(), k);
            let i = choose|i: int| 0 <= i < self.kv_seq().len() && self.kv_seq()[i].0 == k;
            assert((self.kv_seq()[i]).0 == k);
        }
    }

    /// The stored point offsets, in storage order.
    pub fn iter_ids(&self) -> (r: Vec<PointOffsetType>)
        ensures
            r@.len() == self.kv_seq().len(),
            forall|i: int| 0 <= i < r@.len() ==> #[trigger] r@[i] == self.kv_seq()[i].0,
    {
        let n = self.payload.len();
        let mut r: Vec<PointOffsetType> = Vec::new();
        let mut i: usize = 0;
        while i < n
            invariant
                n == self.payload@.len(),
                i <= n,
                r@.len() == i,
                forall|j: int| 0 <= j < i ==> #[trigger] r@[j] == self.kv_seq()[j].0,
            decreases n - i,
        {
            r.push(self.payload[i].0);
            i = i + 1;
        }
        r
    }
}

impl View for InMemoryPayloadStorage {
    type V = Map<PointOffsetType, Map<Seq<char>, serde_json::Value>>;

    closed spec fn view(&self) -> Map<PointOffsetType, Map<Seq<char>, serde_json::Value>> {
        assoc_map(self.kv_seq())
    }
}

} // verus!
