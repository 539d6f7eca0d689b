//! The alias store: a map from alias name to collection name.

use vstd::prelude::*;

use crate::assoc::assoc_map;
use crate::errors::StorageError;
use crate::named_map::NamedMap;
use vstd::string::StringExecFns;

verus! {

/// Names of the aliases in `s` that point at `name`, in storage order.
pub open spec fn aliases_of(s: Seq<(Seq<char>, Seq<char>)>, name: Seq<char>) -> Seq<Seq<char>>
    decreases s.len(),
{
    if s.len() == 0 {
        Seq::empty()
    } else {
        aliases_of(s.drop_last(), name) + if s.last().1 == name {
            seq![s.last().0]
        } else {
            Seq::empty()
        }
    }
}

pub struct AliasStore {
    map: NamedMap<String>,
}

impl AliasStore {
    pub closed spec fn kv_seq(&self) -> Seq<(Seq<char>, Seq<char>)> {
        self.map.kv_seq()
    }

    pub closed spec fn wf(&self) -> bool {
        self.map.wf()
    }

    /// The abstract mapping is the meaning of the stored pairs.
    pub proof fn lemma_view_assoc(&self)
        ensures
            self@ == assoc_map(self.kv_seq()),
    {
        self.map.lemma_view_assoc();
    }

    /// Relates the abstract mapping to the stored pairs: one pair per
    /// alias, pairwise-distinct aliases, values matching the mapping.
    pub proof fn lemma_view_entries(&self)
        requires
            self.wf(),
        ensures
            self@.dom().finite(),
            self@.len() == self.kv_seq().len(),
            forall|i: int|
                0 <= i < self.kv_seq().len() ==> self@.contains_key(
                    (#[trigger] self.kv_seq()[i]).0,
                ) && self@[self.kv_seq()[i].0] == self.kv_seq()[i].1,
            forall|k: Seq<char>|
                #[trigger] self@.contains_key(k) ==> exists|i: int|
                    0 <= i < self.kv_seq().len() && (#[trigger] self.kv_seq()[i]).0 == k,
            forall|i: int, j: int|
                0 <= i < j < self.kv_seq().len() ==> (#[trigger] self.kv_seq()[i]).0 != (
                #[trigger] self.kv_seq()[j]).0,
    {
        self.map.lemma_view_entries();
        assert forall|k: Seq<char>| #[trigger] self@.contains_key(k) implies exists|i: int|
            0 <= i < self.kv_seq().len() && (#[trigger] self.kv_seq()[i]).0 == k by {
            let i = choose|i: int|
                0 <= i < self.map.kv_seq().len() && #[trigger] self.map.kv_seq()[i].0 == k;
            assert((self.kv_seq()[i]).0 == k);
        }
    }

    pub fn open() -> (r: Self)
        ensures
            r.wf(),
            r@ == Map::<Seq<char>, Seq<char>>::empty(),
    {
        AliasStore { map: NamedMap::new() }
    }

    /// The collection name an alias points at.
    pub fn get(&self, alias: &String) -> (r: Option<&String>)
        requires
            self.wf(),
        ensures
            match r {
                Some(name) => self@.contains_key(alias@) && name@ == self@[alias@],
                None => !self@.contains_key(alias@),
            },
    {
        self.map.get(alias)
    }

    pub fn contains(&self, alias: &String) -> (r: bool)
        ensures
            r == self@.contains_key(alias@),
    {
        self.map.contains_key(alias)
    }

    /// Binds an alias, replacing any previous binding.
    pub fn insert(&mut self, alias: String, collection_name: String) -> (r: Result<
        (),
        StorageError,
    >)
        requires
            old(self).wf(),
        ensures
            final(self).wf(),
            final(self)@ == old(self)@.insert(alias@, collection_name@),
            r is Ok,
    {
        self.map.insert(alias, collection_name);
        Ok(())
    }

    /// Unbinds an alias; unbinding an absent alias is a no-op.
    pub fn remove(&mut self, alias: &String) -> (r: Result<Option<String>, StorageError>)
        requires
            old(self).wf(),
        ensures
            final(self).wf(),
            final(self)@ == old(self)@.remove(alias@),
            match r {
                Ok(prev) => match prev {
                    Some(name) => old(self)@.contains_key(alias@) && name@ == old(self)@[alias@],
                    None => !old(self)@.contains_key(alias@),
                },
                Err(_) => false,
            },
    {
        Ok(self.map.remove(alias))
    }

    /// Renames an alias. The old name must exist; an existing binding
    /// under the new name is overwritten.
    pub fn rename_alias(&mut self, old_alias_name: &String, new_alias_name: String) -> (r: Result<
        (),
        StorageError,
    >)
        requires
            old(self).wf(),
        ensures
            final(self).wf(),
            match r {
                Ok(_) => old(self)@.contains_key(old_alias_name@) && final(self)@ == old(self)@
                    .remove(old_alias_name@).insert(new_alias_name@, old(self)@[old_alias_name@]),
                Err(e) => !old(self)@.contains_key(old_alias_name@) && e is AliasNotFound
                    && final(self)@ == old(self)@,
            },
    {
        let target = match self.map.get(old_alias_name) {
            Some(t) => t.clone(),
            None => {
                return Err(
                    StorageError::AliasNotFound(
                        String::from_str("alias to rename does not exist"),
                    ),
                );
            },
        };
        let _ = self.map.remove(old_alias_name);
        self.map.insert(new_alias_name, target);
        Ok(())
    }

    /// All aliases of a collection, in storage order.
    pub fn collection_aliases(&self, collection_name: &String) -> (r: Vec<String>)
        ensures
            r@.map_values(|s: String| s@) == aliases_of(self.kv_seq(), collection_name@),
    {
        let n = self.map.len();
        let mut r: Vec<String> = Vec::new();
        let mut i: usize = 0;
        proof {
            assert(self.kv_seq().take(0) =~= Seq::<(Seq<char>, Seq<char>)>::empty());
            assert(r@.map_values(|s: String| s@) =~= aliases_of(self.kv_seq().take(0), collection_name@));
        }
        while i < n
            invariant
                n == self.kv_seq().len(),
                i <= n,
                r@.map_values(|s: String| s@) == aliases_of(
                    self.kv_seq().take(i as int),
                    collection_name@,
                ),
            decreases n - i,
        {
            let ghost pre = r@.map_values(|s: String| s@);
            let entry = self.map.entry_at(i);
            if entry.1 == *collection_name {
                r.push(entry.0.clone());
                proof {
                    assert(r@.map_values(|s: String| s@) =~= pre + seq![self.kv_seq()[i as int].0]);
                }
            } else {
                proof {
                    assert(pre + Seq::<Seq<char>>::empty() =~= pre);
                }
            }
            proof {
                assert(self.kv_seq().take(i as int + 1).drop_last() =~= self.kv_seq().take(
                    i as int,
                ));
                assert(self.kv_seq().take(i as int + 1).last() == self.kv_seq()[i as int]);
            }
            i = i + 1;
        }
        proof {
            assert(self.kv_seq().take(n as int) =~= self.kv_seq());
        }
        r
    }

    /// The whole mapping as alias/collection pairs, in storage order.
    pub fn state(&self) -> (r: Vec<(String, String)>)
        ensures
            r@.map_values(|e: (String, String)| (e.0@, e.1@)) == self.kv_seq(),
    {
        let n = self.map.len();
        let mut r: Vec<(String, String)> = Vec::new();
        let mut i: usize = 0;
        while i < n
            invariant
                n == self.kv_seq().len(),
                i <= n,
                r@.len() == i,
                forall|j: int|
                    0 <= j < i ==> (#[trigger] r@[j]).0@ == self.kv_seq()[j].0 && r@[j].1@
                        == self.kv_seq()[j].1,
            decreases n - i,
        {
            let entry = self.map.entry_at(i);
            r.push((entry.0.clone(), entry.1.clone()));
            i = i + 1;
        }
        proof {
            assert(r@.map_values(|e: (String, String)| (e.0@, e.1@)) =~= self.kv_seq());
        }
        r
    }

    /// Replaces the whole mapping; on duplicate aliases the later pair
    /// wins.
    pub fn apply_state(&mut self, mapping: &Vec<(String, String)>) -> (r: Result<
        (),
        StorageError,
    >)
        ensures
            final(self).wf(),
            final(self)@ == assoc_map(mapping@.map_values(|e: (String, String)| (e.0@, e.1@))),
            r is Ok,
    {
        let ghost s = mapping@.map_values(|e: (String, String)| (e.0@, e.1@));
        let mut fresh = NamedMap::<String>::new();
        let n = mapping.len();
        let mut i: usize = 0;
        proof {
            assert(s.take(0) =~= Seq::<(Seq<char>, Seq<char>)>::empty());
        }
        while i < n
            invariant
                n == mapping@.len(),
                s == mapping@.map_values(|e: (String, String)| (e.0@, e.1@)),
                i <= n,
                fresh.wf(),
                fresh@ == assoc_map(s.take(i as int)),
            decreases n - i,
        {
            fresh.insert(mapping[i].0.clone(), mapping[i].1.clone());
            proof {
                assert(s.take(i as int + 1).drop_last() =~= s.take(i as int));
                assert(s.take(i as int + 1).last() == s[i as int]);
            }
            i = i + 1;
        }
        proof {
            assert(s.take(n as int) =~= s);
        }
        self.map = fresh;
        Ok(())
    }

    /// Unbinds every alias that points at the given collection.
    pub fn remove_collection_aliases(&mut self, collection_name: &String) -> (r: Result<
        (),
        StorageError,
    >)
        requires
            old(self).wf(),
        ensures
            final(self).wf(),
            final(self)@ == without_target(old(self)@, collection_name@),
            r is Ok,
    {
        let ghost kv = self.map.kv_seq();
        proof {
            self.map.lemma_view_entries();
        }
        let n = self.map.len();
        let mut fresh = NamedMap::<String>::new();
        let mut i: usize = 0;
        while i < n
            invariant
                old(self).wf(),
                self == old(self),
                kv == self.map.kv_seq(),
                n == kv.len(),
                i <= n,
                fresh.wf(),
                forall|a: int, b: int| 0 <= a < b < kv.len() ==> (#[trigger] kv[a]).0 != (
                #[trigger] kv[b]).0,
                forall|j: int|
                    0 <= j < kv.len() ==> old(self)@.contains_key((#[trigger] kv[j]).0) && old(
                        self,
                    )@[kv[j].0] == kv[j].1,
                forall|a: Seq<char>|
                    #[trigger] old(self)@.contains_key(a) ==> exists|j: int|
                        0 <= j < kv.len() && (#[trigger] kv[j]).0 == a,
                forall|a: Seq<char>|
                    #[trigger] fresh@.contains_key(a) <==> exists|j: int|
                        0 <= j < i && (#[trigger] kv[j]).0 == a && kv[j].1 != collection_name@,
                forall|a: Seq<char>|
                    #[trigger] fresh@.contains_key(a) ==> fresh@[a] == old(self)@[a],
            decreases n - i,
        {
            let entry = self.map.entry_at(i);
            let ghost pre = fresh@;
            if !(entry.1 == *collection_name) {
                fresh.insert(entry.0.clone(), entry.1.clone());
                proof {
                    assert forall|a: Seq<char>| #[trigger] fresh@.contains_key(a) <==> exists|
                        j: int,
                    |
                        0 <= j < i + 1 && (#[trigger] kv[j]).0 == a && kv[j].1
                            != collection_name@ by {
                        if a == kv[i as int].0 {
                            assert((kv[i as int]).0 == a && kv[i as int].1 != collection_name@);
                        }
                    }
                }
            } else {
                proof {
                    assert forall|a: Seq<char>| #[trigger] fresh@.contains_key(a) <==> exists|
                        j: int,
                    |
                        0 <= j < i + 1 && (#[trigger] kv[j]).0 == a && kv[j].1
                            != collection_name@ by {
                        if exists|j: int|
                            0 <= j < i + 1 && (#[trigger] kv[j]).0 == a && kv[j].1
                                != collection_name@ {
                            let j = choose|j: int|
                                0 <= j < i + 1 && (#[trigger] kv[j]).0 == a && kv[j].1
                                    != collection_name@;
                            assert(j < i);
                        }
                    }
                }
            }
            i = i + 1;
        }
        proof {
            assert forall|a: Seq<char>| #[trigger] fresh@.contains_key(a) <==> without_target(
                old(self)@,
                collection_name@,
            ).contains_key(a) by {
                if old(self)@.contains_key(a) && old(self)@[a] != collection_name@ {
                    let j = choose|j: int| 0 <= j < kv.len() && (#[trigger] kv[j]).0 == a;
                    assert(kv[j].1 != collection_name@);
                }
            }
            assert(fresh@ =~= without_target(old(self)@, collection_name@));
        }
        self.map = fresh;
        Ok(())
    }
}

/// The alias mapping without the aliases that point at `name`.
pub open spec fn without_target(amap: Map<Seq<char>, Seq<char>>, name: Seq<char>) -> Map<
    Seq<char>,
    Seq<char>,
> {
    Map::new(|a: Seq<char>| amap.contains_key(a) && amap[a] != name, |a: Seq<char>| amap[a])
}

impl View for AliasStore {
    type V = Map<Seq<char>, Seq<char>>;

    closed spec fn view(&self) -> Map<Seq<char>, Seq<char>> {
        self.map@
    }
}

} // verus!
