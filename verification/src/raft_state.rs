//! Persistent raft state of a peer.
//!
//! Hard state, configuration state, the peer-address map, the frozen peer
//! identity, and the cursor over committed-but-unapplied log entries.

use vstd::prelude::*;

use crate::assoc::assoc_map;
use crate::assoc::lemma_assoc_map_domain;
use crate::assoc::lemma_assoc_map_index;
use crate::assoc::lemma_assoc_map_len;
use crate::assoc::lemma_assoc_map_push;
use crate::assoc::lemma_assoc_map_remove;
use crate::assoc::unique_keys;

verus! {

#[derive(Clone, Copy, PartialEq, Eq, Structural, Debug)]
pub struct HardState {
    pub term: u64,
    pub vote: u64,
    pub commit: u64,
}

/// Raft membership: voter and learner peer identifiers.
#[derive(Debug)]
pub struct ConfState {
    pub voters: Vec<u64>,
    pub learners: Vec<u64>,
}

/// A map from peer identifier to its address, kept as pairs with
/// pairwise-distinct identifiers.
pub struct PeerMap {
    entries: Vec<(u64, String)>,
}

impl PeerMap {
    pub closed spec fn kv_seq(&self) -> Seq<(u64, Seq<char>)> {
        self.entries@.map_values(|e: (u64, String)| (e.0, e.1@))
    }

    pub closed spec fn wf(&self) -> bool {
        unique_keys(self.kv_seq())
    }

    pub open spec fn view_map(&self) -> Map<u64, Seq<char>> {
        assoc_map(self.kv_seq())
    }

    pub fn new() -> (r: Self)
        ensures
            r.wf(),
            r.view_map() == Map::<u64, Seq<char>>::empty(),
            r.kv_seq() == Seq::<(u64, Seq<char>)>::empty(),
    {
        let r = PeerMap { entries: Vec::new() };
        proof {
            assert(r.kv_seq() =~= Seq::<(u64, Seq<char>)>::empty());
        }
        r
    }

    fn find(&self, id: u64) -> (r: Option<usize>)
        ensures
            match r {
                Some(i) => i < self.kv_seq().len() && self.kv_seq()[i as int].0 == id,
                None => forall|j: int|
                    0 <= j < self.kv_seq().len() ==> (#[trigger] self.kv_seq()[j]).0 != id,
            },
    {
        let n = self.entries.len();
        let mut i: usize = 0;
        while i < n
            invariant
                n == self.entries@.len(),
                i <= n,
                forall|j: int| 0 <= j < i ==> (#[trigger] self.kv_seq()[j]).0 != id,
            decreases n - i,
        {
            if self.entries[i].0 == id {
                return Some(i);
            }
            i = i + 1;
        }
        None
    }

    pub fn insert(&mut self, id: u64, uri: String)
        requires
            old(self).wf(),
        ensures
            final(self).wf(),
            final(self).view_map() == old(self).view_map().insert(id, uri@),
    {
        proof {
            lemma_assoc_map_domain(self.kv_seq(), id);
        }
        match self.find(id) {
            Some(i) => {
                proof {
                    lemma_assoc_map_remove(self.kv_seq(), i as int);
                }
                let _ = self.entries.remove(i);
                proof {
                    assert(self.kv_seq() =~= old(self).kv_seq().remove(i as int));
                    assert forall|a: int, b: int|
                        0 <= a < b < self.kv_seq().len() implies (#[trigger] self.kv_seq()[a]).0
                        != (#[trigger] self.kv_seq()[b]).0 by {
                        let s = old(self).kv_seq();
                        let ai: int = if a < i { a } else { a + 1 };
                        let bi: int = if b < i { b } else { b + 1 };
                        assert(self.kv_seq()[a] == s[ai]);
                        assert(self.kv_seq()[b] == s[bi]);
                    }
                }
            },
            None => {},
        }
        proof {
            lemma_assoc_map_domain(self.kv_seq(), id);
            lemma_assoc_map_push(self.kv_seq(), id, uri@);
        }
        let ghost mid = self.kv_seq();
        self.entries.push((id, uri));
        proof {
            assert(self.kv_seq() =~= mid.push((id, uri@)));
            assert(final(self).view_map() =~= old(self).view_map().insert(id, uri@));
        }
    }

    /// Relates the abstract map to the stored pairs: one pair per peer,
    /// pairwise-distinct identifiers, addresses matching the map.
    pub proof fn lemma_view_entries(&self)
        requires
            self.wf(),
        ensures
            self.view_map().dom().finite(),
            self.view_map().len() == self.kv_seq().len(),
            forall|i: int|
                0 <= i < self.kv_seq().len() ==> self.view_map().contains_key(
                    (#[trigger] self.kv_seq()[i]).0,
                ) && self.view_map()[self.kv_seq()[i].0] == self.kv_seq()[i].1,
            forall|k: u64|
                #[trigger] self.view_map().contains_key(k) ==> exists|i: int|
                    0 <= i < self.kv_seq().len() && (#[trigger] self.kv_seq()[i]).0 == k,
            forall|i: int, j: int|
                0 <= i < j < self.kv_seq().len() ==> (#[trigger] self.kv_seq()[i]).0 != (
                #[trigger] self.kv_seq()[j]).0,
    {
        lemma_assoc_map_len(self.kv_seq());
        assert forall|i: int| 0 <= i < self.kv_seq().len() implies self.view_map().contains_key(
            (#[trigger] self.kv_seq()[i]).0,
        ) && self.view_map()[self.kv_seq()[i].0] == self.kv_seq()[i].1 by {
            lemma_assoc_map_index(self.kv_seq(), i);
        }
        assert forall|k: u64| #[trigger] self.view_map().contains_key(k) implies exists|i: int|
            0 <= i < self.kv_seq().len() && (#[trigger] self.kv_seq()[i]).0 == k by {
            lemma_assoc_map_domain(self.kv_seq(), k);
            let i = choose|i: int| 0 <= i < self.kv_seq().len() && self.kv_seq()[i].0 == k;
            assert((self.kv_seq()[i]).0 == k);
        }
    }

    /// The identifier/address pairs, in storage order.
    pub fn pairs(&self) -> (r: Vec<(u64, String)>)
        ensures
            r@.map_values(|e: (u64, String)| (e.0, e.1@)) == self.kv_seq(),
    {
        let n = self.entries.len();
        let mut r: Vec<(u64, String)> = Vec::new();
        let mut i: usize = 0;
        while i < n
            invariant
                n == self.entries@.len(),
                i <= n,
                r@.len() == i,
                forall|j: int|
                    0 <= j < i ==> (#[trigger] r@[j]).0 == self.kv_seq()[j].0 && r@[j].1@
                        == self.kv_seq()[j].1,
            decreases n - i,
        {
            r.push((self.entries[i].0, self.entries[i].1.clone()));
            i = i + 1;
        }
        proof {
            assert(r@.map_values(|e: (u64, String)| (e.0, e.1@)) =~= self.kv_seq());
        }
        r
    }

    /// Replaces the whole map with the given pairs; on duplicate
    /// identifiers the later pair wins.
    pub fn set_all(&mut self, pairs: &Vec<(u64, String)>)
        ensures
            final(self).wf(),
            final(self).view_map() == assoc_map(
                pairs@.map_values(|e: (u64, String)| (e.0, e.1@)),
            ),
    {
        let ghost s = pairs@.map_values(|e: (u64, String)| (e.0, e.1@));
        let mut fresh = PeerMap::new();
        let n = pairs.len();
        let mut i: usize = 0;
        proof {
            assert(s.take(0) =~= Seq::<(u64, Seq<char>)>::empty());
        }
        while i < n
            invariant
                n == pairs@.len(),
                s == pairs@.map_values(|e: (u64, String)| (e.0, e.1@)),
                i <= n,
                fresh.wf(),
                fresh.view_map() == assoc_map(s.take(i as int)),
            decreases n - i,
        {
            fresh.insert(pairs[i].0, pairs[i].1.clone());
            proof {
                assert(s.take(i as int + 1).drop_last() =~= s.take(i as int));
                assert(s.take(i as int + 1).last() == s[i as int]);
            }
            i = i + 1;
        }
        proof {
            assert(s.take(n as int) =~= s);
        }
        *self = fresh;
    }
}

/// Durable raft state of this peer.
pub struct RaftPersistentState {
    hard_state: HardState,
    conf_state: ConfState,
    peers: PeerMap,
    this_peer_id: u64,
    unapplied_first: u64,
    unapplied_last: u64,
    cursor: u64,
}

impl RaftPersistentState {
    pub closed spec fn spec_hard_state(&self) -> HardState {
        self.hard_state
    }

    pub closed spec fn voters(&self) -> Seq<u64> {
        self.conf_state.voters@
    }

    pub closed spec fn learners(&self) -> Seq<u64> {
        self.conf_state.learners@
    }

    pub closed spec fn addrs(&self) -> Map<u64, Seq<char>> {
        self.peers.view_map()
    }

    pub closed spec fn peers_kv(&self) -> Seq<(u64, Seq<char>)> {
        self.peers.kv_seq()
    }

    /// The address map is the meaning of the stored pairs.
    pub proof fn lemma_addrs_peers_kv(&self)
        ensures
            self.addrs() == assoc_map(self.peers_kv()),
    {
    }

    /// Relates the address map to the stored pairs.
    pub proof fn lemma_peer_entries(&self)
        requires
            self.wf(),
        ensures
            self.addrs().dom().finite(),
            self.addrs().len() == self.peers_kv().len(),
            forall|i: int|
                0 <= i < self.peers_kv().len() ==> self.addrs().contains_key(
                    (#[trigger] self.peers_kv()[i]).0,
                ) && self.addrs()[self.peers_kv()[i].0] == self.peers_kv()[i].1,
            forall|k: u64|
                #[trigger] self.addrs().contains_key(k) ==> exists|i: int|
                    0 <= i < self.peers_kv().len() && (#[trigger] self.peers_kv()[i]).0 == k,
            forall|i: int, j: int|
                0 <= i < j < self.peers_kv().len() ==> (#[trigger] self.peers_kv()[i]).0 != (
                #[trigger] self.peers_kv()[j]).0,
    {
        self.peers.lemma_view_entries();
        assert forall|k: u64| #[trigger] self.addrs().contains_key(k) implies exists|i: int|
            0 <= i < self.peers_kv().len() && (#[trigger] self.peers_kv()[i]).0 == k by {
            let i = choose|i: int|
                0 <= i < self.peers.kv_seq().len() && (#[trigger] self.peers.kv_seq()[i]).0 == k;
            assert((self.peers_kv()[i]).0 == k);
        }
    }

    pub closed spec fn spec_this_peer_id(&self) -> u64 {
        self.this_peer_id
    }

    pub closed spec fn unapplied(&self) -> (u64, u64, u64) {
        (self.unapplied_first, self.unapplied_last, self.cursor)
    }

    /// The next committed entry that has not been applied yet.
    pub open spec fn spec_current_unapplied(&self) -> Option<u64> {
        if self.unapplied().2 <= self.unapplied().1 {
            Some(self.unapplied().2)
        } else {
            None
        }
    }

    pub closed spec fn wf(&self) -> bool {
        &&& self.peers.wf()
        &&& self.unapplied_last < u64::MAX
    }

    /// Fresh state for a peer. A first peer starts as the only voter.
    pub fn init(this_peer_id: u64, first_peer: bool) -> (r: Self)
        ensures
            r.wf(),
            r.spec_hard_state() == (HardState { term: 0, vote: 0, commit: 0 }),
            r.voters() == if first_peer {
                seq![this_peer_id]
            } else {
                Seq::<u64>::empty()
            },
            r.learners() == Seq::<u64>::empty(),
            r.addrs() == Map::<u64, Seq<char>>::empty(),
            r.spec_this_peer_id() == this_peer_id,
            r.spec_current_unapplied() is None,
    {
        let mut voters: Vec<u64> = Vec::new();
        if first_peer {
            voters.push(this_peer_id);
            proof {
                assert(voters@ =~= seq![this_peer_id]);
            }
        } else {
            proof {
                assert(voters@ =~= Seq::<u64>::empty());
            }
        }
        RaftPersistentState {
            hard_state: HardState { term: 0, vote: 0, commit: 0 },
            conf_state: ConfState { voters, learners: Vec::new() },
            peers: PeerMap::new(),
            this_peer_id,
            unapplied_first: 1,
            unapplied_last: 0,
            cursor: 1,
        }
    }

    pub fn this_peer_id(&self) -> (r: u64)
        ensures
            r == self.spec_this_peer_id(),
    {
        self.this_peer_id
    }

    pub fn hard_state(&self) -> (r: HardState)
        ensures
            r == self.spec_hard_state(),
    {
        self.hard_state
    }

    pub fn set_hard_state(&mut self, hs: HardState)
        requires
            old(self).wf(),
        ensures
            final(self).wf(),
            final(self).spec_hard_state() == hs,
            final(self).voters() == old(self).voters(),
            final(self).learners() == old(self).learners(),
            final(self).addrs() == old(self).addrs(),
            final(self).peers_kv() == old(self).peers_kv(),
            final(self).spec_this_peer_id() == old(self).spec_this_peer_id(),
            final(self).unapplied() == old(self).unapplied(),
    {
        self.hard_state = hs;
    }

    pub fn set_commit_index(&mut self, index: u64)
        requires
            old(self).wf(),
        ensures
            final(self).wf(),
            final(self).spec_hard_state() == (HardState {
                commit: index,
                ..old(self).spec_hard_state()
            }),
            final(self).voters() == old(self).voters(),
            final(self).learners() == old(self).learners(),
            final(self).addrs() == old(self).addrs(),
            final(self).peers_kv() == old(self).peers_kv(),
            final(self).spec_this_peer_id() == old(self).spec_this_peer_id(),
            final(self).unapplied() == old(self).unapplied(),
    {
        self.hard_state.commit = index;
    }

    pub fn insert_peer(&mut self, peer_id: u64, uri: String)
        requires
            old(self).wf(),
        ensures
            final(self).wf(),
            final(self).addrs() == old(self).addrs().insert(peer_id, uri@),
            final(self).spec_hard_state() == old(self).spec_hard_state(),
            final(self).voters() == old(self).voters(),
            final(self).learners() == old(self).learners(),
            final(self).spec_this_peer_id() == old(self).spec_this_peer_id(),
            final(self).unapplied() == old(self).unapplied(),
    {
        self.peers.insert(peer_id, uri);
    }

    /// Replaces every peer address; on duplicate identifiers the later
    /// pair wins.
    pub fn set_peer_address_by_id(&mut self, pairs: &Vec<(u64, String)>)
        requires
            old(self).wf(),
        ensures
            final(self).wf(),
            final(self).addrs() == assoc_map(pairs@.map_values(|e: (u64, String)| (e.0, e.1@))),
            final(self).spec_hard_state() == old(self).spec_hard_state(),
            final(self).voters() == old(self).voters(),
            final(self).learners() == old(self).learners(),
            final(self).spec_this_peer_id() == old(self).spec_this_peer_id(),
            final(self).unapplied() == old(self).unapplied(),
    {
        self.peers.set_all(pairs);
    }

    pub fn peer_address_by_id(&self) -> (r: Vec<(u64, String)>)
        requires
            self.wf(),
        ensures
            r@.map_values(|e: (u64, String)| (e.0, e.1@)) == self.peers_kv(),
            assoc_map(r@.map_values(|e: (u64, String)| (e.0, e.1@))) == self.addrs(),
    {
        self.peers.pairs()
    }

    pub fn conf_state(&self) -> (r: &ConfState)
        ensures
            r.voters@ == self.voters(),
            r.learners@ == self.learners(),
    {
        &self.conf_state
    }

    /// Marks the half-open range of committed entries awaiting apply and
    /// rewinds the cursor to its start.
    pub fn set_unapplied_entries(&mut self, first_index: u64, last_index: u64)
        requires
            old(self).wf(),
            last_index < u64::MAX,
        ensures
            final(self).wf(),
            final(self).unapplied() == (first_index, last_index, first_index),
            final(self).spec_hard_state() == old(self).spec_hard_state(),
            final(self).voters() == old(self).voters(),
            final(self).learners() == old(self).learners(),
            final(self).addrs() == old(self).addrs(),
            final(self).peers_kv() == old(self).peers_kv(),
            final(self).spec_this_peer_id() == old(self).spec_this_peer_id(),
    {
        self.unapplied_first = first_index;
        self.unapplied_last = last_index;
        self.cursor = first_index;
    }

    pub fn current_unapplied_entry(&self) -> (r: Option<u64>)
        ensures
            r == self.spec_current_unapplied(),
    {
        if self.cursor <= self.unapplied_last {
            Some(self.cursor)
        } else {
            None
        }
    }

    /// Advances the applied cursor past the current entry.
    pub fn entry_applied(&mut self)
        requires
            old(self).wf(),
            old(self).spec_current_unapplied() is Some,
        ensures
            final(self).wf(),
            final(self).unapplied().0 == old(self).unapplied().0,
            final(self).unapplied().1 == old(self).unapplied().1,
            final(self).unapplied().2 as int == old(self).unapplied().2 as int + 1,
            final(self).spec_hard_state() == old(self).spec_hard_state(),
            final(self).voters() == old(self).voters(),
            final(self).learners() == old(self).learners(),
            final(self).addrs() == old(self).addrs(),
            final(self).peers_kv() == old(self).peers_kv(),
            final(self).spec_this_peer_id() == old(self).spec_this_peer_id(),
    {
        self.cursor = self.cursor + 1;
    }
}

} // verus!
