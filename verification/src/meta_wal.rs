//! The metadata write-ahead log.
//!
//! An append-only record log of encoded consensus entries, addressed by
//! zero-based position. Appends are atomic: an append either adds exactly
//! one record at the end or changes nothing.

use vstd::prelude::*;

use vstd::slice::slice_to_vec;

verus! {

pub struct MetaWal {
    entries: Vec<Vec<u8>>,
}

impl MetaWal {
    /// All records, oldest first.
    pub closed spec fn log(&self) -> Seq<Seq<u8>> {
        self.entries@.map_values(|e: Vec<u8>| e@)
    }

    /// Opens an empty log.
    pub fn open() -> (r: Self)
        ensures
            r.log() == Seq::<Seq<u8>>::empty(),
    {
        let r = MetaWal { entries: Vec::new() };
        proof {
            assert(r.log() =~= Seq::<Seq<u8>>::empty());
        }
        r
    }

    /// Appends one record; returns its position.
    pub fn append(&mut self, data: Vec<u8>) -> (idx: u64)
        ensures
            final(self).log() == old(self).log().push(data@),
            idx == old(self).log().len(),
    {
        let idx = self.entries.len() as u64;
        let ghost d = data@;
        self.entries.push(data);
        proof {
            assert(self.log() =~= old(self).log().push(d));
        }
        idx
    }

    /// The record at a position, if the position holds one.
    pub fn entry(&self, i: u64) -> (r: Option<Vec<u8>>)
        ensures
            match r {
                Some(d) => i < self.log().len() && d@ == self.log()[i as int],
                None => i >= self.log().len(),
            },
    {
        if i < self.entries.len() as u64 {
            Some(slice_to_vec(self.entries[i as usize].as_slice()))
        } else {
            None
        }
    }

    /// Position of the first retained record; the log never truncates, so
    /// this is zero.
    pub fn first_index(&self) -> (r: u64)
        ensures
            r == 0,
    {
        0
    }

    /// Number of records in the log.
    pub fn num_entries(&self) -> (r: u64)
        ensures
            r == self.log().len(),
    {
        self.entries.len() as u64
    }
}

} // verus!
