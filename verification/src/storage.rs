//! The in-memory model of the durable store: one record of bytes per
//! checkpoint identity. The program's outer layer mirrors every operation
//! onto the real medium; the library's guarantees are stated against this
//! map.

use vstd::prelude::*;
use std::collections::HashMap;

verus! {

broadcast use vstd::std_specs::hash::group_hash_axioms;

/// A keyed store of records, one per checkpoint identity.
pub struct Storage {
    records: HashMap<usize, Vec<u8>>,
}

impl View for Storage {
    type V = Map<usize, Seq<u8>>;

    closed spec fn view(&self) -> Map<usize, Seq<u8>> {
        self.records@.map_values(|v: Vec<u8>| v@)
    }
}

impl Storage {
    /// A store with no records.
    pub fn new() -> (r: Storage)
        ensures
            r@ == Map::<usize, Seq<u8>>::empty(),
    {
        let r = Storage { records: HashMap::new() };
        proof {
            assert(r@ =~= Map::<usize, Seq<u8>>::empty());
        }
        r
    }

    /// Whether a record exists for `id`.
    pub fn contains(&self, id: usize) -> (r: bool)
        ensures
            r == self@.contains_key(id),
    {
        self.records.contains_key(&id)
    }

    /// The record for `id`, if one exists.
    pub fn read(&self, id: usize) -> (r: Option<&Vec<u8>>)
        ensures
            match r {
                Some(b) => self@.contains_key(id) && b@ == self@[id],
                None => !self@.contains_key(id),
            },
    {
        self.records.get(&id)
    }

    /// Writes the record for `id`, fully replacing any prior one.
    pub fn write(&mut self, id: usize, bytes: Vec<u8>)
        ensures
            final(self)@ == old(self)@.insert(id, bytes@),
    {
        let ghost b = bytes@;
        self.records.insert(id, bytes);
        proof {
            assert(self@ =~= old(self)@.insert(id, b));
        }
    }

    /// Deletes the record for `id`, if any.
    pub fn remove(&mut self, id: usize)
        ensures
            final(self)@ == old(self)@.remove(id),
    {
        self.records.remove(&id);
        proof {
            assert(self@ =~= old(self)@.remove(id));
        }
    }
}

} // verus!
