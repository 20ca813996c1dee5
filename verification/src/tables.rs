//! Lookup tables built from the host's adapters: by MAC, by NIC name and by
//! default gateway, each mapping to the interface a rule routes through.

use vstd::prelude::*;
use std::collections::HashMap;
use crate::text::{chars_eq, to_chars};

verus! {

/// Resolved interface info built at startup from live adapter enumeration.
#[derive(Clone, Copy, Debug, PartialEq, Eq, Structural)]
pub struct MacEntry {
    pub if_index: u32,
    pub gateway: u32,
    pub egress_ipv4: Option<u32>,
}

/// A table from names (MAC texts, lower-case NIC names) to entries; a later
/// insert under the same name replaces the earlier entry.
pub struct NameTable {
    entries: Vec<(Vec<char>, MacEntry)>,
    contents: Ghost<Map<Seq<char>, MacEntry>>,
}

impl View for NameTable {
    type V = Map<Seq<char>, MacEntry>;

    closed spec fn view(&self) -> Map<Seq<char>, MacEntry> {
        self.contents@
    }
}

impl NameTable {
    pub closed spec fn wf(self) -> bool {
        &&& forall|i: int|
            0 <= i < self.entries@.len() ==> self.contents@.contains_key(
                (#[trigger] self.entries@[i]).0@,
            ) && self.contents@[self.entries@[i].0@] == self.entries@[i].1
        &&& forall|k: Seq<char>|
            #[trigger] self.contents@.contains_key(k) ==> exists|i: int|
                0 <= i < self.entries@.len() && (#[trigger] self.entries@[i]).0@ == k
        &&& forall|i: int, j: int|
            0 <= i < j < self.entries@.len() ==> (#[trigger] self.entries@[i]).0@
                != (#[trigger] self.entries@[j]).0@
    }

    pub fn new() -> (t: NameTable)
        ensures
            t.wf(),
            t@ == Map::<Seq<char>, MacEntry>::empty(),
    {
        NameTable { entries: Vec::new(), contents: Ghost(Map::empty()) }
    }

    fn find(&self, key: &[char]) -> (r: Option<usize>)
        requires
            self.wf(),
        ensures
            r matches Some(i) ==> i < self.entries@.len() && self.entries@[i as int].0@ == key@,
            r is None ==> !self@.contains_key(key@),
    {
        let mut i: usize = 0;
        while i < self.entries.len()
            invariant
                self.wf(),
                i <= self.entries@.len(),
                forall|j: int| 0 <= j < i ==> (#[trigger] self.entries@[j]).0@ != key@,
            decreases self.entries@.len() - i,
        {
            if chars_eq(self.entries[i].0.as_slice(), key) {
                return Some(i);
            }
            i = i + 1;
        }
        None
    }

    /// Sets the entry under `key` (`HashMap::insert`).
    pub fn insert(&mut self, key: &str, entry: MacEntry)
        requires
            old(self).wf(),
        ensures
            final(self).wf(),
            final(self)@ == old(self)@.insert(key@, entry),
    {
        let k = to_chars(key);
        match self.find(k.as_slice()) {
            Some(i) => {
                let ghost m = self.contents@.insert(key@, entry);
                self.entries.set(i, (k, entry));
                self.contents = Ghost(m);
                assert forall|kk: Seq<char>| #[trigger] self.contents@.contains_key(kk) implies exists|j: int|
                    0 <= j < self.entries@.len() && (#[trigger] self.entries@[j]).0@ == kk by {
                    if kk != key@ {
                        let j = choose|j: int|
                            0 <= j < old(self).entries@.len() && (#[trigger] old(self).entries@[j]).0@ == kk;
                        assert(self.entries@[j] == old(self).entries@[j]);
                    } else {
                        assert(self.entries@[i as int].0@ == kk);
                    }
                }
            },
            None => {
                let ghost m = self.contents@.insert(key@, entry);
                self.entries.push((k, entry));
                self.contents = Ghost(m);
                assert forall|kk: Seq<char>| #[trigger] self.contents@.contains_key(kk) implies exists|j: int|
                    0 <= j < self.entries@.len() && (#[trigger] self.entries@[j]).0@ == kk by {
                    if kk != key@ {
                        let j = choose|j: int|
                            0 <= j < old(self).entries@.len() && (#[trigger] old(self).entries@[j]).0@ == kk;
                        assert(self.entries@[j] == old(self).entries@[j]);
                    } else {
                        assert(self.entries@[self.entries@.len() - 1].0@ == kk);
                    }
                }
            },
        }
    }

    /// The entry under `key` (`HashMap::get`).
    pub fn get(&self, key: &str) -> (r: Option<MacEntry>)
        requires
            self.wf(),
        ensures
            r == (if self@.contains_key(key@) {
                Some(self@[key@])
            } else {
                None::<MacEntry>
            }),
    {
        let k = to_chars(key);
        match self.find(k.as_slice()) {
            Some(i) => Some(self.entries[i].1),
            None => None,
        }
    }
}

/// A table from default-gateway addresses to entries; a later insert under
/// the same address replaces the earlier entry.
pub struct GatewayTable {
    map: HashMap<u32, MacEntry>,
}

impl View for GatewayTable {
    type V = Map<u32, MacEntry>;

    closed spec fn view(&self) -> Map<u32, MacEntry> {
        self.map@
    }
}

impl GatewayTable {
    pub fn new() -> (t: GatewayTable)
        ensures
            t@ == Map::<u32, MacEntry>::empty(),
    {
        GatewayTable { map: HashMap::new() }
    }

    /// Sets the entry under `key` (`HashMap::insert`).
    pub fn insert(&mut self, key: u32, entry: MacEntry)
        ensures
            final(self)@ == old(self)@.insert(key, entry),
    {
        broadcast use vstd::std_specs::hash::group_hash_axioms;

        self.map.insert(key, entry);
    }

    /// The entry under `key` (`HashMap::get`).
    pub fn get(&self, key: u32) -> (r: Option<MacEntry>)
        ensures
            r == (if self@.contains_key(key) {
                Some(self@[key])
            } else {
                None::<MacEntry>
            }),
    {
        broadcast use vstd::std_specs::hash::group_hash_axioms;

        match self.map.get(&key) {
            Some(e) => Some(*e),
            None => None,
        }
    }
}

} // verus!
