//! The hash memo: a run-scoped mapping from inode number to the content
//! digest already computed for that inode, so a file reached through many
//! names or trees is hashed at most once.

use std::collections::HashMap;
use vstd::prelude::*;

verus! {

broadcast use vstd::std_specs::hash::group_hash_axioms;

/// Maps an inode number to the content digest computed for it this run.
///
/// Two candidates with one inode number are the same file on disk; the memo
/// guarantees that they resolve to one digest without a second read.
pub struct HashMemo {
    table: HashMap<u64, u64>,
}

impl View for HashMemo {
    type V = Map<u64, u64>;

    closed spec fn view(&self) -> Map<u64, u64> {
        self.table@
    }
}

impl HashMemo {
    /// An empty memo, as each run starts with.
    pub fn new() -> (m: HashMemo)
        ensures
            m@ == Map::<u64, u64>::empty(),
    {
        HashMemo { table: HashMap::new() }
    }

    /// Whether a digest is already recorded for this inode.
    pub fn contains(&self, inode: u64) -> (r: bool)
        ensures
            r == self@.contains_key(inode),
    {
        self.table.contains_key(&inode)
    }

    /// The digest recorded for this inode, if any.
    pub fn lookup(&self, inode: u64) -> (r: Option<u64>)
        ensures
            match r {
                Some(digest) => self@.contains_key(inode) && self@[inode] == digest,
                None => !self@.contains_key(inode),
            },
    {
        match self.table.get(&inode) {
            Some(digest) => Some(*digest),
            None => None,
        }
    }

    /// Record the digest computed for an inode.
    pub fn record(&mut self, inode: u64, digest: u64)
        ensures
            final(self)@ == old(self)@.insert(inode, digest),
    {
        self.table.insert(inode, digest);
    }
}

} // verus!
