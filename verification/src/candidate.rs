//! The candidate data model: a file name paired with its metadata snapshot,
//! and the signature used as the grouping key.

use vstd::prelude::*;

verus! {

/// A path paired with the metadata fetched for it, immutable once built.
///
/// `path_id` stands for the concrete filesystem path: the caller assigns a
/// distinct identifier to every path it fetched metadata for and keeps the
/// mapping back to the real path. The engine never inspects path text; it
/// only carries the identifier into the link plan.
#[derive(Clone, Copy, Debug, PartialEq, Eq, Structural)]
pub struct Candidate {
    /// Identifier of the concrete path, assigned by the caller.
    pub path_id: u64,
    /// File size in bytes.
    pub size: u64,
    /// Modification time, in whole seconds since the epoch.
    pub mtime: u64,
    /// Inode number: shared by all hardlinked names of one file.
    pub inode: u64,
    /// Hardlink count of the inode at fetch time.
    pub nlink: u64,
}

/// The grouping key: content hash, mtime and size. A `hash` of `0` is the
/// sentinel for "not yet computed", used by the cheap pass.
#[derive(Clone, Copy, Debug, PartialEq, Eq, Structural)]
pub struct Signature {
    /// 64-bit content digest, or `0` before content confirmation.
    pub hash: u64,
    /// Modification time in seconds.
    pub mtime: u64,
    /// File size in bytes.
    pub size: u64,
}

/// The cheap signature of a candidate: size and mtime only, hash left at the
/// sentinel `0`. Computed from the metadata snapshot alone, no file reads.
pub open spec fn cheap_sig(c: Candidate) -> Signature {
    Signature { hash: 0, mtime: c.mtime, size: c.size }
}

/// The full signature of a candidate once its content digest is known.
pub open spec fn full_sig(c: Candidate, digest: u64) -> Signature {
    Signature { hash: digest, mtime: c.mtime, size: c.size }
}

/// Whether every candidate of the set carries one inode number — the set
/// is then already fully hardlinked and nothing is left to merge.
pub open spec fn all_same_inode(s: Seq<Candidate>) -> bool {
    forall|i: int| 0 <= i < s.len() ==> (#[trigger] s[i]).inode == s[0].inode
}

impl Candidate {
    /// The cheap (metadata-only) signature of this candidate.
    pub fn cheap_signature(&self) -> (s: Signature)
        ensures
            s == cheap_sig(*self),
    {
        Signature { hash: 0, mtime: self.mtime, size: self.size }
    }

    /// The signature of this candidate confirmed with a content digest.
    pub fn full_signature(&self, digest: u64) -> (s: Signature)
        ensures
            s == full_sig(*self, digest),
    {
        Signature { hash: digest, mtime: self.mtime, size: self.size }
    }
}

} // verus!
