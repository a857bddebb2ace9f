//! Tests of the two-phase signature grouping.

use linkdedup::candidate::{Candidate, Signature};
use linkdedup::grouping::{confirm_groups, count_cheap, group_by_cheap, hashing_plan};
use linkdedup::hasher::digest_of_bytes;
use linkdedup::memo::HashMemo;

fn cand(path_id: u64, size: u64, mtime: u64, inode: u64, nlink: u64) -> Candidate {
    Candidate { path_id, size, mtime, inode, nlink }
}

#[test]
fn cheap_pass_groups_by_size_and_mtime() {
    let cands = vec![
        cand(0, 5, 1000, 10, 1),
        cand(1, 5, 1000, 20, 1),
        cand(2, 7, 1000, 30, 1),
        cand(3, 5, 2000, 40, 1),
    ];
    let groups = group_by_cheap(&cands);
    assert_eq!(groups.len(), 3);
    // every cheap key carries the sentinel hash
    for g in &groups {
        assert_eq!(g.sig.hash, 0);
    }
    // the two (5, 1000) files share a group, in input order
    let g = groups
        .iter()
        .find(|g| g.sig == Signature { hash: 0, mtime: 1000, size: 5 })
        .unwrap();
    assert_eq!(g.members.len(), 2);
    assert_eq!(g.members[0].path_id, 0);
    assert_eq!(g.members[1].path_id, 1);
}

#[test]
fn count_cheap_counts_matching_candidates() {
    let cands = vec![cand(0, 5, 1000, 10, 1), cand(1, 5, 1000, 20, 1), cand(2, 9, 1000, 30, 1)];
    let k = Signature { hash: 0, mtime: 1000, size: 5 };
    assert_eq!(count_cheap(&cands, k), 2);
    let none = Signature { hash: 0, mtime: 9, size: 9 };
    assert_eq!(count_cheap(&cands, none), 0);
}

#[test]
fn hashing_plan_lists_each_inode_once() {
    // two names of one inode plus a distinct file, all sharing a cheap key
    let cands = vec![cand(0, 5, 1000, 10, 2), cand(1, 5, 1000, 10, 2), cand(2, 5, 1000, 30, 1)];
    let memo = HashMemo::new();
    let plan = hashing_plan(&cands, &memo);
    assert_eq!(plan.len(), 2);
    assert_ne!(plan[0].inode, plan[1].inode);
}

#[test]
fn hashing_plan_skips_memoized_inodes() {
    let cands = vec![cand(0, 5, 1000, 10, 1), cand(1, 5, 1000, 20, 1)];
    let mut memo = HashMemo::new();
    memo.record(10, 77);
    let plan = hashing_plan(&cands, &memo);
    assert_eq!(plan.len(), 1);
    assert_eq!(plan[0].inode, 20);
}

#[test]
fn hashing_plan_ignores_unselected_candidates() {
    // distinct cheap keys: no group has two members, nothing to confirm
    let cands = vec![cand(0, 5, 1000, 10, 1), cand(1, 6, 1000, 20, 1)];
    let memo = HashMemo::new();
    assert!(hashing_plan(&cands, &memo).is_empty());
    // two empty files share a cheap key but are never confirmed
    let empties = vec![cand(0, 0, 1000, 10, 1), cand(1, 0, 1000, 20, 1)];
    assert!(hashing_plan(&empties, &memo).is_empty());
}

#[test]
fn confirm_regroups_by_digest() {
    // same size and mtime, different content
    let cands = vec![cand(0, 3, 1000, 10, 1), cand(1, 3, 1000, 20, 1)];
    let mut memo = HashMemo::new();
    memo.record(10, digest_of_bytes(b"foo"));
    memo.record(20, digest_of_bytes(b"bar"));
    let groups = confirm_groups(&cands, &memo);
    assert_eq!(groups.len(), 2);
    for g in &groups {
        assert_eq!(g.members.len(), 1);
        assert_ne!(g.sig.hash, 0);
    }
}

#[test]
fn confirm_keeps_identical_content_together() {
    let d = digest_of_bytes(b"hello");
    let cands = vec![cand(0, 5, 1000, 10, 1), cand(1, 5, 1000, 20, 1)];
    let mut memo = HashMemo::new();
    memo.record(10, d);
    memo.record(20, d);
    let groups = confirm_groups(&cands, &memo);
    assert_eq!(groups.len(), 1);
    assert_eq!(groups[0].sig, Signature { hash: d, mtime: 1000, size: 5 });
    assert_eq!(groups[0].members.len(), 2);
}

#[test]
fn identical_content_different_mtime_not_grouped() {
    // the documented edge case: equal bytes, unequal mtime — the cheap keys
    // already differ, so the files are never even confirmed together
    let cands = vec![cand(0, 5, 1000, 10, 1), cand(1, 5, 2000, 20, 1)];
    let memo = HashMemo::new();
    assert!(hashing_plan(&cands, &memo).is_empty());
    let groups = confirm_groups(&cands, &memo);
    assert_eq!(groups.len(), 2);
    for g in &groups {
        assert_eq!(g.members.len(), 1);
        assert_eq!(g.sig.hash, 0);
    }
}

#[test]
fn extreme_metadata_values_group_cleanly() {
    let big = u64::MAX;
    let cands = vec![
        cand(0, big, big, big, big),
        cand(1, big, big, big - 1, 1),
        cand(2, big - 1, big, 7, 1),
    ];
    let groups = group_by_cheap(&cands);
    assert_eq!(groups.len(), 2);
    let g = groups
        .iter()
        .find(|g| g.sig == Signature { hash: 0, mtime: big, size: big })
        .unwrap();
    assert_eq!(g.members.len(), 2);
}

#[test]
fn singleton_groups_pass_through_unconfirmed() {
    let cands = vec![cand(0, 5, 1000, 10, 1)];
    let memo = HashMemo::new();
    let groups = confirm_groups(&cands, &memo);
    assert_eq!(groups.len(), 1);
    assert_eq!(groups[0].sig.hash, 0);
    assert_eq!(groups[0].members.len(), 1);
}
