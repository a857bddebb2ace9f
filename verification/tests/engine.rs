//! End-to-end tests of the per-path pipeline, driving it the way the
//! filesystem front end does: plan, hash what it asks for, plan again,
//! and apply the merge it hands back.

use linkdedup::candidate::Candidate;
use linkdedup::engine::{collect_present, plan_path, PathDecision};
use linkdedup::hasher::digest_of_bytes;
use linkdedup::memo::HashMemo;
use linkdedup::merge::plan_links;

fn cand(path_id: u64, size: u64, mtime: u64, inode: u64, nlink: u64) -> Candidate {
    Candidate { path_id, size, mtime, inode, nlink }
}

#[test]
fn single_candidate_is_skipped() {
    let cands = vec![cand(0, 5, 1000, 10, 1)];
    let memo = HashMemo::new();
    assert!(matches!(plan_path(&cands, &memo), PathDecision::Skip));
}

#[test]
fn already_linked_set_is_skipped() {
    let cands = vec![cand(0, 5, 1000, 10, 3), cand(1, 5, 1000, 10, 3), cand(2, 5, 1000, 10, 3)];
    let memo = HashMemo::new();
    assert!(matches!(plan_path(&cands, &memo), PathDecision::Skip));
}

#[test]
fn identical_files_get_hashed_then_merged() {
    // two roots, each holding the same five-byte file on its own inode
    let a = cand(0, 5, 1000, 10, 1);
    let b = cand(1, 5, 1000, 20, 1);
    let cands = vec![a, b];
    let mut memo = HashMemo::new();

    let need = match plan_path(&cands, &memo) {
        PathDecision::NeedHashes(v) => v,
        _ => panic!("expected a hashing request"),
    };
    assert_eq!(need.len(), 2);
    for c in &need {
        // both files hold "hello"
        memo.record(c.inode, digest_of_bytes(b"hello"));
    }

    let groups = match plan_path(&cands, &memo) {
        PathDecision::Merge(gs) => gs,
        _ => panic!("expected merge plans"),
    };
    assert_eq!(groups.len(), 1);
    assert_eq!(groups[0].members.len(), 2);
    let plan = plan_links(&groups[0].members);
    assert_eq!(plan.master, 0);
    assert_eq!(plan.ops.len(), 1);
    assert_eq!(plan.ops[0].source, 0);
    assert_eq!(plan.ops[0].dest, 1);
}

#[test]
fn different_content_same_metadata_not_merged() {
    // same size and mtime, so the cheap pass selects both; the digests
    // then differ and no merge is planned
    let a = cand(0, 3, 1000, 10, 1);
    let b = cand(1, 3, 1000, 20, 1);
    let cands = vec![a, b];
    let mut memo = HashMemo::new();

    let need = match plan_path(&cands, &memo) {
        PathDecision::NeedHashes(v) => v,
        _ => panic!("expected a hashing request"),
    };
    assert_eq!(need.len(), 2);
    memo.record(10, digest_of_bytes(b"foo"));
    memo.record(20, digest_of_bytes(b"bar"));

    let groups = match plan_path(&cands, &memo) {
        PathDecision::Merge(gs) => gs,
        _ => panic!("expected merge stage"),
    };
    assert!(groups.is_empty());
}

#[test]
fn second_run_after_merge_is_skipped() {
    let a = cand(0, 5, 1000, 10, 1);
    let b = cand(1, 5, 1000, 20, 1);
    let mut memo = HashMemo::new();
    let d = digest_of_bytes(b"hello");
    memo.record(10, d);
    memo.record(20, d);
    let groups = match plan_path(&vec![a, b], &memo) {
        PathDecision::Merge(gs) => gs,
        _ => panic!("expected merge plans"),
    };
    let plan = plan_links(&groups[0].members);
    let master = groups[0].members[plan.master];

    // as refetched after the links were made: one inode, bumped link counts
    let merged = vec![
        cand(0, 5, 1000, master.inode, 2),
        cand(1, 5, 1000, master.inode, 2),
    ];
    assert!(matches!(plan_path(&merged, &memo), PathDecision::Skip));
}

#[test]
fn empty_files_are_never_merged() {
    let cands = vec![cand(0, 0, 1000, 10, 1), cand(1, 0, 1000, 20, 1)];
    let memo = HashMemo::new();
    let groups = match plan_path(&cands, &memo) {
        PathDecision::Merge(gs) => gs,
        _ => panic!("expected merge stage"),
    };
    assert!(groups.is_empty());
}

#[test]
fn collect_present_drops_missing_roots() {
    let a = cand(0, 5, 1000, 10, 1);
    let c = cand(2, 5, 1000, 30, 1);
    let fetched = vec![Some(a), None, Some(c)];
    let got = collect_present(&fetched);
    assert_eq!(got.len(), 2);
    assert_eq!(got[0].path_id, 0);
    assert_eq!(got[1].path_id, 2);
}

#[test]
fn memo_lookup_returns_recorded_digest() {
    let mut memo = HashMemo::new();
    assert!(!memo.contains(10));
    assert_eq!(memo.lookup(10), None);
    memo.record(10, 42);
    assert!(memo.contains(10));
    assert_eq!(memo.lookup(10), Some(42));
    memo.record(10, 43);
    assert_eq!(memo.lookup(10), Some(43));
}
