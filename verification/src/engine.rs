//! The per-path pipeline: candidates found at one relative path across the
//! roots are short-circuited if already merged, sent to hashing if digests
//! are missing, and otherwise grouped and turned into merge plans. The
//! caller performs the file reads and link operations the decision asks
//! for and feeds the results back in.

use vstd::prelude::*;

use crate::candidate::{all_same_inode, Candidate};
use crate::grouping::{
    confirm_groups, final_matches, final_sig, has_key, hashing_plan, is_selected, plan_covers,
    Group,
};
use crate::memo::HashMemo;
use crate::merge::{after_merge, master_idx};

verus! {

/// Whether a candidate set needs no work: fewer than two members (nothing
/// to link against), or every member already on one inode (merged by an
/// earlier run).
pub open spec fn short_circuit(s: Seq<Candidate>) -> bool {
    s.len() < 2 || all_same_inode(s)
}

/// Whether a candidate ends up in a group worth merging: its final group
/// has at least two members and a non-zero size.
pub open spec fn mergeable(s: Seq<Candidate>, memo: Map<u64, u64>, c: Candidate) -> bool {
    final_matches(s, memo, final_sig(s, memo, c)).len() > 1 && final_sig(s, memo, c).size > 0
}

/// What the engine asks the caller to do for one relative path.
pub enum PathDecision {
    /// Nothing to do for this path.
    Skip,
    /// Content digests are missing: hash each listed file, record the
    /// digest under its inode, and plan again.
    NeedHashes(Vec<Candidate>),
    /// The confirmed-identical groups worth merging.
    Merge(Vec<Group>),
}

/// Whether every member carries the inode of the first.
fn check_all_same_inode(cands: &Vec<Candidate>) -> (r: bool)
    requires
        cands@.len() >= 1,
    ensures
        r == all_same_inode(cands@),
{
    let first = cands[0];
    let mut i: usize = 1;
    while i < cands.len()
        invariant
            1 <= i <= cands@.len(),
            first == cands@[0],
            forall|j: int| 0 <= j < i ==> (#[trigger] cands@[j]).inode == cands@[0].inode,
        decreases cands@.len() - i,
    {
        if cands[i].inode != first.inode {
            proof {
                assert(cands@[i as int].inode != cands@[0].inode);
            }
            return false;
        }
        i = i + 1;
    }
    true
}

/// Decide what to do for the candidates of one relative path: skip a set
/// with nothing to merge, ask for the missing digests, or hand back the
/// merge-worthy groups of the final partition.
pub fn plan_path(cands: &Vec<Candidate>, memo: &HashMemo) -> (d: PathDecision)
    ensures
        (d matches PathDecision::Skip) <==> short_circuit(cands@),
        d matches PathDecision::NeedHashes(v) ==> {
            &&& v@.len() > 0
            &&& forall|i: int|
                0 <= i < v@.len() ==> cands@.contains(#[trigger] v@[i]) && is_selected(
                    cands@,
                    v@[i],
                ) && !memo@.contains_key(v@[i].inode)
            &&& forall|i: int, j: int| 0 <= i < j < v@.len() ==> v@[i].inode != v@[j].inode
            &&& forall|i: int|
                0 <= i < cands@.len() && is_selected(cands@, #[trigger] cands@[i])
                    ==> memo@.contains_key(cands@[i].inode) || plan_covers(v@, cands@[i].inode)
        },
        d matches PathDecision::Merge(gs) ==> {
            &&& forall|i: int|
                0 <= i < cands@.len() && is_selected(cands@, #[trigger] cands@[i])
                    ==> memo@.contains_key(cands@[i].inode)
            &&& forall|i: int|
                0 <= i < gs@.len() ==> {
                    &&& (#[trigger] gs@[i]).members@ == final_matches(cands@, memo@, gs@[i].sig)
                    &&& gs@[i].members@.len() > 1
                    &&& gs@[i].sig.size > 0
                }
            &&& forall|i: int, j: int| 0 <= i < j < gs@.len() ==> gs@[i].sig != gs@[j].sig
            &&& forall|i: int|
                0 <= i < cands@.len() && mergeable(cands@, memo@, #[trigger] cands@[i])
                    ==> has_key(gs@, final_sig(cands@, memo@, cands@[i]))
        },
{
    if cands.len() < 2 {
        return PathDecision::Skip;
    }
    if check_all_same_inode(cands) {
        return PathDecision::Skip;
    }
    let plan = hashing_plan(cands, memo);
    if plan.len() > 0 {
        return PathDecision::NeedHashes(plan);
    }
    proof {
        assert forall|i: int|
            0 <= i < cands@.len() && is_selected(cands@, #[trigger] cands@[i])
                implies memo@.contains_key(cands@[i].inode) by {
            assert(!plan_covers(plan@, cands@[i].inode));
        }
    }
    let mut rest = confirm_groups(cands, memo);
    let ghost gs0 = rest@;
    proof {
        assert(gs0.len() == rest.len());
    }
    let mut out: Vec<Group> = Vec::new();
    let mut processed: usize = 0;
    while rest.len() > 0
        invariant
            gs0.len() <= usize::MAX,
            processed + rest@.len() == gs0.len(),
            rest@ == gs0.subrange(processed as int, gs0.len() as int),
            forall|w: int|
                0 <= w < gs0.len() ==> (#[trigger] gs0[w]).members@ == final_matches(
                    cands@,
                    memo@,
                    gs0[w].sig,
                ),
            forall|w: int, x: int| 0 <= w < x < gs0.len() ==> gs0[w].sig != gs0[x].sig,
            forall|i: int|
                0 <= i < cands@.len() ==> has_key(
                    gs0,
                    final_sig(cands@, memo@, #[trigger] cands@[i]),
                ),
            forall|a: int|
                0 <= a < out@.len() ==> {
                    &&& (#[trigger] out@[a]).members@ == final_matches(cands@, memo@, out@[a].sig)
                    &&& out@[a].members@.len() > 1
                    &&& out@[a].sig.size > 0
                },
            forall|a: int|
                0 <= a < out@.len() ==> has_key(
                    gs0.subrange(0, processed as int),
                    (#[trigger] out@[a]).sig,
                ),
            forall|a: int, b: int| 0 <= a < b < out@.len() ==> out@[a].sig != out@[b].sig,
            forall|w: int|
                0 <= w < processed && (#[trigger] gs0[w]).members@.len() > 1 && gs0[w].sig.size > 0
                    ==> has_key(out@, gs0[w].sig),
        decreases rest@.len(),
    {
        let ghost p = processed as int;
        let g = rest.remove(0);
        proof {
            assert(g == gs0.subrange(p, gs0.len() as int)[0]);
            assert(g == gs0[p]);
            assert(rest@ =~= gs0.subrange(p + 1, gs0.len() as int));
        }
        let keep = g.members.len() > 1 && g.sig.size > 0;
        if keep {
            let ghost out_old = out@;
            out.push(g);
            proof {
                assert(out@[out@.len() - 1] == gs0[p]);
                assert(gs0.subrange(0, p + 1)[p] == gs0[p]);
                assert forall|a: int| 0 <= a < out@.len() implies has_key(
                    gs0.subrange(0, p + 1),
                    (#[trigger] out@[a]).sig,
                ) by {
                    if a < out_old.len() {
                        assert(out@[a] == out_old[a]);
                        let w = choose|w: int|
                            0 <= w < gs0.subrange(0, p).len() && (#[trigger] gs0.subrange(
                                0,
                                p,
                            )[w]).sig == out_old[a].sig;
                        assert(gs0.subrange(0, p + 1)[w] == gs0.subrange(0, p)[w]);
                    } else {
                        assert(gs0.subrange(0, p + 1)[p].sig == out@[a].sig);
                    }
                }
                assert forall|a: int, b: int| 0 <= a < b < out@.len() implies out@[a].sig
                    != out@[b].sig by {
                    if b == out@.len() - 1 {
                        let w = choose|w: int|
                            0 <= w < gs0.subrange(0, p).len() && (#[trigger] gs0.subrange(
                                0,
                                p,
                            )[w]).sig == out@[a].sig;
                        assert(gs0[w].sig == out@[a].sig);
                        assert(gs0[w].sig != gs0[p].sig);
                    }
                }
                assert forall|w: int|
                    0 <= w < p + 1 && (#[trigger] gs0[w]).members@.len() > 1 && gs0[w].sig.size
                        > 0 implies has_key(out@, gs0[w].sig) by {
                    if w < p {
                        let a = choose|a: int|
                            0 <= a < out_old.len() && (#[trigger] out_old[a]).sig == gs0[w].sig;
                        assert(out@[a] == out_old[a]);
                    } else {
                        assert(out@[out@.len() - 1].sig == gs0[w].sig);
                    }
                }
            }
        } else {
            proof {
                assert forall|w: int|
                    0 <= w < p + 1 && (#[trigger] gs0[w]).members@.len() > 1 && gs0[w].sig.size
                        > 0 implies has_key(out@, gs0[w].sig) by {
                    assert(w < p);
                }
                assert forall|a: int| 0 <= a < out@.len() implies has_key(
                    gs0.subrange(0, p + 1),
                    (#[trigger] out@[a]).sig,
                ) by {
                    let w = choose|w: int|
                        0 <= w < gs0.subrange(0, p).len() && (#[trigger] gs0.subrange(0, p)[w]).sig
                            == out@[a].sig;
                    assert(gs0.subrange(0, p + 1)[w] == gs0.subrange(0, p)[w]);
                }
            }
        }
        processed = processed + 1;
    }
    proof {
        assert(processed == gs0.len());
        assert forall|i: int|
            0 <= i < cands@.len() && mergeable(cands@, memo@, #[trigger] cands@[i]) implies has_key(
            out@,
            final_sig(cands@, memo@, cands@[i]),
        ) by {
            let k = final_sig(cands@, memo@, cands@[i]);
            let w = choose|w: int| 0 <= w < gs0.len() && (#[trigger] gs0[w]).sig == k;
            assert(gs0[w].members@ == final_matches(cands@, memo@, k));
        }
    }
    PathDecision::Merge(out)
}

/// Idempotence: a merged group needs no further work. Once every member
/// has been re-pointed to the master's inode, the set short-circuits on
/// the next run.
pub proof fn lemma_idempotence(s: Seq<Candidate>)
    requires
        s.len() >= 1,
    ensures
        all_same_inode(after_merge(s)),
        short_circuit(after_merge(s)),
{
    crate::merge::lemma_master_selection(s);
    let m = s[master_idx(s)];
    assert forall|i: int| 0 <= i < after_merge(s).len() implies (#[trigger] after_merge(
        s,
    )[i]).inode == after_merge(s)[0].inode by {
        assert(after_merge(s)[i].inode == m.inode);
        assert(after_merge(s)[0].inode == m.inode);
    }
}

/// The candidates that were actually found under some root: the `Some`
/// entries in fetch order, the missing counterparts dropped.
pub open spec fn present(s: Seq<Option<Candidate>>) -> Seq<Candidate>
    decreases s.len(),
{
    if s.len() == 0 {
        Seq::empty()
    } else {
        let rest = present(s.drop_last());
        match s.last() {
            Some(c) => rest.push(c),
            None => rest,
        }
    }
}

/// Build the candidate set for one relative path from the per-root fetch
/// results: a missing counterpart under some root is not an error, it
/// only shrinks the set.
pub fn collect_present(fetched: &Vec<Option<Candidate>>) -> (v: Vec<Candidate>)
    ensures
        v@ == present(fetched@),
{
    let mut v: Vec<Candidate> = Vec::new();
    let mut i: usize = 0;
    while i < fetched.len()
        invariant
            i <= fetched@.len(),
            v@ == present(fetched@.take(i as int)),
        decreases fetched@.len() - i,
    {
        proof {
            let pre = fetched@.take(i as int);
            let cur = fetched@.take(i as int + 1);
            assert(cur.drop_last() =~= pre);
            assert(cur.last() == fetched@[i as int]);
        }
        match fetched[i] {
            Some(c) => v.push(c),
            None => (),
        }
        i = i + 1;
    }
    proof {
        assert(fetched@.take(fetched@.len() as int) =~= fetched@);
    }
    v
}

} // verus!
