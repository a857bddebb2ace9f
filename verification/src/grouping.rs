//! Two-phase signature grouping: candidates sharing one relative path are
//! partitioned first by the cheap metadata signature (size and mtime, hash
//! left at the sentinel), then the multi-member, non-empty groups are
//! re-partitioned by the full signature with the content digest filled in.

use vstd::prelude::*;

use crate::candidate::{cheap_sig, full_sig, Candidate, Signature};
use crate::memo::HashMemo;

verus! {

/// A grouping key together with the candidates that share it, in the order
/// they were handed in.
pub struct Group {
    /// The signature every member shares.
    pub sig: Signature,
    /// The members, a subsequence of the candidate set.
    pub members: Vec<Candidate>,
}

/// The candidates of `s` whose cheap signature is `k`, in order.
pub open spec fn cheap_matches(s: Seq<Candidate>, k: Signature) -> Seq<Candidate> {
    s.filter(|c: Candidate| cheap_sig(c) == k)
}

/// Whether the candidates with cheap signature `k` go to the confirm pass:
/// only groups with more than one member and a non-zero size are worth a
/// content read.
pub open spec fn selected_key(s: Seq<Candidate>, k: Signature) -> bool {
    cheap_matches(s, k).len() > 1 && k.size > 0
}

/// Whether candidate `c` of set `s` gets its content confirmed.
pub open spec fn is_selected(s: Seq<Candidate>, c: Candidate) -> bool {
    selected_key(s, cheap_sig(c))
}

/// The signature a candidate of `s` ends up grouped under: the full
/// signature with the memoized digest for its inode if it was selected for
/// confirmation, else its cheap signature.
pub open spec fn final_sig(s: Seq<Candidate>, memo: Map<u64, u64>, c: Candidate) -> Signature {
    if is_selected(s, c) {
        full_sig(c, memo[c.inode])
    } else {
        cheap_sig(c)
    }
}

/// The candidates of `s` whose final signature is `k`, in order.
pub open spec fn final_matches(s: Seq<Candidate>, memo: Map<u64, u64>, k: Signature) -> Seq<
    Candidate,
> {
    s.filter(|c: Candidate| final_sig(s, memo, c) == k)
}

/// Whether some group of the list carries key `k`.
pub open spec fn has_key(groups: Seq<Group>, k: Signature) -> bool {
    exists|g: int| 0 <= g < groups.len() && (#[trigger] groups[g]).sig == k
}

/// Filtering a sequence extended by one element keeps the old result and
/// appends the element exactly when it satisfies the predicate.
proof fn lemma_filter_push(s: Seq<Candidate>, p: spec_fn(Candidate) -> bool, x: Candidate)
    ensures
        s.push(x).filter(p) == (if p(x) {
            s.filter(p).push(x)
        } else {
            s.filter(p)
        }),
{
    reveal(Seq::filter);
    assert(s.push(x).drop_last() =~= s);
    assert(s.push(x).last() == x);
}

/// A sequence none of whose elements satisfies the predicate filters to the
/// empty sequence.
proof fn lemma_filter_empty_if_none(s: Seq<Candidate>, p: spec_fn(Candidate) -> bool)
    requires
        forall|i: int| 0 <= i < s.len() ==> !p(#[trigger] s[i]),
    ensures
        s.filter(p).len() == 0,
    decreases s.len(),
{
    reveal(Seq::filter);
    if s.len() > 0 {
        assert(forall|i: int| 0 <= i < s.drop_last().len() ==> s.drop_last()[i] == s[i]);
        lemma_filter_empty_if_none(s.drop_last(), p);
    }
}

/// Number of candidates of `cands` whose cheap signature is `k`.
pub fn count_cheap(cands: &Vec<Candidate>, k: Signature) -> (n: usize)
    ensures
        n == cheap_matches(cands@, k).len(),
{
    let mut n: usize = 0;
    let mut idx: usize = 0;
    while idx < cands.len()
        invariant
            idx <= cands@.len(),
            n == cheap_matches(cands@.take(idx as int), k).len(),
            n <= idx,
        decreases cands@.len() - idx,
    {
        let c = cands[idx];
        proof {
            assert(cands@.take(idx as int + 1) =~= cands@.take(idx as int).push(c));
            lemma_filter_push(
                cands@.take(idx as int),
                |d: Candidate| cheap_sig(d) == k,
                c,
            );
        }
        if c.cheap_signature() == k {
            n = n + 1;
        }
        idx = idx + 1;
    }
    proof {
        assert(cands@.take(cands@.len() as int) =~= cands@);
    }
    n
}

/// Append candidate `c` to the group keyed `sig`, creating the group at the
/// end if no group carries that key yet. Returns the index of the group the
/// candidate landed in.
fn insert_into_groups(groups: &mut Vec<Group>, sig: Signature, c: Candidate) -> (j: usize)
    ensures
        j < final(groups)@.len(),
        final(groups)@[j as int].sig == sig,
        has_key(old(groups)@, sig) ==> {
            &&& j < old(groups)@.len()
            &&& old(groups)@[j as int].sig == sig
            &&& final(groups)@.len() == old(groups)@.len()
            &&& final(groups)@[j as int].members@ == old(groups)@[j as int].members@.push(c)
            &&& forall|i: int|
                0 <= i < old(groups)@.len() && i != j ==> final(groups)@[i] == old(groups)@[i]
        },
        !has_key(old(groups)@, sig) ==> {
            &&& j == old(groups)@.len()
            &&& final(groups)@.len() == old(groups)@.len() + 1
            &&& final(groups)@[j as int].members@ == seq![c]
            &&& forall|i: int|
                0 <= i < old(groups)@.len() ==> final(groups)@[i] == old(groups)@[i]
        },
{
    let mut j: usize = 0;
    while j < groups.len()
        invariant
            j <= groups@.len(),
            groups@ == old(groups)@,
            forall|i: int| 0 <= i < j ==> old(groups)@[i].sig != sig,
        decreases groups@.len() - j,
    {
        if groups[j].sig == sig {
            let mut grp = groups.remove(j);
            grp.members.push(c);
            groups.insert(j, grp);
            proof {
                assert(forall|i: int|
                    0 <= i < old(groups)@.len() && i != j ==> final(groups)@[i] == old(
                        groups,
                    )@[i]);
            }
            return j;
        }
        j = j + 1;
    }
    let members: Vec<Candidate> = vec![c];
    groups.push(Group { sig, members });
    j
}

/// Phase A of the grouping: partition the candidates by cheap signature
/// alone, with no file reads. Every group's members are exactly the
/// candidates carrying its key, in input order; keys are distinct; every
/// candidate is covered.
pub fn group_by_cheap(cands: &Vec<Candidate>) -> (groups: Vec<Group>)
    ensures
        forall|i: int|
            0 <= i < groups@.len() ==> (#[trigger] groups@[i]).members@ == cheap_matches(
                cands@,
                groups@[i].sig,
            ),
        forall|i: int|
            0 <= i < groups@.len() ==> (#[trigger] groups@[i]).sig.hash == 0
                && groups@[i].members@.len() > 0,
        forall|i: int, j: int| 0 <= i < j < groups@.len() ==> groups@[i].sig != groups@[j].sig,
        forall|i: int|
            0 <= i < cands@.len() ==> has_key(groups@, cheap_sig(#[trigger] cands@[i])),
{
    let mut groups: Vec<Group> = Vec::new();
    let mut idx: usize = 0;
    while idx < cands.len()
        invariant
            idx <= cands@.len(),
            forall|i: int|
                0 <= i < groups@.len() ==> (#[trigger] groups@[i]).members@ == cands@.take(
                    idx as int,
                ).filter(|d: Candidate| cheap_sig(d) == groups@[i].sig),
            forall|i: int|
                0 <= i < groups@.len() ==> (#[trigger] groups@[i]).sig.hash == 0
                    && groups@[i].members@.len() > 0,
            forall|i: int, j: int| 0 <= i < j < groups@.len() ==> groups@[i].sig != groups@[j].sig,
            forall|i: int|
                0 <= i < idx ==> has_key(groups@, cheap_sig(#[trigger] cands@[i])),
        decreases cands@.len() - idx,
    {
        let c = cands[idx];
        let sig = c.cheap_signature();
        let ghost prev = groups@;
        let ghost prefix = cands@.take(idx as int);
        let j = insert_into_groups(&mut groups, sig, c);
        proof {
            assert(cands@.take(idx as int + 1) =~= prefix.push(c));
            if !has_key(prev, sig) {
                // A fresh group: nothing in the prefix carried this key.
                assert forall|i: int| 0 <= i < prefix.len() implies !(cheap_sig(
                    #[trigger] prefix[i],
                ) == sig) by {
                    assert(prefix[i] == cands@[i]);
                    assert(has_key(prev, cheap_sig(cands@[i])));
                }
                lemma_filter_empty_if_none(prefix, |d: Candidate| cheap_sig(d) == sig);
            }
            assert forall|i: int| 0 <= i < groups@.len() implies (#[trigger] groups@[i]).members@
                == cands@.take(idx as int + 1).filter(
                |d: Candidate| cheap_sig(d) == groups@[i].sig,
            ) by {
                lemma_filter_push(prefix, |d: Candidate| cheap_sig(d) == groups@[i].sig, c);
            }
        }
        idx = idx + 1;
    }
    proof {
        assert(cands@.take(cands@.len() as int) =~= cands@);
        assert(idx == cands@.len());
    }
    groups
}

/// Whether some entry of `plan` carries inode `ino`.
pub open spec fn plan_covers(plan: Seq<Candidate>, ino: u64) -> bool {
    exists|i: int| 0 <= i < plan.len() && (#[trigger] plan[i]).inode == ino
}

/// Whether some entry of `v` carries inode `ino`.
fn contains_inode(v: &Vec<Candidate>, ino: u64) -> (r: bool)
    ensures
        r == plan_covers(v@, ino),
{
    let mut i: usize = 0;
    while i < v.len()
        invariant
            i <= v@.len(),
            forall|j: int| 0 <= j < i ==> (#[trigger] v@[j]).inode != ino,
        decreases v@.len() - i,
    {
        if v[i].inode == ino {
            return true;
        }
        i = i + 1;
    }
    false
}

/// The files the confirm pass still needs digests for: one candidate per
/// not-yet-memoized inode among the candidates selected by the cheap pass.
/// Naming each inode at most once is what keeps a file from being read and
/// hashed twice in one run, however many names point at it.
pub fn hashing_plan(cands: &Vec<Candidate>, memo: &HashMemo) -> (plan: Vec<Candidate>)
    ensures
        forall|i: int|
            0 <= i < plan@.len() ==> {
                &&& cands@.contains(#[trigger] plan@[i])
                &&& is_selected(cands@, plan@[i])
                &&& !memo@.contains_key(plan@[i].inode)
            },
        forall|i: int, j: int| 0 <= i < j < plan@.len() ==> plan@[i].inode != plan@[j].inode,
        forall|i: int|
            0 <= i < cands@.len() && is_selected(cands@, #[trigger] cands@[i])
                ==> memo@.contains_key(cands@[i].inode) || plan_covers(plan@, cands@[i].inode),
{
    let ghost s = cands@;
    let mut plan: Vec<Candidate> = Vec::new();
    let mut idx: usize = 0;
    while idx < cands.len()
        invariant
            idx <= cands@.len(),
            s == cands@,
            forall|i: int|
                0 <= i < plan@.len() ==> {
                    &&& cands@.contains(#[trigger] plan@[i])
                    &&& is_selected(cands@, plan@[i])
                    &&& !memo@.contains_key(plan@[i].inode)
                },
            forall|i: int, j: int| 0 <= i < j < plan@.len() ==> plan@[i].inode != plan@[j].inode,
            forall|i: int|
                0 <= i < idx && is_selected(cands@, #[trigger] cands@[i])
                    ==> memo@.contains_key(cands@[i].inode) || plan_covers(plan@, cands@[i].inode),
        decreases cands@.len() - idx,
    {
        let c = cands[idx];
        let cnt = count_cheap(cands, c.cheap_signature());
        let sel = cnt > 1 && c.size > 0;
        proof {
            assert(sel == is_selected(s, c));
            assert(cands@[idx as int] == c);
        }
        if sel && !memo.contains(c.inode) && !contains_inode(&plan, c.inode) {
            let ghost prevplan = plan@;
            plan.push(c);
            proof {
                assert(cands@.contains(c));
                assert forall|ino: u64| plan_covers(prevplan, ino) implies plan_covers(
                    plan@,
                    ino,
                ) by {
                    let w = choose|i: int|
                        0 <= i < prevplan.len() && (#[trigger] prevplan[i]).inode == ino;
                    assert(plan@[w] == prevplan[w]);
                }
                assert(plan@[plan@.len() - 1] == c);
                assert(plan_covers(plan@, c.inode));
            }
        }
        idx = idx + 1;
    }
    plan
}

/// Phase B and the grouping's final output: candidates the cheap pass
/// selected (members of multi-member, non-zero-size cheap groups) are
/// re-keyed by their full signature, with the digest the memo holds for
/// their inode; all other candidates keep their cheap key. The result is
/// the partition of the candidates by final signature, members in input
/// order, keys distinct, every candidate covered.
pub fn confirm_groups(cands: &Vec<Candidate>, memo: &HashMemo) -> (groups: Vec<Group>)
    requires
        forall|i: int|
            0 <= i < cands@.len() && is_selected(cands@, #[trigger] cands@[i])
                ==> memo@.contains_key(cands@[i].inode),
    ensures
        forall|i: int|
            0 <= i < groups@.len() ==> (#[trigger] groups@[i]).members@ == final_matches(
                cands@,
                memo@,
                groups@[i].sig,
            ),
        forall|i: int| 0 <= i < groups@.len() ==> (#[trigger] groups@[i]).members@.len() > 0,
        forall|i: int, j: int| 0 <= i < j < groups@.len() ==> groups@[i].sig != groups@[j].sig,
        forall|i: int|
            0 <= i < cands@.len() ==> has_key(
                groups@,
                final_sig(cands@, memo@, #[trigger] cands@[i]),
            ),
{
    let ghost s = cands@;
    let mut groups: Vec<Group> = Vec::new();
    let mut idx: usize = 0;
    while idx < cands.len()
        invariant
            idx <= cands@.len(),
            s == cands@,
            forall|i: int|
                0 <= i < cands@.len() && is_selected(cands@, #[trigger] cands@[i])
                    ==> memo@.contains_key(cands@[i].inode),
            forall|i: int|
                0 <= i < groups@.len() ==> (#[trigger] groups@[i]).members@ == cands@.take(
                    idx as int,
                ).filter(|d: Candidate| final_sig(s, memo@, d) == groups@[i].sig),
            forall|i: int| 0 <= i < groups@.len() ==> (#[trigger] groups@[i]).members@.len() > 0,
            forall|i: int, j: int| 0 <= i < j < groups@.len() ==> groups@[i].sig != groups@[j].sig,
            forall|i: int|
                0 <= i < idx ==> has_key(groups@, final_sig(s, memo@, #[trigger] cands@[i])),
        decreases cands@.len() - idx,
    {
        let c = cands[idx];
        let cnt = count_cheap(cands, c.cheap_signature());
        let sel = cnt > 1 && c.size > 0;
        proof {
            assert(sel == is_selected(s, c));
            assert(cands@[idx as int] == c);
        }
        let sig = if sel {
            let digest = match memo.lookup(c.inode) {
                Some(d) => d,
                None => {
                    proof {
                        assert(false);
                    }
                    0
                },
            };
            c.full_signature(digest)
        } else {
            c.cheap_signature()
        };
        proof {
            assert(sig == final_sig(s, memo@, c));
        }
        let ghost prev = groups@;
        let ghost prefix = cands@.take(idx as int);
        let j = insert_into_groups(&mut groups, sig, c);
        proof {
            assert(cands@.take(idx as int + 1) =~= prefix.push(c));
            if !has_key(prev, sig) {
                assert forall|i: int| 0 <= i < prefix.len() implies !(final_sig(
                    s,
                    memo@,
                    #[trigger] prefix[i],
                ) == sig) by {
                    assert(prefix[i] == cands@[i]);
                    assert(has_key(prev, final_sig(s, memo@, cands@[i])));
                }
                lemma_filter_empty_if_none(prefix, |d: Candidate| final_sig(s, memo@, d) == sig);
            }
            assert forall|i: int| 0 <= i < groups@.len() implies (#[trigger] groups@[i]).members@
                == cands@.take(idx as int + 1).filter(
                |d: Candidate| final_sig(s, memo@, d) == groups@[i].sig,
            ) by {
                lemma_filter_push(prefix, |d: Candidate| final_sig(s, memo@, d) == groups@[i].sig, c);
            }
        }
        idx = idx + 1;
    }
    proof {
        assert(cands@.take(cands@.len() as int) =~= cands@);
        assert(idx == cands@.len());
    }
    groups
}

/// Membership in a final group: a candidate stands in the group keyed `k`
/// exactly when it is one of the candidates and its final signature is `k`.
pub proof fn lemma_final_group_membership(
    s: Seq<Candidate>,
    memo: Map<u64, u64>,
    k: Signature,
    c: Candidate,
)
    ensures
        final_matches(s, memo, k).contains(c) <==> (s.contains(c) && final_sig(s, memo, c) == k),
{
    let p = |d: Candidate| final_sig(s, memo, d) == k;
    if final_matches(s, memo, k).contains(c) {
        s.lemma_filter_contains_rev(p, c);
        let i = choose|i: int| 0 <= i < s.filter(p).len() && s.filter(p)[i] == c;
        s.lemma_filter_pred(p, i);
    }
    if s.contains(c) && final_sig(s, memo, c) == k {
        let i = choose|i: int| 0 <= i < s.len() && s[i] == c;
        s.lemma_filter_contains(p, i);
    }
}

/// Correctness of grouping: two candidates of one set land in the same
/// final group exactly when their final signatures coincide.
pub proof fn lemma_same_group(s: Seq<Candidate>, memo: Map<u64, u64>, c: Candidate, d: Candidate)
    requires
        s.contains(c),
        s.contains(d),
    ensures
        final_matches(s, memo, final_sig(s, memo, c)).contains(d) <==> final_sig(s, memo, d)
            == final_sig(s, memo, c),
{
    lemma_final_group_membership(s, memo, final_sig(s, memo, c), d);
}

/// Correctness of grouping for content-confirmed candidates: they share a
/// final group exactly when size, mtime and recorded digest all agree. In
/// particular, identical content alone does not group files whose mtime
/// differs.
pub proof fn lemma_grouping_correctness(
    s: Seq<Candidate>,
    memo: Map<u64, u64>,
    c: Candidate,
    d: Candidate,
)
    requires
        s.contains(c),
        s.contains(d),
        is_selected(s, c),
        is_selected(s, d),
    ensures
        final_matches(s, memo, final_sig(s, memo, c)).contains(d) <==> (c.size == d.size
            && c.mtime == d.mtime && memo[c.inode] == memo[d.inode]),
{
    lemma_same_group(s, memo, c, d);
}

/// Correctness of grouping over content: when the memo holds each file's
/// content digest, two confirmed candidates with equal size and mtime land
/// in the same final group whenever their bytes are identical. (The
/// converse holds up to digest collisions, which a 64-bit digest accepts
/// by design: equal final signatures mean equal recorded digests.)
pub proof fn lemma_grouping_by_content(
    s: Seq<Candidate>,
    memo: Map<u64, u64>,
    c: Candidate,
    d: Candidate,
    content_c: Seq<u8>,
    content_d: Seq<u8>,
)
    requires
        s.contains(c),
        s.contains(d),
        is_selected(s, c),
        is_selected(s, d),
        memo[c.inode] == crate::hasher::xxh64(content_c),
        memo[d.inode] == crate::hasher::xxh64(content_d),
        c.size == d.size,
        c.mtime == d.mtime,
        content_c == content_d,
    ensures
        final_matches(s, memo, final_sig(s, memo, c)).contains(d),
{
    lemma_grouping_correctness(s, memo, c, d);
}

/// Memoization: the digest a candidate is confirmed with depends on its
/// inode alone, so two names of one file — equal metadata, one inode —
/// always land in one final group, whatever else the memo holds.
pub proof fn lemma_memo_one_digest(
    s: Seq<Candidate>,
    memo: Map<u64, u64>,
    c: Candidate,
    d: Candidate,
)
    requires
        s.contains(c),
        s.contains(d),
        c.inode == d.inode,
        c.size == d.size,
        c.mtime == d.mtime,
    ensures
        final_sig(s, memo, c) == final_sig(s, memo, d),
{
}

} // verus!
