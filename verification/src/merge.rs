//! The hardlink merge plan for one confirmed-identical group: deterministic
//! master selection, and one atomic link-replace operation per member not
//! already on the master's inode.

use vstd::prelude::*;

use crate::candidate::{all_same_inode, Candidate};

verus! {

/// One atomic link-replace. The caller creates a hardlink from the path
/// named by `source` to a temporary name adjacent to the path named by
/// `dest`, then renames the temporary name over `dest`, so that `dest`
/// always resolves to either the old file or the fully formed link.
/// Identifiers name paths as in `Candidate`.
#[derive(Clone, Copy, Debug, PartialEq, Eq, Structural)]
pub struct LinkOp {
    /// Path identifier of the master, the link's existing name.
    pub source: u64,
    /// Path identifier of the member to re-point at the master's inode.
    pub dest: u64,
}

/// The index of the group's master: the first member with the greatest
/// hardlink count. A later member takes over only with a strictly greater
/// count, so ties go to the earliest member — a fixed, documented
/// tie-break.
pub open spec fn master_idx(s: Seq<Candidate>) -> int
    decreases s.len(),
{
    if s.len() <= 1 {
        0
    } else {
        let b = master_idx(s.drop_last());
        if s.last().nlink > s[b].nlink {
            s.len() - 1
        } else {
            b
        }
    }
}

/// The link operations for the group, in member order: one per member
/// whose inode differs from the master's, from the master's path to that
/// member's path.
pub open spec fn link_ops_rec(s: Seq<Candidate>, m: Candidate) -> Seq<LinkOp>
    decreases s.len(),
{
    if s.len() == 0 {
        Seq::empty()
    } else {
        let rest = link_ops_rec(s.drop_last(), m);
        if s.last().inode != m.inode {
            rest.push(LinkOp { source: m.path_id, dest: s.last().path_id })
        } else {
            rest
        }
    }
}

/// The link operations of the group's merge plan.
pub open spec fn link_ops(s: Seq<Candidate>) -> Seq<LinkOp> {
    link_ops_rec(s, s[master_idx(s)])
}

/// Whether the members name pairwise distinct paths, as members found
/// under distinct roots do.
pub open spec fn distinct_paths(s: Seq<Candidate>) -> bool {
    forall|i: int, j: int| 0 <= i < j < s.len() ==> s[i].path_id != s[j].path_id
}

/// Whether some operation of the plan rewrites the path named `pid`.
pub open spec fn dest_listed(ops: Seq<LinkOp>, pid: u64) -> bool {
    exists|i: int| 0 <= i < ops.len() && (#[trigger] ops[i]).dest == pid
}

/// Whether some member names path `pid` and sits on an inode other than
/// the master's.
pub open spec fn member_needs_link(s: Seq<Candidate>, m: Candidate, pid: u64) -> bool {
    exists|j: int| 0 <= j < s.len() && (#[trigger] s[j]).path_id == pid && s[j].inode != m.inode
}

/// The group as the merge leaves it: every member re-pointed to the
/// master's inode.
pub open spec fn after_merge(s: Seq<Candidate>) -> Seq<Candidate> {
    let m = s[master_idx(s)];
    s.map_values(
        |c: Candidate|
            Candidate {
                path_id: c.path_id,
                size: c.size,
                mtime: c.mtime,
                inode: m.inode,
                nlink: c.nlink,
            },
    )
}

/// Master selection is deterministic: the master has the greatest hardlink
/// count of the group, and every earlier member's count is strictly
/// smaller.
pub proof fn lemma_master_selection(s: Seq<Candidate>)
    requires
        s.len() >= 1,
    ensures
        0 <= master_idx(s) < s.len(),
        forall|j: int| 0 <= j < s.len() ==> (#[trigger] s[j]).nlink <= s[master_idx(s)].nlink,
        forall|j: int| 0 <= j < master_idx(s) ==> (#[trigger] s[j]).nlink < s[master_idx(s)].nlink,
    decreases s.len(),
{
    if s.len() > 1 {
        let rest = s.drop_last();
        let b = master_idx(rest);
        lemma_master_selection(rest);
        assert(forall|j: int| 0 <= j < rest.len() ==> #[trigger] rest[j] == s[j]);
        if s.last().nlink > s[b].nlink {
            assert(master_idx(s) == s.len() - 1);
            assert forall|j: int| 0 <= j < s.len() implies (#[trigger] s[j]).nlink <= s[master_idx(
                s,
            )].nlink by {
                if j < s.len() - 1 {
                    assert(rest[j].nlink <= rest[b].nlink);
                }
            }
            assert forall|j: int| 0 <= j < master_idx(s) implies (#[trigger] s[j]).nlink < s[
                master_idx(s)].nlink by {
                assert(rest[j].nlink <= rest[b].nlink);
            }
        } else {
            assert(master_idx(s) == b);
            assert forall|j: int| 0 <= j < s.len() implies (#[trigger] s[j]).nlink <= s[master_idx(
                s,
            )].nlink by {
                if j < s.len() - 1 {
                    assert(rest[j].nlink <= rest[b].nlink);
                }
            }
            assert forall|j: int| 0 <= j < master_idx(s) implies (#[trigger] s[j]).nlink < s[
                master_idx(s)].nlink by {
                assert(rest[j].nlink < rest[b].nlink);
            }
        }
    }
}

/// Every operation of the plan links from the master's path; every listed
/// destination is the path of a member off the master's inode; every such
/// member is listed.
proof fn lemma_link_ops_rec_props(s: Seq<Candidate>, m: Candidate)
    ensures
        forall|i: int|
            0 <= i < link_ops_rec(s, m).len() ==> (#[trigger] link_ops_rec(s, m)[i]).source
                == m.path_id && member_needs_link(s, m, link_ops_rec(s, m)[i].dest),
        forall|j: int|
            0 <= j < s.len() && (#[trigger] s[j]).inode != m.inode ==> dest_listed(
                link_ops_rec(s, m),
                s[j].path_id,
            ),
    decreases s.len(),
{
    if s.len() > 0 {
        let rest = s.drop_last();
        let ops = link_ops_rec(s, m);
        let rest_ops = link_ops_rec(rest, m);
        lemma_link_ops_rec_props(rest, m);
        assert(forall|j: int| 0 <= j < rest.len() ==> #[trigger] rest[j] == s[j]);
        assert forall|i: int| 0 <= i < ops.len() implies (#[trigger] ops[i]).source == m.path_id
            && member_needs_link(s, m, ops[i].dest) by {
            if i < rest_ops.len() {
                assert(ops[i] == rest_ops[i]);
                let w = choose|j: int|
                    0 <= j < rest.len() && (#[trigger] rest[j]).path_id == rest_ops[i].dest
                        && rest[j].inode != m.inode;
                assert(s[w].path_id == ops[i].dest && s[w].inode != m.inode);
            } else {
                assert(s.last().inode != m.inode);
                assert(ops[i] == LinkOp { source: m.path_id, dest: s.last().path_id });
                assert(s[s.len() - 1].path_id == ops[i].dest);
            }
        }
        assert forall|j: int| 0 <= j < s.len() && (#[trigger] s[j]).inode != m.inode
            implies dest_listed(ops, s[j].path_id) by {
            if j < rest.len() {
                assert(dest_listed(rest_ops, rest[j].path_id));
                let w = choose|i: int|
                    0 <= i < rest_ops.len() && (#[trigger] rest_ops[i]).dest == rest[j].path_id;
                assert(ops[w] == rest_ops[w]);
            } else {
                assert(ops[ops.len() - 1].dest == s[j].path_id);
            }
        }
    }
}

/// Merge safety: after the plan runs, the whole group sits on the master's
/// inode; the master itself is untouched — its entry is unchanged, every
/// link goes out from its path, and no operation rewrites its path; and a
/// member's path is rewritten exactly when the member was not already on
/// the master's inode.
pub proof fn lemma_merge_safety(s: Seq<Candidate>)
    requires
        s.len() >= 1,
        distinct_paths(s),
    ensures
        all_same_inode(after_merge(s)),
        after_merge(s).len() == s.len(),
        after_merge(s)[master_idx(s)] == s[master_idx(s)],
        forall|i: int|
            0 <= i < link_ops(s).len() ==> (#[trigger] link_ops(s)[i]).source == s[master_idx(
                s,
            )].path_id && link_ops(s)[i].dest != s[master_idx(s)].path_id,
        forall|j: int|
            0 <= j < s.len() ==> (dest_listed(link_ops(s), (#[trigger] s[j]).path_id) <==> s[j].inode
                != s[master_idx(s)].inode),
    decreases s.len(),
{
    lemma_master_selection(s);
    let mi = master_idx(s);
    let m = s[mi];
    lemma_link_ops_rec_props(s, m);
    assert forall|i: int| 0 <= i < link_ops(s).len() implies (#[trigger] link_ops(s)[i]).source
        == m.path_id && link_ops(s)[i].dest != m.path_id by {
        let w = choose|j: int|
            0 <= j < s.len() && (#[trigger] s[j]).path_id == link_ops(s)[i].dest && s[j].inode
                != m.inode;
        assert(w != mi);
    }
    assert forall|j: int| 0 <= j < s.len() && dest_listed(
        link_ops(s),
        (#[trigger] s[j]).path_id,
    ) implies s[j].inode != m.inode by {
        let w = choose|i: int|
            0 <= i < link_ops(s).len() && (#[trigger] link_ops(s)[i]).dest == s[j].path_id;
        let w2 = choose|j2: int|
            0 <= j2 < s.len() && (#[trigger] s[j2]).path_id == link_ops(s)[w].dest && s[j2].inode
                != m.inode;
        assert(j == w2);
    }
}

/// Find the master: the first member with the greatest hardlink count.
pub fn select_master(members: &Vec<Candidate>) -> (idx: usize)
    requires
        members@.len() >= 1,
    ensures
        idx < members@.len(),
        idx as int == master_idx(members@),
{
    let mut best: usize = 0;
    let mut i: usize = 1;
    while i < members.len()
        invariant
            1 <= i <= members@.len(),
            members@.len() >= 1,
            best < i,
            best as int == master_idx(members@.take(i as int)),
        decreases members@.len() - i,
    {
        proof {
            let pre = members@.take(i as int);
            let cur = members@.take(i as int + 1);
            assert(cur.drop_last() =~= pre);
            assert(cur.last() == members@[i as int]);
            lemma_master_selection(pre);
        }
        if members[i].nlink > members[best].nlink {
            best = i;
        }
        i = i + 1;
    }
    proof {
        assert(members@.take(members@.len() as int) =~= members@);
    }
    best
}

/// The merge plan for one confirmed-identical group: the index of the
/// selected master and the link-replace operations to perform, in member
/// order.
pub struct MergePlan {
    /// Index of the master within the group's members.
    pub master: usize,
    /// The link operations; executing them re-points every other member.
    pub ops: Vec<LinkOp>,
}

/// Plan the merge of one confirmed-identical group: select the master and
/// list one link-replace per member not already on the master's inode.
pub fn plan_links(members: &Vec<Candidate>) -> (plan: MergePlan)
    requires
        members@.len() >= 1,
    ensures
        plan.master < members@.len(),
        plan.master as int == master_idx(members@),
        plan.ops@ == link_ops(members@),
{
    let master = select_master(members);
    let m = members[master];
    let mut ops: Vec<LinkOp> = Vec::new();
    let mut i: usize = 0;
    while i < members.len()
        invariant
            i <= members@.len(),
            members@.len() >= 1,
            master < members@.len(),
            master as int == master_idx(members@),
            m == members@[master as int],
            ops@ == link_ops_rec(members@.take(i as int), m),
        decreases members@.len() - i,
    {
        proof {
            let pre = members@.take(i as int);
            let cur = members@.take(i as int + 1);
            assert(cur.drop_last() =~= pre);
            assert(cur.last() == members@[i as int]);
        }
        if members[i].inode != m.inode {
            ops.push(LinkOp { source: m.path_id, dest: members[i].path_id });
        }
        i = i + 1;
    }
    proof {
        assert(members@.take(members@.len() as int) =~= members@);
    }
    MergePlan { master, ops }
}

} // verus!
