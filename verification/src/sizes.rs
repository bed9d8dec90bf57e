//! Disk usage of the reported paths.
//!
//! Each reported path is given a group number; a `SizeJob` run seeded
//! with one task per path walks the subtrees in parallel-ready units —
//! one directory per task — and emits `(group, bytes)` pairs, which
//! `sum_by_group` folds into one total per path. Totals below a caller's
//! minimum are dropped and the rest come back ordered by size.
//!
//! Byte counts add with saturation: a sum beyond `u64::MAX` stays at
//! `u64::MAX` instead of wrapping.

use crate::job_system::{job_outputs, seeds_eval, stack_eval, task_eval, Job};
use crate::walker::{
    child_path_of, entries_height, join_path, node_height, node_name, FsNode,
};
use vstd::multiset::Multiset;
use vstd::prelude::*;

verus! {

/// `a + b`, stuck at `u64::MAX`.
pub open spec fn sat_add(a: u64, b: u64) -> u64 {
    if a + b > u64::MAX {
        u64::MAX
    } else {
        (a + b) as u64
    }
}

/// `a + b`, stuck at `u64::MAX`.
pub fn saturating_add(a: u64, b: u64) -> (r: u64)
    ensures
        r == sat_add(a, b),
{
    if a > u64::MAX - b {
        u64::MAX
    } else {
        a + b
    }
}

/// The size of the plain files directly inside a directory, folded left
/// to right onto `acc` with saturation.
pub open spec fn files_size(es: Seq<FsNode>, acc: u64) -> u64
    decreases es,
{
    if es.len() == 0 {
        acc
    } else {
        let next = match es.first() {
            FsNode::File { name, size, text } => sat_add(acc, size),
            FsNode::Dir { .. } => acc,
        };
        files_size(es.drop_first(), next)
    }
}

/// One task of the size pass: a subtree and the group (the index of the
/// reported path) its bytes count towards.
pub struct SizeTask {
    pub group: usize,
    pub node: FsNode,
}

/// The follow-up tasks of a directory: one per child directory, in
/// entry order, all in the same group.
pub open spec fn dir_tasks(g: usize, es: Seq<FsNode>) -> Seq<SizeTask>
    decreases es,
{
    if es.len() == 0 {
        Seq::empty()
    } else {
        let head: Seq<SizeTask> = if es.first() is Dir {
            seq![SizeTask { group: g, node: es.first() }]
        } else {
            Seq::empty()
        };
        head + dir_tasks(g, es.drop_first())
    }
}

proof fn lemma_dir_tasks_height(g: usize, es: Seq<FsNode>)
    ensures
        forall|i: int|
            0 <= i < dir_tasks(g, es).len() ==> node_height(#[trigger] dir_tasks(g, es)[i].node)
                <= entries_height(es) && dir_tasks(g, es)[i].group == g,
    decreases es,
{
    if es.len() > 0 {
        lemma_dir_tasks_height(g, es.drop_first());
    }
}

/// The job of the size pass: a file emits its own size; a directory
/// emits the total size of its plain files and spawns one task per
/// child directory.
pub struct SizeJob {}

impl Job for SizeJob {
    type In = SizeTask;

    type Out = (usize, u64);

    open spec fn pre(&self, x: SizeTask) -> bool {
        true
    }

    open spec fn measure(&self, x: SizeTask) -> nat {
        node_height(x.node)
    }

    open spec fn spawns(&self, x: SizeTask) -> Seq<SizeTask> {
        match x.node {
            FsNode::File { .. } => Seq::empty(),
            FsNode::Dir { name, entries } => dir_tasks(x.group, entries@),
        }
    }

    open spec fn output(&self, x: SizeTask) -> Option<(usize, u64)> {
        match x.node {
            FsNode::File { name, size, text } => Some((x.group, size)),
            FsNode::Dir { name, entries } => Some((x.group, files_size(entries@, 0))),
        }
    }

    proof fn spawns_wf(&self, x: SizeTask) {
        match x.node {
            FsNode::File { .. } => {},
            FsNode::Dir { name, entries } => {
                lemma_dir_tasks_height(x.group, entries@);
            },
        }
    }

    fn run(&self, x: SizeTask, queue: &mut Vec<SizeTask>) -> (r: Option<(usize, u64)>)
        ensures
            final(queue)@ == old(queue)@ + self.spawns(x),
            r == self.output(x),
    {
        let ghost x0 = x;
        let group = x.group;
        match x.node {
            FsNode::File { name: _, size, text: _ } => {
                proof {
                    assert(old(queue)@ + self.spawns(x) =~= old(queue)@);
                }
                Some((group, size))
            },
            FsNode::Dir { name: _, entries } => {
                let ghost es0 = entries@;
                let ghost q0 = queue@;
                let mut rest = entries;
                let mut total: u64 = 0;
                loop
                    invariant
                        queue@.len() >= q0.len(),
                        queue@.take(q0.len() as int) == q0,
                        dir_tasks(group, es0) == queue@.skip(q0.len() as int) + dir_tasks(
                            group,
                            rest@,
                        ),
                        files_size(es0, 0) == files_size(rest@, total),
                    ensures
                        rest@.len() == 0,
                    decreases rest@.len(),
                {
                    proof {
                        assert(queue@.skip(q0.len() as int) + dir_tasks(group, rest@)
                            =~= dir_tasks(group, es0));
                    }
                    if rest.len() == 0 {
                        break ;
                    }
                    let ghost rest_before = rest@;
                    let ghost queue_before = queue@;
                    let e = rest.remove(0);
                    proof {
                        assert(e == rest_before.first());
                        assert(rest@ =~= rest_before.drop_first());
                    }
                    if e.is_dir() {
                        queue.push(SizeTask { group, node: e });
                        proof {
                            assert(queue@.take(q0.len() as int) =~= q0);
                            assert(queue@.skip(q0.len() as int) =~= queue_before.skip(
                                q0.len() as int,
                            ) + seq![SizeTask { group, node: rest_before.first() }]);
                            assert(queue@.skip(q0.len() as int) + dir_tasks(group, rest@)
                                =~= dir_tasks(group, es0));
                        }
                    } else {
                        let s = e.file_size();
                        total = saturating_add(total, s);
                    }
                }
                proof {
                    assert(queue@ =~= queue@.take(q0.len() as int) + queue@.skip(
                        q0.len() as int,
                    ));
                    assert(dir_tasks(group, rest@) =~= Seq::<SizeTask>::empty());
                    assert(queue@.skip(q0.len() as int) + Seq::<SizeTask>::empty() =~= queue@.skip(
                        q0.len() as int,
                    ));
                    assert(queue@ =~= q0 + self.spawns(x0));
                }
                Some((group, total))
            },
        }
    }
}

/// The first node, in entry order and depth first, whose path under
/// `dir_path` is `target`.
pub open spec fn find_in(es: Seq<FsNode>, dir_path: Seq<char>, target: Seq<char>) -> Option<FsNode>
    decreases es, 1int,
{
    if es.len() == 0 {
        None
    } else {
        let c = es.first();
        let cp = child_path_of(dir_path, node_name(c));
        if cp == target {
            Some(c)
        } else {
            let sub = find_in_node(c, cp, target);
            if sub is Some {
                sub
            } else {
                find_in(es.drop_first(), dir_path, target)
            }
        }
    }
}

/// The node at `target` strictly below `c`, whose own path is `cp`.
pub open spec fn find_in_node(c: FsNode, cp: Seq<char>, target: Seq<char>) -> Option<FsNode>
    decreases c, 2int,
{
    match c {
        FsNode::File { .. } => None,
        FsNode::Dir { name, entries } => find_in(entries@, cp, target),
    }
}

/// The executable form of `find_in`.
pub fn find_node<'a>(entries: &'a Vec<FsNode>, dir_path: &String, target: &String) -> (r: Option<
    &'a FsNode,
>)
    ensures
        match r {
            Some(n) => find_in(entries@, dir_path@, target@) == Some(*n),
            None => find_in(entries@, dir_path@, target@) is None,
        },
    decreases entries@, 1int,
{
    let mut i: usize = 0;
    proof {
        assert(entries@.skip(0) =~= entries@);
    }
    while i < entries.len()
        invariant
            i <= entries@.len(),
            find_in(entries@, dir_path@, target@) == find_in(
                entries@.skip(i as int),
                dir_path@,
                target@,
            ),
        decreases entries@.len() - i,
    {
        proof {
            assert(entries@.skip(i as int).first() == entries@[i as int]);
            assert(entries@.skip(i as int).drop_first() =~= entries@.skip(i + 1int));
        }
        let c = &entries[i];
        let cp = join_path(dir_path, c.name());
        if cp == *target {
            return Some(c);
        }
        match c {
            FsNode::Dir { name: _, entries: child_entries } => {
                proof {
                    assert(find_in_node(entries@[i as int], cp@, target@) == find_in(
                        child_entries@,
                        cp@,
                        target@,
                    ));
                }
                match find_node(child_entries, &cp, target) {
                    Some(n) => {
                        return Some(n);
                    },
                    None => {},
                }
            },
            FsNode::File { .. } => {
                proof {
                    assert(find_in_node(entries@[i as int], cp@, target@) is None);
                }
            },
        }
        i = i + 1;
    }
    proof {
        assert(entries@.skip(entries@.len() as int) =~= Seq::<FsNode>::empty());
    }
    None
}

/// The total size of the plain files in a subtree, left to right and
/// depth first, added with saturation.
pub open spec fn node_total(n: FsNode) -> u64
    decreases n, 1int,
{
    match n {
        FsNode::File { name, size, text } => size,
        FsNode::Dir { name, entries } => entries_total(entries@),
    }
}

/// The total size of the plain files under a sequence of nodes.
pub open spec fn entries_total(es: Seq<FsNode>) -> u64
    decreases es, 0int,
{
    if es.len() == 0 {
        0
    } else {
        sat_add(node_total(es.first()), entries_total(es.drop_first()))
    }
}

/// The executable form of `entries_total`: the bytes under a directory's
/// entries.
pub fn tree_size(entries: &Vec<FsNode>) -> (r: u64)
    ensures
        r == entries_total(entries@),
    decreases entries@, 1int,
{
    let mut i: usize = entries.len();
    let mut total: u64 = 0;
    proof {
        assert(entries@.skip(entries@.len() as int) =~= Seq::<FsNode>::empty());
    }
    while i > 0
        invariant
            i <= entries@.len(),
            total == entries_total(entries@.skip(i as int)),
        decreases i,
    {
        i = i - 1;
        proof {
            assert(entries@.skip(i as int).first() == entries@[i as int]);
            assert(entries@.skip(i as int).drop_first() =~= entries@.skip(i + 1int));
        }
        let c = &entries[i];
        let here: u64;
        match c {
            FsNode::File { name: _, size, text: _ } => {
                here = *size;
                proof {
                    assert(here == node_total(entries@[i as int]));
                }
            },
            FsNode::Dir { name: _, entries: child_entries } => {
                here = tree_size(child_entries);
                proof {
                    assert(node_total(entries@[i as int]) == entries_total(child_entries@));
                }
            },
        }
        total = saturating_add(here, total);
    }
    proof {
        assert(entries@.skip(0) =~= entries@);
    }
    total
}

/// The bytes under each reported path: `totals[g]` is the size of the
/// subtree at the path `ignored[g]` names, and `0` where no such node
/// stands in the tree.
pub fn directory_sizes(entries: &Vec<FsNode>, root_path: &String, ignored: &Vec<String>) -> (totals:
    Vec<u64>)
    ensures
        totals@.len() == ignored@.len(),
        forall|g: int|
            0 <= g < ignored@.len() ==> totals@[g] == (match find_in(
                entries@,
                root_path@,
                ignored@[g]@,
            ) {
                Some(n) => node_total(n),
                None => 0u64,
            }),
{
    let mut totals: Vec<u64> = Vec::new();
    let mut i: usize = 0;
    while i < ignored.len()
        invariant
            i <= ignored@.len(),
            totals@.len() == i,
            forall|g: int|
                0 <= g < i ==> totals@[g] == (match find_in(entries@, root_path@, ignored@[g]@) {
                    Some(n) => node_total(n),
                    None => 0u64,
                }),
        decreases ignored@.len() - i,
    {
        let t = match find_node(entries, root_path, &ignored[i]) {
            Some(n) => match n {
                FsNode::File { name: _, size, text: _ } => *size,
                FsNode::Dir { name: _, entries: child_entries } => tree_size(child_entries),
            },
            None => 0,
        };
        totals.push(t);
        i = i + 1;
    }
    totals
}

/// Fold `(group, bytes)` emissions into one saturating total per group,
/// `acc` onwards; emissions of other groups leave the total alone.
pub open spec fn group_total(pairs: Seq<(usize, u64)>, g: int, acc: u64) -> u64
    decreases pairs,
{
    if pairs.len() == 0 {
        acc
    } else {
        let next = if pairs.first().0 == g {
            sat_add(acc, pairs.first().1)
        } else {
            acc
        };
        group_total(pairs.drop_first(), g, next)
    }
}

/// One total per group over the emissions of a size run; emissions
/// naming a group at or past `n` are left out.
pub fn sum_by_group(n: usize, pairs: &Vec<(usize, u64)>) -> (totals: Vec<u64>)
    ensures
        totals@.len() == n,
        forall|g: int| 0 <= g < n ==> totals@[g] == group_total(pairs@, g, 0),
{
    let mut totals: Vec<u64> = Vec::new();
    let mut g: usize = 0;
    while g < n
        invariant
            g <= n,
            totals@.len() == g,
            forall|k: int| 0 <= k < g ==> totals@[k] == group_total(pairs@, k, 0),
        decreases n - g,
    {
        let mut acc: u64 = 0;
        let mut j: usize = 0;
        proof {
            assert(pairs@.skip(0) =~= pairs@);
        }
        while j < pairs.len()
            invariant
                j <= pairs@.len(),
                group_total(pairs@, g as int, 0) == group_total(
                    pairs@.skip(j as int),
                    g as int,
                    acc,
                ),
            decreases pairs@.len() - j,
        {
            proof {
                assert(pairs@.skip(j as int).first() == pairs@[j as int]);
                assert(pairs@.skip(j as int).drop_first() =~= pairs@.skip(j + 1int));
            }
            let p = pairs[j];
            if p.0 == g {
                acc = saturating_add(acc, p.1);
            }
            j = j + 1;
        }
        proof {
            assert(pairs@.skip(pairs@.len() as int) =~= Seq::<(usize, u64)>::empty());
        }
        totals.push(acc);
        g = g + 1;
    }
    totals
}

/// `x` clamped into `u64`: what a chain of saturating additions of
/// non-negative amounts comes to when their exact sum is `x`.
spec fn cap(x: int) -> u64 {
    if x > u64::MAX {
        u64::MAX
    } else if x < 0 {
        0u64
    } else {
        x as u64
    }
}

/// The exact, unbounded sum of the sizes of the plain files directly
/// inside a directory.
spec fn int_files(es: Seq<FsNode>) -> int
    decreases es,
{
    if es.len() == 0 {
        0
    } else {
        (match es.first() {
            FsNode::File { name, size, text } => size as int,
            FsNode::Dir { .. } => 0,
        }) + int_files(es.drop_first())
    }
}

/// The exact, unbounded sum of the sizes of every plain file in a
/// subtree.
spec fn int_node(n: FsNode) -> int
    decreases n, 1int,
{
    match n {
        FsNode::File { name, size, text } => size as int,
        FsNode::Dir { name, entries } => int_entries(entries@),
    }
}

/// The exact, unbounded sum over a sequence of subtrees.
spec fn int_entries(es: Seq<FsNode>) -> int
    decreases es, 0int,
{
    if es.len() == 0 {
        0
    } else {
        int_node(es.first()) + int_entries(es.drop_first())
    }
}

proof fn lemma_int_node_nonneg(n: FsNode)
    ensures
        int_node(n) >= 0,
    decreases n, 1int,
{
    match n {
        FsNode::File { .. } => {},
        FsNode::Dir { name, entries } => {
            lemma_int_entries_nonneg(entries@);
        },
    }
}

proof fn lemma_int_entries_nonneg(es: Seq<FsNode>)
    ensures
        int_entries(es) >= 0,
    decreases es, 0int,
{
    if es.len() > 0 {
        lemma_int_node_nonneg(es.first());
        lemma_int_entries_nonneg(es.drop_first());
    }
}

proof fn lemma_int_files_nonneg(es: Seq<FsNode>)
    ensures
        0 <= int_files(es) <= int_entries(es),
    decreases es,
{
    if es.len() > 0 {
        lemma_int_files_nonneg(es.drop_first());
        lemma_int_node_nonneg(es.first());
    }
}

proof fn lemma_files_size_cap(es: Seq<FsNode>, acc: u64)
    ensures
        files_size(es, acc) == cap(acc + int_files(es)),
    decreases es,
{
    lemma_int_files_nonneg(es);
    if es.len() > 0 {
        lemma_int_files_nonneg(es.drop_first());
        match es.first() {
            FsNode::File { name, size, text } => {
                lemma_files_size_cap(es.drop_first(), sat_add(acc, size));
            },
            FsNode::Dir { .. } => {
                lemma_files_size_cap(es.drop_first(), acc);
            },
        }
    }
}

proof fn lemma_node_total_cap(n: FsNode)
    ensures
        node_total(n) == cap(int_node(n)),
    decreases n, 1int,
{
    match n {
        FsNode::File { .. } => {},
        FsNode::Dir { name, entries } => {
            lemma_entries_total_cap(entries@);
        },
    }
}

proof fn lemma_entries_total_cap(es: Seq<FsNode>)
    ensures
        entries_total(es) == cap(int_entries(es)),
    decreases es, 0int,
{
    if es.len() > 0 {
        lemma_node_total_cap(es.first());
        lemma_entries_total_cap(es.drop_first());
        lemma_int_node_nonneg(es.first());
        lemma_int_entries_nonneg(es.drop_first());
    }
}

/// The exact, unbounded sum of the amounts a size run emits for group
/// `g`.
spec fn emis_sum(outs: Seq<(usize, u64)>, g: int) -> int
    decreases outs,
{
    if outs.len() == 0 {
        0
    } else {
        (if outs.first().0 == g {
            outs.first().1 as int
        } else {
            0
        }) + emis_sum(outs.drop_first(), g)
    }
}

proof fn lemma_emis_sum_nonneg(outs: Seq<(usize, u64)>, g: int)
    ensures
        emis_sum(outs, g) >= 0,
    decreases outs,
{
    if outs.len() > 0 {
        lemma_emis_sum_nonneg(outs.drop_first(), g);
    }
}

proof fn lemma_emis_sum_append(a: Seq<(usize, u64)>, c: Seq<(usize, u64)>, g: int)
    ensures
        emis_sum(a + c, g) == emis_sum(a, g) + emis_sum(c, g),
    decreases a,
{
    if a.len() == 0 {
        assert(a + c =~= c);
    } else {
        lemma_emis_sum_append(a.drop_first(), c, g);
        assert((a + c).first() == a.first());
        assert((a + c).drop_first() =~= a.drop_first() + c);
    }
}

proof fn lemma_group_total_cap(outs: Seq<(usize, u64)>, g: int, acc: u64)
    ensures
        group_total(outs, g, acc) == cap(acc + emis_sum(outs, g)),
    decreases outs,
{
    lemma_emis_sum_nonneg(outs, g);
    if outs.len() > 0 {
        lemma_emis_sum_nonneg(outs.drop_first(), g);
        if outs.first().0 == g {
            lemma_group_total_cap(outs.drop_first(), g, sat_add(acc, outs.first().1));
        } else {
            lemma_group_total_cap(outs.drop_first(), g, acc);
        }
    }
}

/// The exact, unbounded sum of the subtree totals of a list of tasks.
spec fn int_tasks(pending: Seq<SizeTask>) -> int
    decreases pending,
{
    if pending.len() == 0 {
        0
    } else {
        int_node(pending.first().node) + int_tasks(pending.drop_first())
    }
}

proof fn lemma_int_tasks_nonneg(pending: Seq<SizeTask>)
    ensures
        int_tasks(pending) >= 0,
    decreases pending,
{
    if pending.len() > 0 {
        lemma_int_node_nonneg(pending.first().node);
        lemma_int_tasks_nonneg(pending.drop_first());
    }
}

proof fn lemma_int_tasks_last(pending: Seq<SizeTask>)
    requires
        pending.len() > 0,
    ensures
        int_tasks(pending) == int_tasks(pending.drop_last()) + int_node(pending.last().node),
    decreases pending,
{
    if pending.len() == 1 {
        assert(pending.drop_last() =~= Seq::<SizeTask>::empty());
        assert(pending.drop_first() =~= Seq::<SizeTask>::empty());
    } else {
        lemma_int_tasks_last(pending.drop_first());
        assert(pending.drop_first().drop_last() =~= pending.drop_last().drop_first());
        assert(pending.drop_first().last() == pending.last());
        assert(pending.drop_last().first() == pending.first());
    }
}

/// The tasks a directory spawns stand for exactly the bytes of the
/// directory's subtree that its own plain files do not carry.
proof fn lemma_int_tasks_dir(g: usize, es: Seq<FsNode>)
    ensures
        int_tasks(dir_tasks(g, es)) == int_entries(es) - int_files(es),
    decreases es,
{
    if es.len() > 0 {
        lemma_int_tasks_dir(g, es.drop_first());
        match es.first() {
            FsNode::File { .. } => {
                assert(Seq::<SizeTask>::empty() + dir_tasks(g, es.drop_first()) =~= dir_tasks(
                    g,
                    es.drop_first(),
                ));
                assert(dir_tasks(g, es) =~= dir_tasks(g, es.drop_first()));
                assert(int_entries(es) == int_node(es.first()) + int_entries(es.drop_first()));
                assert(int_files(es) == int_node(es.first()) + int_files(es.drop_first()));
                assert(int_tasks(dir_tasks(g, es)) == int_entries(es) - int_files(es));
            },
            FsNode::Dir { name, entries } => {
                let head = seq![SizeTask { group: g, node: es.first() }];
                let rest = dir_tasks(g, es.drop_first());
                assert(dir_tasks(g, es) =~= head + rest);
                assert((head + rest).first() == head[0]);
                assert((head + rest).drop_first() =~= rest);
                assert(int_tasks(head + rest) == int_node(es.first()) + int_tasks(rest));
                assert(int_entries(es) == int_node(es.first()) + int_entries(es.drop_first()));
                assert(int_files(es) == int_files(es.drop_first()));
                assert(int_tasks(dir_tasks(g, es)) == int_entries(es) - int_files(es));
            },
        }
    }
}

proof fn lemma_cap_add(e1: int, i1: int, e2: int, i2: int)
    requires
        0 <= e1 <= i1,
        0 <= e2 <= i2,
        cap(e1) == cap(i1),
        cap(e2) == cap(i2),
    ensures
        e1 + e2 <= i1 + i2,
        cap(e1 + e2) == cap(i1 + i2),
{
}

/// The emissions of the task tree rooted at `t` carry, up to saturation,
/// exactly the bytes of `t`'s subtree.
proof fn lemma_task_emis(j: SizeJob, t: SizeTask)
    ensures
        0 <= emis_sum(task_eval(j, t).0, t.group as int) <= int_node(t.node),
        cap(emis_sum(task_eval(j, t).0, t.group as int)) == cap(int_node(t.node)),
    decreases j.measure(t), 1int, 0int,
{
    let g = t.group as int;
    let outs = task_eval(j, t).0;
    lemma_emis_sum_nonneg(outs, g);
    match t.node {
        FsNode::File { name, size, text } => {
            assert(j.spawns(t) =~= Seq::<SizeTask>::empty());
            assert(stack_eval(j, j.spawns(t), j.measure(t)).0 =~= Seq::<(usize, u64)>::empty());
            assert(outs =~= seq![(t.group, size)]);
            assert(outs.drop_first() =~= Seq::<(usize, u64)>::empty());
            assert(emis_sum(outs.drop_first(), g) == 0);
            assert(emis_sum(outs, g) == size);
        },
        FsNode::Dir { name, entries } => {
            let es = entries@;
            let tasks = dir_tasks(t.group, es);
            lemma_dir_tasks_height(t.group, es);
            assert(forall|i: int|
                0 <= i < tasks.len() ==> j.measure(#[trigger] tasks[i]) < j.measure(t));
            let head = seq![(t.group, files_size(es, 0))];
            let rest = stack_eval(j, tasks, j.measure(t)).0;
            assert(outs =~= head + rest);
            lemma_emis_sum_append(head, rest, g);
            assert(head.drop_first() =~= Seq::<(usize, u64)>::empty());
            assert(emis_sum(head.drop_first(), g) == 0);
            assert(emis_sum(head, g) == files_size(es, 0));
            lemma_files_size_cap(es, 0);
            lemma_int_files_nonneg(es);
            lemma_stack_emis(j, tasks, j.measure(t), t.group);
            lemma_int_tasks_dir(t.group, es);
            lemma_int_tasks_nonneg(tasks);
            lemma_emis_sum_nonneg(rest, g);
            assert(cap(files_size(es, 0) as int) == cap(int_files(es))) by {
                assert(files_size(es, 0) == cap(0 + int_files(es)));
            }
            lemma_cap_add(
                files_size(es, 0) as int,
                int_files(es),
                emis_sum(rest, g),
                int_tasks(tasks),
            );
            assert(int_files(es) + int_tasks(tasks) == int_entries(es));
            assert(int_node(t.node) == int_entries(es));
        },
    }
}

/// As `lemma_task_emis`, over a whole pending stack of tasks of one
/// group, all below the bound.
proof fn lemma_stack_emis(j: SizeJob, pending: Seq<SizeTask>, b: nat, group: usize)
    requires
        forall|i: int|
            0 <= i < pending.len() ==> (#[trigger] pending[i]).group == group && j.measure(
                pending[i],
            ) < b,
    ensures
        0 <= emis_sum(stack_eval(j, pending, b).0, group as int) <= int_tasks(pending),
        cap(emis_sum(stack_eval(j, pending, b).0, group as int)) == cap(int_tasks(pending)),
    decreases b, 0int, pending.len(),
{
    let g = group as int;
    lemma_emis_sum_nonneg(stack_eval(j, pending, b).0, g);
    if pending.len() > 0 {
        let x = pending.last();
        assert(x == pending[pending.len() - 1]);
        lemma_task_emis(j, x);
        assert(forall|i: int|
            0 <= i < pending.drop_last().len() ==> (#[trigger] pending.drop_last()[i]).group
                == group && j.measure(pending.drop_last()[i]) < b) by {
            assert(forall|i: int|
                0 <= i < pending.len() - 1 ==> pending.drop_last()[i] == #[trigger] pending[i]);
        }
        lemma_stack_emis(j, pending.drop_last(), b, group);
        lemma_emis_sum_append(task_eval(j, x).0, stack_eval(j, pending.drop_last(), b).0, g);
        lemma_int_node_nonneg(x.node);
        lemma_int_tasks_nonneg(pending.drop_last());
        lemma_emis_sum_nonneg(task_eval(j, x).0, g);
        lemma_emis_sum_nonneg(stack_eval(j, pending.drop_last(), b).0, g);
        lemma_cap_add(
            emis_sum(task_eval(j, x).0, g),
            int_node(x.node),
            emis_sum(stack_eval(j, pending.drop_last(), b).0, g),
            int_tasks(pending.drop_last()),
        );
        lemma_int_tasks_last(pending);
    }
}

/// Law: seeding the size pass with one subtree and folding its
/// emissions for that group gives exactly the subtree's byte total —
/// the per-directory emissions add up, with saturation, to what a
/// direct measurement of the subtree reports.
pub proof fn lemma_size_run_total(j: SizeJob, t: SizeTask)
    ensures
        group_total(job_outputs(j, seq![t]), t.group as int, 0) == node_total(t.node),
{
    lemma_task_emis(j, t);
    lemma_node_total_cap(t.node);
    lemma_int_node_nonneg(t.node);
    assert(seq![t].first() == t);
    assert(seq![t].drop_first() =~= Seq::<SizeTask>::empty());
    assert(seeds_eval(j, Seq::<SizeTask>::empty()).0 =~= Seq::<(usize, u64)>::empty());
    assert(task_eval(j, t).0 + Seq::<(usize, u64)>::empty() =~= task_eval(j, t).0);
    assert(job_outputs(j, seq![t]) =~= task_eval(j, t).0);
    lemma_group_total_cap(task_eval(j, t).0, t.group as int, 0);
}

/// Pair each path with its total and keep the pairs at or above the
/// minimum, in their given order.
pub open spec fn zip_filter(ps: Seq<String>, ts: Seq<u64>, min: u64) -> Seq<(String, u64)>
    decreases ps.len(),
{
    if ps.len() == 0 || ts.len() == 0 {
        Seq::empty()
    } else {
        let rest = zip_filter(ps.drop_first(), ts.drop_first(), min);
        if ts.first() >= min {
            seq![(ps.first(), ts.first())] + rest
        } else {
            rest
        }
    }
}

/// Whether the pairs come smallest byte count first.
pub open spec fn sorted_by_bytes(s: Seq<(String, u64)>) -> bool {
    forall|i: int, j: int| 0 <= i < j < s.len() ==> (#[trigger] s[i]).1 <= (#[trigger] s[j]).1
}

/// Pair each reported path with its byte total, drop the pairs below
/// `min_size`, and hand the rest back ordered by size, smallest first:
/// the same pairs, rearranged.
pub fn summarize(paths: Vec<String>, totals: Vec<u64>, min_size: u64) -> (out: Vec<(String, u64)>)
    ensures
        out@.to_multiset() == zip_filter(paths@, totals@, min_size).to_multiset(),
        sorted_by_bytes(out@),
{
    broadcast use vstd::seq_lib::group_to_multiset_ensures;

    let ghost ps0 = paths@;
    let ghost ts0 = totals@;
    let mut ps = paths;
    let mut ts = totals;
    let mut kept: Vec<(String, u64)> = Vec::new();
    while ps.len() > 0 && ts.len() > 0
        invariant
            zip_filter(ps0, ts0, min_size) == kept@ + zip_filter(ps@, ts@, min_size),
        decreases ps@.len(),
    {
        let ghost ps_before = ps@;
        let ghost ts_before = ts@;
        let ghost kept_before = kept@;
        let p = ps.remove(0);
        let t = ts.remove(0);
        proof {
            assert(ps@ =~= ps_before.drop_first());
            assert(ts@ =~= ts_before.drop_first());
        }
        if t >= min_size {
            kept.push((p, t));
            proof {
                assert(kept@ =~= kept_before + seq![(ps_before.first(), ts_before.first())]);
                assert(kept_before + (seq![(ps_before.first(), ts_before.first())] + zip_filter(
                    ps@,
                    ts@,
                    min_size,
                )) =~= kept@ + zip_filter(ps@, ts@, min_size));
            }
        }
        proof {
            assert(zip_filter(ps0, ts0, min_size) =~= kept@ + zip_filter(ps@, ts@, min_size));
        }
    }
    proof {
        assert(zip_filter(ps@, ts@, min_size) =~= Seq::<(String, u64)>::empty());
        assert(kept@ + Seq::<(String, u64)>::empty() =~= kept@);
    }
    let ghost kept0 = kept@;
    // selection sort: repeatedly move the smallest remaining pair over
    let mut rest = kept;
    let mut out: Vec<(String, u64)> = Vec::new();
    while rest.len() > 0
        invariant
            out@.to_multiset().add(rest@.to_multiset()) == kept0.to_multiset(),
            sorted_by_bytes(out@),
            forall|i: int, j: int|
                0 <= i < out@.len() && 0 <= j < rest@.len() ==> (#[trigger] out@[i]).1 <= (
                #[trigger] rest@[j]).1,
        decreases rest@.len(),
    {
        let mut mi: usize = 0;
        let mut k: usize = 1;
        while k < rest.len()
            invariant
                mi < k <= rest@.len() || (k <= rest@.len() && mi == 0),
                mi < rest@.len(),
                forall|j: int| 0 <= j < k ==> (#[trigger] rest@[j]).1 >= rest@[mi as int].1,
            decreases rest@.len() - k,
        {
            if rest[k].1 < rest[mi].1 {
                mi = k;
            }
            k = k + 1;
        }
        let ghost rest_before = rest@;
        let ghost out_before = out@;
        let item = rest.remove(mi);
        out.push(item);
        proof {
            broadcast use vstd::multiset::group_multiset_axioms;

            vstd::seq_lib::to_multiset_remove(rest_before, mi as int);
            rest_before.to_multiset_ensures();
            vstd::seq_lib::to_multiset_build(out_before, item);
            assert(item == rest_before[mi as int]);
            assert(rest@ == rest_before.remove(mi as int));
            assert(rest_before.contains(item));
            assert(rest_before.to_multiset().count(item) > 0);
            assert(rest_before.to_multiset() =~= rest@.to_multiset().insert(item));
            assert(out@ == out_before.push(item));
            assert(out@.to_multiset() =~= out_before.to_multiset().insert(item));
            assert(out@.to_multiset().add(rest@.to_multiset()) =~= kept0.to_multiset());
            assert forall|j: int| 0 <= j < rest@.len() implies (#[trigger] rest@[j]).1
                >= item.1 by {
                if j < mi {
                    assert(rest@[j] == rest_before[j]);
                } else {
                    assert(rest@[j] == rest_before[j + 1]);
                }
            }
        }
    }
    proof {
        assert(rest@.to_multiset() =~= Multiset::<(String, u64)>::empty());
        assert(out@.to_multiset().add(Multiset::<(String, u64)>::empty()) =~= out@.to_multiset());
        assert(kept0 == zip_filter(ps0, ts0, min_size));
    }
    out
}

} // verus!
