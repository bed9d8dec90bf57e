//! Two small jobs and the laws that a run of the runtime obeys on them.
//!
//! `DoubleJob` maps each item to its double and spawns nothing.
//! `CountdownJob` maps a positive `n` to `2 * n` and spawns `n - 1`, so a
//! single seed `n` yields the outputs `2n, 2(n-1), ..., 2`.

use crate::job_system::{job_outputs, seeds_eval, stack_eval, task_eval, Job};
use vstd::prelude::*;

verus! {

/// Items small enough that doubling cannot overflow an `i32`.
pub open spec fn small(x: i32) -> bool {
    -0x4000_0000 <= x <= 0x3fff_ffff
}

/// A job that outputs `2 * x` for every item and spawns nothing.
pub struct DoubleJob {}

impl Job for DoubleJob {
    type In = i32;

    type Out = i32;

    open spec fn pre(&self, x: i32) -> bool {
        small(x)
    }

    open spec fn measure(&self, x: i32) -> nat {
        0
    }

    open spec fn spawns(&self, x: i32) -> Seq<i32> {
        Seq::empty()
    }

    open spec fn output(&self, x: i32) -> Option<i32> {
        Some((2 * x) as i32)
    }

    proof fn spawns_wf(&self, x: i32) {
    }

    fn run(&self, x: i32, queue: &mut Vec<i32>) -> (r: Option<i32>)
        ensures
            final(queue)@ == old(queue)@ + self.spawns(x),
            r == self.output(x),
    {
        proof {
            assert(old(queue)@ + self.spawns(x) =~= old(queue)@);
        }
        Some(2 * x)
    }
}

/// A job that, on `x > 0`, spawns `x - 1` and outputs `2 * x`; on other
/// items it spawns nothing and outputs nothing.
pub struct CountdownJob {}

impl Job for CountdownJob {
    type In = i32;

    type Out = i32;

    open spec fn pre(&self, x: i32) -> bool {
        small(x)
    }

    open spec fn measure(&self, x: i32) -> nat {
        if x > 0 {
            x as nat
        } else {
            0
        }
    }

    open spec fn spawns(&self, x: i32) -> Seq<i32> {
        if x > 0 {
            seq![(x - 1) as i32]
        } else {
            Seq::empty()
        }
    }

    open spec fn output(&self, x: i32) -> Option<i32> {
        if x > 0 {
            Some((2 * x) as i32)
        } else {
            None
        }
    }

    proof fn spawns_wf(&self, x: i32) {
    }

    fn run(&self, x: i32, queue: &mut Vec<i32>) -> (r: Option<i32>)
        ensures
            final(queue)@ == old(queue)@ + self.spawns(x),
            r == self.output(x),
    {
        if x > 0 {
            queue.push(x - 1);
            proof {
                assert(final(queue)@ =~= old(queue)@ + self.spawns(x));
            }
            Some(2 * x)
        } else {
            proof {
                assert(old(queue)@ + self.spawns(x) =~= old(queue)@);
            }
            None
        }
    }
}

/// The sum of a sequence of `i32` values, as an unbounded integer.
pub open spec fn seq_sum(s: Seq<i32>) -> int
    decreases s.len(),
{
    if s.len() == 0 {
        0
    } else {
        s.first() + seq_sum(s.drop_first())
    }
}

proof fn lemma_seq_sum_cons(a: i32, s: Seq<i32>)
    ensures
        seq_sum(seq![a] + s) == a + seq_sum(s),
{
    assert((seq![a] + s).first() == a);
    assert((seq![a] + s).drop_first() =~= s);
}

/// Law: a run of `DoubleJob` outputs one item per seed, and the sum of
/// the outputs is twice the sum of the seeds, whatever the seed list.
pub proof fn lemma_double_job_sum(j: DoubleJob, seeds: Seq<i32>)
    requires
        forall|i: int| 0 <= i < seeds.len() ==> small(#[trigger] seeds[i]),
    ensures
        seq_sum(job_outputs(j, seeds)) == 2 * seq_sum(seeds),
    decreases seeds.len(),
{
    if seeds.len() == 0 {
    } else {
        let x = seeds.first();
        assert(task_eval(j, x).0 =~= seq![(2 * x) as i32]);
        lemma_double_job_sum(j, seeds.drop_first());
        lemma_seq_sum_cons((2 * x) as i32, job_outputs(j, seeds.drop_first()));
        assert(job_outputs(j, seeds) =~= seq![(2 * x) as i32] + job_outputs(
            j,
            seeds.drop_first(),
        ));
    }
}

/// Law: the task tree of `CountdownJob` rooted at a seed `x` has output
/// sum `x * (x + 1)` (and `0` for seeds at or below zero).
pub proof fn lemma_countdown_task_sum(j: CountdownJob, x: i32)
    requires
        small(x),
    ensures
        seq_sum(task_eval(j, x).0) == if x > 0 {
            x * (x + 1)
        } else {
            0
        },
    decreases j.measure(x),
{
    if x > 0 {
        let y = (x - 1) as i32;
        lemma_countdown_task_sum(j, y);
        assert(stack_eval(j, seq![y], x as nat).0 =~= task_eval(j, y).0) by {
            assert(seq![y].drop_last() =~= Seq::<i32>::empty());
            assert(task_eval(j, y).0 + stack_eval(j, Seq::<i32>::empty(), x as nat).0
                =~= task_eval(j, y).0);
        }
        assert(task_eval(j, x).0 =~= seq![(2 * x) as i32] + task_eval(j, y).0);
        lemma_seq_sum_cons((2 * x) as i32, task_eval(j, y).0);
        assert(2 * x + (if y > 0 {
            y * (y + 1)
        } else {
            0
        }) == x * (x + 1)) by (nonlinear_arith)
            requires
                x > 0,
                y == x - 1,
        ;
    } else {
        assert(task_eval(j, x).0 =~= Seq::<i32>::empty());
    }
}

/// Law: one step of the countdown task tree: the item's doubled output,
/// then the whole tree of its one spawned item.
pub proof fn lemma_countdown_unfold(j: CountdownJob, x: i32)
    requires
        small(x),
        x > 0,
    ensures
        task_eval(j, x).0 == seq![(2 * x) as i32] + task_eval(j, (x - 1) as i32).0,
{
    let y = (x - 1) as i32;
    assert(stack_eval(j, seq![y], x as nat).0 =~= task_eval(j, y).0) by {
        assert(seq![y].drop_last() =~= Seq::<i32>::empty());
        assert(task_eval(j, y).0 + stack_eval(j, Seq::<i32>::empty(), x as nat).0 =~= task_eval(
            j,
            y,
        ).0);
    }
    assert(task_eval(j, x).0 =~= seq![(2 * x) as i32] + task_eval(j, y).0);
}

/// Law: seeded with `3` alone, a run of `CountdownJob` outputs exactly
/// `6, 4, 2`, in that order.
pub proof fn lemma_countdown_three(j: CountdownJob)
    ensures
        job_outputs(j, seq![3i32]) == seq![6i32, 4i32, 2i32],
{
    assert(task_eval(j, 0i32).0 =~= Seq::<i32>::empty());
    lemma_countdown_unfold(j, 1i32);
    lemma_countdown_unfold(j, 2i32);
    lemma_countdown_unfold(j, 3i32);
    assert(task_eval(j, 1i32).0 =~= seq![2i32]);
    assert(task_eval(j, 2i32).0 =~= seq![4i32, 2i32]);
    assert(task_eval(j, 3i32).0 =~= seq![6i32, 4i32, 2i32]);
    assert(seq![3i32].drop_first() =~= Seq::<i32>::empty());
    assert(seq![3i32].first() == 3i32);
    assert(seeds_eval(j, Seq::<i32>::empty()).0 =~= Seq::<i32>::empty());
    assert(task_eval(j, 3i32).0 + Seq::<i32>::empty() =~= task_eval(j, 3i32).0);
    assert(job_outputs(j, seq![3i32]) =~= task_eval(j, 3i32).0);
}

/// The sum of `x * (x + 1)` over a sequence.
pub open spec fn pair_product_sum(s: Seq<i32>) -> int
    decreases s.len(),
{
    if s.len() == 0 {
        0
    } else {
        s.first() * (s.first() + 1) + pair_product_sum(s.drop_first())
    }
}

/// Law: a run of `CountdownJob` over any list of positive seeds has
/// output sum equal to the sum of `x * (x + 1)` over the seeds.
pub proof fn lemma_countdown_seeds_sum(j: CountdownJob, seeds: Seq<i32>)
    requires
        forall|i: int| 0 <= i < seeds.len() ==> small(#[trigger] seeds[i]) && seeds[i] > 0,
    ensures
        seq_sum(job_outputs(j, seeds)) == pair_product_sum(seeds),
    decreases seeds.len(),
{
    if seeds.len() == 0 {
    } else {
        let x = seeds.first();
        lemma_countdown_task_sum(j, x);
        lemma_countdown_seeds_sum(j, seeds.drop_first());
        lemma_seq_sum_sum(task_eval(j, x).0, job_outputs(j, seeds.drop_first()));
    }
}

proof fn lemma_seq_sum_sum(a: Seq<i32>, c: Seq<i32>)
    ensures
        seq_sum(a + c) == seq_sum(a) + seq_sum(c),
    decreases a.len(),
{
    if a.len() == 0 {
        assert(a + c =~= c);
    } else {
        lemma_seq_sum_sum(a.drop_first(), c);
        assert((a + c).drop_first() =~= a.drop_first() + c);
        assert((a + c).first() == a.first());
    }
}

} // verus!
