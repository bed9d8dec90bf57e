//! A recursive job runtime.
//!
//! A job maps an input item to an optional output and may spawn follow-up
//! items. `run_recursive_job` drives a job to quiescence: it seeds a FIFO
//! injector queue with the initial items and drains work in the order a
//! LIFO worker deque imposes — newly spawned items are processed before
//! anything older, so each seed's whole task tree is finished depth-first
//! before the next seed is taken.
//!
//! The meaning of a whole run is pinned by the spec functions below:
//! `job_outputs` gives the exact output sequence, and the paired weight
//! component bounds the number of steps, which is what the termination
//! (`decreases`) proof of the runtime rests on.

use vstd::prelude::*;

verus! {

/// A recursive job. `measure` bounds the recursion: every spawned item is
/// strictly smaller, so a run starting from finitely many seeds is finite.
/// `pre` is the job's own validity condition on items; seeds must satisfy
/// it and `spawns_wf` shows it is passed down to spawned items.
pub trait Job: Sized {
    type In;

    type Out;

    /// Which items this job accepts.
    spec fn pre(&self, x: Self::In) -> bool;

    /// Recursion bound: spawned items have strictly smaller measure.
    spec fn measure(&self, x: Self::In) -> nat;

    /// The items `run` pushes onto the queue, in push order.
    spec fn spawns(&self, x: Self::In) -> Seq<Self::In>;

    /// The output `run` returns.
    spec fn output(&self, x: Self::In) -> Option<Self::Out>;

    /// Law: spawned items are valid and strictly smaller than their parent.
    proof fn spawns_wf(&self, x: Self::In)
        requires
            self.pre(x),
        ensures
            forall|i: int|
                0 <= i < self.spawns(x).len() ==> self.pre(#[trigger] self.spawns(x)[i])
                    && self.measure(self.spawns(x)[i]) < self.measure(x),
    ;

    /// Process one item: push the spawned items onto `queue` and return
    /// the output for this item.
    fn run(&self, x: Self::In, queue: &mut Vec<Self::In>) -> (r: Option<Self::Out>)
        requires
            self.pre(x),
        ensures
            final(queue)@ == old(queue)@ + self.spawns(x),
            r == self.output(x),
    ;
}

pub open spec fn opt_seq<T>(o: Option<T>) -> Seq<T> {
    match o {
        None => Seq::empty(),
        Some(t) => seq![t],
    }
}

/// The outputs (first component) and the number of processing steps
/// (second component) of the task tree rooted at `x`.
///
/// Outputs come in depth-first order: the item's own output, then the
/// subtree of the last spawned item, down to the subtree of the first —
/// the order a LIFO deque yields.
pub open spec fn task_eval<J: Job>(j: J, x: J::In) -> (Seq<J::Out>, nat)
    decreases j.measure(x), 1int, 0int,
{
    if forall|i: int|
        0 <= i < j.spawns(x).len() ==> j.measure(#[trigger] j.spawns(x)[i]) < j.measure(x) {
        let rest = stack_eval(j, j.spawns(x), j.measure(x));
        (opt_seq(j.output(x)) + rest.0, (1 + rest.1) as nat)
    } else {
        (opt_seq(j.output(x)), 1nat)
    }
}

/// Evaluation of a whole LIFO stack of pending items, last item first.
/// `b` is a strict upper bound on the measures of the items; items at or
/// above the bound (which a run never produces) are skipped.
pub open spec fn stack_eval<J: Job>(j: J, pending: Seq<J::In>, b: nat) -> (Seq<J::Out>, nat)
    decreases b, 0int, pending.len(),
{
    if pending.len() == 0 {
        (Seq::empty(), 0nat)
    } else if j.measure(pending.last()) < b {
        let task = task_eval(j, pending.last());
        let rest = stack_eval(j, pending.drop_last(), b);
        (task.0 + rest.0, (task.1 + rest.1) as nat)
    } else {
        stack_eval(j, pending.drop_last(), b)
    }
}

/// Evaluation of the seed list, first seed first: each seed's task tree
/// is finished before the next seed is taken.
pub open spec fn seeds_eval<J: Job>(j: J, seeds: Seq<J::In>) -> (Seq<J::Out>, nat)
    decreases seeds.len(),
{
    if seeds.len() == 0 {
        (Seq::empty(), 0nat)
    } else {
        let task = task_eval(j, seeds.first());
        let rest = seeds_eval(j, seeds.drop_first());
        (task.0 + rest.0, (task.1 + rest.1) as nat)
    }
}

/// The exact output sequence of a run of `j` over `seeds`.
pub open spec fn job_outputs<J: Job>(j: J, seeds: Seq<J::In>) -> Seq<J::Out> {
    seeds_eval(j, seeds).0
}

/// Counts the workers currently holding a work token. A worker may
/// conclude that the whole system is quiescent only when, after releasing
/// its own token, it sees the count at zero.
pub struct ActiveCounter {
    active_count: usize,
}

/// Witness that its holder has been counted in an `ActiveCounter`.
pub struct ActiveToken {
    marker: (),
}

impl ActiveCounter {
    pub closed spec fn count(&self) -> nat {
        self.active_count as nat
    }

    pub fn new() -> (r: ActiveCounter)
        ensures
            r.count() == 0,
    {
        ActiveCounter { active_count: 0 }
    }

    pub fn take_token(&mut self) -> (t: ActiveToken)
        requires
            old(self).count() < usize::MAX,
        ensures
            final(self).count() == old(self).count() + 1,
    {
        self.active_count = self.active_count + 1;
        ActiveToken { marker: () }
    }

    pub fn release_token(&mut self, t: ActiveToken)
        requires
            old(self).count() > 0,
        ensures
            final(self).count() == old(self).count() - 1,
    {
        self.active_count = self.active_count - 1;
    }

    pub fn is_zero(&self) -> (r: bool)
        ensures
            r == (self.count() == 0),
    {
        self.active_count == 0
    }
}

/// The evaluation of a stack `a + c` splits: the items of `c`, being on
/// top, are processed before the items of `a`.
proof fn lemma_stack_eval_append<J: Job>(j: J, a: Seq<J::In>, c: Seq<J::In>, b: nat)
    ensures
        stack_eval(j, a + c, b).0 == stack_eval(j, c, b).0 + stack_eval(j, a, b).0,
        stack_eval(j, a + c, b).1 == stack_eval(j, c, b).1 + stack_eval(j, a, b).1,
    decreases c.len(),
{
    if c.len() == 0 {
        assert(a + c =~= a);
        assert(stack_eval(j, c, b).0 + stack_eval(j, a, b).0 =~= stack_eval(j, a, b).0);
    } else {
        lemma_stack_eval_append(j, a, c.drop_last(), b);
        assert((a + c).last() == c.last());
        assert((a + c).drop_last() =~= a + c.drop_last());
        if j.measure(c.last()) < b {
            assert(task_eval(j, c.last()).0 + (stack_eval(j, c.drop_last(), b).0 + stack_eval(
                j,
                a,
                b,
            ).0) =~= (task_eval(j, c.last()).0 + stack_eval(j, c.drop_last(), b).0) + stack_eval(
                j,
                a,
                b,
            ).0);
        }
    }
}

/// Changing the bound does not change the evaluation while both bounds
/// stay above every measure in the stack.
proof fn lemma_stack_eval_bound<J: Job>(j: J, s: Seq<J::In>, b1: nat, b2: nat)
    requires
        forall|i: int| 0 <= i < s.len() ==> j.measure(#[trigger] s[i]) < b1 && j.measure(s[i])
            < b2,
    ensures
        stack_eval(j, s, b1) == stack_eval(j, s, b2),
    decreases s.len(),
{
    if s.len() > 0 {
        assert(forall|i: int|
            0 <= i < s.drop_last().len() ==> j.measure(#[trigger] s.drop_last()[i]) < b1
                && j.measure(s.drop_last()[i]) < b2) by {
            assert(forall|i: int| 0 <= i < s.len() - 1 ==> s.drop_last()[i] == #[trigger] s[i]);
        }
        lemma_stack_eval_bound(j, s.drop_last(), b1, b2);
        assert(j.measure(s.last()) < b1 && j.measure(s.last()) < b2);
    }
}

/// Drive `job` to quiescence over the `initial` items.
///
/// A FIFO injector is seeded with `initial`; the single worker prefers
/// its own LIFO deque, so each seed's task tree is finished depth-first
/// before the next seed is taken. The output sequence is exactly
/// `job_outputs(job, initial)`; outputs of one item are appended in the
/// order the items are processed.
///
/// The worker holds a token from the `ActiveCounter` for as long as it
/// searches for or processes work, and it concludes only after releasing
/// the token and seeing the count at zero. The loop carries a `decreases`
/// clause — the runtime provably terminates once no task is left.
pub fn run_recursive_job<J: Job>(job: &J, initial: Vec<J::In>) -> (out: Vec<J::Out>)
    requires
        forall|i: int| 0 <= i < initial@.len() ==> job.pre(#[trigger] initial@[i]),
    ensures
        out@ == job_outputs(*job, initial@),
{
    let mut out: Vec<J::Out> = Vec::new();
    let mut local: Vec<J::In> = Vec::new();
    let mut injector: Vec<J::In> = initial;
    let ghost initial_seq = injector@;
    let ghost mut b: nat = 0;
    let mut counter = ActiveCounter::new();
    let token = counter.take_token();
    loop
        invariant
            counter.count() == 1,
            forall|i: int| 0 <= i < local@.len() ==> job.pre(#[trigger] local@[i]) && job.measure(
                local@[i],
            ) < b,
            forall|i: int| 0 <= i < injector@.len() ==> job.pre(#[trigger] injector@[i]),
            out@ + stack_eval(*job, local@, b).0 + seeds_eval(*job, injector@).0 == seeds_eval(
                *job,
                initial_seq,
            ).0,
        ensures
            counter.count() == 1,
            out@ == seeds_eval(*job, initial_seq).0,
        decreases stack_eval(*job, local@, b).1 + seeds_eval(*job, injector@).1,
    {
        let ghost prev_local = local@;
        let ghost prev_inj = injector@;
        let ghost prev_out = out@;
        match find_task(&mut local, &mut injector) {
            None => {
                proof {
                    assert(out@ + stack_eval(*job, local@, b).0 + seeds_eval(*job, injector@).0
                        =~= out@);
                }
                break ;
            },
            Some(x) => {
                proof {
                    job.spawns_wf(x);
                    if prev_local.len() > 0 {
                        // popped from the local deque
                        assert(x == prev_local.last());
                        assert(job.measure(x) < b);
                    } else {
                        // pulled a fresh seed from the injector: reset the bound
                        assert(x == prev_inj.first());
                        b = job.measure(x) + 1;
                    }
                }
                let ghost queue_before = local@;
                let r = job.run(x, &mut local);
                match r {
                    Some(v) => out.push(v),
                    None => (),
                }
                proof {
                    assert(local@ == queue_before + job.spawns(x));
                    lemma_stack_eval_append(*job, queue_before, job.spawns(x), b);
                    lemma_stack_eval_bound(*job, job.spawns(x), b, job.measure(x));
                    if prev_local.len() > 0 {
                        assert(queue_before =~= prev_local.drop_last());
                        assert(stack_eval(*job, prev_local, b).0 =~= task_eval(*job, x).0
                            + stack_eval(*job, queue_before, b).0);
                        assert(out@ + stack_eval(*job, local@, b).0 + seeds_eval(
                            *job,
                            injector@,
                        ).0 =~= prev_out + stack_eval(*job, prev_local, b).0 + seeds_eval(
                            *job,
                            prev_inj,
                        ).0);
                    } else {
                        assert(queue_before =~= Seq::<J::In>::empty());
                        assert(seeds_eval(*job, prev_inj).0 =~= task_eval(*job, x).0 + seeds_eval(
                            *job,
                            injector@,
                        ).0);
                        assert(out@ + stack_eval(*job, local@, b).0 + seeds_eval(
                            *job,
                            injector@,
                        ).0 =~= prev_out + stack_eval(*job, prev_local, b).0 + seeds_eval(
                            *job,
                            prev_inj,
                        ).0);
                    }
                }
            },
        }
    }
    counter.release_token(token);
    // quiescence: the worker released its token and sees no active worker
    let done = counter.is_zero();
    assert(done);
    out
}

/// Take the next task: the worker's own LIFO deque first, else the front
/// of the FIFO injector, else nothing.
fn find_task<T>(local: &mut Vec<T>, injector: &mut Vec<T>) -> (r: Option<T>)
    ensures
        old(local)@.len() > 0 ==> r == Some(old(local)@.last()) && final(local)@ == old(
            local,
        )@.drop_last() && final(injector)@ == old(injector)@,
        old(local)@.len() == 0 && old(injector)@.len() > 0 ==> r == Some(old(injector)@.first())
            && final(local)@ == old(local)@ && final(injector)@ == old(injector)@.drop_first(),
        old(local)@.len() == 0 && old(injector)@.len() == 0 ==> r is None && final(local)@ == old(
            local,
        )@ && final(injector)@ == old(injector)@,
{
    match local.pop() {
        Some(x) => Some(x),
        None => {
            if injector.len() > 0 {
                let x = injector.remove(0);
                proof {
                    assert(final(injector)@ =~= old(injector)@.drop_first());
                }
                Some(x)
            } else {
                None
            }
        },
    }
}

} // verus!
