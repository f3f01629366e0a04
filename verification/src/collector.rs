//! The trace collector: a lock-free multi-producer queue into which
//! finished tasks push their terminal results, drained by the single
//! consumer. The queue does no formatting and no filtering.

use vstd::prelude::*;

use crate::exec::Program;
use crate::exec::Task;
use crate::exec::TR;
use crate::exec::TraceResult;
use crate::exec::explore;
use crate::exec::result_view;
use crate::exec::task_results;
use crate::exec::task_view;
use crate::exec::wf_prog;

verus! {

/// A concurrent multi-producer/multi-consumer result queue, backed by a
/// lock-free queue from the crossbeam crate.
#[verifier::external_body]
pub struct TraceQueue {
    q: crossbeam::queue::SegQueue<TraceResult>,
}

/// What the collector holds, oldest first.
pub uninterp spec fn queue_contents(q: TraceQueue) -> Seq<TraceResult>;

impl TraceQueue {
    /// An empty collector. Relies on crossbeam's `SegQueue::new`: a new
    /// queue holds nothing.
    #[verifier::external_body]
    pub fn new() -> (q: TraceQueue)
        ensures
            queue_contents(q) == Seq::<TraceResult>::empty(),
    {
        TraceQueue { q: crossbeam::queue::SegQueue::new() }
    }

    /// Append one result. Relies on crossbeam's `SegQueue::push`: the
    /// element joins the tail of the FIFO queue.
    #[verifier::external_body]
    pub fn push(&mut self, r: TraceResult)
        ensures
            queue_contents(*final(self)) == queue_contents(*old(self)).push(r),
    {
        self.q.push(r);
    }

    /// Remove the oldest result, if any. Relies on crossbeam's
    /// `SegQueue::pop`: the head of the FIFO queue leaves first, and an
    /// empty queue yields nothing.
    #[verifier::external_body]
    pub fn pop(&mut self) -> (r: Option<TraceResult>)
        ensures
            match r {
                Some(x) => queue_contents(*old(self)).len() > 0 && x == queue_contents(
                    *old(self),
                )[0] && queue_contents(*final(self)) == queue_contents(*old(self)).drop_first(),
                None => queue_contents(*old(self)).len() == 0 && queue_contents(*final(self))
                    == queue_contents(*old(self)),
            },
    {
        self.q.pop()
    }
}

/// Explore every feasible path of the initial task and push each terminal
/// result into the collector: what arrives is, as a multiset, exactly the
/// terminal results of the task's exploration tree.
pub fn run_collector(prog: &Program, init: Task, schedule: &Vec<u64>, q: &mut TraceQueue)
    requires
        wf_prog(prog.instrs@),
    ensures
        queue_contents(*final(q)).len() == queue_contents(*old(q)).len() + task_results(
            prog.instrs@,
            task_view(init),
        ).len(),
        queue_contents(*old(q)) == queue_contents(*final(q)).subrange(
            0,
            queue_contents(*old(q)).len() as int,
        ),
        queue_contents(*final(q)).skip(queue_contents(*old(q)).len() as int).map_values(
            (|r: TraceResult| result_view(r)),
        ).to_multiset() == task_results(prog.instrs@, task_view(init)),
{
    let ghost c0 = queue_contents(*q);
    let ghost goal = task_results(prog.instrs@, task_view(init));
    let mut results = explore(prog, init, schedule);
    let ghost rs = results@;
    proof {
        rs.map_values(|r: TraceResult| result_view(r)).to_multiset_ensures();
        assert(rs.map_values(|r: TraceResult| result_view(r)).to_multiset().len() == rs.len());
        assert(goal.len() == rs.len());
    }
    let ghost mut i: int = 0;
    while results.len() > 0
        invariant
            0 <= i <= rs.len(),
            results@ == rs.subrange(i, rs.len() as int),
            queue_contents(*q) == c0 + rs.subrange(0, i),
        decreases results@.len(),
    {
        let r = results.remove(0);
        proof {
            assert(r == rs[i]);
        }
        q.push(r);
        proof {
            i = i + 1;
            assert(results@ =~= rs.subrange(i, rs.len() as int));
            assert(queue_contents(*q) =~= c0 + rs.subrange(0, i));
        }
    }
    proof {
        assert(rs.subrange(0, rs.len() as int) =~= rs);
        assert(queue_contents(*q) == c0 + rs);
        assert(c0 =~= (c0 + rs).subrange(0, c0.len() as int));
        assert((c0 + rs).skip(c0.len() as int) =~= rs);
    }
}

} // verus!
