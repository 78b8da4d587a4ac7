//! A small runtime: tasks by id, and a queue that is polled through once.

use std::collections::{HashMap, VecDeque};
use vstd::prelude::*;
use vstd::std_specs::hash::*;

verus! {

broadcast use group_hash_axioms;

/// A task: its payload, unless it is being polled, and whether it is complete.
pub struct Task<P> {
    pub payload: Option<P>,
    pub completed: bool,
}

pub struct Runtime<P> {
    tasks: HashMap<u64, Task<P>>,
    ready_queue: VecDeque<u64>,
    initialized: bool,
}

/// What comes after a poll of the task that is waited for.
pub enum BlockNext<P> {
    /// The task is complete, and gone; its payload has to be dropped.
    Done(Option<P>),
    /// The other tasks are to be driven, then it is polled again.
    Drive,
}

/// What came of a poll: the task, its payload, and whether it was ready.
pub struct Outcome<P> {
    pub task_id: u64,
    pub payload: P,
    pub ready: bool,
}

/// The tasks after a round with these outcomes, and how many of them have completed in it: those that
/// were known, were not complete, and became ready.
pub open spec fn round_over<P>(tasks: Map<u64, Task<P>>, outcomes: Seq<Outcome<P>>) -> (Map<u64, Task<P>>, int)
    decreases outcomes.len(),
{
    if outcomes.len() == 0 {
        (tasks, 0)
    } else {
        let (before, n) = round_over(tasks, outcomes.drop_last());
        let o = outcomes.last();
        if before.dom().contains(o.task_id) && !before[o.task_id].completed {
            (
                before.insert(o.task_id, Task { payload: Some(o.payload), completed: o.ready }),
                if o.ready {
                    n + 1
                } else {
                    n
                },
            )
        } else {
            (before, n)
        }
    }
}

impl<P> Runtime<P> {
    pub closed spec fn tasks(&self) -> Map<u64, Task<P>> {
        self.tasks@
    }

    /// The tasks that wait to be polled, in order.
    pub closed spec fn queue(&self) -> Seq<u64> {
        self.ready_queue@
    }

    pub closed spec fn ready(&self) -> bool {
        self.initialized
    }

    pub fn new() -> (r: Self)
        ensures
            r.tasks() == Map::<u64, Task<P>>::empty(),
            r.queue().len() == 0,
            !r.ready(),
    {
        Runtime { tasks: HashMap::new(), ready_queue: VecDeque::new(), initialized: false }
    }

    /// Starts afresh, without tasks.
    pub fn init(&mut self)
        ensures
            final(self).tasks() == Map::<u64, Task<P>>::empty(),
            final(self).queue().len() == 0,
            final(self).ready(),
    {
        self.tasks.clear();
        self.ready_queue.clear();
        self.initialized = true;
    }

    /// Adds a task, or replaces the one of this id, and queues it.
    pub fn spawn(&mut self, task_id: u64, payload: P)
        ensures
            final(self).tasks() == old(self).tasks().insert(task_id, Task { payload: Some(payload), completed: false }),
            final(self).queue() == old(self).queue().push(task_id),
            final(self).ready() == old(self).ready(),
    {
        self.tasks.insert(task_id, Task { payload: Some(payload), completed: false });
        self.ready_queue.push_back(task_id);
    }

    /// Starts a poll. `None` if the task counts as ready without one: it is complete, or unknown.
    /// Otherwise its payload is handed out, to be brought back with `polled`.
    pub fn poll_task(&mut self, task_id: u64) -> (r: Option<P>)
        ensures
            final(self).queue() == old(self).queue(),
            final(self).ready() == old(self).ready(),
            ({
                let tasks = old(self).tasks();
                let t = tasks[task_id];
                if tasks.dom().contains(task_id) && !t.completed {
                    &&& r == t.payload
                    &&& final(self).tasks() == tasks.insert(task_id, Task { payload: None, completed: false })
                } else {
                    r is None && final(self).tasks() == tasks
                }
            }),
    {
        let ghost tasks = self.tasks();
        match self.tasks.remove(&task_id) {
            None => {
                assert(self.tasks() =~= tasks);
                None
            },
            Some(mut t) => {
                if t.completed {
                    self.tasks.insert(task_id, t);
                    assert(self.tasks() =~= tasks);
                    None
                } else {
                    let payload = t.payload.take();
                    self.tasks.insert(task_id, t);
                    assert(self.tasks() =~= tasks.insert(task_id, Task { payload: None, completed: false }));
                    payload
                }
            },
        }
    }

    /// Ends a poll: the payload comes back, and the task is complete if the poll said so.
    pub fn polled(&mut self, task_id: u64, payload: P, ready: bool)
        ensures
            final(self).queue() == old(self).queue(),
            final(self).ready() == old(self).ready(),
            final(self).tasks() == if old(self).tasks().dom().contains(task_id) {
                old(self).tasks().insert(task_id, Task { payload: Some(payload), completed: ready })
            } else {
                old(self).tasks()
            },
    {
        let ghost tasks = self.tasks();
        match self.tasks.remove(&task_id) {
            None => {
                assert(self.tasks() =~= tasks);
            },
            Some(_) => {
                self.tasks.insert(task_id, Task { payload: Some(payload), completed: ready });
                assert(self.tasks() =~= tasks.insert(task_id, Task { payload: Some(payload), completed: ready }));
            },
        }
    }

    /// After a poll of the task that is waited for: it is gone if it was ready.
    pub fn block_on(&mut self, task_id: u64, ready: bool) -> (r: BlockNext<P>)
        ensures
            final(self).queue() == old(self).queue(),
            final(self).ready() == old(self).ready(),
            !ready ==> r is Drive && final(self).tasks() == old(self).tasks(),
            ready ==> final(self).tasks() == old(self).tasks().remove(task_id) && r == BlockNext::Done(
                if old(self).tasks().dom().contains(task_id) {
                    old(self).tasks()[task_id].payload
                } else {
                    None
                },
            ),
    {
        if !ready {
            return BlockNext::Drive;
        }
        let ghost tasks = self.tasks();
        match self.tasks.remove(&task_id) {
            None => {
                assert(self.tasks() =~= tasks.remove(task_id));
                BlockNext::Done(None)
            },
            Some(t) => BlockNext::Done(t.payload),
        }
    }

    /// The tasks to be polled in one round, in order; the queue is empty afterwards. What came of the
    /// polls goes to `drove`.
    pub fn drive(&mut self) -> (r: Vec<u64>)
        ensures
            r@ == old(self).queue(),
            final(self).queue().len() == 0,
            final(self).tasks() == old(self).tasks(),
            final(self).ready() == old(self).ready(),
    {
        let ghost all = self.queue();
        let mut r: Vec<u64> = Vec::new();
        assert(r@ + self.queue() =~= all);
        loop
            invariant
                r@ + self.queue() == all,
                self.tasks() == old(self).tasks(),
                self.ready() == old(self).ready(),
            ensures
                r@ == all,
                self.queue().len() == 0,
                self.tasks() == old(self).tasks(),
                self.ready() == old(self).ready(),
            decreases self.queue().len(),
        {
            match self.ready_queue.pop_front() {
                None => {
                    assert(r@ =~= all);
                    break;
                },
                Some(id) => {
                    r.push(id);
                    assert(r@ + self.queue() =~= all);
                },
            }
        }
        r
    }

    /// Takes in what came of the polls of a round: the payload of each task comes back, and a task
    /// that was ready is complete. Returns how many tasks have completed. Those that are unknown, or
    /// were complete already, are passed over.
    pub fn drove(&mut self, outcomes: Vec<Outcome<P>>) -> (completed: u32)
        requires
            outcomes@.len() <= u32::MAX,
        ensures
            (final(self).tasks(), completed as int) == round_over(old(self).tasks(), outcomes@),
            final(self).queue() == old(self).queue(),
            final(self).ready() == old(self).ready(),
    {
        let ghost all = outcomes@;
        let ghost start = self.tasks();
        let ghost mut done: int = 0;
        let mut rest = outcomes;
        let mut completed: u32 = 0;
        assert(all.take(0) =~= Seq::<Outcome<P>>::empty());
        assert(all.skip(0) =~= all);
        while rest.len() > 0
            invariant
                0 <= done <= all.len() <= u32::MAX,
                rest@ == all.skip(done),
                completed <= done,
                (self.tasks(), completed as int) == round_over(start, all.take(done)),
                self.queue() == old(self).queue(),
                self.ready() == old(self).ready(),
            decreases rest@.len(),
        {
            let ghost tasks = self.tasks();
            let ghost x = all[done];
            let Outcome { task_id, payload, ready } = rest.remove(0);
            proof {
                assert(all.take(done + 1).drop_last() =~= all.take(done));
                assert(all.skip(done).remove(0) =~= all.skip(done + 1));
                done = done + 1;
            }
            match self.tasks.remove(&task_id) {
                None => {
                    assert(self.tasks() =~= tasks);
                },
                Some(t) => {
                    if t.completed {
                        self.tasks.insert(task_id, t);
                        assert(self.tasks() =~= tasks);
                    } else {
                        self.tasks.insert(task_id, Task { payload: Some(payload), completed: ready });
                        assert(self.tasks() =~= tasks.insert(task_id, Task { payload: Some(payload), completed: ready }));
                        if ready {
                            completed = completed + 1;
                        }
                    }
                },
            }
        }
        assert(all.take(done) =~= all);
        completed
    }
}

} // verus!
