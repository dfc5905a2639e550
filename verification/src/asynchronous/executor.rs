//! The cooperative executor: which task is polled next, and what becomes
//! of a task after a poll.

use vstd::prelude::*;
use crossbeam_queue::ArrayQueue;
use crate::asynchronous::queue::{queue_capacity, queue_items, queue_len, queue_new, queue_pop, queue_push};

verus! {

/// The number of tasks that can be runnable at one time.
pub const MAX_QUEUED_TASKS: usize = 100_000;

/// Why a task could not be queued.
#[derive(Debug, Copy, Clone, PartialEq, Eq, Structural)]
pub enum ExecutorError {
    /// As many tasks are runnable as the run queue has room for.
    TooManyTasks,
}

/// The executor's book-keeping. A task is a number; its future is kept
/// by whoever polls it. The executor knows of each task whether its
/// future is there to be polled, which tasks are runnable, and which one
/// is being polled.
pub struct Executor {
    tasks: ArrayQueue<usize>,
    futures: Vec<bool>,
    polling: Option<usize>,
}

impl Executor {
    /// The runnable tasks, in the order in which they will be polled.
    pub closed spec fn runnable(&self) -> Seq<usize> {
        queue_items(self.tasks)
    }

    /// Of each task, whether its future is there to be polled: it is not
    /// while the task is being polled, nor once the task has finished.
    pub closed spec fn futures(&self) -> Seq<bool> {
        self.futures@
    }

    /// The task that is being polled.
    pub closed spec fn polling(&self) -> Option<usize> {
        self.polling
    }

    /// The number of tasks that the run queue was made for.
    pub closed spec fn capacity(&self) -> nat {
        queue_capacity(self.tasks)
    }

    /// The invariant of the executor: the run queue is within its
    /// capacity, and the task that is being polled is a task whose future
    /// was taken.
    pub open spec fn wf(&self) -> bool {
        &&& self.capacity() == MAX_QUEUED_TASKS
        &&& self.runnable().len() <= MAX_QUEUED_TASKS
        &&& match self.polling() {
            Some(task) => task < self.futures().len() && !self.futures()[task as int],
            None => true,
        }
    }

    pub fn new() -> (r: Executor)
        ensures
            r.wf(),
            r.runnable() == Seq::<usize>::empty(),
            r.futures() == Seq::<bool>::empty(),
            r.polling() is None,
    {
        Executor { tasks: queue_new(MAX_QUEUED_TASKS), futures: Vec::new(), polling: None }
    }

    /// Takes a new task on and makes it runnable. The result is the
    /// number of the task.
    pub fn spawn(&mut self) -> (r: Result<usize, ExecutorError>)
        requires
            old(self).wf(),
        ensures
            final(self).wf(),
            final(self).polling() == old(self).polling(),
            r is Err <==> old(self).runnable().len() >= MAX_QUEUED_TASKS,
            r is Err ==> final(self).runnable() == old(self).runnable() && final(self).futures() == old(
                self,
            ).futures(),
            r matches Ok(task) ==> {
                &&& task == old(self).futures().len()
                &&& final(self).futures() == old(self).futures().push(true)
                &&& final(self).runnable() == old(self).runnable().push(task)
            },
    {
        if queue_len(&self.tasks) >= MAX_QUEUED_TASKS {
            return Err(ExecutorError::TooManyTasks);
        }
        let task: usize = self.futures.len();
        self.futures.push(true);
        let pushed = queue_push(&mut self.tasks, task);
        assert(pushed);
        Ok(task)
    }

    /// What the waker of a task does: the task becomes runnable again.
    pub fn wake(&mut self, task: usize) -> (r: Result<(), ExecutorError>)
        requires
            old(self).wf(),
        ensures
            final(self).wf(),
            final(self).polling() == old(self).polling(),
            final(self).futures() == old(self).futures(),
            r is Err <==> old(self).runnable().len() >= MAX_QUEUED_TASKS,
            final(self).runnable() == (if r is Ok {
                old(self).runnable().push(task)
            } else {
                old(self).runnable()
            }),
    {
        if queue_push(&mut self.tasks, task) {
            Ok(())
        } else {
            Err(ExecutorError::TooManyTasks)
        }
    }

    /// The queue without its first `n` tasks.
    pub open spec fn skip(queue: Seq<usize>, n: int) -> Seq<usize> {
        queue.subrange(n, queue.len() as int)
    }

    /// How many tasks at the head of `queue` have no future to poll.
    pub open spec fn idle_prefix(queue: Seq<usize>, futures: Seq<bool>) -> int
        decreases queue.len(),
    {
        if queue.len() == 0 {
            0
        } else if queue[0] < futures.len() && futures[queue[0] as int] {
            0
        } else {
            1 + Self::idle_prefix(queue.subrange(1, queue.len() as int), futures)
        }
    }

    pub proof fn lemma_idle_prefix(queue: Seq<usize>, futures: Seq<bool>)
        ensures
            0 <= Self::idle_prefix(queue, futures) <= queue.len(),
        decreases queue.len(),
    {
        if queue.len() > 0 && !(queue[0] < futures.len() && futures[queue[0] as int]) {
            Self::lemma_idle_prefix(queue.subrange(1, queue.len() as int), futures);
        }
    }

    /// One step of the run loop: the next task that has a future to poll.
    /// Tasks at the head of the run queue that have none are passed over.
    /// The future of the task found is taken for the poll; where no task
    /// is found the run queue is empty and the run loop ends.
    pub fn run(&mut self) -> (next: Option<usize>)
        requires
            old(self).wf(),
            old(self).polling() is None,
        ensures
            final(self).wf(),
            ({
                let queue = old(self).runnable();
                let n = Self::idle_prefix(queue, old(self).futures());
                if n < queue.len() {
                    &&& next == Some(queue[n])
                    &&& final(self).polling() == next
                    &&& final(self).runnable() == Self::skip(queue, n + 1)
                    &&& final(self).futures() == old(self).futures().update(queue[n] as int, false)
                } else {
                    &&& next is None
                    &&& final(self).polling() is None
                    &&& final(self).runnable() == Seq::<usize>::empty()
                    &&& final(self).futures() == old(self).futures()
                }
            }),
    {
        let ghost queue = queue_items(self.tasks);
        let ghost futures = self.futures@;
        proof {
            Self::lemma_idle_prefix(queue, futures);
            assert(Self::skip(queue, 0) =~= queue);
        }
        let mut passed: usize = 0;
        loop
            invariant_except_break
                self.polling is None,
                self.futures@ == futures,
                queue_items(self.tasks) == Self::skip(queue, passed as int),
                Self::idle_prefix(queue, futures) == passed + Self::idle_prefix(
                    Self::skip(queue, passed as int),
                    futures,
                ),
            invariant
                queue_capacity(self.tasks) == MAX_QUEUED_TASKS,
                queue.len() <= MAX_QUEUED_TASKS,
                self.futures@.len() == futures.len(),
                passed <= queue.len(),
            ensures
                self.wf(),
                ({
                    let n = Self::idle_prefix(queue, futures);
                    if n < queue.len() {
                        &&& passed == n
                        &&& self.polling == Some(queue[n])
                        &&& queue_items(self.tasks) == Self::skip(queue, n + 1)
                        &&& self.futures@ == futures.update(queue[n] as int, false)
                    } else {
                        &&& self.polling is None
                        &&& queue_items(self.tasks) == Seq::<usize>::empty()
                        &&& self.futures@ == futures
                    }
                }),
            decreases queue.len() - passed,
        {
            let ghost rest = Self::skip(queue, passed as int);
            match queue_pop(&mut self.tasks) {
                Some(task) => {
                    proof {
                        Self::lemma_idle_prefix(rest, futures);
                        assert(rest.subrange(1, rest.len() as int) =~= Self::skip(queue, passed + 1));
                    }
                    proof {
                        assert(rest[0] == task);
                    }
                    if task < self.futures.len() && self.futures[task] {
                        self.futures[task] = false;
                        self.polling = Some(task);
                        break ;
                    }
                    assert(Self::idle_prefix(rest, futures) == 1 + Self::idle_prefix(
                        rest.subrange(1, rest.len() as int),
                        futures,
                    ));
                    passed += 1;
                },
                None => {
                    proof {
                        Self::lemma_idle_prefix(rest, futures);
                    }
                    break ;
                },
            }
        }
        self.polling
    }

    /// Ends the poll of the task that is being polled. A task that is
    /// pending keeps its future until it is woken; the future of a task
    /// that is ready is gone for good.
    pub fn poll_done(&mut self, ready: bool)
        requires
            old(self).wf(),
            old(self).polling() is Some,
        ensures
            final(self).wf(),
            final(self).polling() is None,
            final(self).runnable() == old(self).runnable(),
            final(self).futures() == (if ready {
                old(self).futures()
            } else {
                old(self).futures().update(old(self).polling().unwrap() as int, true)
            }),
    {
        match self.polling {
            Some(task) => {
                if !ready {
                    self.futures[task] = true;
                }
            },
            None => {},
        }
        self.polling = None;
    }
}

} // verus!
