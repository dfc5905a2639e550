//! Timers against the monotonic clock. A timer is registered when it is
//! made; the timer interrupt completes the timers that have expired and
//! says which tasks to wake.

use vstd::prelude::*;
use crossbeam_queue::ArrayQueue;
use crate::asynchronous::queue::{queue_capacity, queue_items, queue_len, queue_new, queue_pop, queue_push};

verus! {

/// The number of timers that can be registered at one time.
pub const MAX_REGISTERED_TIMERS: usize = 100_000;

/// What a timer and the timer interrupt share: whether the timer has
/// expired, when it expires on the monotonic clock, in nanoseconds, and
/// the task to wake when it does.
#[derive(Debug, Copy, Clone, PartialEq, Eq, Structural)]
pub struct SharedState {
    pub completed: bool,
    pub expired_monotonic: u64,
    pub waker: Option<usize>,
}

/// Why a timer could not be made.
#[derive(Debug, Copy, Clone, PartialEq, Eq, Structural)]
pub enum TimerError {
    /// As many timers are registered as the registry has room for.
    TooManyTimers,
}

/// The timers that were made, and the queue of those that wait to expire,
/// in the order of their registration.
pub struct TimerRegistry {
    states: Vec<SharedState>,
    queue: ArrayQueue<usize>,
}

/// A timer: a handle to its state in the registry.
#[derive(Debug, Copy, Clone, PartialEq, Eq, Structural)]
pub struct TimerFuture {
    pub id: usize,
}

/// The state of a timer after the timer interrupt looked at it at `now`:
/// an expired timer is completed and has given its waker away.
pub open spec fn timer_checked(state: SharedState, now: u64) -> SharedState {
    if now >= state.expired_monotonic {
        SharedState { completed: true, waker: None, ..state }
    } else {
        state
    }
}

/// The states of all timers after the timer interrupt looked at the
/// timers `ids`, first to last.
pub open spec fn timers_after(states: Seq<SharedState>, ids: Seq<usize>, now: u64) -> Seq<SharedState>
    decreases ids.len(),
{
    if ids.len() == 0 {
        states
    } else {
        let before = timers_after(states, ids.drop_last(), now);
        before.update(ids.last() as int, timer_checked(before[ids.last() as int], now))
    }
}

/// The timers of `ids` that have not expired at `now`, in their order.
pub open spec fn timers_waiting(states: Seq<SharedState>, ids: Seq<usize>, now: u64) -> Seq<usize>
    decreases ids.len(),
{
    if ids.len() == 0 {
        Seq::<usize>::empty()
    } else {
        let before = timers_waiting(states, ids.drop_last(), now);
        if now >= timers_after(states, ids.drop_last(), now)[ids.last() as int].expired_monotonic {
            before
        } else {
            before.push(ids.last())
        }
    }
}

/// The tasks to wake for the timers of `ids` that have expired at `now`,
/// in the order of the timers.
pub open spec fn timers_woken(states: Seq<SharedState>, ids: Seq<usize>, now: u64) -> Seq<usize>
    decreases ids.len(),
{
    if ids.len() == 0 {
        Seq::<usize>::empty()
    } else {
        let before = timers_woken(states, ids.drop_last(), now);
        let state = timers_after(states, ids.drop_last(), now)[ids.last() as int];
        if now >= state.expired_monotonic && state.waker is Some {
            before.push(state.waker.unwrap())
        } else {
            before
        }
    }
}

impl TimerRegistry {
    /// The states of the timers, by handle.
    pub closed spec fn states(&self) -> Seq<SharedState> {
        self.states@
    }

    /// The handles of the timers that wait to expire, oldest first.
    pub closed spec fn waiting(&self) -> Seq<usize> {
        queue_items(self.queue)
    }

    /// The number of timers that the queue was made for.
    pub closed spec fn capacity(&self) -> nat {
        queue_capacity(self.queue)
    }

    /// The invariant of the registry: every handle in the queue is one of a
    /// timer, no timer is in the queue twice, and the queue is within its
    /// capacity.
    pub open spec fn wf(&self) -> bool {
        &&& self.capacity() == MAX_REGISTERED_TIMERS
        &&& self.waiting().len() <= MAX_REGISTERED_TIMERS
        &&& self.waiting().no_duplicates()
        &&& forall|j: int| 0 <= j < self.waiting().len() ==> #[trigger] self.waiting()[j] < self.states().len()
    }

    pub fn new() -> (r: TimerRegistry)
        ensures
            r.wf(),
            r.states() == Seq::<SharedState>::empty(),
            r.waiting() == Seq::<usize>::empty(),
    {
        TimerRegistry { states: Vec::new(), queue: queue_new(MAX_REGISTERED_TIMERS) }
    }

    /// The state of the timer `id`.
    pub fn get(&self, id: usize) -> (r: Option<SharedState>)
        ensures
            r == (if id < self.states().len() {
                Some(self.states()[id as int])
            } else {
                None
            }),
    {
        if id < self.states.len() {
            Some(self.states[id])
        } else {
            None
        }
    }
}

impl TimerFuture {
    /// Makes a timer that expires `duration` nanoseconds after `now` and
    /// registers it.
    pub fn new(registry: &mut TimerRegistry, now: u64, duration: u64) -> (r: Result<TimerFuture, TimerError>)
        requires
            old(registry).wf(),
            now + duration <= u64::MAX,
        ensures
            final(registry).wf(),
            r is Err <==> old(registry).waiting().len() >= MAX_REGISTERED_TIMERS,
            r is Err ==> final(registry).states() == old(registry).states() && final(registry).waiting() == old(
                registry,
            ).waiting(),
            r matches Ok(timer) ==> {
                &&& timer.id == old(registry).states().len()
                &&& final(registry).states() == old(registry).states().push(
                    SharedState { completed: false, expired_monotonic: (now + duration) as u64, waker: None },
                )
                &&& final(registry).waiting() == old(registry).waiting().push(timer.id)
            },
    {
        if queue_len(&registry.queue) >= MAX_REGISTERED_TIMERS {
            return Err(TimerError::TooManyTimers);
        }
        let id: usize = registry.states.len();
        let ghost before = queue_items(registry.queue);
        registry.states.push(SharedState { completed: false, expired_monotonic: now + duration, waker: None });
        let pushed = queue_push(&mut registry.queue, id);
        assert(pushed);
        proof {
            let after = queue_items(registry.queue);
            assert forall|i: int, j: int| 0 <= i < after.len() && 0 <= j < after.len() && i != j implies after[i]
                != after[j] by {
                if i < before.len() {
                    assert(before[i] < id);
                }
                if j < before.len() {
                    assert(before[j] < id);
                }
            }
        }
        Ok(TimerFuture { id })
    }

    /// Asks whether the timer has expired. If it has not, the task `waker`
    /// is recorded as the one to wake when it does.
    pub fn poll(&self, registry: &mut TimerRegistry, waker: usize) -> (ready: bool)
        requires
            old(registry).wf(),
            self.id < old(registry).states().len(),
        ensures
            final(registry).wf(),
            ready == old(registry).states()[self.id as int].completed,
            final(registry).waiting() == old(registry).waiting(),
            final(registry).states() == (if ready {
                old(registry).states()
            } else {
                old(registry).states().update(
                    self.id as int,
                    SharedState { waker: Some(waker), ..old(registry).states()[self.id as int] },
                )
            }),
    {
        let index: usize = self.id;
        let state = registry.states[index];
        if state.completed {
            true
        } else {
            registry.states[index] = SharedState { waker: Some(waker), ..state };
            false
        }
    }
}

/// What the timer interrupt does at `now`: it goes through the registered
/// timers once, oldest first. A timer that has expired is completed and
/// leaves the queue, and the task that waits for it is to be woken; the
/// others stay in the queue in their order. The result is the tasks to
/// wake, in the order of their timers.
pub fn check_timerfutures_from_interrupt(registry: &mut TimerRegistry, now: u64) -> (woken: Vec<usize>)
    requires
        old(registry).wf(),
    ensures
        final(registry).wf(),
        final(registry).states() == timers_after(old(registry).states(), old(registry).waiting(), now),
        final(registry).waiting() == timers_waiting(old(registry).states(), old(registry).waiting(), now),
        woken@ == timers_woken(old(registry).states(), old(registry).waiting(), now),
{
    let mut woken: Vec<usize> = Vec::new();
    let ghost ids = queue_items(registry.queue);
    let ghost states0 = registry.states@;
    let count: usize = queue_len(&registry.queue);
    let mut i: usize = 0;
    assert(ids.subrange(0, 0) =~= Seq::<usize>::empty());
    assert(queue_items(registry.queue) =~= ids.subrange(0, ids.len() as int) + Seq::<usize>::empty());
    while i < count
        invariant
            i <= count,
            count == ids.len(),
            count <= MAX_REGISTERED_TIMERS,
            queue_capacity(registry.queue) == MAX_REGISTERED_TIMERS,
            registry.states@.len() == states0.len(),
            forall|j: int| 0 <= j < ids.len() ==> #[trigger] ids[j] < states0.len(),
            ids.no_duplicates(),
            registry.states@ == timers_after(states0, ids.subrange(0, i as int), now),
            queue_items(registry.queue) == ids.subrange(i as int, ids.len() as int) + timers_waiting(
                states0,
                ids.subrange(0, i as int),
                now,
            ),
            timers_waiting(states0, ids.subrange(0, i as int), now).len() <= i,
            woken@ == timers_woken(states0, ids.subrange(0, i as int), now),
        decreases count - i,
    {
        let ghost done = ids.subrange(0, i as int);
        let ghost kept = timers_waiting(states0, done, now);
        proof {
            assert(ids.subrange(0, i + 1).drop_last() =~= done);
            assert(ids.subrange(0, i + 1).last() == ids[i as int]);
        }
        match queue_pop(&mut registry.queue) {
            Some(id) => {
                assert(id == ids[i as int]);
                assert(queue_items(registry.queue) =~= ids.subrange(i + 1, ids.len() as int) + kept);
                let index: usize = id;
                let state = registry.states[index];
                if now >= state.expired_monotonic {
                    registry.states[index] = SharedState { completed: true, waker: None, ..state };
                    match state.waker {
                        Some(task) => {
                            woken.push(task);
                        },
                        None => {},
                    }
                } else {
                    let pushed = queue_push(&mut registry.queue, id);
                    assert(pushed);
                    assert(queue_items(registry.queue) =~= ids.subrange(i + 1, ids.len() as int) + kept.push(id));
                    assert(registry.states@ =~= timers_after(states0, ids.subrange(0, i + 1), now));
                }
            },
            None => {
                assert(false);
            },
        }
        i += 1;
    }
    proof {
        assert(ids.subrange(0, ids.len() as int) =~= ids);
        assert(ids.subrange(ids.len() as int, ids.len() as int) =~= Seq::<usize>::empty());
        assert(queue_items(registry.queue) =~= timers_waiting(states0, ids, now));
        lemma_waiting_are_timers(states0, ids, now);
    }
    woken
}

/// The timers that stay in the queue are among those that were in it, and
/// none is there twice if none was.
pub proof fn lemma_waiting_are_timers(states: Seq<SharedState>, ids: Seq<usize>, now: u64)
    requires
        forall|j: int| 0 <= j < ids.len() ==> #[trigger] ids[j] < states.len(),
    ensures
        timers_after(states, ids, now).len() == states.len(),
        timers_waiting(states, ids, now).len() <= ids.len(),
        forall|j: int|
            0 <= j < timers_waiting(states, ids, now).len() ==> #[trigger] timers_waiting(states, ids, now)[j]
                < states.len(),
        forall|j: int|
            0 <= j < timers_waiting(states, ids, now).len() ==> ids.contains(
                #[trigger] timers_waiting(states, ids, now)[j],
            ),
        ids.no_duplicates() ==> timers_waiting(states, ids, now).no_duplicates(),
    decreases ids.len(),
{
    if ids.len() > 0 {
        let rest = ids.drop_last();
        let last = ids.last();
        lemma_waiting_are_timers(states, rest, now);
        let kept = timers_waiting(states, rest, now);
        let all = timers_waiting(states, ids, now);
        assert forall|j: int| 0 <= j < all.len() implies ids.contains(#[trigger] all[j]) by {
            if j < kept.len() {
                assert(rest.contains(kept[j]));
                let k = choose|k: int| 0 <= k < rest.len() && rest[k] == kept[j];
                assert(ids[k] == kept[j]);
            } else {
                assert(ids[ids.len() - 1] == all[j]);
            }
        }
        if ids.no_duplicates() {
            assert(rest.no_duplicates());
            assert forall|i: int, j: int| 0 <= i < all.len() && 0 <= j < all.len() && i != j implies all[i]
                != all[j] by {
                if i < kept.len() && j < kept.len() {
                } else if i < kept.len() {
                    assert(rest.contains(kept[i]));
                    let k = choose|k: int| 0 <= k < rest.len() && rest[k] == kept[i];
                    assert(ids[k] != ids[ids.len() - 1]);
                } else if j < kept.len() {
                    assert(rest.contains(kept[j]));
                    let k = choose|k: int| 0 <= k < rest.len() && rest[k] == kept[j];
                    assert(ids[k] != ids[ids.len() - 1]);
                }
            }
        }
    }
}

} // verus!
