//! The dispatcher: one queue of messages and a fixed number of workers that
//! take from it. A worker takes one message at a time and nothing more until
//! it has finished with the connection, so that no more connections are in
//! hand than there are workers.
//!
//! The dispatcher keeps the books; it neither waits nor runs anything. Whoever
//! holds it lets one caller in at a time.
use crate::pool::message::Message;
use vstd::prelude::*;

verus! {

/// What a worker is doing.
#[derive(Debug, Clone, Copy, PartialEq, Eq, Structural)]
pub enum WorkerState {
    /// The worker waits for a message.
    Idle,
    /// The worker has a connection in hand.
    Busy,
    /// The worker has taken `Terminate` and stopped.
    Gone,
}

/// Number of workers in `states` that have a connection in hand.
pub open spec fn count_busy(states: Seq<WorkerState>) -> nat
    decreases states.len(),
{
    if states.len() == 0 {
        0
    } else {
        count_busy(states.drop_last()) + if states.last() == WorkerState::Busy {
            1nat
        } else {
            0nat
        }
    }
}

/// No more workers have a connection in hand than there are workers.
pub proof fn lemma_count_busy_bound(states: Seq<WorkerState>)
    ensures
        count_busy(states) <= states.len(),
    decreases states.len(),
{
    if states.len() > 0 {
        lemma_count_busy_bound(states.drop_last());
    }
}

/// A worker that takes a connection adds one to the connections in hand; one
/// that leaves it takes one away.
pub proof fn lemma_count_busy_update(states: Seq<WorkerState>, i: int, state: WorkerState)
    requires
        0 <= i < states.len(),
    ensures
        count_busy(states.update(i, state)) == count_busy(states) - (if states[i]
            == WorkerState::Busy {
            1int
        } else {
            0int
        }) + (if state == WorkerState::Busy {
            1int
        } else {
            0int
        }),
    decreases states.len(),
{
    let updated = states.update(i, state);
    if i == states.len() - 1 {
        assert(updated.drop_last() =~= states.drop_last());
    } else {
        lemma_count_busy_update(states.drop_last(), i, state);
        assert(updated.drop_last() =~= states.drop_last().update(i, state));
    }
}

/// Every worker has a connection in hand exactly when as many connections are
/// in hand as there are workers.
pub proof fn lemma_count_busy_all(states: Seq<WorkerState>)
    ensures
        count_busy(states) == states.len() <==> (forall|i: int|
            0 <= i < states.len() ==> states[i] == WorkerState::Busy),
    decreases states.len(),
{
    if states.len() > 0 {
        let front = states.drop_last();
        lemma_count_busy_all(front);
        lemma_count_busy_bound(front);
        if count_busy(states) == states.len() {
            assert forall|i: int| 0 <= i < states.len() implies states[i] == WorkerState::Busy by {
                if i < front.len() {
                    assert(front[i] == WorkerState::Busy);
                }
            }
        }
        if forall|i: int| 0 <= i < states.len() ==> states[i] == WorkerState::Busy {
            assert forall|i: int| 0 <= i < front.len() implies front[i] == WorkerState::Busy by {
                assert(states[i] == WorkerState::Busy);
            }
        }
    }
}

/// A pool of which every worker has a connection in hand hands out nothing:
/// where as many connections are in hand as there are workers, no worker
/// waits, so that a message that comes then stays in the queue until a worker
/// has finished.
pub proof fn lemma_saturated(states: Seq<WorkerState>, worker: int)
    requires
        count_busy(states) == states.len(),
        0 <= worker < states.len(),
    ensures
        states[worker] != WorkerState::Idle,
{
    lemma_count_busy_all(states);
}

/// The state of a worker that has taken `message`.
pub open spec fn state_after<C>(message: Message<C>) -> WorkerState {
    match message {
        Message::NewStream(_) => WorkerState::Busy,
        Message::Terminate => WorkerState::Gone,
    }
}

/// The books of a pool: what waits, and what each worker is doing.
pub struct ThreadPool<C> {
    queue: Vec<Message<C>>,
    workers: Vec<WorkerState>,
}

impl<C> ThreadPool<C> {
    /// The messages that no worker has taken yet, the oldest first.
    pub closed spec fn pending(&self) -> Seq<Message<C>> {
        self.queue@
    }

    /// What each worker is doing.
    pub closed spec fn states(&self) -> Seq<WorkerState> {
        self.workers@
    }

    /// Number of workers.
    pub open spec fn size(&self) -> nat {
        self.states().len()
    }

    /// Number of connections in hand.
    pub open spec fn in_flight(&self) -> nat {
        count_busy(self.states())
    }

    /// Whether every worker has stopped.
    pub open spec fn all_gone(&self) -> bool {
        forall|i: int| 0 <= i < self.states().len() ==> self.states()[i] == WorkerState::Gone
    }

    /// A pool of `size` workers that wait, and an empty queue.
    pub fn new(size: usize) -> (r: ThreadPool<C>)
        requires
            size > 0,
        ensures
            r.pending() == Seq::<Message<C>>::empty(),
            r.states() == Seq::new(size as nat, |i: int| WorkerState::Idle),
            r.in_flight() == 0,
    {
        let mut workers: Vec<WorkerState> = Vec::new();
        let mut id: usize = 0;
        while id < size
            invariant
                id <= size,
                workers@ == Seq::new(id as nat, |i: int| WorkerState::Idle),
                count_busy(workers@) == 0,
            decreases size - id,
        {
            let ghost before = workers@;
            workers.push(WorkerState::Idle);
            proof {
                assert(workers@.drop_last() =~= before);
                assert(workers@ =~= Seq::new((id + 1) as nat, |i: int| WorkerState::Idle));
            }
            id += 1;
        }
        ThreadPool { queue: Vec::new(), workers }
    }

    /// Number of workers.
    pub fn workers(&self) -> (r: usize)
        ensures
            r == self.size(),
    {
        self.workers.len()
    }

    /// Number of messages that wait.
    pub fn queued(&self) -> (r: usize)
        ensures
            r == self.pending().len(),
    {
        self.queue.len()
    }

    /// What `worker` is doing.
    pub fn state(&self, worker: usize) -> (r: WorkerState)
        requires
            worker < self.size(),
        ensures
            r == self.states()[worker as int],
    {
        self.workers[worker]
    }

    /// Number of connections in hand: never more than there are workers.
    pub fn active(&self) -> (r: usize)
        ensures
            r == self.in_flight(),
            r <= self.size(),
    {
        let mut n: usize = 0;
        let mut i: usize = 0;
        while i < self.workers.len()
            invariant
                i <= self.workers@.len(),
                n == count_busy(self.workers@.take(i as int)),
                n <= i,
            decreases self.workers@.len() - i,
        {
            proof {
                assert(self.workers@.take(i + 1).drop_last() =~= self.workers@.take(i as int));
            }
            if self.workers[i] == WorkerState::Busy {
                n += 1;
            }
            i += 1;
        }
        proof {
            assert(self.workers@.take(i as int) =~= self.workers@);
        }
        n
    }

    /// Whether every worker has stopped.
    pub fn stopped(&self) -> (r: bool)
        ensures
            r == self.all_gone(),
    {
        let mut i: usize = 0;
        while i < self.workers.len()
            invariant
                i <= self.workers@.len(),
                forall|j: int| 0 <= j < i ==> self.workers@[j] == WorkerState::Gone,
            decreases self.workers@.len() - i,
        {
            if self.workers[i] != WorkerState::Gone {
                assert(self.states()[i as int] != WorkerState::Gone);
                return false;
            }
            i += 1;
        }
        true
    }

    /// Queues `stream` behind what waits already. A pool whose workers have
    /// all stopped takes nothing and hands `stream` back.
    pub fn execute(&mut self, stream: C) -> (r: Result<(), C>)
        ensures
            final(self).states() == old(self).states(),
            match r {
                Ok(_) => {
                    &&& !old(self).all_gone()
                    &&& final(self).pending() == old(self).pending().push(
                        Message::NewStream(stream),
                    )
                },
                Err(back) => {
                    &&& old(self).all_gone()
                    &&& back == stream
                    &&& final(self).pending() == old(self).pending()
                },
            },
    {
        if self.stopped() {
            return Err(stream);
        }
        self.queue.push(Message::NewStream(stream));
        Ok(())
    }

    /// Hands `worker` the oldest message that waits, if `worker` waits and a
    /// message does. With a connection the worker has it in hand from now on;
    /// with `Terminate` it has stopped.
    pub fn receive(&mut self, worker: usize) -> (r: Option<Message<C>>)
        ensures
            match r {
                Some(message) => {
                    &&& worker < old(self).size()
                    &&& old(self).states()[worker as int] == WorkerState::Idle
                    &&& old(self).pending().len() > 0
                    &&& message == old(self).pending()[0]
                    &&& final(self).pending() == old(self).pending().drop_first()
                    &&& final(self).states() == old(self).states().update(
                        worker as int,
                        state_after(message),
                    )
                    &&& final(self).in_flight() == old(self).in_flight() + if message
                        is NewStream {
                        1nat
                    } else {
                        0nat
                    }
                },
                None => {
                    &&& !(worker < old(self).size() && old(self).states()[worker as int]
                        == WorkerState::Idle && old(self).pending().len() > 0)
                    &&& final(self).pending() == old(self).pending()
                    &&& final(self).states() == old(self).states()
                },
            },
    {
        if worker >= self.workers.len() || self.workers[worker] != WorkerState::Idle {
            return None;
        }
        if self.queue.len() == 0 {
            return None;
        }
        proof {
            lemma_count_busy_update(self.states(), worker as int, WorkerState::Busy);
            lemma_count_busy_update(self.states(), worker as int, WorkerState::Gone);
        }
        let message = self.queue.remove(0);
        match message {
            Message::NewStream(_) => {
                self.workers.set(worker, WorkerState::Busy);
            },
            Message::Terminate => {
                self.workers.set(worker, WorkerState::Gone);
            },
        }
        proof {
            assert(self.queue@ =~= old(self).pending().drop_first());
        }
        Some(message)
    }

    /// Notes that `worker` has finished with its connection and waits again.
    pub fn finish(&mut self, worker: usize)
        ensures
            final(self).pending() == old(self).pending(),
            final(self).states() == if worker < old(self).size() && old(self).states()[worker as int]
                == WorkerState::Busy {
                old(self).states().update(worker as int, WorkerState::Idle)
            } else {
                old(self).states()
            },
            final(self).in_flight() == if worker < old(self).size() && old(self).states()[worker as int]
                == WorkerState::Busy {
                (old(self).in_flight() - 1) as nat
            } else {
                old(self).in_flight()
            },
    {
        proof {
            if worker < self.size() {
                lemma_count_busy_update(self.states(), worker as int, WorkerState::Idle);
                lemma_count_busy_bound(self.states());
            }
        }
        if worker < self.workers.len() && self.workers[worker] == WorkerState::Busy {
            self.workers.set(worker, WorkerState::Idle);
        }
    }

    /// Queues one `Terminate` for each worker, behind what waits already.
    pub fn shutdown(&mut self)
        ensures
            final(self).states() == old(self).states(),
            final(self).pending() == old(self).pending() + Seq::new(
                old(self).size(),
                |i: int| Message::<C>::Terminate,
            ),
    {
        let n = self.workers.len();
        let mut i: usize = 0;
        while i < n
            invariant
                i <= n,
                n == old(self).size(),
                self.workers@ == old(self).states(),
                self.queue@ == old(self).pending() + Seq::new(
                    i as nat,
                    |i: int| Message::<C>::Terminate,
                ),
            decreases n - i,
        {
            self.queue.push(Message::Terminate);
            assert(self.queue@ =~= old(self).pending() + Seq::new(
                (i + 1) as nat,
                |i: int| Message::<C>::Terminate,
            ));
            i += 1;
        }
    }
}

} // verus!
