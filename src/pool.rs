//! The pool: a fixed set of workers sharing one task channel, job submission,
//! and the shutdown that sends one `Terminate` per worker and then joins them.
use vstd::prelude::*;

use crate::channel::TaskChannel;
use crate::message::Message;
use crate::worker::{Worker, WorkerState};

verus! {

/// The number of terminated workers in `ws`.
spec fn count_terminated(ws: Seq<Worker>) -> nat
    decreases ws.len(),
{
    if ws.len() == 0 {
        0
    } else {
        count_terminated(ws.drop_last()) + if ws.last().state == WorkerState::Terminated {
            1nat
        } else {
            0nat
        }
    }
}

/// `n` messages that are all `Terminate`.
pub open spec fn terminates<J>(n: nat) -> Seq<Message<J>> {
    Seq::new(n, |i: int| Message::Terminate)
}

/// `ws` with worker `i` in state `s` and all else kept.
pub open spec fn with_state(ws: Seq<Worker>, i: int, s: WorkerState) -> Seq<Worker> {
    ws.update(i, Worker { state: s, ..ws[i] })
}

proof fn lemma_count_update(ws: Seq<Worker>, i: int, w: Worker)
    requires
        0 <= i < ws.len(),
    ensures
        count_terminated(ws.update(i, w)) + (if ws[i].state == WorkerState::Terminated {
            1int
        } else {
            0int
        }) == count_terminated(ws) + (if w.state == WorkerState::Terminated {
            1int
        } else {
            0int
        }),
    decreases ws.len(),
{
    let u = ws.update(i, w);
    if i == ws.len() - 1 {
        assert(u.drop_last() =~= ws.drop_last());
    } else {
        assert(u.drop_last() =~= ws.drop_last().update(i, w));
        lemma_count_update(ws.drop_last(), i, w);
    }
}

proof fn lemma_count_bounds(ws: Seq<Worker>)
    ensures
        count_terminated(ws) <= ws.len(),
        (forall|i: int| 0 <= i < ws.len() ==> ws[i].state == WorkerState::Terminated)
            <==> count_terminated(ws) == ws.len(),
        (forall|i: int| 0 <= i < ws.len() ==> ws[i].state != WorkerState::Terminated)
            ==> count_terminated(ws) == 0,
    decreases ws.len(),
{
    if ws.len() > 0 {
        let d = ws.drop_last();
        lemma_count_bounds(d);
        if forall|i: int| 0 <= i < ws.len() ==> ws[i].state == WorkerState::Terminated {
            assert forall|i: int| 0 <= i < d.len() implies d[i].state == WorkerState::Terminated by {
                assert(ws[i] == d[i]);
            }
        }
        if count_terminated(ws) == ws.len() {
            assert forall|i: int| 0 <= i < ws.len() implies ws[i].state == WorkerState::Terminated by {
                if i < d.len() {
                    assert(ws[i] == d[i]);
                }
            }
        }
        if forall|i: int| 0 <= i < ws.len() ==> ws[i].state != WorkerState::Terminated {
            assert forall|i: int| 0 <= i < d.len() implies d[i].state != WorkerState::Terminated by {
                assert(ws[i] == d[i]);
            }
        }
    }
}

/// A pool of a fixed number of workers that take jobs of type `J` from one
/// shared first-in, first-out channel.
pub struct ThreadPool<J> {
    workers: Vec<Worker>,
    channel: TaskChannel<J>,
    tearing_down: bool,
    /// Every message sent so far, in order.
    sent: Ghost<Seq<Message<J>>>,
    /// How many of them have been taken by a worker.
    received: Ghost<nat>,
    /// How many jobs were sent; the `Terminate` messages follow them.
    jobs: Ghost<nat>,
}

impl<J> ThreadPool<J> {
    /// The workers, indexed by id.
    pub closed spec fn workers(&self) -> Seq<Worker> {
        self.workers@
    }

    /// The messages waiting in the channel, head first.
    pub closed spec fn pending(&self) -> Seq<Message<J>> {
        self.channel@
    }

    /// Every message sent since the pool was made.
    pub closed spec fn sent(&self) -> Seq<Message<J>> {
        self.sent@
    }

    /// The messages that workers have taken, in the order they were taken.
    pub closed spec fn delivered(&self) -> Seq<Message<J>> {
        self.sent@.take(self.received@ as int)
    }

    /// Whether teardown has begun.
    pub closed spec fn tearing_down(&self) -> bool {
        self.tearing_down
    }

    spec fn wf_workers(&self) -> bool {
        &&& self.workers@.len() >= 1
        &&& forall|i: int|
            0 <= i < self.workers@.len() ==> #[trigger] self.workers@[i].id == i && (
            self.workers@[i].joined ==> self.workers@[i].state == WorkerState::Terminated)
    }

    spec fn wf_channel(&self) -> bool {
        &&& self.received@ <= self.sent@.len()
        &&& self.channel@ == self.sent@.skip(self.received@ as int)
    }

    spec fn wf_order(&self) -> bool {
        &&& self.jobs@ <= self.sent@.len()
        &&& forall|k: int| 0 <= k < self.jobs@ ==> #[trigger] self.sent@[k] is NewJob
        &&& forall|k: int| self.jobs@ <= k < self.sent@.len() ==> #[trigger] self.sent@[k] is Terminate
        &&& self.sent@.len() == self.jobs@ + if self.tearing_down {
            self.workers@.len()
        } else {
            0
        }
    }

    spec fn wf_count(&self) -> bool {
        count_terminated(self.workers@) == if self.received@ > self.jobs@ {
            (self.received@ - self.jobs@) as nat
        } else {
            0
        }
    }

    /// The pool's invariant.
    pub closed spec fn wf(&self) -> bool {
        &&& self.wf_workers()
        &&& self.wf_channel()
        &&& self.wf_order()
        &&& self.wf_count()
    }

    /// Makes a pool of `size` workers, each ready to receive.
    pub fn new(size: usize) -> (r: ThreadPool<J>)
        requires
            size >= 1,
        ensures
            r.wf(),
            r.workers().len() == size,
            forall|i: int|
                0 <= i < size ==> #[trigger] r.workers()[i] == (Worker {
                    id: i as usize,
                    state: WorkerState::Idle,
                    joined: false,
                }),
            r.sent() == Seq::<Message<J>>::empty(),
            r.pending() == Seq::<Message<J>>::empty(),
            !r.tearing_down(),
    {
        let mut workers: Vec<Worker> = Vec::with_capacity(size);
        let mut id: usize = 0;
        while id < size
            invariant
                id <= size,
                workers@.len() == id,
                forall|i: int|
                    0 <= i < id ==> #[trigger] workers@[i] == (Worker {
                        id: i as usize,
                        state: WorkerState::Idle,
                        joined: false,
                    }),
            decreases size - id,
        {
            workers.push(Worker::new(id));
            id = id + 1;
        }
        proof {
            lemma_count_bounds(workers@);
        }
        let r = ThreadPool {
            workers,
            channel: TaskChannel::new(),
            tearing_down: false,
            sent: Ghost(Seq::empty()),
            received: Ghost(0),
            jobs: Ghost(0),
        };
        assert(r.channel@ =~= r.sent@.skip(0));
        r
    }

    /// Submits `job`: it is wrapped as `NewJob` and sent at the tail of the
    /// channel. Nothing else changes, and the caller never waits.
    pub fn execute(&mut self, job: J)
        requires
            old(self).wf(),
            !old(self).tearing_down(),
        ensures
            final(self).wf(),
            final(self).workers() == old(self).workers(),
            final(self).sent() == old(self).sent().push(Message::NewJob(job)),
            final(self).pending() == old(self).pending().push(Message::NewJob(job)),
            final(self).delivered() == old(self).delivered(),
            !final(self).tearing_down(),
    {
        let ghost m = Message::NewJob(job);
        self.sent = Ghost(self.sent@.push(m));
        self.jobs = Ghost(self.jobs@ + 1);
        self.channel.send(Message::NewJob(job));
        assert(self.channel@ =~= self.sent@.skip(self.received@ as int));
        assert(self.sent@.take(self.received@ as int) =~= old(self).sent@.take(self.received@ as int));
        assert(self.wf_workers());
        assert(self.wf_channel());
        assert(self.wf_order());
        assert(self.wf_count());
    }

    /// Worker `id`, idle, takes the message at the head of the channel. A job
    /// is handed back to be run on that worker's thread, which then counts as
    /// executing; `Terminate` ends the worker.
    pub fn receive(&mut self, id: usize) -> (r: Option<J>)
        requires
            old(self).wf(),
            id < old(self).workers().len(),
            old(self).workers()[id as int].state == WorkerState::Idle,
            old(self).pending().len() > 0,
        ensures
            final(self).wf(),
            final(self).sent() == old(self).sent(),
            final(self).pending() == old(self).pending().drop_first(),
            final(self).delivered() == old(self).delivered().push(old(self).pending()[0]),
            final(self).tearing_down() == old(self).tearing_down(),
            match old(self).pending()[0] {
                Message::NewJob(j) => r == Some(j) && final(self).workers() == with_state(
                    old(self).workers(),
                    id as int,
                    WorkerState::Executing,
                ),
                Message::Terminate => r is None && final(self).workers() == with_state(
                    old(self).workers(),
                    id as int,
                    WorkerState::Terminated,
                ),
            },
    {
        let ghost k = self.received@ as int;
        let m = match self.channel.receive() {
            Some(m) => m,
            None => Message::Terminate,
        };
        assert(m == self.sent@[k]);
        let ghost gm = m;
        let mut w = self.workers[id];
        let r = w.on_message(m);
        proof {
            lemma_count_update(self.workers@, id as int, w);
        }
        self.workers.set(id, w);
        self.received = Ghost(self.received@ + 1);
        assert(self.channel@ =~= self.sent@.skip(self.received@ as int));
        assert(self.sent@.take(self.received@ as int) =~= old(self).sent@.take(k).push(self.sent@[k]));
        assert(self.workers@ =~= with_state(old(self).workers@, id as int, w.state));
        proof {
            if gm is Terminate {
                assert(k >= self.jobs@);
            } else {
                assert(k < self.jobs@);
            }
        }
        assert forall|i: int| 0 <= i < self.workers@.len() implies #[trigger] self.workers@[i].id == i
            && (self.workers@[i].joined ==> self.workers@[i].state == WorkerState::Terminated) by {
            assert(old(self).workers@[id as int].id == id);
            assert(old(self).workers@[id as int].state == WorkerState::Idle);
            if i != id {
                assert(self.workers@[i] == old(self).workers@[i]);
            }
        }
        assert(self.wf_workers());
        assert(self.wf_channel());
        assert(self.wf_order());
        assert(self.wf_count());
        r
    }

    /// The job that worker `id` was running has returned: it is idle again.
    pub fn finish_job(&mut self, id: usize)
        requires
            old(self).wf(),
            id < old(self).workers().len(),
            old(self).workers()[id as int].state == WorkerState::Executing,
        ensures
            final(self).wf(),
            final(self).workers() == with_state(old(self).workers(), id as int, WorkerState::Idle),
            final(self).sent() == old(self).sent(),
            final(self).pending() == old(self).pending(),
            final(self).delivered() == old(self).delivered(),
            final(self).tearing_down() == old(self).tearing_down(),
    {
        let mut w = self.workers[id];
        w.finish_job();
        proof {
            lemma_count_update(self.workers@, id as int, w);
        }
        self.workers.set(id, w);
        assert(self.workers@ =~= with_state(old(self).workers@, id as int, WorkerState::Idle));
    }

    /// Begins teardown: sends one `Terminate` per worker, after every job
    /// already sent.
    pub fn begin_teardown(&mut self)
        requires
            old(self).wf(),
            !old(self).tearing_down(),
        ensures
            final(self).wf(),
            final(self).tearing_down(),
            final(self).workers() == old(self).workers(),
            final(self).sent() == old(self).sent() + terminates::<J>(old(self).workers().len()),
            final(self).pending() == old(self).pending() + terminates::<J>(
                old(self).workers().len(),
            ),
            final(self).delivered() == old(self).delivered(),
    {
        let n = self.workers.len();
        let mut i: usize = 0;
        while i < n
            invariant
                i <= n,
                n == self.workers@.len(),
                self.workers@ == old(self).workers@,
                self.received@ == old(self).received@,
                self.jobs@ == old(self).jobs@,
                !self.tearing_down,
                self.sent@ == old(self).sent@ + terminates::<J>(i as nat),
                self.channel@ == old(self).channel@ + terminates::<J>(i as nat),
            decreases n - i,
        {
            self.channel.send(Message::Terminate);
            self.sent = Ghost(self.sent@.push(Message::Terminate));
            i = i + 1;
            assert(self.sent@ =~= old(self).sent@ + terminates::<J>(i as nat));
            assert(self.channel@ =~= old(self).channel@ + terminates::<J>(i as nat));
        }
        self.tearing_down = true;
        assert(self.channel@ =~= self.sent@.skip(self.received@ as int));
        assert(self.sent@.take(self.received@ as int) =~= old(self).sent@.take(self.received@ as int));
        assert forall|k: int| self.jobs@ <= k < self.sent@.len() implies #[trigger] self.sent@[k] is Terminate by {
            assert(self.sent@[k] == terminates::<J>(n as nat)[k - old(self).sent@.len()]);
        }
        assert forall|k: int| 0 <= k < self.jobs@ implies #[trigger] self.sent@[k] is NewJob by {
            assert(self.sent@[k] == old(self).sent@[k]);
        }
        assert(self.wf_workers());
        assert(self.wf_channel());
        assert(self.wf_order());
        assert(self.wf_count());
    }

    /// Records that worker `id`'s thread has been joined.
    pub fn mark_joined(&mut self, id: usize)
        requires
            old(self).wf(),
            old(self).tearing_down(),
            id < old(self).workers().len(),
            old(self).workers()[id as int].state == WorkerState::Terminated,
        ensures
            final(self).wf(),
            final(self).workers() == old(self).workers().update(
                id as int,
                Worker { joined: true, ..old(self).workers()[id as int] },
            ),
            final(self).sent() == old(self).sent(),
            final(self).pending() == old(self).pending(),
            final(self).delivered() == old(self).delivered(),
            final(self).tearing_down(),
    {
        let mut w = self.workers[id];
        w.mark_joined();
        proof {
            lemma_count_update(self.workers@, id as int, w);
        }
        self.workers.set(id, w);
        assert forall|i: int| 0 <= i < self.workers@.len() implies #[trigger] self.workers@[i].id == i
            && (self.workers@[i].joined ==> self.workers@[i].state == WorkerState::Terminated) by {
            assert(old(self).workers@[id as int].id == id);
            if i != id {
                assert(self.workers@[i] == old(self).workers@[i]);
            }
        }
        assert(self.wf_workers());
        assert(self.wf_order());
    }
    /// The lowest id whose thread has not been joined yet, if any: teardown
    /// joins the workers one after another in order of id.
    pub fn next_to_join(&self) -> (r: Option<usize>)
        requires
            self.wf(),
        ensures
            match r {
                Some(i) => i < self.workers().len() && !self.workers()[i as int].joined && forall|
                    k: int,
                | 0 <= k < i ==> #[trigger] self.workers()[k].joined,
                None => forall|k: int| 0 <= k < self.workers().len() ==> #[trigger] self.workers()[k].joined,
            },
    {
        let mut i: usize = 0;
        while i < self.workers.len()
            invariant
                i <= self.workers@.len(),
                forall|k: int| 0 <= k < i ==> #[trigger] self.workers@[k].joined,
            decreases self.workers@.len() - i,
        {
            if !self.workers[i].joined {
                return Some(i);
            }
            i = i + 1;
        }
        None
    }

    /// Whether worker `id` is idle and a message is waiting for it.
    pub fn can_receive(&self, id: usize) -> (r: bool)
        ensures
            r == (id < self.workers().len() && self.workers()[id as int].state == WorkerState::Idle
                && self.pending().len() > 0),
    {
        id < self.workers.len() && self.workers[id].state == WorkerState::Idle
            && !self.channel.is_empty()
    }

    /// The number of workers, fixed when the pool was made.
    pub fn size(&self) -> (r: usize)
        ensures
            r == self.workers().len(),
    {
        self.workers.len()
    }

    /// Worker `id` as it stands.
    pub fn worker(&self, id: usize) -> (r: Worker)
        requires
            id < self.workers().len(),
        ensures
            r == self.workers()[id as int],
    {
        self.workers[id]
    }

    /// The number of messages waiting in the channel.
    pub fn pending_len(&self) -> (r: usize)
        ensures
            r == self.pending().len(),
    {
        self.channel.len()
    }

    /// Whether teardown has begun.
    pub fn is_tearing_down(&self) -> (r: bool)
        ensures
            r == self.tearing_down(),
    {
        self.tearing_down
    }
}

/// No message is lost or taken twice: what the workers have taken, followed
/// by what still waits in the channel, is exactly what was sent, in order.
/// Before teardown no worker has stopped, so each waiting job still has
/// workers to take it, and only jobs have been sent.
pub proof fn lemma_jobs_delivered_exactly_once<J>(p: ThreadPool<J>)
    requires
        p.wf(),
    ensures
        p.delivered() + p.pending() == p.sent(),
        !p.tearing_down() ==> forall|i: int|
            0 <= i < p.workers().len() ==> #[trigger] p.workers()[i].state != WorkerState::Terminated,
        !p.tearing_down() ==> forall|k: int| 0 <= k < p.sent().len() ==> #[trigger] p.sent()[k] is NewJob,
{
    assert(p.delivered() + p.pending() =~= p.sent());
    if !p.tearing_down() {
        lemma_count_bounds(p.workers@);
        if exists|i: int| 0 <= i < p.workers@.len() && #[trigger] p.workers@[i].state == WorkerState::Terminated {
            let i = choose|i: int| 0 <= i < p.workers@.len() && #[trigger] p.workers@[i].state == WorkerState::Terminated;
            lemma_count_positive(p.workers@, i);
        }
    }
}

proof fn lemma_count_positive(ws: Seq<Worker>, i: int)
    requires
        0 <= i < ws.len(),
        ws[i].state == WorkerState::Terminated,
    ensures
        count_terminated(ws) >= 1,
    decreases ws.len(),
{
    if i < ws.len() - 1 {
        assert(ws.drop_last()[i] == ws[i]);
        lemma_count_positive(ws.drop_last(), i);
    }
}

proof fn lemma_count_below<J>(p: ThreadPool<J>, i: int)
    requires
        p.wf(),
        0 <= i < p.workers().len(),
        p.workers()[i].state != WorkerState::Terminated,
    ensures
        count_terminated(p.workers()) < p.workers().len(),
{
    lemma_count_bounds(p.workers@);
}

/// Teardown does not cut the queue short: no job is ever sent after a
/// `Terminate`, and once every worker has stopped, every message that was
/// sent, each job submitted before teardown included, has been taken.
pub proof fn lemma_teardown_drains_queue<J>(p: ThreadPool<J>)
    requires
        p.wf(),
    ensures
        forall|i: int, j: int|
            0 <= i < j < p.sent().len() && #[trigger] p.sent()[i] is Terminate ==> #[trigger] p.sent()[j] is Terminate,
        (forall|i: int| 0 <= i < p.workers().len() ==> #[trigger] p.workers()[i].state == WorkerState::Terminated)
            ==> p.tearing_down() && p.pending().len() == 0 && p.delivered() == p.sent(),
{
    assert forall|i: int, j: int|
        0 <= i < j < p.sent().len() && #[trigger] p.sent()[i] is Terminate implies #[trigger] p.sent()[j] is Terminate by {
        if i < p.jobs@ {
            assert(p.sent@[i] is NewJob);
        }
    }
    if forall|i: int| 0 <= i < p.workers().len() ==> #[trigger] p.workers()[i].state == WorkerState::Terminated {
        lemma_count_bounds(p.workers@);
        assert(p.received@ == p.sent@.len());
        assert(p.delivered() =~= p.sent());
    }
}

/// Teardown always completes: once it has begun, a worker that is idle always
/// finds a message waiting, so none blocks for ever; and once every thread has
/// been joined, every worker has stopped and the channel is empty.
pub proof fn lemma_teardown_completes<J>(p: ThreadPool<J>)
    requires
        p.wf(),
        p.tearing_down(),
    ensures
        forall|i: int|
            0 <= i < p.workers().len() && #[trigger] p.workers()[i].state == WorkerState::Idle
                ==> p.pending().len() > 0,
        (forall|i: int| 0 <= i < p.workers().len() ==> #[trigger] p.workers()[i].joined) ==> (forall|
            i: int,
        | 0 <= i < p.workers().len() ==> #[trigger] p.workers()[i].state == WorkerState::Terminated)
            && p.pending().len() == 0,
{
    assert forall|i: int|
        0 <= i < p.workers().len() && #[trigger] p.workers()[i].state == WorkerState::Idle implies p.pending().len() > 0 by {
        lemma_count_below(p, i);
    }
    if forall|i: int| 0 <= i < p.workers().len() ==> #[trigger] p.workers()[i].joined {
        assert forall|i: int| 0 <= i < p.workers().len() implies #[trigger] p.workers()[i].state == WorkerState::Terminated by {
            assert(p.workers@[i].id == i);
        }
        lemma_teardown_drains_queue(p);
    }
}

} // verus!
