//! One worker of the pool, as a state machine over the messages it receives.
use vstd::prelude::*;

use crate::message::Message;

verus! {

/// Where a worker stands in its loop.
#[derive(Clone, Copy, Debug, PartialEq, Eq, Structural)]
pub enum WorkerState {
    /// Blocked on the channel, ready to take the next message.
    Idle,
    /// Running a job on its own thread.
    Executing,
    /// Told to stop; its loop has ended.
    Terminated,
}

/// A worker: its id, its state, and whether its thread has been joined.
#[derive(Clone, Copy, Debug, PartialEq, Eq, Structural)]
pub struct Worker {
    pub id: usize,
    pub state: WorkerState,
    pub joined: bool,
}

impl Worker {
    /// A worker that has just been spawned: blocked on the channel.
    pub fn new(id: usize) -> (r: Worker)
        ensures
            r.id == id,
            r.state == WorkerState::Idle,
            !r.joined,
    {
        Worker { id, state: WorkerState::Idle, joined: false }
    }

    /// What an idle worker does with the message it received: a job is handed
    /// back to be run on the worker's thread, and `Terminate` ends the worker.
    pub fn on_message<J>(&mut self, m: Message<J>) -> (r: Option<J>)
        requires
            old(self).state == WorkerState::Idle,
        ensures
            final(self).id == old(self).id,
            final(self).joined == old(self).joined,
            match m {
                Message::NewJob(j) => r == Some(j) && final(self).state == WorkerState::Executing,
                Message::Terminate => r is None && final(self).state == WorkerState::Terminated,
            },
    {
        match m {
            Message::NewJob(j) => {
                self.state = WorkerState::Executing;
                Some(j)
            },
            Message::Terminate => {
                self.state = WorkerState::Terminated;
                None
            },
        }
    }

    /// The job that this worker was running has returned.
    pub fn finish_job(&mut self)
        requires
            old(self).state == WorkerState::Executing,
        ensures
            *final(self) == (Worker { state: WorkerState::Idle, ..*old(self) }),
    {
        self.state = WorkerState::Idle;
    }

    /// The worker's thread has been joined; only a terminated worker can be.
    pub fn mark_joined(&mut self)
        requires
            old(self).state == WorkerState::Terminated,
        ensures
            *final(self) == (Worker { joined: true, ..*old(self) }),
    {
        self.joined = true;
    }
}

} // verus!
