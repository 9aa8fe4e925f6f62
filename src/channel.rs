//! The task channel: a first-in, first-out queue of control messages.
use std::collections::VecDeque;
use vstd::prelude::*;

use crate::message::Message;

verus! {

/// The queue that connects the submitting side to the workers. Messages leave
/// it in the order in which they were sent, each one exactly once.
pub struct TaskChannel<J> {
    items: VecDeque<Message<J>>,
}

impl<J> View for TaskChannel<J> {
    type V = Seq<Message<J>>;

    closed spec fn view(&self) -> Seq<Message<J>> {
        self.items@
    }
}

impl<J> TaskChannel<J> {
    /// An empty channel.
    pub fn new() -> (r: Self)
        ensures
            r@ == Seq::<Message<J>>::empty(),
    {
        TaskChannel { items: VecDeque::new() }
    }

    /// Enqueues `m` at the tail; never blocks.
    pub fn send(&mut self, m: Message<J>)
        ensures
            final(self)@ == old(self)@.push(m),
    {
        self.items.push_back(m);
    }

    /// Removes and returns the message at the head, if there is one.
    pub fn receive(&mut self) -> (r: Option<Message<J>>)
        ensures
            old(self)@.len() == 0 ==> r is None && final(self)@ == old(self)@,
            old(self)@.len() > 0 ==> r == Some(old(self)@[0]) && final(self)@ == old(self)@.drop_first(),
    {
        self.items.pop_front()
    }

    /// The number of messages waiting.
    pub fn len(&self) -> (r: usize)
        ensures
            r == self@.len(),
    {
        self.items.len()
    }

    pub fn is_empty(&self) -> (r: bool)
        ensures
            r == (self@.len() == 0),
    {
        self.items.len() == 0
    }
}

} // verus!
