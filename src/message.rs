//! The values carried over the task channel.
use vstd::prelude::*;

verus! {

/// A control message: a job to run, or the signal that ends one worker.
pub enum Message<J> {
    NewJob(J),
    Terminate,
}

} // verus!
