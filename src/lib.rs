//! A fixed-size worker pool: the job-queue protocol, the worker state machine
//! and the coordinated shutdown, as a verified state machine that a host runs
//! under a lock with real threads.
pub mod channel;
pub mod message;
pub mod pool;
pub mod worker;
