use worker_pool::channel::TaskChannel;
use worker_pool::message::Message;
use worker_pool::worker::{Worker, WorkerState};

#[test]
fn channel_is_first_in_first_out() {
    let mut ch: TaskChannel<u32> = TaskChannel::new();
    assert!(ch.is_empty());
    ch.send(Message::NewJob(1));
    ch.send(Message::Terminate);
    ch.send(Message::NewJob(2));
    assert_eq!(ch.len(), 3);
    assert!(matches!(ch.receive(), Some(Message::NewJob(1))));
    assert!(matches!(ch.receive(), Some(Message::Terminate)));
    assert!(matches!(ch.receive(), Some(Message::NewJob(2))));
    assert!(ch.receive().is_none());
    assert_eq!(ch.len(), 0);
}

#[test]
fn worker_runs_a_job_then_stops() {
    let mut w = Worker::new(5);
    assert_eq!(w, Worker { id: 5, state: WorkerState::Idle, joined: false });
    assert_eq!(w.on_message(Message::NewJob('j')), Some('j'));
    assert_eq!(w.state, WorkerState::Executing);
    w.finish_job();
    assert_eq!(w.state, WorkerState::Idle);
    assert_eq!(w.on_message::<char>(Message::Terminate), None);
    assert_eq!(w.state, WorkerState::Terminated);
    w.mark_joined();
    assert_eq!(w, Worker { id: 5, state: WorkerState::Terminated, joined: true });
}
