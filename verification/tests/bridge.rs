use terra_link::bridge::{BoundedQueue, NetworkCommand, RecvOutcome, SendOutcome};

#[test]
fn backpressure_non_blocking() {
    // A full outbound queue drops the new command and returns at once; the
    // queued commands are untouched.
    let mut q: BoundedQueue<NetworkCommand> = BoundedQueue::new(2);
    assert_eq!(q.try_send(NetworkCommand::Dial("/ip4/1.1.1.1/tcp/1".to_string())), SendOutcome::Sent);
    assert_eq!(q.try_send(NetworkCommand::Dial("/ip4/2.2.2.2/tcp/2".to_string())), SendOutcome::Sent);
    assert_eq!(q.try_send(NetworkCommand::Dial("/ip4/3.3.3.3/tcp/3".to_string())), SendOutcome::Full);
    assert_eq!(q.len(), 2);
    assert_eq!(
        q.try_recv(),
        RecvOutcome::Item(NetworkCommand::Dial("/ip4/1.1.1.1/tcp/1".to_string()))
    );
    assert_eq!(
        q.try_recv(),
        RecvOutcome::Item(NetworkCommand::Dial("/ip4/2.2.2.2/tcp/2".to_string()))
    );
    assert_eq!(q.try_recv(), RecvOutcome::Empty);
}

#[test]
fn event_order_preserved() {
    // Items enqueued in order A, B, C come out in order A, B, C.
    let mut q: BoundedQueue<&str> = BoundedQueue::new(32);
    assert_eq!(q.try_send("A"), SendOutcome::Sent);
    assert_eq!(q.try_send("B"), SendOutcome::Sent);
    assert_eq!(q.try_send("C"), SendOutcome::Sent);
    assert_eq!(q.try_recv(), RecvOutcome::Item("A"));
    assert_eq!(q.try_recv(), RecvOutcome::Item("B"));
    assert_eq!(q.try_recv(), RecvOutcome::Item("C"));
    assert_eq!(q.try_recv(), RecvOutcome::Empty);
}

#[test]
fn closed_queue_signals_shutdown() {
    // Closing the sending half leaves queued items receivable, then reports
    // the orderly shutdown; further sends are refused.
    let mut q: BoundedQueue<u32> = BoundedQueue::new(4);
    assert_eq!(q.try_send(7), SendOutcome::Sent);
    q.close();
    assert_eq!(q.try_send(8), SendOutcome::Closed);
    assert_eq!(q.try_recv(), RecvOutcome::Item(7));
    assert_eq!(q.try_recv(), RecvOutcome::SenderDropped);
    assert_eq!(q.try_recv(), RecvOutcome::SenderDropped);
}

#[test]
fn forward_in_order_law() {
    // The verified pass-through law, exercised at runtime.
    let mut q: BoundedQueue<NetworkCommand> = BoundedQueue::new(3);
    let a = NetworkCommand::Listen("/ip4/0.0.0.0/tcp/1".to_string());
    let b = NetworkCommand::Listen("/ip4/0.0.0.0/tcp/2".to_string());
    let c = NetworkCommand::Listen("/ip4/0.0.0.0/tcp/3".to_string());
    let (x, y, z) = terra_link::bridge::forward_in_order(&mut q, a.clone(), b.clone(), c.clone());
    assert_eq!((x, y, z), (a, b, c));
    assert_eq!(q.try_recv(), RecvOutcome::Empty);
}
