use dispatch_core::channel::{Channel, Received};
use dispatch_core::job::{DispatchError, Job};

#[test]
fn test_channel() {
    let mut channel = Channel::open(None);
    channel.send(Job::new(1, 10)).unwrap();
    match channel.receive() {
        Received::Job(job) => assert_eq!(job.payload, 10),
        other => panic!("expected a job, got {:?}", other),
    }
}

#[test]
fn send_after_close_is_refused() {
    let mut channel = Channel::open(None);
    channel.close();
    assert_eq!(channel.send(Job::new(1, 10)), Err(DispatchError::ChannelClosed));
    assert_eq!(channel.len(), 0);
}

#[test]
fn receive_is_fifo() {
    let mut channel = Channel::open(None);
    for id in 1..=5u64 {
        channel.send(Job::new(id, id as i64 * 10)).unwrap();
    }
    for id in 1..=5u64 {
        assert_eq!(channel.receive(), Received::Job(Job::new(id, id as i64 * 10)));
    }
    assert_eq!(channel.receive(), Received::Empty);
}

#[test]
fn empty_open_channel_makes_the_receiver_wait() {
    let mut channel = Channel::open(None);
    assert_eq!(channel.receive(), Received::Empty);
    assert!(!channel.is_closed());
}

#[test]
fn close_keeps_the_backlog() {
    let mut channel = Channel::open(None);
    channel.send(Job::new(1, 1)).unwrap();
    channel.send(Job::new(2, 2)).unwrap();
    channel.send(Job::new(3, 3)).unwrap();
    channel.close();
    assert_eq!(channel.len(), 3);
    assert_eq!(channel.receive(), Received::Job(Job::new(1, 1)));
    assert_eq!(channel.receive(), Received::Job(Job::new(2, 2)));
    assert_eq!(channel.receive(), Received::Job(Job::new(3, 3)));
    assert_eq!(channel.receive(), Received::Closed);
    assert_eq!(channel.receive(), Received::Closed);
}

#[test]
fn bounded_channel_refuses_when_full() {
    let mut channel = Channel::open(Some(2));
    assert_eq!(channel.send(Job::new(1, 1)), Ok(()));
    assert_eq!(channel.send(Job::new(2, 2)), Ok(()));
    assert_eq!(channel.send(Job::new(3, 3)), Err(DispatchError::ChannelFull));
    assert_eq!(channel.len(), 2);
    assert_eq!(channel.receive(), Received::Job(Job::new(1, 1)));
    assert_eq!(channel.send(Job::new(3, 3)), Ok(()));
    assert_eq!(channel.len(), 2);
}

#[test]
fn capacity_is_kept() {
    assert_eq!(Channel::open(None).capacity(), None);
    assert_eq!(Channel::open(Some(3)).capacity(), Some(3));
}

#[test]
fn zero_capacity_is_always_full() {
    let mut channel = Channel::open(Some(0));
    assert_eq!(channel.send(Job::new(1, 1)), Err(DispatchError::ChannelFull));
    assert!(channel.is_empty());
}

#[test]
fn closed_wins_over_full() {
    let mut channel = Channel::open(Some(1));
    channel.send(Job::new(1, 1)).unwrap();
    channel.close();
    assert_eq!(channel.send(Job::new(2, 2)), Err(DispatchError::ChannelClosed));
}

#[test]
fn dropping_the_last_sender_closes() {
    let mut channel = Channel::open(None);
    assert_eq!(channel.sender_count(), 1);
    assert!(channel.add_sender());
    assert_eq!(channel.sender_count(), 2);
    channel.send(Job::new(7, 70)).unwrap();
    channel.drop_sender();
    assert!(!channel.is_closed());
    channel.drop_sender();
    assert!(channel.is_closed());
    assert_eq!(channel.sender_count(), 0);
    assert!(!channel.add_sender());
    channel.drop_sender();
    assert_eq!(channel.sender_count(), 0);
    assert_eq!(channel.receive(), Received::Job(Job::new(7, 70)));
    assert_eq!(channel.receive(), Received::Closed);
}

#[test]
fn receive_up_to_takes_from_the_head() {
    let mut channel = Channel::open(None);
    for id in 1..=5u64 {
        channel.send(Job::new(id, 0)).unwrap();
    }
    let first = channel.receive_up_to(2);
    assert_eq!(first, vec![Job::new(1, 0), Job::new(2, 0)]);
    let rest = channel.receive_up_to(10);
    assert_eq!(rest, vec![Job::new(3, 0), Job::new(4, 0), Job::new(5, 0)]);
    assert!(channel.receive_up_to(3).is_empty());
}

#[test]
fn drain_takes_the_whole_backlog() {
    let mut channel = Channel::open(None);
    for id in 1..=3u64 {
        channel.send(Job::new(id, 0)).unwrap();
    }
    channel.close();
    assert_eq!(channel.drain(), vec![Job::new(1, 0), Job::new(2, 0), Job::new(3, 0)]);
    assert!(channel.drain().is_empty());
    assert_eq!(channel.receive(), Received::Closed);
}
