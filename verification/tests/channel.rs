use tentacle::channel::{FlushEnd, Priority, PriorityChannel, SendFailure, TrySendError};

#[test]
fn priority_knows_its_queue() {
    assert!(Priority::High.is_high());
    assert!(!Priority::Normal.is_high());
}

#[test]
fn new_channel_is_empty() {
    let channel: PriorityChannel<u32> = PriorityChannel::new(4);
    assert!(channel.is_empty());
    assert_eq!(channel.capacity(), 4);
    assert_eq!(channel.len(Priority::High), 0);
    assert_eq!(channel.len(Priority::Normal), 0);
    assert!(channel.accepts(Priority::High));
    assert!(channel.accepts(Priority::Normal));
}

#[test]
fn quick_entries_overtake_earlier_normal_entries() {
    let mut channel: PriorityChannel<&str> = PriorityChannel::new(8);
    assert!(channel.try_send(Priority::Normal, "n1").is_ok());
    assert!(channel.try_send(Priority::Normal, "n2").is_ok());
    assert!(channel.try_send(Priority::High, "q1").is_ok());
    assert!(channel.try_send(Priority::Normal, "n3").is_ok());
    assert!(channel.try_send(Priority::High, "q2").is_ok());
    assert_eq!(channel.try_recv(), Some("q1"));
    assert_eq!(channel.try_recv(), Some("q2"));
    assert_eq!(channel.try_recv(), Some("n1"));
    assert_eq!(channel.try_recv(), Some("n2"));
    assert_eq!(channel.try_recv(), Some("n3"));
    assert_eq!(channel.try_recv(), None);
    assert!(channel.is_empty());
}

#[test]
fn drain_hands_out_quick_then_normal() {
    let mut channel: PriorityChannel<u32> = PriorityChannel::new(8);
    for n in [10, 11, 12] {
        assert!(channel.try_send(Priority::Normal, n).is_ok());
    }
    for n in [1, 2] {
        assert!(channel.try_send(Priority::High, n).is_ok());
    }
    assert_eq!(channel.drain(), vec![1, 2, 10, 11, 12]);
    assert!(channel.is_empty());
    assert_eq!(channel.drain(), Vec::<u32>::new());
}

#[test]
fn quick_entry_sent_between_receives_comes_next() {
    let mut channel: PriorityChannel<u32> = PriorityChannel::new(8);
    assert!(channel.try_send(Priority::Normal, 10).is_ok());
    assert!(channel.try_send(Priority::Normal, 11).is_ok());
    assert_eq!(channel.try_recv(), Some(10));
    assert!(channel.try_send(Priority::High, 1).is_ok());
    assert_eq!(channel.try_recv(), Some(1));
    assert_eq!(channel.try_recv(), Some(11));
}

#[test]
fn full_queue_hands_the_item_back() {
    let mut channel: PriorityChannel<String> = PriorityChannel::new(1);
    assert!(channel.try_send(Priority::Normal, "first".to_string()).is_ok());
    assert!(!channel.accepts(Priority::Normal));
    let refused = channel.try_send(Priority::Normal, "second".to_string()).unwrap_err();
    assert!(refused.is_full());
    assert!(!refused.is_disconnected());
    assert_eq!(refused.kind, SendFailure::Full);
    assert_eq!(refused.into_inner(), "second".to_string());
    assert_eq!(channel.len(Priority::Normal), 1);
}

#[test]
fn each_queue_has_its_own_capacity() {
    let mut channel: PriorityChannel<u32> = PriorityChannel::new(1);
    assert!(channel.try_send(Priority::Normal, 1).is_ok());
    assert!(channel.try_send(Priority::Normal, 2).is_err());
    assert!(channel.accepts(Priority::High));
    assert!(channel.try_send(Priority::High, 3).is_ok());
    assert!(channel.try_send(Priority::High, 4).is_err());
    assert_eq!(channel.drain(), vec![3, 1]);
}

#[test]
fn channel_without_capacity_takes_nothing() {
    let mut channel: PriorityChannel<u32> = PriorityChannel::new(0);
    assert!(!channel.accepts(Priority::High));
    assert!(channel.try_send(Priority::High, 1).unwrap_err().is_full());
    assert!(channel.try_send(Priority::Normal, 2).unwrap_err().is_full());
    assert_eq!(channel.try_recv(), None);
}

#[test]
fn room_comes_back_after_a_receive() {
    let mut channel: PriorityChannel<u32> = PriorityChannel::new(1);
    assert!(channel.try_send(Priority::High, 1).is_ok());
    assert!(channel.try_send(Priority::High, 2).is_err());
    assert_eq!(channel.try_recv(), Some(1));
    assert!(channel.try_send(Priority::High, 2).is_ok());
    assert_eq!(channel.try_recv(), Some(2));
}

#[test]
fn clear_drops_what_waits() {
    let mut channel: PriorityChannel<u32> = PriorityChannel::new(4);
    assert!(channel.try_send(Priority::High, 1).is_ok());
    assert!(channel.try_send(Priority::Normal, 2).is_ok());
    channel.clear();
    assert!(channel.is_empty());
    assert_eq!(channel.capacity(), 4);
    assert_eq!(channel.try_recv(), None);
}

#[test]
fn settle_lets_a_taken_item_go() {
    let mut channel: PriorityChannel<u32> = PriorityChannel::new(4);
    assert!(channel.try_send(Priority::High, 1).is_ok());
    assert_eq!(channel.settle(true, Ok(())), None);
    assert_eq!(channel.settle(false, Ok(())), None);
    assert_eq!(channel.drain(), vec![1]);
}

#[test]
fn settle_puts_a_refused_item_back_first_in_line() {
    let mut channel: PriorityChannel<u32> = PriorityChannel::new(4);
    assert!(channel.try_send(Priority::High, 2).is_ok());
    assert!(channel.try_send(Priority::Normal, 11).is_ok());
    let full = TrySendError { kind: SendFailure::Full, item: 1 };
    assert_eq!(channel.settle(true, Err(full)), Some(FlushEnd::Full));
    let gone = TrySendError { kind: SendFailure::Disconnected, item: 10 };
    assert_eq!(channel.settle(false, Err(gone)), Some(FlushEnd::Disconnected));
    assert_eq!(channel.len(Priority::High), 2);
    assert_eq!(channel.len(Priority::Normal), 2);
    assert_eq!(channel.drain(), vec![1, 2, 10, 11]);
}
