use bytes::Bytes;
use std::collections::HashMap;
use std::time::Duration;
use tentacle::channel::{Priority, SendFailure};
use tentacle::error::Error;
use tentacle::multiaddr::Multiaddr;
use tentacle::notify::NotifyTable;
use tentacle::protocol_select::ProtocolInfo;
use tentacle::registry::SessionRegistry;
use tentacle::secio::PublicKey;
use tentacle::session::{Lifecycle, SessionContext, SessionController, SessionEvent, SessionType};
use tentacle::target::{contains_id, TargetProtocol, TargetSession};

fn addr(port: u16) -> Multiaddr {
    Multiaddr::new(format!("/ip4/127.0.0.1/tcp/{}", port))
}

fn known(ids: &[usize]) -> HashMap<usize, ProtocolInfo> {
    let mut map = HashMap::new();
    for id in ids {
        map.insert(*id, ProtocolInfo::new(format!("proto-{}", id), vec!["1.0.0".to_string()]));
    }
    map
}

fn message(proto_id: usize, text: &'static str) -> SessionEvent {
    SessionEvent::ProtocolMessage { proto_id, data: Bytes::from(text) }
}

#[test]
fn lifecycle_states() {
    assert!(Lifecycle::Open.is_open());
    assert!(!Lifecycle::Closing.is_open());
    assert!(!Lifecycle::Closed.is_open());
    assert!(Lifecycle::Closed.is_closed());
    assert!(!Lifecycle::Closing.is_closed());
    assert!(!Lifecycle::Open.is_closed());
}

#[test]
fn session_type_direction() {
    assert!(SessionType::Inbound.is_inbound());
    assert!(!SessionType::Inbound.is_outbound());
    assert!(SessionType::Outbound.is_outbound());
    assert!(!SessionType::Outbound.is_inbound());
}

#[test]
fn multiaddr_compares_by_text() {
    let a = addr(1337);
    assert_eq!(a.as_str(), "/ip4/127.0.0.1/tcp/1337");
    assert!(a.same_as(&addr(1337)));
    assert!(!a.same_as(&addr(1338)));
    assert_eq!(a.clone(), a);
}

#[test]
fn public_key_keeps_its_encoding() {
    let key = PublicKey::new(vec![1, 2, 3]);
    assert_eq!(key.as_bytes(), &vec![1, 2, 3]);
    assert_eq!(key.clone(), key);
}

#[test]
fn target_session_selection() {
    assert!(TargetSession::All.contains(7));
    assert!(TargetSession::Single(7).contains(7));
    assert!(!TargetSession::Single(7).contains(8));
    assert!(TargetSession::Multi(vec![1, 3]).contains(3));
    assert!(!TargetSession::Multi(vec![1, 3]).contains(2));
    assert!(!TargetSession::Multi(vec![]).contains(0));
    assert!(TargetSession::AllExcept(vec![1, 3]).contains(2));
    assert!(!TargetSession::AllExcept(vec![1, 3]).contains(1));
    assert!(TargetSession::AllExcept(vec![]).contains(0));
}

#[test]
fn target_protocol_selection() {
    assert!(TargetProtocol::All.contains(0));
    assert!(TargetProtocol::Single(2).contains(2));
    assert!(!TargetProtocol::Single(2).contains(3));
    assert!(TargetProtocol::Multi(vec![4, 5]).contains(5));
    assert!(!TargetProtocol::Multi(vec![4, 5]).contains(6));
    assert!(contains_id(&vec![9, 8], 8));
    assert!(!contains_id(&vec![9, 8], 7));
}

#[test]
fn notify_table_set_and_remove() {
    let mut table = NotifyTable::new();
    assert!(!table.contains(1, 7));
    table.set(1, 7, Duration::from_secs(3));
    assert!(table.contains(1, 7));
    assert!(!table.contains(7, 1));
    assert!(!table.contains(1, 8));
    assert_eq!(table.interval(1, 7), Some(Duration::from_secs(3)));
    table.set(1, 7, Duration::from_secs(5));
    assert_eq!(table.interval(1, 7), Some(Duration::from_secs(5)));
    table.set(2, 7, Duration::from_secs(9));
    assert_eq!(table.interval(2, 7), Some(Duration::from_secs(9)));
    assert_eq!(table.interval(1, 7), Some(Duration::from_secs(5)));
    assert!(table.remove(1, 7));
    assert!(!table.remove(1, 7));
    assert!(!table.contains(1, 7));
    assert!(table.contains(2, 7));
    assert_eq!(table.interval(1, 7), None);
    table.clear();
    assert!(!table.contains(2, 7));
}

#[test]
fn notify_table_keeps_large_keys_apart() {
    let mut table = NotifyTable::new();
    table.set(usize::MAX, u64::MAX, Duration::from_secs(1));
    table.set(usize::MAX, 0, Duration::from_secs(2));
    table.set(0, u64::MAX, Duration::from_secs(3));
    assert_eq!(table.interval(usize::MAX, u64::MAX), Some(Duration::from_secs(1)));
    assert_eq!(table.interval(usize::MAX, 0), Some(Duration::from_secs(2)));
    assert_eq!(table.interval(0, u64::MAX), Some(Duration::from_secs(3)));
    assert_eq!(table.interval(0, 0), None);
}

#[test]
fn controller_starts_open_and_empty() {
    let context = SessionContext::new(3, addr(1), SessionType::Inbound, None);
    let controller = SessionController::new(context, 2);
    assert_eq!(controller.id(), 3);
    assert!(controller.is_open());
    assert!(!controller.has_open_protocols());
    assert!(!controller.protocol_open(1));
    assert_eq!(controller.context().address, addr(1));
    assert_eq!(controller.context().ty, SessionType::Inbound);
    assert_eq!(controller.context().closed, Lifecycle::Open);
    assert!(controller.context().remote_pubkey.is_none());
}

#[test]
fn controller_try_send_picks_the_queue_by_priority() {
    let context = SessionContext::new(0, addr(1), SessionType::Outbound, None);
    let mut controller = SessionController::new(context, 4);
    assert!(controller.try_send(Priority::Normal, message(1, "bulk")).is_ok());
    assert!(controller.try_send(Priority::High, message(1, "control")).is_ok());
    assert_eq!(controller.try_recv(), Some(message(1, "control")));
    assert_eq!(controller.try_recv(), Some(message(1, "bulk")));
    assert_eq!(controller.try_recv(), None);
}

#[test]
fn controller_try_send_fails_observably() {
    let context = SessionContext::new(0, addr(1), SessionType::Outbound, None);
    let mut controller = SessionController::new(context, 1);
    assert!(controller.try_send(Priority::Normal, message(1, "a")).is_ok());
    let full = controller.try_send(Priority::Normal, message(1, "b")).unwrap_err();
    assert_eq!(full.kind, SendFailure::Full);
    assert_eq!(full.item, message(1, "b"));
    controller.mark_closing();
    let closed = controller.try_send(Priority::High, message(1, "c")).unwrap_err();
    assert_eq!(closed.kind, SendFailure::Disconnected);
    assert_eq!(closed.into_inner(), message(1, "c"));
    assert_eq!(controller.drain(), vec![message(1, "a")]);
}

#[test]
fn controller_send_checks_state_protocol_and_room() {
    let context = SessionContext::new(0, addr(1), SessionType::Outbound, None);
    let mut controller = SessionController::new(context, 1);
    assert_eq!(
        controller.send(Priority::Normal, 1, Bytes::from("x")),
        Err(Error::ProtocolNotOpen)
    );
    assert!(controller.open_protocol(1));
    assert!(!controller.open_protocol(1));
    assert_eq!(controller.send(Priority::Normal, 1, Bytes::from("x")), Ok(()));
    assert_eq!(controller.send(Priority::Normal, 1, Bytes::from("y")), Err(Error::QueueFull));
    assert_eq!(controller.send(Priority::High, 1, Bytes::from("z")), Ok(()));
    controller.mark_closing();
    assert_eq!(
        controller.send(Priority::High, 1, Bytes::from("w")),
        Err(Error::SessionClosed)
    );
    assert_eq!(controller.drain(), vec![message(1, "z"), message(1, "x")]);
}

#[test]
fn controller_mark_closing_is_idempotent() {
    let context = SessionContext::new(0, addr(1), SessionType::Outbound, None);
    let mut controller = SessionController::new(context, 1);
    controller.mark_closing();
    assert_eq!(controller.context().closed, Lifecycle::Closing);
    controller.mark_closing();
    assert_eq!(controller.context().closed, Lifecycle::Closing);
    controller.mark_closed();
    assert_eq!(controller.context().closed, Lifecycle::Closed);
    controller.mark_closing();
    assert_eq!(controller.context().closed, Lifecycle::Closed);
}

#[test]
fn controller_opens_only_known_protocols() {
    let context = SessionContext::new(0, addr(1), SessionType::Outbound, None);
    let mut controller = SessionController::new(context, 1);
    let protocols = known(&[1, 2, 3]);
    assert!(!controller.would_open(&TargetProtocol::Single(9), &protocols));
    assert!(!controller.open_protocols(&TargetProtocol::Single(9), &protocols));
    assert!(!controller.protocol_open(9));
    assert!(controller.would_open(&TargetProtocol::Multi(vec![2, 9]), &protocols));
    assert!(controller.open_protocols(&TargetProtocol::Multi(vec![2, 9]), &protocols));
    assert!(controller.protocol_open(2));
    assert!(!controller.protocol_open(9));
    assert!(!controller.open_protocols(&TargetProtocol::Multi(vec![2, 9]), &protocols));
    assert!(controller.would_open(&TargetProtocol::All, &protocols));
    assert!(controller.open_protocols(&TargetProtocol::All, &protocols));
    assert!(controller.protocol_open(1) && controller.protocol_open(2) && controller.protocol_open(3));
    assert!(!controller.would_open(&TargetProtocol::All, &protocols));
    assert!(!controller.open_protocols(&TargetProtocol::All, &protocols));
    assert!(controller.close_protocol(2));
    assert!(!controller.close_protocol(2));
    assert!(!controller.protocol_open(2));
    assert!(controller.has_open_protocols());
    controller.wind_down();
    assert!(!controller.has_open_protocols());
    assert_eq!(controller.context().closed, Lifecycle::Closing);
}

#[test]
fn controller_timers() {
    let context = SessionContext::new(0, addr(1), SessionType::Outbound, None);
    let mut controller = SessionController::new(context, 1);
    assert!(!controller.has_notify(1, 5));
    controller.set_notify(1, 5, Duration::from_secs(2));
    assert!(controller.has_notify(1, 5));
    assert!(controller.remove_notify(1, 5));
    assert!(!controller.remove_notify(1, 5));
    controller.set_notify(1, 6, Duration::from_secs(2));
    controller.mark_closed();
    assert!(!controller.has_notify(1, 6));
}

#[test]
fn controller_into_context_is_closed() {
    let key = PublicKey::new(vec![7; 33]);
    let context = SessionContext::new(4, addr(9), SessionType::Inbound, Some(key.clone()));
    let controller = SessionController::new(context, 1);
    let last = controller.into_context();
    assert_eq!(last.id, 4);
    assert_eq!(last.address, addr(9));
    assert_eq!(last.ty, SessionType::Inbound);
    assert_eq!(last.remote_pubkey, Some(key));
    assert_eq!(last.closed, Lifecycle::Closed);
}

#[test]
fn session_context_clone_keeps_every_field() {
    let context =
        SessionContext::new(4, addr(9), SessionType::Inbound, Some(PublicKey::new(vec![1, 2])));
    let copy = context.clone();
    assert_eq!(copy.id, 4);
    assert_eq!(copy.address, addr(9));
    assert_eq!(copy.ty, SessionType::Inbound);
    assert_eq!(copy.remote_pubkey, Some(PublicKey::new(vec![1, 2])));
    assert_eq!(copy.closed, Lifecycle::Open);
}

#[test]
fn registry_hands_out_ascending_ids() {
    let mut registry = SessionRegistry::new(4);
    assert_eq!(registry.len(), 0);
    assert_eq!(registry.next_id(), 0);
    assert_eq!(registry.register(addr(1), SessionType::Inbound, None), Some(0));
    assert_eq!(registry.register(addr(2), SessionType::Outbound, None), Some(1));
    assert_eq!(registry.register(addr(3), SessionType::Outbound, None), Some(2));
    assert_eq!(registry.ids(), vec![0, 1, 2]);
    assert_eq!(registry.len(), 3);
    assert_eq!(registry.next_id(), 3);
}

#[test]
fn registry_never_reuses_an_id() {
    let mut registry = SessionRegistry::new(4);
    assert_eq!(registry.register(addr(1), SessionType::Inbound, None), Some(0));
    assert_eq!(registry.register(addr(2), SessionType::Inbound, None), Some(1));
    let gone = registry.remove(0).unwrap();
    assert_eq!(gone.id, 0);
    assert_eq!(gone.closed, Lifecycle::Closed);
    assert_eq!(registry.register(addr(3), SessionType::Inbound, None), Some(2));
    assert_eq!(registry.ids(), vec![1, 2]);
    assert!(!registry.contains(0));
    assert!(registry.lookup(0).is_none());
}

#[test]
fn registry_lookup_of_unknown_id_is_none() {
    let mut registry = SessionRegistry::new(4);
    assert!(registry.lookup(0).is_none());
    assert!(registry.controller(0).is_none());
    assert!(registry.remove(0).is_none());
    assert!(!registry.mark_closing(0));
    assert_eq!(registry.register(addr(1), SessionType::Inbound, None), Some(0));
    let found = registry.lookup(0).unwrap();
    assert_eq!(found.id, 0);
    assert_eq!(found.address, addr(1));
    assert_eq!(found.closed, Lifecycle::Open);
    assert!(registry.lookup(1).is_none());
}

#[test]
fn registry_mark_closing_is_idempotent() {
    let mut registry = SessionRegistry::new(4);
    registry.register(addr(1), SessionType::Inbound, None);
    assert!(registry.mark_closing(0));
    assert_eq!(registry.lookup(0).unwrap().closed, Lifecycle::Closing);
    assert!(registry.mark_closing(0));
    assert_eq!(registry.lookup(0).unwrap().closed, Lifecycle::Closing);
}

#[test]
fn registry_send_reports_each_refusal() {
    let mut registry = SessionRegistry::new(1);
    let protocols = known(&[1]);
    registry.register(addr(1), SessionType::Inbound, None);
    assert_eq!(
        registry.send(5, Priority::Normal, 1, Bytes::from("x")),
        Err(Error::SessionNotFound)
    );
    assert_eq!(
        registry.send(0, Priority::Normal, 1, Bytes::from("x")),
        Err(Error::ProtocolNotOpen)
    );
    assert!(registry.would_open(0, &TargetProtocol::Single(1), &protocols));
    assert!(!registry.would_open(3, &TargetProtocol::Single(1), &protocols));
    assert!(registry.open_protocols(0, &TargetProtocol::Single(1), &protocols));
    assert!(!registry.open_protocols(3, &TargetProtocol::Single(1), &protocols));
    assert_eq!(registry.send(0, Priority::Normal, 1, Bytes::from("x")), Ok(()));
    assert_eq!(registry.send(0, Priority::Normal, 1, Bytes::from("y")), Err(Error::QueueFull));
    assert!(registry.mark_closing(0));
    assert_eq!(
        registry.send(0, Priority::High, 1, Bytes::from("z")),
        Err(Error::SessionClosed)
    );
    assert_eq!(registry.try_recv(0), Some(message(1, "x")));
    assert_eq!(registry.try_recv(0), None);
    assert_eq!(registry.try_recv(9), None);
}

#[test]
fn registry_broadcast_reaches_each_taker() {
    let mut registry = SessionRegistry::new(2);
    let protocols = known(&[1]);
    for port in 0..4 {
        registry.register(addr(port), SessionType::Inbound, None);
    }
    for id in [0, 1, 3] {
        registry.open_protocols(id, &TargetProtocol::All, &protocols);
    }
    registry.mark_closing(1);
    registry.broadcast(&TargetSession::All, Priority::Normal, 1, Bytes::from("hello"));
    assert_eq!(registry.try_recv(0), Some(message(1, "hello")));
    assert_eq!(registry.try_recv(1), None);
    assert_eq!(registry.try_recv(2), None);
    assert_eq!(registry.try_recv(3), Some(message(1, "hello")));
    assert_eq!(registry.try_recv(0), None);
}

#[test]
fn registry_busy_ids_and_wind_down() {
    let mut registry = SessionRegistry::new(2);
    let protocols = known(&[1, 2]);
    for port in 0..3 {
        registry.register(addr(port), SessionType::Inbound, None);
    }
    registry.open_protocols(0, &TargetProtocol::Single(1), &protocols);
    registry.open_protocols(2, &TargetProtocol::All, &protocols);
    assert_eq!(registry.busy_ids(), vec![0, 2]);
    assert!(registry.close_protocol(0, 1));
    assert!(!registry.close_protocol(0, 1));
    assert!(!registry.close_protocol(7, 1));
    assert_eq!(registry.busy_ids(), vec![2]);
    registry.wind_down_all();
    assert_eq!(registry.busy_ids(), Vec::<usize>::new());
    for id in 0..3 {
        assert_eq!(registry.lookup(id).unwrap().closed, Lifecycle::Closing);
    }
    registry.mark_all_closed();
    for id in 0..3 {
        assert_eq!(registry.lookup(id).unwrap().closed, Lifecycle::Closed);
    }
}

#[test]
fn registry_session_timers() {
    let mut registry = SessionRegistry::new(2);
    registry.register(addr(0), SessionType::Inbound, None);
    assert!(!registry.set_notify(4, 1, 9, Duration::from_secs(1)));
    assert!(registry.set_notify(0, 1, 9, Duration::from_secs(1)));
    assert!(registry.controller(0).unwrap().has_notify(1, 9));
    assert!(!registry.remove_notify(4, 1, 9));
    assert!(!registry.remove_notify(0, 1, 8));
    assert!(registry.remove_notify(0, 1, 9));
    assert!(!registry.remove_notify(0, 1, 9));
}
