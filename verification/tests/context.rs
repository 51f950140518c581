use bytes::Bytes;
use std::collections::HashMap;
use std::time::Duration;
use tentacle::channel::Priority;
use tentacle::context::{ProtocolContext, ServiceContext};
use tentacle::error::Error;
use tentacle::multiaddr::Multiaddr;
use tentacle::protocol_select::ProtocolInfo;
use tentacle::secio::{PublicKey, SecioKeyPair};
use tentacle::service::{ServiceControl, ServiceTask};
use tentacle::session::{Lifecycle, SessionEvent, SessionType};
use tentacle::target::{TargetProtocol, TargetSession};

fn addr(port: u16) -> Multiaddr {
    Multiaddr::new(format!("/ip4/127.0.0.1/tcp/{}", port))
}

fn known(ids: &[usize]) -> HashMap<usize, ProtocolInfo> {
    let mut map = HashMap::new();
    for id in ids {
        map.insert(*id, ProtocolInfo::new(format!("proto-{}", id), vec!["1.0.0".to_string()]));
    }
    map
}

fn service(task_capacity: usize, session_capacity: usize) -> ServiceContext {
    ServiceContext::new(known(&[1, 2]), None, Duration::from_secs(10), task_capacity, session_capacity)
}

fn message(proto_id: usize, text: &'static str) -> SessionEvent {
    SessionEvent::ProtocolMessage { proto_id, data: Bytes::from(text) }
}

fn tasks(context: &mut ServiceContext) -> Vec<ServiceTask> {
    let mut all = Vec::new();
    while let Some(task) = context.next_task() {
        all.push(task);
    }
    all
}

fn steps(context: &mut ServiceContext) -> Vec<ServiceTask> {
    let mut all = Vec::new();
    while let Some(step) = context.next_close_step() {
        all.push(step);
    }
    all
}

fn events(context: &mut ServiceContext, id: usize) -> Vec<SessionEvent> {
    let mut all = Vec::new();
    while let Some(event) = context.next_session_event(id) {
        all.push(event);
    }
    all
}

/// A service with `n` sessions, protocol 1 open on each, and no task waiting.
fn service_with_sessions(n: usize, session_capacity: usize) -> ServiceContext {
    let mut context = service(64, session_capacity);
    for port in 0..n {
        let id = context.register(addr(port as u16), SessionType::Outbound, None).unwrap();
        assert_eq!(context.open_protocol(id, 1), Ok(()));
    }
    tasks(&mut context);
    context
}

#[test]
fn error_descriptions() {
    assert_eq!(Error::SessionNotFound.describe(), "session not found");
    assert_eq!(Error::ProtocolNotOpen.describe(), "protocol not open on the session");
    assert_eq!(Error::QueueFull.describe(), "queue is full");
    assert_eq!(Error::ServiceClosed.describe(), "service is closed");
    assert_eq!(Error::SessionClosed.describe(), "session is closed");
    assert_eq!(Error::TransportError.describe(), "transport failure");
    assert!(Error::QueueFull.is_transient());
    assert!(!Error::SessionClosed.is_transient());
    assert!(!Error::SessionNotFound.is_transient());
    assert!(!Error::TransportError.is_transient());
}

#[test]
fn new_service_is_open_and_empty() {
    let pair = SecioKeyPair::new(PublicKey::new(vec![2; 33]), vec![9; 32]);
    let mut context =
        ServiceContext::new(known(&[1]), Some(pair), Duration::from_secs(10), 8, 8);
    assert_eq!(context.control().state(), Lifecycle::Open);
    assert!(!context.control().is_closed());
    assert_eq!(context.control().timeout(), Duration::from_secs(10));
    assert_eq!(context.protocols().len(), 1);
    assert_eq!(context.protocols().get(&1).unwrap().name, "proto-1");
    assert_eq!(context.key_pair().unwrap().to_public_key(), PublicKey::new(vec![2; 33]));
    assert!(context.listens().is_empty());
    assert_eq!(context.sessions().len(), 0);
    assert_eq!(context.next_task(), None);
    assert!(service(1, 1).key_pair().is_none());
}

#[test]
fn listen_and_dial_wait_on_the_quick_queue() {
    let mut context = service(8, 8);
    assert_eq!(context.future_task(42), Ok(()));
    assert_eq!(context.listen(addr(1)), Ok(()));
    assert_eq!(context.dial(addr(2), TargetProtocol::All), Ok(()));
    assert_eq!(
        tasks(&mut context),
        vec![
            ServiceTask::Listen { address: addr(1) },
            ServiceTask::Dial { address: addr(2), target: TargetProtocol::All },
            ServiceTask::FutureTask { task: 42 },
        ]
    );
}

#[test]
fn service_queue_full_is_reported() {
    let mut context = service(1, 8);
    assert_eq!(context.listen(addr(1)), Ok(()));
    assert_eq!(context.listen(addr(2)), Err(Error::QueueFull));
    assert_eq!(context.dial(addr(2), TargetProtocol::Single(1)), Err(Error::QueueFull));
    assert_eq!(context.future_task(1), Ok(()));
    assert_eq!(context.future_task(2), Err(Error::QueueFull));
    assert_eq!(
        tasks(&mut context),
        vec![ServiceTask::Listen { address: addr(1) }, ServiceTask::FutureTask { task: 1 }]
    );
    assert_eq!(context.listen(addr(2)), Ok(()));
}

#[test]
fn update_listens_replaces_the_list() {
    let mut context = service(8, 8);
    context.update_listens(vec![addr(1), addr(2)]);
    assert_eq!(context.listens().to_vec(), vec![addr(1), addr(2)]);
    context.update_listens(vec![addr(3)]);
    assert_eq!(context.listens().to_vec(), vec![addr(3)]);
}

#[test]
fn register_and_lookup() {
    let mut context = service(8, 8);
    let key = PublicKey::new(vec![5; 33]);
    assert_eq!(context.register(addr(1), SessionType::Inbound, Some(key.clone())), Some(0));
    assert_eq!(context.register(addr(2), SessionType::Outbound, None), Some(1));
    let first = context.lookup(0).unwrap();
    assert_eq!(first.id, 0);
    assert_eq!(first.address, addr(1));
    assert_eq!(first.ty, SessionType::Inbound);
    assert_eq!(first.remote_pubkey, Some(key));
    assert_eq!(first.closed, Lifecycle::Open);
    assert!(context.lookup(1).unwrap().remote_pubkey.is_none());
    assert!(context.lookup(2).is_none());
}

#[test]
fn send_message_waits_on_the_normal_queue() {
    let mut context = service_with_sessions(1, 8);
    assert_eq!(context.send_message_to(0, 1, Bytes::from("one")), Ok(()));
    assert_eq!(context.quick_send_message_to(0, 1, Bytes::from("two")), Ok(()));
    assert_eq!(context.send_message_to(0, 1, Bytes::from("three")), Ok(()));
    assert_eq!(context.send_message_with(0, Priority::High, 1, Bytes::from("four")), Ok(()));
    assert_eq!(
        events(&mut context, 0),
        vec![message(1, "two"), message(1, "four"), message(1, "one"), message(1, "three")]
    );
    assert_eq!(context.next_task(), None);
}

#[test]
fn send_message_refusals() {
    let mut context = service_with_sessions(1, 1);
    assert_eq!(context.send_message_to(9, 1, Bytes::from("x")), Err(Error::SessionNotFound));
    assert_eq!(context.send_message_to(0, 2, Bytes::from("x")), Err(Error::ProtocolNotOpen));
    assert_eq!(context.send_message_to(0, 1, Bytes::from("x")), Ok(()));
    assert_eq!(context.send_message_to(0, 1, Bytes::from("y")), Err(Error::QueueFull));
    assert_eq!(context.quick_send_message_to(0, 1, Bytes::from("z")), Ok(()));
    assert_eq!(context.quick_send_message_to(0, 1, Bytes::from("w")), Err(Error::QueueFull));
    assert_eq!(events(&mut context, 0), vec![message(1, "z"), message(1, "x")]);
}

#[test]
fn closed_session_rejects_every_send() {
    let mut context = service_with_sessions(2, 8);
    assert_eq!(context.disconnect(0), Ok(()));
    assert_eq!(context.lookup(0).unwrap().closed, Lifecycle::Closing);
    assert_eq!(context.send_message_to(0, 1, Bytes::from("x")), Err(Error::SessionClosed));
    assert_eq!(context.quick_send_message_to(0, 1, Bytes::from("x")), Err(Error::SessionClosed));
    let gone = context.remove(0).unwrap();
    assert_eq!(gone.closed, Lifecycle::Closed);
    assert_eq!(context.send_message_to(0, 1, Bytes::from("x")), Err(Error::SessionNotFound));
    assert_eq!(context.quick_send_message_to(0, 1, Bytes::from("x")), Err(Error::SessionNotFound));
    assert_eq!(context.register(addr(7), SessionType::Inbound, None), Some(2));
    assert_eq!(context.open_protocol(2, 1), Ok(()));
    assert_eq!(context.send_message_to(0, 1, Bytes::from("x")), Err(Error::SessionNotFound));
    assert_eq!(context.send_message_to(1, 1, Bytes::from("x")), Ok(()));
    assert_eq!(events(&mut context, 0), vec![]);
}

#[test]
fn sends_after_shutdown_name_the_session() {
    let mut context = service_with_sessions(1, 8);
    assert_eq!(context.shutdown(), Ok(()));
    assert_eq!(context.lookup(0).unwrap().closed, Lifecycle::Closed);
    assert_eq!(context.send_message_to(0, 1, Bytes::from("x")), Err(Error::SessionClosed));
    assert_eq!(context.quick_send_message_to(0, 1, Bytes::from("x")), Err(Error::SessionClosed));
    assert_eq!(context.send_message_to(3, 1, Bytes::from("x")), Err(Error::SessionNotFound));
}

#[test]
fn open_protocol_twice_opens_once() {
    let mut context = service(8, 8);
    assert_eq!(context.register(addr(1), SessionType::Outbound, None), Some(0));
    assert_eq!(context.open_protocol(0, 1), Ok(()));
    assert_eq!(context.open_protocol(0, 1), Ok(()));
    assert!(context.sessions().controller(0).unwrap().protocol_open(1));
    assert!(!context.sessions().controller(0).unwrap().protocol_open(2));
    assert_eq!(
        tasks(&mut context),
        vec![ServiceTask::ProtocolOpen { session_id: 0, target: TargetProtocol::Single(1) }]
    );
}

#[test]
fn open_protocols_by_target() {
    let mut context = service(8, 8);
    context.register(addr(1), SessionType::Outbound, None);
    assert_eq!(context.open_protocols(0, TargetProtocol::Multi(vec![2, 9])), Ok(()));
    assert!(context.sessions().controller(0).unwrap().protocol_open(2));
    assert!(!context.sessions().controller(0).unwrap().protocol_open(9));
    assert_eq!(context.open_protocols(0, TargetProtocol::All), Ok(()));
    assert!(context.sessions().controller(0).unwrap().protocol_open(1));
    assert_eq!(context.open_protocols(0, TargetProtocol::All), Ok(()));
    assert_eq!(context.open_protocol(0, 9), Ok(()));
    assert_eq!(
        tasks(&mut context),
        vec![
            ServiceTask::ProtocolOpen { session_id: 0, target: TargetProtocol::Multi(vec![2, 9]) },
            ServiceTask::ProtocolOpen { session_id: 0, target: TargetProtocol::All },
        ]
    );
}

#[test]
fn open_protocol_refusals() {
    let mut context = service(1, 8);
    context.register(addr(1), SessionType::Outbound, None);
    context.register(addr(2), SessionType::Outbound, None);
    assert_eq!(context.open_protocol(5, 1), Err(Error::SessionNotFound));
    assert_eq!(context.open_protocol(0, 1), Ok(()));
    assert_eq!(context.open_protocol(0, 2), Err(Error::QueueFull));
    assert!(!context.sessions().controller(0).unwrap().protocol_open(2));
    assert_eq!(context.open_protocol(0, 1), Ok(()));
    assert_eq!(tasks(&mut context).len(), 1);
    assert_eq!(context.disconnect(1), Ok(()));
    assert_eq!(context.open_protocol(1, 1), Err(Error::SessionClosed));
}

#[test]
fn opening_what_is_open_is_a_no_op_in_every_state() {
    let mut context = service_with_sessions(1, 8);
    assert_eq!(context.disconnect(0), Ok(()));
    tasks(&mut context);
    assert_eq!(context.lookup(0).unwrap().closed, Lifecycle::Closing);
    assert_eq!(context.open_protocol(0, 1), Ok(()));
    assert_eq!(context.open_protocol(0, 9), Ok(()));
    assert_eq!(context.open_protocols(0, TargetProtocol::Multi(vec![1, 9])), Ok(()));
    assert_eq!(context.open_protocol(0, 2), Err(Error::SessionClosed));
    assert_eq!(context.next_task(), None);
    let mut full = service(1, 8);
    full.register(addr(1), SessionType::Outbound, None);
    assert_eq!(full.open_protocol(0, 1), Ok(()));
    assert_eq!(full.open_protocol(0, 1), Ok(()));
    assert_eq!(full.shutdown(), Ok(()));
    assert_eq!(full.open_protocol(0, 9), Ok(()));
    assert_eq!(full.open_protocol(0, 1), Err(Error::ServiceClosed));
    assert_eq!(full.open_protocol(7, 1), Err(Error::ServiceClosed));
}

#[test]
fn close_protocol_is_idempotent() {
    let mut context = service_with_sessions(1, 8);
    assert_eq!(context.close_protocol(0, 1), Ok(()));
    assert_eq!(context.close_protocol(0, 1), Ok(()));
    assert_eq!(context.close_protocol(0, 2), Ok(()));
    assert_eq!(context.close_protocol(4, 1), Err(Error::SessionNotFound));
    assert!(!context.sessions().controller(0).unwrap().protocol_open(1));
    assert_eq!(context.send_message_to(0, 1, Bytes::from("x")), Err(Error::ProtocolNotOpen));
    assert_eq!(
        tasks(&mut context),
        vec![ServiceTask::ProtocolClose { session_id: 0, target: TargetProtocol::Single(1) }]
    );
}

#[test]
fn close_protocol_needs_room_only_when_open() {
    let mut context = service(1, 8);
    context.register(addr(1), SessionType::Outbound, None);
    assert_eq!(context.open_protocol(0, 1), Ok(()));
    assert_eq!(context.close_protocol(0, 1), Err(Error::QueueFull));
    assert!(context.sessions().controller(0).unwrap().protocol_open(1));
    assert_eq!(context.close_protocol(0, 2), Ok(()));
    tasks(&mut context);
    assert_eq!(context.close_protocol(0, 1), Ok(()));
}

#[test]
fn disconnect_marks_closing_once() {
    let mut context = service_with_sessions(1, 8);
    assert_eq!(context.send_message_to(0, 1, Bytes::from("last")), Ok(()));
    assert_eq!(context.disconnect(0), Ok(()));
    assert_eq!(context.disconnect(0), Ok(()));
    assert_eq!(context.disconnect(3), Err(Error::SessionNotFound));
    assert_eq!(tasks(&mut context), vec![ServiceTask::Disconnect { session_id: 0 }]);
    assert_eq!(events(&mut context, 0), vec![message(1, "last")]);
}

#[test]
fn disconnect_needs_room_for_an_open_session() {
    let mut context = service(1, 8);
    context.register(addr(1), SessionType::Outbound, None);
    assert_eq!(context.listen(addr(9)), Ok(()));
    assert_eq!(context.disconnect(0), Err(Error::QueueFull));
    assert_eq!(context.lookup(0).unwrap().closed, Lifecycle::Open);
    tasks(&mut context);
    assert_eq!(context.disconnect(0), Ok(()));
    assert_eq!(context.lookup(0).unwrap().closed, Lifecycle::Closing);
}

#[test]
fn broadcast_skips_the_closed_session() {
    let mut context = service_with_sessions(4, 8);
    assert_eq!(context.disconnect(2), Ok(()));
    assert_eq!(context.filter_broadcast(TargetSession::All, 1, Bytes::from("news")), Ok(()));
    for id in [0, 1, 3] {
        assert_eq!(events(&mut context, id), vec![message(1, "news")]);
    }
    assert_eq!(events(&mut context, 2), vec![]);
}

#[test]
fn broadcast_by_target() {
    let mut context = service_with_sessions(4, 8);
    assert_eq!(
        context.filter_broadcast(TargetSession::Multi(vec![1, 3, 9]), 1, Bytes::from("a")),
        Ok(())
    );
    assert_eq!(context.quick_filter_broadcast(TargetSession::Single(1), 1, Bytes::from("b")), Ok(()));
    assert_eq!(
        context.filter_broadcast(TargetSession::AllExcept(vec![1]), 1, Bytes::from("c")),
        Ok(())
    );
    assert_eq!(
        context.filter_broadcast_with(TargetSession::All, Priority::High, 2, Bytes::from("d")),
        Ok(())
    );
    assert_eq!(events(&mut context, 0), vec![message(1, "c")]);
    assert_eq!(events(&mut context, 1), vec![message(1, "b"), message(1, "a")]);
    assert_eq!(events(&mut context, 2), vec![message(1, "c")]);
    assert_eq!(events(&mut context, 3), vec![message(1, "a"), message(1, "c")]);
}

#[test]
fn broadcast_skips_full_queues_and_missing_protocols() {
    let mut context = service_with_sessions(3, 1);
    assert_eq!(context.close_protocol(1, 1), Ok(()));
    assert_eq!(context.send_message_to(0, 1, Bytes::from("first")), Ok(()));
    assert_eq!(context.filter_broadcast(TargetSession::All, 1, Bytes::from("all")), Ok(()));
    assert_eq!(events(&mut context, 0), vec![message(1, "first")]);
    assert_eq!(events(&mut context, 1), vec![]);
    assert_eq!(events(&mut context, 2), vec![message(1, "all")]);
}

#[test]
fn service_timers() {
    let mut context = service(8, 8);
    assert_eq!(context.remove_service_notify(1, 7), Ok(()));
    assert_eq!(context.next_task(), None);
    assert_eq!(context.set_service_notify(1, Duration::from_secs(3), 7), Ok(()));
    assert_eq!(context.set_service_notify(1, Duration::from_secs(4), 7), Ok(()));
    assert_eq!(context.remove_service_notify(2, 7), Ok(()));
    assert_eq!(context.remove_service_notify(1, 7), Ok(()));
    assert_eq!(context.remove_service_notify(1, 7), Ok(()));
    assert_eq!(
        tasks(&mut context),
        vec![
            ServiceTask::SetProtocolNotify { proto_id: 1, interval: Duration::from_secs(3), token: 7 },
            ServiceTask::SetProtocolNotify { proto_id: 1, interval: Duration::from_secs(4), token: 7 },
            ServiceTask::RemoveProtocolNotify { proto_id: 1, token: 7 },
        ]
    );
}

#[test]
fn session_timers() {
    let mut context = service_with_sessions(1, 8);
    assert_eq!(
        context.set_session_notify(4, 1, Duration::from_secs(3), 7),
        Err(Error::SessionNotFound)
    );
    assert_eq!(context.remove_session_notify(4, 1, 7), Err(Error::SessionNotFound));
    assert_eq!(context.remove_session_notify(0, 1, 7), Ok(()));
    assert_eq!(context.set_session_notify(0, 1, Duration::from_secs(3), 7), Ok(()));
    assert!(context.sessions().controller(0).unwrap().has_notify(1, 7));
    assert_eq!(context.remove_session_notify(0, 1, 7), Ok(()));
    assert_eq!(context.remove_session_notify(0, 1, 7), Ok(()));
    assert!(!context.sessions().controller(0).unwrap().has_notify(1, 7));
    assert_eq!(
        tasks(&mut context),
        vec![
            ServiceTask::SetProtocolSessionNotify {
                session_id: 0,
                proto_id: 1,
                interval: Duration::from_secs(3),
                token: 7
            },
            ServiceTask::RemoveProtocolSessionNotify { session_id: 0, proto_id: 1, token: 7 },
        ]
    );
    assert_eq!(context.disconnect(0), Ok(()));
    assert_eq!(
        context.set_session_notify(0, 1, Duration::from_secs(3), 8),
        Err(Error::SessionClosed)
    );
}

#[test]
fn timers_need_room_on_the_normal_queue() {
    let mut context = service(1, 8);
    context.register(addr(1), SessionType::Outbound, None);
    assert_eq!(context.set_service_notify(1, Duration::from_secs(1), 1), Ok(()));
    assert_eq!(context.set_service_notify(1, Duration::from_secs(1), 2), Err(Error::QueueFull));
    assert_eq!(context.set_session_notify(0, 1, Duration::from_secs(1), 1), Err(Error::QueueFull));
    assert_eq!(context.remove_service_notify(1, 1), Err(Error::QueueFull));
    assert_eq!(context.remove_service_notify(1, 2), Ok(()));
    tasks(&mut context);
    assert_eq!(context.remove_service_notify(1, 1), Ok(()));
}

#[test]
fn close_asks_for_its_steps_in_order() {
    let mut context = service(8, 8);
    context.update_listens(vec![addr(1337)]);
    assert_eq!(context.register(addr(1), SessionType::Inbound, None), Some(0));
    assert_eq!(context.open_protocol(0, 1), Ok(()));
    tasks(&mut context);
    assert_eq!(context.next_close_step(), None);
    assert_eq!(context.close(), Ok(()));
    assert_eq!(tasks(&mut context), vec![ServiceTask::Close]);
    assert_eq!(
        steps(&mut context),
        vec![
            ServiceTask::ListenStop { address: addr(1337) },
            ServiceTask::ProtocolClose { session_id: 0, target: TargetProtocol::All },
            ServiceTask::Disconnect { session_id: 0 },
            ServiceTask::Shutdown(false),
        ]
    );
    assert_eq!(context.next_close_step(), None);
    assert_eq!(context.control().state(), Lifecycle::Closing);
    assert_eq!(context.lookup(0).unwrap().closed, Lifecycle::Closing);
    assert!(!context.sessions().controller(0).unwrap().has_open_protocols());
}

#[test]
fn close_with_many_listeners_and_sessions() {
    let mut context = service(16, 8);
    context.update_listens(vec![addr(1), addr(2)]);
    for port in 0..3 {
        context.register(addr(port), SessionType::Inbound, None);
    }
    assert_eq!(context.open_protocol(0, 1), Ok(()));
    assert_eq!(context.open_protocols(2, TargetProtocol::All), Ok(()));
    assert_eq!(context.send_message_to(0, 1, Bytes::from("bulk")), Ok(()));
    assert_eq!(context.future_task(5), Ok(()));
    tasks(&mut context);
    assert_eq!(context.future_task(6), Ok(()));
    assert_eq!(context.close(), Ok(()));
    assert_eq!(tasks(&mut context), vec![ServiceTask::Close, ServiceTask::FutureTask { task: 6 }]);
    assert_eq!(
        steps(&mut context),
        vec![
            ServiceTask::ListenStop { address: addr(1) },
            ServiceTask::ListenStop { address: addr(2) },
            ServiceTask::ProtocolClose { session_id: 0, target: TargetProtocol::All },
            ServiceTask::ProtocolClose { session_id: 2, target: TargetProtocol::All },
            ServiceTask::Disconnect { session_id: 0 },
            ServiceTask::Disconnect { session_id: 1 },
            ServiceTask::Disconnect { session_id: 2 },
            ServiceTask::Shutdown(false),
        ]
    );
    assert_eq!(events(&mut context, 0), vec![message(1, "bulk")]);
}

#[test]
fn close_needs_room_for_one_command_only() {
    let mut context = service(1, 8);
    context.update_listens(vec![addr(1337)]);
    for port in 0..5 {
        context.register(addr(port), SessionType::Inbound, None);
    }
    assert_eq!(context.open_protocol(0, 1), Ok(()));
    assert_eq!(context.close(), Err(Error::QueueFull));
    assert_eq!(context.control().state(), Lifecycle::Open);
    assert_eq!(context.lookup(0).unwrap().closed, Lifecycle::Open);
    assert!(context.sessions().controller(0).unwrap().protocol_open(1));
    assert_eq!(context.next_close_step(), None);
    assert_eq!(tasks(&mut context).len(), 1);
    assert_eq!(context.close(), Ok(()));
    assert_eq!(tasks(&mut context), vec![ServiceTask::Close]);
    assert_eq!(steps(&mut context).len(), 1 + 1 + 5 + 1);
}

#[test]
fn close_and_shutdown_leave_the_listen_list_alone() {
    let mut context = service(8, 8);
    context.update_listens(vec![addr(1), addr(2)]);
    assert_eq!(context.listen(addr(3)), Ok(()));
    assert_eq!(context.listens().to_vec(), vec![addr(1), addr(2)]);
    assert_eq!(context.close(), Ok(()));
    assert_eq!(context.listens().to_vec(), vec![addr(1), addr(2)]);
    assert_eq!(context.shutdown(), Ok(()));
    assert_eq!(context.listens().to_vec(), vec![addr(1), addr(2)]);
    context.update_listens(vec![]);
    assert!(context.listens().is_empty());
}

#[test]
fn closing_service_takes_no_new_command() {
    let mut context = service_with_sessions(1, 8);
    assert_eq!(context.close(), Ok(()));
    assert_eq!(context.close(), Err(Error::ServiceClosed));
    assert_eq!(context.listen(addr(1)), Err(Error::ServiceClosed));
    assert_eq!(context.dial(addr(1), TargetProtocol::All), Err(Error::ServiceClosed));
    assert_eq!(context.future_task(1), Err(Error::ServiceClosed));
    assert_eq!(context.disconnect(0), Err(Error::ServiceClosed));
    assert_eq!(context.open_protocol(0, 1), Err(Error::ServiceClosed));
    assert_eq!(context.close_protocol(0, 1), Err(Error::ServiceClosed));
    assert_eq!(context.set_service_notify(1, Duration::from_secs(1), 1), Err(Error::ServiceClosed));
    assert_eq!(context.remove_service_notify(1, 1), Err(Error::ServiceClosed));
    assert_eq!(
        context.set_session_notify(0, 1, Duration::from_secs(1), 1),
        Err(Error::ServiceClosed)
    );
    assert_eq!(context.remove_session_notify(0, 1, 1), Err(Error::ServiceClosed));
    assert_eq!(
        context.filter_broadcast(TargetSession::All, 1, Bytes::from("x")),
        Err(Error::ServiceClosed)
    );
    assert_eq!(context.register(addr(5), SessionType::Inbound, None), None);
    assert_eq!(context.send_message_to(0, 1, Bytes::from("x")), Err(Error::SessionClosed));
}

#[test]
fn send_to_open_session_of_closed_service() {
    let mut registry_first = service(8, 8);
    assert_eq!(registry_first.shutdown(), Ok(()));
    assert_eq!(registry_first.register(addr(1), SessionType::Inbound, None), None);
    assert_eq!(
        registry_first.send_message_to(0, 1, Bytes::from("x")),
        Err(Error::SessionNotFound)
    );
}

#[test]
fn shutdown_drops_everything() {
    let mut context = service_with_sessions(2, 8);
    context.update_listens(vec![addr(1337)]);
    assert_eq!(context.send_message_to(0, 1, Bytes::from("lost")), Ok(()));
    assert_eq!(context.future_task(3), Ok(()));
    assert_eq!(context.set_service_notify(1, Duration::from_secs(1), 1), Ok(()));
    assert_eq!(context.close(), Ok(()));
    assert_eq!(context.shutdown(), Ok(()));
    assert_eq!(tasks(&mut context), vec![ServiceTask::Shutdown(true)]);
    assert_eq!(events(&mut context, 0), vec![]);
    assert_eq!(context.next_close_step(), None);
    assert_eq!(context.control().state(), Lifecycle::Closed);
    assert!(context.control().is_closed());
    assert_eq!(context.listens().to_vec(), vec![addr(1337)]);
    for id in 0..2 {
        assert_eq!(context.lookup(id).unwrap().closed, Lifecycle::Closed);
        assert!(!context.sessions().controller(id).unwrap().has_open_protocols());
    }
    assert_eq!(context.shutdown(), Err(Error::ServiceClosed));
    assert_eq!(context.close(), Err(Error::ServiceClosed));
}

#[test]
fn service_control_close_and_shutdown() {
    let mut control = ServiceControl::new(known(&[1]), Duration::from_secs(1), 1);
    assert_eq!(control.quick_send(ServiceTask::Disconnect { session_id: 0 }), Ok(()));
    assert_eq!(control.begin_close(), Err(Error::QueueFull));
    assert_eq!(control.state(), Lifecycle::Open);
    assert_eq!(control.try_recv(), Some(ServiceTask::Disconnect { session_id: 0 }));
    assert_eq!(control.begin_close(), Ok(()));
    assert_eq!(control.state(), Lifecycle::Closing);
    assert_eq!(control.begin_close(), Err(Error::ServiceClosed));
    assert_eq!(control.send(ServiceTask::FutureTask { task: 2 }), Err(Error::ServiceClosed));
    assert_eq!(control.try_recv(), Some(ServiceTask::Close));
    control.force_shutdown();
    assert_eq!(control.state(), Lifecycle::Closed);
    assert_eq!(control.try_recv(), Some(ServiceTask::Shutdown(true)));
    assert_eq!(control.try_recv(), None);
}

#[test]
fn service_control_queues() {
    let mut control = ServiceControl::new(known(&[1]), Duration::from_secs(1), 1);
    assert!(control.accepts(Priority::High));
    assert_eq!(control.send(ServiceTask::FutureTask { task: 1 }), Ok(()));
    assert_eq!(control.send(ServiceTask::FutureTask { task: 2 }), Err(Error::QueueFull));
    assert_eq!(control.quick_send(ServiceTask::Shutdown(false)), Ok(()));
    assert!(!control.accepts(Priority::High));
    assert_eq!(
        control.try_send(Priority::High, ServiceTask::Shutdown(true)),
        Err(Error::QueueFull)
    );
    assert_eq!(control.try_recv(), Some(ServiceTask::Shutdown(false)));
    assert_eq!(control.try_recv(), Some(ServiceTask::FutureTask { task: 1 }));
    assert_eq!(control.try_recv(), None);
    assert_eq!(control.protocols().len(), 1);
}

#[test]
fn protocol_context_fixes_the_protocol() {
    let context = service_with_sessions(2, 8);
    let mut protocol = ProtocolContext::new(context, 1);
    assert_eq!(protocol.proto_id, 1);
    assert_eq!(protocol.proto_id(), 1);
    assert_eq!(protocol.send_message_to(0, Bytes::from("a")), Ok(()));
    assert_eq!(protocol.quick_send_message_to(0, Bytes::from("b")), Ok(()));
    assert_eq!(protocol.send_message_to(5, Bytes::from("c")), Err(Error::SessionNotFound));
    assert_eq!(protocol.listens().len(), 0);
    assert_eq!(protocol.disconnect(1), Ok(()));
    let mut context = protocol.into_inner();
    assert_eq!(events(&mut context, 0), vec![message(1, "b"), message(1, "a")]);
    assert_eq!(tasks(&mut context), vec![ServiceTask::Disconnect { session_id: 1 }]);
}

#[test]
fn protocol_context_of_a_protocol_that_is_not_open() {
    let context = service_with_sessions(1, 8);
    let mut protocol = ProtocolContext::new(context, 2);
    assert_eq!(protocol.send_message_to(0, Bytes::from("a")), Err(Error::ProtocolNotOpen));
}

#[test]
fn session_scoped_context_targets_its_session() {
    let context = service_with_sessions(2, 8);
    let session = context.lookup(1).unwrap().clone();
    let mut protocol = ProtocolContext::new(context, 1);
    {
        let mut narrowed = protocol.as_mut(&session);
        assert_eq!(narrowed.proto_id(), 1);
        assert_eq!(narrowed.session.id, 1);
        assert_eq!(narrowed.send_message(Bytes::from("n")), Ok(()));
        assert_eq!(narrowed.quick_send_message(Bytes::from("q")), Ok(()));
        assert_eq!(narrowed.listens().len(), 0);
    }
    let mut context = protocol.into_inner();
    assert_eq!(events(&mut context, 0), vec![]);
    assert_eq!(events(&mut context, 1), vec![message(1, "q"), message(1, "n")]);
}

#[test]
fn session_scoped_context_of_a_closed_session() {
    let mut context = service_with_sessions(1, 8);
    let session = context.lookup(0).unwrap().clone();
    assert_eq!(context.disconnect(0), Ok(()));
    let mut protocol = ProtocolContext::new(context, 1);
    let mut narrowed = protocol.as_mut(&session);
    assert_eq!(narrowed.send_message(Bytes::from("n")), Err(Error::SessionClosed));
    assert_eq!(narrowed.quick_send_message(Bytes::from("q")), Err(Error::SessionClosed));
}

#[test]
fn zero_capacity_service_refuses_close_but_shuts_down() {
    let mut context = service(0, 8);
    assert_eq!(context.listen(addr(1)), Err(Error::QueueFull));
    assert_eq!(context.close(), Err(Error::QueueFull));
    assert_eq!(context.shutdown(), Ok(()));
    assert_eq!(context.next_task(), None);
    assert_eq!(context.control().state(), Lifecycle::Closed);
}
