use bytes::Bytes;
use std::collections::HashMap;
use std::time::Duration;
use tentacle::context::{ProtocolContext, ServiceContext};
use tentacle::discovery::{
    answer_size, check_announce, enforce, handling, AddressManager, DiscoveryMessage,
    DiscoveryProtocol, DiscoveryReply, Handling, MisbehaveResult, Misbehavior,
    SimpleAddressManager, DEFAULT_MAX_ADDRS, DEFAULT_PENALTY, DEFAULT_SCORE, DISCOVERY_TOKEN,
};
use tentacle::error::Error;
use tentacle::multiaddr::Multiaddr;
use tentacle::protocol_select::ProtocolInfo;
use tentacle::service::ServiceTask;
use tentacle::session::{Lifecycle, SessionContext, SessionType};

fn addr(port: u16) -> Multiaddr {
    Multiaddr::new(format!("/ip4/127.0.0.1/tcp/{}", port))
}

fn service() -> ServiceContext {
    let mut protocols = HashMap::new();
    protocols.insert(1, ProtocolInfo::new("discovery".to_string(), vec!["0.0.1".to_string()]));
    let mut context = ServiceContext::new(protocols, None, Duration::from_secs(10), 16, 16);
    assert_eq!(context.register(addr(1), SessionType::Outbound, None), Some(0));
    assert_eq!(context.open_protocol(0, 1), Ok(()));
    assert!(context.next_task().is_some());
    context
}

fn session_of(context: &ServiceContext, id: usize) -> SessionContext {
    context.lookup(id).unwrap().clone()
}

#[test]
fn default_policy() {
    assert_eq!(DEFAULT_SCORE, 100);
    assert_eq!(DEFAULT_PENALTY, 20);
    assert_eq!(DISCOVERY_TOKEN, 0);
    assert_eq!(DEFAULT_MAX_ADDRS, 1000);
    let book = SimpleAddressManager::new();
    assert_eq!(book.score(0), 100);
    assert_eq!(book.len(), Some(0));
}

#[test]
fn misbehave_result_kinds() {
    assert!(MisbehaveResult::Continue.is_continue());
    assert!(!MisbehaveResult::Continue.is_disconnect());
    assert!(MisbehaveResult::Disconnect.is_disconnect());
    assert!(!MisbehaveResult::Disconnect.is_continue());
}

#[test]
fn five_misbehaviors_are_forgiven_the_sixth_is_not() {
    let mut book = SimpleAddressManager::new();
    for round in 1..=5 {
        assert_eq!(book.misbehave(3, Misbehavior::InvalidData), MisbehaveResult::Continue);
        assert_eq!(book.score(3), 100 - 20 * round);
    }
    assert_eq!(book.score(3), 0);
    assert_eq!(book.misbehave(3, Misbehavior::DuplicateGetNodes), MisbehaveResult::Disconnect);
    assert_eq!(book.score(3), -20);
}

#[test]
fn misbehavior_costs_only_the_peer_that_misbehaved() {
    let mut book = SimpleAddressManager::new();
    book.add_new_addr(1, addr(1));
    assert_eq!(book.misbehave(2, Misbehavior::TooManyAddresses(5000)), MisbehaveResult::Continue);
    assert_eq!(book.score(1), 100);
    assert_eq!(book.score(2), 80);
    assert_eq!(book.score(3), 100);
    assert_eq!(book.get_random(10), vec![addr(1)]);
}

#[test]
fn policy_is_configurable() {
    let mut book = SimpleAddressManager::with_policy(10, 11);
    assert_eq!(book.score(0), 10);
    assert_eq!(book.misbehave(0, Misbehavior::InvalidData), MisbehaveResult::Disconnect);
    assert_eq!(book.score(0), -1);
    let mut lenient = SimpleAddressManager::with_policy(0, 0);
    assert_eq!(lenient.misbehave(0, Misbehavior::InvalidData), MisbehaveResult::Continue);
    assert_eq!(lenient.score(0), 0);
}

#[test]
fn score_stops_at_the_least_score() {
    let mut book = SimpleAddressManager::with_policy(i32::MIN + 5, 10);
    assert_eq!(book.misbehave(0, Misbehavior::InvalidData), MisbehaveResult::Disconnect);
    assert_eq!(book.score(0), i32::MIN);
    assert_eq!(book.misbehave(0, Misbehavior::InvalidData), MisbehaveResult::Disconnect);
    assert_eq!(book.score(0), i32::MIN);
    let mut rewarding = SimpleAddressManager::with_policy(i32::MAX - 1, -10);
    assert_eq!(rewarding.misbehave(0, Misbehavior::InvalidData), MisbehaveResult::Continue);
    assert_eq!(rewarding.score(0), i32::MAX);
}

#[test]
fn addresses_are_kept_once_per_session() {
    let mut book = SimpleAddressManager::new();
    book.add_new_addr(1, addr(10));
    book.add_new_addr(1, addr(11));
    book.add_new_addr(1, addr(10));
    assert_eq!(book.len(), Some(2));
    book.add_new_addr(2, addr(10));
    assert_eq!(book.len(), Some(3));
    assert_eq!(book.get_random(10), vec![addr(10), addr(11), addr(10)]);
    assert_eq!(book.score(1), 100);
}

#[test]
fn bulk_add_equals_single_adds() {
    let mut bulk = SimpleAddressManager::new();
    bulk.add_new_addrs(4, vec![addr(1), addr(2), addr(1), addr(3)]);
    let mut single = SimpleAddressManager::new();
    for port in [1, 2, 1, 3] {
        single.add_new_addr(4, addr(port));
    }
    assert_eq!(bulk.get_random(10), vec![addr(1), addr(2), addr(3)]);
    assert_eq!(bulk.get_random(10), single.get_random(10));
    bulk.add_new_addrs(4, vec![]);
    assert_eq!(bulk.len(), Some(3));
}

#[test]
fn get_random_with_fewer_addresses_returns_all() {
    let mut book = SimpleAddressManager::new();
    assert_eq!(book.get_random(5), Vec::<Multiaddr>::new());
    book.add_new_addrs(0, vec![addr(1), addr(2)]);
    book.add_new_addrs(1, vec![addr(3)]);
    let all = book.get_random(10);
    assert_eq!(all, vec![addr(1), addr(2), addr(3)]);
    assert_eq!(book.get_random(3), all);
    assert_eq!(book.get_random(usize::MAX), all);
    assert_eq!(book.len(), Some(3));
}

#[test]
fn get_random_hands_out_no_more_than_asked() {
    let mut book = SimpleAddressManager::new();
    book.add_new_addrs(0, vec![addr(1), addr(2)]);
    book.add_new_addrs(1, vec![addr(3), addr(4)]);
    assert_eq!(book.get_random(0), Vec::<Multiaddr>::new());
    assert_eq!(book.get_random(1), vec![addr(1)]);
    assert_eq!(book.get_random(2), vec![addr(1), addr(2)]);
    assert_eq!(book.get_random(3), vec![addr(1), addr(2), addr(3)]);
    assert_eq!(book.get_random(4).len(), 4);
}

#[test]
fn announce_limit() {
    assert_eq!(check_announce(0, 10), None);
    assert_eq!(check_announce(10, 10), None);
    assert_eq!(check_announce(11, 10), Some(Misbehavior::TooManyAddresses(11)));
    assert_eq!(answer_size(3, 10), 3);
    assert_eq!(answer_size(10, 10), 10);
    assert_eq!(answer_size(11, 10), 10);
}

#[test]
fn enforce_disconnects_only_on_disconnect() {
    let context = service();
    let session = session_of(&context, 0);
    let mut protocol = ProtocolContext::new(context, 1);
    {
        let mut narrowed = protocol.as_mut(&session);
        assert_eq!(enforce(&mut narrowed, MisbehaveResult::Continue), Ok(()));
    }
    assert_eq!(protocol.lookup(0).unwrap().closed, Lifecycle::Open);
    {
        let mut narrowed = protocol.as_mut(&session);
        assert_eq!(enforce(&mut narrowed, MisbehaveResult::Disconnect), Ok(()));
    }
    let mut context = protocol.into_inner();
    assert_eq!(context.lookup(0).unwrap().closed, Lifecycle::Closing);
    assert_eq!(context.next_task(), Some(ServiceTask::Disconnect { session_id: 0 }));
}

#[test]
fn enforce_reports_a_missing_session() {
    let mut context = service();
    let session = session_of(&context, 0);
    context.remove(0);
    let mut protocol = ProtocolContext::new(context, 1);
    let mut narrowed = protocol.as_mut(&session);
    assert_eq!(
        enforce(&mut narrowed, MisbehaveResult::Disconnect),
        Err(Error::SessionNotFound)
    );
}

#[test]
fn discovery_starts_and_stops_the_session_timer() {
    let context = service();
    let session = session_of(&context, 0);
    let mut protocol = ProtocolContext::new(context, 1);
    let mut discovery =
        DiscoveryProtocol::new(SimpleAddressManager::new(), Duration::from_secs(7), 10);
    {
        let mut narrowed = protocol.as_mut(&session);
        assert_eq!(discovery.connected(&mut narrowed), Ok(()));
    }
    assert!(protocol.sessions().controller(0).unwrap().has_notify(1, DISCOVERY_TOKEN));
    {
        let mut narrowed = protocol.as_mut(&session);
        assert_eq!(discovery.disconnected(&mut narrowed), Ok(()));
        assert_eq!(discovery.disconnected(&mut narrowed), Ok(()));
    }
    let mut context = protocol.into_inner();
    assert!(!context.sessions().controller(0).unwrap().has_notify(1, DISCOVERY_TOKEN));
    assert_eq!(
        context.next_task(),
        Some(ServiceTask::SetProtocolSessionNotify {
            session_id: 0,
            proto_id: 1,
            interval: Duration::from_secs(7),
            token: DISCOVERY_TOKEN
        })
    );
    assert_eq!(
        context.next_task(),
        Some(ServiceTask::RemoveProtocolSessionNotify {
            session_id: 0,
            proto_id: 1,
            token: DISCOVERY_TOKEN
        })
    );
    assert_eq!(context.next_task(), None);
}

#[test]
fn discovery_learns_announced_addresses() {
    let context = service();
    let session = session_of(&context, 0);
    let mut protocol = ProtocolContext::new(context, 1);
    let mut discovery =
        DiscoveryProtocol::new(SimpleAddressManager::new(), Duration::from_secs(7), 3);
    {
        let mut narrowed = protocol.as_mut(&session);
        let reply = discovery.received(
            &mut narrowed,
            DiscoveryMessage::Nodes { addresses: vec![addr(1), addr(2), addr(1)] },
        );
        assert_eq!(reply, Ok(DiscoveryReply::Nothing));
        let answer = discovery.received(&mut narrowed, DiscoveryMessage::GetNodes { count: 1 });
        assert_eq!(answer, Ok(DiscoveryReply::Announce(vec![addr(1)])));
        let capped = discovery.received(&mut narrowed, DiscoveryMessage::GetNodes { count: 50 });
        assert_eq!(capped, Ok(DiscoveryReply::Announce(vec![addr(1), addr(2)])));
    }
    assert_eq!(discovery.notify(), DiscoveryReply::Announce(vec![addr(1), addr(2)]));
    assert_eq!(discovery.addr_mgr().score(0), 100);
    assert_eq!(discovery.addr_mgr().len(), Some(2));
    assert_eq!(protocol.lookup(0).unwrap().closed, Lifecycle::Open);
    let mut context = protocol.into_inner();
    assert_eq!(context.next_task(), None);
    assert_eq!(discovery.into_addr_mgr().get_random(5), vec![addr(1), addr(2)]);
}

#[test]
fn discovery_disconnects_a_peer_that_keeps_announcing_too_much() {
    let context = service();
    let session = session_of(&context, 0);
    let mut protocol = ProtocolContext::new(context, 1);
    let mut discovery =
        DiscoveryProtocol::new(SimpleAddressManager::new(), Duration::from_secs(7), 2);
    for round in 1..=5 {
        let mut narrowed = protocol.as_mut(&session);
        let reply = discovery.received(
            &mut narrowed,
            DiscoveryMessage::Nodes { addresses: vec![addr(1), addr(2), addr(3)] },
        );
        assert_eq!(reply, Ok(DiscoveryReply::Nothing));
        assert_eq!(discovery.addr_mgr().score(0), 100 - 20 * round);
    }
    assert_eq!(protocol.lookup(0).unwrap().closed, Lifecycle::Open);
    assert_eq!(discovery.addr_mgr().len(), Some(0));
    {
        let mut narrowed = protocol.as_mut(&session);
        let reply = discovery.received(
            &mut narrowed,
            DiscoveryMessage::Nodes { addresses: vec![addr(1), addr(2), addr(3)] },
        );
        assert_eq!(reply, Ok(DiscoveryReply::Nothing));
    }
    assert_eq!(discovery.addr_mgr().score(0), -20);
    let mut context = protocol.into_inner();
    assert_eq!(context.lookup(0).unwrap().closed, Lifecycle::Closing);
    assert_eq!(context.next_task(), Some(ServiceTask::Disconnect { session_id: 0 }));
    assert_eq!(context.send_message_to(0, 1, Bytes::from("x")), Err(Error::SessionClosed));
}

#[test]
fn handling_of_each_message() {
    assert_eq!(handling(&DiscoveryMessage::GetNodes { count: 3 }, 10), Handling::Answer(3));
    assert_eq!(handling(&DiscoveryMessage::GetNodes { count: 30 }, 10), Handling::Answer(10));
    assert_eq!(
        handling(&DiscoveryMessage::Nodes { addresses: vec![addr(1), addr(2)] }, 2),
        Handling::Learn
    );
    assert_eq!(handling(&DiscoveryMessage::Nodes { addresses: vec![] }, 0), Handling::Learn);
    assert_eq!(
        handling(&DiscoveryMessage::Nodes { addresses: vec![addr(1), addr(2), addr(3)] }, 2),
        Handling::Report(Misbehavior::TooManyAddresses(3))
    );
    assert_eq!(
        handling(&DiscoveryMessage::Malformed, 2),
        Handling::Report(Misbehavior::InvalidData)
    );
}

#[test]
fn discovery_reports_what_is_no_message() {
    let context = service();
    let session = session_of(&context, 0);
    let mut protocol = ProtocolContext::new(context, 1);
    let mut discovery =
        DiscoveryProtocol::new(SimpleAddressManager::with_policy(20, 20), Duration::from_secs(7), 2);
    {
        let mut narrowed = protocol.as_mut(&session);
        assert_eq!(
            discovery.received(&mut narrowed, DiscoveryMessage::Malformed),
            Ok(DiscoveryReply::Nothing)
        );
    }
    assert_eq!(discovery.addr_mgr().score(0), 0);
    assert_eq!(protocol.lookup(0).unwrap().closed, Lifecycle::Open);
    {
        let mut narrowed = protocol.as_mut(&session);
        assert_eq!(
            discovery.received(&mut narrowed, DiscoveryMessage::Malformed),
            Ok(DiscoveryReply::Nothing)
        );
    }
    assert_eq!(discovery.addr_mgr().score(0), -20);
    assert_eq!(protocol.lookup(0).unwrap().closed, Lifecycle::Closing);
}

#[test]
fn discovery_reports_a_refused_disconnection() {
    let mut protocols = HashMap::new();
    protocols.insert(1, ProtocolInfo::new("discovery".to_string(), vec!["0.0.1".to_string()]));
    let mut context = ServiceContext::new(protocols, None, Duration::from_secs(10), 1, 16);
    assert_eq!(context.register(addr(1), SessionType::Outbound, None), Some(0));
    assert_eq!(context.open_protocol(0, 1), Ok(()));
    let session = session_of(&context, 0);
    let mut protocol = ProtocolContext::new(context, 1);
    let mut discovery =
        DiscoveryProtocol::new(SimpleAddressManager::with_policy(0, 1), Duration::from_secs(7), 0);
    let mut narrowed = protocol.as_mut(&session);
    let reply =
        discovery.received(&mut narrowed, DiscoveryMessage::Nodes { addresses: vec![addr(1)] });
    assert_eq!(reply, Err(Error::QueueFull));
    assert_eq!(narrowed.lookup(0).unwrap().closed, Lifecycle::Open);
}

#[test]
fn notify_asks_the_book_for_as_many_as_a_peer_may_announce() {
    let mut book = SimpleAddressManager::new();
    book.add_new_addrs(0, vec![addr(1), addr(2)]);
    book.add_new_addrs(1, vec![addr(3)]);
    let mut discovery = DiscoveryProtocol::new(book, Duration::from_secs(7), 2);
    assert_eq!(discovery.notify(), DiscoveryReply::Announce(vec![addr(1), addr(2)]));
    assert_eq!(discovery.notify(), DiscoveryReply::Announce(vec![addr(1), addr(2)]));
    assert_eq!(discovery.addr_mgr().len(), Some(3));
    let mut none = DiscoveryProtocol::new(SimpleAddressManager::new(), Duration::from_secs(7), 0);
    assert_eq!(none.notify(), DiscoveryReply::Announce(vec![]));
}

#[test]
fn only_the_discovery_timer_announces() {
    let mut book = SimpleAddressManager::new();
    book.add_new_addrs(0, vec![addr(1), addr(2)]);
    let mut discovery = DiscoveryProtocol::new(book, Duration::from_secs(7), 5);
    assert_eq!(discovery.timer_fired(DISCOVERY_TOKEN + 1), DiscoveryReply::Nothing);
    assert_eq!(discovery.timer_fired(u64::MAX), DiscoveryReply::Nothing);
    assert_eq!(
        discovery.timer_fired(DISCOVERY_TOKEN),
        DiscoveryReply::Announce(vec![addr(1), addr(2)])
    );
    assert_eq!(discovery.addr_mgr().len(), Some(2));
}

#[test]
fn an_address_learned_twice_from_one_session_is_handed_out_once() {
    let mut book = SimpleAddressManager::new();
    book.add_new_addr(3, addr(7));
    book.add_new_addr(3, addr(7));
    book.add_new_addrs(3, vec![addr(7), addr(7)]);
    assert_eq!(book.get_random(10), vec![addr(7)]);
    book.add_new_addr(4, addr(7));
    assert_eq!(book.get_random(10), vec![addr(7), addr(7)]);
}
