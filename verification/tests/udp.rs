use oxidinetd::config::Protocol;
use oxidinetd::net::{Endpoint, IpAddress, Ipv4Address, Ipv6Address};
use oxidinetd::udp_handler::{
    copy_bytes, expired, invalid_protocol_message, Link, UdpAction, UdpConnection, UdpEvent,
    UdpForwarder, UdpSessionTable, STREAM_REPLY_WAIT_MS, UDP_REPLY_WAIT_MS,
};

fn client(port: u16) -> Endpoint {
    Endpoint { ip: IpAddress::V4(Ipv4Address::new(127, 0, 0, 1)), port }
}

#[test]
fn default_timeout_is_72_seconds() {
    assert_eq!(UdpForwarder::new(None, Protocol::Udp).timeout_secs(), 72);
    assert_eq!(UdpForwarder::new(Some(5), Protocol::Udp).timeout_secs(), 5);
    assert_eq!(UdpForwarder::new(Some(0), Protocol::UdpToTcp).timeout_secs(), 0);
    assert_eq!(UdpForwarder::new(None, Protocol::UdpToTcp).protocol(), Protocol::UdpToTcp);
    assert_eq!(UdpForwarder::new(None, Protocol::Udp).sessions().len(), 0);
}

#[test]
fn reply_waits() {
    assert_eq!(UDP_REPLY_WAIT_MS, 1000);
    assert_eq!(STREAM_REPLY_WAIT_MS, 100);
}

#[test]
fn expiry_is_at_the_timeout() {
    assert!(!expired(0, 4999, 5));
    assert!(expired(0, 5000, 5));
    assert!(expired(0, 6000, 5));
    assert!(!expired(1000, 5999, 5));
    assert!(expired(1000, 6000, 5));
    assert!(!expired(6000, 1000, 5));
    assert!(expired(7, 7, 0));
    assert!(!expired(0, u64::MAX, u64::MAX));
    assert!(expired(0, u64::MAX, 18_446_744_073_709_551));
    assert!(!expired(0, u64::MAX, 18_446_744_073_709_552));
}

#[test]
fn copies_hold_the_same_bytes() {
    assert_eq!(copy_bytes(b"ping"), b"ping".to_vec());
    assert_eq!(copy_bytes(&[]), Vec::<u8>::new());
}

#[test]
fn table_creates_one_session_per_client() {
    let mut table = UdpSessionTable::new();
    assert_eq!(table.len(), 0);
    assert!(!table.contains(client(1)));
    assert!(table.get(client(1)).is_none());
    assert!(table.get_or_create(client(1), 10));
    assert!(!table.get_or_create(client(1), 20));
    assert!(table.get_or_create(client(2), 30));
    assert_eq!(table.len(), 2);
    let first = table.get(client(1)).unwrap();
    assert_eq!(first.remote_addr(), client(1));
    assert_eq!(first.last_activity(), 10);
    assert_eq!(first.link(), Link::Disconnected);
    assert!(first.buffer().is_empty());
    assert_eq!(table.get(client(2)).unwrap().last_activity(), 30);
}

#[test]
fn table_tells_endpoints_apart_by_family_and_port() {
    let mut table = UdpSessionTable::new();
    let six = Endpoint { ip: IpAddress::V6(Ipv6Address::new(0, 0, 0, 0, 0, 0, 0, 1)), port: 1 };
    table.get_or_create(client(1), 0);
    assert!(!table.contains(six));
    assert!(!table.contains(client(2)));
    table.get_or_create(six, 0);
    assert_eq!(table.len(), 2);
}

#[test]
fn table_touch_and_link_change_one_session() {
    let mut table = UdpSessionTable::new();
    table.get_or_create(client(1), 10);
    table.get_or_create(client(2), 10);
    table.touch(client(1), 50);
    table.set_link(client(2), Link::Connected);
    table.touch(client(3), 99);
    table.set_link(client(3), Link::Connected);
    assert_eq!(table.len(), 2);
    assert_eq!(table.get(client(1)).unwrap().last_activity(), 50);
    assert_eq!(table.get(client(1)).unwrap().link(), Link::Disconnected);
    assert_eq!(table.get(client(2)).unwrap().last_activity(), 10);
    assert_eq!(table.get(client(2)).unwrap().link(), Link::Connected);
}

#[test]
fn table_insert_replaces_the_session_of_the_client() {
    let mut table = UdpSessionTable::new();
    table.get_or_create(client(1), 10);
    table.set_link(client(1), Link::Connected);
    table.insert(UdpConnection::new(client(1), 77));
    assert_eq!(table.len(), 1);
    assert_eq!(table.get(client(1)).unwrap().last_activity(), 77);
    assert_eq!(table.get(client(1)).unwrap().link(), Link::Disconnected);
}

#[test]
fn table_buffer_swaps() {
    let mut table = UdpSessionTable::new();
    table.get_or_create(client(1), 10);
    assert_eq!(table.swap_buffer(client(1), b"abc".to_vec()), Vec::<u8>::new());
    assert_eq!(table.get(client(1)).unwrap().buffer(), &b"abc".to_vec());
    assert_eq!(table.swap_buffer(client(1), Vec::new()), b"abc".to_vec());
    assert!(table.get(client(1)).unwrap().buffer().is_empty());
    assert_eq!(table.swap_buffer(client(9), b"xyz".to_vec()), b"xyz".to_vec());
    assert!(!table.contains(client(9)));
}

#[test]
fn sweep_removes_the_idle_and_keeps_the_active() {
    let mut table = UdpSessionTable::new();
    table.get_or_create(client(1), 0);
    table.get_or_create(client(2), 2000);
    table.get_or_create(client(3), 1000);
    table.get_or_create(client(4), 1001);
    table.sweep_expired(6000, 5);
    assert!(!table.contains(client(1)));
    assert!(table.contains(client(2)));
    assert!(!table.contains(client(3)));
    assert!(table.contains(client(4)));
    assert_eq!(table.len(), 2);
    assert_eq!(table.get(client(2)).unwrap().last_activity(), 2000);
    table.sweep_expired(6000, 5);
    assert_eq!(table.len(), 2);
    table.sweep_expired(100_000, 5);
    assert_eq!(table.len(), 0);
}

#[test]
fn udp_ping_pong_and_expiry() {
    let mut bridge = UdpForwarder::new(Some(5), Protocol::Udp);
    let c = client(40000);
    assert!(matches!(bridge.step(UdpEvent::Tick { now: 0 }), UdpAction::Receive));
    match bridge.step(UdpEvent::Datagram { from: c, payload: b"ping".to_vec(), now: 0 }) {
        UdpAction::Send { client, payload } => {
            assert_eq!(client, c);
            assert_eq!(payload, b"ping".to_vec());
        },
        other => panic!("expected Send, got {:?}", other),
    }
    assert!(bridge.sessions().contains(c));
    match bridge.step(UdpEvent::Sent { client: c }) {
        UdpAction::AwaitReply { client, wait_ms } => {
            assert_eq!(client, c);
            assert_eq!(wait_ms, 1000);
        },
        other => panic!("expected AwaitReply, got {:?}", other),
    }
    match bridge.step(UdpEvent::Reply { client: c, payload: b"pong".to_vec() }) {
        UdpAction::Deliver { client, payload } => {
            assert_eq!(client, c);
            assert_eq!(payload, b"pong".to_vec());
        },
        other => panic!("expected Deliver, got {:?}", other),
    }
    assert!(matches!(bridge.step(UdpEvent::Tick { now: 4999 }), UdpAction::Receive));
    assert!(bridge.sessions().contains(c));
    assert!(matches!(bridge.step(UdpEvent::Tick { now: 6000 }), UdpAction::Receive));
    assert!(!bridge.sessions().contains(c));
    assert_eq!(bridge.sessions().len(), 0);
}

#[test]
fn udp_session_with_activity_inside_the_timeout_persists() {
    let mut bridge = UdpForwarder::new(Some(5), Protocol::Udp);
    let c = client(1);
    bridge.step(UdpEvent::Datagram { from: c, payload: b"a".to_vec(), now: 0 });
    bridge.step(UdpEvent::Datagram { from: c, payload: b"b".to_vec(), now: 4000 });
    bridge.step(UdpEvent::Tick { now: 6000 });
    assert!(bridge.sessions().contains(c));
    assert_eq!(bridge.sessions().get(c).unwrap().last_activity(), 4000);
    assert_eq!(bridge.sessions().get(c).unwrap().buffer(), &b"b".to_vec());
    assert_eq!(bridge.sessions().len(), 1);
    bridge.step(UdpEvent::Tick { now: 9000 });
    assert!(!bridge.sessions().contains(c));
}

#[test]
fn udp_relay_without_reply_goes_back_to_receiving() {
    let mut bridge = UdpForwarder::new(None, Protocol::Udp);
    let c = client(1);
    bridge.step(UdpEvent::Datagram { from: c, payload: b"a".to_vec(), now: 0 });
    assert!(matches!(bridge.step(UdpEvent::ReplyTimeout { client: c }), UdpAction::Finished));
    assert!(matches!(bridge.step(UdpEvent::SendFailed { client: c }), UdpAction::Finished));
    assert!(matches!(bridge.step(UdpEvent::RemoteFailed { client: c }), UdpAction::Finished));
    assert!(bridge.sessions().contains(c));
}

#[test]
fn udp_relay_delivers_an_empty_reply_datagram() {
    let mut bridge = UdpForwarder::new(None, Protocol::Udp);
    let c = client(1);
    bridge.step(UdpEvent::Datagram { from: c, payload: b"a".to_vec(), now: 0 });
    match bridge.step(UdpEvent::Reply { client: c, payload: Vec::new() }) {
        UdpAction::Deliver { client, payload } => {
            assert_eq!(client, c);
            assert!(payload.is_empty());
        },
        other => panic!("expected Deliver, got {:?}", other),
    }
}

#[test]
fn udp_to_tcp_connects_once_and_writes_each_datagram() {
    let mut bridge = UdpForwarder::new(None, Protocol::UdpToTcp);
    let c = client(1);
    match bridge.step(UdpEvent::Datagram { from: c, payload: b"one".to_vec(), now: 5 }) {
        UdpAction::Connect { client } => assert_eq!(client, c),
        other => panic!("expected Connect, got {:?}", other),
    }
    assert_eq!(bridge.sessions().get(c).unwrap().link(), Link::Disconnected);
    assert_eq!(bridge.sessions().get(c).unwrap().buffer(), &b"one".to_vec());
    match bridge.step(UdpEvent::Connected { client: c }) {
        UdpAction::Send { client, payload } => {
            assert_eq!(client, c);
            assert_eq!(payload, b"one".to_vec());
        },
        other => panic!("expected Send, got {:?}", other),
    }
    assert_eq!(bridge.sessions().get(c).unwrap().link(), Link::Connected);
    assert!(bridge.sessions().get(c).unwrap().buffer().is_empty());
    match bridge.step(UdpEvent::Sent { client: c }) {
        UdpAction::AwaitReply { client, wait_ms } => {
            assert_eq!(client, c);
            assert_eq!(wait_ms, 100);
        },
        other => panic!("expected AwaitReply, got {:?}", other),
    }
    match bridge.step(UdpEvent::Reply { client: c, payload: b"answer".to_vec() }) {
        UdpAction::Deliver { client, payload } => {
            assert_eq!(client, c);
            assert_eq!(payload, b"answer".to_vec());
        },
        other => panic!("expected Deliver, got {:?}", other),
    }
    match bridge.step(UdpEvent::Datagram { from: c, payload: b"two".to_vec(), now: 9 }) {
        UdpAction::Send { client, payload } => {
            assert_eq!(client, c);
            assert_eq!(payload, b"two".to_vec());
        },
        other => panic!("expected Send, got {:?}", other),
    }
    assert_eq!(bridge.sessions().get(c).unwrap().last_activity(), 9);
    assert_eq!(bridge.sessions().len(), 1);
}

#[test]
fn udp_to_tcp_failed_connect_drops_the_datagram_and_retries_on_the_next() {
    let mut bridge = UdpForwarder::new(None, Protocol::UdpToTcp);
    let c = client(1);
    bridge.step(UdpEvent::Datagram { from: c, payload: b"one".to_vec(), now: 5 });
    assert!(matches!(bridge.step(UdpEvent::ConnectFailed { client: c }), UdpAction::Finished));
    assert!(bridge.sessions().contains(c));
    assert_eq!(bridge.sessions().get(c).unwrap().link(), Link::Disconnected);
    assert!(bridge.sessions().get(c).unwrap().buffer().is_empty());
    assert!(matches!(
        bridge.step(UdpEvent::Datagram { from: c, payload: b"two".to_vec(), now: 6 }),
        UdpAction::Connect { .. }
    ));
}

#[test]
fn udp_to_tcp_broken_connection_is_given_up() {
    let c = client(1);
    let failures = [0u8, 1, 2];
    for which in failures {
        let mut bridge = UdpForwarder::new(None, Protocol::UdpToTcp);
        bridge.step(UdpEvent::Datagram { from: c, payload: b"one".to_vec(), now: 5 });
        bridge.step(UdpEvent::Connected { client: c });
        let failure = match which {
            0 => UdpEvent::SendFailed { client: c },
            1 => UdpEvent::RemoteClosed { client: c },
            _ => UdpEvent::RemoteFailed { client: c },
        };
        assert!(matches!(bridge.step(failure), UdpAction::Finished));
        assert_eq!(bridge.sessions().get(c).unwrap().link(), Link::Disconnected);
        assert!(matches!(
            bridge.step(UdpEvent::Datagram { from: c, payload: b"two".to_vec(), now: 6 }),
            UdpAction::Connect { .. }
        ));
    }
}

#[test]
fn udp_to_tcp_no_bytes_are_no_answer() {
    let mut bridge = UdpForwarder::new(None, Protocol::UdpToTcp);
    let c = client(1);
    bridge.step(UdpEvent::Datagram { from: c, payload: b"one".to_vec(), now: 5 });
    bridge.step(UdpEvent::Connected { client: c });
    assert!(matches!(
        bridge.step(UdpEvent::Reply { client: c, payload: Vec::new() }),
        UdpAction::Finished
    ));
    assert!(matches!(bridge.step(UdpEvent::ReplyTimeout { client: c }), UdpAction::Finished));
    assert_eq!(bridge.sessions().get(c).unwrap().link(), Link::Connected);
}

#[test]
fn udp_to_tcp_sessions_are_swept_on_tick() {
    let mut bridge = UdpForwarder::new(Some(5), Protocol::UdpToTcp);
    let idle = client(1);
    let busy = client(2);
    bridge.step(UdpEvent::Datagram { from: idle, payload: b"one".to_vec(), now: 1_000 });
    bridge.step(UdpEvent::Connected { client: idle });
    bridge.step(UdpEvent::Datagram { from: busy, payload: b"two".to_vec(), now: 97_000 });
    bridge.step(UdpEvent::Connected { client: busy });

    assert!(matches!(bridge.step(UdpEvent::Tick { now: 100_000 }), UdpAction::Receive));
    assert!(!bridge.sessions().contains(idle));
    assert!(bridge.sessions().contains(busy));
    assert_eq!(bridge.sessions().get(busy).unwrap().link(), Link::Connected);
    assert_eq!(bridge.sessions().len(), 1);

    // The client that was swept starts over: its next datagram asks for a
    // new connection.
    assert!(matches!(
        bridge.step(UdpEvent::Datagram { from: idle, payload: b"three".to_vec(), now: 100_001 }),
        UdpAction::Connect { .. }
    ));
}

#[test]
fn udp_to_tcp_session_idle_for_the_timeout_exactly_is_swept() {
    let mut bridge = UdpForwarder::new(Some(5), Protocol::UdpToTcp);
    let c = client(1);
    bridge.step(UdpEvent::Datagram { from: c, payload: b"one".to_vec(), now: 1_000 });
    assert!(matches!(bridge.step(UdpEvent::Tick { now: 5_999 }), UdpAction::Receive));
    assert!(bridge.sessions().contains(c));
    assert!(matches!(bridge.step(UdpEvent::Tick { now: 6_000 }), UdpAction::Receive));
    assert!(!bridge.sessions().contains(c));
}

#[test]
fn udp_to_tcp_keeps_clients_apart() {
    let mut bridge = UdpForwarder::new(None, Protocol::UdpToTcp);
    bridge.step(UdpEvent::Datagram { from: client(1), payload: b"one".to_vec(), now: 0 });
    bridge.step(UdpEvent::Connected { client: client(1) });
    assert!(matches!(
        bridge.step(UdpEvent::Datagram { from: client(2), payload: b"two".to_vec(), now: 1 }),
        UdpAction::Connect { .. }
    ));
    assert!(matches!(bridge.step(UdpEvent::Connected { client: client(3) }), UdpAction::Finished));
    assert_eq!(bridge.sessions().len(), 2);
    assert_eq!(bridge.sessions().get(client(1)).unwrap().link(), Link::Connected);
    assert_eq!(bridge.sessions().get(client(2)).unwrap().link(), Link::Disconnected);
}

#[test]
fn bridge_refuses_protocols_without_udp_listener() {
    for protocol in [Protocol::Tcp, Protocol::TcpToUdp] {
        let mut bridge = UdpForwarder::new(None, protocol);
        assert!(matches!(bridge.step(UdpEvent::Tick { now: 0 }), UdpAction::InvalidProtocol));
        assert!(matches!(
            bridge.step(UdpEvent::Datagram { from: client(1), payload: Vec::new(), now: 0 }),
            UdpAction::InvalidProtocol
        ));
        assert_eq!(bridge.sessions().len(), 0);
    }
    assert_eq!(invalid_protocol_message(), "Invalid protocol for UDP handler");
}
