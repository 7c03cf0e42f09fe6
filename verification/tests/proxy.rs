use twinleaf::packet::Packet;
use twinleaf::payload::{Payload, RpcError, RpcErrorCode, RpcMethod, RpcReply, RpcRequest};
use twinleaf::meta::StreamData;
use twinleaf::proxy::{
    backoff, link_step, Delivery, LinkEvent, LinkState, Proxy, RecvError, SendError,
    TrafficFilter,
};
use twinleaf::route::DeviceRoute;

fn route(s: &str) -> DeviceRoute {
    DeviceRoute::from_str(s).unwrap()
}

fn beat(r: &str, tag: u8) -> Packet {
    Packet { payload: Payload::Heartbeat(vec![tag]), routing: route(r), ttl: 0 }
}

fn tag(packet: &Packet) -> u8 {
    match &packet.payload {
        Payload::Heartbeat(b) => b[0],
        _ => panic!("not a heartbeat"),
    }
}

fn request(id: u16) -> Packet {
    Packet {
        payload: Payload::RpcRequest(RpcRequest {
            id,
            method: RpcMethod::Name("dev.name".to_string()),
            arg: vec![],
        }),
        routing: route("/"),
        ttl: 0,
    }
}

fn request_id(packet: &Packet) -> u16 {
    match &packet.payload {
        Payload::RpcRequest(r) => r.id,
        _ => panic!("not a request"),
    }
}

fn reply(id: u16, body: u8) -> Packet {
    Packet { payload: Payload::RpcReply(RpcReply { id, reply: vec![body] }), routing: route("/"), ttl: 0 }
}

fn connected(kick_slow: bool) -> Proxy {
    let mut proxy = Proxy::new(kick_slow);
    assert_eq!(proxy.link(), LinkState::Disconnected);
    proxy.on_link(LinkEvent::ConnectOk);
    assert_eq!(proxy.link(), LinkState::Connected);
    proxy
}

#[test]
fn link_follows_its_state_machine() {
    assert_eq!(link_step(LinkState::Disconnected, LinkEvent::ConnectOk), LinkState::Connected);
    assert_eq!(link_step(LinkState::Connected, LinkEvent::RecvOk), LinkState::Connected);
    assert_eq!(link_step(LinkState::Connected, LinkEvent::RecvErr), LinkState::Reconnecting);
    assert_eq!(link_step(LinkState::Connected, LinkEvent::SendErr), LinkState::Reconnecting);
    assert_eq!(link_step(LinkState::Reconnecting, LinkEvent::RetryOk), LinkState::Connected);
    assert_eq!(link_step(LinkState::Reconnecting, LinkEvent::DeadlineExceeded), LinkState::Failed);
    for event in [LinkEvent::ConnectOk, LinkEvent::RecvOk, LinkEvent::RecvErr, LinkEvent::SendErr, LinkEvent::RetryOk, LinkEvent::DeadlineExceeded] {
        assert_eq!(link_step(LinkState::Failed, event), LinkState::Failed);
    }
    assert_eq!(link_step(LinkState::Disconnected, LinkEvent::RecvErr), LinkState::Disconnected);
    assert_eq!(link_step(LinkState::Connected, LinkEvent::DeadlineExceeded), LinkState::Connected);
    assert_eq!(link_step(LinkState::Reconnecting, LinkEvent::RecvErr), LinkState::Reconnecting);
}

#[test]
fn backoff_doubles_up_to_the_deadline() {
    assert_eq!(backoff(100, 0, 0, 30000), Some(100));
    assert_eq!(backoff(100, 1, 100, 30000), Some(200));
    assert_eq!(backoff(100, 3, 700, 30000), Some(800));
    assert_eq!(backoff(100, 8, 25500, 30000), Some(4500));
    assert_eq!(backoff(100, 20, 0, 30000), Some(30000));
    assert_eq!(backoff(100, 4000000000, 29999, 30000), Some(1));
    assert_eq!(backoff(100, 2, 30000, 30000), None);
    assert_eq!(backoff(100, 2, 40000, 30000), None);
    assert_eq!(backoff(0, 5, 0, 30000), Some(0));
    assert_eq!(backoff(u64::MAX, 1, 0, u64::MAX), Some(u64::MAX));
}

#[test]
fn packets_fan_out_to_ports_in_scope_in_wire_order() {
    let mut proxy = connected(false);
    let all = proxy.new_port(route("/"), 8, TrafficFilter::all(), false, 100);
    let zero = proxy.new_port(route("/0"), 8, TrafficFilter::all(), false, 100);
    let one_only = proxy.new_port(route("/1"), 0, TrafficFilter::all(), false, 100);
    assert_eq!((all, zero, one_only), (0, 1, 2));
    let wire = [("/0", 1u8), ("/1", 2), ("/0/5", 3), ("/1/5", 4), ("/", 5), ("/0", 6)];
    let mut outcomes = Vec::new();
    for (r, t) in wire {
        outcomes.push(proxy.deliver(&beat(r, t)));
    }
    assert_eq!(
        outcomes,
        vec![
            vec![Delivery::Queued, Delivery::Queued, Delivery::Skipped],
            vec![Delivery::Queued, Delivery::Skipped, Delivery::Queued],
            vec![Delivery::Queued, Delivery::Queued, Delivery::Skipped],
            vec![Delivery::Queued, Delivery::Skipped, Delivery::Skipped],
            vec![Delivery::Queued, Delivery::Skipped, Delivery::Skipped],
            vec![Delivery::Queued, Delivery::Queued, Delivery::Skipped],
        ]
    );
    let drain = |proxy: &mut Proxy, port: usize| {
        let mut tags = Vec::new();
        loop {
            match proxy.recv(port) {
                Ok(p) => tags.push(tag(&p)),
                Err(e) => {
                    assert_eq!(e, RecvError::WouldBlock);
                    break;
                }
            }
        }
        tags
    };
    assert_eq!(drain(&mut proxy, all), vec![1, 2, 3, 4, 5, 6]);
    assert_eq!(drain(&mut proxy, zero), vec![1, 3, 6]);
    assert_eq!(drain(&mut proxy, one_only), vec![2]);
}

#[test]
fn slow_port_drops_packets_when_not_kicked() {
    let mut proxy = connected(false);
    let slow = proxy.new_port(route("/"), 8, TrafficFilter::all(), false, 2);
    let fast = proxy.new_port(route("/"), 8, TrafficFilter::all(), false, 100);
    for t in 0..5 {
        let outcome = proxy.deliver(&beat("/", t));
        assert_eq!(outcome[fast], Delivery::Queued);
        assert_eq!(outcome[slow], if t < 2 { Delivery::Queued } else { Delivery::Dropped });
    }
    assert_eq!(proxy.dropped(slow), 3);
    assert_eq!(proxy.dropped(fast), 0);
    assert!(proxy.is_open(slow));
    assert_eq!(tag(&proxy.recv(slow).unwrap()), 0);
    // There is room again.
    assert_eq!(proxy.deliver(&beat("/", 9))[slow], Delivery::Queued);
    assert_eq!(tag(&proxy.recv(slow).unwrap()), 1);
    assert_eq!(tag(&proxy.recv(slow).unwrap()), 9);
    assert_eq!(proxy.recv(slow).unwrap_err(), RecvError::WouldBlock);
}

#[test]
fn slow_port_is_closed_when_kicked() {
    let mut proxy = connected(true);
    let slow = proxy.new_port(route("/"), 8, TrafficFilter::all(), false, 1);
    assert_eq!(proxy.deliver(&beat("/", 0))[slow], Delivery::Queued);
    assert_eq!(proxy.deliver(&beat("/", 1))[slow], Delivery::Kicked);
    assert!(!proxy.is_open(slow));
    assert_eq!(proxy.recv(slow).unwrap_err(), RecvError::Closed);
    assert_eq!(proxy.deliver(&beat("/", 2))[slow], Delivery::Skipped);
    assert_eq!(proxy.send(slow, beat("/", 3)).unwrap_err(), SendError::Closed);
}

#[test]
fn rpc_replies_go_to_the_port_that_asked() {
    let mut proxy = connected(false);
    let a = proxy.new_port(route("/"), 8, TrafficFilter::all(), true, 100);
    let b = proxy.new_port(route("/"), 8, TrafficFilter::all(), true, 100);
    let watcher = proxy.new_port(route("/"), 8, TrafficFilter::all(), false, 100);
    // Both ports use the same id for their requests.
    let out_a = proxy.send(a, request(7)).unwrap();
    let out_b = proxy.send(b, request(7)).unwrap();
    let (id_a, id_b) = (request_id(&out_a), request_id(&out_b));
    assert_eq!((id_a, id_b), (0, 1));
    assert_eq!(proxy.pending_count(), 2);
    // The replies come in the other order.
    assert_eq!(proxy.deliver(&reply(id_b, 22)), vec![Delivery::Skipped, Delivery::Queued, Delivery::Skipped]);
    assert_eq!(proxy.deliver(&reply(id_a, 11)), vec![Delivery::Queued, Delivery::Skipped, Delivery::Skipped]);
    assert_eq!(proxy.pending_count(), 0);
    let got_a = proxy.recv(a).unwrap();
    let got_b = proxy.recv(b).unwrap();
    assert!(matches!(got_a.payload, Payload::RpcReply(ref r) if r.id == 7 && r.reply == vec![11]));
    assert!(matches!(got_b.payload, Payload::RpcReply(ref r) if r.id == 7 && r.reply == vec![22]));
    assert_eq!(proxy.recv(a).unwrap_err(), RecvError::WouldBlock);
    assert_eq!(proxy.recv(watcher).unwrap_err(), RecvError::WouldBlock);
}

#[test]
fn rpc_errors_are_routed_like_replies() {
    let mut proxy = connected(false);
    let a = proxy.new_port(route("/"), 8, TrafficFilter::all(), true, 100);
    let out = proxy.send(a, request(300)).unwrap();
    let refusal = Packet {
        payload: Payload::RpcError(RpcError {
            id: request_id(&out),
            error: RpcErrorCode::NotFound,
            message: "no".to_string(),
        }),
        routing: route("/"),
        ttl: 0,
    };
    assert_eq!(proxy.deliver(&refusal), vec![Delivery::Queued]);
    assert!(matches!(
        proxy.recv(a).unwrap().payload,
        Payload::RpcError(ref e) if e.id == 300 && e.error == RpcErrorCode::NotFound && e.message == "no"
    ));
}

#[test]
fn ids_count_up_and_skip_those_in_use() {
    let mut proxy = connected(false);
    let a = proxy.new_port(route("/"), 8, TrafficFilter::all(), true, 100);
    let ids: Vec<u16> = (0..4).map(|_| request_id(&proxy.send(a, request(0)).unwrap())).collect();
    assert_eq!(ids, vec![0, 1, 2, 3]);
    // A reply frees its id, but the count goes on.
    proxy.deliver(&reply(1, 0));
    assert_eq!(request_id(&proxy.send(a, request(0)).unwrap()), 4);
    // A timeout frees an id too.
    proxy.expire(2);
    assert_eq!(proxy.pending_count(), 3);
    // After the largest id the count starts over and passes the ids in use.
    for expected in 5..=65535u16 {
        let out = proxy.send(a, request(0)).unwrap();
        assert_eq!(request_id(&out), expected);
        proxy.deliver(&reply(expected, 0));
    }
    let next: Vec<u16> = (0..3).map(|_| request_id(&proxy.send(a, request(0)).unwrap())).collect();
    assert_eq!(next, vec![1, 2, 5]);
}

#[test]
fn request_is_refused_when_no_id_is_free() {
    let mut proxy = connected(false);
    let a = proxy.new_port(route("/"), 8, TrafficFilter::all(), true, 1);
    for _ in 0..65536u32 {
        proxy.send(a, request(0)).unwrap();
    }
    assert_eq!(proxy.pending_count(), 65536);
    assert_eq!(proxy.send(a, request(0)).unwrap_err(), SendError::NoFreeId);
    proxy.expire(40000);
    assert_eq!(request_id(&proxy.send(a, request(0)).unwrap()), 40000);
}

#[test]
fn ports_that_are_no_rpc_ports_send_requests_as_they_are() {
    let mut proxy = connected(false);
    let raw = proxy.new_port(route("/"), 8, TrafficFilter::all(), false, 100);
    let out = proxy.send(raw, request(4242)).unwrap();
    assert_eq!(request_id(&out), 4242);
    assert_eq!(proxy.pending_count(), 0);
    // The reply is nobody's in particular: every port in scope gets it.
    assert_eq!(proxy.deliver(&reply(4242, 1)), vec![Delivery::Queued]);
    // Other packets of an RPC port go out as they are, too.
    let rpc = proxy.new_port(route("/"), 8, TrafficFilter::all(), true, 100);
    assert_eq!(tag(&proxy.send(rpc, beat("/0", 3)).unwrap()), 3);
}

#[test]
fn closing_a_port_frees_its_requests() {
    let mut proxy = connected(false);
    let a = proxy.new_port(route("/"), 8, TrafficFilter::all(), true, 100);
    let b = proxy.new_port(route("/"), 8, TrafficFilter::all(), true, 100);
    proxy.send(a, request(1)).unwrap();
    let kept = request_id(&proxy.send(b, request(2)).unwrap());
    proxy.send(a, request(3)).unwrap();
    assert_eq!(proxy.pending_count(), 3);
    proxy.close_port(a);
    assert_eq!(proxy.pending_count(), 1);
    assert!(!proxy.is_open(a));
    assert_eq!(proxy.recv(a).unwrap_err(), RecvError::Closed);
    // A reply to a request of the closed port is now an ordinary packet.
    assert_eq!(proxy.deliver(&reply(0, 1)), vec![Delivery::Skipped, Delivery::Queued]);
    assert_eq!(proxy.deliver(&reply(kept, 1)), vec![Delivery::Skipped, Delivery::Queued]);
    let first = proxy.recv(b).unwrap();
    assert!(matches!(first.payload, Payload::RpcReply(ref r) if r.id == 0));
    let second = proxy.recv(b).unwrap();
    assert!(matches!(second.payload, Payload::RpcReply(ref r) if r.id == 2));
    proxy.close_port(99);
    assert_eq!(proxy.port_count(), 2);
}

#[test]
fn failed_link_is_seen_by_every_port() {
    let mut proxy = connected(false);
    let a = proxy.new_port(route("/"), 8, TrafficFilter::all(), true, 100);
    proxy.deliver(&beat("/", 1));
    proxy.on_link(LinkEvent::RecvErr);
    assert_eq!(proxy.link(), LinkState::Reconnecting);
    // While reconnecting, what is queued can still be had.
    assert_eq!(tag(&proxy.recv(a).unwrap()), 1);
    proxy.deliver(&beat("/", 2));
    proxy.on_link(LinkEvent::DeadlineExceeded);
    assert_eq!(proxy.link(), LinkState::Failed);
    assert_eq!(proxy.recv(a).unwrap_err(), RecvError::TransportGone);
    assert_eq!(proxy.send(a, request(1)).unwrap_err(), SendError::TransportGone);
    proxy.on_link(LinkEvent::RetryOk);
    assert_eq!(proxy.link(), LinkState::Failed);
}

#[test]
fn unknown_ports_are_reported() {
    let mut proxy = connected(false);
    assert_eq!(proxy.recv(0).unwrap_err(), RecvError::NoSuchPort);
    assert_eq!(proxy.send(0, beat("/", 1)).unwrap_err(), SendError::NoSuchPort);
    assert!(proxy.deliver(&beat("/", 1)).is_empty());
}

#[test]
fn ports_take_only_the_traffic_they_ask_for() {
    let mut proxy = connected(false);
    let data_only = proxy.new_port(
        route("/"),
        8,
        TrafficFilter { data: true, metadata: false, heartbeat: false, other: false },
        false,
        100,
    );
    let no_beats = proxy.new_port(
        route("/"),
        8,
        TrafficFilter { data: true, metadata: true, heartbeat: false, other: true },
        false,
        100,
    );
    let data = Packet {
        payload: Payload::StreamData(StreamData { stream_id: 1, first_sample_n: 0, data: vec![] }),
        routing: route("/"),
        ttl: 0,
    };
    assert_eq!(proxy.deliver(&data), vec![Delivery::Queued, Delivery::Queued]);
    assert_eq!(proxy.deliver(&beat("/", 1)), vec![Delivery::Skipped, Delivery::Skipped]);
    assert_eq!(proxy.deliver(&reply(9, 1)), vec![Delivery::Skipped, Delivery::Queued]);
    assert!(proxy.recv(data_only).is_ok());
    assert_eq!(proxy.recv(data_only).unwrap_err(), RecvError::WouldBlock);
    assert!(proxy.recv(no_beats).is_ok());
    assert!(proxy.recv(no_beats).is_ok());
    assert_eq!(proxy.recv(no_beats).unwrap_err(), RecvError::WouldBlock);
}

#[test]
fn reply_reaches_its_port_whatever_the_port_filters() {
    let mut proxy = connected(false);
    let quiet = proxy.new_port(
        route("/3"),
        0,
        TrafficFilter { data: false, metadata: false, heartbeat: false, other: false },
        true,
        100,
    );
    let out = proxy.send(quiet, request(5)).unwrap();
    assert_eq!(proxy.deliver(&reply(request_id(&out), 8)), vec![Delivery::Queued]);
    assert!(matches!(proxy.recv(quiet).unwrap().payload, Payload::RpcReply(ref r) if r.id == 5));
}
