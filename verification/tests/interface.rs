use netsim::interface::SimulatedNetworkInterface;
use netsim::packet::{Control, Endpoint, Packet};

fn sorted(mut ips: Vec<String>) -> Vec<String> {
    ips.sort();
    ips
}

#[test]
fn addresses_are_a_set() {
    let mut interface = SimulatedNetworkInterface::new();
    assert!(interface.get_ip_addresses().is_empty());
    interface.assign_ip_addresses(vec!["b", "a", "b"]);
    interface.assign_ip_addresses(vec!["a", "c"]);
    assert_eq!(sorted(interface.get_ip_addresses()), vec!["a", "b", "c"]);
    interface.remove_ip_addresses(vec!["b", "x"]);
    assert_eq!(sorted(interface.get_ip_addresses()), vec!["a", "c"]);
    interface.remove_ip_addresses(vec!["a", "c", "a"]);
    assert!(interface.get_ip_addresses().is_empty());
}

#[test]
fn pick_local_ip_returns_an_assigned_address() {
    let mut interface = SimulatedNetworkInterface::new();
    assert_eq!(interface.pick_local_ip("anywhere"), None);
    interface.assign_ip_addresses(vec!["10.0.0.5"]);
    assert_eq!(interface.pick_local_ip("anywhere"), Some("10.0.0.5".to_string()));
    interface.assign_ip_addresses(vec!["10.0.0.6"]);
    let picked = interface.pick_local_ip("elsewhere").unwrap();
    assert!(interface.get_ip_addresses().contains(&picked));
    interface.remove_ip_addresses(vec!["10.0.0.5", "10.0.0.6"]);
    assert_eq!(interface.pick_local_ip("anywhere"), None);
}

#[test]
fn bind_registers_the_listener_under_the_given_address() {
    let mut interface = SimulatedNetworkInterface::new();
    interface.assign_ip_addresses(vec!["a", "b"]);
    let listener = interface.bind_tcp("a", 80).unwrap();
    assert_eq!(listener, 0);
    assert_eq!(interface.get_tcp_listener("a", 80), Some(0));
    assert_eq!(interface.get_tcp_listener("b", 80), None);
    assert_eq!(interface.get_tcp_listener("a", 81), None);
    // an address that the host does not have can be bound too
    assert_eq!(interface.bind_tcp("z", 80), Some(1));
    assert_eq!(interface.get_tcp_listener("z", 80), Some(1));
    assert_eq!(interface.listener_count(), 2);
}

#[test]
fn wildcard_bind_is_a_snapshot_of_the_addresses() {
    let mut interface = SimulatedNetworkInterface::new();
    interface.assign_ip_addresses(vec!["ip1", "ip2"]);
    let listener = interface.bind_tcp("", 8080).unwrap();
    assert_eq!(interface.get_tcp_listener("ip1", 8080), Some(listener));
    assert_eq!(interface.get_tcp_listener("ip2", 8080), Some(listener));
    assert_eq!(interface.get_tcp_listener("", 8080), None);
    assert!(interface.is_port_held("ip1", 8080));
    assert!(interface.is_port_held("ip2", 8080));
    interface.assign_ip_addresses(vec!["ip3"]);
    assert_eq!(interface.get_tcp_listener("ip3", 8080), None);
    assert!(!interface.is_port_held("ip3", 8080));
}

#[test]
fn wildcard_bind_without_addresses_binds_nowhere() {
    let mut interface = SimulatedNetworkInterface::new();
    assert_eq!(interface.bind_tcp("", 8080), Some(0));
    assert_eq!(interface.get_tcp_listener("", 8080), None);
    assert_eq!(interface.bind_tcp("", 8080), Some(1));
}

#[test]
fn bind_fails_on_a_held_port() {
    let mut interface = SimulatedNetworkInterface::new();
    interface.assign_ip_addresses(vec!["a", "b"]);
    assert_eq!(interface.bind_tcp("a", 80), Some(0));
    assert_eq!(interface.bind_tcp("a", 80), None);
    // the wildcard covers `a`, where the port is held
    assert_eq!(interface.bind_tcp("", 80), None);
    assert!(!interface.is_port_held("b", 80));
    assert_eq!(interface.get_tcp_listener("b", 80), None);
    assert_eq!(interface.listener_count(), 1);
    assert_eq!(interface.bind_tcp("b", 80), Some(1));
    interface.free_port("a", 80);
    assert_eq!(interface.bind_tcp("a", 80), Some(2));
    assert_eq!(interface.get_tcp_listener("a", 80), Some(2));
}

#[test]
fn get_stream_prefers_the_connected_stream_then_the_listener() {
    let mut interface = SimulatedNetworkInterface::new();
    interface.assign_ip_addresses(vec!["me"]);
    let listener = interface.bind_tcp("me", 80).unwrap();
    let me80 = Endpoint::new("me", 80);
    let peer = Endpoint::new("peer", 1000);
    let other = Endpoint::new("other", 1000);
    assert_eq!(interface.get_stream(&peer, &me80), None);

    let server_side = interface.on_new_connection(listener, me80.clone(), peer.clone());
    assert_eq!(interface.get_stream(&peer, &me80), None);
    assert_eq!(interface.accept(listener), Some(server_side));
    assert_eq!(interface.accept(listener), None);
    assert_eq!(interface.get_stream(&peer, &me80), Some(server_side));
    assert_eq!(interface.get_stream(&other, &me80), None);

    let me9 = Endpoint::new("me", 9);
    let client_side = interface.open_stream(me9.clone(), peer.clone());
    assert_eq!(interface.get_stream(&peer, &me9), Some(client_side));
    assert_eq!(interface.get_stream(&other, &me9), Some(client_side));
    assert_eq!(interface.stream_count(), 2);
    assert_eq!(interface.stream(client_side).get_local_endpoint(), me9);
    assert_eq!(interface.stream(client_side).get_remote_endpoint(), peer);
    assert_eq!(interface.stream(server_side).get_local_endpoint(), me80);
    assert_eq!(interface.stream(server_side).get_remote_endpoint(), peer);
}

#[test]
fn a_second_connection_from_one_peer_replaces_the_first() {
    let mut interface = SimulatedNetworkInterface::new();
    let listener = interface.bind_tcp("me", 80).unwrap();
    let me = Endpoint::new("me", 80);
    let peer = Endpoint::new("peer", 1);
    let first = interface.on_new_connection(listener, me.clone(), peer.clone());
    let second = interface.on_new_connection(listener, me.clone(), peer.clone());
    assert_eq!(interface.listener(listener).pending_len(), 2);
    assert_eq!(interface.accept(listener), Some(first));
    assert_eq!(interface.get_stream(&peer, &me), Some(first));
    assert_eq!(interface.accept(listener), Some(second));
    assert_eq!(interface.get_stream(&peer, &me), Some(second));
    assert_eq!(interface.listener(listener).get_stream(&peer), Some(second));
}

#[test]
fn host_streams_queue_and_hand_out_packets() {
    let mut interface = SimulatedNetworkInterface::new();
    let here = Endpoint::new("here", 1);
    let there = Endpoint::new("there", 2);
    let stream = interface.open_stream(here.clone(), there.clone());
    assert_eq!(interface.receive(stream), None);
    assert_eq!(interface.receive_control(stream), None);
    assert!(!interface.take_sync(stream));
    interface.deliver(stream, &Packet::data(there.clone(), here.clone(), vec![1, 2]));
    interface.deliver(stream, &Packet::control(there.clone(), here.clone(), Control::Sync));
    interface.deliver(stream, &Packet::data(there.clone(), here.clone(), vec![3]));
    assert!(interface.take_sync(stream));
    assert!(!interface.take_sync(stream));
    assert_eq!(interface.receive(stream), Some(vec![1, 2]));
    assert_eq!(interface.receive(stream), Some(vec![3]));
    assert_eq!(interface.receive(stream), None);
}
