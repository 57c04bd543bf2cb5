use netsim::config::SimulatedNetworkConfig;
use netsim::interface::SimulatedNetworkInterface;
use netsim::network::{Delivery, InterfaceHandle, ListenerHandle, SimulatedNetwork, StreamHandle};
use netsim::packet::{Control, Endpoint, Packet};
use netsim::platform::{NetworkInterface, TcpListener, TcpStream};
use netsim::random::RandomSource;

fn reliable_network() -> SimulatedNetwork {
    SimulatedNetwork::new(SimulatedNetworkConfig::reliable(), RandomSource::new(1)).unwrap()
}

fn host_with(network: &mut SimulatedNetwork, ips: Vec<&str>) -> InterfaceHandle {
    let mut interface = SimulatedNetworkInterface::new();
    interface.assign_ip_addresses(ips);
    let id = network.add_network_interface(interface);
    network.register_network_interface(id);
    id
}

/// Two linked hosts, a listener at port 8080 of the second, and an accepted
/// connection from the first.
fn connected_pair() -> (SimulatedNetwork, StreamHandle, StreamHandle) {
    let mut network = reliable_network();
    let first = host_with(&mut network, vec!["192.168.1.1"]);
    let second = host_with(&mut network, vec!["192.168.1.2"]);
    network.connect("192.168.1.1", "192.168.1.2");
    let listener = second.bind_tcp(&mut network, "", 8080).unwrap();
    let client = first.connect(&mut network, "192.168.1.2", 8080).unwrap();
    let (server, sync) = listener.accept(&mut network).unwrap();
    assert_eq!(sync, Delivery::Delivered { target: client });
    assert!(network.finish_connect(client));
    (network, client, server)
}

#[test]
fn test_simulated_network_interface() {
    let mut network = reliable_network();
    let network_interface1 = host_with(&mut network, vec!["192.168.1.1"]);
    let network_interface2 = host_with(&mut network, vec!["192.168.1.2", "192.168.1.4"]);
    let _network_interface3 = host_with(&mut network, vec!["192.168.1.3"]);
    network.connect("192.168.1.1", "192.168.1.2");

    let server_port: u16 = 8080;
    let tcp_listener1 = match network_interface2.bind_tcp(&mut network, "", server_port) {
        None => panic!("the bind failed"),
        Some(tcp_listener) => tcp_listener,
    };

    let server_ip = "192.168.1.2";
    let client_stream1 = network_interface1.connect(&mut network, server_ip, server_port);
    assert!(!client_stream1.is_none());
    let client_stream1 = client_stream1.unwrap();

    let (tcp_stream, _) = match tcp_listener1.accept(&mut network) {
        None => panic!("nothing to accept"),
        Some(accepted) => accepted,
    };
    assert!(network.finish_connect(client_stream1));

    let request = "Hello";
    client_stream1.send(&mut network, request.as_bytes());
    let data = match tcp_stream.receive(&mut network) {
        None => panic!("no request"),
        Some(data) => data,
    };
    assert_eq!(std::str::from_utf8(&data).unwrap(), "Hello");

    let response = "World";
    tcp_stream.send(&mut network, response.as_bytes());
    let data = client_stream1.receive(&mut network);
    assert!(!data.is_none());
    let data = data.unwrap();
    assert_eq!(std::str::from_utf8(&data).unwrap(), "World");
}

#[test]
fn end_to_end_hello_world() {
    let mut network = reliable_network();
    let i1 = host_with(&mut network, vec!["192.168.1.1"]);
    let i2 = host_with(&mut network, vec!["192.168.1.2"]);
    network.connect("192.168.1.1", "192.168.1.2");
    let listener = i2.bind_tcp(&mut network, "", 8080).unwrap();
    assert_eq!(listener, ListenerHandle { interface: i2.interface, listener: 0 });
    let client = i1.connect(&mut network, "192.168.1.2", 8080).unwrap();
    assert_eq!(client, StreamHandle { interface: i1.interface, stream: 0 });
    assert!(!network.finish_connect(client));
    let (server, sync) = listener.accept(&mut network).unwrap();
    assert_eq!(server, StreamHandle { interface: i2.interface, stream: 0 });
    assert_eq!(sync, Delivery::Delivered { target: client });
    assert!(network.finish_connect(client));

    assert_eq!(client.send(&mut network, b"Hello"), Delivery::Delivered { target: server });
    assert_eq!(server.receive(&mut network), Some(b"Hello".to_vec()));
    assert_eq!(server.send(&mut network, b"World"), Delivery::Delivered { target: client });
    assert_eq!(client.receive(&mut network), Some(b"World".to_vec()));
    assert_eq!(client.receive(&mut network), None);
    assert_eq!(server.receive(&mut network), None);
}

#[test]
fn round_trip_returns_exactly_the_bytes_sent() {
    let (mut network, client, server) = connected_pair();
    let payloads: Vec<Vec<u8>> = vec![vec![], vec![0], vec![255, 0, 255], (0..=255).collect()];
    for payload in payloads {
        assert_eq!(client.send(&mut network, &payload), Delivery::Delivered { target: server });
        assert_eq!(server.receive(&mut network), Some(payload.clone()));
        assert_eq!(server.send(&mut network, &payload), Delivery::Delivered { target: client });
        assert_eq!(client.receive(&mut network), Some(payload));
    }
}

#[test]
fn data_and_control_use_separate_queues() {
    let (mut network, client, server) = connected_pair();
    client.send(&mut network, b"payload");
    assert_eq!(network.receive_control(server), None);
    assert_eq!(server.receive(&mut network), Some(b"payload".to_vec()));

    client.send_control(&mut network, Control::Sync);
    assert_eq!(server.receive(&mut network), None);
    assert_eq!(network.receive_control(server), Some(Control::Sync));
    assert_eq!(network.receive_control(server), None);
}

#[test]
fn send_without_link_is_dropped() {
    let mut network = reliable_network();
    let a = host_with(&mut network, vec!["10.0.0.1"]);
    let b = host_with(&mut network, vec!["10.0.0.2"]);
    assert_eq!(network.get_network_interface("10.0.0.1"), Some(a));
    assert_eq!(network.get_network_interface("10.0.0.2"), Some(b));
    let listener = b.bind_tcp(&mut network, "10.0.0.2", 80).unwrap();
    let client = a.connect(&mut network, "10.0.0.2", 80).unwrap();
    let (server, sync) = listener.accept(&mut network).unwrap();
    assert_eq!(sync, Delivery::Unreachable);
    assert!(!network.finish_connect(client));
    assert_eq!(client.send(&mut network, b"lost"), Delivery::Unreachable);
    assert_eq!(server.receive(&mut network), None);

    network.connect("10.0.0.1", "10.0.0.2");
    assert!(network.is_linked("10.0.0.1", "10.0.0.2"));
    assert!(network.is_linked("10.0.0.2", "10.0.0.1"));
    assert_eq!(client.send(&mut network, b"found"), Delivery::Delivered { target: server });
    assert_eq!(server.receive(&mut network), Some(b"found".to_vec()));

    network.disconnect("10.0.0.2", "10.0.0.1");
    assert!(!network.is_linked("10.0.0.1", "10.0.0.2"));
    assert!(!network.is_linked("10.0.0.2", "10.0.0.1"));
    assert_eq!(client.send(&mut network, b"lost again"), Delivery::Unreachable);
    assert_eq!(server.receive(&mut network), None);
}

#[test]
fn handshake_mirrors_endpoints() {
    let (network, client, server) = connected_pair();
    assert_eq!(client.get_remote_endpoint(&network), server.get_local_endpoint(&network));
    assert_eq!(client.get_local_endpoint(&network), server.get_remote_endpoint(&network));
    assert_eq!(server.get_local_endpoint(&network), Endpoint::new("192.168.1.2", 8080));
    assert_eq!(client.get_local_endpoint(&network).ip, "192.168.1.1");
}

#[test]
fn immediate_sends_arrive_in_send_order() {
    let (mut network, client, server) = connected_pair();
    for i in 0..100u8 {
        assert_eq!(client.send(&mut network, &[i, i]), Delivery::Delivered { target: server });
    }
    for i in 0..100u8 {
        assert_eq!(server.receive(&mut network), Some(vec![i, i]));
    }
    assert_eq!(server.receive(&mut network), None);
}

#[test]
fn wildcard_bind_covers_the_addresses_of_the_moment() {
    let mut network = reliable_network();
    let server = host_with(&mut network, vec!["10.1.0.1", "10.1.0.2"]);
    let client = host_with(&mut network, vec!["10.1.0.9"]);
    network.connect("10.1.0.9", "10.1.0.1");
    network.connect("10.1.0.9", "10.1.0.2");
    network.connect("10.1.0.9", "10.1.0.3");
    let listener = server.bind_tcp(&mut network, "", 7000).unwrap();
    assert_eq!(network.interface(server).get_tcp_listener("10.1.0.1", 7000), Some(listener.listener));
    assert_eq!(network.interface(server).get_tcp_listener("10.1.0.2", 7000), Some(listener.listener));

    network.assign_ip_addresses(server, vec!["10.1.0.3"]);
    network.register_network_interface(server);
    assert_eq!(network.get_network_interface("10.1.0.3"), Some(server));
    assert_eq!(network.interface(server).get_tcp_listener("10.1.0.3", 7000), None);

    assert!(client.connect(&mut network, "10.1.0.1", 7000).is_some());
    assert!(client.connect(&mut network, "10.1.0.2", 7000).is_some());
    assert!(client.connect(&mut network, "10.1.0.3", 7000).is_none());
    assert_eq!(network.interface(server).listener(listener.listener).pending_len(), 2);
}

#[test]
fn connect_fails_without_address_listener_or_registration() {
    let mut network = reliable_network();
    let server = host_with(&mut network, vec!["10.2.0.1"]);
    let bare = network.add_network_interface(SimulatedNetworkInterface::new());
    let client = host_with(&mut network, vec!["10.2.0.2"]);
    network.connect("10.2.0.2", "10.2.0.1");
    server.bind_tcp(&mut network, "10.2.0.1", 1234).unwrap();

    // no local address
    assert_eq!(bare.connect(&mut network, "10.2.0.1", 1234), None);
    // no listener at the port
    assert_eq!(client.connect(&mut network, "10.2.0.1", 4321), None);
    // no host behind the address
    assert_eq!(client.connect(&mut network, "10.2.0.77", 1234), None);
    // a refused connect opens no stream, and the port it claimed stays claimed
    assert_eq!(network.interface(client).stream_count(), 0);
    let held = (0..=65535u16)
        .filter(|port| network.interface(client).is_port_held("10.2.0.2", *port))
        .count();
    assert_eq!(held, 2);
    let client_stream = client.connect(&mut network, "10.2.0.1", 1234).unwrap();
    assert_eq!(client_stream, StreamHandle { interface: client.interface, stream: 0 });
}

#[test]
fn unregistered_host_is_unroutable() {
    let mut network = reliable_network();
    let mut hidden = SimulatedNetworkInterface::new();
    hidden.assign_ip_addresses(vec!["10.3.0.1"]);
    hidden.bind_tcp("10.3.0.1", 9).unwrap();
    let _hidden = network.add_network_interface(hidden);
    let _sender = host_with(&mut network, vec!["10.3.0.2"]);
    network.connect("10.3.0.1", "10.3.0.2");
    assert_eq!(network.get_network_interface("10.3.0.1"), None);
    let packet = Packet::data(Endpoint::new("10.3.0.2", 5), Endpoint::new("10.3.0.1", 9), vec![1]);
    assert_eq!(network.send_packet(&packet), Delivery::Unroutable);
}

#[test]
fn registration_is_last_writer_wins() {
    let mut network = reliable_network();
    let first = host_with(&mut network, vec!["10.4.0.1"]);
    assert_eq!(network.get_network_interface("10.4.0.1"), Some(first));
    let second = host_with(&mut network, vec!["10.4.0.1", "10.4.0.2"]);
    assert_eq!(network.get_network_interface("10.4.0.1"), Some(second));
    assert_eq!(network.get_network_interface("10.4.0.2"), Some(second));
    network.remove_ip_addresses(second, vec!["10.4.0.2"]);
    // the registry is only changed by registering
    assert_eq!(network.get_network_interface("10.4.0.2"), Some(second));
    assert_eq!(network.interface(second).get_ip_addresses(), vec!["10.4.0.1".to_string()]);
    assert_eq!(network.interface_count(), 2);
}

#[test]
fn packets_to_a_pending_connection_are_unroutable() {
    let mut network = reliable_network();
    let a = host_with(&mut network, vec!["10.5.0.1"]);
    let b = host_with(&mut network, vec!["10.5.0.2"]);
    network.connect("10.5.0.1", "10.5.0.2");
    let listener = b.bind_tcp(&mut network, "10.5.0.2", 80).unwrap();
    let client = a.connect(&mut network, "10.5.0.2", 80).unwrap();
    assert_eq!(client.send(&mut network, b"early"), Delivery::Unroutable);
    let (server, _) = listener.accept(&mut network).unwrap();
    assert_eq!(server.receive(&mut network), None);
    assert_eq!(client.send(&mut network, b"on time"), Delivery::Delivered { target: server });
    assert_eq!(listener.accept(&mut network), None);
}

#[test]
fn delayed_packet_arrives_when_delivered() {
    let (mut network, client, server) = connected_pair();
    let packet = Packet::data(
        client.get_local_endpoint(&network),
        client.get_remote_endpoint(&network),
        b"late".to_vec(),
    );
    client.send(&mut network, b"early");
    server.on_packet_received(&mut network, &packet);
    assert_eq!(server.receive(&mut network), Some(b"early".to_vec()));
    assert_eq!(server.receive(&mut network), Some(b"late".to_vec()));
}

#[test]
fn handles_are_known_to_their_network_only() {
    let (network, client, server) = connected_pair();
    assert!(network.has_stream(client));
    assert!(network.has_stream(server));
    assert!(!network.has_stream(StreamHandle { interface: client.interface, stream: 1 }));
    assert!(!network.has_stream(StreamHandle { interface: 2, stream: 0 }));
    assert!(network.has_interface(InterfaceHandle { interface: 1 }));
    assert!(!network.has_interface(InterfaceHandle { interface: 2 }));
    assert!(network.has_listener(ListenerHandle { interface: server.interface, listener: 0 }));
    assert!(!network.has_listener(ListenerHandle { interface: client.interface, listener: 0 }));
    assert!(!network.has_listener(ListenerHandle { interface: 5, listener: 0 }));
}

#[test]
fn a_host_can_connect_to_itself() {
    let mut network = reliable_network();
    let host = host_with(&mut network, vec!["10.6.0.1"]);
    network.connect("10.6.0.1", "10.6.0.1");
    let listener = host.bind_tcp(&mut network, "10.6.0.1", 80).unwrap();
    let client = host.connect(&mut network, "10.6.0.1", 80).unwrap();
    let (server, sync) = listener.accept(&mut network).unwrap();
    assert_eq!(client, StreamHandle { interface: host.interface, stream: 0 });
    assert_eq!(server, StreamHandle { interface: host.interface, stream: 1 });
    assert_eq!(sync, Delivery::Delivered { target: client });
    assert!(network.finish_connect(client));
    assert_eq!(client.send(&mut network, b"me"), Delivery::Delivered { target: server });
    assert_eq!(server.receive(&mut network), Some(b"me".to_vec()));
    assert_eq!(server.send(&mut network, b"too"), Delivery::Delivered { target: client });
    assert_eq!(client.receive(&mut network), Some(b"too".to_vec()));
}

#[test]
fn control_signals_wait_on_their_own_queue() {
    let (mut network, client, server) = connected_pair();
    assert_eq!(network.receive_control(client), None);
    server.send_control(&mut network, Control::Sync);
    server.send_control(&mut network, Control::Sync);
    assert!(network.finish_connect(client));
    assert_eq!(network.receive_control(client), Some(Control::Sync));
    assert_eq!(network.receive_control(client), None);
    assert!(!network.finish_connect(client));
}

#[test]
fn freed_port_can_be_bound_again() {
    let mut network = reliable_network();
    let host = host_with(&mut network, vec!["10.7.0.1"]);
    let first = host.bind_tcp(&mut network, "10.7.0.1", 80).unwrap();
    assert_eq!(host.bind_tcp(&mut network, "10.7.0.1", 80), None);
    network.free_port(host, "10.7.0.1", 80);
    let second = host.bind_tcp(&mut network, "10.7.0.1", 80).unwrap();
    assert_ne!(first, second);
    assert_eq!(network.find_listener("10.7.0.1", 80), Some(second));
}
