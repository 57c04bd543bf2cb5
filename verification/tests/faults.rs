use netsim::config::{DurationRange, SimulatedNetworkConfig, RATE_SCALE};
use netsim::interface::SimulatedNetworkInterface;
use netsim::network::{Delivery, SimulatedNetwork, StreamHandle, Verdict};
use netsim::packet::{Endpoint, Packet};
use netsim::platform::{NetworkInterface, TcpListener, TcpStream};
use netsim::random::RandomSource;

fn faulty(drop: u32, short: u32, long: u32) -> SimulatedNetworkConfig {
    SimulatedNetworkConfig {
        drop_rate: drop,
        short_delay_rate: short,
        long_delay_rate: long,
        short_delay_range: DurationRange { start: 1_000, end: 2_000 },
        long_delay_range: DurationRange { start: 1_000_000, end: 3_000_000 },
    }
}

/// A connection between two linked hosts, made by hand so that no packet is
/// needed to set it up.
fn wired(config: SimulatedNetworkConfig, seed: u64) -> (SimulatedNetwork, StreamHandle, StreamHandle) {
    let mut network = SimulatedNetwork::new(config, RandomSource::new(seed)).unwrap();
    let mut a = SimulatedNetworkInterface::new();
    a.assign_ip_addresses(vec!["a"]);
    let mut b = SimulatedNetworkInterface::new();
    b.assign_ip_addresses(vec!["b"]);
    let a = network.add_network_interface(a);
    let b = network.add_network_interface(b);
    network.register_network_interface(a);
    network.register_network_interface(b);
    network.connect("a", "b");
    let listener = b.bind_tcp(&mut network, "b", 80).unwrap();
    let client = network
        .open_connection(a, Endpoint::new("a", 4000), "b", 80)
        .unwrap();
    let (server, _) = listener.accept(&mut network).unwrap();
    (network, client, server)
}

#[test]
fn drop_fraction_matches_the_drop_rate() {
    let sends: u32 = 20_000;
    for (seed, rate) in [(11u64, 100_000u32), (12, 300_000), (13, 750_000)] {
        let (mut network, client, server) = wired(faulty(rate, 0, 0), seed);
        let mut dropped: u32 = 0;
        for _ in 0..sends {
            match client.send(&mut network, b"x") {
                Delivery::Dropped => dropped += 1,
                Delivery::Delivered { target } => assert_eq!(target, server),
                other => panic!("unexpected outcome {:?}", other),
            }
        }
        let expected = (sends as u64 * rate as u64 / RATE_SCALE as u64) as i64;
        let tolerance = (sends / 50) as i64;
        assert!((dropped as i64 - expected).abs() < tolerance, "dropped {} of {}", dropped, sends);
    }
}

#[test]
fn same_seed_gives_the_same_run() {
    let run = |seed: u64| -> Vec<Delivery> {
        let (mut network, client, _) = wired(faulty(200_000, 200_000, 200_000), seed);
        (0..200).map(|_| client.send(&mut network, b"x")).collect()
    };
    assert_eq!(run(5), run(5));
    assert_ne!(run(5), run(6));
}

#[test]
fn certain_drop_drops_everything() {
    let (mut network, client, server) = wired(faulty(RATE_SCALE, 0, 0), 1);
    for _ in 0..100 {
        assert_eq!(client.send(&mut network, b"x"), Delivery::Dropped);
    }
    assert_eq!(server.receive(&mut network), None);
}

#[test]
fn delays_lie_in_their_ranges_and_queue_nothing() {
    let (mut network, client, server) = wired(faulty(0, RATE_SCALE, 0), 2);
    let mut seen = std::collections::HashSet::new();
    for _ in 0..200 {
        match client.send(&mut network, b"x") {
            Delivery::Delayed { target, delay } => {
                assert_eq!(target, server);
                assert!((1_000..2_000).contains(&delay));
                seen.insert(delay);
            }
            other => panic!("unexpected outcome {:?}", other),
        }
    }
    assert!(seen.len() > 20);
    assert_eq!(server.receive(&mut network), None);

    let (mut network, client, server) = wired(faulty(0, 0, RATE_SCALE), 2);
    for _ in 0..200 {
        match client.send(&mut network, b"x") {
            Delivery::Delayed { target, delay } => {
                assert_eq!(target, server);
                assert!((1_000_000..3_000_000).contains(&delay));
            }
            other => panic!("unexpected outcome {:?}", other),
        }
    }
}

#[test]
fn all_four_fates_occur() {
    let (mut network, client, server) = wired(faulty(250_000, 250_000, 250_000), 3);
    let mut counts = [0u32; 4];
    for _ in 0..4000 {
        match client.send(&mut network, b"x") {
            Delivery::Dropped => counts[0] += 1,
            Delivery::Delayed { delay, .. } if delay < 2_000 => counts[1] += 1,
            Delivery::Delayed { .. } => counts[2] += 1,
            Delivery::Delivered { target } => {
                assert_eq!(target, server);
                counts[3] += 1
            }
            other => panic!("unexpected outcome {:?}", other),
        }
    }
    for count in counts {
        assert!((800..1200).contains(&count), "{:?}", counts);
    }
}

#[test]
fn decide_follows_the_sample() {
    let (network, client, server) = wired(faulty(100, 200, 300), 4);
    let packet = Packet::data(
        client.get_local_endpoint(&network),
        client.get_remote_endpoint(&network),
        b"x".to_vec(),
    );
    assert_eq!(network.decide(&packet, 0), Verdict::Dropped);
    assert_eq!(network.decide(&packet, 99), Verdict::Dropped);
    assert_eq!(network.decide(&packet, 100), Verdict::ShortDelay { target: server });
    assert_eq!(network.decide(&packet, 299), Verdict::ShortDelay { target: server });
    assert_eq!(network.decide(&packet, 300), Verdict::LongDelay { target: server });
    assert_eq!(network.decide(&packet, 599), Verdict::LongDelay { target: server });
    assert_eq!(network.decide(&packet, 600), Verdict::Deliver { target: server });

    let stray = Packet::data(Endpoint::new("a", 1), Endpoint::new("b", 81), vec![]);
    assert_eq!(network.decide(&stray, 0), Verdict::Dropped);
    assert_eq!(network.decide(&stray, 100), Verdict::Unroutable);
    assert_eq!(network.decide(&stray, 600), Verdict::Unroutable);

    let unlinked = Packet::data(Endpoint::new("a", 1), Endpoint::new("c", 80), vec![]);
    assert_eq!(network.decide(&unlinked, 0), Verdict::Unreachable);
    assert_eq!(network.decide(&unlinked, 600), Verdict::Unreachable);
}

#[test]
fn resolve_finds_both_ends() {
    let (network, client, server) = wired(faulty(0, 0, 0), 4);
    let a = Endpoint::new("a", 4000);
    let b = Endpoint::new("b", 80);
    assert_eq!(network.resolve(&a, &b), Some(server));
    assert_eq!(network.resolve(&b, &a), Some(client));
    // the client side is found by its own endpoint alone
    assert_eq!(network.resolve(&Endpoint::new("z", 1), &a), Some(client));
    // the server side only for the peer it accepted
    assert_eq!(network.resolve(&Endpoint::new("a", 4001), &b), None);
    assert_eq!(network.find_listener("b", 80).map(|at| at.listener), Some(0));
    assert_eq!(network.find_listener("b", 81), None);
    assert_eq!(network.find_listener("c", 80), None);
}

#[test]
fn random_source_draws_within_range_and_varies() {
    let mut random = RandomSource::new(99);
    let mut seen = std::collections::HashSet::new();
    for _ in 0..1000 {
        let value = random.draw(10, 20);
        assert!((10..20).contains(&value));
        seen.insert(value);
    }
    assert_eq!(seen.len(), 10);
    assert_eq!(random.draw(41, 42), 41);
}
