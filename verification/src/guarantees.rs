//! What holds of every run of the simulation, proved from the contracts of
//! the operations.

use vstd::prelude::*;
use crate::interface::InterfaceView;
use crate::network::{Delivery, ListenerHandle, NetworkView, StreamHandle, Verdict};
use crate::packet::{EndpointView, IpView, PacketType, PacketView};
use crate::stream::StreamView;
use crate::config::Fate;

verus! {

/// Replacing one stream changes that stream and no other.
pub proof fn stream_replaced(network: NetworkView, handle: StreamHandle, now: StreamView)
    requires
        network.has_stream(handle),
    ensures
        network.with_stream(handle, now).stream(handle) == now,
        forall|other: StreamHandle|
            network.has_stream(other) <==> #[trigger] network.with_stream(handle, now).has_stream(
                other,
            ),
        forall|other: StreamHandle|
            network.has_stream(other) && other != handle ==> #[trigger] network.with_stream(
                handle,
                now,
            ).stream(other) == network.stream(other),
        network.with_stream(handle, now).registry == network.registry,
        network.with_stream(handle, now).links == network.links,
        network.with_stream(handle, now).config == network.config,
{
}

/// What a stream has queued plays no part in routing: packets reach the
/// same streams and connections the same listeners, whatever has arrived and
/// whatever has been read.
pub proof fn routing_ignores_queues(
    network: NetworkView,
    handle: StreamHandle,
    now: StreamView,
    source: EndpointView,
    destination: EndpointView,
)
    requires
        network.has_stream(handle),
    ensures
        network.with_stream(handle, now).resolve(source, destination) == network.resolve(
            source,
            destination,
        ),
        network.with_stream(handle, now).find_listener(destination) == network.find_listener(
            destination,
        ),
        network.with_stream(handle, now).linked(source.0, destination.0) == network.linked(
            source.0,
            destination.0,
        ),
{
}

/// A network that drops and delays nothing delivers every packet that has a
/// link and a stream to go to, whatever the sample.
pub proof fn reliable_network_delivers(network: NetworkView, packet: PacketView, sample: u32)
    requires
        network.config.total_rate() == 0,
        network.linked(packet.source.0, packet.destination.0),
        network.resolve(packet.source, packet.destination) is Some,
    ensures
        network.verdict(packet, sample) == (Verdict::Deliver {
            target: network.resolve(packet.source, packet.destination)->0,
        }),
{
    assert(network.config.fate(sample) == Fate::Immediate);
}

/// On a network that drops and delays nothing, bytes sent from
/// a stream whose packets have a link and reach the stream `peer` are
/// queued at `peer` behind what was queued there, and are what the next
/// read at `peer` returns when nothing was queued there.
pub proof fn round_trip(
    before: NetworkView,
    sender: StreamHandle,
    peer: StreamHandle,
    bytes: Seq<u8>,
    delivery: Delivery,
    after: NetworkView,
)
    requires
        before.has_stream(sender),
        before.has_stream(peer),
        before.config.total_rate() == 0,
        before.linked(before.stream(sender).local.0, before.stream(sender).remote.0),
        before.resolve(before.stream(sender).local, before.stream(sender).remote) == Some(peer),
        before.sent(
            PacketView::data(before.stream(sender).local, before.stream(sender).remote, bytes),
            delivery,
            after,
        ),
    ensures
        delivery == (Delivery::Delivered { target: peer }),
        after.stream(peer).data == before.stream(peer).data.push(bytes),
        before.stream(peer).data.len() == 0 ==> {
            &&& after.stream(peer).data.len() > 0
            &&& after.stream(peer).data[0] == bytes
            &&& after.stream(peer).after_receive().data.len() == 0
        },
{
    let packet = PacketView::data(before.stream(sender).local, before.stream(sender).remote, bytes);
    let sample = choose|sample: u32|
        sample < crate::config::RATE_SCALE && before.carried_out(
            #[trigger] before.verdict(packet, sample),
            packet,
            delivery,
            after,
        );
    reliable_network_delivers(before, packet, sample);
    stream_replaced(before, peer, before.stream(peer).received(packet));
    if before.stream(peer).data.len() == 0 {
        assert(after.stream(peer).after_receive().data =~= Seq::<Seq<u8>>::empty());
    }
}

/// A data packet that is handed to the network changes no
/// control queue, and a control packet no data queue, whatever becomes of
/// the packet.
pub proof fn kinds_stay_apart(
    before: NetworkView,
    packet: PacketView,
    delivery: Delivery,
    after: NetworkView,
    stream: StreamHandle,
)
    requires
        before.consistent(),
        before.has_stream(stream),
        before.sent(packet, delivery, after),
    ensures
        after.has_stream(stream),
        packet.packet_type == PacketType::Data ==> after.stream(stream).controls == before.stream(
            stream,
        ).controls,
        packet.packet_type == PacketType::Control ==> after.stream(stream).data == before.stream(
            stream,
        ).data,
{
    let sample = choose|sample: u32|
        sample < crate::config::RATE_SCALE && before.carried_out(
            #[trigger] before.verdict(packet, sample),
            packet,
            delivery,
            after,
        );
    match before.verdict(packet, sample) {
        Verdict::Deliver { target } => {
            resolved_stream_exists(before, packet.source, packet.destination);
            stream_replaced(before, target, before.stream(target).received(packet));
        },
        _ => {},
    }
}

/// In a consistent network the stream that a packet reaches exists.
pub proof fn resolved_stream_exists(
    network: NetworkView,
    source: EndpointView,
    destination: EndpointView,
)
    requires
        network.consistent(),
    ensures
        network.resolve(source, destination) matches Some(target) ==> network.has_stream(target),
{
    if let Some(target) = network.resolve(source, destination) {
        let host = network.interfaces[target.interface as int];
        assert(host.consistent());
        if !host.connected.contains_key(destination) {
            let listener = host.listeners[host.bound[destination] as int];
            assert(listener.streams_below(host.streams.len() as int));
            assert(listener.connections.contains_key(source));
        }
    }
}

/// A packet between two addresses that are not linked
/// is discarded and changes nothing, also when both addresses are
/// registered.
pub proof fn unlinked_packet_goes_nowhere(
    before: NetworkView,
    packet: PacketView,
    delivery: Delivery,
    after: NetworkView,
)
    requires
        !before.linked(packet.source.0, packet.destination.0),
        before.sent(packet, delivery, after),
    ensures
        delivery == Delivery::Unreachable,
        after == before,
{
}

/// Two data packets that are delivered at once to one stream are
/// queued there in the order in which they were sent.
pub proof fn immediate_sends_keep_their_order(
    before: NetworkView,
    first: PacketView,
    second: PacketView,
    target: StreamHandle,
    between: NetworkView,
    after: NetworkView,
)
    requires
        before.has_stream(target),
        first.packet_type == PacketType::Data && first.payload is Some,
        second.packet_type == PacketType::Data && second.payload is Some,
        before.sent(first, Delivery::Delivered { target }, between),
        between.sent(second, Delivery::Delivered { target }, after),
    ensures
        after.stream(target).data == before.stream(target).data.push(first.payload->0).push(
            second.payload->0,
        ),
{
    let s1 = choose|sample: u32|
        sample < crate::config::RATE_SCALE && before.carried_out(
            #[trigger] before.verdict(first, sample),
            first,
            Delivery::Delivered { target },
            between,
        );
    let s2 = choose|sample: u32|
        sample < crate::config::RATE_SCALE && between.carried_out(
            #[trigger] between.verdict(second, sample),
            second,
            Delivery::Delivered { target },
            after,
        );
    assert(before.verdict(first, s1) == Verdict::Deliver { target });
    stream_replaced(before, target, before.stream(target).received(first));
    assert(between.verdict(second, s2) == Verdict::Deliver { target });
    stream_replaced(between, target, between.stream(target).received(second));
}

/// A bind without an address that succeeds binds its
/// listener at the port of every address that the host has at that moment.
/// An address that the host is given later leads to the listener only if
/// the bind covered it.
pub proof fn wildcard_bind_covers_current_addresses(
    host: InterfaceView,
    port: u16,
    later: Set<IpView>,
    ip: IpView,
)
    requires
        !host.bind_conflict(Seq::<char>::empty(), port),
    ensures
        host.addresses.contains(ip) ==> host.after_bind(
            Seq::<char>::empty(),
            port,
        ).with_addresses(later).get_tcp_listener((ip, port)) == Some(host.listeners.len() as usize),
        !host.addresses.contains(ip) ==> host.after_bind(
            Seq::<char>::empty(),
            port,
        ).with_addresses(later).get_tcp_listener((ip, port)) == host.get_tcp_listener((ip, port)),
{
}

/// When a connection has been opened, the two streams
/// that it made name each other's endpoints, the server-side stream is the
/// newest that waits at the listener, and the client-side stream is
/// registered at its host under its local endpoint.
pub proof fn handshake_mirrors_endpoints(
    before: NetworkView,
    interface: usize,
    local: EndpointView,
    at: ListenerHandle,
    remote: EndpointView,
)
    requires
        before.has_interface(interface),
        before.has_listener(at),
        before.interfaces[interface as int].streams.len() < usize::MAX,
        before.interfaces[at.interface as int].streams.len() < usize::MAX - 1,
    ensures
        ({
            let after = before.after_connection(interface, local, at, remote);
            let client = StreamHandle {
                interface,
                stream: before.interfaces[interface as int].streams.len() as usize,
            };
            let pending = after.interfaces[at.interface as int].listeners[at.listener as int].pending;
            let server = StreamHandle { interface: at.interface, stream: pending.last().1 };
            &&& after.has_stream(client)
            &&& after.has_stream(server)
            &&& pending.len() > 0
            &&& pending.last().0 == local
            &&& client != server
            &&& after.stream(client).local == local
            &&& after.stream(client).remote == remote
            &&& after.stream(client).remote == after.stream(server).local
            &&& after.stream(client).local == after.stream(server).remote
            &&& after.interfaces[interface as int].connected.contains_key(local)
            &&& after.interfaces[interface as int].connected[local] == client.stream
        }),
{
    let opened = before.with_interface(
        interface,
        before.interfaces[interface as int].after_open(local, remote),
    );
    let after = before.after_connection(interface, local, at, remote);
    let client = StreamHandle {
        interface,
        stream: before.interfaces[interface as int].streams.len() as usize,
    };
    let host = opened.interfaces[at.interface as int];
    let arrived = host.after_arrival(at.listener, remote, local);
    assert(after.interfaces[at.interface as int] == arrived);
    assert(arrived.listeners[at.listener as int] == host.listeners[at.listener as int].with_pending(
        local,
        host.streams.len() as usize,
    ));
    let pending = arrived.listeners[at.listener as int].pending;
    assert(pending.last() == (local, host.streams.len() as usize));
    if interface == at.interface {
        assert(host == before.interfaces[interface as int].after_open(local, remote));
        assert(host.streams.len() == before.interfaces[interface as int].streams.len() + 1);
    } else {
        assert(host == before.interfaces[at.interface as int]);
        assert(after.interfaces[interface as int] == before.interfaces[interface as int].after_open(
            local,
            remote,
        ));
    }
}

/// Once the listener has accepted a connection, packets between its two
/// endpoints reach the two streams: those from the client the server-side
/// stream, and, when the client's address is registered for its host,
/// those from the server the client-side stream. This is stated for a
/// listener at which nothing else waited, and for a server whose host
/// has not itself connected from the listener's endpoint.
pub proof fn accepted_connection_is_routed(
    before: NetworkView,
    interface: usize,
    local: EndpointView,
    at: ListenerHandle,
    remote: EndpointView,
)
    requires
        before.has_interface(interface),
        before.has_listener(at),
        before.interfaces[interface as int].streams.len() < usize::MAX,
        before.interfaces[at.interface as int].streams.len() < usize::MAX - 1,
        before.find_listener(remote) == Some(at),
        before.interfaces[at.interface as int].listeners[at.listener as int].pending.len() == 0,
        !before.interfaces[at.interface as int].connected.contains_key(remote),
        local != remote,
    ensures
        ({
            let opened = before.after_connection(interface, local, at, remote);
            let accepted = opened.after_accept(at);
            let client = StreamHandle {
                interface,
                stream: before.interfaces[interface as int].streams.len() as usize,
            };
            let server = StreamHandle {
                interface: at.interface,
                stream: opened.interfaces[at.interface as int].listeners[at.listener as int].pending[0].1,
            };
            &&& accepted.has_stream(client)
            &&& accepted.has_stream(server)
            &&& accepted.stream(server) == StreamView::fresh(remote, local)
            &&& accepted.stream(client) == StreamView::fresh(local, remote)
            &&& accepted.resolve(local, remote) == Some(server)
            &&& before.get_network_interface(local.0) == Some(interface) ==> accepted.resolve(
                remote,
                local,
            ) == Some(client)
        }),
{
    handshake_mirrors_endpoints(before, interface, local, at, remote);
    let first = before.with_interface(
        interface,
        before.interfaces[interface as int].after_open(local, remote),
    );
    let opened = before.after_connection(interface, local, at, remote);
    let accepted = opened.after_accept(at);
    let host = first.interfaces[at.interface as int];
    let arrived = host.after_arrival(at.listener, remote, local);
    assert(opened.interfaces[at.interface as int] == arrived);
    let waiting = arrived.listeners[at.listener as int];
    assert(waiting == host.listeners[at.listener as int].with_pending(
        local,
        host.streams.len() as usize,
    ));
    assert(host.listeners[at.listener as int] == before.interfaces[at.interface as int].listeners[at.listener as int]);
    assert(waiting.pending =~= seq![(local, host.streams.len() as usize)]);
    let done = arrived.after_accept(at.listener);
    assert(accepted.interfaces[at.interface as int] == done);
    assert(done.listeners[at.listener as int] == waiting.after_accept());
    assert(done.listeners[at.listener as int].connections.contains_key(local));
    assert(done.bound == before.interfaces[at.interface as int].bound);
    assert(done.bound.contains_key(remote));
    assert(done.bound[remote] == at.listener);
    if interface == at.interface {
        assert(host == before.interfaces[interface as int].after_open(local, remote));
        assert(!done.connected.contains_key(remote));
    } else {
        assert(host == before.interfaces[at.interface as int]);
        assert(accepted.interfaces[interface as int] == before.interfaces[interface as int].after_open(
            local,
            remote,
        ));
    }
    assert(accepted.registry == before.registry);
}

/// The ports of an address have run out, so that none
/// can be allocated, exactly when 65536 ports are held for it.
pub proof fn ports_run_out_at_65536(host: InterfaceView, ip: IpView)
    ensures
        host.exhausted(ip) <==> (host.ports_of(ip).finite() && host.ports_of(ip).len() == 65536),
{
    crate::ports::lemma_all_ports_held(host.ports_of(ip));
    if host.exhausted(ip) {
        assert forall|port: u16| host.ports_of(ip).contains(port) by {
            assert(host.held.contains((ip, port)));
        }
    }
    if forall|port: u16| host.ports_of(ip).contains(port) {
        assert forall|port: u16| #[trigger] host.held.contains((ip, port)) by {
            assert(host.ports_of(ip).contains(port));
        }
    }
}

} // verus!
