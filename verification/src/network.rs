//! The simulated network: the hosts, the registry of their addresses, the
//! links between addresses, and the router that injects faults.

use vstd::prelude::*;
use crate::config::{ConfigError, Fate, SimulatedNetworkConfig, RATE_SCALE};
use crate::interface::{InterfaceView, SimulatedNetworkInterface};
use crate::packet::{Control, Endpoint, EndpointView, IpView, Packet, PacketView};
use crate::platform::{NetworkInterface, TcpListener, TcpStream};
use crate::random::RandomSource;
use crate::stream::StreamView;
use crate::table::Table;

verus! {

/// Names a host: the position at which it was added to the network.
#[derive(Debug, Clone, Copy, PartialEq, Eq, Structural)]
pub struct InterfaceHandle {
    pub interface: usize,
}

/// Names a stream: the host and the position among the host's streams.
#[derive(Debug, Clone, Copy, PartialEq, Eq, Structural)]
pub struct StreamHandle {
    pub interface: usize,
    pub stream: usize,
}

/// Names a listener: the host and the position among the host's listeners.
#[derive(Debug, Clone, Copy, PartialEq, Eq, Structural)]
pub struct ListenerHandle {
    pub interface: usize,
    pub listener: usize,
}

/// What the router decides for one packet and one sample.
#[derive(Debug, Clone, Copy, PartialEq, Eq, Structural)]
pub enum Verdict {
    /// No link joins the source address and the destination address.
    Unreachable,
    /// Fault injection discards the packet.
    Dropped,
    /// No host owns the destination address, or the host has no stream for
    /// the packet.
    Unroutable,
    /// The packet reaches `target` after a short delay.
    ShortDelay { target: StreamHandle },
    /// The packet reaches `target` after a long delay.
    LongDelay { target: StreamHandle },
    /// The packet reaches `target` at once.
    Deliver { target: StreamHandle },
}

/// What became of a packet that was handed to the network.
#[derive(Debug, Clone, Copy, PartialEq, Eq, Structural)]
pub enum Delivery {
    /// No link joins the source address and the destination address.
    Unreachable,
    /// Fault injection discarded the packet.
    Dropped,
    /// No host owns the destination address, or the host has no stream for
    /// the packet.
    Unroutable,
    /// The packet is due at `target` after `delay` nanoseconds. The network
    /// has not queued it: the caller delivers it when the time has passed.
    Delayed { target: StreamHandle, delay: u64 },
    /// The packet has been queued at `target`.
    Delivered { target: StreamHandle },
}

/// The network as contracts see it.
pub struct NetworkView {
    pub config: SimulatedNetworkConfig,
    /// The hosts, in the order in which they were added.
    pub interfaces: Seq<InterfaceView>,
    /// The host that each registered address leads to.
    pub registry: Map<IpView, usize>,
    /// The pairs of addresses between which packets travel.
    pub links: Set<(IpView, IpView)>,
}

impl NetworkView {
    /// A network without hosts or links.
    pub open spec fn fresh(config: SimulatedNetworkConfig) -> NetworkView {
        NetworkView {
            config,
            interfaces: Seq::empty(),
            registry: Map::empty(),
            links: Set::empty(),
        }
    }

    /// The configuration is valid, the registry names hosts that exist,
    /// every link goes both ways, and every host is consistent.
    pub open spec fn consistent(self) -> bool {
        &&& self.config.valid()
        &&& forall|ip: IpView| #[trigger]
            self.registry.contains_key(ip) ==> self.registry[ip] < self.interfaces.len()
        &&& forall|from: IpView, to: IpView| #[trigger]
            self.links.contains((from, to)) ==> self.links.contains((to, from))
        &&& forall|i: int|
            0 <= i < self.interfaces.len() ==> (#[trigger] self.interfaces[i]).consistent()
    }

    /// Whether the network has a host at position `interface`.
    pub open spec fn has_interface(self, interface: usize) -> bool {
        interface < self.interfaces.len()
    }

    /// Whether `handle` names a stream of the network.
    pub open spec fn has_stream(self, handle: StreamHandle) -> bool {
        &&& handle.interface < self.interfaces.len()
        &&& handle.stream < self.interfaces[handle.interface as int].streams.len()
    }

    /// Whether `handle` names a listener of the network.
    pub open spec fn has_listener(self, handle: ListenerHandle) -> bool {
        &&& handle.interface < self.interfaces.len()
        &&& handle.listener < self.interfaces[handle.interface as int].listeners.len()
    }

    /// Whether every host, stream and listener of `before` is still there:
    /// hosts, streams and listeners are added and never taken away, so a
    /// handle stays good.
    pub open spec fn keeps_handles_of(self, before: NetworkView) -> bool {
        &&& before.interfaces.len() <= self.interfaces.len()
        &&& forall|i: int|
            0 <= i < before.interfaces.len() ==> {
                &&& before.interfaces[i].streams.len() <= (#[trigger] self.interfaces[i]).streams.len()
                &&& before.interfaces[i].listeners.len() <= self.interfaces[i].listeners.len()
            }
    }

    /// The stream that `handle` names.
    pub open spec fn stream(self, handle: StreamHandle) -> StreamView {
        self.interfaces[handle.interface as int].streams[handle.stream as int]
    }

    /// The host that the registry has for `ip`.
    pub open spec fn get_network_interface(self, ip: IpView) -> Option<usize> {
        if self.registry.contains_key(ip) {
            Some(self.registry[ip])
        } else {
            None
        }
    }

    /// Whether packets travel from `from` to `to`.
    pub open spec fn linked(self, from: IpView, to: IpView) -> bool {
        self.links.contains((from, to))
    }

    /// The network with host `interface` replaced by `now`.
    pub open spec fn with_interface(self, interface: usize, now: InterfaceView) -> NetworkView {
        NetworkView { interfaces: self.interfaces.update(interface as int, now), ..self }
    }

    /// The network with one more host.
    pub open spec fn with_new_interface(self, interface: InterfaceView) -> NetworkView {
        NetworkView { interfaces: self.interfaces.push(interface), ..self }
    }

    /// The network after every address that host `interface` has at this
    /// moment has been registered for it, in place of an earlier owner.
    pub open spec fn after_register(self, interface: usize) -> NetworkView {
        self.with_registered(self.interfaces[interface as int].addresses, interface)
    }

    /// The network after `ips` have been registered for host `interface`.
    pub open spec fn with_registered(self, ips: Set<IpView>, interface: usize) -> NetworkView {
        NetworkView {
            registry: Map::new(
                |ip: IpView| self.registry.contains_key(ip) || ips.contains(ip),
                |ip: IpView|
                    if ips.contains(ip) {
                        interface
                    } else {
                        self.registry[ip]
                    },
            ),
            ..self
        }
    }

    /// The stream that a packet from `source` to `destination` reaches: the
    /// registry leads from the destination address to a host, and the host
    /// from the two endpoints to a stream.
    pub open spec fn resolve(self, source: EndpointView, destination: EndpointView) -> Option<
        StreamHandle,
    > {
        match self.get_network_interface(destination.0) {
            Some(interface) => if interface < self.interfaces.len() {
                match self.interfaces[interface as int].get_stream(source, destination) {
                    Some(stream) => Some(StreamHandle { interface, stream }),
                    None => None,
                }
            } else {
                None
            },
            None => None,
        }
    }

    /// What the router decides for `packet` when the sample drawn for it is
    /// `sample`. Without a link the packet goes nowhere. Otherwise the
    /// sample gives its fate; a packet that is not dropped needs a stream to
    /// go to, which is found now, also for a packet that is delayed.
    pub open spec fn verdict(self, packet: PacketView, sample: u32) -> Verdict {
        if !self.linked(packet.source.0, packet.destination.0) {
            Verdict::Unreachable
        } else {
            match self.config.fate(sample) {
                Fate::Drop => Verdict::Dropped,
                fate => match self.resolve(packet.source, packet.destination) {
                    None => Verdict::Unroutable,
                    Some(target) => match fate {
                        Fate::ShortDelay => Verdict::ShortDelay { target },
                        Fate::LongDelay => Verdict::LongDelay { target },
                        _ => Verdict::Deliver { target },
                    },
                },
            }
        }
    }

    /// The network after `packet` has been handed to the stream `target`.
    pub open spec fn delivered(self, target: StreamHandle, packet: PacketView) -> NetworkView {
        self.with_stream(target, self.stream(target).received(packet))
    }

    /// The network with the stream `handle` replaced by `now`.
    pub open spec fn with_stream(self, handle: StreamHandle, now: StreamView) -> NetworkView {
        self.with_interface(
            handle.interface,
            self.interfaces[handle.interface as int].with_stream_at(handle.stream, now),
        )
    }

    /// Whether `delivery` and the network `after` are what carrying out
    /// `verdict` on `packet` leaves: only a packet that is delivered at once
    /// changes the network, and a delay lies in the range of its kind.
    pub open spec fn carried_out(
        self,
        verdict: Verdict,
        packet: PacketView,
        delivery: Delivery,
        after: NetworkView,
    ) -> bool {
        match verdict {
            Verdict::Unreachable => delivery == Delivery::Unreachable && after == self,
            Verdict::Dropped => delivery == Delivery::Dropped && after == self,
            Verdict::Unroutable => delivery == Delivery::Unroutable && after == self,
            Verdict::ShortDelay { target } => {
                &&& delivery matches Delivery::Delayed { target: to, delay }
                &&& to == target
                &&& self.config.short_delay_range.contains(delay)
                &&& after == self
            },
            Verdict::LongDelay { target } => {
                &&& delivery matches Delivery::Delayed { target: to, delay }
                &&& to == target
                &&& self.config.long_delay_range.contains(delay)
                &&& after == self
            },
            Verdict::Deliver { target } => {
                &&& delivery == Delivery::Delivered { target }
                &&& after == self.delivered(target, packet)
            },
        }
    }

    /// Whether handing `packet` to the network can end in `delivery` and
    /// leave the network `after`: some sample below the scale has a verdict
    /// that was carried out.
    pub open spec fn sent(self, packet: PacketView, delivery: Delivery, after: NetworkView) -> bool {
        exists|sample: u32|
            sample < RATE_SCALE && self.carried_out(
                #[trigger] self.verdict(packet, sample),
                packet,
                delivery,
                after,
            )
    }

    /// The listener that a connection to `remote` reaches: the registry
    /// leads from the address to a host, and the host from the endpoint to a
    /// listener.
    pub open spec fn find_listener(self, remote: EndpointView) -> Option<ListenerHandle> {
        match self.get_network_interface(remote.0) {
            Some(interface) => if interface < self.interfaces.len() {
                match self.interfaces[interface as int].get_tcp_listener(remote) {
                    Some(listener) => Some(ListenerHandle { interface, listener }),
                    None => None,
                }
            } else {
                None
            },
            None => None,
        }
    }

    /// The network after host `interface` has connected from `local` to the
    /// listener `at`, bound at `remote`: the host has a new stream from
    /// `local` to `remote`, registered under `local`, and the listener's host
    /// has a new stream from `remote` to `local`, pending at the listener.
    pub open spec fn after_connection(
        self,
        interface: usize,
        local: EndpointView,
        at: ListenerHandle,
        remote: EndpointView,
    ) -> NetworkView {
        let opened = self.with_interface(
            interface,
            self.interfaces[interface as int].after_open(local, remote),
        );
        opened.with_interface(
            at.interface,
            opened.interfaces[at.interface as int].after_arrival(at.listener, remote, local),
        )
    }

    /// Whether `result` and the network `after` are what opening a
    /// connection from `local` on host `interface` to `remote` leaves:
    /// without a listener at `remote` nothing changes and no stream comes
    /// back; with one, the client-side stream does.
    pub open spec fn opened(
        self,
        interface: usize,
        local: EndpointView,
        remote: EndpointView,
        result: Option<StreamHandle>,
        after: NetworkView,
    ) -> bool {
        match self.find_listener(remote) {
            Some(at) => {
                &&& result == Some(
                    StreamHandle {
                        interface,
                        stream: self.interfaces[interface as int].streams.len() as usize,
                    },
                )
                &&& after == self.after_connection(interface, local, at, remote)
            },
            None => result is None && after == self,
        }
    }

    /// The network after host `interface` has claimed `port` for `ip`.
    pub open spec fn with_port(self, interface: usize, ip: IpView, port: u16) -> NetworkView {
        self.with_interface(interface, self.interfaces[interface as int].with_port(ip, port))
    }

    /// Whether `result` and the network `after` are what a connect of host
    /// `interface` to `remote` can leave. A host without an address does
    /// not connect. Otherwise the host connects from one of its addresses:
    /// when every port is held for that address nothing changes; when not,
    /// a port that was free is held from now on, whether or not a listener
    /// is found at `remote`, and the connection is opened from there.
    pub open spec fn connected(
        self,
        interface: usize,
        remote: EndpointView,
        result: Option<StreamHandle>,
        after: NetworkView,
    ) -> bool {
        let host = self.interfaces[interface as int];
        if host.has_no_address() {
            result is None && after == self
        } else {
            exists|local: EndpointView|
                {
                    &&& #[trigger] host.addresses.contains(local.0)
                    &&& if host.exhausted(local.0) {
                        result is None && after == self
                    } else {
                        &&& !host.held.contains(local)
                        &&& self.with_port(interface, local.0, local.1).opened(
                            interface,
                            local,
                            remote,
                            result,
                            after,
                        )
                    }
                }
        }
    }

    /// The network after the listener `at` has accepted its oldest pending
    /// connection.
    pub open spec fn after_accept(self, at: ListenerHandle) -> NetworkView {
        self.with_interface(
            at.interface,
            self.interfaces[at.interface as int].after_accept(at.listener),
        )
    }

    /// The network after `ip1` and `ip2` have been linked, both ways.
    pub open spec fn after_connect(self, ip1: IpView, ip2: IpView) -> NetworkView {
        NetworkView { links: self.links.insert((ip1, ip2)).insert((ip2, ip1)), ..self }
    }

    /// The network after the link between `ip1` and `ip2` has been cut, both
    /// ways.
    pub open spec fn after_disconnect(self, ip1: IpView, ip2: IpView) -> NetworkView {
        NetworkView { links: self.links.remove((ip1, ip2)).remove((ip2, ip1)), ..self }
    }
}

/// The simulated network. It owns its hosts; a host is named by the
/// position at which it was added.
#[derive(Debug)]
pub struct SimulatedNetwork {
    config: SimulatedNetworkConfig,
    random: RandomSource,
    interfaces: Vec<SimulatedNetworkInterface>,
    network_interfaces: Table<String, usize>,
    connections: Table<(String, String), ()>,
}

impl View for SimulatedNetwork {
    type V = NetworkView;

    closed spec fn view(&self) -> NetworkView {
        NetworkView {
            config: self.config,
            interfaces: Seq::new(self.interfaces@.len(), |i: int| self.interfaces@[i]@),
            registry: self.network_interfaces@,
            links: self.connections@.dom(),
        }
    }
}

impl SimulatedNetwork {
    /// The tables hold each key once, and so do the tables of every host.
    pub closed spec fn tables_wf(&self) -> bool {
        &&& self.network_interfaces.wf()
        &&& self.connections.wf()
        &&& forall|i: int|
            0 <= i < self.interfaces@.len() ==> (#[trigger] self.interfaces@[i]).tables_wf()
    }

    /// The invariant of the network.
    pub open spec fn wf(&self) -> bool {
        &&& self.tables_wf()
        &&& self@.consistent()
    }

    /// A network without hosts or links, which draws from `random`. A
    /// configuration whose rates sum to more than certainty, or with an
    /// empty delay range, is rejected.
    pub fn new(config: SimulatedNetworkConfig, random: RandomSource) -> (made: Result<
        SimulatedNetwork,
        ConfigError,
    >)
        ensures
            match made {
                Ok(network) => config.valid() && network.wf() && network@ == NetworkView::fresh(
                    config,
                ),
                Err(error) => config.fault() == Some(error),
            },
    {
        match config.validate() {
            Err(error) => Err(error),
            Ok(_) => {
                let network = SimulatedNetwork {
                    config,
                    random,
                    interfaces: Vec::new(),
                    network_interfaces: Table::new(),
                    connections: Table::new(),
                };
                proof {
                    assert(network@.interfaces =~= Seq::<InterfaceView>::empty());
                    assert(network@.links =~= Set::<(IpView, IpView)>::empty());
                }
                Ok(network)
            },
        }
    }

    /// The configuration that the network was made with.
    pub fn config(&self) -> (config: SimulatedNetworkConfig)
        ensures
            config == self@.config,
    {
        self.config
    }

    /// Adds a host and returns the name by which the network knows it. Its
    /// addresses lead nowhere until the host is registered.
    pub fn add_network_interface(&mut self, network_interface: SimulatedNetworkInterface) -> (handle:
        InterfaceHandle)
        requires
            old(self).wf(),
            network_interface.wf(),
        ensures
            final(self).wf(),
            final(self)@.keeps_handles_of(old(self)@),
            handle.interface == old(self)@.interfaces.len(),
            final(self)@.has_interface(handle.interface),
            final(self)@ == old(self)@.with_new_interface(network_interface@),
    {
        let interface = self.interfaces.len();
        self.interfaces.push(network_interface);
        proof {
            assert(self@.interfaces =~= old(self)@.interfaces.push(network_interface@));
            assert(self@ =~= old(self)@.with_new_interface(network_interface@));
            assert forall|i: int| 0 <= i < self@.interfaces.len() implies (
            #[trigger] self@.interfaces[i]).consistent() by {
                if i < old(self)@.interfaces.len() {
                    assert(old(self)@.interfaces[i].consistent());
                }
            }
        }
        InterfaceHandle { interface }
    }

    /// Whether `handle` names a host of this network.
    pub fn has_interface(&self, handle: InterfaceHandle) -> (known: bool)
        ensures
            known == self@.has_interface(handle.interface),
    {
        handle.interface < self.interfaces.len()
    }

    /// Whether `handle` names a stream of this network.
    pub fn has_stream(&self, handle: StreamHandle) -> (known: bool)
        ensures
            known == self@.has_stream(handle),
    {
        handle.interface < self.interfaces.len() && handle.stream
            < self.interfaces[handle.interface].stream_count()
    }

    /// Whether `handle` names a listener of this network.
    pub fn has_listener(&self, handle: ListenerHandle) -> (known: bool)
        ensures
            known == self@.has_listener(handle),
    {
        handle.interface < self.interfaces.len() && handle.listener
            < self.interfaces[handle.interface].listener_count()
    }

    /// The number of hosts.
    pub fn interface_count(&self) -> (n: usize)
        ensures
            n == self@.interfaces.len(),
    {
        self.interfaces.len()
    }

    /// The host that `handle` names.
    pub fn interface(&self, handle: InterfaceHandle) -> (found: &SimulatedNetworkInterface)
        requires
            self.wf(),
            self@.has_interface(handle.interface),
        ensures
            found.wf(),
            found@ == self@.interfaces[handle.interface as int],
    {
        proof {
            assert(self@.interfaces[handle.interface as int].consistent());
        }
        &self.interfaces[handle.interface]
    }

    /// The host that the registry has for `ip`.
    pub fn get_network_interface(&self, ip: &str) -> (found: Option<InterfaceHandle>)
        requires
            self.wf(),
        ensures
            match found {
                Some(handle) => self@.get_network_interface(ip@) == Some(handle.interface)
                    && self@.has_interface(handle.interface),
                None => self@.get_network_interface(ip@) is None,
            },
    {
        let key = ip.to_owned();
        match self.network_interfaces.get(&key) {
            Some(interface) => Some(InterfaceHandle { interface: *interface }),
            None => None,
        }
    }

    /// Whether packets travel from `from` to `to`.
    pub fn is_linked(&self, from: &str, to: &str) -> (linked: bool)
        requires
            self.wf(),
        ensures
            linked == self@.linked(from@, to@),
    {
        let key = (from.to_owned(), to.to_owned());
        self.connections.contains_key(&key)
    }

    /// Links `ip1` and `ip2`, both ways.
    pub fn connect(&mut self, ip1: &str, ip2: &str)
        requires
            old(self).wf(),
        ensures
            final(self).wf(),
            final(self)@.keeps_handles_of(old(self)@),
            final(self)@ == old(self)@.after_connect(ip1@, ip2@),
    {
        self.connections.insert((ip1.to_owned(), ip2.to_owned()), ());
        self.connections.insert((ip2.to_owned(), ip1.to_owned()), ());
        proof {
            assert(self@.links =~= old(self)@.after_connect(ip1@, ip2@).links);
            assert(self@.interfaces =~= old(self)@.interfaces);
            assert(self@ =~= old(self)@.after_connect(ip1@, ip2@));
        }
    }

    /// Cuts the link between `ip1` and `ip2`, both ways.
    pub fn disconnect(&mut self, ip1: &str, ip2: &str)
        requires
            old(self).wf(),
        ensures
            final(self).wf(),
            final(self)@.keeps_handles_of(old(self)@),
            final(self)@ == old(self)@.after_disconnect(ip1@, ip2@),
    {
        let forth = (ip1.to_owned(), ip2.to_owned());
        let back = (ip2.to_owned(), ip1.to_owned());
        self.connections.remove(&forth);
        self.connections.remove(&back);
        proof {
            assert(self@.links =~= old(self)@.after_disconnect(ip1@, ip2@).links);
            assert(self@.interfaces =~= old(self)@.interfaces);
            assert(self@ =~= old(self)@.after_disconnect(ip1@, ip2@));
        }
    }
}

} // verus!

verus! {

impl SimulatedNetwork {
    /// A network of which one host has changed, and nothing else, is the
    /// network with that host replaced, and is well formed if the host is.
    proof fn lemma_interface_changed(&self, before: SimulatedNetwork, interface: usize)
        requires
            before.wf(),
            interface < before.interfaces@.len(),
            self.config == before.config,
            self.network_interfaces == before.network_interfaces,
            self.connections == before.connections,
            self.interfaces@ == before.interfaces@.update(
                interface as int,
                self.interfaces@[interface as int],
            ),
            self.interfaces@[interface as int].wf(),
        ensures
            self.wf(),
            self@ == before@.with_interface(interface, self.interfaces@[interface as int]@),
            self@.interfaces.len() == before@.interfaces.len(),
            forall|i: int|
                0 <= i < before@.interfaces.len() && i != interface ==> #[trigger] self@.interfaces[i]
                    == before@.interfaces[i],
    {
        assert(self@.interfaces =~= before@.interfaces.update(
            interface as int,
            self.interfaces@[interface as int]@,
        ));
        assert(self@ =~= before@.with_interface(interface, self.interfaces@[interface as int]@));
        assert forall|i: int| 0 <= i < self@.interfaces.len() implies (
        #[trigger] self@.interfaces[i]).consistent() by {
            if i != interface {
                assert(before@.interfaces[i].consistent());
            }
        }
    }

    /// Registers every address that host `interface` has at this moment, in
    /// place of an earlier owner of the address. Addresses that the host is
    /// given later are not registered until this is called again.
    pub fn register_network_interface(&mut self, handle: InterfaceHandle)
        requires
            old(self).wf(),
            old(self)@.has_interface(handle.interface),
        ensures
            final(self).wf(),
            final(self)@.keeps_handles_of(old(self)@),
            final(self)@ == old(self)@.after_register(handle.interface),
    {
        let interface = handle.interface;
        proof {
            assert(self@.interfaces[interface as int].consistent());
        }
        let ips = self.interfaces[interface].get_ip_addresses();
        let ghost addresses = self@.interfaces[interface as int].addresses;
        proof {
            assert(crate::interface::address_set(ips@) =~= addresses);
            crate::interface::lemma_address_set_ends(ips@);
            assert(self@.registry =~= old(self)@.with_registered(
                crate::interface::address_set(ips@.take(0)),
                interface,
            ).registry);
            assert(self@ =~= old(self)@.with_registered(
                crate::interface::address_set(ips@.take(0)),
                interface,
            ));
        }
        let mut i: usize = 0;
        while i < ips.len()
            invariant
                i <= ips@.len(),
                self.wf(),
                old(self)@.has_interface(interface),
                self@ == old(self)@.with_registered(
                    crate::interface::address_set(ips@.take(i as int)),
                    interface,
                ),
            decreases ips@.len() - i,
        {
            let ghost before = *self;
            self.network_interfaces.insert(ips[i].clone(), interface);
            proof {
                crate::interface::lemma_address_set_step(ips@, i as int);
                assert(self@.registry =~= old(self)@.with_registered(
                    crate::interface::address_set(ips@.take(i + 1)),
                    interface,
                ).registry);
                assert(self@.interfaces =~= before@.interfaces);
                assert(self@ =~= old(self)@.with_registered(
                    crate::interface::address_set(ips@.take(i + 1)),
                    interface,
                ));
                assert(before@.consistent());
                assert(self@.links == before@.links);
                assert forall|ip: IpView| #[trigger]
                    self@.registry.contains_key(ip) implies self@.registry[ip]
                    < self@.interfaces.len() by {
                    if before@.registry.contains_key(ip) {
                    }
                }
            }
            i += 1;
        }
        proof {
            crate::interface::lemma_address_set_ends(ips@);
        }
    }

    /// The stream that a packet from `source` to `destination` reaches.
    pub fn resolve(&self, source: &Endpoint, destination: &Endpoint) -> (target: Option<StreamHandle>)
        requires
            self.wf(),
        ensures
            target == self@.resolve(source@, destination@),
            target matches Some(handle) ==> self@.has_stream(handle),
    {
        match self.network_interfaces.get(&destination.ip) {
            None => None,
            Some(interface) => {
                let interface: usize = *interface;
                proof {
                    assert(self@.registry.contains_key(destination.ip@));
                    assert(self@.interfaces[interface as int].consistent());
                }
                match self.interfaces[interface].get_stream(source, destination) {
                    Some(stream) => Some(StreamHandle { interface, stream }),
                    None => None,
                }
            },
        }
    }

    /// What the router decides for `packet` when the sample drawn for it is
    /// `sample`.
    pub fn decide(&self, packet: &Packet, sample: u32) -> (verdict: Verdict)
        requires
            self.wf(),
        ensures
            verdict == self@.verdict(packet@, sample),
            match verdict {
                Verdict::ShortDelay { target } => self@.has_stream(target),
                Verdict::LongDelay { target } => self@.has_stream(target),
                Verdict::Deliver { target } => self@.has_stream(target),
                _ => true,
            },
    {
        if !self.is_linked(packet.source.ip.as_str(), packet.destination.ip.as_str()) {
            return Verdict::Unreachable;
        }
        let fate = self.config.classify(sample);
        match fate {
            Fate::Drop => Verdict::Dropped,
            _ => match self.resolve(&packet.source, &packet.destination) {
                None => Verdict::Unroutable,
                Some(target) => match fate {
                    Fate::ShortDelay => Verdict::ShortDelay { target },
                    Fate::LongDelay => Verdict::LongDelay { target },
                    _ => Verdict::Deliver { target },
                },
            },
        }
    }

    /// Routes `packet`. A packet between addresses that are not linked is
    /// discarded. Otherwise one sample is drawn and decides: the packet is
    /// dropped, or it is delayed and handed back with the stream it is due
    /// at and a delay drawn from the range of its kind, or it is queued at
    /// its stream at once. A packet that has no stream to go to is
    /// discarded. Nobody is told of a discarded packet but the caller.
    pub fn send_packet(&mut self, packet: &Packet) -> (delivery: Delivery)
        requires
            old(self).wf(),
        ensures
            final(self).wf(),
            final(self)@.keeps_handles_of(old(self)@),
            old(self)@.sent(packet@, delivery, final(self)@),
    {
        if !self.is_linked(packet.source.ip.as_str(), packet.destination.ip.as_str()) {
            proof {
                assert(self@.carried_out(
                    self@.verdict(packet@, 0),
                    packet@,
                    Delivery::Unreachable,
                    self@,
                ));
            }
            return Delivery::Unreachable;
        }
        let sample: u32 = self.random.draw(0, RATE_SCALE as u64) as u32;
        let verdict = self.decide(packet, sample);
        let delivery = match verdict {
            Verdict::Unreachable => Delivery::Unreachable,
            Verdict::Dropped => Delivery::Dropped,
            Verdict::Unroutable => Delivery::Unroutable,
            Verdict::ShortDelay { target } => {
                let range = self.config.short_delay_range;
                Delivery::Delayed { target, delay: self.random.draw(range.start, range.end) }
            },
            Verdict::LongDelay { target } => {
                let range = self.config.long_delay_range;
                Delivery::Delayed { target, delay: self.random.draw(range.start, range.end) }
            },
            Verdict::Deliver { target } => {
                target.on_packet_received(self, packet);
                Delivery::Delivered { target }
            },
        };
        proof {
            assert(old(self)@.carried_out(
                old(self)@.verdict(packet@, sample),
                packet@,
                delivery,
                self@,
            ));
        }
        delivery
    }
}

} // verus!

verus! {

impl SimulatedNetwork {
    /// The listener that a connection to `port` of `ip` reaches.
    pub fn find_listener(&self, ip: &str, port: u16) -> (found: Option<ListenerHandle>)
        requires
            self.wf(),
        ensures
            found == self@.find_listener((ip@, port)),
            found matches Some(at) ==> self@.has_listener(at),
    {
        match self.get_network_interface(ip) {
            None => None,
            Some(handle) => {
                let interface = handle.interface;
                proof {
                    assert(self@.interfaces[interface as int].consistent());
                }
                match self.interfaces[interface].get_tcp_listener(ip, port) {
                    Some(listener) => Some(ListenerHandle { interface, listener }),
                    None => None,
                }
            },
        }
    }

    /// Opens a connection from `local` on the host `from` to the listener
    /// at `remote_port` of `remote_ip`. Without such a listener the
    /// connection is refused and nothing changes. With one, both sides get
    /// their stream: the client side is registered at its host, the server
    /// side waits at the listener to be accepted. The client-side stream
    /// comes back; it is usable once the acknowledgment has arrived on it.
    pub fn open_connection(
        &mut self,
        from: InterfaceHandle,
        local: Endpoint,
        remote_ip: &str,
        remote_port: u16,
    ) -> (opened: Option<StreamHandle>)
        requires
            old(self).wf(),
            old(self)@.has_interface(from.interface),
        ensures
            final(self).wf(),
            final(self)@.keeps_handles_of(old(self)@),
            old(self)@.opened(
                from.interface,
                local@,
                (remote_ip@, remote_port),
                opened,
                final(self)@,
            ),
            opened matches Some(handle) ==> final(self)@.has_stream(handle),
    {
        let interface = from.interface;
        let at = match self.find_listener(remote_ip, remote_port) {
            Some(at) => at,
            None => {
                return None;
            },
        };
        let remote = Endpoint::new(remote_ip, remote_port);
        proof {
            assert(self@.interfaces[interface as int].consistent());
        }
        let stream = self.interfaces[interface].open_stream(local.clone(), remote.clone());
        proof {
            self.lemma_interface_changed(*old(self), interface);
        }
        let ghost opened = *self;
        proof {
            assert(self@.interfaces[at.interface as int].consistent());
        }
        self.interfaces[at.interface].on_new_connection(at.listener, remote, local);
        proof {
            self.lemma_interface_changed(opened, at.interface);
        }
        Some(StreamHandle { interface, stream })
    }

    /// Reads one signal from `stream` and says whether it was the
    /// acknowledgment that completes the handshake. `false` means that no
    /// signal has arrived yet: a caller that waits asks again later.
    pub fn finish_connect(&mut self, stream: StreamHandle) -> (done: bool)
        requires
            old(self).wf(),
            old(self)@.has_stream(stream),
        ensures
            final(self).wf(),
            final(self)@.keeps_handles_of(old(self)@),
            done == (old(self)@.stream(stream).controls.len() > 0),
            final(self)@ == old(self)@.with_stream(
                stream,
                old(self)@.stream(stream).after_receive_control(),
            ),
    {
        proof {
            assert(self@.interfaces[stream.interface as int].consistent());
        }
        let done = self.interfaces[stream.interface].take_sync(stream.stream);
        proof {
            self.lemma_interface_changed(*old(self), stream.interface);
        }
        done
    }

    /// Takes the oldest signal that has arrived on `stream`. `None` means
    /// that nothing is queued.
    pub fn receive_control(&mut self, stream: StreamHandle) -> (signal: Option<Control>)
        requires
            old(self).wf(),
            old(self)@.has_stream(stream),
        ensures
            final(self).wf(),
            final(self)@.keeps_handles_of(old(self)@),
            final(self)@ == old(self)@.with_stream(
                stream,
                old(self)@.stream(stream).after_receive_control(),
            ),
            match signal {
                Some(c) => old(self)@.stream(stream).controls.len() > 0 && c == old(self)@.stream(
                    stream,
                ).controls[0],
                None => old(self)@.stream(stream).controls.len() == 0,
            },
    {
        proof {
            assert(self@.interfaces[stream.interface as int].consistent());
        }
        let signal = self.interfaces[stream.interface].receive_control(stream.stream);
        proof {
            self.lemma_interface_changed(*old(self), stream.interface);
        }
        signal
    }

    /// Adds `ip_addresses` to the addresses of the host. The registry is
    /// left as it is: the new addresses lead to the host once it is
    /// registered again.
    pub fn assign_ip_addresses(&mut self, handle: InterfaceHandle, ip_addresses: Vec<&str>)
        requires
            old(self).wf(),
            old(self)@.has_interface(handle.interface),
        ensures
            final(self).wf(),
            final(self)@.keeps_handles_of(old(self)@),
            final(self)@ == old(self)@.with_interface(
                handle.interface,
                old(self)@.interfaces[handle.interface as int].with_addresses(
                    crate::interface::address_set(ip_addresses@),
                ),
            ),
    {
        proof {
            assert(self@.interfaces[handle.interface as int].consistent());
        }
        self.interfaces[handle.interface].assign_ip_addresses(ip_addresses);
        proof {
            self.lemma_interface_changed(*old(self), handle.interface);
        }
    }

    /// Takes `ip_addresses` away from the addresses of the host. The
    /// registry is left as it is.
    pub fn remove_ip_addresses(&mut self, handle: InterfaceHandle, ip_addresses: Vec<&str>)
        requires
            old(self).wf(),
            old(self)@.has_interface(handle.interface),
        ensures
            final(self).wf(),
            final(self)@.keeps_handles_of(old(self)@),
            final(self)@ == old(self)@.with_interface(
                handle.interface,
                old(self)@.interfaces[handle.interface as int].without_addresses(
                    crate::interface::address_set(ip_addresses@),
                ),
            ),
    {
        proof {
            assert(self@.interfaces[handle.interface as int].consistent());
        }
        self.interfaces[handle.interface].remove_ip_addresses(ip_addresses);
        proof {
            self.lemma_interface_changed(*old(self), handle.interface);
        }
    }

    /// Gives up `port` for `ip` at the host.
    pub fn free_port(&mut self, handle: InterfaceHandle, ip: &str, port: u16)
        requires
            old(self).wf(),
            old(self)@.has_interface(handle.interface),
        ensures
            final(self).wf(),
            final(self)@.keeps_handles_of(old(self)@),
            final(self)@ == old(self)@.with_interface(
                handle.interface,
                old(self)@.interfaces[handle.interface as int].without_port(ip@, port),
            ),
    {
        proof {
            assert(self@.interfaces[handle.interface as int].consistent());
        }
        self.interfaces[handle.interface].free_port(ip, port);
        proof {
            self.lemma_interface_changed(*old(self), handle.interface);
        }
    }
}

impl NetworkInterface for InterfaceHandle {
    open spec fn interface(&self) -> usize {
        self.interface
    }

    fn connect(&self, network: &mut SimulatedNetwork, remote_ip: &str, remote_port: u16) -> (stream:
        Option<StreamHandle>) {
        let interface = self.interface;
        proof {
            assert(network@.interfaces[interface as int].consistent());
        }
        let local_ip = match network.interfaces[interface].pick_local_ip(remote_ip) {
            Some(ip) => ip,
            None => {
                return None;
            },
        };
        let local_port = match network.interfaces[interface].allocate_port(
            local_ip.as_str(),
            &mut network.random,
        ) {
            Some(port) => port,
            None => {
                proof {
                    network.lemma_interface_changed(*old(network), interface);
                    assert(network@.interfaces =~= old(network)@.interfaces);
                    assert(network@ =~= old(network)@);
                    assert(old(network)@.interfaces[interface as int].addresses.contains(
                        (local_ip@, 0u16).0,
                    ));
                }
                return None;
            },
        };
        proof {
            network.lemma_interface_changed(*old(network), interface);
        }
        let local = Endpoint { ip: local_ip, port: local_port };
        let stream = network.open_connection(*self, local, remote_ip, remote_port);
        proof {
            assert(old(network)@.interfaces[interface as int].addresses.contains(local@.0));
        }
        stream
    }

    fn bind_tcp(&self, network: &mut SimulatedNetwork, local_ip: &str, local_port: u16) -> (listener:
        Option<ListenerHandle>) {
        let interface = self.interface;
        proof {
            assert(network@.interfaces[interface as int].consistent());
        }
        let bound = network.interfaces[interface].bind_tcp(local_ip, local_port);
        proof {
            network.lemma_interface_changed(*old(network), interface);
            if bound is None {
                assert(network@.interfaces =~= old(network)@.interfaces);
                assert(network@ =~= old(network)@);
            }
        }
        match bound {
            Some(listener) => Some(ListenerHandle { interface, listener }),
            None => None,
        }
    }
}

impl TcpStream for StreamHandle {
    open spec fn handle(&self) -> StreamHandle {
        *self
    }

    fn send(&self, network: &mut SimulatedNetwork, data: &[u8]) -> (delivery: Delivery) {
        let packet = network.interfaces[self.interface].stream(self.stream).send(data);
        network.send_packet(&packet)
    }

    fn receive(&self, network: &mut SimulatedNetwork) -> (payload: Option<Vec<u8>>) {
        proof {
            assert(network@.interfaces[self.interface as int].consistent());
        }
        let payload = network.interfaces[self.interface].receive(self.stream);
        proof {
            network.lemma_interface_changed(*old(network), self.interface);
        }
        payload
    }

    fn send_control(&self, network: &mut SimulatedNetwork, control: Control) -> (delivery: Delivery) {
        let packet = network.interfaces[self.interface].stream(self.stream).send_control(control);
        network.send_packet(&packet)
    }

    fn get_local_endpoint(&self, network: &SimulatedNetwork) -> (endpoint: Endpoint) {
        network.interfaces[self.interface].stream(self.stream).get_local_endpoint()
    }

    fn get_remote_endpoint(&self, network: &SimulatedNetwork) -> (endpoint: Endpoint) {
        network.interfaces[self.interface].stream(self.stream).get_remote_endpoint()
    }

    fn on_packet_received(&self, network: &mut SimulatedNetwork, packet: &Packet) {
        proof {
            assert(network@.interfaces[self.interface as int].consistent());
        }
        network.interfaces[self.interface].deliver(self.stream, packet);
        proof {
            network.lemma_interface_changed(*old(network), self.interface);
        }
    }
}

impl TcpListener for ListenerHandle {
    open spec fn handle(&self) -> ListenerHandle {
        *self
    }

    fn accept(&self, network: &mut SimulatedNetwork) -> (accepted: Option<(StreamHandle, Delivery)>) {
        let at = *self;
        proof {
            assert(network@.interfaces[at.interface as int].consistent());
        }
        let accepted = network.interfaces[at.interface].accept(at.listener);
        proof {
            network.lemma_interface_changed(*old(network), at.interface);
        }
        match accepted {
            None => {
                proof {
                    let host = old(network)@.interfaces[at.interface as int];
                    assert(host.after_accept(at.listener).listeners =~= host.listeners);
                    assert(network@.interfaces =~= old(network)@.interfaces);
                    assert(network@ =~= old(network)@);
                }
                None
            },
            Some(stream) => {
                let handle = StreamHandle { interface: at.interface, stream };
                let sync = network.interfaces[at.interface].stream(stream).send_control(
                    Control::Sync,
                );
                let ghost registered = network@;
                let delivery = network.send_packet(&sync);
                proof {
                    let sample = choose|sample: u32|
                        sample < RATE_SCALE && registered.carried_out(
                            #[trigger] registered.verdict(sync@, sample),
                            sync@,
                            delivery,
                            network@,
                        );
                    assert(registered.has_stream(handle));
                    match delivery {
                        Delivery::Delivered { target } => {
                            assert(network@ == registered.delivered(target, sync@));
                        },
                        _ => {
                            assert(network@ == registered);
                        },
                    }
                }
                Some((handle, delivery))
            },
        }
    }
}

} // verus!
