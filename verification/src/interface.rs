//! One simulated host: its addresses, the ports it holds, its listeners and
//! its streams.

use vstd::prelude::*;
use std::collections::HashSet;
use crate::listener::{ListenerView, SimulatedTcpListener};
use crate::packet::{Control, Endpoint, EndpointView, IpView, Packet};
use crate::ports::pick_free_port;
use crate::random::RandomSource;
use crate::stream::{SimulatedTcpStream, StreamView};
use crate::table::Table;

verus! {

broadcast use vstd::std_specs::hash::group_hash_axioms;

/// A host as contracts see it. Listeners and streams are named by their
/// position in `listeners` and `streams`; neither list ever shrinks.
pub struct InterfaceView {
    /// The addresses assigned to the host.
    pub addresses: Set<IpView>,
    /// The ports that are held, each with the address it is held for.
    pub held: Set<EndpointView>,
    /// The listener bound at each endpoint.
    pub bound: Map<EndpointView, usize>,
    /// The stream that each local endpoint connected from.
    pub connected: Map<EndpointView, usize>,
    pub listeners: Seq<ListenerView>,
    pub streams: Seq<StreamView>,
}

/// The addresses that `ips` names.
pub open spec fn address_set<T: View<V = IpView>>(ips: Seq<T>) -> Set<IpView> {
    Set::new(|ip: IpView| exists|i: int| 0 <= i < ips.len() && (#[trigger] ips[i])@ == ip)
}

/// The addresses of a list one element longer are those of the list and the
/// new element.
pub proof fn lemma_address_set_step<T: View<V = IpView>>(ips: Seq<T>, i: int)
    requires
        0 <= i < ips.len(),
    ensures
        address_set(ips.take(i + 1)) == address_set(ips.take(i)).insert(ips[i]@),
{
    let done = address_set(ips.take(i));
    let next = address_set(ips.take(i + 1));
    assert forall|ip: IpView| next.contains(ip) <==> (done.contains(ip) || ip == ips[i]@) by {
        if next.contains(ip) {
            let j = choose|j: int| 0 <= j < i + 1 && (#[trigger] ips.take(i + 1)[j])@ == ip;
            if j < i {
                assert(ips.take(i)[j]@ == ip);
            }
        }
        if done.contains(ip) {
            let j = choose|j: int| 0 <= j < i && (#[trigger] ips.take(i)[j])@ == ip;
            assert(ips.take(i + 1)[j]@ == ip);
        }
        if ip == ips[i]@ {
            assert(ips.take(i + 1)[i]@ == ip);
        }
    }
    assert(next =~= done.insert(ips[i]@));
}

/// No element names no address, and the whole list is its own longest
/// prefix.
pub proof fn lemma_address_set_ends<T: View<V = IpView>>(ips: Seq<T>)
    ensures
        address_set(ips.take(0)) == Set::<IpView>::empty(),
        address_set(ips.take(ips.len() as int)) == address_set(ips),
{
    assert(address_set(ips.take(0)) =~= Set::<IpView>::empty());
    assert(ips.take(ips.len() as int) =~= ips);
}

impl InterfaceView {
    /// A host without addresses, ports, listeners or streams.
    pub open spec fn fresh() -> InterfaceView {
        InterfaceView {
            addresses: Set::empty(),
            held: Set::empty(),
            bound: Map::empty(),
            connected: Map::empty(),
            listeners: Seq::empty(),
            streams: Seq::empty(),
        }
    }

    /// Every listener and stream that a table names exists.
    pub open spec fn consistent(self) -> bool {
        &&& forall|e: EndpointView| #[trigger]
            self.bound.contains_key(e) ==> self.bound[e] < self.listeners.len()
        &&& forall|e: EndpointView| #[trigger]
            self.connected.contains_key(e) ==> self.connected[e] < self.streams.len()
        &&& forall|i: int|
            0 <= i < self.listeners.len() ==> (#[trigger] self.listeners[i]).streams_below(
                self.streams.len() as int,
            )
    }

    /// The listener bound at `endpoint`.
    pub open spec fn get_tcp_listener(self, endpoint: EndpointView) -> Option<usize> {
        if self.bound.contains_key(endpoint) {
            Some(self.bound[endpoint])
        } else {
            None
        }
    }

    /// The stream that a packet from `source` to `destination` reaches: the
    /// stream that connected from `destination`, or else the stream that the
    /// listener bound at `destination` accepted from `source`.
    pub open spec fn get_stream(self, source: EndpointView, destination: EndpointView) -> Option<
        usize,
    > {
        if self.connected.contains_key(destination) {
            Some(self.connected[destination])
        } else if self.bound.contains_key(destination) && self.bound[destination]
            < self.listeners.len() {
            self.listeners[self.bound[destination] as int].get_stream(source)
        } else {
            None
        }
    }

    /// Whether the host has no address.
    pub open spec fn has_no_address(self) -> bool {
        forall|ip: IpView| !self.addresses.contains(ip)
    }

    /// The ports that are held for `ip`.
    pub open spec fn ports_of(self, ip: IpView) -> Set<u16> {
        Set::new(|port: u16| self.held.contains((ip, port)))
    }

    /// Whether every port is held for `ip`.
    pub open spec fn exhausted(self, ip: IpView) -> bool {
        forall|port: u16| #[trigger] self.held.contains((ip, port))
    }

    /// Consistency speaks of the tables, the listeners and the streams only.
    pub proof fn lemma_consistent_frame(self, other: InterfaceView)
        requires
            self.consistent(),
            other.bound == self.bound,
            other.connected == self.connected,
            other.listeners == self.listeners,
            other.streams == self.streams,
        ensures
            other.consistent(),
    {
    }

    /// The addresses that a bind to `local_ip` covers: the address itself,
    /// or every address of the host when `local_ip` is empty.
    pub open spec fn bind_targets(self, local_ip: IpView) -> Set<IpView> {
        if local_ip.len() == 0 {
            self.addresses
        } else {
            set![local_ip]
        }
    }

    /// Whether `port` is already held for an address that a bind to
    /// `local_ip` covers.
    pub open spec fn bind_conflict(self, local_ip: IpView, port: u16) -> bool {
        exists|ip: IpView| #[trigger]
            self.bind_targets(local_ip).contains(ip) && self.held.contains((ip, port))
    }

    /// The host after `port` has been claimed for each of `ips`.
    pub open spec fn with_ports(self, ips: Set<IpView>, port: u16) -> InterfaceView {
        InterfaceView {
            held: Set::new(
                |e: EndpointView| self.held.contains(e) || (ips.contains(e.0) && e.1 == port),
            ),
            ..self
        }
    }

    /// The host after a new listener has been added, bound nowhere yet.
    pub open spec fn with_listener(self) -> InterfaceView {
        InterfaceView { listeners: self.listeners.push(ListenerView::fresh()), ..self }
    }

    /// The host after `listener` has been bound at `port` of each of `ips`,
    /// in place of what was bound there.
    pub open spec fn with_bound(self, ips: Set<IpView>, port: u16, listener: usize) -> InterfaceView {
        InterfaceView {
            bound: Map::new(
                |e: EndpointView| self.bound.contains_key(e) || (ips.contains(e.0) && e.1 == port),
                |e: EndpointView|
                    if ips.contains(e.0) && e.1 == port {
                        listener
                    } else {
                        self.bound[e]
                    },
            ),
            ..self
        }
    }

    /// The host after a successful bind of `port` to `local_ip`: the port is
    /// held for every covered address, and a new listener is bound at each.
    pub open spec fn after_bind(self, local_ip: IpView, port: u16) -> InterfaceView {
        let targets = self.bind_targets(local_ip);
        self.with_ports(targets, port).with_listener().with_bound(
            targets,
            port,
            self.listeners.len() as usize,
        )
    }

    /// The host after a stream from `local` to `remote` has been added to
    /// its streams.
    pub open spec fn with_stream(self, local: EndpointView, remote: EndpointView) -> InterfaceView {
        InterfaceView { streams: self.streams.push(StreamView::fresh(local, remote)), ..self }
    }

    /// The host after it has opened the client side of a connection from
    /// `local` to `remote`: a new stream, registered under `local`.
    pub open spec fn after_open(self, local: EndpointView, remote: EndpointView) -> InterfaceView {
        InterfaceView {
            connected: self.connected.insert(local, self.streams.len() as usize),
            ..self.with_stream(local, remote)
        }
    }

    /// The host after a connection from `remote` has reached `listener`: a
    /// new stream from `local` to `remote`, pending at the listener.
    pub open spec fn after_arrival(
        self,
        listener: usize,
        local: EndpointView,
        remote: EndpointView,
    ) -> InterfaceView {
        InterfaceView {
            listeners: self.listeners.update(
                listener as int,
                self.listeners[listener as int].with_pending(remote, self.streams.len() as usize),
            ),
            ..self.with_stream(local, remote)
        }
    }

    /// The host after `listener` has accepted its oldest pending connection.
    pub open spec fn after_accept(self, listener: usize) -> InterfaceView {
        InterfaceView {
            listeners: self.listeners.update(
                listener as int,
                self.listeners[listener as int].after_accept(),
            ),
            ..self
        }
    }

    /// The host after `stream` has become `now`.
    pub open spec fn with_stream_at(self, stream: usize, now: StreamView) -> InterfaceView {
        InterfaceView { streams: self.streams.update(stream as int, now), ..self }
    }

    /// The host after `ips` have been assigned to it.
    pub open spec fn with_addresses(self, ips: Set<IpView>) -> InterfaceView {
        InterfaceView { addresses: self.addresses.union(ips), ..self }
    }

    /// The host after `ips` have been taken away from it.
    pub open spec fn without_addresses(self, ips: Set<IpView>) -> InterfaceView {
        InterfaceView { addresses: self.addresses.difference(ips), ..self }
    }

    /// The host after `port` has been claimed for `ip`.
    pub open spec fn with_port(self, ip: IpView, port: u16) -> InterfaceView {
        InterfaceView { held: self.held.insert((ip, port)), ..self }
    }

    /// The host after `port` has been given up for `ip`.
    pub open spec fn without_port(self, ip: IpView, port: u16) -> InterfaceView {
        InterfaceView { held: self.held.remove((ip, port)), ..self }
    }
}

/// One simulated host.
#[derive(Debug)]
pub struct SimulatedNetworkInterface {
    ip_addresses: Table<String, ()>,
    allocated_ports: Table<String, HashSet<u16>>,
    tcp_listeners: Table<Endpoint, usize>,
    streams: Table<Endpoint, usize>,
    listeners: Vec<SimulatedTcpListener>,
    connections: Vec<SimulatedTcpStream>,
}

impl View for SimulatedNetworkInterface {
    type V = InterfaceView;

    closed spec fn view(&self) -> InterfaceView {
        InterfaceView {
            addresses: self.ip_addresses@.dom(),
            held: Set::new(
                |e: EndpointView|
                    self.allocated_ports@.contains_key(e.0) && self.allocated_ports@[e.0]@.contains(
                        e.1,
                    ),
            ),
            bound: self.tcp_listeners@,
            connected: self.streams@,
            listeners: Seq::new(self.listeners@.len(), |i: int| self.listeners@[i]@),
            streams: Seq::new(self.connections@.len(), |i: int| self.connections@[i]@),
        }
    }
}

impl SimulatedNetworkInterface {
    /// The tables hold each key once and every listener is well formed.
    pub closed spec fn tables_wf(&self) -> bool {
        &&& self.ip_addresses.wf()
        &&& self.allocated_ports.wf()
        &&& self.tcp_listeners.wf()
        &&& self.streams.wf()
        &&& forall|i: int| 0 <= i < self.listeners@.len() ==> (#[trigger] self.listeners@[i]).wf()
    }

    /// The invariant of a host.
    pub open spec fn wf(&self) -> bool {
        &&& self.tables_wf()
        &&& self@.consistent()
    }

    /// A host without addresses, ports, listeners or streams.
    pub fn new() -> (interface: SimulatedNetworkInterface)
        ensures
            interface.wf(),
            interface@ == InterfaceView::fresh(),
    {
        let interface = SimulatedNetworkInterface {
            ip_addresses: Table::new(),
            allocated_ports: Table::new(),
            tcp_listeners: Table::new(),
            streams: Table::new(),
            listeners: Vec::new(),
            connections: Vec::new(),
        };
        proof {
            assert(interface@.addresses =~= Set::<IpView>::empty());
            assert(interface@.held =~= Set::<EndpointView>::empty());
            assert(interface@.listeners =~= Seq::<ListenerView>::empty());
            assert(interface@.streams =~= Seq::<StreamView>::empty());
        }
        interface
    }

    /// The assigned addresses, each once.
    pub fn get_ip_addresses(&self) -> (ips: Vec<String>)
        requires
            self.wf(),
        ensures
            forall|ip: IpView|
                self@.addresses.contains(ip) <==> exists|i: int|
                    0 <= i < ips@.len() && (#[trigger] ips@[i])@ == ip,
            forall|i: int, j: int|
                0 <= i < j < ips@.len() ==> (#[trigger] ips@[i])@ != (#[trigger] ips@[j])@,
    {
        let ips = self.ip_addresses.keys();
        proof {
            self.ip_addresses.lemma_key_order();
            let order = self.ip_addresses.key_order();
            assert forall|ip: IpView|
                self@.addresses.contains(ip) <==> exists|i: int|
                    0 <= i < ips@.len() && (#[trigger] ips@[i])@ == ip by {
                if self@.addresses.contains(ip) {
                    assert(self.ip_addresses@.contains_key(ip));
                    assert(order.contains(ip));
                    let i = choose|i: int| 0 <= i < order.len() && order[i] == ip;
                    assert(ips@[i]@ == ip);
                }
                if exists|i: int| 0 <= i < ips@.len() && (#[trigger] ips@[i])@ == ip {
                    let i = choose|i: int| 0 <= i < ips@.len() && (#[trigger] ips@[i])@ == ip;
                    assert(order[i] == ip);
                    assert(order.contains(ip));
                    assert(self.ip_addresses@.contains_key(ip));
                }
            }
            assert forall|i: int, j: int| 0 <= i < j < ips@.len() implies (#[trigger] ips@[i])@ != (
            #[trigger] ips@[j])@ by {
                assert(order[i] != order[j]);
            }
        }
        ips
    }

    /// Adds `ip_addresses` to the addresses of the host.
    pub fn assign_ip_addresses(&mut self, ip_addresses: Vec<&str>)
        requires
            old(self).wf(),
        ensures
            final(self).wf(),
            final(self)@ == old(self)@.with_addresses(address_set(ip_addresses@)),
    {
        let mut i: usize = 0;
        proof {
            lemma_address_set_ends(ip_addresses@);
            assert(self@.addresses =~= old(self)@.addresses.union(Set::<IpView>::empty()));
            assert(self@ =~= old(self)@.with_addresses(address_set(ip_addresses@.take(0))));
        }
        while i < ip_addresses.len()
            invariant
                i <= ip_addresses@.len(),
                self.wf(),
                self@ == old(self)@.with_addresses(address_set(ip_addresses@.take(i as int))),
            decreases ip_addresses@.len() - i,
        {
            let ghost before = self@;
            self.ip_addresses.insert(ip_addresses[i].to_owned(), ());
            proof {
                lemma_address_set_step(ip_addresses@, i as int);
                let next = address_set(ip_addresses@.take(i + 1));
                assert(self@.addresses =~= old(self)@.addresses.union(next));
                assert(self@ =~= old(self)@.with_addresses(next));
                before.lemma_consistent_frame(self@);
            }
            i += 1;
        }
        proof {
            lemma_address_set_ends(ip_addresses@);
        }
    }

    /// Takes `ip_addresses` away from the addresses of the host.
    pub fn remove_ip_addresses(&mut self, ip_addresses: Vec<&str>)
        requires
            old(self).wf(),
        ensures
            final(self).wf(),
            final(self)@ == old(self)@.without_addresses(address_set(ip_addresses@)),
    {
        let mut i: usize = 0;
        proof {
            lemma_address_set_ends(ip_addresses@);
            assert(self@.addresses =~= old(self)@.addresses.difference(Set::<IpView>::empty()));
            assert(self@ =~= old(self)@.without_addresses(address_set(ip_addresses@.take(0))));
        }
        while i < ip_addresses.len()
            invariant
                i <= ip_addresses@.len(),
                self.wf(),
                self@ == old(self)@.without_addresses(address_set(ip_addresses@.take(i as int))),
            decreases ip_addresses@.len() - i,
        {
            let ghost before = self@;
            let key = ip_addresses[i].to_owned();
            self.ip_addresses.remove(&key);
            proof {
                lemma_address_set_step(ip_addresses@, i as int);
                let next = address_set(ip_addresses@.take(i + 1));
                assert(self@.addresses =~= old(self)@.addresses.difference(next));
                assert(self@ =~= old(self)@.without_addresses(next));
                before.lemma_consistent_frame(self@);
            }
            i += 1;
        }
        proof {
            lemma_address_set_ends(ip_addresses@);
        }
    }

    /// Some assigned address, to connect from. `None` when the host has no
    /// address. The remote address plays no part in the choice.
    pub fn pick_local_ip(&self, remote_ip: &str) -> (picked: Option<String>)
        requires
            self.wf(),
        ensures
            match picked {
                Some(ip) => self@.addresses.contains(ip@),
                None => self@.has_no_address(),
            },
    {
        proof {
            self.ip_addresses.lemma_key_order();
        }
        if self.ip_addresses.len() > 0 {
            let ip = self.ip_addresses.key_at(0).clone();
            proof {
                assert(self.ip_addresses.key_order().contains(self.ip_addresses.key_order()[0]));
            }
            Some(ip)
        } else {
            proof {
                assert forall|ip: IpView| !self@.addresses.contains(ip) by {
                    if self.ip_addresses@.contains_key(ip) {
                        assert(self.ip_addresses.key_order().contains(ip));
                    }
                }
            }
            None
        }
    }
}

} // verus!

verus! {

impl SimulatedNetworkInterface {
    /// Whether `port` is held for `ip`.
    pub fn is_port_held(&self, ip: &str, port: u16) -> (held: bool)
        requires
            self.wf(),
        ensures
            held == self@.held.contains((ip@, port)),
    {
        let key = ip.to_owned();
        match self.allocated_ports.get(&key) {
            Some(ports) => ports.contains(&port),
            None => false,
        }
    }

    /// Holds `port` for `ip`.
    fn claim_port(&mut self, ip: &str, port: u16)
        requires
            old(self).wf(),
        ensures
            final(self).wf(),
            final(self)@ == old(self)@.with_port(ip@, port),
    {
        let key = ip.to_owned();
        let mut ports = match self.allocated_ports.remove(&key) {
            Some(ports) => ports,
            None => HashSet::new(),
        };
        ports.insert(port);
        self.allocated_ports.insert(key, ports);
        proof {
            assert(self@.held =~= old(self)@.held.insert((ip@, port)));
            assert(self@ =~= old(self)@.with_port(ip@, port));
            old(self)@.lemma_consistent_frame(self@);
        }
    }

    /// Holds a port for `ip` that was not held before: a port drawn at
    /// random, or after `PORT_DRAWS` failed draws the next free port after
    /// the last draw. `None` exactly when every port is held for `ip`.
    pub fn allocate_port(&mut self, ip: &str, random: &mut RandomSource) -> (port: Option<u16>)
        requires
            old(self).wf(),
        ensures
            final(self).wf(),
            match port {
                Some(p) => !old(self)@.held.contains((ip@, p)) && final(self)@ == old(self)@.with_port(
                    ip@,
                    p,
                ),
                None => old(self)@.exhausted(ip@) && final(self)@ == old(self)@,
            },
    {
        let key = ip.to_owned();
        let mut ports = match self.allocated_ports.remove(&key) {
            Some(ports) => ports,
            None => HashSet::new(),
        };
        let port = pick_free_port(&ports, random);
        if let Some(p) = port {
            ports.insert(p);
        }
        self.allocated_ports.insert(key, ports);
        proof {
            match port {
                Some(p) => {
                    assert(self@.held =~= old(self)@.held.insert((ip@, p)));
                    assert(self@ =~= old(self)@.with_port(ip@, p));
                },
                None => {
                    assert(self@.held =~= old(self)@.held);
                    assert(self@ =~= old(self)@);
                    assert forall|q: u16| #[trigger] old(self)@.held.contains((ip@, q)) by {
                        assert(ports@.contains(q));
                    }
                },
            }
            old(self)@.lemma_consistent_frame(self@);
        }
        port
    }

    /// Gives up `port` for `ip`.
    pub fn free_port(&mut self, ip: &str, port: u16)
        requires
            old(self).wf(),
        ensures
            final(self).wf(),
            final(self)@ == old(self)@.without_port(ip@, port),
    {
        let key = ip.to_owned();
        match self.allocated_ports.remove(&key) {
            Some(ports) => {
                let mut ports = ports;
                ports.remove(&port);
                self.allocated_ports.insert(key, ports);
            },
            None => {},
        }
        proof {
            assert(self@.held =~= old(self)@.held.remove((ip@, port)));
            assert(self@ =~= old(self)@.without_port(ip@, port));
            old(self)@.lemma_consistent_frame(self@);
        }
    }

    /// The listener bound at `port` of `ip`.
    pub fn get_tcp_listener(&self, ip: &str, port: u16) -> (listener: Option<usize>)
        requires
            self.wf(),
        ensures
            listener == self@.get_tcp_listener((ip@, port)),
            listener matches Some(l) ==> l < self@.listeners.len(),
    {
        let key = Endpoint::new(ip, port);
        match self.tcp_listeners.get(&key) {
            Some(listener) => Some(*listener),
            None => None,
        }
    }

    /// The stream that a packet from `source_endpoint` to
    /// `destination_endpoint` reaches.
    pub fn get_stream(&self, source_endpoint: &Endpoint, destination_endpoint: &Endpoint) -> (stream:
        Option<usize>)
        requires
            self.wf(),
        ensures
            stream == self@.get_stream(source_endpoint@, destination_endpoint@),
            stream matches Some(s) ==> s < self@.streams.len(),
    {
        match self.streams.get(destination_endpoint) {
            Some(stream) => Some(*stream),
            None => match self.tcp_listeners.get(destination_endpoint) {
                Some(listener) => {
                    assert(self@.bound.contains_key(destination_endpoint@));
                    let found = self.listeners[*listener].get_stream(source_endpoint);
                    proof {
                        assert(self@.listeners[*listener as int].streams_below(
                            self@.streams.len() as int,
                        ));
                        if found is Some {
                            assert(self@.listeners[*listener as int].connections.contains_key(
                                source_endpoint@,
                            ));
                        }
                    }
                    found
                },
                None => None,
            },
        }
    }
}

} // verus!

verus! {

impl SimulatedNetworkInterface {
    /// The addresses that a bind to `local_ip` covers, each once.
    fn bind_addresses(&self, local_ip: &str) -> (ips: Vec<String>)
        requires
            self.wf(),
        ensures
            address_set(ips@) == self@.bind_targets(local_ip@),
    {
        if local_ip.is_empty() {
            let ips = self.get_ip_addresses();
            proof {
                assert(address_set(ips@) =~= self@.addresses);
            }
            ips
        } else {
            let mut ips: Vec<String> = Vec::new();
            ips.push(local_ip.to_owned());
            proof {
                assert(ips@[0]@ == local_ip@);
                assert(address_set(ips@) =~= set![local_ip@]);
            }
            ips
        }
    }

    /// Binds a new listener at `local_port` of `local_ip`, or of every
    /// address that the host has at this moment when `local_ip` is empty.
    /// The port is claimed for each of these addresses. The bind fails, and
    /// changes nothing, when the port is already held for one of them.
    pub fn bind_tcp(&mut self, local_ip: &str, local_port: u16) -> (listener: Option<usize>)
        requires
            old(self).wf(),
        ensures
            final(self).wf(),
            match listener {
                Some(l) => {
                    &&& !old(self)@.bind_conflict(local_ip@, local_port)
                    &&& l == old(self)@.listeners.len()
                    &&& final(self)@ == old(self)@.after_bind(local_ip@, local_port)
                },
                None => {
                    &&& old(self)@.bind_conflict(local_ip@, local_port)
                    &&& final(self)@ == old(self)@
                },
            },
    {
        let ips = self.bind_addresses(local_ip);
        let ghost targets = self@.bind_targets(local_ip@);
        let mut i: usize = 0;
        while i < ips.len()
            invariant
                i <= ips@.len(),
                *self == *old(self),
                self.wf(),
                address_set(ips@) == self@.bind_targets(local_ip@),
                forall|j: int| 0 <= j < i ==> !self@.held.contains(((#[trigger] ips@[j])@, local_port)),
            decreases ips@.len() - i,
        {
            if self.is_port_held(ips[i].as_str(), local_port) {
                proof {
                    assert(address_set(ips@).contains(ips@[i as int]@));
                    assert(self@.bind_targets(local_ip@).contains(ips@[i as int]@));
                }
                return None;
            }
            i += 1;
        }
        proof {
            if self@.bind_conflict(local_ip@, local_port) {
                let ip = choose|ip: IpView| #[trigger]
                    self@.bind_targets(local_ip@).contains(ip) && self@.held.contains(
                        (ip, local_port),
                    );
                assert(address_set(ips@).contains(ip));
            }
            lemma_address_set_ends(ips@);
            assert(self@.held =~= old(self)@.with_ports(
                address_set(ips@.take(0)),
                local_port,
            ).held);
            assert(self@ =~= old(self)@.with_ports(address_set(ips@.take(0)), local_port));
        }
        i = 0;
        while i < ips.len()
            invariant
                i <= ips@.len(),
                self.wf(),
                self@ == old(self)@.with_ports(address_set(ips@.take(i as int)), local_port),
            decreases ips@.len() - i,
        {
            self.claim_port(ips[i].as_str(), local_port);
            proof {
                lemma_address_set_step(ips@, i as int);
                assert(self@.held =~= old(self)@.with_ports(
                    address_set(ips@.take(i + 1)),
                    local_port,
                ).held);
                assert(self@ =~= old(self)@.with_ports(
                    address_set(ips@.take(i + 1)),
                    local_port,
                ));
            }
            i += 1;
        }
        proof {
            lemma_address_set_ends(ips@);
        }
        let ghost claimed = self@;
        let listener = self.listeners.len();
        self.listeners.push(SimulatedTcpListener::new());
        proof {
            assert(self@.listeners =~= claimed.listeners.push(ListenerView::fresh()));
            assert(self@ =~= claimed.with_listener());
            assert(self@.consistent());
            assert(self@.bound =~= claimed.with_listener().with_bound(
                address_set(ips@.take(0)),
                local_port,
                listener,
            ).bound);
            assert(self@ =~= claimed.with_listener().with_bound(
                address_set(ips@.take(0)),
                local_port,
                listener,
            ));
        }
        i = 0;
        while i < ips.len()
            invariant
                i <= ips@.len(),
                self.wf(),
                claimed == old(self)@.with_ports(targets, local_port),
                targets == address_set(ips@),
                listener == claimed.listeners.len(),
                self@ == claimed.with_listener().with_bound(
                    address_set(ips@.take(i as int)),
                    local_port,
                    listener,
                ),
            decreases ips@.len() - i,
        {
            let ghost before = self@;
            self.tcp_listeners.insert(Endpoint::new(ips[i].as_str(), local_port), listener);
            proof {
                lemma_address_set_step(ips@, i as int);
                assert(self@.bound =~= claimed.with_listener().with_bound(
                    address_set(ips@.take(i + 1)),
                    local_port,
                    listener,
                ).bound);
                assert(self@ =~= claimed.with_listener().with_bound(
                    address_set(ips@.take(i + 1)),
                    local_port,
                    listener,
                ));
                assert(before.consistent());
                assert(self@.listeners == before.listeners);
                assert(self@.streams == before.streams);
                assert(self@.connected == before.connected);
                assert forall|e: EndpointView| #[trigger]
                    self@.bound.contains_key(e) implies self@.bound[e] < self@.listeners.len() by {
                    if before.bound.contains_key(e) {
                    }
                }
                assert(self@.consistent());
            }
            i += 1;
        }
        proof {
            lemma_address_set_ends(ips@);
        }
        Some(listener)
    }
}

} // verus!

verus! {

impl SimulatedNetworkInterface {
    /// Adds a stream from `local` to `remote` to the streams of the host.
    fn add_stream(&mut self, local: Endpoint, remote: Endpoint) -> (stream: usize)
        requires
            old(self).wf(),
        ensures
            final(self).wf(),
            stream == old(self)@.streams.len(),
            final(self)@ == old(self)@.with_stream(local@, remote@),
    {
        let stream = self.connections.len();
        self.connections.push(SimulatedTcpStream::new(local, remote));
        proof {
            assert(self@.streams =~= old(self)@.streams.push(StreamView::fresh(local@, remote@)));
            assert(self@.listeners =~= old(self)@.listeners);
            assert(self@ =~= old(self)@.with_stream(local@, remote@));
            assert forall|i: int| 0 <= i < self@.listeners.len() implies (
            #[trigger] self@.listeners[i]).streams_below(self@.streams.len() as int) by {
                assert(old(self)@.listeners[i].streams_below(old(self)@.streams.len() as int));
            }
        }
        stream
    }

    /// Opens the client side of a connection: a new stream from `local` to
    /// `remote`, registered under `local` in place of an earlier stream.
    pub fn open_stream(&mut self, local: Endpoint, remote: Endpoint) -> (stream: usize)
        requires
            old(self).wf(),
        ensures
            final(self).wf(),
            stream == old(self)@.streams.len(),
            final(self)@ == old(self)@.after_open(local@, remote@),
    {
        let key = local.clone();
        let stream = self.add_stream(local, remote);
        let ghost added = self@;
        self.streams.insert(key, stream);
        proof {
            assert(self@.listeners =~= added.listeners);
            assert(self@.streams =~= added.streams);
            assert(self@ =~= old(self)@.after_open(local@, remote@));
            assert(added.consistent());
        }
        stream
    }

    /// Takes in the server side of a connection that reached `listener`: a
    /// new stream from `local` to `remote`, pending at the listener.
    pub fn on_new_connection(&mut self, listener: usize, local: Endpoint, remote: Endpoint) -> (stream:
        usize)
        requires
            old(self).wf(),
            listener < old(self)@.listeners.len(),
        ensures
            final(self).wf(),
            stream == old(self)@.streams.len(),
            final(self)@ == old(self)@.after_arrival(listener, local@, remote@),
    {
        let peer = remote.clone();
        let stream = self.add_stream(local, remote);
        let ghost added = self@;
        self.listeners[listener].on_new_connection(peer, stream);
        proof {
            assert(self@.streams =~= added.streams);
            assert(self@.listeners =~= added.listeners.update(
                listener as int,
                added.listeners[listener as int].with_pending(remote@, stream),
            ));
            assert(self@ =~= old(self)@.after_arrival(listener, local@, remote@));
            assert(added.consistent());
            assert forall|i: int| 0 <= i < self@.listeners.len() implies (
            #[trigger] self@.listeners[i]).streams_below(self@.streams.len() as int) by {
                assert(added.listeners[i].streams_below(added.streams.len() as int));
            }
        }
        stream
    }

    /// Lets `listener` accept its oldest pending connection. `None` while
    /// nothing is pending.
    pub fn accept(&mut self, listener: usize) -> (accepted: Option<usize>)
        requires
            old(self).wf(),
            listener < old(self)@.listeners.len(),
        ensures
            final(self).wf(),
            final(self)@ == old(self)@.after_accept(listener),
            match accepted {
                Some(stream) => {
                    &&& old(self)@.listeners[listener as int].pending.len() > 0
                    &&& stream == old(self)@.listeners[listener as int].pending[0].1
                    &&& stream < old(self)@.streams.len()
                },
                None => old(self)@.listeners[listener as int].pending.len() == 0,
            },
    {
        let accepted = self.listeners[listener].accept();
        proof {
            let before = old(self)@;
            assert(self@.streams =~= before.streams);
            assert(self@.listeners =~= before.listeners.update(
                listener as int,
                before.listeners[listener as int].after_accept(),
            ));
            assert(self@ =~= before.after_accept(listener));
            assert(before.listeners[listener as int].streams_below(before.streams.len() as int));
            assert forall|i: int| 0 <= i < self@.listeners.len() implies (
            #[trigger] self@.listeners[i]).streams_below(self@.streams.len() as int) by {
                assert(before.listeners[i].streams_below(before.streams.len() as int));
                if i == listener && before.listeners[i].pending.len() > 0 {
                    let was = before.listeners[i];
                    let now = self@.listeners[i];
                    assert(was.pending[0].1 < before.streams.len());
                    assert forall|j: int| 0 <= j < now.pending.len() implies (
                    #[trigger] now.pending[j]).1 < before.streams.len() by {
                        assert(was.pending[j + 1].1 < before.streams.len());
                    }
                }
            }
        }
        accepted
    }

    /// The number of listeners that the host has had.
    pub fn listener_count(&self) -> (n: usize)
        ensures
            n == self@.listeners.len(),
    {
        self.listeners.len()
    }

    /// The number of streams that the host has had.
    pub fn stream_count(&self) -> (n: usize)
        ensures
            n == self@.streams.len(),
    {
        self.connections.len()
    }

    /// The listener at position `listener`.
    pub fn listener(&self, listener: usize) -> (found: &SimulatedTcpListener)
        requires
            self.wf(),
            listener < self@.listeners.len(),
        ensures
            found.wf(),
            found@ == self@.listeners[listener as int],
    {
        &self.listeners[listener]
    }

    /// The stream at position `stream`.
    pub fn stream(&self, stream: usize) -> (found: &SimulatedTcpStream)
        requires
            stream < self@.streams.len(),
        ensures
            found@ == self@.streams[stream as int],
    {
        &self.connections[stream]
    }

    /// Hands `packet` to `stream`, which queues what it carries.
    pub fn deliver(&mut self, stream: usize, packet: &Packet)
        requires
            old(self).wf(),
            stream < old(self)@.streams.len(),
        ensures
            final(self).wf(),
            final(self)@ == old(self)@.with_stream_at(
                stream,
                old(self)@.streams[stream as int].received(packet@),
            ),
    {
        self.connections[stream].on_packet_received(packet);
        proof {
            self.lemma_stream_changed(*old(self), stream);
        }
    }

    /// Takes the oldest payload that has arrived on `stream`, if any.
    pub fn receive(&mut self, stream: usize) -> (payload: Option<Vec<u8>>)
        requires
            old(self).wf(),
            stream < old(self)@.streams.len(),
        ensures
            final(self).wf(),
            final(self)@ == old(self)@.with_stream_at(
                stream,
                old(self)@.streams[stream as int].after_receive(),
            ),
            match payload {
                Some(bytes) => old(self)@.streams[stream as int].data.len() > 0 && bytes@ == old(
                    self,
                )@.streams[stream as int].data[0],
                None => old(self)@.streams[stream as int].data.len() == 0,
            },
    {
        let payload = self.connections[stream].receive();
        proof {
            self.lemma_stream_changed(*old(self), stream);
        }
        payload
    }

    /// Takes the oldest signal that has arrived on `stream`, if any.
    pub fn receive_control(&mut self, stream: usize) -> (signal: Option<Control>)
        requires
            old(self).wf(),
            stream < old(self)@.streams.len(),
        ensures
            final(self).wf(),
            final(self)@ == old(self)@.with_stream_at(
                stream,
                old(self)@.streams[stream as int].after_receive_control(),
            ),
            match signal {
                Some(c) => old(self)@.streams[stream as int].controls.len() > 0 && c == old(
                    self,
                )@.streams[stream as int].controls[0],
                None => old(self)@.streams[stream as int].controls.len() == 0,
            },
    {
        let signal = self.connections[stream].receive_control();
        proof {
            self.lemma_stream_changed(*old(self), stream);
        }
        signal
    }

    /// Reads one signal from `stream` and says whether it was the
    /// acknowledgment that completes the handshake.
    pub fn take_sync(&mut self, stream: usize) -> (done: bool)
        requires
            old(self).wf(),
            stream < old(self)@.streams.len(),
        ensures
            final(self).wf(),
            final(self)@ == old(self)@.with_stream_at(
                stream,
                old(self)@.streams[stream as int].after_receive_control(),
            ),
            done == (old(self)@.streams[stream as int].controls.len() > 0),
    {
        let done = self.connections[stream].take_sync();
        proof {
            self.lemma_stream_changed(*old(self), stream);
        }
        done
    }

    /// A host of which one stream has changed, and nothing else, is the
    /// host with that stream replaced, and is as well formed as it was.
    proof fn lemma_stream_changed(&self, before: SimulatedNetworkInterface, stream: usize)
        requires
            before.wf(),
            stream < before.connections@.len(),
            self.ip_addresses == before.ip_addresses,
            self.allocated_ports == before.allocated_ports,
            self.tcp_listeners == before.tcp_listeners,
            self.streams == before.streams,
            self.listeners == before.listeners,
            self.connections@ == before.connections@.update(
                stream as int,
                self.connections@[stream as int],
            ),
        ensures
            self.wf(),
            self@ == before@.with_stream_at(stream, self@.streams[stream as int]),
    {
        assert(self@.streams =~= before@.streams.update(
            stream as int,
            self@.streams[stream as int],
        ));
        assert(self@ =~= before@.with_stream_at(stream, self@.streams[stream as int]));
        assert forall|i: int| 0 <= i < self@.listeners.len() implies (
        #[trigger] self@.listeners[i]).streams_below(self@.streams.len() as int) by {
            assert(before@.listeners[i].streams_below(before@.streams.len() as int));
        }
    }
}

} // verus!
