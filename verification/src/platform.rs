//! The capabilities that the transport offers to the code above it: a host
//! connects and binds, a stream sends and receives, a listener accepts.
//!
//! The simulation has no shared state, so whoever holds a capability hands
//! the network to each call. The contracts say what the call does to the
//! network.

use vstd::prelude::*;
use crate::network::{Delivery, ListenerHandle, SimulatedNetwork, StreamHandle};
use crate::packet::{Control, Endpoint, Packet, PacketView};

verus! {

/// A host, as the code above the transport uses it.
pub trait NetworkInterface {
    /// The position of the host among the hosts of the network.
    spec fn interface(&self) -> usize;

    /// Connects to the listener at `remote_port` of `remote_ip`: picks one
    /// of the host's addresses, claims a free port for it and opens the
    /// connection from there. `None` when the host has no address, when no
    /// port is free for the address, when no host is registered for
    /// `remote_ip`, or when that host has no listener at the port; a port
    /// that was claimed stays claimed. The stream that comes back is usable
    /// once the listener's acknowledgment has arrived on it.
    fn connect(&self, network: &mut SimulatedNetwork, remote_ip: &str, remote_port: u16) -> (stream:
        Option<StreamHandle>)
        requires
            old(network).wf(),
            old(network)@.has_interface(self.interface()),
        ensures
            final(network).wf(),
            final(network)@.keeps_handles_of(old(network)@),
            old(network)@.connected(
                self.interface(),
                (remote_ip@, remote_port),
                stream,
                final(network)@,
            ),
            stream matches Some(handle) ==> final(network)@.has_stream(handle),
    ;

    /// Binds a new listener at `local_port` of `local_ip`, or of every
    /// address that the host has at this moment when `local_ip` is empty,
    /// and claims the port for each of these addresses. The bind fails, and
    /// changes nothing, when the port is already held for one of them.
    fn bind_tcp(&self, network: &mut SimulatedNetwork, local_ip: &str, local_port: u16) -> (listener:
        Option<ListenerHandle>)
        requires
            old(network).wf(),
            old(network)@.has_interface(self.interface()),
        ensures
            final(network).wf(),
            final(network)@.keeps_handles_of(old(network)@),
            match listener {
                Some(at) => {
                    let host = old(network)@.interfaces[self.interface() as int];
                    &&& !host.bind_conflict(local_ip@, local_port)
                    &&& at == (ListenerHandle {
                        interface: self.interface(),
                        listener: host.listeners.len() as usize,
                    })
                    &&& final(network)@.has_listener(at)
                    &&& final(network)@ == old(network)@.with_interface(
                        self.interface(),
                        host.after_bind(local_ip@, local_port),
                    )
                },
                None => {
                    &&& old(network)@.interfaces[self.interface() as int].bind_conflict(
                        local_ip@,
                        local_port,
                    )
                    &&& final(network)@ == old(network)@
                },
            },
    ;
}

/// One end of a connection, as the code above the transport uses it.
pub trait TcpStream {
    /// The stream that this names.
    spec fn handle(&self) -> StreamHandle;

    /// Sends `data` to the peer. Delivery is not guaranteed: what comes
    /// back says what became of the packet.
    fn send(&self, network: &mut SimulatedNetwork, data: &[u8]) -> (delivery: Delivery)
        requires
            old(network).wf(),
            old(network)@.has_stream(self.handle()),
        ensures
            final(network).wf(),
            final(network)@.keeps_handles_of(old(network)@),
            old(network)@.sent(
                PacketView::data(
                    old(network)@.stream(self.handle()).local,
                    old(network)@.stream(self.handle()).remote,
                    data@,
                ),
                delivery,
                final(network)@,
            ),
    ;

    /// Takes the oldest payload that has arrived. `None` means that nothing
    /// is queued: a caller that waits asks again later.
    fn receive(&self, network: &mut SimulatedNetwork) -> (payload: Option<Vec<u8>>)
        requires
            old(network).wf(),
            old(network)@.has_stream(self.handle()),
        ensures
            final(network).wf(),
            final(network)@.keeps_handles_of(old(network)@),
            final(network)@ == old(network)@.with_stream(
                self.handle(),
                old(network)@.stream(self.handle()).after_receive(),
            ),
            match payload {
                Some(bytes) => {
                    &&& old(network)@.stream(self.handle()).data.len() > 0
                    &&& bytes@ == old(network)@.stream(self.handle()).data[0]
                },
                None => old(network)@.stream(self.handle()).data.len() == 0,
            },
    ;

    /// Sends `control` to the peer, as `send` sends data.
    fn send_control(&self, network: &mut SimulatedNetwork, control: Control) -> (delivery: Delivery)
        requires
            old(network).wf(),
            old(network)@.has_stream(self.handle()),
        ensures
            final(network).wf(),
            final(network)@.keeps_handles_of(old(network)@),
            old(network)@.sent(
                PacketView::control(
                    old(network)@.stream(self.handle()).local,
                    old(network)@.stream(self.handle()).remote,
                    control,
                ),
                delivery,
                final(network)@,
            ),
    ;

    /// The endpoint on this side of the connection.
    fn get_local_endpoint(&self, network: &SimulatedNetwork) -> (endpoint: Endpoint)
        requires
            network.wf(),
            network@.has_stream(self.handle()),
        ensures
            endpoint@ == network@.stream(self.handle()).local,
    ;

    /// The endpoint of the peer.
    fn get_remote_endpoint(&self, network: &SimulatedNetwork) -> (endpoint: Endpoint)
        requires
            network.wf(),
            network@.has_stream(self.handle()),
        ensures
            endpoint@ == network@.stream(self.handle()).remote,
    ;

    /// Takes in a packet that the network delivers: its payload is queued
    /// for `receive`, its signal for the control queue. This is how a
    /// delayed packet arrives when its time has come.
    fn on_packet_received(&self, network: &mut SimulatedNetwork, packet: &Packet)
        requires
            old(network).wf(),
            old(network)@.has_stream(self.handle()),
        ensures
            final(network).wf(),
            final(network)@.keeps_handles_of(old(network)@),
            final(network)@ == old(network)@.delivered(self.handle(), packet@),
    ;
}

/// A bound port, as the code above the transport uses it.
pub trait TcpListener {
    /// The listener that this names.
    spec fn handle(&self) -> ListenerHandle;

    /// Accepts the oldest pending connection: the server-side stream is
    /// registered under its peer, and the acknowledgment is sent to the peer
    /// as any packet is, so it may be dropped or delayed. The stream comes
    /// back with what became of the acknowledgment. `None` means that
    /// nothing is pending: a caller that waits asks again later.
    fn accept(&self, network: &mut SimulatedNetwork) -> (accepted: Option<(StreamHandle, Delivery)>)
        requires
            old(network).wf(),
            old(network)@.has_listener(self.handle()),
        ensures
            final(network).wf(),
            final(network)@.keeps_handles_of(old(network)@),
            match accepted {
                Some((stream, delivery)) => {
                    let at = self.handle();
                    let listener = old(network)@.interfaces[at.interface as int].listeners[at.listener as int];
                    &&& listener.pending.len() > 0
                    &&& stream == (StreamHandle {
                        interface: at.interface,
                        stream: listener.pending[0].1,
                    })
                    &&& old(network)@.has_stream(stream)
                    &&& final(network)@.has_stream(stream)
                    &&& old(network)@.after_accept(at).sent(
                        PacketView::control(
                            old(network)@.stream(stream).local,
                            old(network)@.stream(stream).remote,
                            Control::Sync,
                        ),
                        delivery,
                        final(network)@,
                    )
                },
                None => {
                    let at = self.handle();
                    &&& old(network)@.interfaces[at.interface as int].listeners[at.listener as int].pending.len()
                        == 0
                    &&& final(network)@ == old(network)@
                },
            },
    ;
}

} // verus!
