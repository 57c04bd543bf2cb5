//! One end of a simulated connection: two endpoints and the packets that
//! have arrived and not been read yet.

use vstd::prelude::*;
use std::collections::VecDeque;
use crate::packet::{Control, Endpoint, EndpointView, Packet, PacketType, PacketView};

verus! {

/// A stream as contracts see it.
pub struct StreamView {
    pub local: EndpointView,
    pub remote: EndpointView,
    /// Payloads that have arrived, oldest first.
    pub data: Seq<Seq<u8>>,
    /// Signals that have arrived, oldest first.
    pub controls: Seq<Control>,
}

impl StreamView {
    /// A stream on which nothing has arrived.
    pub open spec fn fresh(local: EndpointView, remote: EndpointView) -> StreamView {
        StreamView { local, remote, data: Seq::empty(), controls: Seq::empty() }
    }

    /// The stream after `packet` has arrived: a data packet adds its payload
    /// to the data queue, a control packet its signal to the control queue. A
    /// packet that lacks what its kind calls for leaves the stream as it is.
    pub open spec fn received(self, packet: PacketView) -> StreamView {
        match packet.packet_type {
            PacketType::Data => match packet.payload {
                Some(bytes) => StreamView { data: self.data.push(bytes), ..self },
                None => self,
            },
            PacketType::Control => match packet.control {
                Some(signal) => StreamView { controls: self.controls.push(signal), ..self },
                None => self,
            },
        }
    }

    /// The stream after its oldest payload has been read.
    pub open spec fn after_receive(self) -> StreamView {
        if self.data.len() > 0 {
            StreamView { data: self.data.drop_first(), ..self }
        } else {
            self
        }
    }

    /// The stream after its oldest signal has been read.
    pub open spec fn after_receive_control(self) -> StreamView {
        if self.controls.len() > 0 {
            StreamView { controls: self.controls.drop_first(), ..self }
        } else {
            self
        }
    }
}

/// One end of a connection between two endpoints.
///
/// Arriving packets are queued without bound and read in arrival order.
/// Reading never waits: it reports `None` while nothing is queued.
#[derive(Debug)]
pub struct SimulatedTcpStream {
    local_endpoint: Endpoint,
    remote_endpoint: Endpoint,
    data_queue: VecDeque<Vec<u8>>,
    control_queue: VecDeque<Control>,
}

impl View for SimulatedTcpStream {
    type V = StreamView;

    closed spec fn view(&self) -> StreamView {
        StreamView {
            local: self.local_endpoint@,
            remote: self.remote_endpoint@,
            data: Seq::new(self.data_queue@.len(), |i: int| self.data_queue@[i]@),
            controls: self.control_queue@,
        }
    }
}

impl SimulatedTcpStream {
    /// A stream between `local_endpoint` and `remote_endpoint` with empty
    /// queues.
    pub fn new(local_endpoint: Endpoint, remote_endpoint: Endpoint) -> (stream: SimulatedTcpStream)
        ensures
            stream@ == StreamView::fresh(local_endpoint@, remote_endpoint@),
    {
        let stream = SimulatedTcpStream {
            local_endpoint,
            remote_endpoint,
            data_queue: VecDeque::new(),
            control_queue: VecDeque::new(),
        };
        assert(stream@.data =~= Seq::<Seq<u8>>::empty());
        stream
    }

    /// The data packet that carries `data` to the peer. The caller hands it
    /// to the network.
    pub fn send(&self, data: &[u8]) -> (packet: Packet)
        ensures
            packet@ == PacketView::data(self@.local, self@.remote, data@),
    {
        Packet::data(
            self.local_endpoint.clone(),
            self.remote_endpoint.clone(),
            vstd::slice::slice_to_vec(data),
        )
    }

    /// The control packet that carries `control` to the peer. The caller
    /// hands it to the network.
    pub fn send_control(&self, control: Control) -> (packet: Packet)
        ensures
            packet@ == PacketView::control(self@.local, self@.remote, control),
    {
        Packet::control(self.local_endpoint.clone(), self.remote_endpoint.clone(), control)
    }

    /// Takes the oldest payload that has arrived, if any.
    pub fn receive(&mut self) -> (payload: Option<Vec<u8>>)
        ensures
            final(self)@ == old(self)@.after_receive(),
            match payload {
                Some(bytes) => old(self)@.data.len() > 0 && bytes@ == old(self)@.data[0],
                None => old(self)@.data.len() == 0,
            },
    {
        let payload = self.data_queue.pop_front();
        proof {
            assert(self@.data =~= old(self)@.after_receive().data);
        }
        payload
    }

    /// Takes the oldest signal that has arrived, if any.
    pub fn receive_control(&mut self) -> (signal: Option<Control>)
        ensures
            final(self)@ == old(self)@.after_receive_control(),
            match signal {
                Some(c) => old(self)@.controls.len() > 0 && c == old(self)@.controls[0],
                None => old(self)@.controls.len() == 0,
            },
    {
        let signal = self.control_queue.pop_front();
        proof {
            assert(self@.data =~= old(self)@.data);
            assert(self@.controls =~= old(self)@.after_receive_control().controls);
        }
        signal
    }

    /// Reads one signal and says whether it was the acknowledgment that
    /// completes the handshake. `false` means that no signal has arrived yet.
    pub fn take_sync(&mut self) -> (done: bool)
        ensures
            done == (old(self)@.controls.len() > 0),
            done ==> old(self)@.controls[0] == Control::Sync,
            final(self)@ == old(self)@.after_receive_control(),
    {
        match self.receive_control() {
            Some(control) => match control {
                Control::Sync => true,
            },
            None => false,
        }
    }

    /// The endpoint on this side of the connection.
    pub fn get_local_endpoint(&self) -> (endpoint: Endpoint)
        ensures
            endpoint@ == self@.local,
    {
        self.local_endpoint.clone()
    }

    /// The endpoint of the peer.
    pub fn get_remote_endpoint(&self) -> (endpoint: Endpoint)
        ensures
            endpoint@ == self@.remote,
    {
        self.remote_endpoint.clone()
    }

    /// Queues what `packet` carries: a payload on the data queue, a signal on
    /// the control queue.
    pub fn on_packet_received(&mut self, packet: &Packet)
        ensures
            final(self)@ == old(self)@.received(packet@),
    {
        match packet.packet_type {
            PacketType::Data => {
                if let Some(bytes) = &packet.payload {
                    self.data_queue.push_back(bytes.clone());
                }
            },
            PacketType::Control => {
                if let Some(signal) = packet.control {
                    self.control_queue.push_back(signal);
                }
            },
        }
        proof {
            assert(self@.data =~= old(self)@.received(packet@).data);
        }
    }
}

} // verus!
