//! The value types that cross the simulated wire.

use vstd::prelude::*;

verus! {

/// An address as contracts see it: the characters of the string.
pub type IpView = Seq<char>;

/// An endpoint as contracts see it: the address and the port.
pub type EndpointView = (Seq<char>, u16);

/// One side of a connection: an address and a port.
#[derive(Debug)]
pub struct Endpoint {
    pub ip: String,
    pub port: u16,
}

impl View for Endpoint {
    type V = EndpointView;

    open spec fn view(&self) -> EndpointView {
        (self.ip@, self.port)
    }
}

impl Endpoint {
    /// The endpoint at `port` of `ip`.
    pub fn new(ip: &str, port: u16) -> (e: Endpoint)
        ensures
            e@ == (ip@, port),
    {
        Endpoint { ip: ip.to_owned(), port }
    }
}

impl Clone for Endpoint {
    fn clone(&self) -> (e: Endpoint)
        ensures
            e@ == self@,
    {
        Endpoint { ip: self.ip.clone(), port: self.port }
    }
}

impl PartialEq for Endpoint {
    fn eq(&self, other: &Endpoint) -> (b: bool) {
        self.ip == other.ip && self.port == other.port
    }
}

impl vstd::std_specs::cmp::PartialEqSpecImpl for Endpoint {
    open spec fn obeys_eq_spec() -> bool {
        true
    }

    open spec fn eq_spec(&self, other: &Endpoint) -> bool {
        self@ == other@
    }
}

/// An out-of-band signal between the two ends of a stream.
#[derive(Debug, Clone, Copy, PartialEq, Eq, Structural)]
pub enum Control {
    /// The listener has accepted the connection.
    Sync,
}

/// What a packet carries.
#[derive(Debug, Clone, Copy, PartialEq, Eq, Structural)]
pub enum PacketType {
    Data,
    Control,
}

/// The unit of transmission.
#[derive(Debug)]
pub struct Packet {
    pub source: Endpoint,
    pub destination: Endpoint,
    pub packet_type: PacketType,
    pub control: Option<Control>,
    pub payload: Option<Vec<u8>>,
}

/// A packet as contracts see it.
pub struct PacketView {
    pub source: EndpointView,
    pub destination: EndpointView,
    pub packet_type: PacketType,
    pub control: Option<Control>,
    pub payload: Option<Seq<u8>>,
}

impl PacketView {
    /// A control packet carries a signal and no payload, a data packet a
    /// payload and no signal.
    pub open spec fn well_formed(self) -> bool {
        &&& self.control is Some <==> self.packet_type == PacketType::Control
        &&& self.payload is Some <==> self.packet_type == PacketType::Data
    }

    /// The data packet that carries `payload` from `source` to `destination`.
    pub open spec fn data(source: EndpointView, destination: EndpointView, payload: Seq<u8>) -> PacketView {
        PacketView {
            source,
            destination,
            packet_type: PacketType::Data,
            control: None,
            payload: Some(payload),
        }
    }

    /// The control packet that carries `signal` from `source` to `destination`.
    pub open spec fn control(source: EndpointView, destination: EndpointView, signal: Control) -> PacketView {
        PacketView {
            source,
            destination,
            packet_type: PacketType::Control,
            control: Some(signal),
            payload: None,
        }
    }
}

impl View for Packet {
    type V = PacketView;

    open spec fn view(&self) -> PacketView {
        PacketView {
            source: self.source@,
            destination: self.destination@,
            packet_type: self.packet_type,
            control: self.control,
            payload: match self.payload {
                Some(bytes) => Some(bytes@),
                None => None,
            },
        }
    }
}

impl Packet {
    /// Builds a data packet.
    pub fn data(source: Endpoint, destination: Endpoint, payload: Vec<u8>) -> (p: Packet)
        ensures
            p@ == PacketView::data(source@, destination@, payload@),
            p@.well_formed(),
    {
        Packet {
            source,
            destination,
            packet_type: PacketType::Data,
            control: None,
            payload: Some(payload),
        }
    }

    /// Builds a control packet.
    pub fn control(source: Endpoint, destination: Endpoint, signal: Control) -> (p: Packet)
        ensures
            p@ == PacketView::control(source@, destination@, signal),
            p@.well_formed(),
    {
        Packet {
            source,
            destination,
            packet_type: PacketType::Control,
            control: Some(signal),
            payload: None,
        }
    }

    /// Whether the packet carries exactly what its kind calls for.
    pub fn is_well_formed(&self) -> (b: bool)
        ensures
            b == self@.well_formed(),
    {
        match self.packet_type {
            PacketType::Data => self.payload.is_some() && self.control.is_none(),
            PacketType::Control => self.control.is_some() && self.payload.is_none(),
        }
    }
}

impl Clone for Packet {
    fn clone(&self) -> (p: Packet)
        ensures
            p@ == self@,
    {
        let payload = match &self.payload {
            Some(bytes) => Some(bytes.clone()),
            None => None,
        };
        Packet {
            source: self.source.clone(),
            destination: self.destination.clone(),
            packet_type: self.packet_type,
            control: self.control,
            payload,
        }
    }
}

} // verus!
