//! A bound port: the connections that wait to be accepted and those that
//! were.

use vstd::prelude::*;
use std::collections::VecDeque;
use crate::packet::{Endpoint, EndpointView};
use crate::table::Table;

verus! {

/// A listener as contracts see it. Streams are named by their position in
/// the stream list of the host that owns the listener.
pub struct ListenerView {
    /// The connections that wait to be accepted, oldest first: the peer's
    /// endpoint and the server-side stream.
    pub pending: Seq<(EndpointView, usize)>,
    /// The accepted connections: the server-side stream of each peer.
    pub connections: Map<EndpointView, usize>,
}

impl ListenerView {
    /// A listener that nothing has reached yet.
    pub open spec fn fresh() -> ListenerView {
        ListenerView { pending: Seq::empty(), connections: Map::empty() }
    }

    /// The listener after a connection from `remote` has arrived.
    pub open spec fn with_pending(self, remote: EndpointView, stream: usize) -> ListenerView {
        ListenerView { pending: self.pending.push((remote, stream)), ..self }
    }

    /// The listener after its oldest pending connection has been accepted:
    /// the stream is registered under its peer, in place of an earlier stream
    /// of the same peer.
    pub open spec fn after_accept(self) -> ListenerView {
        if self.pending.len() > 0 {
            ListenerView {
                pending: self.pending.drop_first(),
                connections: self.connections.insert(self.pending[0].0, self.pending[0].1),
            }
        } else {
            self
        }
    }

    /// The accepted stream whose peer is `remote`.
    pub open spec fn get_stream(self, remote: EndpointView) -> Option<usize> {
        if self.connections.contains_key(remote) {
            Some(self.connections[remote])
        } else {
            None
        }
    }

    /// Every stream that the listener names lies below `bound`.
    pub open spec fn streams_below(self, bound: int) -> bool {
        &&& forall|i: int| 0 <= i < self.pending.len() ==> (#[trigger] self.pending[i]).1 < bound
        &&& forall|e: EndpointView| #[trigger]
            self.connections.contains_key(e) ==> self.connections[e] < bound
    }
}

/// The pending-connection queue and the accepted-connection registry of one
/// bound port.
#[derive(Debug)]
pub struct SimulatedTcpListener {
    pending: VecDeque<(Endpoint, usize)>,
    connections: Table<Endpoint, usize>,
}

impl View for SimulatedTcpListener {
    type V = ListenerView;

    closed spec fn view(&self) -> ListenerView {
        ListenerView {
            pending: Seq::new(
                self.pending@.len(),
                |i: int| (self.pending@[i].0@, self.pending@[i].1),
            ),
            connections: self.connections@,
        }
    }
}

impl SimulatedTcpListener {
    /// The registry holds each peer once.
    pub closed spec fn wf(&self) -> bool {
        self.connections.wf()
    }

    /// A listener that nothing has reached yet.
    pub fn new() -> (listener: SimulatedTcpListener)
        ensures
            listener.wf(),
            listener@ == ListenerView::fresh(),
    {
        let listener = SimulatedTcpListener { pending: VecDeque::new(), connections: Table::new() };
        assert(listener@.pending =~= Seq::<(EndpointView, usize)>::empty());
        listener
    }

    /// Queues a connection from `remote` whose server-side stream is
    /// `stream`.
    pub fn on_new_connection(&mut self, remote: Endpoint, stream: usize)
        requires
            old(self).wf(),
        ensures
            final(self).wf(),
            final(self)@ == old(self)@.with_pending(remote@, stream),
    {
        self.pending.push_back((remote, stream));
        proof {
            assert(self@.pending =~= old(self)@.with_pending(remote@, stream).pending);
        }
    }

    /// Accepts the oldest pending connection and registers its stream under
    /// the peer's endpoint. `None` while nothing is pending.
    pub fn accept(&mut self) -> (accepted: Option<usize>)
        requires
            old(self).wf(),
        ensures
            final(self).wf(),
            final(self)@ == old(self)@.after_accept(),
            match accepted {
                Some(stream) => old(self)@.pending.len() > 0 && stream == old(self)@.pending[0].1,
                None => old(self)@.pending.len() == 0,
            },
    {
        match self.pending.pop_front() {
            Some((remote, stream)) => {
                self.connections.insert(remote, stream);
                proof {
                    assert(self@.pending =~= old(self)@.after_accept().pending);
                }
                Some(stream)
            },
            None => {
                proof {
                    assert(self@.pending =~= old(self)@.pending);
                }
                None
            },
        }
    }

    /// The number of connections that wait to be accepted.
    pub fn pending_len(&self) -> (n: usize)
        ensures
            n == self@.pending.len(),
    {
        self.pending.len()
    }

    /// The accepted stream whose peer is `remote_endpoint`.
    pub fn get_stream(&self, remote_endpoint: &Endpoint) -> (stream: Option<usize>)
        requires
            self.wf(),
        ensures
            stream == self@.get_stream(remote_endpoint@),
    {
        match self.connections.get(remote_endpoint) {
            Some(stream) => Some(*stream),
            None => None,
        }
    }
}

} // verus!
