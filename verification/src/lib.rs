//! A deterministic, fault-injecting simulation of a TCP-like transport.
//!
//! The whole simulation is one value, [`network::SimulatedNetwork`]: it owns
//! the hosts, their listeners and streams, the link relation between
//! addresses and the seeded random source that decides the fate of every
//! packet. Nothing here blocks or sleeps: an operation that would wait
//! reports that nothing is queued yet, and a delayed packet is handed back
//! to the caller together with the stream it must later be delivered to.

pub mod packet;
pub mod table;
pub mod stream;
pub mod listener;
pub mod random;
pub mod config;
pub mod ports;
pub mod interface;
pub mod network;
pub mod platform;
pub mod guarantees;
