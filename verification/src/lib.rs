//! Core of a topic-scoped peer-to-peer overlay: nodes that share a route
//! identifier discover each other through a rendezvous exchange, keep a
//! registry of live peers, periodically re-probe them, and exchange
//! authenticated-encrypted application payloads.
//!
//! The library is pure protocol logic: it parses and builds datagrams,
//! decides every state transition, and states what each operation does.
//! Sockets, threads and clocks live with the caller, which feeds inbound
//! datagrams in and carries reply datagrams out.

use vstd::prelude::*;

pub mod dispatch;
pub mod registry;
pub mod secure;
pub mod wire;

verus! {

/// Topic identifier of a mesh. Two nodes interact only if their route
/// identifiers are equal; the identifier travels as a single byte.
#[derive(Clone, Copy, PartialEq, Eq, Structural, Debug)]
pub struct RouteId {
    pub value: u8,
}

impl RouteId {
    /// Reads a route identifier from its wire byte.
    pub fn from_byte(b: u8) -> (r: RouteId)
        ensures
            r.value == b,
    {
        RouteId { value: b }
    }

    /// The wire byte of this route identifier.
    pub fn to_byte(&self) -> (b: u8)
        ensures
            b == self.value,
    {
        self.value
    }
}

/// A node's own identity: its key pair and the route it participates in.
/// Immutable for the lifetime of a running node.
pub struct NodeIdentity {
    pub private_key: Vec<u8>,
    pub public_key: Vec<u8>,
    pub route: RouteId,
}

impl NodeIdentity {
    /// Both keys are 32-byte X25519 keys.
    pub open spec fn wf(&self) -> bool {
        self.private_key@.len() == 32 && self.public_key@.len() == 32
    }

    pub fn new(private_key: Vec<u8>, public_key: Vec<u8>, route: RouteId) -> (r: NodeIdentity)
        requires
            private_key@.len() == 32,
            public_key@.len() == 32,
        ensures
            r.wf(),
            r.private_key@ == private_key@,
            r.public_key@ == public_key@,
            r.route == route,
    {
        NodeIdentity { private_key, public_key, route }
    }
}

} // verus!
