//! Which link is plugged in where.

use crate::types::{AppId, LinkId, NodeId, PortId, SwitchId};
use std::collections::HashMap;
use vstd::prelude::*;

verus! {

broadcast use vstd::std_specs::hash::group_hash_axioms;

#[derive(Debug, Clone, Copy, PartialEq, Eq, Hash, Structural)]
pub enum Node {
    Switch(SwitchId),
    App(AppId),
}

/// The number of a node: switches have the top bit set.
pub open spec fn node_number(n: Node) -> NodeId {
    match n {
        Node::Switch(s) => NodeId(0x8000_0000 | s.0),
        Node::App(a) => NodeId(a.0),
    }
}

/// The node that a number stands for.
pub open spec fn node_of(n: NodeId) -> Node {
    if n.0 & 0x8000_0000 != 0 {
        Node::Switch(SwitchId(n.0 & 0x7fff_ffff))
    } else {
        Node::App(AppId(n.0))
    }
}

/// The node that a number stands for.
pub fn node_from_id(n: NodeId) -> (r: Node)
    ensures
        r == node_of(n),
{
    if n.0 & 0x8000_0000 != 0 {
        Node::Switch(SwitchId(n.0 & 0x7fff_ffff))
    } else {
        Node::App(AppId(n.0))
    }
}

/// Ids below the top bit name nodes uniquely.
pub proof fn node_numbers_are_unique(n: Node)
    requires
        match n {
            Node::Switch(s) => s.0 < 0x8000_0000,
            Node::App(a) => a.0 < 0x8000_0000,
        },
    ensures
        node_of(node_number(n)) == n,
{
    match n {
        Node::Switch(s) => {
            let x = s.0;
            assert((0x8000_0000u32 | x) & 0x8000_0000u32 != 0 && (0x8000_0000u32 | x) & 0x7fff_ffffu32
                == x) by (bit_vector)
                requires
                    x < 0x8000_0000u32,
            ;
        },
        Node::App(a) => {
            let x = a.0;
            assert(x & 0x8000_0000u32 == 0) by (bit_vector)
                requires
                    x < 0x8000_0000u32,
            ;
        },
    }
}

impl Node {
    pub fn as_node_id(&self) -> (r: NodeId)
        ensures
            r == node_number(*self),
    {
        match self {
            Node::Switch(s) => NodeId(0x8000_0000 | s.0),
            Node::App(a) => NodeId(a.0),
        }
    }
}

#[derive(Debug, Clone, Copy, PartialEq, Eq, Structural)]
pub struct Endpoint {
    pub node: Node,
    pub port: PortId,
}

/// A node's number and a port, as one number.
pub open spec fn socket(n: NodeId, port: u16) -> u64 {
    (n.0 as u64 * 0x1_0000 + port as u64) as u64
}

/// A node's number and a port, as one number.
pub fn socket_of(n: NodeId, port: u16) -> (r: u64)
    ensures
        r == socket(n, port),
{
    (n.0 as u64) * 0x1_0000 + (port as u64)
}

/// No two places share a number.
pub proof fn sockets_are_unique(a: NodeId, p: u16, b: NodeId, q: u16)
    ensures
        socket(a, p) == socket(b, q) <==> a == b && p == q,
{
}

#[derive(Debug)]
pub struct Network {
    /// The link at each `(node, port)`. Each side of the link is registered.
    pub endpoint_to_link: HashMap<u64, LinkId>,
    /// All link ids known, in the order of registration.
    pub links: Vec<LinkId>,
}

/// What a network holds.
#[verifier::ext_equal]
pub struct NetworkView {
    pub at: Map<u64, LinkId>,
    pub links: Seq<LinkId>,
}

impl View for Network {
    type V = NetworkView;

    open spec fn view(&self) -> NetworkView {
        NetworkView { at: self.endpoint_to_link@, links: self.links@ }
    }
}

impl NetworkView {
    /// The link at a node's port.
    pub open spec fn link(self, node: Node, port: PortId) -> Option<LinkId> {
        let k = socket(node_number(node), port.0);
        if self.at.contains_key(k) {
            Some(self.at[k])
        } else {
            None
        }
    }

    /// The network after a link was plugged in at both ends.
    pub open spec fn plugged(self, link: LinkId, a: Endpoint, b: Endpoint) -> NetworkView {
        NetworkView {
            at: self.at.insert(socket(node_number(a.node), a.port.0), link).insert(
                socket(node_number(b.node), b.port.0),
                link,
            ),
            links: self.links.push(link),
        }
    }
}

impl Default for Network {
    fn default() -> (r: Network)
        ensures
            r@ == (NetworkView { at: Map::empty(), links: Seq::empty() }),
    {
        Network::new()
    }
}

impl Network {
    pub fn new() -> (r: Network)
        ensures
            r@ == (NetworkView { at: Map::empty(), links: Seq::empty() }),
    {
        Network { endpoint_to_link: HashMap::new(), links: Vec::new() }
    }

    pub fn register_link(&mut self, link: LinkId, a: Endpoint, b: Endpoint)
        ensures
            final(self)@ == old(self)@.plugged(link, a, b),
    {
        self.endpoint_to_link.insert(socket_of(a.node.as_node_id(), a.port.0), link);
        self.endpoint_to_link.insert(socket_of(b.node.as_node_id(), b.port.0), link);
        self.links.push(link);
    }

    pub fn link_at(&self, node: Node, port: PortId) -> (r: Option<LinkId>)
        ensures
            r == self@.link(node, port),
    {
        match self.endpoint_to_link.get(&socket_of(node.as_node_id(), port.0)) {
            Some(l) => Some(*l),
            None => None,
        }
    }
}

/// A plugged link is found at both of its ends.
pub proof fn plugged_links_are_found(n: NetworkView, link: LinkId, a: Endpoint, b: Endpoint)
    ensures
        n.plugged(link, a, b).link(a.node, a.port) == Some(link),
        n.plugged(link, a, b).link(b.node, b.port) == Some(link),
{
}

} // verus!
