use competitive_net_sim::network::{Endpoint, Network, Node};
use competitive_net_sim::types::{AppId, LinkId, PortId, SwitchId};

#[test]
fn register_and_lookup() {
    let mut n = Network::new();
    n.register_link(
        LinkId::new(0),
        Endpoint {
            node: Node::App(AppId::new(1)),
            port: PortId::new(0),
        },
        Endpoint {
            node: Node::Switch(SwitchId::new(2)),
            port: PortId::new(3),
        },
    );
    assert_eq!(
        n.link_at(Node::App(AppId::new(1)), PortId::new(0)),
        Some(LinkId::new(0))
    );
    assert_eq!(
        n.link_at(Node::Switch(SwitchId::new(2)), PortId::new(3)),
        Some(LinkId::new(0))
    );
}
