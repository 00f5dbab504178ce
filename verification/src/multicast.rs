//! Multicast destinations for shreds.
//!
//! The leader broadcasts to one multicast group, and the turbine root forwards to another one, so
//! that the two paths do not meet at the receiver.

use crate::net::{IpAddress, SocketAddress};
use vstd::prelude::*;

verus! {

/// The port of the multicast groups for turbine roots.
pub const MULTICAST_ROOT_PORT: u16 = 7733;

/// The multicast group for turbine roots on the main network.
pub const MULTICAST_ROOT_IP_MAINNET: [u8; 4] = [233, 84, 178, 16];

/// The multicast group for turbine roots on the test network.
pub const MULTICAST_ROOT_IP_TESTNET: [u8; 4] = [233, 84, 178, 12];

/// A cluster of validators.
#[derive(Clone, Copy, Debug, PartialEq, Eq, Structural)]
pub enum ClusterType {
    Testnet,
    MainnetBeta,
    Devnet,
    Development,
}

/// The multicast destinations of a cluster.
#[derive(Clone, Copy, Debug, PartialEq, Eq)]
pub struct Destinations {
    /// Where the leader broadcasts to.
    pub leader: SocketAddress,
    /// Where the turbine root forwards to.
    pub root: SocketAddress,
}

/// The destination of turbine roots on the network with the multicast group `ip`.
pub open spec fn root_address(ip: [u8; 4]) -> SocketAddress {
    SocketAddress { ip: IpAddress::V4(ip), port: MULTICAST_ROOT_PORT }
}

/// The multicast destinations of a cluster; nothing for one without multicast groups. The leader's
/// destinations on the main and on the test network are given.
pub open spec fn destinations(
    cluster: ClusterType,
    leader_mainnet: SocketAddress,
    leader_testnet: SocketAddress,
) -> Option<Destinations> {
    match cluster {
        ClusterType::MainnetBeta => Some(
            Destinations { leader: leader_mainnet, root: root_address(MULTICAST_ROOT_IP_MAINNET) },
        ),
        ClusterType::Testnet => Some(
            Destinations { leader: leader_testnet, root: root_address(MULTICAST_ROOT_IP_TESTNET) },
        ),
        _ => None,
    }
}

/// The multicast destinations of a cluster; nothing for one without multicast groups.
pub fn addresses_for_cluster(
    cluster: ClusterType,
    leader_mainnet: SocketAddress,
    leader_testnet: SocketAddress,
) -> (result: Option<Destinations>)
    ensures
        result == destinations(cluster, leader_mainnet, leader_testnet),
{
    match cluster {
        ClusterType::MainnetBeta => Some(
            Destinations {
                leader: leader_mainnet,
                root: SocketAddress {
                    ip: IpAddress::V4(MULTICAST_ROOT_IP_MAINNET),
                    port: MULTICAST_ROOT_PORT,
                },
            },
        ),
        ClusterType::Testnet => Some(
            Destinations {
                leader: leader_testnet,
                root: SocketAddress {
                    ip: IpAddress::V4(MULTICAST_ROOT_IP_TESTNET),
                    port: MULTICAST_ROOT_PORT,
                },
            },
        ),
        _ => None,
    }
}

/// The destinations whose routes are watched, the leader's first; none where the feature is off or
/// the cluster has no multicast groups.
pub fn shred_check_targets(
    enabled: bool,
    cluster: ClusterType,
    leader_mainnet: SocketAddress,
    leader_testnet: SocketAddress,
) -> (targets: Vec<SocketAddress>)
    ensures
        targets@ == match destinations(cluster, leader_mainnet, leader_testnet) {
            Some(found) if enabled => seq![found.leader, found.root],
            _ => Seq::empty(),
        },
{
    let mut targets: Vec<SocketAddress> = Vec::new();
    if enabled {
        if let Some(found) = addresses_for_cluster(cluster, leader_mainnet, leader_testnet) {
            targets.push(found.leader);
            targets.push(found.root);
        }
    }
    assert(targets@ =~= match destinations(cluster, leader_mainnet, leader_testnet) {
        Some(found) if enabled => seq![found.leader, found.root],
        _ => Seq::empty(),
    });
    targets
}

/// Where turbine roots forward to. It is there only where the feature is on.
#[derive(Clone, Copy, Debug, PartialEq, Eq)]
pub struct MulticastRootConfig {
    /// The destination, while the machine has a route to it.
    pub receiver_address: Option<SocketAddress>,
}

/// The address to forward a shred to in addition: at the turbine root only, and while a destination
/// is published.
pub fn maybe_external_addr(config: Option<&MulticastRootConfig>, root_distance: u8) -> (result:
    Option<SocketAddress>)
    ensures
        result == match config {
            Some(config) if root_distance == 0 => config.receiver_address,
            _ => None,
        },
{
    if root_distance != 0 {
        return None;
    }
    match config {
        Some(config) => config.receiver_address,
        None => None,
    }
}

/// The multicast groups: the leader broadcasts to the address that is given for its network, and turbine
/// roots forward to 233.84.178.16 on the main network and 233.84.178.12 on the test network, both at
/// port 7733. Other clusters have none.
pub proof fn law_multicast_groups(
    cluster: ClusterType,
    leader_mainnet: SocketAddress,
    leader_testnet: SocketAddress,
)
    ensures
        destinations(cluster, leader_mainnet, leader_testnet) is Some <==> cluster
            == ClusterType::MainnetBeta || cluster == ClusterType::Testnet,
        destinations(cluster, leader_mainnet, leader_testnet) matches Some(found) ==> {
            &&& found.leader == (if cluster == ClusterType::MainnetBeta {
                leader_mainnet
            } else {
                leader_testnet
            })
            &&& found.root.port == 7733
            &&& found.root.ip == (if cluster == ClusterType::MainnetBeta {
                IpAddress::V4([233u8, 84, 178, 16])
            } else {
                IpAddress::V4([233u8, 84, 178, 12])
            })
        },
{
}

} // verus!
