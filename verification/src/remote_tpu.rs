//! The remote TPU.

use crate::block_engine::saturating_sum;
use crate::net::{IpAddress, SocketAddress};
use vstd::prelude::*;

verus! {

/// QUIC lives this far above the UDP port that the remote TPU reports.
pub const QUIC_PORT_OFFSET: u16 = 6;

/// For how long the remote TPU may be silent, in milliseconds.
pub const HEARTBEAT_TIMEOUT_MS: u64 = 400;

/// The addresses that a validator advertises for its TPU.
#[derive(Clone, Copy, Debug, PartialEq, Eq)]
pub struct TpuConfig {
    pub tpu_quic: Option<SocketAddress>,
    pub tpu_forwards_quic: Option<SocketAddress>,
}

/// The QUIC port for a UDP port; the last one where there is none above it.
pub open spec fn quic_port(port: u16) -> u16 {
    if port + QUIC_PORT_OFFSET > u16::MAX {
        u16::MAX
    } else {
        (port + QUIC_PORT_OFFSET) as u16
    }
}

/// The QUIC address that goes with a reported address; nothing where its port is none.
pub open spec fn quic(ip: IpAddress, port: i64) -> Option<SocketAddress> {
    if 0 <= port <= u16::MAX {
        Some(SocketAddress { ip, port: quic_port(port as u16) })
    } else {
        None
    }
}

/// The QUIC address of a TPU that reports `ip` and a UDP port; nothing where that is no port.
pub fn quic_address(ip: IpAddress, port: i64) -> (result: Option<SocketAddress>)
    ensures
        result == quic(ip, port),
{
    if port < 0 || port > 65535 {
        return None;
    }
    let port: u16 = port as u16;
    Some(SocketAddress { ip, port: port.saturating_add(QUIC_PORT_OFFSET) })
}

/// Whether a reported address, where there is one, has a port.
pub open spec fn has_port(reported: Option<(IpAddress, i64)>) -> bool {
    reported matches Some((ip, port)) ==> quic(ip, port) is Some
}

/// The QUIC address that goes with an address, where one is reported.
pub open spec fn quic_of(reported: Option<(IpAddress, i64)>) -> Option<SocketAddress> {
    match reported {
        Some((ip, port)) => quic(ip, port),
        None => None,
    }
}

/// What to advertise for a remote TPU that reports the addresses `tpu` and `forward`; nothing where
/// one of them has no port.
pub fn tpu_config(tpu: Option<(IpAddress, i64)>, forward: Option<(IpAddress, i64)>) -> (result:
    Option<TpuConfig>)
    ensures
        result == (if has_port(tpu) && has_port(forward) {
            Some(TpuConfig { tpu_quic: quic_of(tpu), tpu_forwards_quic: quic_of(forward) })
        } else {
            None
        }),
{
    let tpu_quic = match tpu {
        Some((ip, port)) => match quic_address(ip, port) {
            Some(address) => Some(address),
            None => {
                return None;
            },
        },
        None => None,
    };
    let tpu_forwards_quic = match forward {
        Some((ip, port)) => match quic_address(ip, port) {
            Some(address) => Some(address),
            None => {
                return None;
            },
        },
        None => None,
    };
    Some(TpuConfig { tpu_quic, tpu_forwards_quic })
}

/// What the remote TPU sends.
#[derive(Clone, Copy, Debug, PartialEq, Eq, Structural)]
pub enum Message {
    /// This many packets.
    Batch(usize),
    Heartbeat,
    Empty,
}

/// What becomes of a message: whether its packets go to the queue, which has `room` places left, and
/// the new count of packets that found no room. A batch goes as a whole or not at all.
pub fn forward_packets(message: Message, room: usize, dropped: usize) -> (result: (bool, usize))
    ensures
        result == match message {
            Message::Batch(n) => if n <= room {
                (true, dropped)
            } else {
                (false, saturating_sum(dropped, n as int))
            },
            _ => (false, dropped),
        },
{
    match message {
        Message::Batch(n) => if n <= room {
            (true, dropped)
        } else {
            (false, dropped.saturating_add(n))
        },
        _ => (false, dropped),
    }
}

/// QUIC lives six ports above the reported one, or at the last port where there is none so high; and a
/// reported address has a port exactly where the number is one.
pub proof fn law_quic_lives_above(ip: IpAddress, port: i64)
    ensures
        quic(ip, port) is Some <==> 0 <= port < 65536,
        quic(ip, port) matches Some(address) ==> {
            &&& address.ip == ip
            &&& port <= 65529 ==> address.port == port + 6
            &&& port > 65529 ==> address.port == 65535
        },
        has_port(None),
        has_port(Some((ip, port))) <==> 0 <= port < 65536,
        quic_of(None) is None,
        quic_of(Some((ip, port))) == quic(ip, port),
{
}

} // verus!
