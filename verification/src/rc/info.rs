//! Plain values that describe endpoints and rings.

use vstd::prelude::*;

use crate::bytes::{zeroed, zeros};
use crate::ring::{least_pow2, next_power_of_two};

verus! {

/// Remote endpoint information for connection establishment.
#[derive(Debug, Clone)]
pub struct RemoteEndpointInfo {
    /// Remote QP number.
    pub qp_number: u32,
    /// Remote packet sequence number.
    pub packet_sequence_number: u32,
    /// Remote local identifier on the subnet.
    pub local_identifier: u16,
    /// Address of the remote receive ring.
    pub recv_ring_addr: u64,
    /// Key of the remote receive ring.
    pub recv_ring_rkey: u32,
    /// Size of the remote receive ring.
    pub recv_ring_size: u64,
    /// Credit in bytes that the remote side grants at the start.
    pub initial_credit: u64,
}

impl RemoteEndpointInfo {
    /// The peer's receive ring.
    pub open spec fn ring(self) -> RemoteRingInfo {
        RemoteRingInfo {
            addr: self.recv_ring_addr,
            rkey: self.recv_ring_rkey,
            size: self.recv_ring_size,
        }
    }

    /// What a queue pair has to do to be connected to this peer.
    pub open spec fn transition(self, local_psn: u32, port: u8, raw: bool) -> QpConnect {
        QpConnect {
            qp_number: self.qp_number,
            packet_sequence_number: self.packet_sequence_number,
            local_identifier: self.local_identifier,
            port,
            local_psn,
            max_rd_atomic: if raw {
                16
            } else {
                0
            },
            max_dest_rd_atomic: if raw {
                16
            } else {
                0
            },
            local_write: true,
            remote_write: true,
            remote_read: raw,
        }
    }
}

/// A remote ring buffer as a target of RDMA writes.
#[derive(Debug, Clone, Copy, PartialEq, Eq, Structural)]
pub struct RemoteRingInfo {
    /// Address of the ring in the peer's memory.
    pub addr: u64,
    /// Key of the peer's memory region.
    pub rkey: u32,
    /// Bytes in the ring.
    pub size: u64,
}

impl RemoteRingInfo {
    /// The ring holds at least one byte and lies in the address space.
    pub open spec fn valid(self) -> bool {
        0 < self.size && self.addr + self.size <= u64::MAX
    }

    /// Describes a remote ring.
    pub fn new(addr: u64, rkey: u32, size: u64) -> (r: Self)
        ensures
            r == (RemoteRingInfo { addr, rkey, size }),
    {
        RemoteRingInfo { addr, rkey, size }
    }
}

/// What a posted work request is tagged with.
#[derive(Debug, Clone, Copy, PartialEq, Eq, Structural)]
pub struct SrqEntry {
    /// QP number of the queue pair that posted it.
    pub qpn: u32,
}

/// Local endpoint information for connection establishment.
#[derive(Debug, Clone)]
pub struct LocalEndpointInfo {
    /// Local QP number.
    pub qp_number: u32,
    /// Address of the local receive ring.
    pub recv_ring_addr: u64,
    /// Key of the local receive ring.
    pub recv_ring_rkey: u32,
    /// Size of the local receive ring.
    pub recv_ring_size: u64,
    /// Credit in bytes that this side grants at the start.
    pub initial_credit: u64,
}

/// A queue pair's transition to the connected state.
#[derive(Debug, Clone, Copy, PartialEq, Eq, Structural)]
pub struct QpConnect {
    /// Remote QP number.
    pub qp_number: u32,
    /// Remote packet sequence number.
    pub packet_sequence_number: u32,
    /// Remote local identifier on the subnet.
    pub local_identifier: u16,
    /// Local port.
    pub port: u8,
    /// Local packet sequence number.
    pub local_psn: u32,
    /// Most outstanding reads from this side.
    pub max_rd_atomic: u8,
    /// Most outstanding reads from the peer.
    pub max_dest_rd_atomic: u8,
    /// The device may write local memory.
    pub local_write: bool,
    /// The peer may write local memory.
    pub remote_write: bool,
    /// The peer may read local memory.
    pub remote_read: bool,
}

/// Where the rings of an endpoint lie in registered memory.
#[derive(Debug, Clone, Copy, PartialEq, Eq, Structural)]
pub struct RingMemory {
    /// Address of the send ring.
    pub send_addr: u64,
    /// Local key of the send ring.
    pub send_lkey: u32,
    /// Address of the receive ring.
    pub recv_addr: u64,
    /// Remote key of the receive ring.
    pub recv_rkey: u32,
    /// Bytes in the receive ring.
    pub recv_len: u64,
}

/// Configuration of a queue pair.
#[derive(Debug, Clone, Copy, PartialEq, Eq, Structural)]
pub struct RcQpConfig {
    /// Most send work requests.
    pub max_send_wr: u32,
    /// Most receive work requests.
    pub max_recv_wr: u32,
    /// Most gather entries of a send work request.
    pub max_send_sge: u32,
    /// Most scatter entries of a receive work request.
    pub max_recv_sge: u32,
    /// Most inline bytes of a send work request.
    pub max_inline_data: u32,
    /// Small receives are delivered in the completion.
    pub enable_scatter_to_cqe: bool,
}

/// Default size of a ring (1 MB).
pub const DEFAULT_RING_SIZE: usize = 0x10_0000;

/// Configuration of an endpoint.
#[derive(Debug, Clone, Copy, PartialEq, Eq, Structural)]
pub struct EndpointConfig {
    /// Size of the send ring.
    pub send_ring_size: usize,
    /// Size of the receive ring.
    pub recv_ring_size: usize,
    /// Configuration of the queue pair.
    pub qp_config: RcQpConfig,
    /// Most credit in bytes that the peer may hold, before the limit of a quarter of the send ring.
    pub max_resp_reservation: u64,
}

impl EndpointConfig {
    /// Makes the send ring and the receive ring: zeroed, with sizes rounded up to powers of two.
    pub fn allocate_rings(&self) -> (rings: (Vec<u8>, Vec<u8>))
        requires
            self.send_ring_size <= usize::MAX / 4,
            self.recv_ring_size <= usize::MAX / 4,
        ensures
            least_pow2(self.send_ring_size as int, rings.0@.len() as int),
            least_pow2(self.recv_ring_size as int, rings.1@.len() as int),
            rings.0@ == zeros(rings.0@.len()),
            rings.1@ == zeros(rings.1@.len()),
    {
        (zeroed(next_power_of_two(self.send_ring_size)), zeroed(next_power_of_two(self.recv_ring_size)))
    }
}

impl Default for EndpointConfig {
    fn default() -> (r: Self)
        ensures
            r == (EndpointConfig {
                send_ring_size: 0x10_0000,
                recv_ring_size: 0x10_0000,
                qp_config: RcQpConfig {
                    max_send_wr: 256,
                    max_recv_wr: 0,
                    max_send_sge: 1,
                    max_recv_sge: 1,
                    max_inline_data: 256,
                    enable_scatter_to_cqe: false,
                },
                max_resp_reservation: 0x4_0000,
            }),
    {
        EndpointConfig {
            send_ring_size: DEFAULT_RING_SIZE,
            recv_ring_size: DEFAULT_RING_SIZE,
            qp_config: RcQpConfig {
                max_send_wr: 256,
                max_recv_wr: 0,
                max_send_sge: 1,
                max_recv_sge: 1,
                max_inline_data: 256,
                enable_scatter_to_cqe: false,
            },
            max_resp_reservation: DEFAULT_RING_SIZE as u64 / 4,
        }
    }
}

} // verus!
