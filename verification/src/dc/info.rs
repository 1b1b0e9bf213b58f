//! Plain values that describe endpoints, rings and the device.

use vstd::prelude::*;

use crate::bytes::{zeroed, zeros};
use crate::ring::{least_pow2, next_power_of_two};

verus! {

/// Default size of a ring (1 MB).
pub const DEFAULT_RING_SIZE: usize = 0x10_0000;

/// Configuration of an endpoint.
#[derive(Debug, Clone, Copy, PartialEq, Eq, Structural)]
pub struct EndpointConfig {
    /// Size of the send ring.
    pub send_ring_size: usize,
    /// Size of the receive ring.
    pub recv_ring_size: usize,
}

impl Default for EndpointConfig {
    fn default() -> (r: Self)
        ensures
            r == (EndpointConfig { send_ring_size: 0x10_0000, recv_ring_size: 0x10_0000 }),
    {
        EndpointConfig { send_ring_size: DEFAULT_RING_SIZE, recv_ring_size: DEFAULT_RING_SIZE }
    }
}

impl EndpointConfig {
    /// Makes the send ring and the receive ring: zeroed, with sizes rounded up to powers of two.
    pub fn allocate_rings(&self) -> (rings: (Vec<u8>, Vec<u8>))
        requires
            self.send_ring_size <= usize::MAX / 4,
            self.recv_ring_size <= usize::MAX / 4,
        ensures
            least_pow2(self.send_ring_size as int, rings.0@.len() as int),
            least_pow2(self.recv_ring_size as int, rings.1@.len() as int),
            rings.0@ == zeros(rings.0@.len()),
            rings.1@ == zeros(rings.1@.len()),
    {
        let send_ring_size: usize = next_power_of_two(self.send_ring_size);
        let recv_ring_size: usize = next_power_of_two(self.recv_ring_size);
        (zeroed(send_ring_size), zeroed(recv_ring_size))
    }
}

/// Remote endpoint information for connection establishment.
#[derive(Debug, Clone)]
pub struct RemoteEndpointInfo {
    /// Number of the remote connection target.
    pub dct_number: u32,
    /// Access key of the remote connection target.
    pub dc_key: u64,
    /// Remote local identifier on the subnet.
    pub local_identifier: u16,
    /// Address of the remote receive ring.
    pub recv_ring_addr: u64,
    /// Key of the remote receive ring.
    pub recv_ring_rkey: u32,
    /// Size of the remote receive ring.
    pub recv_ring_size: u64,
    /// Credit in bytes that the remote side grants at the start.
    pub initial_credit: u64,
    /// Number of the remote endpoint in its context.
    pub endpoint_id: u32,
}

impl RemoteEndpointInfo {
    /// The peer's receive ring.
    pub open spec fn ring(self) -> RemoteRingInfo {
        RemoteRingInfo {
            addr: self.recv_ring_addr,
            rkey: self.recv_ring_rkey,
            size: self.recv_ring_size,
        }
    }

    /// The peer's connection target.
    pub open spec fn dct(self) -> RemoteDctInfo {
        RemoteDctInfo {
            dctn: self.dct_number,
            dc_key: self.dc_key,
            dlid: self.local_identifier,
        }
    }
}

/// Local endpoint information for connection establishment.
#[derive(Debug, Clone)]
pub struct LocalEndpointInfo {
    /// Number of the local connection target.
    pub dct_number: u32,
    /// Access key of the local connection target.
    pub dc_key: u64,
    /// Address of the local receive ring.
    pub recv_ring_addr: u64,
    /// Key of the local receive ring.
    pub recv_ring_rkey: u32,
    /// Size of the local receive ring.
    pub recv_ring_size: u64,
    /// Credit in bytes that this side grants at the start.
    pub initial_credit: u64,
    /// Number of the endpoint in its context.
    pub endpoint_id: u32,
}

/// A remote ring buffer as a target of RDMA writes.
#[derive(Debug, Clone, Copy, PartialEq, Eq, Structural)]
pub struct RemoteRingInfo {
    /// Address of the ring in the peer's memory.
    pub addr: u64,
    /// Key of the peer's memory region.
    pub rkey: u32,
    /// Bytes in the ring.
    pub size: u64,
}

impl RemoteRingInfo {
    /// The ring holds at least one byte and lies in the address space.
    pub open spec fn valid(self) -> bool {
        0 < self.size && self.addr + self.size <= u64::MAX
    }
}

/// A remote connection target.
#[derive(Debug, Clone, Copy, PartialEq, Eq, Structural)]
pub struct RemoteDctInfo {
    /// Its number.
    pub dctn: u32,
    /// Its access key.
    pub dc_key: u64,
    /// Its local identifier on the subnet.
    pub dlid: u16,
}

/// Where the rings of an endpoint lie in registered memory.
#[derive(Debug, Clone, Copy, PartialEq, Eq, Structural)]
pub struct RingMemory {
    /// Address of the send ring.
    pub send_addr: u64,
    /// Local key of the send ring.
    pub send_lkey: u32,
    /// Address of the receive ring.
    pub recv_addr: u64,
    /// Remote key of the receive ring.
    pub recv_rkey: u32,
    /// Bytes in the receive ring.
    pub recv_len: u64,
}

/// Configuration of the queue pair that connects to all peers.
#[derive(Debug, Clone, Copy, PartialEq, Eq, Structural)]
pub struct DciConfig {
    /// Most send work requests.
    pub max_send_wr: u32,
    /// Most gather entries of a send work request.
    pub max_send_sge: u32,
    /// Most inline bytes of a send work request.
    pub max_inline_data: u32,
}

/// Configuration of the connection target.
#[derive(Debug, Clone, Copy, PartialEq, Eq, Structural)]
pub struct DctConfig {
    /// Access key.
    pub dc_key: u64,
}

} // verus!
