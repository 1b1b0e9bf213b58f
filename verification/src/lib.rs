//! Flow-controlled RPC over ring buffers that are written by RDMA.
//!
//! Each side of a connection has a send ring and a receive ring. Messages gather in batches in the
//! send ring. A batch goes out as one RDMA write into the receive ring of the peer, whose immediate
//! value makes a completion there. The header of a batch reports how far the receive ring has been
//! read.
//!
//! The library decides what to write and where, and what arrived. It never touches the device: an
//! operation that needs the device returns a work request, and goes on when it is told what became
//! of it.

pub mod arith;
pub mod bytes;
pub mod cq;
pub mod dc;
pub mod encoding;
pub mod error;
pub mod inbound;
pub mod message;
pub mod pending;
pub mod poll;
pub mod rc;
pub mod ring;
pub mod srq;
pub mod wqe;

pub use rc::{
    Context, ContextBuilder, Endpoint, EndpointConfig, LocalEndpointInfo, RecvHandle,
    RemoteEndpointInfo, RemoteRingInfo, SrqEntry,
};
