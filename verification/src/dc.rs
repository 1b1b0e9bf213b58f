//! RPC over dynamic connections: one queue pair for all peers.

pub mod answers;
pub mod balance;
pub mod builder;
pub mod context;
pub mod dirty;
pub mod effects;
pub mod endpoint;
pub mod handle;
pub mod info;
pub mod laws;
pub mod progress;
pub mod room;
pub mod shared;
pub mod state;
pub mod step;
pub mod turns;
pub mod wire;

pub use builder::ContextBuilder;
pub use context::Context;
pub use endpoint::Endpoint;
pub use handle::RecvHandle;
pub use info::{
    DciConfig, DctConfig, EndpointConfig, LocalEndpointInfo, RemoteEndpointInfo, RingMemory,
    DEFAULT_RING_SIZE,
};
pub use wire::BATCH_HEADER_SIZE;
