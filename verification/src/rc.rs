//! RPC over reliable connections.

pub mod answers;
pub mod builder;
pub mod context;
pub mod credit;
pub mod effects;
pub mod endpoint;
pub mod handle;
pub mod info;
pub mod laws;
pub mod passes;
pub mod progress;
pub mod shared;
pub mod state;
pub mod step;
pub mod turns;

pub use builder::ContextBuilder;
pub use context::Context;
pub use endpoint::Endpoint;
pub use handle::RecvHandle;
pub use info::{
    EndpointConfig, LocalEndpointInfo, RemoteEndpointInfo, RemoteRingInfo, RingMemory, SrqEntry,
    DEFAULT_RING_SIZE,
};
