//! Making a context.

use std::marker::PhantomData;
use vstd::prelude::*;

use crate::dc::context::Context;
use crate::dc::info::{DciConfig, DctConfig};
use crate::dc::shared::ContextState;
use crate::srq::{SrqConfig, DEFAULT_CQ_SIZE, DEFAULT_SRQ_SIZE};

verus! {

/// How to make a context.
pub struct ContextBuilder<U> {
    /// Which device to open.
    pub device_index: usize,
    /// Which of its ports to use.
    pub port: u8,
    /// The shared receive queue.
    pub srq_config: SrqConfig,
    /// Size of the completion queues.
    pub cq_size: i32,
    /// The queue pair that connects to all peers. Where this is left out, the device's own default
    /// configuration is meant.
    pub dci_config: Option<DciConfig>,
    /// The connection target.
    pub dct_config: DctConfig,
    /// The type of user data.
    pub marker: PhantomData<U>,
}

impl<U> Default for ContextBuilder<U> {
    fn default() -> (r: Self)
        ensures
            r.device_index == 0,
            r.port == 1,
            r.srq_config == (SrqConfig { max_wr: 1024, max_sge: 1 }),
            r.cq_size == 4096,
            r.dci_config is None,
            r.dct_config == (DctConfig { dc_key: 0xC0DE_CAFE_D00D_BEEF }),
    {
        ContextBuilder {
            device_index: 0,
            port: 1,
            srq_config: SrqConfig { max_wr: DEFAULT_SRQ_SIZE, max_sge: 1 },
            cq_size: DEFAULT_CQ_SIZE,
            dci_config: None,
            dct_config: DctConfig { dc_key: 0xC0DE_CAFE_D00D_BEEF },
            marker: PhantomData,
        }
    }
}

impl<U> ContextBuilder<U> {
    /// A builder with the default settings.
    pub fn new() -> (r: Self)
        ensures
            r.device_index == 0,
            r.port == 1,
            r.srq_config == (SrqConfig { max_wr: 1024, max_sge: 1 }),
            r.cq_size == 4096,
            r.dci_config is None,
            r.dct_config == (DctConfig { dc_key: 0xC0DE_CAFE_D00D_BEEF }),
    {
        Self::default()
    }

    /// Chooses the device.
    pub fn device_index(self, index: usize) -> (r: Self)
        ensures
            r == (ContextBuilder { device_index: index, ..self }),
    {
        ContextBuilder { device_index: index, ..self }
    }

    /// Chooses the port.
    pub fn port(self, port: u8) -> (r: Self)
        ensures
            r == (ContextBuilder { port, ..self }),
    {
        ContextBuilder { port, ..self }
    }

    /// Configures the shared receive queue.
    pub fn srq_config(self, config: SrqConfig) -> (r: Self)
        ensures
            r == (ContextBuilder { srq_config: config, ..self }),
    {
        ContextBuilder { srq_config: config, ..self }
    }

    /// Chooses the size of the completion queues.
    pub fn cq_size(self, size: i32) -> (r: Self)
        ensures
            r == (ContextBuilder { cq_size: size, ..self }),
    {
        ContextBuilder { cq_size: size, ..self }
    }

    /// Configures the queue pair that connects to all peers.
    pub fn dci_config(self, config: DciConfig) -> (r: Self)
        ensures
            r == (ContextBuilder { dci_config: Some(config), ..self }),
    {
        ContextBuilder { dci_config: Some(config), ..self }
    }

    /// Configures the connection target.
    pub fn dct_config(self, config: DctConfig) -> (r: Self)
        ensures
            r == (ContextBuilder { dct_config: config, ..self }),
    {
        ContextBuilder { dct_config: config, ..self }
    }

    /// Makes a context without endpoints on a device that is open. `lid` is what the device has on
    /// the port; the shared receive queue is full.
    pub fn build(self, lid: u16) -> (r: Context<U>)
        requires
            self.srq_config.max_wr <= u32::MAX / 2,
        ensures
            r.wf(),
            r@ == ContextState::<U>::empty(self.port, lid, self.srq_config.max_wr),
    {
        Context::new(self.port, lid, self.srq_config.max_wr)
    }
}

impl<U> Context<U> {
    /// A builder with the default settings.
    pub fn builder() -> (r: ContextBuilder<U>)
        ensures
            r.device_index == 0,
            r.port == 1,
            r.srq_config == (SrqConfig { max_wr: 1024, max_sge: 1 }),
            r.cq_size == 4096,
            r.dci_config is None,
            r.dct_config == (DctConfig { dc_key: 0xC0DE_CAFE_D00D_BEEF }),
    {
        ContextBuilder::new()
    }
}

} // verus!
