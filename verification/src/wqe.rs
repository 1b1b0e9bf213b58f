//! Parts of work requests.

use vstd::prelude::*;

verus! {

/// A piece of local memory that the device reads or writes.
#[derive(Debug, Clone, Copy, PartialEq, Eq, Structural)]
pub struct Sge {
    /// Its address.
    pub addr: u64,
    /// Its length.
    pub len: u32,
    /// Its local key.
    pub lkey: u32,
}

} // verus!
