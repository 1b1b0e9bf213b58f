//! Completions.

use vstd::prelude::*;

verus! {

/// What kind of completion came in.
#[derive(Debug, Clone, Copy, PartialEq, Eq, Structural)]
pub enum CqeOpcode {
    /// A local work request failed.
    ReqErr,
    /// A receive failed.
    RespErr,
    /// Anything that succeeded.
    Success,
}

/// A completion.
#[derive(Debug, Clone, Copy, PartialEq, Eq, Structural)]
pub struct Cqe {
    /// Its kind.
    pub opcode: CqeOpcode,
    /// Number of the queue pair.
    pub qp_num: u32,
    /// Immediate value.
    pub imm: u32,
    /// Cause of an error.
    pub syndrome: u8,
}

impl Cqe {
    /// The completion tells of an error.
    pub open spec fn failed(self) -> bool {
        self.opcode is ReqErr || self.opcode is RespErr
    }

    /// Tells whether the completion tells of an error.
    pub fn is_error(&self) -> (r: bool)
        ensures
            r == self.failed(),
    {
        match self.opcode {
            CqeOpcode::ReqErr => true,
            CqeOpcode::RespErr => true,
            CqeOpcode::Success => false,
        }
    }
}

/// The two kinds of error, and nothing else, count as a failure.
pub proof fn law_failures(cqe: Cqe)
    ensures
        cqe.failed() <==> cqe.opcode != CqeOpcode::Success,
{
}

} // verus!
