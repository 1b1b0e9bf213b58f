//! Filling up the shared receive queue.

use vstd::prelude::*;

verus! {

/// Default size of the shared receive queue.
pub const DEFAULT_SRQ_SIZE: u32 = 1024;

/// Default size of a completion queue.
pub const DEFAULT_CQ_SIZE: i32 = 4096;

/// Configuration of a shared receive queue.
#[derive(Debug, Clone, Copy, PartialEq, Eq, Structural)]
pub struct SrqConfig {
    /// Most receive work requests.
    pub max_wr: u32,
    /// Most scatter entries of a receive work request.
    pub max_sge: u32,
}

/// Buffers that are left after `used` of `posted` were used up.
pub open spec fn left_after(posted: int, used: int) -> int {
    if posted > used {
        posted - used
    } else {
        0
    }
}

/// Buffers to post after `used` of `posted` were used up: none while two thirds of the `max_wr`
/// are there, and otherwise all that are missing.
pub open spec fn missing_after(posted: int, used: int, max_wr: int) -> int {
    if used > 0 && left_after(posted, used) < max_wr * 2 / 3 {
        max_wr - left_after(posted, used)
    } else {
        0
    }
}

/// The shared receive queue never holds more buffers than it has room for, and after a poll that used
/// buffers up it is at least two thirds full.
pub proof fn law_srq_stays_filled(posted: int, used: int, max_wr: int)
    requires
        0 <= posted <= max_wr,
        0 <= used,
    ensures
        left_after(posted, used) + missing_after(posted, used, max_wr) <= max_wr,
        used > 0 ==> max_wr * 2 / 3 <= left_after(posted, used) + missing_after(
            posted,
            used,
            max_wr,
        ),
{
}

/// Takes note that `used` buffers were used up. Returns how many to post.
pub fn replenish(posted: &mut u32, used: u32, max_wr: u32) -> (to_post: u32)
    requires
        max_wr <= u32::MAX / 2,
    ensures
        to_post == missing_after(*old(posted) as int, used as int, max_wr as int),
        *final(posted) == left_after(*old(posted) as int, used as int) + to_post,
{
    if used == 0 {
        return 0;
    }
    let left: u32 = posted.saturating_sub(used);
    *posted = left;
    let threshold: u32 = max_wr * 2 / 3;
    if left < threshold {
        *posted = max_wr;
        return max_wr - left;
    }
    0
}

/// Buffers that were used up are counted off, and the queue is filled up only where it is less than two
/// thirds full: then all that is missing is posted.
pub proof fn law_refill_is_exact(posted: int, used: int, max_wr: int)
    requires
        0 <= posted <= max_wr,
        0 <= used,
    ensures
        used <= posted ==> left_after(posted, used) == posted - used,
        posted < used ==> left_after(posted, used) == 0,
        used == 0 ==> missing_after(posted, used, max_wr) == 0,
        0 < used && left_after(posted, used) < max_wr * 2 / 3 ==> left_after(posted, used)
            + missing_after(posted, used, max_wr) == max_wr,
        max_wr * 2 / 3 <= left_after(posted, used) ==> missing_after(posted, used, max_wr) == 0,
{
}

} // verus!
