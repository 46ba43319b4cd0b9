//! Staffing and capacity planning: combining the server counts that each
//! service-level requirement asks for.

use vstd::prelude::*;

verus! {

/// The server count to recommend when three requirements ask for at least
/// `for_wait_prob`, `for_utilization` and `for_wait_time` servers: the least
/// count that meets all three.
pub fn recommended_servers(
    for_wait_prob: usize,
    for_utilization: usize,
    for_wait_time: usize,
) -> (recommended: usize)
    ensures
        recommended >= for_wait_prob,
        recommended >= for_utilization,
        recommended >= for_wait_time,
        recommended == for_wait_prob || recommended == for_utilization || recommended
            == for_wait_time,
{
    let first = if for_wait_prob >= for_utilization {
        for_wait_prob
    } else {
        for_utilization
    };
    if first >= for_wait_time {
        first
    } else {
        for_wait_time
    }
}

} // verus!
