//! Queue networks: the shape of an open Jackson network.

use vstd::prelude::*;

verus! {

/// An open network of `num_nodes` nodes is well formed when its routing
/// matrix is `num_nodes` × `num_nodes` and there is one external arrival rate
/// per node.
pub fn dimensions_agree(
    num_nodes: usize,
    rows: usize,
    cols: usize,
    num_arrivals: usize,
) -> (ok: bool)
    ensures
        ok == (num_arrivals == num_nodes && rows == num_nodes && cols == num_nodes),
{
    num_arrivals == num_nodes && rows == num_nodes && cols == num_nodes
}

} // verus!
