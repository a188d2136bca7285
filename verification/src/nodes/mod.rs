//! Generic compute nodes which form the building blocks of a compute graph.

use vstd::prelude::*;

pub mod generic_compute_1_1;

pub use generic_compute_1_1::GenericComputeNode_1_1;

verus! {

/// Primary building block of a compute graph. Compute nodes are run in
/// their own threads and pull data in from channels and publish to other
/// channels. They can also interact with the console, files, the network,
/// or any other source or sink of data.
///
/// The harness that launches nodes lives outside this crate: it spawns one
/// thread per node, calls `run` there, and joins them.
pub trait ComputeNode {
    /// Get the name of this node for debugging.
    fn name(&self) -> &str;

    /// Start processing input and keep going until all of the input data
    /// has been consumed or the output has been corked. This will be
    /// called from a separate thread.
    fn run(&self);
}

} // verus!
