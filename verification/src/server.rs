//! What the backend has to know of the graphics server.
use vstd::prelude::*;

verus! {

/// What was found out about the graphics server when it was set up.
#[derive(Clone, Copy, Debug, PartialEq, Eq, Structural)]
pub struct WgpuGraphicsServer {
    /// False unless the adapter reported ray queries.
    pub ray_tracing: bool,
    /// Whether objects on the graphics card are given names.
    pub named_objects: bool,
}

} // verus!
