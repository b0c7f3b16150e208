//! Lowering of higher-level dataflow graphs onto the fabric: the pass that
//! turns graph nodes into PCU and switch configurations.

use vstd::prelude::*;

verus! {

/// The state a lowering pass accumulates while it maps a dataflow graph onto
/// the fabric's components. The pass itself grows node by node; an empty
/// state lowers the empty graph.
pub struct Lowered {}

impl Lowered {
    /// A fresh lowering state: nothing lowered yet.
    pub fn new() -> (r: Lowered)
        ensures
            r == (Lowered {  }),
    {
        Lowered {  }
    }
}

} // verus!
