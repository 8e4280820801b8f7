use vstd::prelude::*;

verus! {

/// Returned by `send` and `receive` once the bridge has shut down.
#[derive(Debug, Clone, Copy, PartialEq, Eq, Structural)]
pub struct BridgeClosedError;

} // verus!
