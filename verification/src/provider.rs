//! The provider interfaces that yield live tunnels to their consumers:
//! the accept loop on the OUT side, the slot loops on the IN side.

use vstd::prelude::*;

use crate::errors::ErrorKind;
use crate::tunnel::TunnelEntry;

verus! {

/// Yields the next live tunnel on the OUT side.
pub trait OutTunnelProvider {
    /// Blocks until a pairing completes and its tunnel is live.
    fn accept(&mut self) -> Result<TunnelEntry, ErrorKind>;
}

/// Yields the next live tunnel on the IN side.
pub trait InTunnelProvider {
    /// Blocks until a pairing completes and its tunnel is live.
    fn accept(&mut self) -> Result<TunnelEntry, ErrorKind>;
}

} // verus!
