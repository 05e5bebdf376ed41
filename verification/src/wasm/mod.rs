//! The surface that an embedding host calls: loaded manifests behind handles,
//! an output and an error buffer, one dispatcher for all operations, and the
//! state that survives an upgrade of the module.

use vstd::prelude::*;

pub mod abi;
pub mod buffers;
pub mod invoke;
pub mod io;
pub mod memory;
pub mod snapshot_ops;
pub mod state;
pub mod v1;

verus! {

/// The version of the interface. It changes only where callers would break.
pub const AILIB_ABI_VERSION: u32 = 2;

} // verus!
