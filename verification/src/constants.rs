//! Constants that the passes share.

use vstd::prelude::*;

verus! {

/// The size of the buffer through which binary files are read (256 MB).
pub const BUFFER_SIZE: usize = 268435456;

/// A pass reports its progress, and the memory simulation takes a snapshot, once in this many
/// gates.
pub const PROGRESS_UPDATE_INTERVAL: u32 = 1000;

} // verus!
