//! Guest memory of an instruction-set simulator: a sparse, lazily paged store
//! of 32-bit cells with byte, half-word and word access, an addressable-range
//! check, and hardware watchpoints with a single pending-trigger latch.

pub mod cell;
pub mod laws;
pub mod memory;
pub mod watch;

pub use cell::MemAccessSize;
pub use memory::{Memory, GUEST_MAX_MEM, GUEST_MIN_MEM};
pub use watch::WatchKind;
