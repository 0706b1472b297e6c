//! Stream room engine: room lifecycle and admission control, frame
//! deduplication, per-room broadcast fan-out, a recording control state
//! machine, and resilience primitives (circuit breaker, bounded retry).
//!
//! Everything here is verified; network, storage and clock access live in
//! the surrounding application, which feeds plain values into these types.

pub mod assoc;
pub mod channel;
pub mod dedup;
pub mod engine;
pub mod envelope;
pub mod errors;
pub mod models;
pub mod monitoring;
pub mod recording;
pub mod resilience;
pub mod rooms;

use vstd::prelude::*;

verus! {

/// Saturating increment on a 32-bit counter.
pub open spec fn sat_inc32(x: u32) -> u32 {
    if x == u32::MAX {
        x
    } else {
        (x + 1) as u32
    }
}

/// Saturating increment on a 64-bit counter.
pub open spec fn sat_inc64(x: u64) -> u64 {
    if x == u64::MAX {
        x
    } else {
        (x + 1) as u64
    }
}

/// Saturating addition on a 64-bit counter.
pub open spec fn sat_add64(a: u64, b: u64) -> u64 {
    if a + b > u64::MAX {
        u64::MAX
    } else {
        (a + b) as u64
    }
}

} // verus!
