//! The demo format the repository accepts.

use vstd::prelude::*;

verus! {

/// Bitrate, kbit/s, constant.
pub const BITRATE_KBPS: u32 = 128;

/// Sample rate, Hz.
pub const SAMPLE_RATE: u32 = 44_100;

/// Longest a demo may run, seconds.
pub const MAX_SECONDS: u64 = 20;

/// Largest a demo file may be, bytes: 350 KiB.
pub const MAX_BYTES: u64 = 358_400;

} // verus!
