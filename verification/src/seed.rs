//! The seed of a new run, mixed from the wall-clock time.

use vstd::prelude::*;

verus! {

/// Constant folded into every run seed.
pub const RUN_SEED_SALT: u64 = 0xA5A5_5A5A_DEAD_BEEF;

/// `value` rotated left by seventeen bits.
pub open spec fn rotate_left_17(value: u64) -> u64 {
    (value << 17u64) | (value >> 47u64)
}

/// The run seed for a time given as whole seconds and the nanoseconds beyond
/// them: the seconds with the nanoseconds in the high word, xored with
/// itself rotated left by seventeen bits and with a salt.
pub open spec fn spec_run_seed(secs: u64, subsec_nanos: u32) -> u64 {
    let seed = secs ^ ((subsec_nanos as u64) << 32u64);
    seed ^ rotate_left_17(seed) ^ RUN_SEED_SALT
}

pub fn run_seed_from_time(secs: u64, subsec_nanos: u32) -> (seed: u64)
    ensures
        seed == spec_run_seed(secs, subsec_nanos),
{
    let seed = secs ^ ((subsec_nanos as u64) << 32);
    let rotated = (seed << 17) | (seed >> 47);
    seed ^ rotated ^ RUN_SEED_SALT
}

} // verus!
