//! Startup configuration: read once, immutable afterwards.

use vstd::prelude::*;

verus! {

/// The request-independent options read at startup: a single numeric
/// seed, default zero, reserved for features that need deterministic
/// variability; the core reads it nowhere else.
pub struct Opts {
    /// The numeric seed.
    pub seed: u64,
}

impl Opts {
    pub fn new(seed: u64) -> (o: Opts)
        ensures
            o.seed == seed,
    {
        Opts { seed }
    }
}

impl Default for Opts {
    /// Without a seed on the command line, the seed is zero.
    fn default() -> (o: Opts)
        ensures
            o.seed == 0,
    {
        Opts { seed: 0 }
    }
}

} // verus!
