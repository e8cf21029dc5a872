//! Decisions the host function bindings make at the edge between
//! engine values and the library: argument normalization and the fixed
//! probe binding.

use vstd::prelude::*;

verus! {

/// The `next` host function's argument is optional: an absent argument
/// is treated as the empty string, so a call without a key starts the
/// scan before the first key.
pub fn normalize_next_key(arg: Option<String>) -> (k: String)
    ensures
        k@ == match arg {
            Some(s) => s@,
            None => Seq::<char>::empty(),
        },
{
    match arg {
        Some(s) => s,
        None => String::new(),
    }
}

/// The fixed-value probe binding: it returns this literal and nothing
/// else, and exists only to validate the binding mechanism itself.
pub fn probe_value() -> (r: u64)
    ensures
        r == 42,
{
    42
}

} // verus!
