//! How many requests may be under way at once.
use vstd::prelude::*;

verus! {

/// How many replies may be read at once.
pub const MAX_CONCURRENT_STREAMS: usize = 3;

} // verus!
