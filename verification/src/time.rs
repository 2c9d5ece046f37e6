//! Durations, counted in nanoseconds.

use vstd::prelude::*;
use core::time::Duration;

verus! {

/// The nanoseconds of a duration.
pub uninterp spec fn whole_nanos(d: Duration) -> u128;

/// `Duration::as_nanos` of std: the nanoseconds of a duration, named here since
/// a duration is opaque.
pub assume_specification[ Duration::as_nanos ](d: &Duration) -> (r: u128)
    ensures
        r == whole_nanos(*d),
;

/// `Duration::from_secs` of std: a duration of so many whole seconds.
pub assume_specification[ Duration::from_secs ](secs: u64) -> (r: Duration)
    ensures
        whole_nanos(r) == secs * 1_000_000_000,
;

} // verus!
