use embassy_time::Duration;
use vstd::prelude::*;

verus! {

/// Declares `embassy_time::Duration`, a number of clock ticks, which is carried through as it is.
#[verifier::external_type_specification]
#[verifier::external_body]
pub struct ExDuration(embassy_time::Duration);

/// The duration that `embassy_time::Duration::from_millis` makes of a number of milliseconds.
pub uninterp spec fn duration_of_millis(millis: u64) -> Duration;

/// `embassy_time::Duration::from_millis` gives the duration of `millis` milliseconds, rounded up
/// to whole clock ticks. It depends on `millis` alone within one firmware. How many ticks it is
/// depends on the tick rate that the firmware is built with, and is left unsaid. The bound keeps
/// the product that it computes within its integers at every tick rate on offer.
pub assume_specification[ embassy_time::Duration::from_millis ](millis: u64) -> (d: Duration)
    requires
        millis <= 1_000_000_000,
    ensures
        d == duration_of_millis(millis),
;

} // verus!
