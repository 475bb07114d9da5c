//! Spans of time, as `std::time::Duration` gives them.

use vstd::prelude::*;
use std::time::Duration;

verus! {

/// The span `Duration::from_secs` makes of a number of seconds.
pub uninterp spec fn duration_from_secs(secs: u64) -> Duration;

/// Whether a span is empty, as `Duration::is_zero` reports it.
pub uninterp spec fn duration_is_zero(span: Duration) -> bool;

/// `Duration`'s `clone`: `Duration` is `Copy`, so the clone is the same value.
pub assume_specification[ <Duration as Clone>::clone ](d: &Duration) -> (r: Duration)
    ensures
        r == *d,
;

/// `Duration::from_secs`: the span of `n` whole seconds, which is empty exactly
/// when `n` is zero.
#[verifier::external_body]
pub(crate) fn seconds(n: u64) -> (d: Duration)
    ensures
        d == duration_from_secs(n),
        duration_is_zero(d) == (n == 0),
{
    Duration::from_secs(n)
}

/// `Duration::is_zero`: whether the span is empty.
#[verifier::external_body]
pub(crate) fn is_zero_span(d: &Duration) -> (r: bool)
    ensures
        r == duration_is_zero(*d),
{
    d.is_zero()
}

} // verus!
