//! The monotonic clock, which std reads. Nothing here is proved.

use vstd::prelude::*;

verus! {

/// A reading of the monotonic clock.
#[verifier::external_type_specification]
#[verifier::external_body]
pub struct ExInstant(std::time::Instant);

/// `a` is earlier than `b`.
pub uninterp spec fn earlier(a: std::time::Instant, b: std::time::Instant) -> bool;

/// The instant `secs` seconds after `start`, where it can be represented.
pub uninterp spec fn seconds_after(start: std::time::Instant, secs: u64) -> Option<
    std::time::Instant,
>;

/// `Instant::now` of std. Nothing is claimed of what the clock says.
#[verifier::external_body]
pub(crate) fn now() -> (r: std::time::Instant) {
    std::time::Instant::now()
}

/// `Instant::checked_add` of std: the time `start` plus the seconds, if it can be
/// represented. Claimed is that the result depends on the arguments alone, that it is
/// later than `start` exactly where there are seconds to add, and that `start` itself
/// can be represented.
#[verifier::external_body]
pub(crate) fn add_seconds(start: std::time::Instant, secs: u64) -> (r: Option<std::time::Instant>)
    ensures
        r == seconds_after(start, secs),
        r matches Some(t) ==> earlier(start, t) == (secs > 0),
        secs == 0 ==> r is Some,
{
    start.checked_add(std::time::Duration::from_secs(secs))
}

/// The comparison `<` of std's `Instant`. Claimed is that the result depends on the
/// arguments alone.
#[verifier::external_body]
pub(crate) fn is_earlier(a: std::time::Instant, b: std::time::Instant) -> (r: bool)
    ensures
        r == earlier(a, b),
{
    a < b
}

} // verus!
