//! The significance test: whether a candidate log carries new information
//! relative to a reference log of the same vehicle.
//!
//! The surface distance between the two positions is supplied by the caller, in
//! whole millimetres.

use vstd::prelude::*;
use crate::models::{Log, LogView};

verus! {

/// The distance, in millimetres, up to which two positions count as the same
/// place: ten metres.
pub const SAME_PLACE_MM: u64 = 10_000;

/// Two logs of one vehicle describe the same observation when they carry the
/// same instant, or lie no farther apart than [`SAME_PLACE_MM`].
pub open spec fn same_observation(reference: LogView, candidate: LogView, distance_mm: int) -> bool {
    reference.time == candidate.time || distance_mm <= SAME_PLACE_MM
}

/// A candidate is significant when it is not the same observation as its
/// reference: the instants differ and the distance exceeds the threshold.
pub open spec fn significant(reference: LogView, candidate: LogView, distance_mm: int) -> bool {
    reference.time != candidate.time && distance_mm > SAME_PLACE_MM
}

/// Decides whether `candidate` is significant against `reference`, the two
/// positions being `distance_mm` millimetres apart.
pub fn is_significant(reference: &Log, candidate: &Log, distance_mm: u64) -> (result: bool)
    ensures
        result == significant(reference@, candidate@, distance_mm as int),
{
    reference.time != candidate.time && distance_mm > SAME_PLACE_MM
}

/// Significance is the exact opposite of being the same observation.
pub proof fn lemma_significant_iff_not_same(reference: LogView, candidate: LogView, distance_mm: int)
    ensures
        significant(reference, candidate, distance_mm) == !same_observation(
            reference,
            candidate,
            distance_mm,
        ),
{
}

/// A distance of exactly ten metres is never significant, whatever the
/// instants; neither is any shorter one. Only a strictly greater distance,
/// together with differing instants, is.
pub proof fn lemma_threshold_boundary(reference: LogView, candidate: LogView, distance_mm: int)
    ensures
        distance_mm <= 10_000 ==> !significant(reference, candidate, distance_mm),
        !significant(reference, candidate, 10_000),
        significant(reference, candidate, distance_mm) <==> (reference.time != candidate.time
            && distance_mm >= 10_001),
{
}

/// Logs that carry the same instant are never significant, however far apart.
pub proof fn lemma_same_instant_is_not_significant(
    reference: LogView,
    candidate: LogView,
    distance_mm: int,
)
    requires
        reference.time == candidate.time,
    ensures
        !significant(reference, candidate, distance_mm),
{
}

} // verus!
