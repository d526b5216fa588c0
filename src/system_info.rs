//! Shared status of the tracker.
use vstd::prelude::*;

verus! {

/// The GPS duty-cycle state.
#[derive(Clone, Copy, Debug, PartialEq, Eq, Structural)]
pub enum GpsState {
    S0Initializing,
    S1GpsSearchingFix,
    S2IdleGpsOff,
    S3TrackingFixed,
    S4AnalyzingStillness,
    S5AgnssProcessing,
}

} // verus!
