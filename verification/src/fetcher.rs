//! The single-track status a fetch attempt can report, as an earlier
//! fetch layout named it. The fetch itself — spawning the external tool
//! and reading its output — belongs to the embedding program.

use vstd::prelude::*;

use crate::model::SingleTrack;

verus! {

/// What a single-track status probe reported.
#[derive(Debug, Clone)]
pub enum TrackStatus {
    /// The track exists but is currently inaccessible.
    Restricted,
    /// The track still exists; its manifest is attached.
    Available(SingleTrack),
    /// The track no longer exists on the service.
    NotFound,
}

} // verus!
