//! Per-service fetch capability: the source-kind tag, the definition of a
//! configured source, and the classification of what a fetch attempt
//! reported about a single track.
//!
//! Spawning the external download tool and reading its output belongs to
//! the embedding program; this module holds the decision logic: which
//! diagnostic output is benign, and what a track's fetch result means.

use vstd::prelude::*;

use crate::model::SingleTrack;
use crate::util::{contains_str, line_views, spec_contains_sub};

pub mod soundcloud;
pub mod youtube;

verus! {

/// The marker of a missing-resource error in the fetch tool's output.
pub open spec fn spec_http_404() -> Seq<char> {
    "HTTP Error 404"@
}

/// Some diagnostic line contains `needle`.
pub open spec fn spec_any_line_contains(lines: Seq<Seq<char>>, needle: Seq<char>) -> bool {
    exists|i: int| 0 <= i < lines.len() && spec_contains_sub(#[trigger] lines[i], needle)
}

/// Whether any of `lines` contains `needle` as a substring.
pub fn any_line_contains(lines: &Vec<String>, needle: &str) -> (r: bool)
    ensures
        r == spec_any_line_contains(line_views(lines@), needle@),
{
    let mut i: usize = 0;
    while i < lines.len()
        invariant
            i <= lines@.len(),
            forall|j: int|
                0 <= j < i ==> !spec_contains_sub(#[trigger] line_views(lines@)[j], needle@),
        decreases lines@.len() - i,
    {
        let found = contains_str(lines[i].as_str(), needle);
        proof {
            assert(line_views(lines@)[i as int] == lines@[i as int]@);
        }
        if found {
            return true;
        }
        i = i + 1;
    }
    false
}

/// The kind of service a source lives on.
#[derive(Debug, Clone, Copy, PartialEq, Eq, Structural)]
pub enum SourceType {
    SoundCloud,
    YouTube,
}

/// One configured playlist to monitor.
#[derive(Debug, Clone)]
pub struct SourceDefinition {
    pub kind: SourceType,
    pub url: String,
    pub inactive: bool,
}

/// What a single-track status check reported.
#[derive(Debug, Clone)]
pub enum TrackStatus {
    /// The track exists but is currently inaccessible (private,
    /// geo-restricted, etc.).
    Restricted,
    /// The track still exists; its current manifest is attached.
    Available(SingleTrack),
    /// The track no longer exists on the service.
    NotFound,
}

/// Whether a download request actually transferred anything.
#[derive(Debug, Clone, Copy)]
pub enum TrackDownloadStatus {
    Downloaded,
    AlreadyDownloaded,
}

/// The status a successful single-track fetch implies: a manifest that
/// parsed means the track is available; one that did not parse means the
/// track is gone (services answer with an error page once a track has been
/// deleted or made private).
pub fn track_status_from_manifest(parsed: Option<SingleTrack>) -> (r: TrackStatus)
    ensures
        parsed matches Some(t) ==> r == TrackStatus::Available(t),
        parsed is None ==> r is NotFound,
{
    match parsed {
        Some(track) => TrackStatus::Available(track),
        None => TrackStatus::NotFound,
    }
}

} // verus!
