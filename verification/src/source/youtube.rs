//! YouTube-specific interpretation of the fetch tool's diagnostic output.
//!
//! A playlist fetch whose diagnostics consist only of per-track
//! "unavailable" notices still produced a usable manifest; a failed
//! single-track fetch with one such notice means the track is restricted.

use vstd::prelude::*;

use crate::source::{any_line_contains, spec_any_line_contains, spec_http_404, TrackStatus};
use crate::util::{contains_str, line_views, spec_contains_sub};

verus! {

pub struct YouTube;

/// The marker of a benign per-track unavailability notice.
pub open spec fn spec_unavailable_line() -> Seq<char> {
    "Video unavailable"@
}

/// The marker of a private-video notice.
pub open spec fn spec_private_line() -> Seq<char> {
    "Private video"@
}

/// Every diagnostic line is a per-track unavailability notice.
pub open spec fn spec_all_unavailable(lines: Seq<Seq<char>>) -> bool {
    forall|i: int|
        0 <= i < lines.len() ==> spec_contains_sub(#[trigger] lines[i], spec_unavailable_line())
}

/// The status a failed single-track fetch implies from its diagnostic
/// lines: one unavailability or private-video notice means the track is
/// restricted, a missing-resource error means it is gone, and anything
/// else is not recognized.
pub open spec fn spec_classify_track_stderr(lines: Seq<Seq<char>>) -> Option<TrackStatus> {
    if lines.len() == 1 && (spec_contains_sub(lines[0], spec_unavailable_line())
        || spec_contains_sub(lines[0], spec_private_line())) {
        Some(TrackStatus::Restricted)
    } else if spec_any_line_contains(lines, spec_http_404()) {
        Some(TrackStatus::NotFound)
    } else {
        None
    }
}

impl YouTube {
    /// Whether a failed playlist fetch may still be used: every line of
    /// the diagnostic output is a per-track unavailability notice.
    pub fn playlist_stderr_benign(&self, lines: &Vec<String>) -> (r: bool)
        ensures
            r == spec_all_unavailable(line_views(lines@)),
    {
        let mut i: usize = 0;
        while i < lines.len()
            invariant
                i <= lines@.len(),
                forall|j: int|
                    0 <= j < i ==> spec_contains_sub(
                        #[trigger] line_views(lines@)[j],
                        spec_unavailable_line(),
                    ),
            decreases lines@.len() - i,
        {
            let ok = contains_str(lines[i].as_str(), "Video unavailable");
            proof {
                assert(line_views(lines@)[i as int] == lines@[i as int]@);
            }
            if !ok {
                return false;
            }
            i = i + 1;
        }
        true
    }

    /// Classifies the diagnostic output of a failed single-track fetch;
    /// `None` means the failure is not recognized and the fetch result
    /// must be treated as an error.
    pub fn classify_track_stderr(&self, lines: &Vec<String>) -> (r: Option<TrackStatus>)
        ensures
            r == spec_classify_track_stderr(line_views(lines@)),
    {
        if lines.len() == 1 {
            let unavailable = contains_str(lines[0].as_str(), "Video unavailable");
            let private = contains_str(lines[0].as_str(), "Private video");
            if unavailable || private {
                return Some(TrackStatus::Restricted);
            }
        }
        if any_line_contains(lines, "HTTP Error 404") {
            return Some(TrackStatus::NotFound);
        }
        None
    }
}

} // verus!
