//! SoundCloud-specific interpretation of the fetch tool's diagnostic
//! output.
//!
//! A playlist fetch may fail with exit status 1 even though a usable
//! manifest was produced, when single tracks were skipped for geo
//! restriction. Such a skip is reported as a recognized pair of warning
//! lines; output consisting only of such pairs is benign.

use vstd::prelude::*;

use crate::source::{any_line_contains, spec_any_line_contains, spec_http_404, TrackStatus};
use crate::util::{contains_str, line_views, spec_contains_sub};

verus! {

pub struct SoundCloud;

/// The first line of the benign geo-restriction warning pair.
pub open spec fn spec_geo_line_1() -> Seq<char> {
    "This video is not available from your location due to geo restriction"@
}

/// The second line of the benign geo-restriction warning pair.
pub open spec fn spec_geo_line_2() -> Seq<char> {
    "You might want to use a VPN or a proxy server"@
}

/// Two consecutive diagnostic lines that form one benign geo-restriction
/// warning.
pub open spec fn spec_is_geo_pair(l1: Seq<char>, l2: Seq<char>) -> bool {
    spec_contains_sub(l1, spec_geo_line_1()) && spec_contains_sub(l2, spec_geo_line_2())
}

/// The diagnostic output consists of nothing but geo-restriction warning
/// pairs.
pub open spec fn spec_geo_pairs_only(lines: Seq<Seq<char>>) -> bool {
    &&& lines.len() % 2 == 0
    &&& forall|i: int|
        #![trigger lines[i]]
        0 <= i < lines.len() && i % 2 == 0 ==> spec_is_geo_pair(lines[i], lines[i + 1])
}

/// The status a failed single-track fetch implies from its diagnostic
/// lines: a lone geo-restriction pair means the track is restricted, a
/// missing-resource error means it is gone, and anything else is not
/// recognized.
pub open spec fn spec_classify_track_stderr(lines: Seq<Seq<char>>) -> Option<TrackStatus> {
    if lines.len() == 2 && spec_is_geo_pair(lines[0], lines[1]) {
        Some(TrackStatus::Restricted)
    } else if spec_any_line_contains(lines, spec_http_404()) {
        Some(TrackStatus::NotFound)
    } else {
        None
    }
}

impl SoundCloud {
    /// Whether a failed playlist fetch may still be used: every line of
    /// the diagnostic output belongs to a geo-restriction warning pair.
    pub fn playlist_stderr_benign(&self, lines: &Vec<String>) -> (r: bool)
        ensures
            r == spec_geo_pairs_only(line_views(lines@)),
    {
        if lines.len() % 2 != 0 {
            return false;
        }
        let mut i: usize = 0;
        while i < lines.len()
            invariant
                i % 2 == 0,
                i <= lines@.len(),
                lines@.len() % 2 == 0,
                forall|j: int|
                    #![trigger line_views(lines@)[j]]
                    0 <= j < i && j % 2 == 0 ==> spec_is_geo_pair(
                        line_views(lines@)[j],
                        line_views(lines@)[j + 1],
                    ),
            decreases lines@.len() - i,
        {
            let ok1 = contains_str(
                lines[i].as_str(),
                "This video is not available from your location due to geo restriction",
            );
            let ok2 = contains_str(
                lines[i + 1].as_str(),
                "You might want to use a VPN or a proxy server",
            );
            proof {
                assert(line_views(lines@)[i as int] == lines@[i as int]@);
                assert(line_views(lines@)[i as int + 1] == lines@[i as int + 1]@);
            }
            if !ok1 || !ok2 {
                return false;
            }
            i = i + 2;
        }
        true
    }

    /// Classifies the diagnostic output of a failed single-track fetch;
    /// `None` means the failure is not recognized and the fetch result
    /// must be treated as an error.
    pub fn classify_track_stderr(&self, lines: &Vec<String>) -> (r: Option<TrackStatus>)
        ensures
            r == spec_classify_track_stderr(line_views(lines@)),
    {
        if lines.len() == 2 {
            let ok1 = contains_str(
                lines[0].as_str(),
                "This video is not available from your location due to geo restriction",
            );
            let ok2 = contains_str(
                lines[1].as_str(),
                "You might want to use a VPN or a proxy server",
            );
            if ok1 && ok2 {
                return Some(TrackStatus::Restricted);
            }
        }
        if any_line_contains(lines, "HTTP Error 404") {
            return Some(TrackStatus::NotFound);
        }
        None
    }
}

} // verus!
