//! Track manifests as the external fetch tool reports them, and the
//! naming of downloaded audio files.
//!
//! A playlist fetch emits one manifest per line; their order in the
//! output is the playlist order, so numbering them yields the tracks'
//! positions.

use vstd::prelude::*;
use vstd::string::StringExecFns;

use crate::model::Track;
use crate::util::{spec_decimal, usize_to_string};

verus! {

/// One track's manifest as reported by the fetch tool.
#[derive(Debug, Clone, PartialEq, Eq, Hash)]
pub struct TrackManifest {
    pub id: String,
    pub uploader: String,
    pub title: String,
    pub original_url: String,
    pub playlist_id: String,
}

/// A track manifest together with its position in the playlist.
#[derive(Debug, Clone, PartialEq, Eq, Hash)]
pub struct OrderedTrackManifest {
    pub idx: usize,
    pub manifest: TrackManifest,
}

impl OrderedTrackManifest {
    /// Converts this manifest into a playlist track, consuming it.
    pub fn into_track(self) -> (r: Track)
        ensures
            r.idx == self.idx,
            r.id == self.manifest.id,
            r.uploader == self.manifest.uploader,
            r.title == self.manifest.title,
            r.url == self.manifest.original_url,
    {
        Track {
            idx: self.idx,
            id: self.manifest.id,
            uploader: self.manifest.uploader,
            title: self.manifest.title,
            url: self.manifest.original_url,
        }
    }

    /// The playlist track this manifest denotes.
    pub fn as_track(&self) -> (r: Track)
        ensures
            r.idx == self.idx,
            r.id == self.manifest.id,
            r.uploader == self.manifest.uploader,
            r.title == self.manifest.title,
            r.url == self.manifest.original_url,
    {
        Track {
            idx: self.idx,
            id: self.manifest.id.clone(),
            uploader: self.manifest.uploader.clone(),
            title: self.manifest.title.clone(),
            url: self.manifest.original_url.clone(),
        }
    }
}

/// An explicit copy of a track manifest, equal to the original.
pub fn clone_manifest(m: &TrackManifest) -> (r: TrackManifest)
    ensures
        r == *m,
{
    TrackManifest {
        id: m.id.clone(),
        uploader: m.uploader.clone(),
        title: m.title.clone(),
        original_url: m.original_url.clone(),
        playlist_id: m.playlist_id.clone(),
    }
}

/// Numbers a fetched manifest list by position: the nth line of the
/// fetch tool's output is the nth track of the playlist.
pub fn order_manifests(manifests: &Vec<TrackManifest>) -> (r: Vec<OrderedTrackManifest>)
    ensures
        r@.len() == manifests@.len(),
        forall|i: int|
            0 <= i < r@.len() ==> (#[trigger] r@[i]).idx as int == i && r@[i].manifest
                == manifests@[i],
{
    let mut r: Vec<OrderedTrackManifest> = Vec::new();
    let mut i: usize = 0;
    while i < manifests.len()
        invariant
            i <= manifests@.len(),
            r@.len() == i,
            forall|k: int|
                0 <= k < i ==> (#[trigger] r@[k]).idx as int == k && r@[k].manifest
                    == manifests@[k],
        decreases manifests@.len() - i,
    {
        r.push(OrderedTrackManifest { idx: i, manifest: clone_manifest(&manifests[i]) });
        i = i + 1;
    }
    r
}

/// What slugify::slugify returns for a title, with no stop words,
/// separator `-` and a 32-character cap.
pub uninterp spec fn slug_of(s: Seq<char>) -> Seq<char>;

/// Relies on slugify::slugify: the slug depends on the title text alone.
#[verifier::external_body]
fn title_slug(title: &str) -> (r: String)
    ensures
        r@ == slug_of(title@),
{
    slugify::slugify(title, "", "-", Some(32))
}

/// The audio file name a track is stored under: its playlist position
/// and a slug of its title; the track id stands in when the title slugs
/// to nothing.
pub fn track_filename(track: &Track) -> (r: String)
    ensures
        slug_of(track.title@).len() == 0 ==> r@ == spec_decimal(track.idx as nat) + "_"@
            + track.id@ + ".mp3"@,
        slug_of(track.title@).len() != 0 ==> r@ == spec_decimal(track.idx as nat) + "_"@ + slug_of(
            track.title@,
        ) + ".mp3"@,
{
    let slug = title_slug(track.title.as_str());
    let base = if slug.as_str().is_empty() {
        track.id.clone()
    } else {
        slug
    };
    usize_to_string(track.idx).concat("_").concat(base.as_str()).concat(".mp3")
}

} // verus!
