//! The data model: tracks, playlists, and the on-disk locations derived
//! from them.
//!
//! Identity of a track is its `id`, assigned by the remote service and
//! stable across refresh cycles. Paths are plain strings; the handle types
//! hold the locations a track or playlist occupies under the configured
//! data folder.

use vstd::prelude::*;
use vstd::string::StringExecFns;

use crate::config::Paths;

verus! {

/// A playlist as fetched from a source: the manifest.
#[derive(Debug, Clone)]
pub struct Playlist {
    pub id: String,
    pub title: String,
    /// The authoritative playback order; must match ascending `idx`.
    pub entries: Vec<Track>,
    pub url: String,
    pub len: usize,
}

/// A track record. `T` is the type of the playlist-position field: a track
/// inside a playlist manifest carries its ordinal, a track fetched on its
/// own does not.
#[derive(Debug, Clone)]
pub struct RawTrack<T> {
    pub id: String,
    pub uploader: String,
    pub title: String,
    pub url: String,
    /// The position of this track within its playlist, if any.
    pub idx: T,
}

/// A track that is part of a playlist.
pub type Track = RawTrack<usize>;

/// A track that may or may not be part of a playlist.
pub type SingleTrack = RawTrack<()>;

/// The locations a playlist occupies on disk.
#[derive(Debug, Clone)]
pub struct PlaylistHandle {
    pub m3u_path: String,
}

/// The locations a track occupies on disk. `rel_path` is the track file's
/// path relative to the audio directory.
#[derive(Debug, Clone)]
pub struct TrackHandle {
    pub root_dir: String,
    pub track_path: String,
    pub album_art_path: String,
    pub rel_path: String,
}

impl Playlist {
    /// The M3U file this playlist is written to.
    pub fn as_handle(&self, paths: &Paths) -> (r: PlaylistHandle)
        ensures
            r.m3u_path@ == paths.playlists@ + "/"@ + self.id@ + ".m3u"@,
    {
        let m3u_path = paths.playlists.clone().concat("/").concat(self.id.as_str()).concat(".m3u");
        PlaylistHandle { m3u_path }
    }
}

impl Track {
    /// The directory and files this track occupies under the audio
    /// directory.
    pub fn as_handle(&self, paths: &Paths) -> (r: TrackHandle)
        ensures
            r.root_dir@ == paths.audio@ + "/"@ + self.id@,
            r.track_path@ == paths.audio@ + "/"@ + self.id@ + "/track.mp3"@,
            r.album_art_path@ == paths.audio@ + "/"@ + self.id@ + "/cover.jpg"@,
            r.rel_path@ == self.id@ + "/track.mp3"@,
    {
        let root_dir = paths.audio.clone().concat("/").concat(self.id.as_str());
        let track_path = root_dir.clone().concat("/track.mp3");
        let album_art_path = root_dir.clone().concat("/cover.jpg");
        let rel_path = self.id.clone().concat("/track.mp3");

        TrackHandle { root_dir, track_path, album_art_path, rel_path }
    }
}

impl TrackHandle {
    /// The path of this track as written into a playlist file.
    ///
    /// With no music-directory remap the line is the track's path relative
    /// to the audio directory; with a remap the relative path is appended
    /// to the remap root, so that a player with a different view of the
    /// filesystem still resolves the entry.
    pub fn playlist_entry_path(&self, mpd_music_dir: Option<&String>) -> (r: String)
        ensures
            mpd_music_dir matches Some(d) ==> r@ == d@ + "/"@ + self.rel_path@,
            mpd_music_dir is None ==> r@ == self.rel_path@,
    {
        match mpd_music_dir {
            Some(dir) => dir.clone().concat("/").concat(self.rel_path.as_str()),
            None => self.rel_path.clone(),
        }
    }
}

} // verus!
