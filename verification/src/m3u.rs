//! Playlist-file contents: one path per line, ordered by ascending
//! playlist position.
//!
//! The embedding program removes the old file and writes the computed
//! contents whole; this module computes those contents, and the sort
//! that normalizes a fetched manifest into position order.

use vstd::prelude::*;
use vstd::string::StringExecFns;

use crate::config::Paths;
use crate::index::clone_track;
use crate::model::{Playlist, Track};

verus! {

broadcast use vstd::seq_lib::group_to_multiset_ensures;

/// The tracks stand in ascending playlist-position order.
pub open spec fn sorted_by_position(ts: Seq<Track>) -> bool {
    forall|i: int, j: int|
        0 <= i < j < ts.len() ==> (#[trigger] ts[i]).idx <= (#[trigger] ts[j]).idx
}

/// Sorts tracks by playlist position: the result holds exactly the same
/// tracks, in ascending position order.
pub fn sort_by_position(tracks: &Vec<Track>) -> (r: Vec<Track>)
    ensures
        r@.to_multiset() == tracks@.to_multiset(),
        sorted_by_position(r@),
        r@.len() == tracks@.len(),
{
    let mut out: Vec<Track> = Vec::new();
    let mut i: usize = 0;
    while i < tracks.len()
        invariant
            i <= tracks@.len(),
            out@.len() == i,
            out@.to_multiset() == tracks@.subrange(0, i as int).to_multiset(),
            sorted_by_position(out@),
        decreases tracks@.len() - i,
    {
        let t = clone_track(&tracks[i]);
        let mut p: usize = 0;
        while p < out.len() && out[p].idx <= t.idx
            invariant
                p <= out@.len(),
                forall|q: int| 0 <= q < p ==> (#[trigger] out@[q]).idx <= t.idx,
            decreases out@.len() - p,
        {
            p = p + 1;
        }
        let ghost before = out@;
        out.insert(p, t);
        proof {
            before.insert_ensures(p as int, t);
            assert forall|a: int, b: int|
                0 <= a < b < out@.len() implies (#[trigger] out@[a]).idx <= (
            #[trigger] out@[b]).idx by {
                if b < p as int {
                    assert(out@[a] == before[a] && out@[b] == before[b]);
                } else if b == p as int {
                    assert(out@[a] == before[a]);
                } else if a < p as int {
                    assert(out@[a] == before[a] && out@[b] == before[b - 1]);
                    if p as int <= b - 1 {
                        assert(before[p as int].idx > t.idx);
                    }
                } else if a == p as int {
                    assert(out@[b] == before[b - 1]);
                    assert(before[p as int].idx > t.idx);
                    assert(b - 1 >= p as int);
                } else {
                    assert(out@[a] == before[a - 1] && out@[b] == before[b - 1]);
                }
            }
            assert(tracks@.subrange(0, i as int + 1) =~= tracks@.subrange(0, i as int).push(
                tracks@[i as int],
            ));
        }
        i = i + 1;
    }
    proof {
        assert(tracks@.subrange(0, tracks@.len() as int) =~= tracks@);
    }
    out
}

/// The line one track contributes to a playlist file: its path as the
/// configured player resolves it, ended by a newline.
pub open spec fn spec_entry_line(t: Track, mpd: Option<Seq<char>>) -> Seq<char> {
    match mpd {
        Some(dir) => dir + "/"@ + t.id@ + "/track.mp3"@ + "\n"@,
        None => t.id@ + "/track.mp3"@ + "\n"@,
    }
}

/// The whole playlist file: each track's line, in order.
pub open spec fn spec_playlist_lines(ts: Seq<Track>, mpd: Option<Seq<char>>) -> Seq<char>
    decreases ts.len(),
{
    if ts.len() == 0 {
        Seq::empty()
    } else {
        spec_playlist_lines(ts.drop_last(), mpd) + spec_entry_line(ts.last(), mpd)
    }
}

/// The view of an optional music-directory remap.
pub open spec fn spec_dir_view(mpd: Option<&String>) -> Option<Seq<char>> {
    match mpd {
        Some(dir) => Some(dir@),
        None => None,
    }
}

/// Computes a playlist file's contents from entries that stand in
/// position order, as the index keeps them.
pub fn playlist_file_contents(
    playlist: &Playlist,
    paths: &Paths,
    mpd_music_dir: Option<&String>,
) -> (r: String)
    requires
        sorted_by_position(playlist.entries@),
    ensures
        r@ == spec_playlist_lines(playlist.entries@, spec_dir_view(mpd_music_dir)),
{
    let ghost mpd = spec_dir_view(mpd_music_dir);
    let mut contents = String::new();
    let mut i: usize = 0;
    while i < playlist.entries.len()
        invariant
            i <= playlist.entries@.len(),
            contents@ == spec_playlist_lines(playlist.entries@.subrange(0, i as int), mpd),
            mpd == spec_dir_view(mpd_music_dir),
        decreases playlist.entries@.len() - i,
    {
        let handle = playlist.entries[i].as_handle(paths);
        let line = handle.playlist_entry_path(mpd_music_dir);
        contents.append(line.as_str());
        contents.append("\n");
        proof {
            let pre = playlist.entries@.subrange(0, i as int);
            let t = playlist.entries@[i as int];
            assert(playlist.entries@.subrange(0, i as int + 1) =~= pre.push(t));
            assert(pre.push(t).drop_last() =~= pre);
            assert(line@ + "\n"@ =~= spec_entry_line(t, mpd));
            assert(contents@ =~= spec_playlist_lines(pre, mpd) + spec_entry_line(t, mpd));
        }
        i = i + 1;
    }
    proof {
        assert(playlist.entries@.subrange(0, playlist.entries@.len() as int)
            =~= playlist.entries@);
    }
    contents
}

} // verus!
