use acad::config::Paths;
use acad::index::Action;
use acad::model::{Playlist, Track};

fn test_track() -> Track {
    Track {
        id: "1234567890".to_string(),
        uploader: "uploader".to_string(),
        title: "title".to_string(),
        url: "https://example.com/fakeuser/track-slug".to_string(),
        idx: 0,
    }
}

#[test]
fn test_track_handles() {
    let paths = Paths::from_root("/tmp/ACAD_TESTS".to_string());

    let track = test_track();
    let handle = track.as_handle(&paths);

    assert_eq!(
        handle.track_path,
        "/tmp/ACAD_TESTS/audio/1234567890/track.mp3"
    );
    assert_eq!(handle.playlist_entry_path(None), "1234567890/track.mp3");
}

#[test]
fn paths_from_root() {
    let paths = Paths::from_root("/data".to_string());
    assert_eq!(paths.root, "/data");
    assert_eq!(paths.index, "/data/index.json");
    assert_eq!(paths.playlists, "/data/playlists");
    assert_eq!(paths.audio, "/data/audio");
}

#[test]
fn playlist_handle_path() {
    let paths = Paths::from_root("/data".to_string());
    let playlist = Playlist {
        id: "pl1".to_string(),
        title: "My List".to_string(),
        entries: Vec::new(),
        url: "https://example.com/list".to_string(),
        len: 0,
    };
    assert_eq!(playlist.as_handle(&paths).m3u_path, "/data/playlists/pl1.m3u");
}

#[test]
fn entry_path_with_music_dir_remap() {
    let paths = Paths::from_root("/data".to_string());
    let handle = test_track().as_handle(&paths);
    let remap = "/music".to_string();
    assert_eq!(
        handle.playlist_entry_path(Some(&remap)),
        "/music/1234567890/track.mp3"
    );
}

#[test]
fn marker_message_text() {
    let playlist = Playlist {
        id: "pl1".to_string(),
        title: "My List".to_string(),
        entries: Vec::new(),
        url: "https://example.com/list".to_string(),
        len: 0,
    };
    assert_eq!(
        Action::Deleted.marker_message(&playlist),
        "This track was deleted. My List (pl1)\n"
    );
    assert_eq!(
        Action::Added.marker_message(&playlist),
        "This track was added to the playlist. My List (pl1)\n"
    );
    assert_eq!(
        Action::Unrestricted.marker_message(&playlist),
        "This track was no longer restricted. My List (pl1)\n"
    );
}

#[test]
fn every_action_has_operations() {
    let actions = [
        Action::Added,
        Action::Removed,
        Action::Unremoved,
        Action::Deleted,
        Action::Undeleted,
        Action::Restricted,
        Action::Unrestricted,
    ];
    for action in actions {
        let ops = action.necessary_operations();
        assert!(!ops.is_empty());
        for op in ops {
            match op {
                acad::index::Operation::Download => {
                    assert!(matches!(action, Action::Added))
                }
                acad::index::Operation::AddMetadataMarker(marked) => {
                    assert!(!matches!(action, Action::Added));
                    assert!(!matches!(marked, Action::Added));
                }
            }
        }
    }
}
