use acad::config::Paths;
use acad::m3u::{playlist_file_contents, sort_by_position};
use acad::model::{Playlist, Track};
use acad::model::SingleTrack;
use acad::source::{track_status_from_manifest, TrackStatus};
use acad::source::soundcloud::SoundCloud;
use acad::source::youtube::YouTube;
use acad::ytdl::{order_manifests, track_filename, OrderedTrackManifest, TrackManifest};

fn track(id: &str, idx: usize) -> Track {
    Track {
        id: id.to_string(),
        uploader: "uploader".to_string(),
        title: format!("Title {}", id),
        url: format!("https://example.com/{}", id),
        idx,
    }
}

const GEO_1: &str =
    "ERROR: This video is not available from your location due to geo restriction";
const GEO_2: &str = "You might want to use a VPN or a proxy server to work around that";

#[test]
fn playlist_contents_in_position_order() {
    let paths = Paths::from_root("/data".to_string());
    let playlist = Playlist {
        id: "pl1".to_string(),
        title: "My List".to_string(),
        entries: vec![track("a", 0), track("b", 1)],
        url: "https://example.com/list".to_string(),
        len: 2,
    };
    assert_eq!(
        playlist_file_contents(&playlist, &paths, None),
        "a/track.mp3\nb/track.mp3\n"
    );
    let remap = "/music".to_string();
    assert_eq!(
        playlist_file_contents(&playlist, &paths, Some(&remap)),
        "/music/a/track.mp3\n/music/b/track.mp3\n"
    );
}

#[test]
fn sorting_by_position() {
    let unsorted = vec![track("c", 2), track("a", 0), track("b", 1)];
    let sorted = sort_by_position(&unsorted);
    let ids: Vec<&str> = sorted.iter().map(|t| t.id.as_str()).collect();
    assert_eq!(ids, vec!["a", "b", "c"]);
}

#[test]
fn empty_playlist_contents() {
    let paths = Paths::from_root("/data".to_string());
    let playlist = Playlist {
        id: "pl1".to_string(),
        title: "My List".to_string(),
        entries: Vec::new(),
        url: "https://example.com/list".to_string(),
        len: 0,
    };
    assert_eq!(playlist_file_contents(&playlist, &paths, None), "");
}

#[test]
fn filename_from_title_slug() {
    let mut t = track("1234567890", 3);
    t.title = "Hello World!".to_string();
    assert_eq!(track_filename(&t), "3_hello-world.mp3");
}

#[test]
fn filename_falls_back_to_id() {
    let mut t = track("1234567890", 12);
    t.title = "!!!".to_string();
    assert_eq!(track_filename(&t), "12_1234567890.mp3");
}

#[test]
fn ordering_manifests() {
    let manifests = vec![
        TrackManifest {
            id: "a".to_string(),
            uploader: "u".to_string(),
            title: "ta".to_string(),
            original_url: "https://example.com/a".to_string(),
            playlist_id: "pl1".to_string(),
        },
        TrackManifest {
            id: "b".to_string(),
            uploader: "u".to_string(),
            title: "tb".to_string(),
            original_url: "https://example.com/b".to_string(),
            playlist_id: "pl1".to_string(),
        },
    ];
    let ordered = order_manifests(&manifests);
    assert_eq!(ordered.len(), 2);
    assert_eq!(ordered[0].idx, 0);
    assert_eq!(ordered[1].idx, 1);
    assert_eq!(ordered[1].manifest.id, "b");

    let t = ordered[0].as_track();
    assert_eq!(t.id, "a");
    assert_eq!(t.uploader, "u");
    assert_eq!(t.title, "ta");
    assert_eq!(t.url, "https://example.com/a");
    assert_eq!(t.idx, 0);

    let owned = OrderedTrackManifest {
        idx: 5,
        manifest: manifests[1].clone(),
    };
    let t = owned.into_track();
    assert_eq!(t.id, "b");
    assert_eq!(t.idx, 5);
}

#[test]
fn soundcloud_geo_pairs_are_benign() {
    let sc = SoundCloud;
    let lines = vec![
        GEO_1.to_string(),
        GEO_2.to_string(),
        GEO_1.to_string(),
        GEO_2.to_string(),
    ];
    assert!(sc.playlist_stderr_benign(&lines));
    assert!(sc.playlist_stderr_benign(&Vec::new()));

    let broken = vec![GEO_1.to_string()];
    assert!(!sc.playlist_stderr_benign(&broken));
    let other = vec![GEO_1.to_string(), "something else".to_string()];
    assert!(!sc.playlist_stderr_benign(&other));
}

#[test]
fn soundcloud_track_stderr_classification() {
    let sc = SoundCloud;
    let restricted = vec![GEO_1.to_string(), GEO_2.to_string()];
    assert!(matches!(
        sc.classify_track_stderr(&restricted),
        Some(TrackStatus::Restricted)
    ));
    let gone = vec!["ERROR: HTTP Error 404: Not Found".to_string()];
    assert!(matches!(
        sc.classify_track_stderr(&gone),
        Some(TrackStatus::NotFound)
    ));
    let unknown = vec!["ERROR: connection reset".to_string()];
    assert!(sc.classify_track_stderr(&unknown).is_none());
}

#[test]
fn youtube_unavailable_lines_are_benign() {
    let yt = YouTube;
    let lines = vec![
        "ERROR: Video unavailable".to_string(),
        "ERROR: Video unavailable (removed)".to_string(),
    ];
    assert!(yt.playlist_stderr_benign(&lines));
    let mixed = vec![
        "ERROR: Video unavailable".to_string(),
        "ERROR: something else".to_string(),
    ];
    assert!(!yt.playlist_stderr_benign(&mixed));
}

#[test]
fn youtube_track_stderr_classification() {
    let yt = YouTube;
    let unavailable = vec!["ERROR: Video unavailable".to_string()];
    assert!(matches!(
        yt.classify_track_stderr(&unavailable),
        Some(TrackStatus::Restricted)
    ));
    let private = vec!["ERROR: Private video".to_string()];
    assert!(matches!(
        yt.classify_track_stderr(&private),
        Some(TrackStatus::Restricted)
    ));
    let gone = vec!["ERROR: HTTP Error 404: Not Found".to_string()];
    assert!(matches!(
        yt.classify_track_stderr(&gone),
        Some(TrackStatus::NotFound)
    ));
    let unknown = vec![
        "ERROR: Video unavailable".to_string(),
        "ERROR: Video unavailable".to_string(),
    ];
    assert!(yt.classify_track_stderr(&unknown).is_none());
}

#[test]
fn status_from_parsed_manifest() {
    let parsed = SingleTrack {
        id: "a".to_string(),
        uploader: "u".to_string(),
        title: "t".to_string(),
        url: "https://example.com/a".to_string(),
        idx: (),
    };
    assert!(matches!(
        track_status_from_manifest(Some(parsed)),
        TrackStatus::Available(_)
    ));
    assert!(matches!(
        track_status_from_manifest(None),
        TrackStatus::NotFound
    ));
}
