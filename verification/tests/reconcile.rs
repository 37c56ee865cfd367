use acad::index::{Action, AppIndex, TrackAction};
use acad::model::{Playlist, SingleTrack, Track};
use acad::source::TrackStatus;

fn track(id: &str, idx: usize) -> Track {
    Track {
        id: id.to_string(),
        uploader: "uploader".to_string(),
        title: format!("Title {}", id),
        url: format!("https://example.com/{}", id),
        idx,
    }
}

fn single(id: &str) -> SingleTrack {
    SingleTrack {
        id: id.to_string(),
        uploader: "uploader".to_string(),
        title: format!("Title {}", id),
        url: format!("https://example.com/{}", id),
        idx: (),
    }
}

fn playlist(url: &str, entries: Vec<Track>) -> Playlist {
    Playlist {
        id: "pl1".to_string(),
        title: "My List".to_string(),
        url: url.to_string(),
        len: entries.len(),
        entries,
    }
}

const URL: &str = "https://example.com/list";

/// Drives one refresh cycle the way the embedding program does: diff,
/// status checks for the missing tracks, plan, commit.
fn run_cycle(
    index: &mut AppIndex,
    manifest: Playlist,
    status_of: impl Fn(&Track) -> TrackStatus,
) -> Vec<TrackAction> {
    let url = URL.to_string();
    let (_fresh, missing) = index.manifest_diff(&url, &manifest);
    let statuses: Vec<TrackStatus> = missing.iter().map(&status_of).collect();
    let plan = index.plan_source(&url, &manifest, &statuses);
    let actions = plan.actions();
    index.commit_source(&url, manifest, plan);
    actions
}

fn ids(tracks: &[Track]) -> Vec<&str> {
    tracks.iter().map(|t| t.id.as_str()).collect()
}

fn bucket_ids<'a>(index: &'a AppIndex, which: &str) -> Vec<&'a str> {
    let url = URL.to_string();
    let bucket = match which {
        "deleted" => index.deleted.get(&url),
        "removed" => index.removed.get(&url),
        "restricted" => index.restricted.get(&url),
        _ => panic!("unknown bucket"),
    };
    bucket.map(|ts| ids(ts)).unwrap_or_default()
}

fn entry_ids<'a>(index: &'a AppIndex) -> Vec<&'a str> {
    let url = URL.to_string();
    index
        .playlists
        .get(&url)
        .map(|p| ids(&p.entries))
        .unwrap_or_default()
}

fn initial_index() -> AppIndex {
    let mut index = AppIndex::new();
    let manifest = playlist(URL, vec![track("a", 0), track("b", 1), track("c", 2)]);
    let actions = run_cycle(&mut index, manifest, |_| panic!("nothing is missing"));
    assert_eq!(actions.len(), 3);
    assert!(actions.iter().all(|a| matches!(a.action, Action::Added)));
    index
}

#[test]
fn scenario_removed_track() {
    // entries [a(0), b(1), c(2)]; the next fetch returns [a(0), c(1)]
    // with b missing and still available: action Removed(b)
    let mut index = initial_index();
    let manifest = playlist(URL, vec![track("a", 0), track("c", 1)]);

    let actions = run_cycle(&mut index, manifest, |t| {
        assert_eq!(t.id, "b");
        TrackStatus::Available(single("b"))
    });

    assert_eq!(actions.len(), 1);
    assert!(matches!(actions[0].action, Action::Removed));
    assert_eq!(actions[0].track.id, "b");
    assert_eq!(bucket_ids(&index, "removed"), vec!["b"]);
    assert_eq!(entry_ids(&index), vec!["a", "c"]);
}

#[test]
fn scenario_deleted_track() {
    // same setup, but b's status check reports it gone: action
    // Deleted(b)
    let mut index = initial_index();
    let manifest = playlist(URL, vec![track("a", 0), track("c", 1)]);

    let actions = run_cycle(&mut index, manifest, |_| TrackStatus::NotFound);

    assert_eq!(actions.len(), 1);
    assert!(matches!(actions[0].action, Action::Deleted));
    assert_eq!(actions[0].track.id, "b");
    assert_eq!(bucket_ids(&index, "deleted"), vec!["b"]);
    assert_eq!(entry_ids(&index), vec!["a", "c"]);
}

#[test]
fn scenario_unremoved_track() {
    // after the removal, the next fetch includes b again: action
    // Unremoved(b), and b stands in the entries at its reported position
    let mut index = initial_index();
    let manifest = playlist(URL, vec![track("a", 0), track("c", 1)]);
    run_cycle(&mut index, manifest, |_| {
        TrackStatus::Available(single("b"))
    });

    let manifest = playlist(URL, vec![track("a", 0), track("b", 1), track("c", 2)]);
    let actions = run_cycle(&mut index, manifest, |_| panic!("nothing is missing"));

    assert_eq!(actions.len(), 1);
    assert!(matches!(actions[0].action, Action::Unremoved));
    assert_eq!(actions[0].track.id, "b");
    assert!(bucket_ids(&index, "removed").is_empty());
    assert_eq!(entry_ids(&index), vec!["a", "b", "c"]);
}

#[test]
fn restricted_reversal_round_trip() {
    // a track restricted in one cycle and available again in the next is
    // classified Unrestricted, leaves the restricted set, and is back in
    // the entries at its reported position — never in both
    let mut index = initial_index();
    let manifest = playlist(URL, vec![track("a", 0), track("c", 1)]);
    let actions = run_cycle(&mut index, manifest, |_| TrackStatus::Restricted);
    assert_eq!(actions.len(), 1);
    assert!(matches!(actions[0].action, Action::Restricted));
    assert_eq!(bucket_ids(&index, "restricted"), vec!["b"]);

    let manifest = playlist(URL, vec![track("a", 0), track("b", 1), track("c", 2)]);
    let actions = run_cycle(&mut index, manifest, |_| panic!("nothing is missing"));

    assert_eq!(actions.len(), 1);
    assert!(matches!(actions[0].action, Action::Unrestricted));
    assert_eq!(actions[0].track.id, "b");
    assert!(bucket_ids(&index, "restricted").is_empty());
    assert_eq!(entry_ids(&index), vec!["a", "b", "c"]);
}

#[test]
fn cycle_is_idempotent() {
    // an unchanged manifest with unchanged availability yields zero
    // actions and an unchanged index
    let mut index = initial_index();
    let manifest = playlist(URL, vec![track("a", 0), track("c", 1)]);
    run_cycle(&mut index, manifest, |_| TrackStatus::NotFound);
    assert_eq!(bucket_ids(&index, "deleted"), vec!["b"]);

    let manifest = playlist(URL, vec![track("a", 0), track("c", 1)]);
    let actions = run_cycle(&mut index, manifest, |_| panic!("nothing is missing"));

    assert!(actions.is_empty());
    assert_eq!(bucket_ids(&index, "deleted"), vec!["b"]);
    assert!(bucket_ids(&index, "removed").is_empty());
    assert!(bucket_ids(&index, "restricted").is_empty());
    assert_eq!(entry_ids(&index), vec!["a", "c"]);
}

#[test]
fn every_id_lives_in_exactly_one_bucket() {
    // after a completed cycle each id stands in exactly one of the
    // entries and the three sets
    let mut index = initial_index();
    let manifest = playlist(URL, vec![track("a", 0), track("d", 1)]);
    run_cycle(&mut index, manifest, |t| match t.id.as_str() {
        "b" => TrackStatus::NotFound,
        "c" => TrackStatus::Restricted,
        other => panic!("unexpected missing track {}", other),
    });

    let mut all: Vec<&str> = Vec::new();
    all.extend(entry_ids(&index));
    all.extend(bucket_ids(&index, "deleted"));
    all.extend(bucket_ids(&index, "removed"));
    all.extend(bucket_ids(&index, "restricted"));
    let mut sorted = all.clone();
    sorted.sort();
    sorted.dedup();
    assert_eq!(all.len(), sorted.len());
    sorted.sort();
    assert_eq!(sorted, vec!["a", "b", "c", "d"]);
}

#[test]
fn bookkeeping_precedes_downloads() {
    // with a removal and an addition in one cycle, the removal's action
    // stands strictly before the addition's
    let mut index = initial_index();
    let manifest = playlist(URL, vec![track("a", 0), track("c", 1), track("d", 2)]);

    let actions = run_cycle(&mut index, manifest, |_| {
        TrackStatus::Available(single("b"))
    });

    let removed_pos = actions
        .iter()
        .position(|a| matches!(a.action, Action::Removed))
        .expect("a Removed action");
    let added_pos = actions
        .iter()
        .position(|a| matches!(a.action, Action::Added))
        .expect("an Added action");
    assert_eq!(actions[removed_pos].track.id, "b");
    assert_eq!(actions[added_pos].track.id, "d");
    assert!(removed_pos < added_pos);
}

#[test]
fn reappearing_deleted_track_is_undeleted_not_added() {
    // a deleted track that the owner restores comes back as Undeleted,
    // not as a fresh addition
    let mut index = initial_index();
    let manifest = playlist(URL, vec![track("a", 0), track("c", 1)]);
    run_cycle(&mut index, manifest, |_| TrackStatus::NotFound);

    let manifest = playlist(URL, vec![track("a", 0), track("b", 1), track("c", 2)]);
    let actions = run_cycle(&mut index, manifest, |_| panic!("nothing is missing"));

    assert_eq!(actions.len(), 1);
    assert!(matches!(actions[0].action, Action::Undeleted));
    assert!(bucket_ids(&index, "deleted").is_empty());
    assert_eq!(entry_ids(&index), vec!["a", "b", "c"]);
}
