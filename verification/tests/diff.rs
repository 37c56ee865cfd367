use acad::index::{split_by_presence, AppIndex};
use acad::model::{Playlist, Track};
use acad::util;

fn track(id: &str, idx: usize) -> Track {
    Track {
        id: id.to_string(),
        uploader: "uploader".to_string(),
        title: id.to_string(),
        url: format!("https://example.com/{}", id),
        idx,
    }
}

fn playlist(id: &str, url: &str, entries: Vec<Track>) -> Playlist {
    Playlist {
        id: id.to_string(),
        title: format!("Playlist {}", id),
        url: url.to_string(),
        len: entries.len(),
        entries,
    }
}

#[test]
fn diff_with() {
    let before = vec!["old1", "old2", "both"];
    let after = vec!["new1", "both", "new2"];

    let (added, removed) = util::diff_with(&before, &after, |i1, i2| i1 == i2);

    assert_eq!(added, vec![&"new1", &"new2"]);
    assert_eq!(removed, vec![&"old1", &"old2"]);
}

#[test]
fn diff_ref_with() {
    let before = vec!["old1", "old2", "both"];
    let after = vec!["new1", "both", "new2"];
    let after_refs = after.iter().collect::<Vec<_>>();

    let (added, removed) = util::diff_ref_with(&before, after_refs, |i1, i2| i1 == i2);

    assert_eq!(added, vec![&"new1", &"new2"]);
    assert_eq!(removed, vec![&"old1", &"old2"]);
}

#[test]
fn split_by_presence_orders_and_partitions() {
    let xs = vec![track("a", 0), track("b", 1), track("c", 2)];
    let ys = vec![track("c", 0), track("a", 1)];

    let (present, absent) = split_by_presence(&xs, &ys);

    let present_ids: Vec<&str> = present.iter().map(|t| t.id.as_str()).collect();
    let absent_ids: Vec<&str> = absent.iter().map(|t| t.id.as_str()).collect();
    assert_eq!(present_ids, vec!["a", "c"]);
    assert_eq!(absent_ids, vec!["b"]);
}

#[test]
fn manifest_diff_id_sets() {
    // added ids are disjoint from the old ids, missing ids are disjoint
    // from the new ids, and (old - missing) + added equals new
    let index = {
        let mut index = AppIndex::new();
        let url = "https://example.com/list".to_string();
        let manifest = playlist("pl", &url, vec![track("a", 0), track("b", 1), track("c", 2)]);
        let plan = index.plan_source(&url, &manifest, &Vec::new());
        index.commit_source(&url, manifest, plan);
        index
    };
    let url = "https://example.com/list".to_string();
    let manifest = playlist("pl", &url, vec![track("a", 0), track("c", 1), track("d", 2)]);

    let (fresh, missing) = index.manifest_diff(&url, &manifest);

    let fresh_ids: Vec<&str> = fresh.iter().map(|t| t.id.as_str()).collect();
    let missing_ids: Vec<&str> = missing.iter().map(|t| t.id.as_str()).collect();
    assert_eq!(fresh_ids, vec!["d"]);
    assert_eq!(missing_ids, vec!["b"]);
    // (old \ missing) + added == new, as id sets
    let mut reconstructed = vec!["a", "c"];
    reconstructed.extend(fresh_ids.iter());
    let mut new_ids = vec!["a", "c", "d"];
    reconstructed.sort();
    new_ids.sort();
    assert_eq!(reconstructed, new_ids);
}

#[test]
fn manifest_diff_without_prior_manifest_adds_everything() {
    let index = AppIndex::new();
    let url = "https://example.com/list".to_string();
    let manifest = playlist("pl", &url, vec![track("a", 0), track("b", 1)]);

    let (fresh, missing) = index.manifest_diff(&url, &manifest);

    assert_eq!(fresh.len(), 2);
    assert!(missing.is_empty());
}
