//! The persisted index and the reconciliation engine.
//!
//! The index is the sole durable state: per source URL it records the
//! current playlist manifest and the sets of tracks known to be deleted,
//! removed or restricted. A refresh cycle fetches a fresh manifest, diffs
//! it against the index, classifies every change into an [`Action`], and
//! commits the new per-source state. A track id lives in exactly one of
//! the four per-source sets at any time; transitions between them are the
//! actions, and each action maps to the concrete [`Operation`]s that
//! realize it on disk.

use vstd::prelude::*;
use vstd::seq_lib::*;
use vstd::string::StringExecFns;

use crate::model::{Playlist, Track};
use crate::source::TrackStatus;
use crate::util::{lemma_filter_drops_all, lemma_filter_is_subset, lemma_filter_push,
    lemma_filter_retains_all};

verus! {

broadcast use vstd::seq_lib::group_filter_ensures;

/// A map from source URL to per-source data, stored as an association
/// list with pairwise distinct keys.
pub struct UrlMap<V> {
    entries: Vec<(String, V)>,
}

/// The keys of an association list are pairwise distinct.
pub open spec fn unique_keys<V>(s: Seq<(String, V)>) -> bool {
    forall|i: int, j: int|
        0 <= i < j < s.len() ==> (#[trigger] s[i]).0@ != (#[trigger] s[j]).0@
}

impl<V> UrlMap<V> {
    /// The mathematical map an association list denotes; a later entry
    /// would win, though well-formed maps never hold a key twice.
    pub closed spec fn assoc_map(s: Seq<(String, V)>) -> Map<Seq<char>, V>
        decreases s.len(),
    {
        if s.len() == 0 {
            Map::empty()
        } else {
            Self::assoc_map(s.drop_last()).insert(s.last().0@, s.last().1)
        }
    }

    /// The map this value denotes.
    pub closed spec fn spec_map(&self) -> Map<Seq<char>, V> {
        Self::assoc_map(self.entries@)
    }

    /// The underlying entries, in insertion order.
    pub closed spec fn spec_entries(&self) -> Seq<(String, V)> {
        self.entries@
    }

    /// Each key occurs at most once.
    pub closed spec fn wf(&self) -> bool {
        unique_keys(self.entries@)
    }

    proof fn lemma_assoc_contains(s: Seq<(String, V)>, k: Seq<char>)
        ensures
            Self::assoc_map(s).contains_key(k) <==> exists|i: int|
                0 <= i < s.len() && (#[trigger] s[i]).0@ == k,
        decreases s.len(),
    {
        if s.len() == 0 {
        } else {
            Self::lemma_assoc_contains(s.drop_last(), k);
            if Self::assoc_map(s).contains_key(k) {
                if s.last().0@ == k {
                    assert((s[s.len() - 1]).0@ == k);
                } else {
                    let i = choose|i: int|
                        0 <= i < s.drop_last().len() && (#[trigger] s.drop_last()[i]).0@ == k;
                    assert((s[i]).0@ == k);
                }
            }
            if exists|i: int| 0 <= i < s.len() && (#[trigger] s[i]).0@ == k {
                let i = choose|i: int| 0 <= i < s.len() && (#[trigger] s[i]).0@ == k;
                if i < s.len() - 1 {
                    assert((s.drop_last()[i]).0@ == k);
                }
            }
        }
    }

    proof fn lemma_assoc_value(s: Seq<(String, V)>, k: Seq<char>, i: int)
        requires
            unique_keys(s),
            0 <= i < s.len(),
            (s[i]).0@ == k,
        ensures
            Self::assoc_map(s).contains_key(k),
            Self::assoc_map(s)[k] == (s[i]).1,
        decreases s.len(),
    {
        if i == s.len() - 1 {
        } else {
            assert((s.drop_last()[i]).0@ == k);
            Self::lemma_assoc_value(s.drop_last(), k, i);
            assert(s.last().0@ != k);
        }
    }

    proof fn lemma_assoc_remove(s: Seq<(String, V)>, k: Seq<char>, i: int)
        requires
            unique_keys(s),
            0 <= i < s.len(),
            (s[i]).0@ == k,
        ensures
            Self::assoc_map(s.remove(i)) == Self::assoc_map(s).remove(k),
        decreases s.len(),
    {
        if i == s.len() - 1 {
            assert(s.remove(i) =~= s.drop_last());
            Self::lemma_assoc_contains(s.drop_last(), k);
            assert(forall|j: int|
                0 <= j < s.drop_last().len() ==> (#[trigger] s.drop_last()[j]).0@ != k);
            assert(!Self::assoc_map(s.drop_last()).contains_key(k));
            assert(Self::assoc_map(s.drop_last()).insert(k, s.last().1).remove(k)
                =~= Self::assoc_map(s.drop_last()));
        } else {
            assert((s.drop_last()[i]).0@ == k);
            Self::lemma_assoc_remove(s.drop_last(), k, i);
            assert(s.remove(i).drop_last() =~= s.drop_last().remove(i));
            assert(s.remove(i).last() == s.last());
            assert(s.last().0@ != k);
            assert(Self::assoc_map(s.remove(i)) == Self::assoc_map(s.drop_last().remove(i)).insert(
                s.last().0@,
                s.last().1,
            ));
            assert(Self::assoc_map(s.drop_last()).remove(k).insert(s.last().0@, s.last().1)
                =~= Self::assoc_map(s.drop_last()).insert(s.last().0@, s.last().1).remove(k));
        }
    }

    /// An empty map.
    pub fn new() -> (r: Self)
        ensures
            r.wf(),
            r.spec_map() == Map::<Seq<char>, V>::empty(),
            r.spec_entries().len() == 0,
    {
        let r = UrlMap { entries: Vec::new() };
        proof {
            assert(r.entries@.len() == 0);
        }
        r
    }

    fn index_of(&self, url: &String) -> (r: Option<usize>)
        ensures
            r matches Some(i) ==> i < self.entries@.len() && (self.entries@[i as int]).0@ == url@,
            r is None ==> forall|j: int|
                0 <= j < self.entries@.len() ==> (#[trigger] self.entries@[j]).0@ != url@,
    {
        let mut i: usize = 0;
        while i < self.entries.len()
            invariant
                i <= self.entries@.len(),
                forall|j: int| 0 <= j < i ==> (#[trigger] self.entries@[j]).0@ != url@,
            decreases self.entries@.len() - i,
        {
            if self.entries[i].0 == *url {
                return Some(i);
            }
            i = i + 1;
        }
        None
    }

    /// Looks a source URL up.
    pub fn get<'a>(&'a self, url: &String) -> (r: Option<&'a V>)
        requires
            self.wf(),
        ensures
            r matches Some(v) ==> self.spec_map().contains_key(url@) && *v == self.spec_map()[url@],
            r is None ==> !self.spec_map().contains_key(url@),
    {
        match self.index_of(url) {
            Some(i) => {
                proof {
                    Self::lemma_assoc_value(self.entries@, url@, i as int);
                }
                Some(&self.entries[i].1)
            },
            None => {
                proof {
                    Self::lemma_assoc_contains(self.entries@, url@);
                }
                None
            },
        }
    }

    /// Inserts or replaces the value for a source URL.
    pub fn insert(&mut self, url: String, v: V)
        requires
            old(self).wf(),
        ensures
            final(self).wf(),
            final(self).spec_map() == old(self).spec_map().insert(url@, v),
    {
        let ghost map0 = self.spec_map();
        match self.index_of(&url) {
            Some(i) => {
                proof {
                    Self::lemma_assoc_remove(self.entries@, url@, i as int);
                }
                let ghost before = self.entries@;
                self.entries.remove(i);
                proof {
                    before.remove_ensures(i as int);
                    assert(self.entries@ =~= before.remove(i as int));
                    assert forall|a: int, b: int|
                        0 <= a < b < self.entries@.len() implies (#[trigger] self.entries@[a]).0@
                        != (#[trigger] self.entries@[b]).0@ by {
                        let a0 = if a < i as int { a } else { a + 1 };
                        let b0 = if b < i as int { b } else { b + 1 };
                        assert(before[a0] == self.entries@[a]);
                        assert(before[b0] == self.entries@[b]);
                    }
                    assert forall|j: int|
                        0 <= j < self.entries@.len() implies (#[trigger] self.entries@[j]).0@
                        != url@ by {
                        let j0 = if j < i as int { j } else { j + 1 };
                        assert(before[j0] == self.entries@[j]);
                    }
                }
            },
            None => {},
        }
        let ghost pre = self.entries@;
        self.entries.push((url, v));
        proof {
            assert(self.entries@.drop_last() =~= pre);
            assert(self.entries@.last() == (url, v));
            assert(Self::assoc_map(self.entries@) == Self::assoc_map(pre).insert(url@, v));
            assert(Self::assoc_map(pre).insert(url@, v) =~= map0.insert(url@, v));
            assert forall|a: int, b: int|
                0 <= a < b < self.entries@.len() implies (#[trigger] self.entries@[a]).0@
                != (#[trigger] self.entries@[b]).0@ by {
                if b == self.entries@.len() - 1 {
                    assert(self.entries@[a] == pre[a]);
                } else {
                    assert(self.entries@[a] == pre[a]);
                    assert(self.entries@[b] == pre[b]);
                }
            }
        }
    }

    /// The number of sources held.
    pub fn len(&self) -> (n: usize)
        ensures
            n == self.spec_entries().len(),
    {
        self.entries.len()
    }

    /// The entry at a position, for walking all sources.
    pub fn entry_at<'a>(&'a self, i: usize) -> (r: &'a (String, V))
        requires
            i < self.spec_entries().len(),
        ensures
            *r == self.spec_entries()[i as int],
    {
        &self.entries[i]
    }
}

/// The sole durable state: per source URL, the current manifest and the
/// deleted, removed and restricted track sets.
pub struct AppIndex {
    /// Maps playlist URL to its current manifest.
    pub playlists: UrlMap<Playlist>,
    /// Tracks whose owner removed them from the service entirely.
    pub deleted: UrlMap<Vec<Track>>,
    /// Tracks manually removed from the playlist but still available.
    pub removed: UrlMap<Vec<Track>>,
    /// Tracks currently inaccessible but not confirmed deleted.
    pub restricted: UrlMap<Vec<Track>>,
}

impl AppIndex {
    /// All four maps are well-formed.
    pub open spec fn wf(&self) -> bool {
        self.playlists.wf() && self.deleted.wf() && self.removed.wf() && self.restricted.wf()
    }

    /// An empty index: the state of a fresh installation.
    pub fn new() -> (r: Self)
        ensures
            r.wf(),
            r.playlists.spec_map() == Map::<Seq<char>, Playlist>::empty(),
            r.deleted.spec_map() == Map::<Seq<char>, Vec<Track>>::empty(),
            r.removed.spec_map() == Map::<Seq<char>, Vec<Track>>::empty(),
            r.restricted.spec_map() == Map::<Seq<char>, Vec<Track>>::empty(),
    {
        AppIndex {
            playlists: UrlMap::new(),
            deleted: UrlMap::new(),
            removed: UrlMap::new(),
            restricted: UrlMap::new(),
        }
    }
}

impl Default for AppIndex {
    fn default() -> (r: Self)
        ensures
            r.wf(),
            r.playlists.spec_map() == Map::<Seq<char>, Playlist>::empty(),
            r.deleted.spec_map() == Map::<Seq<char>, Vec<Track>>::empty(),
            r.removed.spec_map() == Map::<Seq<char>, Vec<Track>>::empty(),
            r.restricted.spec_map() == Map::<Seq<char>, Vec<Track>>::empty(),
    {
        AppIndex::new()
    }
}

/// A semantic classification of one track's lifecycle transition in one
/// refresh cycle.
#[derive(Debug, Clone, Copy)]
pub enum Action {
    /// This track was added to the playlist.
    Added,
    /// This track was removed from the playlist but still exists.
    Removed,
    /// This track had been removed from the playlist but was added back.
    Unremoved,
    /// This track was deleted.
    Deleted,
    /// This track had been deleted but was added back.
    Undeleted,
    /// This track was restricted (private, geo-restricted, etc.).
    Restricted,
    /// This track had been restricted but is not anymore.
    Unrestricted,
}

/// A track together with the action to take on it.
#[derive(Debug, Clone)]
pub struct TrackAction {
    pub track: Track,
    pub action: Action,
}

/// A concrete side-effecting step required to realize an action.
#[derive(Debug, Clone)]
pub enum Operation {
    /// Add a message to the Comment metadata stating the state of this
    /// track.
    AddMetadataMarker(Action),
    /// Download the track.
    Download,
}

/// The human-readable phrase describing a lifecycle transition.
pub open spec fn spec_transition_description(a: Action) -> Seq<char> {
    match a {
        Action::Added => "added to the playlist"@,
        Action::Removed => "removed from the playlist"@,
        Action::Unremoved => "added back to the playlist"@,
        Action::Deleted => "deleted"@,
        Action::Undeleted => "added back"@,
        Action::Restricted => "restricted (private, geo-restricted, etc.)"@,
        Action::Unrestricted => "no longer restricted"@,
    }
}

impl Action {
    /// The operations that realize this action: an addition downloads the
    /// track, every other transition records a metadata marker.
    pub fn necessary_operations(&self) -> (ops: Vec<Operation>)
        ensures
            *self is Added ==> ops@ == seq![Operation::Download],
            !(*self is Added) ==> ops@ == seq![Operation::AddMetadataMarker(*self)],
    {
        match self {
            Action::Added => vec![Operation::Download],
            _ => vec![Operation::AddMetadataMarker(*self)],
        }
    }

    fn transition_description(&self) -> (r: &'static str)
        ensures
            r@ == spec_transition_description(*self),
    {
        match self {
            Action::Added => "added to the playlist",
            Action::Removed => "removed from the playlist",
            Action::Unremoved => "added back to the playlist",
            Action::Deleted => "deleted",
            Action::Undeleted => "added back",
            Action::Restricted => "restricted (private, geo-restricted, etc.)",
            Action::Unrestricted => "no longer restricted",
        }
    }

    /// The comment text recorded in a track's tag for this transition.
    pub fn marker_message(&self, playlist: &Playlist) -> (r: String)
        ensures
            r@ == "This track was "@ + spec_transition_description(*self) + ". "@
                + playlist.title@ + " ("@ + playlist.id@ + ")\n"@,
    {
        String::from_str("This track was ")
            .concat(self.transition_description())
            .concat(". ")
            .concat(playlist.title.as_str())
            .concat(" (")
            .concat(playlist.id.as_str())
            .concat(")\n")
    }
}

/// An explicit copy of a track, equal to the original.
pub fn clone_track(t: &Track) -> (r: Track)
    ensures
        r == *t,
{
    Track {
        id: t.id.clone(),
        uploader: t.uploader.clone(),
        title: t.title.clone(),
        url: t.url.clone(),
        idx: t.idx,
    }
}

/// Two tracks name the same remote entity.
fn cmp_ids(t1: &Track, t2: &Track) -> (r: bool)
    ensures
        r == (t1.id@ == t2.id@),
{
    t1.id == t2.id
}

/// Some track in `ts` has the given id.
pub open spec fn has_id(ts: Seq<Track>, id: Seq<char>) -> bool {
    exists|i: int| 0 <= i < ts.len() && (#[trigger] ts[i]).id@ == id
}

/// Whether some track in `ts` has the same id as `t`.
pub fn contains_id(ts: &Vec<Track>, t: &Track) -> (r: bool)
    ensures
        r == has_id(ts@, t.id@),
{
    let mut i: usize = 0;
    while i < ts.len()
        invariant
            i <= ts@.len(),
            forall|j: int| 0 <= j < i ==> (#[trigger] ts@[j]).id@ != t.id@,
        decreases ts@.len() - i,
    {
        if cmp_ids(&ts[i], t) {
            return true;
        }
        i = i + 1;
    }
    false
}

/// The tracks of `xs` whose id also occurs in `ys`, in order.
pub open spec fn spec_present(xs: Seq<Track>, ys: Seq<Track>) -> Seq<Track> {
    xs.filter(|t: Track| has_id(ys, t.id@))
}

/// The tracks of `xs` whose id does not occur in `ys`, in order.
pub open spec fn spec_absent(xs: Seq<Track>, ys: Seq<Track>) -> Seq<Track> {
    xs.filter(|t: Track| !has_id(ys, t.id@))
}

proof fn lemma_split_push(xs: Seq<Track>, ys: Seq<Track>, t: Track)
    ensures
        has_id(ys, t.id@) ==> spec_present(xs.push(t), ys) == spec_present(xs, ys).push(t)
            && spec_absent(xs.push(t), ys) == spec_absent(xs, ys),
        !has_id(ys, t.id@) ==> spec_present(xs.push(t), ys) == spec_present(xs, ys)
            && spec_absent(xs.push(t), ys) == spec_absent(xs, ys).push(t),
{
    lemma_filter_push(xs, |t: Track| has_id(ys, t.id@), t);
    lemma_filter_push(xs, |t: Track| !has_id(ys, t.id@), t);
}

/// Splits `xs` by whether each track's id occurs in `ys`, preserving
/// order: the first result holds the tracks present in `ys`, the second
/// those absent from it.
pub fn split_by_presence(xs: &Vec<Track>, ys: &Vec<Track>) -> (r: (Vec<Track>, Vec<Track>))
    ensures
        r.0@ == spec_present(xs@, ys@),
        r.1@ == spec_absent(xs@, ys@),
{
    let mut present: Vec<Track> = Vec::new();
    let mut absent: Vec<Track> = Vec::new();
    let mut i: usize = 0;
    while i < xs.len()
        invariant
            i <= xs@.len(),
            present@ == spec_present(xs@.subrange(0, i as int), ys@),
            absent@ == spec_absent(xs@.subrange(0, i as int), ys@),
        decreases xs@.len() - i,
    {
        let t = &xs[i];
        let inside = contains_id(ys, t);
        proof {
            assert(xs@.subrange(0, i as int + 1) =~= xs@.subrange(0, i as int).push(xs@[i as int]));
            lemma_split_push(xs@.subrange(0, i as int), ys@, xs@[i as int]);
        }
        if inside {
            present.push(clone_track(t));
        } else {
            absent.push(clone_track(t));
        }
        i = i + 1;
    }
    proof {
        assert(xs@.subrange(0, xs@.len() as int) =~= xs@);
    }
    (present, absent)
}

/// An explicit copy of a track list, equal to the original.
pub fn clone_tracks(ts: &Vec<Track>) -> (r: Vec<Track>)
    ensures
        r@ == ts@,
{
    let mut r: Vec<Track> = Vec::new();
    let mut i: usize = 0;
    while i < ts.len()
        invariant
            i <= ts@.len(),
            r@ == ts@.subrange(0, i as int),
        decreases ts@.len() - i,
    {
        r.push(clone_track(&ts[i]));
        proof {
            assert(ts@.subrange(0, i as int + 1) =~= ts@.subrange(0, i as int).push(ts@[i as int]));
        }
        i = i + 1;
    }
    proof {
        assert(ts@.subrange(0, ts@.len() as int) =~= ts@);
    }
    r
}

/// The missing tracks whose status check reported them gone from the
/// service, in order.
pub open spec fn spec_deleted_candidates(missing: Seq<Track>, sts: Seq<TrackStatus>) -> Seq<Track>
    decreases missing.len(),
{
    if missing.len() == 0 || sts.len() == 0 {
        Seq::empty()
    } else {
        let rest = spec_deleted_candidates(missing.drop_last(), sts.drop_last());
        if sts.last() is NotFound {
            rest.push(missing.last())
        } else {
            rest
        }
    }
}

/// The missing tracks whose status check found them still available —
/// they were manually removed from the playlist — in order.
pub open spec fn spec_removed_candidates(missing: Seq<Track>, sts: Seq<TrackStatus>) -> Seq<Track>
    decreases missing.len(),
{
    if missing.len() == 0 || sts.len() == 0 {
        Seq::empty()
    } else {
        let rest = spec_removed_candidates(missing.drop_last(), sts.drop_last());
        if sts.last() is Available {
            rest.push(missing.last())
        } else {
            rest
        }
    }
}

/// The missing tracks whose status check found them inaccessible, in
/// order.
pub open spec fn spec_restricted_candidates(missing: Seq<Track>, sts: Seq<TrackStatus>) -> Seq<Track>
    decreases missing.len(),
{
    if missing.len() == 0 || sts.len() == 0 {
        Seq::empty()
    } else {
        let rest = spec_restricted_candidates(missing.drop_last(), sts.drop_last());
        if sts.last() is Restricted {
            rest.push(missing.last())
        } else {
            rest
        }
    }
}

proof fn lemma_candidates_push(m: Seq<Track>, s: Seq<TrackStatus>, t: Track, st: TrackStatus)
    ensures
        st is NotFound ==> spec_deleted_candidates(m.push(t), s.push(st))
            == spec_deleted_candidates(m, s).push(t),
        !(st is NotFound) ==> spec_deleted_candidates(m.push(t), s.push(st))
            == spec_deleted_candidates(m, s),
        st is Available ==> spec_removed_candidates(m.push(t), s.push(st))
            == spec_removed_candidates(m, s).push(t),
        !(st is Available) ==> spec_removed_candidates(m.push(t), s.push(st))
            == spec_removed_candidates(m, s),
        st is Restricted ==> spec_restricted_candidates(m.push(t), s.push(st))
            == spec_restricted_candidates(m, s).push(t),
        !(st is Restricted) ==> spec_restricted_candidates(m.push(t), s.push(st))
            == spec_restricted_candidates(m, s),
{
    assert(m.push(t).drop_last() =~= m);
    assert(s.push(st).drop_last() =~= s);
}

/// Sorts the missing tracks into the three candidate sets according to
/// their status checks, which are given in the same order as `missing`.
pub fn classify_missing(missing: &Vec<Track>, statuses: &Vec<TrackStatus>) -> (r: (
    Vec<Track>,
    Vec<Track>,
    Vec<Track>,
))
    requires
        missing@.len() == statuses@.len(),
    ensures
        r.0@ == spec_deleted_candidates(missing@, statuses@),
        r.1@ == spec_removed_candidates(missing@, statuses@),
        r.2@ == spec_restricted_candidates(missing@, statuses@),
{
    let mut deleted: Vec<Track> = Vec::new();
    let mut removed: Vec<Track> = Vec::new();
    let mut restricted: Vec<Track> = Vec::new();
    let mut i: usize = 0;
    while i < missing.len()
        invariant
            missing@.len() == statuses@.len(),
            i <= missing@.len(),
            deleted@ == spec_deleted_candidates(
                missing@.subrange(0, i as int),
                statuses@.subrange(0, i as int),
            ),
            removed@ == spec_removed_candidates(
                missing@.subrange(0, i as int),
                statuses@.subrange(0, i as int),
            ),
            restricted@ == spec_restricted_candidates(
                missing@.subrange(0, i as int),
                statuses@.subrange(0, i as int),
            ),
        decreases missing@.len() - i,
    {
        proof {
            assert(missing@.subrange(0, i as int + 1) =~= missing@.subrange(0, i as int).push(
                missing@[i as int],
            ));
            assert(statuses@.subrange(0, i as int + 1) =~= statuses@.subrange(0, i as int).push(
                statuses@[i as int],
            ));
            lemma_candidates_push(
                missing@.subrange(0, i as int),
                statuses@.subrange(0, i as int),
                missing@[i as int],
                statuses@[i as int],
            );
        }
        match &statuses[i] {
            TrackStatus::NotFound => deleted.push(clone_track(&missing[i])),
            TrackStatus::Available(_) => removed.push(clone_track(&missing[i])),
            TrackStatus::Restricted => restricted.push(clone_track(&missing[i])),
        }
        i = i + 1;
    }
    proof {
        assert(missing@.subrange(0, missing@.len() as int) =~= missing@);
        assert(statuses@.subrange(0, statuses@.len() as int) =~= statuses@);
    }
    (deleted, removed, restricted)
}

/// The recorded entries that the fresh manifest no longer contains.
pub open spec fn spec_missing(entries: Seq<Track>, manifest: Seq<Track>) -> Seq<Track> {
    spec_absent(entries, manifest)
}

/// The manifest tracks that were not among the recorded entries.
pub open spec fn spec_fresh(entries: Seq<Track>, manifest: Seq<Track>) -> Seq<Track> {
    spec_absent(manifest, entries)
}

/// The manifest tracks that are new to this source altogether: not among
/// the recorded entries nor in any of the three persisted sets. A track
/// found in a persisted set is a reversal, not an addition.
pub open spec fn spec_added(
    entries: Seq<Track>,
    manifest: Seq<Track>,
    d0: Seq<Track>,
    r0: Seq<Track>,
    s0: Seq<Track>,
) -> Seq<Track> {
    spec_absent(spec_absent(spec_absent(spec_fresh(entries, manifest), d0), r0), s0)
}

/// Everything one refresh cycle decided for one source: the per-action
/// track lists and the per-source sets to persist afterwards.
pub struct SourcePlan {
    /// Newly confirmed deleted; each gets a `Deleted` marker.
    pub deleted: Vec<Track>,
    /// Previously deleted tracks that reappeared; `Undeleted`.
    pub undeleted: Vec<Track>,
    /// Newly removed from the playlist; `Removed`.
    pub removed: Vec<Track>,
    /// Previously removed tracks that reappeared; `Unremoved`.
    pub unremoved: Vec<Track>,
    /// Newly restricted; `Restricted`.
    pub restricted: Vec<Track>,
    /// Previously restricted tracks that reappeared; `Unrestricted`.
    pub unrestricted: Vec<Track>,
    /// New to the playlist; each gets a download.
    pub added: Vec<Track>,
    /// The deleted set to persist: retained records plus the new ones.
    pub deleted_after: Vec<Track>,
    /// The removed set to persist.
    pub removed_after: Vec<Track>,
    /// The restricted set to persist.
    pub restricted_after: Vec<Track>,
}

/// What a correct plan for one source holds, given the previously
/// recorded state, the fresh manifest and the status-check results.
pub open spec fn spec_plan(
    entries: Seq<Track>,
    d0: Seq<Track>,
    r0: Seq<Track>,
    s0: Seq<Track>,
    manifest: Seq<Track>,
    sts: Seq<TrackStatus>,
    plan: SourcePlan,
) -> bool {
    let missing = spec_missing(entries, manifest);
    &&& plan.deleted@ == spec_deleted_candidates(missing, sts)
    &&& plan.removed@ == spec_removed_candidates(missing, sts)
    &&& plan.restricted@ == spec_restricted_candidates(missing, sts)
    &&& plan.undeleted@ == spec_present(d0, manifest)
    &&& plan.unremoved@ == spec_present(r0, manifest)
    &&& plan.unrestricted@ == spec_present(s0, manifest)
    &&& plan.added@ == spec_added(entries, manifest, d0, r0, s0)
    &&& plan.deleted_after@ == spec_absent(d0, manifest) + spec_deleted_candidates(missing, sts)
    &&& plan.removed_after@ == spec_absent(r0, manifest) + spec_removed_candidates(missing, sts)
    &&& plan.restricted_after@ == spec_absent(s0, manifest) + spec_restricted_candidates(
        missing,
        sts,
    )
}

impl AppIndex {
    /// The entries recorded for a source, empty if none were seen yet.
    pub open spec fn prev_entries(&self, url: Seq<char>) -> Seq<Track> {
        if self.playlists.spec_map().contains_key(url) {
            self.playlists.spec_map()[url].entries@
        } else {
            Seq::empty()
        }
    }

    /// The deleted set recorded for a source.
    pub open spec fn prev_deleted(&self, url: Seq<char>) -> Seq<Track> {
        if self.deleted.spec_map().contains_key(url) {
            self.deleted.spec_map()[url]@
        } else {
            Seq::empty()
        }
    }

    /// The removed set recorded for a source.
    pub open spec fn prev_removed(&self, url: Seq<char>) -> Seq<Track> {
        if self.removed.spec_map().contains_key(url) {
            self.removed.spec_map()[url]@
        } else {
            Seq::empty()
        }
    }

    /// The restricted set recorded for a source.
    pub open spec fn prev_restricted(&self, url: Seq<char>) -> Seq<Track> {
        if self.restricted.spec_map().contains_key(url) {
            self.restricted.spec_map()[url]@
        } else {
            Seq::empty()
        }
    }

    /// Diffs a freshly fetched manifest against the recorded entries:
    /// returns the manifest tracks not recorded for this source, and the
    /// recorded tracks the manifest no longer contains. The caller checks
    /// the status of each missing track before planning the cycle.
    pub fn manifest_diff(&self, url: &String, manifest: &Playlist) -> (r: (Vec<Track>, Vec<Track>))
        requires
            self.wf(),
        ensures
            r.0@ == spec_fresh(self.prev_entries(url@), manifest.entries@),
            r.1@ == spec_missing(self.prev_entries(url@), manifest.entries@),
    {
        let empty: Vec<Track> = Vec::new();
        let prev: &Vec<Track> = match self.playlists.get(url) {
            Some(p) => &p.entries,
            None => &empty,
        };
        proof {
            assert(prev@ =~= self.prev_entries(url@));
        }
        let fresh = split_by_presence(&manifest.entries, prev).1;
        let missing = split_by_presence(prev, &manifest.entries).1;
        (fresh, missing)
    }

    /// Plans one refresh cycle for one source: computes the candidate
    /// sets from the status checks, the reversals of previously recorded
    /// transitions, the genuinely new tracks, and the per-source sets to
    /// persist once every operation has succeeded. `statuses` answers the
    /// missing tracks in order, as [`Self::manifest_diff`] returned them.
    pub fn plan_source(&self, url: &String, manifest: &Playlist, statuses: &Vec<TrackStatus>) -> (plan:
        SourcePlan)
        requires
            self.wf(),
            statuses@.len() == spec_missing(self.prev_entries(url@), manifest.entries@).len(),
        ensures
            spec_plan(
                self.prev_entries(url@),
                self.prev_deleted(url@),
                self.prev_removed(url@),
                self.prev_restricted(url@),
                manifest.entries@,
                statuses@,
                plan,
            ),
    {
        let empty: Vec<Track> = Vec::new();
        let prev: &Vec<Track> = match self.playlists.get(url) {
            Some(p) => &p.entries,
            None => &empty,
        };
        let d0: &Vec<Track> = match self.deleted.get(url) {
            Some(v) => v,
            None => &empty,
        };
        let r0: &Vec<Track> = match self.removed.get(url) {
            Some(v) => v,
            None => &empty,
        };
        let s0: &Vec<Track> = match self.restricted.get(url) {
            Some(v) => v,
            None => &empty,
        };
        proof {
            assert(prev@ =~= self.prev_entries(url@));
            assert(d0@ =~= self.prev_deleted(url@));
            assert(r0@ =~= self.prev_removed(url@));
            assert(s0@ =~= self.prev_restricted(url@));
        }

        let missing = split_by_presence(prev, &manifest.entries).1;
        let (deleted, removed, restricted) = classify_missing(&missing, statuses);

        let (undeleted, kept_deleted) = split_by_presence(d0, &manifest.entries);
        let (unremoved, kept_removed) = split_by_presence(r0, &manifest.entries);
        let (unrestricted, kept_restricted) = split_by_presence(s0, &manifest.entries);

        let fresh = split_by_presence(&manifest.entries, prev).1;
        let a1 = split_by_presence(&fresh, d0).1;
        let a2 = split_by_presence(&a1, r0).1;
        let added = split_by_presence(&a2, s0).1;

        let mut deleted_after = kept_deleted;
        let mut new_deleted = clone_tracks(&deleted);
        deleted_after.append(&mut new_deleted);
        let mut removed_after = kept_removed;
        let mut new_removed = clone_tracks(&removed);
        removed_after.append(&mut new_removed);
        let mut restricted_after = kept_restricted;
        let mut new_restricted = clone_tracks(&restricted);
        restricted_after.append(&mut new_restricted);

        SourcePlan {
            deleted,
            undeleted,
            removed,
            unremoved,
            restricted,
            unrestricted,
            added,
            deleted_after,
            removed_after,
            restricted_after,
        }
    }

    /// After every operation for a source succeeded, records the new
    /// categorization: the manifest becomes the source's entries and the
    /// three persisted sets are replaced by the plan's.
    pub fn commit_source(&mut self, url: &String, manifest: Playlist, plan: SourcePlan)
        requires
            old(self).wf(),
        ensures
            final(self).wf(),
            final(self).playlists.spec_map() == old(self).playlists.spec_map().insert(
                url@,
                manifest,
            ),
            final(self).deleted.spec_map() == old(self).deleted.spec_map().insert(
                url@,
                plan.deleted_after,
            ),
            final(self).removed.spec_map() == old(self).removed.spec_map().insert(
                url@,
                plan.removed_after,
            ),
            final(self).restricted.spec_map() == old(self).restricted.spec_map().insert(
                url@,
                plan.restricted_after,
            ),
    {
        let SourcePlan { deleted_after, removed_after, restricted_after, .. } = plan;
        self.deleted.insert(url.clone(), deleted_after);
        self.removed.insert(url.clone(), removed_after);
        self.restricted.insert(url.clone(), restricted_after);
        self.playlists.insert(url.clone(), manifest);
    }
}

/// The actions for a list of tracks, all of one kind.
pub open spec fn acts_of(ts: Seq<Track>, a: Action) -> Seq<TrackAction> {
    ts.map_values(|t: Track| TrackAction { track: t, action: a })
}

/// The ordered action list a plan induces: all bookkeeping actions first,
/// grouped in the fixed order deleted, undeleted, removed, unremoved,
/// restricted, unrestricted; additions, which download, come last, so
/// that a failed download never discards already-applied bookkeeping.
pub open spec fn spec_actions(plan: SourcePlan) -> Seq<TrackAction> {
    acts_of(plan.deleted@, Action::Deleted) + acts_of(plan.undeleted@, Action::Undeleted)
        + acts_of(plan.removed@, Action::Removed) + acts_of(plan.unremoved@, Action::Unremoved)
        + acts_of(plan.restricted@, Action::Restricted) + acts_of(
        plan.unrestricted@,
        Action::Unrestricted,
    ) + acts_of(plan.added@, Action::Added)
}

fn push_actions(acts: &mut Vec<TrackAction>, ts: &Vec<Track>, action: Action)
    ensures
        final(acts)@ == old(acts)@ + acts_of(ts@, action),
{
    let mut i: usize = 0;
    while i < ts.len()
        invariant
            i <= ts@.len(),
            acts@ == old(acts)@ + acts_of(ts@.subrange(0, i as int), action),
        decreases ts@.len() - i,
    {
        acts.push(TrackAction { track: clone_track(&ts[i]), action });
        proof {
            assert(ts@.subrange(0, i as int + 1) =~= ts@.subrange(0, i as int).push(ts@[i as int]));
            assert(acts_of(ts@.subrange(0, i as int + 1), action) =~= acts_of(
                ts@.subrange(0, i as int),
                action,
            ).push(TrackAction { track: ts@[i as int], action }));
        }
        i = i + 1;
    }
    proof {
        assert(ts@.subrange(0, ts@.len() as int) =~= ts@);
    }
}

/// The track ids of `ts` are pairwise distinct.
pub open spec fn unique_ids(ts: Seq<Track>) -> bool {
    forall|i: int, j: int|
        0 <= i < j < ts.len() ==> (#[trigger] ts[i]).id@ != (#[trigger] ts[j]).id@
}

/// No track of `a` shares its id with a track of `b`.
pub open spec fn disjoint_ids(a: Seq<Track>, b: Seq<Track>) -> bool {
    forall|i: int| 0 <= i < a.len() ==> !has_id(b, (#[trigger] a[i]).id@)
}

/// The set of track ids occurring in `ts`.
pub open spec fn id_set(ts: Seq<Track>) -> Set<Seq<char>> {
    Set::new(|id: Seq<char>| has_id(ts, id))
}

/// An id occurs in a concatenation exactly when it occurs in one of the
/// parts.
pub proof fn lemma_ids_concat(a: Seq<Track>, b: Seq<Track>)
    ensures
        forall|id: Seq<char>| #[trigger] has_id(a + b, id) <==> has_id(a, id) || has_id(b, id),
{
    assert forall|id: Seq<char>| #[trigger]
        has_id(a + b, id) <==> has_id(a, id) || has_id(b, id) by {
        if has_id(a + b, id) {
            let i = choose|i: int| 0 <= i < (a + b).len() && (#[trigger] (a + b)[i]).id@ == id;
            if i < a.len() {
                assert(a[i].id@ == id);
            } else {
                assert(b[i - a.len()].id@ == id);
            }
        }
        if has_id(a, id) {
            let i = choose|i: int| 0 <= i < a.len() && (#[trigger] a[i]).id@ == id;
            assert((a + b)[i].id@ == id);
        }
        if has_id(b, id) {
            let i = choose|i: int| 0 <= i < b.len() && (#[trigger] b[i]).id@ == id;
            assert((a + b)[a.len() + i].id@ == id);
        }
    }
}

/// No id occurs in both `a` and `b`.
pub open spec fn no_shared_ids(a: Seq<Track>, b: Seq<Track>) -> bool {
    forall|id: Seq<char>|
        #![trigger has_id(a, id), has_id(b, id)]
        !(has_id(a, id) && has_id(b, id))
}

/// Elementwise id-disjointness gives id-disjointness of the id sets.
pub proof fn lemma_disjoint_to_no_shared(a: Seq<Track>, b: Seq<Track>)
    requires
        disjoint_ids(a, b),
    ensures
        no_shared_ids(a, b),
{
    assert forall|id: Seq<char>|
        #![trigger has_id(a, id), has_id(b, id)]
        !(has_id(a, id) && has_id(b, id)) by {
        if has_id(a, id) && has_id(b, id) {
            let i = choose|i: int| 0 <= i < a.len() && (#[trigger] a[i]).id@ == id;
            assert(!has_id(b, a[i].id@));
        }
    }
}

/// Concatenating two id-unique, id-disjoint lists gives an id-unique
/// list.
pub proof fn lemma_unique_concat(a: Seq<Track>, b: Seq<Track>)
    requires
        unique_ids(a),
        unique_ids(b),
        disjoint_ids(a, b),
    ensures
        unique_ids(a + b),
{
    assert forall|i: int, j: int|
        0 <= i < j < (a + b).len() implies (#[trigger] (a + b)[i]).id@ != (#[trigger] (a
        + b)[j]).id@ by {
        if i < a.len() && j >= a.len() {
            assert((a + b)[i] == a[i]);
            assert((a + b)[j] == b[j - a.len()]);
            if a[i].id@ == b[j - a.len()].id@ {
                assert(has_id(b, a[i].id@));
            }
        } else if i < a.len() {
            assert((a + b)[i] == a[i]);
            assert((a + b)[j] == a[j]);
        } else {
            assert((a + b)[i] == b[i - a.len()]);
            assert((a + b)[j] == b[j - a.len()]);
        }
    }
}

/// What holds of the tracks kept by [`spec_absent`]: they are tracks of
/// `xs`, none of their ids occurs in `ys`, id-uniqueness carries over,
/// and every track of `xs` absent from `ys` is kept.
pub proof fn lemma_absent_wf(xs: Seq<Track>, ys: Seq<Track>)
    ensures
        forall|k: int|
            0 <= k < spec_absent(xs, ys).len() ==> xs.contains(#[trigger] spec_absent(xs, ys)[k])
                && !has_id(ys, spec_absent(xs, ys)[k].id@),
        forall|id: Seq<char>| #[trigger]
            has_id(spec_absent(xs, ys), id) ==> has_id(xs, id) && !has_id(ys, id),
        forall|i: int|
            0 <= i < xs.len() && !has_id(ys, (#[trigger] xs[i]).id@) ==> has_id(
                spec_absent(xs, ys),
                xs[i].id@,
            ),
        unique_ids(xs) ==> unique_ids(spec_absent(xs, ys)),
{
    let pred = |t: Track| !has_id(ys, t.id@);
    lemma_filter_is_subset(xs, pred);
    assert forall|id: Seq<char>| #[trigger]
        has_id(spec_absent(xs, ys), id) implies has_id(xs, id) && !has_id(ys, id) by {
        let k = choose|k: int|
            0 <= k < spec_absent(xs, ys).len() && (#[trigger] spec_absent(xs, ys)[k]).id@ == id;
        let t = spec_absent(xs, ys)[k];
        assert(pred(t));
        let i = choose|i: int| 0 <= i < xs.len() && xs[i] == t;
        assert(xs[i].id@ == id);
    }
    assert forall|i: int|
        0 <= i < xs.len() && !has_id(ys, (#[trigger] xs[i]).id@) implies has_id(
        spec_absent(xs, ys),
        xs[i].id@,
    ) by {
        assert(pred(xs[i]));
        assert(spec_absent(xs, ys).contains(xs[i]));
        let k = choose|k: int|
            0 <= k < spec_absent(xs, ys).len() && spec_absent(xs, ys)[k] == xs[i];
        assert(spec_absent(xs, ys)[k].id@ == xs[i].id@);
    }
    if unique_ids(xs) {
        lemma_filter_unique_ids(xs, pred);
    }
}

/// The counterpart of [`lemma_absent_wf`] for [`spec_present`].
pub proof fn lemma_present_wf(xs: Seq<Track>, ys: Seq<Track>)
    ensures
        forall|k: int|
            0 <= k < spec_present(xs, ys).len() ==> xs.contains(#[trigger] spec_present(xs, ys)[k])
                && has_id(ys, spec_present(xs, ys)[k].id@),
        forall|id: Seq<char>| #[trigger]
            has_id(spec_present(xs, ys), id) ==> has_id(xs, id) && has_id(ys, id),
        forall|i: int|
            0 <= i < xs.len() && has_id(ys, (#[trigger] xs[i]).id@) ==> has_id(
                spec_present(xs, ys),
                xs[i].id@,
            ),
        unique_ids(xs) ==> unique_ids(spec_present(xs, ys)),
{
    let pred = |t: Track| has_id(ys, t.id@);
    lemma_filter_is_subset(xs, pred);
    assert forall|id: Seq<char>| #[trigger]
        has_id(spec_present(xs, ys), id) implies has_id(xs, id) && has_id(ys, id) by {
        let k = choose|k: int|
            0 <= k < spec_present(xs, ys).len() && (#[trigger] spec_present(xs, ys)[k]).id@ == id;
        let t = spec_present(xs, ys)[k];
        assert(pred(t));
        let i = choose|i: int| 0 <= i < xs.len() && xs[i] == t;
        assert(xs[i].id@ == id);
    }
    assert forall|i: int|
        0 <= i < xs.len() && has_id(ys, (#[trigger] xs[i]).id@) implies has_id(
        spec_present(xs, ys),
        xs[i].id@,
    ) by {
        assert(pred(xs[i]));
        assert(spec_present(xs, ys).contains(xs[i]));
        let k = choose|k: int|
            0 <= k < spec_present(xs, ys).len() && spec_present(xs, ys)[k] == xs[i];
        assert(spec_present(xs, ys)[k].id@ == xs[i].id@);
    }
    if unique_ids(xs) {
        lemma_filter_unique_ids(xs, pred);
    }
}

/// A filter of an id-unique track list is id-unique.
proof fn lemma_filter_unique_ids(s: Seq<Track>, pred: spec_fn(Track) -> bool)
    requires
        unique_ids(s),
    ensures
        unique_ids(s.filter(pred)),
    decreases s.len(),
{
    reveal(Seq::filter);
    if s.len() == 0 {
    } else {
        assert forall|i: int, j: int|
            0 <= i < j < s.drop_last().len() implies (#[trigger] s.drop_last()[i]).id@
            != (#[trigger] s.drop_last()[j]).id@ by {
            assert(s[i].id@ != s[j].id@);
        }
        lemma_filter_unique_ids(s.drop_last(), pred);
        lemma_filter_is_subset(s.drop_last(), pred);
        if pred(s.last()) {
            let sub = s.drop_last().filter(pred);
            assert forall|i: int, j: int|
                0 <= i < j < s.filter(pred).len() implies (#[trigger] s.filter(pred)[i]).id@
                != (#[trigger] s.filter(pred)[j]).id@ by {
                if j == s.filter(pred).len() - 1 {
                    assert(s.filter(pred)[j] == s.last());
                    assert(s.filter(pred)[i] == sub[i]);
                    assert(s.drop_last().contains(sub[i]));
                    let k = choose|k: int|
                        0 <= k < s.drop_last().len() && s.drop_last()[k] == sub[i];
                    assert(s[k] == sub[i]);
                    assert(s[k].id@ != s[s.len() - 1].id@);
                } else {
                    assert(s.filter(pred)[i] == sub[i]);
                    assert(s.filter(pred)[j] == sub[j]);
                }
            }
        }
    }
}

/// `t` is a missing track whose status check reported it gone from the service.
pub open spec fn deleted_origin(m: Seq<Track>, sts: Seq<TrackStatus>, t: Track) -> bool {
    exists|i: int| 0 <= i < m.len() && (#[trigger] m[i]) == t && sts[i] is NotFound
}

/// Which tracks the deleted-candidate set holds: exactly the missing
/// tracks whose status check reported them gone from the service.
pub proof fn lemma_deleted_candidates_membership(m: Seq<Track>, sts: Seq<TrackStatus>)
    requires
        m.len() == sts.len(),
    ensures
        forall|k: int|
            0 <= k < spec_deleted_candidates(m, sts).len() ==> deleted_origin(
                m,
                sts,
                #[trigger] spec_deleted_candidates(m, sts)[k],
            ),
        forall|i: int|
            0 <= i < m.len() && (#[trigger] sts[i]) is NotFound ==> spec_deleted_candidates(
                m,
                sts,
            ).contains(m[i]),
    decreases m.len(),
{
    if m.len() == 0 {
    } else {
        let dl = m.drop_last();
        let sl = sts.drop_last();
        lemma_deleted_candidates_membership(dl, sl);
        let rest = spec_deleted_candidates(dl, sl);
        assert forall|k: int|
            0 <= k < spec_deleted_candidates(m, sts).len() implies deleted_origin(
            m,
            sts,
            #[trigger] spec_deleted_candidates(m, sts)[k],
        ) by {
            if k < rest.len() {
                assert(deleted_origin(dl, sl, rest[k]));
                let i = choose|i: int|
                    0 <= i < dl.len() && (#[trigger] dl[i]) == rest[k] && sl[i] is NotFound;
                assert(m[i] == rest[k] && sts[i] is NotFound);
            } else {
                assert(spec_deleted_candidates(m, sts)[k] == m.last());
                assert(m[m.len() - 1] == m.last() && sts[m.len() - 1] is NotFound);
            }
        }
        assert forall|i: int|
            0 <= i < m.len() && (#[trigger] sts[i]) is NotFound implies spec_deleted_candidates(
            m,
            sts,
        ).contains(m[i]) by {
            if i < m.len() - 1 {
                assert(sl[i] is NotFound);
                assert(rest.contains(dl[i]));
                let k = choose|k: int| 0 <= k < rest.len() && rest[k] == m[i];
                assert(spec_deleted_candidates(m, sts)[k] == m[i]);
            } else {
                assert(spec_deleted_candidates(m, sts).last() == m[i]);
            }
        }
    }
}

/// `t` is a missing track whose status check reported it still available.
pub open spec fn removed_origin(m: Seq<Track>, sts: Seq<TrackStatus>, t: Track) -> bool {
    exists|i: int| 0 <= i < m.len() && (#[trigger] m[i]) == t && sts[i] is Available
}

/// Which tracks the removed-candidate set holds: exactly the missing
/// tracks whose status check reported them still available.
pub proof fn lemma_removed_candidates_membership(m: Seq<Track>, sts: Seq<TrackStatus>)
    requires
        m.len() == sts.len(),
    ensures
        forall|k: int|
            0 <= k < spec_removed_candidates(m, sts).len() ==> removed_origin(
                m,
                sts,
                #[trigger] spec_removed_candidates(m, sts)[k],
            ),
        forall|i: int|
            0 <= i < m.len() && (#[trigger] sts[i]) is Available ==> spec_removed_candidates(
                m,
                sts,
            ).contains(m[i]),
    decreases m.len(),
{
    if m.len() == 0 {
    } else {
        let dl = m.drop_last();
        let sl = sts.drop_last();
        lemma_removed_candidates_membership(dl, sl);
        let rest = spec_removed_candidates(dl, sl);
        assert forall|k: int|
            0 <= k < spec_removed_candidates(m, sts).len() implies removed_origin(
            m,
            sts,
            #[trigger] spec_removed_candidates(m, sts)[k],
        ) by {
            if k < rest.len() {
                assert(removed_origin(dl, sl, rest[k]));
                let i = choose|i: int|
                    0 <= i < dl.len() && (#[trigger] dl[i]) == rest[k] && sl[i] is Available;
                assert(m[i] == rest[k] && sts[i] is Available);
            } else {
                assert(spec_removed_candidates(m, sts)[k] == m.last());
                assert(m[m.len() - 1] == m.last() && sts[m.len() - 1] is Available);
            }
        }
        assert forall|i: int|
            0 <= i < m.len() && (#[trigger] sts[i]) is Available implies spec_removed_candidates(
            m,
            sts,
        ).contains(m[i]) by {
            if i < m.len() - 1 {
                assert(sl[i] is Available);
                assert(rest.contains(dl[i]));
                let k = choose|k: int| 0 <= k < rest.len() && rest[k] == m[i];
                assert(spec_removed_candidates(m, sts)[k] == m[i]);
            } else {
                assert(spec_removed_candidates(m, sts).last() == m[i]);
            }
        }
    }
}

/// `t` is a missing track whose status check reported it inaccessible.
pub open spec fn restricted_origin(m: Seq<Track>, sts: Seq<TrackStatus>, t: Track) -> bool {
    exists|i: int| 0 <= i < m.len() && (#[trigger] m[i]) == t && sts[i] is Restricted
}

/// Which tracks the restricted-candidate set holds: exactly the missing
/// tracks whose status check reported them inaccessible.
pub proof fn lemma_restricted_candidates_membership(m: Seq<Track>, sts: Seq<TrackStatus>)
    requires
        m.len() == sts.len(),
    ensures
        forall|k: int|
            0 <= k < spec_restricted_candidates(m, sts).len() ==> restricted_origin(
                m,
                sts,
                #[trigger] spec_restricted_candidates(m, sts)[k],
            ),
        forall|i: int|
            0 <= i < m.len() && (#[trigger] sts[i]) is Restricted ==> spec_restricted_candidates(
                m,
                sts,
            ).contains(m[i]),
    decreases m.len(),
{
    if m.len() == 0 {
    } else {
        let dl = m.drop_last();
        let sl = sts.drop_last();
        lemma_restricted_candidates_membership(dl, sl);
        let rest = spec_restricted_candidates(dl, sl);
        assert forall|k: int|
            0 <= k < spec_restricted_candidates(m, sts).len() implies restricted_origin(
            m,
            sts,
            #[trigger] spec_restricted_candidates(m, sts)[k],
        ) by {
            if k < rest.len() {
                assert(restricted_origin(dl, sl, rest[k]));
                let i = choose|i: int|
                    0 <= i < dl.len() && (#[trigger] dl[i]) == rest[k] && sl[i] is Restricted;
                assert(m[i] == rest[k] && sts[i] is Restricted);
            } else {
                assert(spec_restricted_candidates(m, sts)[k] == m.last());
                assert(m[m.len() - 1] == m.last() && sts[m.len() - 1] is Restricted);
            }
        }
        assert forall|i: int|
            0 <= i < m.len() && (#[trigger] sts[i]) is Restricted implies spec_restricted_candidates(
            m,
            sts,
        ).contains(m[i]) by {
            if i < m.len() - 1 {
                assert(sl[i] is Restricted);
                assert(rest.contains(dl[i]));
                let k = choose|k: int| 0 <= k < rest.len() && rest[k] == m[i];
                assert(spec_restricted_candidates(m, sts)[k] == m[i]);
            } else {
                assert(spec_restricted_candidates(m, sts).last() == m[i]);
            }
        }
    }
}

/// The three candidate sets of an id-unique missing list are id-unique
/// and pairwise id-disjoint: the tri-state status check sorts each
/// missing track into exactly one of them.
pub proof fn lemma_candidates_wf(m: Seq<Track>, sts: Seq<TrackStatus>)
    requires
        unique_ids(m),
        m.len() == sts.len(),
    ensures
        unique_ids(spec_deleted_candidates(m, sts)),
        unique_ids(spec_removed_candidates(m, sts)),
        unique_ids(spec_restricted_candidates(m, sts)),
        disjoint_ids(spec_deleted_candidates(m, sts), spec_removed_candidates(m, sts)),
        disjoint_ids(spec_deleted_candidates(m, sts), spec_restricted_candidates(m, sts)),
        disjoint_ids(spec_removed_candidates(m, sts), spec_restricted_candidates(m, sts)),
    decreases m.len(),
{
    if m.len() == 0 {
    } else {
        let dl = m.drop_last();
        let sl = sts.drop_last();
        assert forall|i: int, j: int|
            0 <= i < j < dl.len() implies (#[trigger] dl[i]).id@ != (#[trigger] dl[j]).id@ by {
            assert(m[i].id@ != m[j].id@);
        }
        lemma_candidates_wf(dl, sl);
        lemma_deleted_candidates_membership(dl, sl);
        lemma_removed_candidates_membership(dl, sl);
        lemma_restricted_candidates_membership(dl, sl);
        // an element of any drop-last candidate set is a track of `dl`,
        // so its id differs from the last track's id
        assert forall|k: int|
            0 <= k < spec_deleted_candidates(dl, sl).len() implies (
        #[trigger] spec_deleted_candidates(dl, sl)[k]).id@ != m.last().id@ by {
            assert(deleted_origin(dl, sl, spec_deleted_candidates(dl, sl)[k]));
            let i = choose|i: int|
                0 <= i < dl.len() && (#[trigger] dl[i]) == spec_deleted_candidates(dl, sl)[k]
                    && sl[i] is NotFound;
            assert(m[i].id@ != m[m.len() - 1].id@);
        }
        assert forall|k: int|
            0 <= k < spec_removed_candidates(dl, sl).len() implies (
        #[trigger] spec_removed_candidates(dl, sl)[k]).id@ != m.last().id@ by {
            assert(removed_origin(dl, sl, spec_removed_candidates(dl, sl)[k]));
            let i = choose|i: int|
                0 <= i < dl.len() && (#[trigger] dl[i]) == spec_removed_candidates(dl, sl)[k]
                    && sl[i] is Available;
            assert(m[i].id@ != m[m.len() - 1].id@);
        }
        assert forall|k: int|
            0 <= k < spec_restricted_candidates(dl, sl).len() implies (
        #[trigger] spec_restricted_candidates(dl, sl)[k]).id@ != m.last().id@ by {
            assert(restricted_origin(dl, sl, spec_restricted_candidates(dl, sl)[k]));
            let i = choose|i: int|
                0 <= i < dl.len() && (#[trigger] dl[i]) == spec_restricted_candidates(dl, sl)[k]
                    && sl[i] is Restricted;
            assert(m[i].id@ != m[m.len() - 1].id@);
        }
    }
}

impl SourcePlan {
    /// The plan's actions in execution order.
    pub fn actions(&self) -> (acts: Vec<TrackAction>)
        ensures
            acts@ == spec_actions(*self),
    {
        let mut acts: Vec<TrackAction> = Vec::new();
        push_actions(&mut acts, &self.deleted, Action::Deleted);
        push_actions(&mut acts, &self.undeleted, Action::Undeleted);
        push_actions(&mut acts, &self.removed, Action::Removed);
        push_actions(&mut acts, &self.unremoved, Action::Unremoved);
        push_actions(&mut acts, &self.restricted, Action::Restricted);
        push_actions(&mut acts, &self.unrestricted, Action::Unrestricted);
        push_actions(&mut acts, &self.added, Action::Added);
        acts
    }
}

/// Id-set disjointness gives elementwise id-disjointness.
pub proof fn lemma_no_shared_to_disjoint(a: Seq<Track>, b: Seq<Track>)
    requires
        no_shared_ids(a, b),
    ensures
        disjoint_ids(a, b),
{
    assert forall|i: int| 0 <= i < a.len() implies !has_id(b, (#[trigger] a[i]).id@) by {
        assert(has_id(a, a[i].id@));
    }
}

/// An id occurring in a candidate set occurs among the missing tracks.
pub proof fn lemma_candidate_ids(m: Seq<Track>, sts: Seq<TrackStatus>)
    requires
        m.len() == sts.len(),
    ensures
        forall|id: Seq<char>| #[trigger]
            has_id(spec_deleted_candidates(m, sts), id) ==> has_id(m, id),
        forall|id: Seq<char>| #[trigger]
            has_id(spec_removed_candidates(m, sts), id) ==> has_id(m, id),
        forall|id: Seq<char>| #[trigger]
            has_id(spec_restricted_candidates(m, sts), id) ==> has_id(m, id),
{
    lemma_deleted_candidates_membership(m, sts);
    lemma_removed_candidates_membership(m, sts);
    lemma_restricted_candidates_membership(m, sts);
    assert forall|id: Seq<char>| #[trigger]
        has_id(spec_deleted_candidates(m, sts), id) implies has_id(m, id) by {
        let cand = spec_deleted_candidates(m, sts);
        let k = choose|k: int| 0 <= k < cand.len() && (#[trigger] cand[k]).id@ == id;
        assert(deleted_origin(m, sts, cand[k]));
        let i = choose|i: int| 0 <= i < m.len() && (#[trigger] m[i]) == cand[k] && sts[i] is NotFound;
        assert(m[i].id@ == id);
    }
    assert forall|id: Seq<char>| #[trigger]
        has_id(spec_removed_candidates(m, sts), id) implies has_id(m, id) by {
        let cand = spec_removed_candidates(m, sts);
        let k = choose|k: int| 0 <= k < cand.len() && (#[trigger] cand[k]).id@ == id;
        assert(removed_origin(m, sts, cand[k]));
        let i = choose|i: int|
            0 <= i < m.len() && (#[trigger] m[i]) == cand[k] && sts[i] is Available;
        assert(m[i].id@ == id);
    }
    assert forall|id: Seq<char>| #[trigger]
        has_id(spec_restricted_candidates(m, sts), id) implies has_id(m, id) by {
        let cand = spec_restricted_candidates(m, sts);
        let k = choose|k: int| 0 <= k < cand.len() && (#[trigger] cand[k]).id@ == id;
        assert(restricted_origin(m, sts, cand[k]));
        let i = choose|i: int|
            0 <= i < m.len() && (#[trigger] m[i]) == cand[k] && sts[i] is Restricted;
        assert(m[i].id@ == id);
    }
}

/// The per-source partition invariant: every track id the source knows
/// lives in exactly one of the current entries and the three persisted
/// sets, and no set names an id twice.
pub open spec fn source_state_wf(
    e: Seq<Track>,
    d: Seq<Track>,
    r: Seq<Track>,
    s: Seq<Track>,
) -> bool {
    &&& unique_ids(e)
    &&& unique_ids(d)
    &&& unique_ids(r)
    &&& unique_ids(s)
    &&& no_shared_ids(e, d)
    &&& no_shared_ids(e, r)
    &&& no_shared_ids(e, s)
    &&& no_shared_ids(d, r)
    &&& no_shared_ids(d, s)
    &&& no_shared_ids(r, s)
}

/// A successfully committed cycle preserves the partition invariant: the
/// manifest becomes the entries, and the three new sets are id-unique and
/// pairwise disjoint from each other and from the entries.
pub proof fn lemma_cycle_preserves_partition(
    e: Seq<Track>,
    d: Seq<Track>,
    r: Seq<Track>,
    s: Seq<Track>,
    m: Seq<Track>,
    sts: Seq<TrackStatus>,
    plan: SourcePlan,
)
    requires
        source_state_wf(e, d, r, s),
        unique_ids(m),
        sts.len() == spec_missing(e, m).len(),
        spec_plan(e, d, r, s, m, sts, plan),
    ensures
        source_state_wf(m, plan.deleted_after@, plan.removed_after@, plan.restricted_after@),
{
    let missing = spec_missing(e, m);
    let dc = spec_deleted_candidates(missing, sts);
    let rc = spec_removed_candidates(missing, sts);
    let sc = spec_restricted_candidates(missing, sts);
    let kd = spec_absent(d, m);
    let kr = spec_absent(r, m);
    let ks = spec_absent(s, m);

    lemma_absent_wf(e, m);
    lemma_absent_wf(d, m);
    lemma_absent_wf(r, m);
    lemma_absent_wf(s, m);
    lemma_candidates_wf(missing, sts);
    lemma_candidate_ids(missing, sts);
    lemma_ids_concat(kd, dc);
    lemma_ids_concat(kr, rc);
    lemma_ids_concat(ks, sc);
    lemma_disjoint_to_no_shared(dc, rc);
    lemma_disjoint_to_no_shared(dc, sc);
    lemma_disjoint_to_no_shared(rc, sc);

    // an id in a candidate set comes from the old entries and is not in
    // the manifest; an id in a kept set comes from that old set and is
    // not in the manifest either
    assert forall|id: Seq<char>| #[trigger]
        has_id(missing, id) implies has_id(e, id) && !has_id(m, id) by {}

    // uniqueness of the three new sets
    assert forall|id: Seq<char>|
        #![trigger has_id(kd, id), has_id(dc, id)]
        !(has_id(kd, id) && has_id(dc, id)) by {
        if has_id(kd, id) && has_id(dc, id) {
            assert(has_id(d, id) && has_id(missing, id) && has_id(e, id));
        }
    }
    assert forall|id: Seq<char>|
        #![trigger has_id(kr, id), has_id(rc, id)]
        !(has_id(kr, id) && has_id(rc, id)) by {
        if has_id(kr, id) && has_id(rc, id) {
            assert(has_id(r, id) && has_id(missing, id) && has_id(e, id));
        }
    }
    assert forall|id: Seq<char>|
        #![trigger has_id(ks, id), has_id(sc, id)]
        !(has_id(ks, id) && has_id(sc, id)) by {
        if has_id(ks, id) && has_id(sc, id) {
            assert(has_id(s, id) && has_id(missing, id) && has_id(e, id));
        }
    }
    lemma_no_shared_to_disjoint(kd, dc);
    lemma_no_shared_to_disjoint(kr, rc);
    lemma_no_shared_to_disjoint(ks, sc);
    lemma_unique_concat(kd, dc);
    lemma_unique_concat(kr, rc);
    lemma_unique_concat(ks, sc);

    // the manifest shares no id with any new set
    assert forall|id: Seq<char>|
        #![trigger has_id(m, id), has_id(plan.deleted_after@, id)]
        !(has_id(m, id) && has_id(plan.deleted_after@, id)) by {
        if has_id(m, id) && has_id(plan.deleted_after@, id) {
            assert(has_id(kd, id) || has_id(dc, id));
            assert(!has_id(m, id));
        }
    }
    assert forall|id: Seq<char>|
        #![trigger has_id(m, id), has_id(plan.removed_after@, id)]
        !(has_id(m, id) && has_id(plan.removed_after@, id)) by {
        if has_id(m, id) && has_id(plan.removed_after@, id) {
            assert(has_id(kr, id) || has_id(rc, id));
            assert(!has_id(m, id));
        }
    }
    assert forall|id: Seq<char>|
        #![trigger has_id(m, id), has_id(plan.restricted_after@, id)]
        !(has_id(m, id) && has_id(plan.restricted_after@, id)) by {
        if has_id(m, id) && has_id(plan.restricted_after@, id) {
            assert(has_id(ks, id) || has_id(sc, id));
            assert(!has_id(m, id));
        }
    }

    // the three new sets share no ids with each other
    assert forall|id: Seq<char>|
        #![trigger has_id(plan.deleted_after@, id), has_id(plan.removed_after@, id)]
        !(has_id(plan.deleted_after@, id) && has_id(plan.removed_after@, id)) by {
        if has_id(plan.deleted_after@, id) && has_id(plan.removed_after@, id) {
            if has_id(kd, id) && has_id(kr, id) {
                assert(has_id(d, id) && has_id(r, id));
            } else if has_id(kd, id) && has_id(rc, id) {
                assert(has_id(d, id) && has_id(e, id));
            } else if has_id(dc, id) && has_id(kr, id) {
                assert(has_id(e, id) && has_id(r, id));
            } else {
                assert(has_id(dc, id) && has_id(rc, id));
            }
        }
    }
    assert forall|id: Seq<char>|
        #![trigger has_id(plan.deleted_after@, id), has_id(plan.restricted_after@, id)]
        !(has_id(plan.deleted_after@, id) && has_id(plan.restricted_after@, id)) by {
        if has_id(plan.deleted_after@, id) && has_id(plan.restricted_after@, id) {
            if has_id(kd, id) && has_id(ks, id) {
                assert(has_id(d, id) && has_id(s, id));
            } else if has_id(kd, id) && has_id(sc, id) {
                assert(has_id(d, id) && has_id(e, id));
            } else if has_id(dc, id) && has_id(ks, id) {
                assert(has_id(e, id) && has_id(s, id));
            } else {
                assert(has_id(dc, id) && has_id(sc, id));
            }
        }
    }
    assert forall|id: Seq<char>|
        #![trigger has_id(plan.removed_after@, id), has_id(plan.restricted_after@, id)]
        !(has_id(plan.removed_after@, id) && has_id(plan.restricted_after@, id)) by {
        if has_id(plan.removed_after@, id) && has_id(plan.restricted_after@, id) {
            if has_id(kr, id) && has_id(ks, id) {
                assert(has_id(r, id) && has_id(s, id));
            } else if has_id(kr, id) && has_id(sc, id) {
                assert(has_id(r, id) && has_id(e, id));
            } else if has_id(rc, id) && has_id(ks, id) {
                assert(has_id(e, id) && has_id(s, id));
            } else {
                assert(has_id(rc, id) && has_id(sc, id));
            }
        }
    }
}

/// A cycle against an unchanged manifest — one equal to the recorded
/// entries, with every status unchanged — plans zero actions and leaves
/// the persisted sets exactly as they were: refreshing is idempotent.
pub proof fn lemma_cycle_idempotent(
    e: Seq<Track>,
    d: Seq<Track>,
    r: Seq<Track>,
    s: Seq<Track>,
    sts: Seq<TrackStatus>,
    plan: SourcePlan,
)
    requires
        source_state_wf(e, d, r, s),
        sts.len() == spec_missing(e, e).len(),
        spec_plan(e, d, r, s, e, sts, plan),
    ensures
        spec_actions(plan).len() == 0,
        plan.deleted_after@ == d,
        plan.removed_after@ == r,
        plan.restricted_after@ == s,
{
    // nothing is missing: every recorded entry is in the manifest
    assert forall|i: int| 0 <= i < e.len() implies has_id(e, (#[trigger] e[i]).id@) by {
        assert(0 <= i < e.len() && e[i].id@ == e[i].id@);
    }
    lemma_filter_drops_all(e, |t: Track| !has_id(e, t.id@));
    assert(spec_missing(e, e) == Seq::<Track>::empty());
    let missing = spec_missing(e, e);
    assert(spec_deleted_candidates(missing, sts) == Seq::<Track>::empty());
    assert(spec_removed_candidates(missing, sts) == Seq::<Track>::empty());
    assert(spec_restricted_candidates(missing, sts) == Seq::<Track>::empty());

    // the persisted sets share no id with the manifest: no reversals,
    // and every record is retained
    assert forall|i: int| 0 <= i < d.len() implies !has_id(e, (#[trigger] d[i]).id@) by {
        assert(has_id(d, d[i].id@));
        if has_id(e, d[i].id@) {
            assert(false);
        }
    }
    assert forall|i: int| 0 <= i < r.len() implies !has_id(e, (#[trigger] r[i]).id@) by {
        assert(has_id(r, r[i].id@));
        if has_id(e, r[i].id@) {
            assert(false);
        }
    }
    assert forall|i: int| 0 <= i < s.len() implies !has_id(e, (#[trigger] s[i]).id@) by {
        assert(has_id(s, s[i].id@));
        if has_id(e, s[i].id@) {
            assert(false);
        }
    }
    lemma_filter_drops_all(d, |t: Track| has_id(e, t.id@));
    lemma_filter_retains_all(d, |t: Track| !has_id(e, t.id@));
    lemma_filter_drops_all(r, |t: Track| has_id(e, t.id@));
    lemma_filter_retains_all(r, |t: Track| !has_id(e, t.id@));
    lemma_filter_drops_all(s, |t: Track| has_id(e, t.id@));
    lemma_filter_retains_all(s, |t: Track| !has_id(e, t.id@));
    assert(plan.deleted_after@ =~= d);
    assert(plan.removed_after@ =~= r);
    assert(plan.restricted_after@ =~= s);

    // no additions either: the manifest brought nothing new
    assert(spec_fresh(e, e) == Seq::<Track>::empty());
    assert(spec_absent(spec_fresh(e, e), d).len() == 0);
    assert(spec_absent(spec_absent(spec_fresh(e, e), d), r).len() == 0);
    assert(plan.added@.len() == 0);

    assert(spec_actions(plan).len() == 0);
}

/// The defining property of the manifest diff, over id sets: the fresh
/// ids are disjoint from the old ids, the missing ids are disjoint from
/// the new ids, and removing the missing ids from the old id set and
/// adding the fresh ids gives exactly the new id set.
pub proof fn lemma_diff_id_sets(prev: Seq<Track>, next: Seq<Track>)
    ensures
        id_set(spec_fresh(prev, next)).disjoint(id_set(prev)),
        id_set(spec_missing(prev, next)).disjoint(id_set(next)),
        id_set(prev).difference(id_set(spec_missing(prev, next))).union(
            id_set(spec_fresh(prev, next)),
        ) == id_set(next),
{
    lemma_absent_wf(prev, next);
    lemma_absent_wf(next, prev);
    let missing = spec_missing(prev, next);
    let fresh = spec_fresh(prev, next);
    assert forall|id: Seq<char>| #[trigger]
        has_id(next, id) implies (has_id(prev, id) && !has_id(missing, id)) || has_id(
        fresh,
        id,
    ) by {
        if !has_id(prev, id) {
            let i = choose|i: int| 0 <= i < next.len() && (#[trigger] next[i]).id@ == id;
            assert(!has_id(prev, next[i].id@));
            assert(has_id(fresh, next[i].id@));
        } else {
            if has_id(missing, id) {
                assert(!has_id(next, id));
            }
        }
    }
    assert forall|id: Seq<char>|
        #![trigger has_id(prev, id), has_id(missing, id)]
        has_id(prev, id) && !has_id(missing, id) implies has_id(next, id) by {
        if !has_id(next, id) {
            let i = choose|i: int| 0 <= i < prev.len() && (#[trigger] prev[i]).id@ == id;
            assert(!has_id(next, prev[i].id@));
            assert(has_id(missing, prev[i].id@));
        }
    }
    assert(id_set(fresh).disjoint(id_set(prev)));
    assert(id_set(missing).disjoint(id_set(next)));
    assert(id_set(prev).difference(id_set(missing)).union(id_set(fresh)) =~= id_set(next));
}

/// Every bookkeeping action stands strictly before every addition in a
/// plan's action list: an action at or past the boundary is an addition,
/// one before it is not, so the downloads come last.
pub proof fn lemma_additions_last(plan: SourcePlan)
    ensures
        forall|k: int|
            #![trigger spec_actions(plan)[k]]
            0 <= k < spec_actions(plan).len() ==> ((spec_actions(plan)[k].action is Added) <==> k
                >= spec_actions(plan).len() - plan.added@.len()),
        forall|i: int, j: int|
            #![trigger spec_actions(plan)[i], spec_actions(plan)[j]]
            0 <= i < spec_actions(plan).len() && 0 <= j < spec_actions(plan).len() && !(
            spec_actions(plan)[i].action is Added) && spec_actions(plan)[j].action is Added ==> i
                < j,
{
    let s1 = acts_of(plan.deleted@, Action::Deleted);
    let s2 = acts_of(plan.undeleted@, Action::Undeleted);
    let s3 = acts_of(plan.removed@, Action::Removed);
    let s4 = acts_of(plan.unremoved@, Action::Unremoved);
    let s5 = acts_of(plan.restricted@, Action::Restricted);
    let s6 = acts_of(plan.unrestricted@, Action::Unrestricted);
    let s7 = acts_of(plan.added@, Action::Added);
    let acts = spec_actions(plan);
    let n1 = s1.len() as int;
    let n2 = n1 + s2.len();
    let n3 = n2 + s3.len();
    let n4 = n3 + s4.len();
    let n5 = n4 + s5.len();
    let n6 = n5 + s6.len();
    assert forall|k: int|
        0 <= k < acts.len() implies (((#[trigger] acts[k]).action is Added) <==> k >= acts.len()
        - s7.len()) by {
        if k >= n6 {
            assert(acts[k] == s7[k - n6]);
            assert(s7[k - n6].action == Action::Added);
        } else if k < n1 {
            assert(acts[k] == s1[k]);
            assert(s1[k].action == Action::Deleted);
        } else if k < n2 {
            assert(acts[k] == s2[k - n1]);
            assert(s2[k - n1].action == Action::Undeleted);
        } else if k < n3 {
            assert(acts[k] == s3[k - n2]);
            assert(s3[k - n2].action == Action::Removed);
        } else if k < n4 {
            assert(acts[k] == s4[k - n3]);
            assert(s4[k - n3].action == Action::Unremoved);
        } else if k < n5 {
            assert(acts[k] == s5[k - n4]);
            assert(s5[k - n4].action == Action::Restricted);
        } else {
            assert(acts[k] == s6[k - n5]);
            assert(s6[k - n5].action == Action::Unrestricted);
        }
    }
}

/// A track that goes missing and is found restricted in one cycle, then
/// reappears in the next cycle's manifest, is recorded restricted after
/// the first cycle, classified unrestricted in the second, and leaves
/// the restricted set while the manifest — the new entries — holds it:
/// it never stands in both places.
pub proof fn lemma_restricted_reversal_round_trip(
    e: Seq<Track>,
    d: Seq<Track>,
    r: Seq<Track>,
    s: Seq<Track>,
    m1: Seq<Track>,
    sts1: Seq<TrackStatus>,
    plan1: SourcePlan,
    m2: Seq<Track>,
    sts2: Seq<TrackStatus>,
    plan2: SourcePlan,
    t: Track,
    j: int,
)
    requires
        source_state_wf(e, d, r, s),
        unique_ids(m1),
        unique_ids(m2),
        sts1.len() == spec_missing(e, m1).len(),
        spec_plan(e, d, r, s, m1, sts1, plan1),
        // in the first cycle t goes missing and its status check reports
        // it restricted
        0 <= j < spec_missing(e, m1).len(),
        spec_missing(e, m1)[j] == t,
        sts1[j] is Restricted,
        // the second cycle starts from the first cycle's outcome and
        // fetches a manifest that contains t again
        sts2.len() == spec_missing(m1, m2).len(),
        spec_plan(
            m1,
            plan1.deleted_after@,
            plan1.removed_after@,
            plan1.restricted_after@,
            m2,
            sts2,
            plan2,
        ),
        has_id(m2, t.id@),
    ensures
        has_id(plan1.restricted_after@, t.id@),
        has_id(plan2.unrestricted@, t.id@),
        !has_id(plan2.restricted_after@, t.id@),
{
    let missing1 = spec_missing(e, m1);
    let sc1 = spec_restricted_candidates(missing1, sts1);
    let s1 = plan1.restricted_after@;

    // the first cycle records t as restricted
    lemma_restricted_candidates_membership(missing1, sts1);
    assert(sc1.contains(missing1[j]));
    let k1 = choose|k: int| 0 <= k < sc1.len() && sc1[k] == t;
    assert(sc1[k1].id@ == t.id@);
    assert(has_id(sc1, t.id@));
    lemma_ids_concat(spec_absent(s, m1), sc1);
    assert(has_id(s1, t.id@));

    // the second cycle classifies it unrestricted
    lemma_present_wf(s1, m2);
    let i1 = choose|i: int| 0 <= i < s1.len() && (#[trigger] s1[i]).id@ == t.id@;
    assert(has_id(m2, s1[i1].id@));
    assert(has_id(spec_present(s1, m2), s1[i1].id@));
    assert(has_id(plan2.unrestricted@, t.id@));

    // and t does not stay in the restricted set
    let missing2 = spec_missing(m1, m2);
    let sc2 = spec_restricted_candidates(missing2, sts2);
    lemma_absent_wf(s1, m2);
    lemma_absent_wf(m1, m2);
    lemma_candidate_ids(missing2, sts2);
    lemma_ids_concat(spec_absent(s1, m2), sc2);
    if has_id(plan2.restricted_after@, t.id@) {
        if has_id(spec_absent(s1, m2), t.id@) {
            assert(!has_id(m2, t.id@));
        } else {
            assert(has_id(sc2, t.id@));
            assert(has_id(missing2, t.id@));
            assert(!has_id(m2, t.id@));
        }
    }
}


/// A three-track playlist loses its middle track, and the status check
/// still finds that track available: the cycle plans exactly one
/// action, a removal of that track; the removed set becomes that one
/// track; nothing else changes and nothing is downloaded.
pub proof fn lemma_available_missing_track_cycle(
    a: Track,
    b: Track,
    c: Track,
    a2: Track,
    c2: Track,
    sts: Seq<TrackStatus>,
    plan: SourcePlan,
)
    requires
        a.id@ == a2.id@,
        c.id@ == c2.id@,
        a.id@ != b.id@,
        a.id@ != c.id@,
        b.id@ != c.id@,
        sts.len() == 1,
        sts[0] is Available,
        spec_plan(
            seq![a, b, c],
            Seq::empty(),
            Seq::empty(),
            Seq::empty(),
            seq![a2, c2],
            sts,
            plan,
        ),
    ensures
        plan.removed@ == seq![b],
        plan.removed_after@ == seq![b],
        plan.deleted@ == Seq::<Track>::empty(),
        plan.restricted@ == Seq::<Track>::empty(),
        plan.undeleted@ == Seq::<Track>::empty(),
        plan.unremoved@ == Seq::<Track>::empty(),
        plan.unrestricted@ == Seq::<Track>::empty(),
        plan.added@ == Seq::<Track>::empty(),
        plan.deleted_after@ == Seq::<Track>::empty(),
        plan.restricted_after@ == Seq::<Track>::empty(),
        spec_actions(plan) == seq![(TrackAction { track: b, action: Action::Removed })],
{
    let e = seq![a, b, c];
    let m = seq![a2, c2];
    let none = Seq::<Track>::empty();

    // the only missing track is b
    assert(m[0] == a2 && m[1] == c2);
    assert(has_id(m, a.id@));
    assert(has_id(m, c.id@));
    assert(forall|i: int| 0 <= i < m.len() ==> (#[trigger] m[i]).id@ != b.id@);
    assert(!has_id(m, b.id@));
    assert(none.push(a) =~= seq![a]);
    assert(seq![a].push(b) =~= seq![a, b]);
    assert(seq![a, b].push(c) =~= e);
    lemma_split_push(none, m, a);
    lemma_split_push(seq![a], m, b);
    lemma_split_push(seq![a, b], m, c);
    assert(spec_absent(none, m).len() == 0);
    assert(spec_missing(e, m) =~= seq![b]);

    // the status check sorts b into the removed candidates alone
    let st = sts[0];
    assert(sts =~= Seq::<TrackStatus>::empty().push(st));
    assert(seq![b] =~= none.push(b));
    lemma_candidates_push(none, Seq::<TrackStatus>::empty(), b, st);
    assert(spec_deleted_candidates(none, Seq::<TrackStatus>::empty()).len() == 0);
    assert(spec_removed_candidates(none, Seq::<TrackStatus>::empty()).len() == 0);
    assert(spec_restricted_candidates(none, Seq::<TrackStatus>::empty()).len() == 0);
    assert(spec_removed_candidates(spec_missing(e, m), sts) =~= seq![b]);
    assert(spec_deleted_candidates(spec_missing(e, m), sts) =~= none);
    assert(spec_restricted_candidates(spec_missing(e, m), sts) =~= none);

    // the persisted sets are empty, so there are no reversals and
    // nothing is retained
    assert(spec_present(none, m).len() == 0);
    assert(spec_absent(none, m).len() == 0);

    // both manifest tracks were already recorded, so nothing is new
    assert(has_id(e, a2.id@));
    assert(has_id(e, c2.id@));
    assert(none.push(a2) =~= seq![a2]);
    assert(seq![a2].push(c2) =~= m);
    lemma_split_push(none, e, a2);
    lemma_split_push(seq![a2], e, c2);
    assert(spec_fresh(e, m).len() == 0);
    assert(spec_added(e, m, none, none, none).len() == 0);

    assert(plan.removed@ =~= seq![b]);
    assert(plan.removed_after@ =~= seq![b]);

    // one action: the removal marker, and no download
    assert(acts_of(plan.removed@, Action::Removed) =~= seq![
        (TrackAction { track: b, action: Action::Removed }),
    ]);
    assert(spec_actions(plan) =~= seq![(TrackAction { track: b, action: Action::Removed })]);
}

/// The same playlist and the same missing track, but the status check
/// reports it gone from the service: the cycle plans exactly one
/// action, recording the deletion; the deleted set becomes that one
/// track.
pub proof fn lemma_gone_missing_track_cycle(
    a: Track,
    b: Track,
    c: Track,
    a2: Track,
    c2: Track,
    sts: Seq<TrackStatus>,
    plan: SourcePlan,
)
    requires
        a.id@ == a2.id@,
        c.id@ == c2.id@,
        a.id@ != b.id@,
        a.id@ != c.id@,
        b.id@ != c.id@,
        sts.len() == 1,
        sts[0] is NotFound,
        spec_plan(
            seq![a, b, c],
            Seq::empty(),
            Seq::empty(),
            Seq::empty(),
            seq![a2, c2],
            sts,
            plan,
        ),
    ensures
        plan.deleted@ == seq![b],
        plan.deleted_after@ == seq![b],
        plan.removed@ == Seq::<Track>::empty(),
        plan.restricted@ == Seq::<Track>::empty(),
        plan.undeleted@ == Seq::<Track>::empty(),
        plan.unremoved@ == Seq::<Track>::empty(),
        plan.unrestricted@ == Seq::<Track>::empty(),
        plan.added@ == Seq::<Track>::empty(),
        plan.removed_after@ == Seq::<Track>::empty(),
        plan.restricted_after@ == Seq::<Track>::empty(),
        spec_actions(plan) == seq![(TrackAction { track: b, action: Action::Deleted })],
{
    let e = seq![a, b, c];
    let m = seq![a2, c2];
    let none = Seq::<Track>::empty();

    assert(m[0] == a2 && m[1] == c2);
    assert(has_id(m, a.id@));
    assert(has_id(m, c.id@));
    assert(forall|i: int| 0 <= i < m.len() ==> (#[trigger] m[i]).id@ != b.id@);
    assert(!has_id(m, b.id@));
    assert(none.push(a) =~= seq![a]);
    assert(seq![a].push(b) =~= seq![a, b]);
    assert(seq![a, b].push(c) =~= e);
    lemma_split_push(none, m, a);
    lemma_split_push(seq![a], m, b);
    lemma_split_push(seq![a, b], m, c);
    assert(spec_absent(none, m).len() == 0);
    assert(spec_missing(e, m) =~= seq![b]);

    let st = sts[0];
    assert(sts =~= Seq::<TrackStatus>::empty().push(st));
    assert(seq![b] =~= none.push(b));
    lemma_candidates_push(none, Seq::<TrackStatus>::empty(), b, st);
    assert(spec_deleted_candidates(none, Seq::<TrackStatus>::empty()).len() == 0);
    assert(spec_removed_candidates(none, Seq::<TrackStatus>::empty()).len() == 0);
    assert(spec_restricted_candidates(none, Seq::<TrackStatus>::empty()).len() == 0);
    assert(spec_deleted_candidates(spec_missing(e, m), sts) =~= seq![b]);
    assert(spec_removed_candidates(spec_missing(e, m), sts) =~= none);
    assert(spec_restricted_candidates(spec_missing(e, m), sts) =~= none);

    assert(spec_present(none, m).len() == 0);
    assert(spec_absent(none, m).len() == 0);

    assert(has_id(e, a2.id@));
    assert(has_id(e, c2.id@));
    assert(none.push(a2) =~= seq![a2]);
    assert(seq![a2].push(c2) =~= m);
    lemma_split_push(none, e, a2);
    lemma_split_push(seq![a2], e, c2);
    assert(spec_fresh(e, m).len() == 0);
    assert(spec_added(e, m, none, none, none).len() == 0);

    assert(plan.deleted@ =~= seq![b]);
    assert(plan.deleted_after@ =~= seq![b]);

    assert(acts_of(plan.deleted@, Action::Deleted) =~= seq![
        (TrackAction { track: b, action: Action::Deleted }),
    ]);
    assert(spec_actions(plan) =~= seq![(TrackAction { track: b, action: Action::Deleted })]);
}

/// After such a removal, the next fetch includes the track again: the
/// cycle plans exactly one action, the reversal of the removal; the
/// removed set empties, and the track is not planned as an addition —
/// it stands in the manifest, which becomes the entries, at its
/// reported position.
#[verifier::rlimit(50)]
pub proof fn lemma_reappearing_removed_track_cycle(
    a: Track,
    b: Track,
    c: Track,
    a2: Track,
    b2: Track,
    c2: Track,
    plan: SourcePlan,
)
    requires
        a.id@ == a2.id@,
        b.id@ == b2.id@,
        c.id@ == c2.id@,
        a.id@ != b.id@,
        a.id@ != c.id@,
        b.id@ != c.id@,
        spec_plan(
            seq![a, c],
            Seq::empty(),
            seq![b],
            Seq::empty(),
            seq![a2, b2, c2],
            Seq::empty(),
            plan,
        ),
    ensures
        plan.unremoved@ == seq![b],
        plan.removed_after@ == Seq::<Track>::empty(),
        plan.deleted@ == Seq::<Track>::empty(),
        plan.removed@ == Seq::<Track>::empty(),
        plan.restricted@ == Seq::<Track>::empty(),
        plan.undeleted@ == Seq::<Track>::empty(),
        plan.unrestricted@ == Seq::<Track>::empty(),
        plan.added@ == Seq::<Track>::empty(),
        plan.deleted_after@ == Seq::<Track>::empty(),
        plan.restricted_after@ == Seq::<Track>::empty(),
        spec_actions(plan) == seq![(TrackAction { track: b, action: Action::Unremoved })],
        has_id(seq![a2, b2, c2], b.id@),
{
    let e = seq![a, c];
    let m = seq![a2, b2, c2];
    let none = Seq::<Track>::empty();
    let nosts = Seq::<TrackStatus>::empty();

    // every recorded entry is still in the manifest: nothing is missing
    assert(m[0] == a2 && m[1] == b2 && m[2] == c2);
    assert(has_id(m, a.id@));
    assert(has_id(m, b.id@));
    assert(has_id(m, c.id@));
    assert(none.push(a) =~= seq![a]);
    assert(seq![a].push(c) =~= e);
    lemma_split_push(none, m, a);
    lemma_split_push(seq![a], m, c);
    assert(spec_absent(none, m).len() == 0);
    assert(spec_missing(e, m) =~= none);

    assert(spec_deleted_candidates(spec_missing(e, m), nosts) =~= none);
    assert(spec_removed_candidates(spec_missing(e, m), nosts) =~= none);
    assert(spec_restricted_candidates(spec_missing(e, m), nosts) =~= none);

    // the recorded removal reverses: b reappeared
    assert(seq![b] =~= none.push(b));
    lemma_split_push(none, m, b);
    assert(spec_present(none, m).len() == 0);
    assert(spec_present(seq![b], m) =~= seq![b]);
    assert(spec_absent(seq![b], m) =~= none);

    // the reappearing track is not an addition: it is subtracted with
    // the removed set
    assert(has_id(e, a2.id@));
    assert(has_id(e, c2.id@));
    assert(forall|i: int| 0 <= i < e.len() ==> (#[trigger] e[i]).id@ != b2.id@);
    assert(!has_id(e, b2.id@));
    assert(none.push(a2) =~= seq![a2]);
    assert(seq![a2].push(b2) =~= seq![a2, b2]);
    assert(seq![a2, b2].push(c2) =~= m);
    lemma_split_push(none, e, a2);
    lemma_split_push(seq![a2], e, b2);
    lemma_split_push(seq![a2, b2], e, c2);
    assert(spec_fresh(e, m) =~= seq![b2]);
    assert(seq![b2] =~= none.push(b2));
    lemma_split_push(none, none, b2);
    assert(spec_absent(none, none).len() == 0);
    assert(!has_id(none, b2.id@));
    assert(spec_absent(seq![b2], none) =~= seq![b2]);
    assert(seq![b][0] == b);
    assert(has_id(seq![b], b2.id@));
    lemma_split_push(none, seq![b], b2);
    assert(spec_absent(none, seq![b]).len() == 0);
    assert(spec_absent(seq![b2], seq![b]) =~= none);
    assert(spec_added(e, m, none, seq![b], none).len() == 0);

    assert(plan.unremoved@ =~= seq![b]);
    assert(plan.removed_after@ =~= none);

    assert(acts_of(plan.unremoved@, Action::Unremoved) =~= seq![
        (TrackAction { track: b, action: Action::Unremoved }),
    ]);
    assert(spec_actions(plan) =~= seq![(TrackAction { track: b, action: Action::Unremoved })]);
}

} // verus!
