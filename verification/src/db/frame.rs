//! What each edit of the catalog leaves alone: the tracks, releases and
//! placements other than the ones it is about.

use vstd::prelude::*;
use crate::db::releases::{release_index, spec_create_release, spec_delete_release, spec_update_release};
use crate::db::store::{lemma_max_release_id, lemma_max_track_id, CatalogView, LinkView};
use crate::models::{ReleaseInputView, TrackInputView};
use crate::db::tracks::{spec_create_track, spec_delete_track, spec_update_track, track_index};

verus! {

/// A track of `c2` is a track of `c`, and ids are unique in `c`: then a
/// track that `c2` finds by an id is the one `c` finds by it.
proof fn lemma_same_track_found(c: CatalogView, c2: CatalogView, x: i64)
    requires
        c.wf(),
        forall|j: int| 0 <= j < c2.tracks.len() ==> c.tracks.contains(#[trigger] c2.tracks[j]),
        c.has_track(x) ==> c2.has_track(x),
    ensures
        c2.track_by_id(x) == c.track_by_id(x),
{
    if c2.has_track(x) {
        let j = choose|j: int| 0 <= j < c2.tracks.len() && #[trigger] c2.tracks[j].id == x;
        assert(c.tracks.contains(c2.tracks[j]));
        let i = choose|i: int| 0 <= i < c.tracks.len() && c.tracks[i] == c2.tracks[j];
        assert(c.tracks[i].id == x);
        let k = choose|k: int| 0 <= k < c.tracks.len() && #[trigger] c.tracks[k].id == x;
        if i != k {
            if i < k {
                assert(c.tracks[i].id != c.tracks[k].id);
            } else {
                assert(c.tracks[k].id != c.tracks[i].id);
            }
        }
    }
}

/// A release of `c2` is a release of `c`, and ids are unique in `c`: then
/// a release that `c2` finds by an id is the one `c` finds by it.
proof fn lemma_same_release_found(c: CatalogView, c2: CatalogView, x: i64)
    requires
        c.wf(),
        forall|j: int| 0 <= j < c2.releases.len() ==> c.releases.contains(#[trigger] c2.releases[j]),
        c.has_release(x) ==> c2.has_release(x),
    ensures
        c2.release_by_id(x) == c.release_by_id(x),
{
    if c2.has_release(x) {
        let j = choose|j: int| 0 <= j < c2.releases.len() && #[trigger] c2.releases[j].id == x;
        assert(c.releases.contains(c2.releases[j]));
        let i = choose|i: int| 0 <= i < c.releases.len() && c.releases[i] == c2.releases[j];
        assert(c.releases[i].id == x);
        let k = choose|k: int| 0 <= k < c.releases.len() && #[trigger] c.releases[k].id == x;
        if i != k {
            if i < k {
                assert(c.releases[i].id != c.releases[k].id);
            } else {
                assert(c.releases[k].id != c.releases[i].id);
            }
        }
    }
}

/// A link of `c2` is a link of `c`: then the link that places a track in
/// `c2`, if any, is the one that placed it in `c`.
proof fn lemma_same_link_found(c: CatalogView, c2: CatalogView, y: i64)
    requires
        c.wf(),
        forall|j: int| 0 <= j < c2.links.len() ==> c.links.contains(#[trigger] c2.links[j]),
    ensures
        c2.is_assigned(y) ==> c2.link_of_track(y) == c.link_of_track(y),
{
    if c2.is_assigned(y) {
        let j = choose|j: int| 0 <= j < c2.links.len() && #[trigger] c2.links[j].track_id == y;
        assert(c.links.contains(c2.links[j]));
        let i = choose|i: int| 0 <= i < c.links.len() && c.links[i] == c2.links[j];
        assert(c.links[i].track_id == y);
        assert(c.is_assigned(y));
        let k = choose|k: int| 0 <= k < c.links.len() && #[trigger] c.links[k].track_id == y;
        if i != k {
            if i < k {
                assert(c.links[i].track_id != c.links[k].track_id);
            } else {
                assert(c.links[k].track_id != c.links[i].track_id);
            }
        }
    }
}

/// Creating a track gives it an id that no track had (above every id in
/// use) and leaves every other track, every release and every placement as
/// it was.
pub proof fn lemma_create_track_keeps_others(c: CatalogView, input: TrackInputView, now: Seq<char>, x: i64)
    requires
        c.wf(),
        spec_create_track(c, input, now) is Ok,
    ensures
        spec_create_track(c, input, now) matches Ok((c2, t)) && !c.has_track(t.id) && (forall|i: int|
            0 <= i < c.tracks.len() ==> #[trigger] c.tracks[i].id < t.id) && (x != t.id ==> c2.track_by_id(x)
            == c.track_by_id(x)) && c2.releases == c.releases && c2.links == c.links,
{
    let (c2, t) = spec_create_track(c, input, now)->Ok_0;
    lemma_max_track_id(c.tracks);
    let n = c.tracks.len() as int;
    if x != t.id {
        if c.has_track(x) {
            let k = choose|k: int| 0 <= k < c.tracks.len() && #[trigger] c.tracks[k].id == x;
            assert(c2.tracks[k] == c.tracks[k]);
        }
        if c2.has_track(x) {
            let j = choose|j: int| 0 <= j < c2.tracks.len() && #[trigger] c2.tracks[j].id == x;
            assert(j < n && c2.tracks[j] == c.tracks[j]);
            let k = choose|k: int| 0 <= k < c.tracks.len() && #[trigger] c.tracks[k].id == x;
            if j != k {
                if j < k {
                    assert(c.tracks[j].id != c.tracks[k].id);
                } else {
                    assert(c.tracks[k].id != c.tracks[j].id);
                }
            }
        }
    }
}

/// Editing a track leaves every other track, every release and every
/// placement as it was.
pub proof fn lemma_update_track_keeps_others(
    c: CatalogView,
    id: i64,
    input: TrackInputView,
    now: Seq<char>,
    x: i64,
)
    requires
        c.wf(),
        spec_update_track(c, id, input, now) is Ok,
        x != id,
    ensures
        spec_update_track(c, id, input, now) matches Ok((c2, t)) && c2.track_by_id(x)
            == c.track_by_id(x) && c2.releases == c.releases && c2.links == c.links,
{
    let (c2, t) = spec_update_track(c, id, input, now)->Ok_0;
    let k = track_index(c, id);
    assert(c.has_track(id));
    assert(0 <= k < c.tracks.len() && c.tracks[k].id == id);
    if c.has_track(x) {
        let i = choose|i: int| 0 <= i < c.tracks.len() && #[trigger] c.tracks[i].id == x;
        assert(i != k);
        assert(c2.tracks[i] == c.tracks[i]);
    }
    assert forall|j: int| 0 <= j < c2.tracks.len() && #[trigger] c2.tracks[j].id == x implies c2.tracks[j]
        == c.tracks[j] by {
        assert(c2.tracks[k].id == id);
    }
    lemma_found_in_place(c, c2, x);
}

/// Both catalogs have as many tracks, and every track of `c2` that has id
/// `x` is the track of `c` at the same place: then both find the same track
/// by `x`, provided `c` finds one wherever `c2` does.
proof fn lemma_found_in_place(c: CatalogView, c2: CatalogView, x: i64)
    requires
        c.wf(),
        c2.tracks.len() == c.tracks.len(),
        forall|j: int| 0 <= j < c2.tracks.len() && #[trigger] c2.tracks[j].id == x ==> c2.tracks[j]
            == c.tracks[j],
        c.has_track(x) ==> c2.has_track(x),
    ensures
        c2.track_by_id(x) == c.track_by_id(x),
{
    if c2.has_track(x) {
        let j = choose|j: int| 0 <= j < c2.tracks.len() && #[trigger] c2.tracks[j].id == x;
        assert(c.tracks[j].id == x);
        let k = choose|k: int| 0 <= k < c.tracks.len() && #[trigger] c.tracks[k].id == x;
        if j != k {
            if j < k {
                assert(c.tracks[j].id != c.tracks[k].id);
            } else {
                assert(c.tracks[k].id != c.tracks[j].id);
            }
        }
    }
}

/// Deleting a track leaves every other track, every release and every
/// other track's placement as it was.
pub proof fn lemma_delete_track_keeps_others(c: CatalogView, id: i64, x: i64)
    requires
        c.wf(),
        x != id,
    ensures
        spec_delete_track(c, id).track_by_id(x) == c.track_by_id(x),
        spec_delete_track(c, id).link_of_track(x) == c.link_of_track(x),
        spec_delete_track(c, id).releases == c.releases,
{
    let c2 = spec_delete_track(c, id);
    if c.has_track(id) {
        let k = track_index(c, id);
        assert forall|j: int| 0 <= j < c2.tracks.len() implies c.tracks.contains(#[trigger] c2.tracks[j]) by {
            let oj = if j < k { j } else { j + 1 };
            assert(c2.tracks[j] == c.tracks[oj]);
        }
        if c.has_track(x) {
            let i = choose|i: int| 0 <= i < c.tracks.len() && #[trigger] c.tracks[i].id == x;
            assert(i != k);
            let j = if i < k { i } else { i - 1 };
            assert(c2.tracks[j] == c.tracks[i]);
        }
        lemma_same_track_found(c, c2, x);
        let l = choose|l: int| 0 <= l < c.links.len() && #[trigger] c.links[l].track_id == id;
        assert forall|j: int| 0 <= j < c2.links.len() implies c.links.contains(#[trigger] c2.links[j]) by {
            if c.is_assigned(id) {
                let oj = if j < l { j } else { j + 1 };
                assert(c2.links[j] == c.links[oj]);
            } else {
                assert(c2.links[j] == c.links[j]);
            }
        }
        if c.is_assigned(x) {
            let i = choose|i: int| 0 <= i < c.links.len() && #[trigger] c.links[i].track_id == x;
            if c.is_assigned(id) {
                assert(i != l);
                let j = if i < l { i } else { i - 1 };
                assert(c2.links[j] == c.links[i]);
            } else {
                assert(c2.links[i] == c.links[i]);
            }
        }
        lemma_same_link_found(c, c2, x);
    }
}

/// Creating a release gives it an id that no release had (above every id
/// in use) and leaves every other release, every track and every placement
/// as it was.
pub proof fn lemma_create_release_keeps_others(
    c: CatalogView,
    input: ReleaseInputView,
    now: Seq<char>,
    x: i64,
)
    requires
        c.wf(),
        spec_create_release(c, input, now) is Ok,
    ensures
        spec_create_release(c, input, now) matches Ok((c2, r)) && !c.has_release(r.id) && (forall|i: int|
            0 <= i < c.releases.len() ==> #[trigger] c.releases[i].id < r.id) && (x != r.id
            ==> c2.release_by_id(x) == c.release_by_id(x)) && c2.tracks == c.tracks && c2.links
            == c.links,
{
    let (c2, r) = spec_create_release(c, input, now)->Ok_0;
    lemma_max_release_id(c.releases);
    let n = c.releases.len() as int;
    assert(c2.releases[n].id == r.id);
    if x != r.id {
        assert forall|j: int| 0 <= j < c2.releases.len() && #[trigger] c2.releases[j].id == x implies c.releases.contains(c2.releases[j]) by {
            assert(j < n);
            assert(c2.releases[j] == c.releases[j]);
        }
        if c.has_release(x) {
            let k = choose|k: int| 0 <= k < c.releases.len() && #[trigger] c.releases[k].id == x;
            assert(c2.releases[k] == c.releases[k]);
        }
        if c2.has_release(x) {
            let j = choose|j: int| 0 <= j < c2.releases.len() && #[trigger] c2.releases[j].id == x;
            assert(j < n && c2.releases[j] == c.releases[j]);
            let k = choose|k: int| 0 <= k < c.releases.len() && #[trigger] c.releases[k].id == x;
            if j != k {
                if j < k {
                    assert(c.releases[j].id != c.releases[k].id);
                } else {
                    assert(c.releases[k].id != c.releases[j].id);
                }
            }
        }
    }
}

/// Editing a release leaves every other release, every track and every
/// placement as it was.
pub proof fn lemma_update_release_keeps_others(
    c: CatalogView,
    id: i64,
    input: ReleaseInputView,
    now: Seq<char>,
    x: i64,
)
    requires
        c.wf(),
        spec_update_release(c, id, input, now) is Ok,
        x != id,
    ensures
        spec_update_release(c, id, input, now) matches Ok((c2, r)) && c2.release_by_id(x)
            == c.release_by_id(x) && c2.tracks == c.tracks && c2.links == c.links,
{
    let (c2, r) = spec_update_release(c, id, input, now)->Ok_0;
    let k = release_index(c, id);
    assert(c.has_release(id));
    assert(0 <= k < c.releases.len() && c.releases[k].id == id);
    if c.has_release(x) {
        let i = choose|i: int| 0 <= i < c.releases.len() && #[trigger] c.releases[i].id == x;
        assert(i != k);
        assert(c2.releases[i] == c.releases[i]);
    }
    if c2.has_release(x) {
        let j = choose|j: int| 0 <= j < c2.releases.len() && #[trigger] c2.releases[j].id == x;
        assert(j != k);
        assert(c2.releases[j] == c.releases[j]);
        let i = choose|i: int| 0 <= i < c.releases.len() && #[trigger] c.releases[i].id == x;
        if i != j {
            if i < j {
                assert(c.releases[i].id != c.releases[j].id);
            } else {
                assert(c.releases[j].id != c.releases[i].id);
            }
        }
    }
}

/// Deleting a release leaves every other release and every track as it
/// was; a track it held sits in no release any more, and every other
/// track keeps its placement.
pub proof fn lemma_delete_release_keeps_others(c: CatalogView, id: i64, x: i64, y: i64)
    requires
        c.wf(),
    ensures
        x != id ==> spec_delete_release(c, id).0.release_by_id(x) == c.release_by_id(x),
        spec_delete_release(c, id).0.tracks == c.tracks,
        spec_delete_release(c, id).0.link_of_track(y) == (match c.link_of_track(y) {
            Some(l) => if l.release_id == id {
                None
            } else {
                Some(l)
            },
            None => None,
        }),
{
    let c2 = spec_delete_release(c, id).0;
    if c.has_release(id) {
        let k = release_index(c, id);
        if x != id {
            assert forall|j: int| 0 <= j < c2.releases.len() implies c.releases.contains(#[trigger] c2.releases[j]) by {
                let oj = if j < k { j } else { j + 1 };
                assert(c2.releases[j] == c.releases[oj]);
            }
            if c.has_release(x) {
                let i = choose|i: int| 0 <= i < c.releases.len() && #[trigger] c.releases[i].id == x;
                assert(i != k);
                let j = if i < k { i } else { i - 1 };
                assert(c2.releases[j] == c.releases[i]);
            }
            lemma_same_release_found(c, c2, x);
        }
        let keep = |l: LinkView| l.release_id != id;
        assert forall|j: int| 0 <= j < c2.links.len() implies c.links.contains(#[trigger] c2.links[j]) by {
            assert(c.links.filter(keep).contains(c2.links[j]));
            c.links.lemma_filter_contains_rev(keep, c2.links[j]);
        }
        lemma_same_link_found(c, c2, y);
        if c.is_assigned(y) {
            let i = choose|i: int| 0 <= i < c.links.len() && #[trigger] c.links[i].track_id == y;
            if c.links[i].release_id != id {
                c.links.lemma_filter_contains(keep, i);
                let j = choose|j: int| 0 <= j < c2.links.len() && c2.links[j] == c.links[i];
                assert(c2.links[j].track_id == y);
            } else if c2.is_assigned(y) {
                let j = choose|j: int| 0 <= j < c2.links.len() && #[trigger] c2.links[j].track_id == y;
                c.links.lemma_filter_pred(keep, j);
            }
        }
    }
}

} // verus!
