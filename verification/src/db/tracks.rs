//! Creating, reading, editing and deleting tracks.

use vstd::prelude::*;
use crate::clock::now_iso;
use crate::db::store::{lemma_max_track_id, max_track_id, Catalog, CatalogView};
use crate::db::validate::{track_input_error, validate_track_input};
use crate::models::{Track, TrackInput, TrackInputView, TrackView};
use crate::text::{trim, trim_opt, trim_seq, trim_to_opt};

verus! {

/// The message of a second track with the same internal code.
pub open spec fn track_code_unique_message() -> Seq<char> {
    "Track Internal Code must be unique"@
}

/// The message of a table whose ids are used up.
pub open spec fn ids_exhausted_message() -> Seq<char> {
    "database or disk is full"@
}

/// The track stored for an input: texts trimmed, blank optional texts
/// dropped, stamped `now`.
pub open spec fn track_from_input(i: TrackInputView, id: i64, created_at: Seq<char>, updated_at: Seq<char>) -> TrackView {
    TrackView {
        id,
        internal_code: trim_seq(i.internal_code),
        title: trim_seq(i.title),
        status: i.status,
        description: trim_opt(i.description),
        lyrics: trim_opt(i.lyrics),
        notes: trim_opt(i.notes),
        bpm: i.bpm,
        key: trim_opt(i.key),
        created_at,
        updated_at,
    }
}

/// Creating a track: the input must pass validation, its trimmed internal
/// code must be new, and it gets the next id.
pub open spec fn spec_create_track(c: CatalogView, i: TrackInputView, now: Seq<char>) -> Result<
    (CatalogView, TrackView),
    Seq<char>,
> {
    if track_input_error(i) is Some {
        Err(track_input_error(i)->Some_0)
    } else if c.track_code_taken(trim_seq(i.internal_code), None) {
        Err(track_code_unique_message())
    } else if max_track_id(c.tracks) == i64::MAX {
        Err(ids_exhausted_message())
    } else {
        let t = track_from_input(i, (max_track_id(c.tracks) + 1) as i64, now, now);
        Ok((CatalogView { tracks: c.tracks.push(t), ..c }, t))
    }
}

/// The position of the track with this id (meaningful when it exists).
pub open spec fn track_index(c: CatalogView, id: i64) -> int {
    choose|k: int| 0 <= k < c.tracks.len() && #[trigger] c.tracks[k].id == id
}

/// Editing a track: the input must pass validation, the track must exist,
/// and no other track may hold the new internal code. The creation time
/// is kept.
pub open spec fn spec_update_track(c: CatalogView, id: i64, i: TrackInputView, now: Seq<char>) -> Result<
    (CatalogView, TrackView),
    Seq<char>,
> {
    if track_input_error(i) is Some {
        Err(track_input_error(i)->Some_0)
    } else if !c.has_track(id) {
        Err("Track not found"@)
    } else if c.track_code_taken(trim_seq(i.internal_code), Some(id)) {
        Err(track_code_unique_message())
    } else {
        let k = track_index(c, id);
        let t = track_from_input(i, id, c.tracks[k].created_at, now);
        Ok((CatalogView { tracks: c.tracks.update(k, t), ..c }, t))
    }
}

/// Deleting a track: it leaves the catalog together with its place in a
/// release, if it had one. Deleting an unknown id changes nothing.
pub open spec fn spec_delete_track(c: CatalogView, id: i64) -> CatalogView {
    if !c.has_track(id) {
        c
    } else {
        let k = track_index(c, id);
        let links = if c.is_assigned(id) {
            c.links.remove(
                choose|l: int| 0 <= l < c.links.len() && #[trigger] c.links[l].track_id == id,
            )
        } else {
            c.links
        };
        CatalogView { tracks: c.tracks.remove(k), links, ..c }
    }
}

/// The view of an optional track.
pub open spec fn opt_track(o: Option<Track>) -> Option<TrackView> {
    match o {
        Some(t) => Some(t@),
        None => None,
    }
}

proof fn lemma_track_index(c: CatalogView, id: i64, k: int)
    requires
        c.wf(),
        0 <= k < c.tracks.len(),
        c.tracks[k].id == id,
    ensures
        c.has_track(id),
        track_index(c, id) == k,
        c.track_by_id(id) == Some(c.tracks[k]),
{
    assert(c.has_track(id));
    let kk = track_index(c, id);
    if kk != k {
        if kk < k {
            assert(c.tracks[kk].id != c.tracks[k].id);
        } else {
            assert(c.tracks[k].id != c.tracks[kk].id);
        }
    }
}

/// The track with this id.
pub fn get_track_by_id(db: &Catalog, id: i64) -> (r: Option<Track>)
    requires
        db@.wf(),
    ensures
        opt_track(r) == db@.track_by_id(id),
{
    match db.find_track(id) {
        Some(k) => {
            proof {
                lemma_track_index(db@, id, k as int);
            }
            Some(db.tracks[k].dup())
        },
        None => None,
    }
}

/// Builds the stored form of an input.
fn build_track(input: &TrackInput, id: i64, created_at: String, updated_at: String) -> (t: Track)
    ensures
        t@ == track_from_input(input@, id, created_at@, updated_at@),
{
    Track {
        id,
        internal_code: trim(input.internal_code.as_str()),
        title: trim(input.title.as_str()),
        status: input.status.clone(),
        description: trim_to_opt(&input.description),
        lyrics: trim_to_opt(&input.lyrics),
        notes: trim_to_opt(&input.notes),
        bpm: input.bpm,
        key: trim_to_opt(&input.key),
        created_at,
        updated_at,
    }
}

/// Creates a track stamped `now` (see `spec_create_track`).
pub fn create_track_at(db: &mut Catalog, input: TrackInput, now: String) -> (r: Result<Track, String>)
    requires
        old(db)@.wf(),
    ensures
        final(db)@.wf(),
        match r {
            Ok(t) => spec_create_track(old(db)@, input@, now@) == Ok::<
                (CatalogView, TrackView),
                Seq<char>,
            >((final(db)@, t@)),
            Err(e) => spec_create_track(old(db)@, input@, now@) == Err::<
                (CatalogView, TrackView),
                Seq<char>,
            >(e@) && final(db)@ == old(db)@,
        },
{
    validate_track_input(&input)?;
    let code = trim(input.internal_code.as_str());
    if db.track_code_in_use(code.as_str(), None) {
        return Err(String::from_str("Track Internal Code must be unique"));
    }
    let m = db.max_track_id();
    if m == i64::MAX {
        return Err(String::from_str("database or disk is full"));
    }
    let t = build_track(&input, m + 1, now.clone(), now);
    let ghost o = db@;
    let ghost old_tracks = db.tracks@;
    db.tracks.push(t.dup());
    proof {
        lemma_max_track_id(o.tracks);
        assert(db.tracks@.map_values(|x: Track| x@) =~= old_tracks.map_values(|x: Track| x@).push(
            t@,
        ));
        let c = db@;
        assert(c.tracks == o.tracks.push(t@));
        assert forall|i: int, j: int| 0 <= i < j < c.tracks.len() implies c.tracks[i].id
            != c.tracks[j].id && c.tracks[i].internal_code != c.tracks[j].internal_code by {
            if j == o.tracks.len() {
                assert(c.tracks[i] == o.tracks[i]);
                assert(o.tracks[i].id <= m);
                if o.tracks[i].internal_code == t@.internal_code {
                    assert(o.track_code_taken(code@, None));
                }
            }
        }
        assert forall|k: int| 0 <= k < c.links.len() implies c.has_track(
            #[trigger] c.links[k].track_id,
        ) && c.has_release(c.links[k].release_id) && 1 <= c.links[k].track_order by {
            assert(o.has_track(o.links[k].track_id));
            let w = choose|i: int| 0 <= i < o.tracks.len() && #[trigger] o.tracks[i].id == o.links[k].track_id;
            assert(c.tracks[w] == o.tracks[w]);
        }
    }
    Ok(t)
}

/// Creates a track (see `spec_create_track`) stamped with the current time.
pub fn create_track(db: &mut Catalog, input: TrackInput) -> (r: Result<Track, String>)
    requires
        old(db)@.wf(),
    ensures
        final(db)@.wf(),
        match r {
            Ok(t) => spec_create_track(old(db)@, input@, t@.created_at) == Ok::<
                (CatalogView, TrackView),
                Seq<char>,
            >((final(db)@, t@)),
            Err(e) => forall|now: Seq<char>|
                spec_create_track(old(db)@, input@, now) == Err::<
                    (CatalogView, TrackView),
                    Seq<char>,
                >(e@) && final(db)@ == old(db)@,
        },
{
    let now = now_iso();
    create_track_at(db, input, now)
}

/// Edits a track, stamping it `now` (see `spec_update_track`).
pub fn update_track_at(db: &mut Catalog, id: i64, input: TrackInput, now: String) -> (r: Result<
    Track,
    String,
>)
    requires
        old(db)@.wf(),
    ensures
        final(db)@.wf(),
        match r {
            Ok(t) => spec_update_track(old(db)@, id, input@, now@) == Ok::<
                (CatalogView, TrackView),
                Seq<char>,
            >((final(db)@, t@)),
            Err(e) => spec_update_track(old(db)@, id, input@, now@) == Err::<
                (CatalogView, TrackView),
                Seq<char>,
            >(e@) && final(db)@ == old(db)@,
        },
{
    validate_track_input(&input)?;
    let k = match db.find_track(id) {
        Some(k) => k,
        None => {
            return Err(String::from_str("Track not found"));
        },
    };
    let code = trim(input.internal_code.as_str());
    if db.track_code_in_use(code.as_str(), Some(id)) {
        return Err(String::from_str("Track Internal Code must be unique"));
    }
    let ghost o = db@;
    proof {
        lemma_track_index(o, id, k as int);
    }
    let t = build_track(&input, id, db.tracks[k].created_at.clone(), now);
    let ghost old_tracks = db.tracks@;
    db.tracks.set(k, t.dup());
    proof {
        assert(db.tracks@.map_values(|x: Track| x@) =~= old_tracks.map_values(|x: Track| x@).update(
            k as int,
            t@,
        ));
        let c = db@;
        assert(c.tracks == o.tracks.update(k as int, t@));
        assert forall|i: int, j: int| 0 <= i < j < c.tracks.len() implies c.tracks[i].id
            != c.tracks[j].id && c.tracks[i].internal_code != c.tracks[j].internal_code by {
            if i == k {
                assert(c.tracks[j] == o.tracks[j]);
                if o.tracks[j].internal_code == t@.internal_code {
                    assert(o.track_code_taken(code@, Some(id)));
                }
            } else if j == k {
                assert(c.tracks[i] == o.tracks[i]);
                if o.tracks[i].internal_code == t@.internal_code {
                    assert(o.track_code_taken(code@, Some(id)));
                }
            }
        }
        assert forall|l: int| 0 <= l < c.links.len() implies c.has_track(
            #[trigger] c.links[l].track_id,
        ) && c.has_release(c.links[l].release_id) && 1 <= c.links[l].track_order by {
            assert(o.has_track(o.links[l].track_id));
            let w = choose|i: int| 0 <= i < o.tracks.len() && #[trigger] o.tracks[i].id == o.links[l].track_id;
            assert(c.tracks[w].id == o.tracks[w].id);
        }
    }
    Ok(t)
}

/// Edits a track (see `spec_update_track`), stamped with the current time.
pub fn update_track(db: &mut Catalog, id: i64, input: TrackInput) -> (r: Result<Track, String>)
    requires
        old(db)@.wf(),
    ensures
        final(db)@.wf(),
        match r {
            Ok(t) => spec_update_track(old(db)@, id, input@, t@.updated_at) == Ok::<
                (CatalogView, TrackView),
                Seq<char>,
            >((final(db)@, t@)),
            Err(e) => forall|now: Seq<char>|
                spec_update_track(old(db)@, id, input@, now) == Err::<
                    (CatalogView, TrackView),
                    Seq<char>,
                >(e@) && final(db)@ == old(db)@,
        },
{
    let now = now_iso();
    update_track_at(db, id, input, now)
}

/// Deletes a track and its place in a release (see `spec_delete_track`).
pub fn delete_track(db: &mut Catalog, id: i64)
    requires
        old(db)@.wf(),
    ensures
        final(db)@.wf(),
        final(db)@ == spec_delete_track(old(db)@, id),
{
    let k = match db.find_track(id) {
        Some(k) => k,
        None => {
            return;
        },
    };
    let ghost o = db@;
    proof {
        lemma_track_index(o, id, k as int);
    }
    let ghost old_tracks = db.tracks@;
    let ghost old_links = db.links@;
    let _ = db.tracks.remove(k);
    let li = db.find_link_of_track(id);
    match li {
        Some(l) => {
            proof {
                assert(db@.links == o.links);
                assert(o.links[l as int].track_id == id);
                assert(o.is_assigned(id));
                let ll = choose|x: int| 0 <= x < o.links.len() && #[trigger] o.links[x].track_id == id;
                if ll != l {
                    if ll < l {
                        assert(o.links[ll].track_id != o.links[l as int].track_id);
                    } else {
                        assert(o.links[l as int].track_id != o.links[ll].track_id);
                    }
                }
            }
            let _ = db.links.remove(l);
            proof {
                assert(db.links@.map_values(|x: crate::db::store::ReleaseTrackLink| x@) =~= old_links.map_values(|x: crate::db::store::ReleaseTrackLink| x@).remove(l as int));
            }
        },
        None => {},
    }
    proof {
        assert(db.tracks@.map_values(|x: Track| x@) =~= old_tracks.map_values(|x: Track| x@).remove(
            k as int,
        ));
        let c = db@;
        assert(c == spec_delete_track(o, id));
        assert forall|i: int, j: int| 0 <= i < j < c.tracks.len() implies c.tracks[i].id
            != c.tracks[j].id && c.tracks[i].internal_code != c.tracks[j].internal_code by {
            let oi = if i < k { i } else { i + 1 };
            let oj = if j < k { j } else { j + 1 };
            assert(c.tracks[i] == o.tracks[oi]);
            assert(c.tracks[j] == o.tracks[oj]);
        }
        assert forall|l: int| 0 <= l < c.links.len() implies c.has_track(
            #[trigger] c.links[l].track_id,
        ) && c.has_release(c.links[l].release_id) && 1 <= c.links[l].track_order by {
            let ol = if li matches Some(x) && l >= x { l + 1 } else { l };
            assert(c.links[l] == o.links[ol]);
            assert(o.has_track(o.links[ol].track_id));
            assert(o.has_release(o.links[ol].release_id));
            assert(o.links[ol].track_id != id);
            let w = choose|i: int| 0 <= i < o.tracks.len() && #[trigger] o.tracks[i].id == o.links[ol].track_id;
            assert(w != k);
            let cw = if w < k { w } else { w - 1 };
            assert(c.tracks[cw] == o.tracks[w]);
        }
        assert forall|a: int, b: int| 0 <= a < b < c.links.len() implies c.links[a].track_id
            != c.links[b].track_id && (c.links[a].release_id == c.links[b].release_id
            ==> c.links[a].track_order != c.links[b].track_order) by {
            let oa = if li matches Some(x) && a >= x { a + 1 } else { a };
            let ob = if li matches Some(x) && b >= x { b + 1 } else { b };
            assert(c.links[a] == o.links[oa]);
            assert(c.links[b] == o.links[ob]);
        }
    }
}

} // verus!
