//! The listings of the catalog: all tracks, the tracks free to assign, a
//! text search over tracks, all releases, and the tracks of one release.

use vstd::prelude::*;
use crate::db::order::{item_newer, newer, order_by_position, order_by_recency};
use crate::db::releases::{counts_fit, release_row};
use crate::db::store::{lemma_link_at, lemma_release_at, lemma_track_at, Catalog, CatalogView, ReleaseRecordView};
use crate::like::{chars_of, like, sql_like};
use crate::models::{
    copy_opt_text, DashboardSummary, Release, ReleaseTrackRow, ReleaseTrackRowView, ReleaseView,
    Track, TrackListRow, TrackListRowView, TrackView,
};
use crate::db::store::LinkView;
use crate::text::{trim, trim_seq};

verus! {

/// Track `a` is listed before track `b`.
pub open spec fn newer_track(a: TrackView, b: TrackView) -> bool {
    newer(a.id, a.updated_at, b.id, b.updated_at)
}

/// Release `a` is listed before release `b`.
pub open spec fn newer_release(a: ReleaseView, b: ReleaseView) -> bool {
    newer(a.id, a.updated_at, b.id, b.updated_at)
}

/// `rows` lists exactly the tracks of `pool` that satisfy `keep`, most
/// recently updated first.
pub open spec fn tracks_by_recency(
    rows: Seq<TrackView>,
    pool: Seq<TrackView>,
    keep: spec_fn(TrackView) -> bool,
) -> bool {
    &&& forall|p: int| 0 <= p < rows.len() ==> pool.contains(#[trigger] rows[p]) && keep(rows[p])
    &&& forall|i: int| 0 <= i < pool.len() && keep(pool[i]) ==> rows.contains(#[trigger] pool[i])
    &&& forall|p: int, q: int| 0 <= p < q < rows.len() ==> newer_track(rows[p], rows[q])
}

/// `rows` lists exactly the releases of `pool`, most recently updated first.
pub open spec fn releases_by_recency(rows: Seq<ReleaseView>, pool: Seq<ReleaseView>) -> bool {
    &&& forall|p: int| 0 <= p < rows.len() ==> pool.contains(#[trigger] rows[p])
    &&& forall|i: int| 0 <= i < pool.len() ==> rows.contains(#[trigger] pool[i])
    &&& forall|p: int, q: int| 0 <= p < q < rows.len() ==> newer_release(rows[p], rows[q])
}

/// The release a track sits in, if any.
pub open spec fn assigned_release(c: CatalogView, track_id: i64) -> Option<ReleaseRecordView> {
    match c.link_of_track(track_id) {
        Some(l) => c.release_by_id(l.release_id),
        None => None,
    }
}

/// A track as listed with the release it sits in.
pub open spec fn list_row(c: CatalogView, t: TrackView) -> TrackListRowView {
    let r = assigned_release(c, t.id);
    TrackListRowView {
        track: t,
        assigned_release_id: match r {
            Some(x) => Some(x.id),
            None => None,
        },
        assigned_release_title: match r {
            Some(x) => Some(x.title),
            None => None,
        },
        availability: if r is Some {
            "Assigned"@
        } else {
            "Available"@
        },
    }
}

/// The pattern a search query stands for: the trimmed query anywhere in
/// the text.
pub open spec fn search_pattern(query: Seq<char>) -> Seq<char> {
    seq!['%'] + trim_seq(query) + seq!['%']
}

/// A track turns up in a search when its internal code or title matches.
pub open spec fn search_hit(query: Seq<char>, t: TrackView) -> bool {
    like(search_pattern(query), t.internal_code) || like(search_pattern(query), t.title)
}

/// The releases with their track counts, in storage order.
pub open spec fn release_rows(c: CatalogView) -> Seq<ReleaseView> {
    c.releases.map_values(|r: ReleaseRecordView| release_row(c, r))
}

/// The text of every track is short enough to be searched.
pub open spec fn texts_fit(c: CatalogView) -> bool {
    forall|i: int|
        0 <= i < c.tracks.len() ==> #[trigger] c.tracks[i].internal_code.len() < usize::MAX
            && c.tracks[i].title.len() < usize::MAX
}

/// Lists the tracks at the given positions, most recently updated first.
fn tracks_in_recency_order(db: &Catalog, candidates: &Vec<usize>) -> (out: Vec<usize>)
    requires
        db@.wf(),
        forall|a: int| 0 <= a < candidates.len() ==> #[trigger] candidates[a] < db.tracks.len(),
        forall|a: int, b: int| 0 <= a < b < candidates.len() ==> candidates[a] < candidates[b],
    ensures
        out.len() == candidates.len(),
        forall|p: int| 0 <= p < out.len() ==> candidates@.contains(#[trigger] out[p]),
        forall|a: int| 0 <= a < candidates.len() ==> out@.contains(#[trigger] candidates[a]),
        forall|p: int, q: int|
            0 <= p < q < out.len() ==> newer_track(
                db@.tracks[out[p] as int],
                db@.tracks[out[q] as int],
            ),
{
    proof {
        assert forall|a: int, b: int| 0 <= a < b < candidates.len() implies db.tracks@[candidates[a] as int].id
            != db.tracks@[candidates[b] as int].id by {
            assert(db@.tracks[candidates[a] as int].id != db@.tracks[candidates[b] as int].id);
        }
    }
    let out = order_by_recency(&db.tracks, candidates);
    proof {
        assert forall|p: int, q: int| 0 <= p < q < out.len() implies newer_track(
            db@.tracks[out[p] as int],
            db@.tracks[out[q] as int],
        ) by {
            assert(item_newer(db.tracks@, out[p], out[q]));
        }
    }
    out
}

/// Copies the tracks at the given positions.
fn copy_tracks(db: &Catalog, order: &Vec<usize>) -> (out: Vec<Track>)
    requires
        forall|p: int| 0 <= p < order.len() ==> #[trigger] order[p] < db.tracks.len(),
    ensures
        out.len() == order.len(),
        forall|p: int| 0 <= p < out.len() ==> #[trigger] out[p]@ == db@.tracks[order[p] as int],
{
    let mut out: Vec<Track> = Vec::new();
    let n = order.len();
    let mut p: usize = 0;
    while p < n
        invariant
            n == order.len(),
            p <= n,
            out.len() == p,
            forall|p: int| 0 <= p < order.len() ==> #[trigger] order[p] < db.tracks.len(),
            forall|q: int| 0 <= q < p ==> #[trigger] out[q]@ == db@.tracks[order[q] as int],
        decreases n - p,
    {
        out.push(db.tracks[order[p]].dup());
        p = p + 1;
    }
    out
}

/// The tracks that sit in no release, most recently updated first.
pub fn list_available_tracks(db: &Catalog) -> (out: Vec<Track>)
    requires
        db@.wf(),
    ensures
        tracks_by_recency(
            out@.map_values(|t: Track| t@),
            db@.tracks,
            |t: TrackView| !db@.is_assigned(t.id),
        ),
{
    let ghost c = db@;
    let n = db.tracks.len();
    let mut cand: Vec<usize> = Vec::new();
    let mut i: usize = 0;
    while i < n
        invariant
            n == db.tracks.len(),
            c == db@,
            i <= n,
            forall|a: int| 0 <= a < cand.len() ==> #[trigger] cand[a] < i,
            forall|a: int, b: int| 0 <= a < b < cand.len() ==> cand[a] < cand[b],
            forall|a: int| 0 <= a < cand.len() ==> !c.is_assigned(c.tracks[#[trigger] cand[a] as int].id),
            forall|k: int| 0 <= k < i && !c.is_assigned(c.tracks[k].id) ==> #[trigger] cand@.contains(k as usize),
        decreases n - i,
    {
        if db.find_link_of_track(db.tracks[i].id).is_none() {
            let ghost before = cand@;
            cand.push(i);
            proof {
                assert forall|k: int| 0 <= k < i + 1 && !c.is_assigned(c.tracks[k].id) implies #[trigger] cand@.contains(k as usize) by {
                    if k < i {
                        assert(before.contains(k as usize));
                        let x = choose|x: int| 0 <= x < before.len() && before[x] == k as usize;
                        assert(cand@[x] == k as usize);
                    } else {
                        assert(cand@[before.len() as int] == i);
                    }
                }
            }
        }
        i = i + 1;
    }
    let order = tracks_in_recency_order(db, &cand);
    let out = copy_tracks(db, &order);
    proof {
        let rows = out@.map_values(|t: Track| t@);
        let keep = |t: TrackView| !c.is_assigned(t.id);
        assert forall|p: int| 0 <= p < rows.len() implies c.tracks.contains(#[trigger] rows[p]) && keep(rows[p]) by {
            assert(rows[p] == c.tracks[order[p] as int]);
            assert(cand@.contains(order[p]));
        }
        assert forall|k: int| 0 <= k < c.tracks.len() && keep(c.tracks[k]) implies rows.contains(#[trigger] c.tracks[k]) by {
            assert(cand@.contains(k as usize));
            let a = choose|a: int| 0 <= a < cand.len() && cand@[a] == k as usize;
            assert(order@.contains(cand[a]));
            let p = choose|p: int| 0 <= p < order.len() && order@[p] == cand[a];
            assert(rows[p] == c.tracks[k]);
        }
    }
    out
}

/// The listed form of the track at position `k`, with its release.
fn list_row_at(db: &Catalog, k: usize) -> (r: TrackListRow)
    requires
        db@.wf(),
        k < db.tracks.len(),
    ensures
        r@ == list_row(db@, db@.tracks[k as int]),
{
    let t = &db.tracks[k];
    let (rid, rtitle) = match db.find_link_of_track(t.id) {
        Some(l) => {
            proof {
                lemma_link_at(db@, l as int);
            }
            match db.find_release(db.links[l].release_id) {
                Some(ri) => {
                    proof {
                        lemma_release_at(db@, ri as int);
                    }
                    (Some(db.releases[ri].id), Some(db.releases[ri].title.clone()))
                },
                None => (None, None),
            }
        },
        None => (None, None),
    };
    let availability = if rid.is_some() {
        String::from_str("Assigned")
    } else {
        String::from_str("Available")
    };
    TrackListRow {
        id: t.id,
        internal_code: t.internal_code.clone(),
        title: t.title.clone(),
        status: t.status.clone(),
        description: copy_opt_text(&t.description),
        lyrics: copy_opt_text(&t.lyrics),
        notes: copy_opt_text(&t.notes),
        bpm: t.bpm,
        key: copy_opt_text(&t.key),
        created_at: t.created_at.clone(),
        updated_at: t.updated_at.clone(),
        assigned_release_id: rid,
        assigned_release_title: rtitle,
        availability,
    }
}

/// The listed forms of the tracks at the given positions.
fn list_rows(db: &Catalog, order: &Vec<usize>) -> (out: Vec<TrackListRow>)
    requires
        db@.wf(),
        forall|p: int| 0 <= p < order.len() ==> #[trigger] order[p] < db.tracks.len(),
    ensures
        out.len() == order.len(),
        forall|p: int| 0 <= p < out.len() ==> #[trigger] out[p]@ == list_row(db@, db@.tracks[order[p] as int]),
{
    let mut out: Vec<TrackListRow> = Vec::new();
    let n = order.len();
    let mut p: usize = 0;
    while p < n
        invariant
            n == order.len(),
            p <= n,
            out.len() == p,
            db@.wf(),
            forall|p: int| 0 <= p < order.len() ==> #[trigger] order[p] < db.tracks.len(),
            forall|q: int| 0 <= q < p ==> #[trigger] out[q]@ == list_row(db@, db@.tracks[order[q] as int]),
        decreases n - p,
    {
        out.push(list_row_at(db, order[p]));
        p = p + 1;
    }
    out
}

/// All tracks with the release each sits in, most recently updated first.
pub fn list_tracks(db: &Catalog) -> (out: Vec<TrackListRow>)
    requires
        db@.wf(),
    ensures
        tracks_by_recency(
            out@.map_values(|r: TrackListRow| r@.track),
            db@.tracks,
            |t: TrackView| true,
        ),
        forall|p: int| 0 <= p < out.len() ==> #[trigger] out[p]@ == list_row(db@, out[p]@.track),
{
    let ghost c = db@;
    let n = db.tracks.len();
    let mut cand: Vec<usize> = Vec::new();
    let mut i: usize = 0;
    while i < n
        invariant
            n == db.tracks.len(),
            i <= n,
            cand.len() == i,
            forall|a: int| 0 <= a < cand.len() ==> #[trigger] cand[a] == a,
        decreases n - i,
    {
        cand.push(i);
        i = i + 1;
    }
    let order = tracks_in_recency_order(db, &cand);
    let out = list_rows(db, &order);
    proof {
        let rows = out@.map_values(|r: TrackListRow| r@.track);
        assert forall|p: int| 0 <= p < rows.len() implies c.tracks.contains(#[trigger] rows[p]) by {
            assert(rows[p] == c.tracks[order[p] as int]);
        }
        assert forall|k: int| 0 <= k < c.tracks.len() implies rows.contains(#[trigger] c.tracks[k]) by {
            assert(cand[k] == k);
            assert(order@.contains(cand[k]));
            let p = choose|p: int| 0 <= p < order.len() && order@[p] == cand[k];
            assert(rows[p] == c.tracks[k]);
        }
        assert forall|p: int, q: int| 0 <= p < q < rows.len() implies newer_track(rows[p], rows[q]) by {
            assert(rows[p] == c.tracks[order[p] as int]);
            assert(rows[q] == c.tracks[order[q] as int]);
        }
    }
    out
}

/// The tracks whose internal code or title contains the trimmed query
/// (`%` and `_` in it act as wildcards, ASCII letters match in either
/// case), with their releases, most recently updated first.
pub fn search_tracks(db: &Catalog, query: String) -> (out: Vec<TrackListRow>)
    requires
        db@.wf(),
        texts_fit(db@),
    ensures
        tracks_by_recency(
            out@.map_values(|r: TrackListRow| r@.track),
            db@.tracks,
            |t: TrackView| search_hit(query@, t),
        ),
        forall|p: int| 0 <= p < out.len() ==> #[trigger] out[p]@ == list_row(db@, out[p]@.track),
{
    let ghost c = db@;
    let q = trim(query.as_str());
    let qc = chars_of(q.as_str());
    let mut pattern: Vec<char> = Vec::new();
    pattern.push('%');
    let m = qc.len();
    let mut j: usize = 0;
    while j < m
        invariant
            m == qc.len(),
            j <= m,
            pattern@ == seq!['%'] + qc@.take(j as int),
        decreases m - j,
    {
        pattern.push(qc[j]);
        assert(pattern@ =~= seq!['%'] + qc@.take(j + 1));
        j = j + 1;
    }
    pattern.push('%');
    assert(qc@.take(m as int) =~= qc@);
    assert(pattern@ =~= search_pattern(query@));
    let n = db.tracks.len();
    let mut cand: Vec<usize> = Vec::new();
    let mut i: usize = 0;
    while i < n
        invariant
            n == db.tracks.len(),
            c == db@,
            texts_fit(c),
            pattern@ == search_pattern(query@),
            i <= n,
            forall|a: int| 0 <= a < cand.len() ==> #[trigger] cand[a] < i,
            forall|a: int, b: int| 0 <= a < b < cand.len() ==> cand[a] < cand[b],
            forall|a: int| 0 <= a < cand.len() ==> search_hit(query@, c.tracks[#[trigger] cand[a] as int]),
            forall|k: int| 0 <= k < i && search_hit(query@, c.tracks[k]) ==> #[trigger] cand@.contains(k as usize),
        decreases n - i,
    {
        let code = chars_of(db.tracks[i].internal_code.as_str());
        let title = chars_of(db.tracks[i].title.as_str());
        proof {
            assert(c.tracks[i as int].internal_code.len() < usize::MAX);
        }
        if sql_like(&pattern, &code) || sql_like(&pattern, &title) {
            let ghost before = cand@;
            cand.push(i);
            proof {
                assert forall|k: int| 0 <= k < i + 1 && search_hit(query@, c.tracks[k]) implies #[trigger] cand@.contains(k as usize) by {
                    if k < i {
                        assert(before.contains(k as usize));
                        let x = choose|x: int| 0 <= x < before.len() && before[x] == k as usize;
                        assert(cand@[x] == k as usize);
                    } else {
                        assert(cand@[before.len() as int] == i);
                    }
                }
            }
        }
        i = i + 1;
    }
    let order = tracks_in_recency_order(db, &cand);
    let out = list_rows(db, &order);
    proof {
        let rows = out@.map_values(|r: TrackListRow| r@.track);
        let keep = |t: TrackView| search_hit(query@, t);
        assert forall|p: int| 0 <= p < rows.len() implies c.tracks.contains(#[trigger] rows[p]) && keep(rows[p]) by {
            assert(rows[p] == c.tracks[order[p] as int]);
            assert(cand@.contains(order[p]));
        }
        assert forall|k: int| 0 <= k < c.tracks.len() && keep(c.tracks[k]) implies rows.contains(#[trigger] c.tracks[k]) by {
            assert(cand@.contains(k as usize));
            let a = choose|a: int| 0 <= a < cand.len() && cand@[a] == k as usize;
            assert(order@.contains(cand[a]));
            let p = choose|p: int| 0 <= p < order.len() && order@[p] == cand[a];
            assert(rows[p] == c.tracks[k]);
        }
        assert forall|p: int, q: int| 0 <= p < q < rows.len() implies newer_track(rows[p], rows[q]) by {
            assert(rows[p] == c.tracks[order[p] as int]);
            assert(rows[q] == c.tracks[order[q] as int]);
        }
    }
    out
}

/// Lists the releases at the given positions, most recently updated first.
fn releases_in_recency_order(db: &Catalog, candidates: &Vec<usize>) -> (out: Vec<usize>)
    requires
        db@.wf(),
        forall|a: int| 0 <= a < candidates.len() ==> #[trigger] candidates[a] < db.releases.len(),
        forall|a: int, b: int| 0 <= a < b < candidates.len() ==> candidates[a] < candidates[b],
    ensures
        out.len() == candidates.len(),
        forall|p: int| 0 <= p < out.len() ==> candidates@.contains(#[trigger] out[p]),
        forall|a: int| 0 <= a < candidates.len() ==> out@.contains(#[trigger] candidates[a]),
        forall|p: int, q: int|
            0 <= p < q < out.len() ==> newer(
                db@.releases[out[p] as int].id,
                db@.releases[out[p] as int].updated_at,
                db@.releases[out[q] as int].id,
                db@.releases[out[q] as int].updated_at,
            ),
{
    proof {
        assert forall|a: int, b: int| 0 <= a < b < candidates.len() implies db.releases@[candidates[a] as int].id
            != db.releases@[candidates[b] as int].id by {
            assert(db@.releases[candidates[a] as int].id != db@.releases[candidates[b] as int].id);
        }
    }
    let out = order_by_recency(&db.releases, candidates);
    proof {
        assert forall|p: int, q: int| 0 <= p < q < out.len() implies newer(
            db@.releases[out[p] as int].id,
            db@.releases[out[p] as int].updated_at,
            db@.releases[out[q] as int].id,
            db@.releases[out[q] as int].updated_at,
        ) by {
            assert(item_newer(db.releases@, out[p], out[q]));
        }
    }
    out
}

/// The positions `0..n`.
fn all_positions(n: usize) -> (v: Vec<usize>)
    ensures
        v.len() == n,
        forall|a: int| 0 <= a < n ==> #[trigger] v[a] == a,
{
    let mut v: Vec<usize> = Vec::new();
    let mut i: usize = 0;
    while i < n
        invariant
            i <= n,
            v.len() == i,
            forall|a: int| 0 <= a < i ==> #[trigger] v[a] == a,
        decreases n - i,
    {
        v.push(i);
        i = i + 1;
    }
    v
}

/// The releases in recency order, as positions.
fn release_order(db: &Catalog) -> (order: Vec<usize>)
    requires
        db@.wf(),
    ensures
        order.len() == db.releases.len(),
        forall|p: int| 0 <= p < order.len() ==> #[trigger] order[p] < db.releases.len(),
        forall|k: int| 0 <= k < db.releases.len() ==> #[trigger] order@.contains(k as usize),
        forall|p: int, q: int|
            0 <= p < q < order.len() ==> newer(
                db@.releases[order[p] as int].id,
                db@.releases[order[p] as int].updated_at,
                db@.releases[order[q] as int].id,
                db@.releases[order[q] as int].updated_at,
            ),
{
    let cand = all_positions(db.releases.len());
    let order = releases_in_recency_order(db, &cand);
    proof {
        assert forall|p: int| 0 <= p < order.len() implies #[trigger] order[p] < db.releases.len() by {
            assert(cand@.contains(order[p]));
        }
        assert forall|k: int| 0 <= k < db.releases.len() implies #[trigger] order@.contains(k as usize) by {
            assert(cand[k] == k);
            assert(order@.contains(cand[k]));
        }
    }
    order
}

/// The tracks in recency order, as positions.
fn track_order(db: &Catalog) -> (order: Vec<usize>)
    requires
        db@.wf(),
    ensures
        order.len() == db.tracks.len(),
        forall|p: int| 0 <= p < order.len() ==> #[trigger] order[p] < db.tracks.len(),
        forall|k: int| 0 <= k < db.tracks.len() ==> #[trigger] order@.contains(k as usize),
        forall|p: int, q: int|
            0 <= p < q < order.len() ==> newer_track(
                db@.tracks[order[p] as int],
                db@.tracks[order[q] as int],
            ),
{
    let cand = all_positions(db.tracks.len());
    let order = tracks_in_recency_order(db, &cand);
    proof {
        assert forall|p: int| 0 <= p < order.len() implies #[trigger] order[p] < db.tracks.len() by {
            assert(cand@.contains(order[p]));
        }
        assert forall|k: int| 0 <= k < db.tracks.len() implies #[trigger] order@.contains(k as usize) by {
            assert(cand[k] == k);
            assert(order@.contains(cand[k]));
        }
    }
    order
}

/// The listed forms of the releases at the given positions.
fn release_rows_at(db: &Catalog, order: &Vec<usize>, count: usize) -> (out: Vec<Release>)
    requires
        db@.wf(),
        counts_fit(db@),
        count <= order.len(),
        forall|p: int| 0 <= p < order.len() ==> #[trigger] order[p] < db.releases.len(),
    ensures
        out.len() == count,
        forall|p: int| 0 <= p < out.len() ==> #[trigger] out[p]@ == release_row(db@, db@.releases[order[p] as int]),
{
    let mut out: Vec<Release> = Vec::new();
    let mut p: usize = 0;
    while p < count
        invariant
            count <= order.len(),
            p <= count,
            out.len() == p,
            counts_fit(db@),
            forall|p: int| 0 <= p < order.len() ==> #[trigger] order[p] < db.releases.len(),
            forall|q: int| 0 <= q < p ==> #[trigger] out[q]@ == release_row(db@, db@.releases[order[q] as int]),
        decreases count - p,
    {
        out.push(db.release_row_at(order[p]));
        p = p + 1;
    }
    out
}

/// All releases with their track counts, most recently updated first.
pub fn list_releases(db: &Catalog) -> (out: Vec<Release>)
    requires
        db@.wf(),
        counts_fit(db@),
    ensures
        releases_by_recency(out@.map_values(|r: Release| r@), release_rows(db@)),
{
    let ghost c = db@;
    let order = release_order(db);
    let out = release_rows_at(db, &order, order.len());
    proof {
        let rows = out@.map_values(|r: Release| r@);
        let pool = release_rows(c);
        assert forall|p: int| 0 <= p < rows.len() implies pool.contains(#[trigger] rows[p]) by {
            assert(rows[p] == pool[order[p] as int]);
        }
        assert forall|k: int| 0 <= k < pool.len() implies rows.contains(#[trigger] pool[k]) by {
            assert(order@.contains(k as usize));
            let p = choose|p: int| 0 <= p < order.len() && order@[p] == k as usize;
            assert(rows[p] == pool[k]);
        }
        assert forall|p: int, q: int| 0 <= p < q < rows.len() implies newer_release(rows[p], rows[q]) by {
            assert(rows[p] == pool[order[p] as int]);
            assert(rows[q] == pool[order[q] as int]);
        }
    }
    out
}

/// A track as listed inside a release, at the position its link gives.
pub open spec fn release_track_row(c: CatalogView, l: LinkView) -> ReleaseTrackRowView {
    let t = c.track_by_id(l.track_id)->Some_0;
    ReleaseTrackRowView {
        track_order: l.track_order,
        track_id: t.id,
        internal_code: t.internal_code,
        title: t.title,
        status: t.status,
        description: t.description,
        lyrics: t.lyrics,
        bpm: t.bpm,
        key: t.key,
    }
}

/// `rows` lists the tracks of release `release_id`, by increasing position.
pub open spec fn tracks_of_release(rows: Seq<ReleaseTrackRowView>, c: CatalogView, release_id: i64) -> bool {
    &&& forall|p: int|
        #![trigger rows[p]]
        0 <= p < rows.len() ==> exists|k: int|
            0 <= k < c.links.len() && c.links[k].release_id == release_id
                && #[trigger] release_track_row(c, c.links[k]) == rows[p]
    &&& forall|k: int|
        0 <= k < c.links.len() && c.links[k].release_id == release_id ==> rows.contains(
            #[trigger] release_track_row(c, c.links[k]),
        )
    &&& forall|p: int, q: int| 0 <= p < q < rows.len() ==> rows[p].track_order < rows[q].track_order
}

/// The listed form of the track placed by the link at position `k`.
fn release_track_row_at(db: &Catalog, k: usize) -> (r: ReleaseTrackRow)
    requires
        db@.wf(),
        k < db.links.len(),
    ensures
        r@ == release_track_row(db@, db@.links[k as int]),
{
    let l = &db.links[k];
    proof {
        assert(db@.has_track(db@.links[k as int].track_id));
    }
    let ti = match db.find_track(l.track_id) {
        Some(ti) => ti,
        None => {
            proof {
                assert(false);
            }
            0
        },
    };
    proof {
        lemma_track_at(db@, ti as int);
    }
    let t = &db.tracks[ti];
    ReleaseTrackRow {
        track_order: l.track_order,
        track_id: t.id,
        internal_code: t.internal_code.clone(),
        title: t.title.clone(),
        status: t.status.clone(),
        description: copy_opt_text(&t.description),
        lyrics: copy_opt_text(&t.lyrics),
        bpm: t.bpm,
        key: copy_opt_text(&t.key),
    }
}

/// The tracks of a release, by increasing position.
pub fn list_tracks_for_release(db: &Catalog, release_id: i64) -> (out: Vec<ReleaseTrackRow>)
    requires
        db@.wf(),
    ensures
        tracks_of_release(out@.map_values(|r: ReleaseTrackRow| r@), db@, release_id),
{
    let ghost c = db@;
    let n = db.links.len();
    let mut cand: Vec<usize> = Vec::new();
    let mut i: usize = 0;
    while i < n
        invariant
            n == db.links.len(),
            c == db@,
            i <= n,
            forall|a: int| 0 <= a < cand.len() ==> #[trigger] cand[a] < i,
            forall|a: int, b: int| 0 <= a < b < cand.len() ==> cand[a] < cand[b],
            forall|a: int| 0 <= a < cand.len() ==> c.links[#[trigger] cand[a] as int].release_id == release_id,
            forall|k: int| 0 <= k < i && c.links[k].release_id == release_id ==> #[trigger] cand@.contains(k as usize),
        decreases n - i,
    {
        if db.links[i].release_id == release_id {
            let ghost before = cand@;
            cand.push(i);
            proof {
                assert forall|k: int| 0 <= k < i + 1 && c.links[k].release_id == release_id implies #[trigger] cand@.contains(k as usize) by {
                    if k < i {
                        assert(before.contains(k as usize));
                        let x = choose|x: int| 0 <= x < before.len() && before[x] == k as usize;
                        assert(cand@[x] == k as usize);
                    } else {
                        assert(cand@[before.len() as int] == i);
                    }
                }
            }
        }
        i = i + 1;
    }
    proof {
        assert forall|a: int, b: int| 0 <= a < b < cand.len() implies db.links@[cand[a] as int].track_order
            != db.links@[cand[b] as int].track_order by {
            assert(c.links[cand[a] as int].track_order != c.links[cand[b] as int].track_order);
        }
    }
    let order = order_by_position(&db.links, &cand);
    let mut out: Vec<ReleaseTrackRow> = Vec::new();
    let m = order.len();
    let mut p: usize = 0;
    while p < m
        invariant
            m == order.len(),
            c == db@,
            c.wf(),
            p <= m,
            out.len() == p,
            forall|p: int| 0 <= p < order.len() ==> cand@.contains(#[trigger] order[p]),
            forall|a: int| 0 <= a < cand.len() ==> #[trigger] cand[a] < n,
            n == db.links.len(),
            forall|q: int| 0 <= q < p ==> #[trigger] out[q]@ == release_track_row(c, c.links[order[q] as int]),
        decreases m - p,
    {
        proof {
            assert(cand@.contains(order[p as int]));
        }
        out.push(release_track_row_at(db, order[p]));
        p = p + 1;
    }
    proof {
        let rows = out@.map_values(|r: ReleaseTrackRow| r@);
        assert forall|p: int| #![trigger rows[p]] 0 <= p < rows.len() implies exists|k: int|
            0 <= k < c.links.len() && c.links[k].release_id == release_id
                && #[trigger] release_track_row(c, c.links[k]) == rows[p] by {
            assert(cand@.contains(order[p]));
            assert(rows[p] == release_track_row(c, c.links[order[p] as int]));
        }
        assert forall|k: int| 0 <= k < c.links.len() && c.links[k].release_id == release_id implies rows.contains(
            #[trigger] release_track_row(c, c.links[k])) by {
            assert(cand@.contains(k as usize));
            let a = choose|a: int| 0 <= a < cand.len() && cand@[a] == k as usize;
            assert(order@.contains(cand[a]));
            let p = choose|p: int| 0 <= p < order.len() && order@[p] == cand[a];
            assert(rows[p] == release_track_row(c, c.links[k]));
        }
        assert forall|p: int, q: int| 0 <= p < q < rows.len() implies rows[p].track_order < rows[q].track_order by {
            assert(rows[p] == release_track_row(c, c.links[order[p] as int]));
            assert(rows[q] == release_track_row(c, c.links[order[q] as int]));
        }
    }
    out
}

/// The number of tracks of `ts` that sit in no release.
pub open spec fn unassigned_count(c: CatalogView, ts: Seq<TrackView>) -> nat
    decreases ts.len(),
{
    if ts.len() == 0 {
        0
    } else {
        unassigned_count(c, ts.drop_last()) + if c.is_assigned(ts.last().id) {
            0nat
        } else {
            1nat
        }
    }
}

/// `rows` holds the `n` most recently updated tracks of `pool` (all of them
/// when there are fewer), most recent first.
pub open spec fn most_recent_tracks(rows: Seq<TrackView>, pool: Seq<TrackView>, n: nat) -> bool {
    &&& rows.len() == if pool.len() < n {
        pool.len()
    } else {
        n
    }
    &&& forall|p: int| 0 <= p < rows.len() ==> pool.contains(#[trigger] rows[p])
    &&& forall|p: int, q: int| 0 <= p < q < rows.len() ==> newer_track(rows[p], rows[q])
    &&& forall|i: int, p: int|
        0 <= i < pool.len() && 0 <= p < rows.len() && !rows.contains(pool[i]) ==> newer_track(
            #[trigger] rows[p],
            #[trigger] pool[i],
        )
}

/// `rows` holds the `n` most recently updated releases of `pool` (all of
/// them when there are fewer), most recent first.
pub open spec fn most_recent_releases(rows: Seq<ReleaseView>, pool: Seq<ReleaseView>, n: nat) -> bool {
    &&& rows.len() == if pool.len() < n {
        pool.len()
    } else {
        n
    }
    &&& forall|p: int| 0 <= p < rows.len() ==> pool.contains(#[trigger] rows[p])
    &&& forall|p: int, q: int| 0 <= p < q < rows.len() ==> newer_release(rows[p], rows[q])
    &&& forall|i: int, p: int|
        0 <= i < pool.len() && 0 <= p < rows.len() && !rows.contains(pool[i]) ==> newer_release(
            #[trigger] rows[p],
            #[trigger] pool[i],
        )
}

/// The number of tracks that sit in no release.
fn count_unassigned(db: &Catalog) -> (n: i64)
    requires
        counts_fit(db@),
    ensures
        n == unassigned_count(db@, db@.tracks),
{
    let len = db.tracks.len();
    let mut n: i64 = 0;
    let mut i: usize = 0;
    while i < len
        invariant
            len == db.tracks.len(),
            len <= i64::MAX,
            i <= len,
            n <= i,
            n == unassigned_count(db@, db@.tracks.take(i as int)),
        decreases len - i,
    {
        assert(db@.tracks.take(i + 1).drop_last() =~= db@.tracks.take(i as int));
        if db.find_link_of_track(db.tracks[i].id).is_none() {
            n = n + 1;
        }
        i = i + 1;
    }
    assert(db@.tracks.take(len as int) =~= db@.tracks);
    n
}

/// The counts of tracks, free tracks and releases, with the five most
/// recently updated tracks and releases.
pub fn get_dashboard_summary(db: &Catalog) -> (s: DashboardSummary)
    requires
        db@.wf(),
        counts_fit(db@),
    ensures
        s.total_tracks == db@.tracks.len(),
        s.available_tracks == unassigned_count(db@, db@.tracks),
        s.total_releases == db@.releases.len(),
        most_recent_tracks(s.recent_tracks@.map_values(|t: Track| t@), db@.tracks, 5),
        most_recent_releases(s.recent_releases@.map_values(|r: Release| r@), release_rows(db@), 5),
{
    let ghost c = db@;
    let total_tracks = db.tracks.len() as i64;
    let available_tracks = count_unassigned(db);
    let total_releases = db.releases.len() as i64;
    let torder = track_order(db);
    let tn = if torder.len() < 5 {
        torder.len()
    } else {
        5
    };
    let mut recent_tracks: Vec<Track> = Vec::new();
    let mut p: usize = 0;
    while p < tn
        invariant
            tn <= torder.len(),
            p <= tn,
            recent_tracks.len() == p,
            forall|p: int| 0 <= p < torder.len() ==> #[trigger] torder[p] < db.tracks.len(),
            forall|q: int| 0 <= q < p ==> #[trigger] recent_tracks[q]@ == c.tracks[torder[q] as int],
            c == db@,
        decreases tn - p,
    {
        recent_tracks.push(db.tracks[torder[p]].dup());
        p = p + 1;
    }
    let rorder = release_order(db);
    let rn = if rorder.len() < 5 {
        rorder.len()
    } else {
        5
    };
    let recent_releases = release_rows_at(db, &rorder, rn);
    proof {
        let rows = recent_tracks@.map_values(|t: Track| t@);
        assert forall|p: int| 0 <= p < rows.len() implies c.tracks.contains(#[trigger] rows[p]) by {
            assert(rows[p] == c.tracks[torder[p] as int]);
        }
        assert forall|p: int, q: int| 0 <= p < q < rows.len() implies newer_track(rows[p], rows[q]) by {
            assert(rows[p] == c.tracks[torder[p] as int]);
            assert(rows[q] == c.tracks[torder[q] as int]);
        }
        assert forall|i: int, p: int|
            0 <= i < c.tracks.len() && 0 <= p < rows.len() && !rows.contains(c.tracks[i]) implies newer_track(
            #[trigger] rows[p],
            #[trigger] c.tracks[i],
        ) by {
            assert(torder@.contains(i as usize));
            let x = choose|x: int| 0 <= x < torder.len() && torder@[x] == i as usize;
            if x < tn {
                assert(rows[x] == c.tracks[i]);
            }
            assert(rows[p] == c.tracks[torder[p] as int]);
            assert(p < x);
        }
        let rrows = recent_releases@.map_values(|r: Release| r@);
        let pool = release_rows(c);
        assert forall|p: int| 0 <= p < rrows.len() implies pool.contains(#[trigger] rrows[p]) by {
            assert(rrows[p] == pool[rorder[p] as int]);
        }
        assert forall|p: int, q: int| 0 <= p < q < rrows.len() implies newer_release(rrows[p], rrows[q]) by {
            assert(rrows[p] == pool[rorder[p] as int]);
            assert(rrows[q] == pool[rorder[q] as int]);
        }
        assert forall|i: int, p: int|
            0 <= i < pool.len() && 0 <= p < rrows.len() && !rrows.contains(pool[i]) implies newer_release(
            #[trigger] rrows[p],
            #[trigger] pool[i],
        ) by {
            assert(rorder@.contains(i as usize));
            let x = choose|x: int| 0 <= x < rorder.len() && rorder@[x] == i as usize;
            if x < rn {
                assert(rrows[x] == pool[i]);
            }
            assert(rrows[p] == pool[rorder[p] as int]);
            assert(p < x);
        }
    }
    DashboardSummary { total_tracks, available_tracks, total_releases, recent_tracks, recent_releases }
}

} // verus!
