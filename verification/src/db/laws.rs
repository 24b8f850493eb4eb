//! What reading the catalog gives back after editing it, and how its
//! listings relate to one another.

use vstd::prelude::*;
use crate::db::releases::{
    release_index, spec_create_release, spec_delete_release, spec_release_by_id,
    spec_remove_release_image, spec_set_release_image, spec_update_release,
};
use crate::db::store::{lemma_max_release_id, lemma_max_track_id, CatalogView, LinkView};
use crate::db::tracks::{spec_create_track, spec_delete_track, spec_update_track, track_index};
use crate::like::{like, like_from, same_letter};
use crate::db::queries::{
    list_row, most_recent_releases, most_recent_tracks, newer_release, newer_track, release_rows,
    releases_by_recency, search_hit, search_pattern, tracks_by_recency, unassigned_count,
};
use crate::db::listing::{
    kept, lemma_head_is_most_recent, lemma_kept_contains, lemma_kept_no_duplicates,
    lemma_kept_sorted, lemma_same_items_same_len, lemma_sorted_no_duplicates, lemma_sorted_unique,
    sorted_by, strict_order,
};
use crate::db::order::lemma_newer_order;
use crate::db::placement::{placement_index, position_index, position_used, spec_move};
use crate::db::queries::{release_track_row, tracks_of_release};
use crate::models::{ReleaseTrackRowView, ReleaseView, TrackView};
use crate::models::{ReleaseInputView, TrackInputView};
use crate::text::{is_blank, trim_opt, trim_seq};
use crate::db::validate::{release_input_error, track_input_error};
use crate::db::releases::{link_count, release_row};

verus! {

/// A created track is found under the id it was given.
pub proof fn lemma_create_then_get_track(c: CatalogView, input: TrackInputView, now: Seq<char>)
    requires
        c.wf(),
        spec_create_track(c, input, now) is Ok,
    ensures
        spec_create_track(c, input, now) matches Ok((c2, t)) && c2.track_by_id(t.id) == Some(t),
{
    let (c2, t) = spec_create_track(c, input, now)->Ok_0;
    lemma_max_track_id(c.tracks);
    let n = c.tracks.len() as int;
    assert(c2.tracks[n] == t);
    assert(c2.has_track(t.id));
    let k = choose|i: int| 0 <= i < c2.tracks.len() && #[trigger] c2.tracks[i].id == t.id;
    if k != n {
        assert(c2.tracks[k] == c.tracks[k]);
    }
}

/// An edited track reads back as edited.
pub proof fn lemma_update_then_get_track(c: CatalogView, id: i64, input: TrackInputView, now: Seq<char>)
    requires
        c.wf(),
        spec_update_track(c, id, input, now) is Ok,
    ensures
        spec_update_track(c, id, input, now) matches Ok((c2, t)) && t.id == id && c2.track_by_id(id)
            == Some(t),
{
    let (c2, t) = spec_update_track(c, id, input, now)->Ok_0;
    assert(c.has_track(id));
    let k = track_index(c, id);
    assert(0 <= k < c.tracks.len() && c.tracks[k].id == id);
    assert(c2.tracks[k] == t);
    assert(c2.tracks[k].id == id);
    assert(c2.has_track(id));
    let j = choose|i: int| 0 <= i < c2.tracks.len() && #[trigger] c2.tracks[i].id == id;
    if j != k {
        assert(c2.tracks[j] == c.tracks[j]);
        if j < k {
            assert(c.tracks[j].id != c.tracks[k].id);
        } else {
            assert(c.tracks[k].id != c.tracks[j].id);
        }
    }
}

/// A deleted track is gone, and no release holds it any more.
pub proof fn lemma_delete_then_get_track(c: CatalogView, id: i64)
    requires
        c.wf(),
    ensures
        spec_delete_track(c, id).track_by_id(id) is None,
        !spec_delete_track(c, id).is_assigned(id),
{
    let c2 = spec_delete_track(c, id);
    if c.has_track(id) {
        let k = track_index(c, id);
        if c2.has_track(id) {
            let j = choose|i: int| 0 <= i < c2.tracks.len() && #[trigger] c2.tracks[i].id == id;
            let oj = if j < k { j } else { j + 1 };
            assert(c2.tracks[j] == c.tracks[oj]);
            if oj < k {
                assert(c.tracks[oj].id != c.tracks[k].id);
            } else {
                assert(c.tracks[k].id != c.tracks[oj].id);
            }
        }
        if c2.is_assigned(id) {
            let m = choose|x: int| 0 <= x < c2.links.len() && #[trigger] c2.links[x].track_id == id;
            if c.is_assigned(id) {
                let l = choose|x: int| 0 <= x < c.links.len() && #[trigger] c.links[x].track_id == id;
                let om = if m < l { m } else { m + 1 };
                assert(c2.links[m] == c.links[om]);
                if om < l {
                    assert(c.links[om].track_id != c.links[l].track_id);
                } else {
                    assert(c.links[l].track_id != c.links[om].track_id);
                }
            } else {
                assert(c.links[m].track_id == id);
            }
        }
    } else {
        if c.is_assigned(id) {
            let m = choose|x: int| 0 <= x < c.links.len() && #[trigger] c.links[x].track_id == id;
            assert(c.has_track(c.links[m].track_id));
        }
    }
}

/// A created release is found under the id it was given, with no tracks.
pub proof fn lemma_create_then_get_release(c: CatalogView, input: ReleaseInputView, now: Seq<char>)
    requires
        c.wf(),
        spec_create_release(c, input, now) is Ok,
    ensures
        spec_create_release(c, input, now) matches Ok((c2, r)) && spec_release_by_id(c2, r.id)
            == Some(r) && r.track_count == Some(0i64),
{
    let (c2, r) = spec_create_release(c, input, now)->Ok_0;
    lemma_max_release_id(c.releases);
    let n = c.releases.len() as int;
    assert(c2.releases[n].id == r.id);
    assert(c2.has_release(r.id));
    let k = choose|i: int| 0 <= i < c2.releases.len() && #[trigger] c2.releases[i].id == r.id;
    if k != n {
        assert(c2.releases[k] == c.releases[k]);
    }
    lemma_no_links_for_new_release(c.links, r.id, c);
}

proof fn lemma_no_links_for_new_release(links: Seq<LinkView>, id: i64, c: CatalogView)
    requires
        c.wf(),
        links == c.links,
        !c.has_release(id),
    ensures
        crate::db::releases::link_count(links, id) == 0,
{
    assert forall|k: int| 0 <= k < links.len() implies c.has_release(#[trigger] links[k].release_id) by {
        assert(c.has_track(c.links[k].track_id));
    }
    lemma_link_count_zero(links, id, c);
}

proof fn lemma_link_count_zero(links: Seq<LinkView>, id: i64, c: CatalogView)
    requires
        forall|k: int| 0 <= k < links.len() ==> c.has_release(#[trigger] links[k].release_id),
        !c.has_release(id),
    ensures
        crate::db::releases::link_count(links, id) == 0,
    decreases links.len(),
{
    if links.len() > 0 {
        assert(c.has_release(links[links.len() - 1].release_id));
        assert forall|k: int| 0 <= k < links.drop_last().len() implies c.has_release(#[trigger] links.drop_last()[k].release_id) by {
            assert(links.drop_last()[k] == links[k]);
        }
        lemma_link_count_zero(links.drop_last(), id, c);
    }
}

/// An edited release reads back as edited.
pub proof fn lemma_update_then_get_release(c: CatalogView, id: i64, input: ReleaseInputView, now: Seq<char>)
    requires
        c.wf(),
        spec_update_release(c, id, input, now) is Ok,
    ensures
        spec_update_release(c, id, input, now) matches Ok((c2, r)) && r.id == id
            && spec_release_by_id(c2, id) == Some(r),
{
    let (c2, r) = spec_update_release(c, id, input, now)->Ok_0;
    assert(c.has_release(id));
    let k = release_index(c, id);
    assert(0 <= k < c.releases.len() && c.releases[k].id == id);
    assert(c2.releases[k].id == id);
    assert(c2.has_release(id));
    let j = choose|i: int| 0 <= i < c2.releases.len() && #[trigger] c2.releases[i].id == id;
    if j != k {
        assert(c2.releases[j] == c.releases[j]);
        if j < k {
            assert(c.releases[j].id != c.releases[k].id);
        } else {
            assert(c.releases[k].id != c.releases[j].id);
        }
    }
}

/// A deleted release is gone, and every track it held is free again.
pub proof fn lemma_delete_release_frees_tracks(c: CatalogView, id: i64)
    requires
        c.wf(),
    ensures
        spec_release_by_id(spec_delete_release(c, id).0, id) is None,
        forall|k: int|
            0 <= k < spec_delete_release(c, id).0.links.len() ==> #[trigger] spec_delete_release(
                c,
                id,
            ).0.links[k].release_id != id,
{
    let c2 = spec_delete_release(c, id).0;
    if c.has_release(id) {
        let k = release_index(c, id);
        if c2.has_release(id) {
            let j = choose|i: int| 0 <= i < c2.releases.len() && #[trigger] c2.releases[i].id == id;
            let oj = if j < k { j } else { j + 1 };
            assert(c2.releases[j] == c.releases[oj]);
            if oj < k {
                assert(c.releases[oj].id != c.releases[k].id);
            } else {
                assert(c.releases[k].id != c.releases[oj].id);
            }
        }
        let keep = |l: LinkView| l.release_id != id;
        assert forall|k: int| 0 <= k < c2.links.len() implies #[trigger] c2.links[k].release_id != id by {
            c.links.lemma_filter_pred(keep, k);
        }
    } else {
        assert forall|k: int| 0 <= k < c2.links.len() implies #[trigger] c2.links[k].release_id != id by {
            assert(c.has_track(c.links[k].track_id));
        }
    }
}

/// A release shows the image it was last given, and none once it is
/// removed; removing hands back the image it had.
pub proof fn lemma_set_then_remove_image(c: CatalogView, id: i64, path: Seq<char>, t1: Seq<char>, t2: Seq<char>)
    requires
        c.wf(),
        c.has_release(id),
    ensures
        spec_set_release_image(c, id, path, t1) matches Ok((c2, r)) && r.image_path == Some(path)
            && (spec_remove_release_image(c2, id, t2) matches Ok((c3, r3, discarded))
            && discarded == Some(path) && r3.image_path is None),
{
    let (c2, r) = spec_set_release_image(c, id, path, t1)->Ok_0;
    let k = release_index(c, id);
    assert(c2.releases[k].id == id);
    assert(c2.has_release(id));
    let j = release_index(c2, id);
    if j != k {
        assert(c2.releases[j] == c.releases[j]);
        if j < k {
            assert(c.releases[j].id != c.releases[k].id);
        } else {
            assert(c.releases[k].id != c.releases[j].id);
        }
    }
}

proof fn lemma_percent_matches_rest(s: Seq<char>, j: int)
    requires
        0 <= j <= s.len(),
    ensures
        like_from(seq!['%', '%'], s, 1, j),
    decreases s.len() - j,
{
    if j < s.len() {
        lemma_percent_matches_rest(s, j + 1);
    }
    assert(like_from(seq!['%', '%'], s, 2, s.len() as int));
}

/// A blank search query matches every text.
pub proof fn lemma_blank_search_matches_everything(query: Seq<char>, s: Seq<char>)
    requires
        trim_seq(query).len() == 0,
    ensures
        like(search_pattern(query), s),
{
    assert(search_pattern(query) =~= seq!['%', '%']);
    lemma_percent_matches_rest(s, 0);
}

/// Listing tracks most recently updated first is a strict order.
proof fn lemma_track_order_strict()
    ensures
        strict_order(|a: TrackView, b: TrackView| newer_track(a, b)),
{
    let rel = |a: TrackView, b: TrackView| newer_track(a, b);
    assert forall|x: TrackView, y: TrackView, z: TrackView|
        #[trigger] rel(x, y) && #[trigger] rel(y, z) implies rel(x, z) by {
        lemma_newer_order(x.id, x.updated_at, y.id, y.updated_at, z.id, z.updated_at);
    }
    assert forall|x: TrackView, y: TrackView| #[trigger] rel(x, y) implies !rel(y, x) by {
        lemma_newer_order(x.id, x.updated_at, y.id, y.updated_at, y.id, y.updated_at);
    }
    assert forall|x: TrackView| !(#[trigger] rel(x, x)) by {
        lemma_newer_order(x.id, x.updated_at, x.id, x.updated_at, x.id, x.updated_at);
    }
}

/// Listing releases most recently updated first is a strict order.
proof fn lemma_release_order_strict()
    ensures
        strict_order(|a: ReleaseView, b: ReleaseView| newer_release(a, b)),
{
    let rel = |a: ReleaseView, b: ReleaseView| newer_release(a, b);
    assert forall|x: ReleaseView, y: ReleaseView, z: ReleaseView|
        #[trigger] rel(x, y) && #[trigger] rel(y, z) implies rel(x, z) by {
        lemma_newer_order(x.id, x.updated_at, y.id, y.updated_at, z.id, z.updated_at);
    }
    assert forall|x: ReleaseView, y: ReleaseView| #[trigger] rel(x, y) implies !rel(y, x) by {
        lemma_newer_order(x.id, x.updated_at, y.id, y.updated_at, y.id, y.updated_at);
    }
    assert forall|x: ReleaseView| !(#[trigger] rel(x, x)) by {
        lemma_newer_order(x.id, x.updated_at, x.id, x.updated_at, x.id, x.updated_at);
    }
}

proof fn lemma_tracks_no_duplicates(c: CatalogView)
    requires
        c.wf(),
    ensures
        c.tracks.no_duplicates(),
{
    assert forall|i: int, j: int| 0 <= i < c.tracks.len() && 0 <= j < c.tracks.len() && i != j implies c.tracks[i]
        != c.tracks[j] by {
        if i < j {
            assert(c.tracks[i].id != c.tracks[j].id);
        } else {
            assert(c.tracks[j].id != c.tracks[i].id);
        }
    }
}

proof fn lemma_release_rows_no_duplicates(c: CatalogView)
    requires
        c.wf(),
    ensures
        release_rows(c).no_duplicates(),
{
    let rows = release_rows(c);
    assert forall|i: int, j: int| 0 <= i < rows.len() && 0 <= j < rows.len() && i != j implies rows[i]
        != rows[j] by {
        assert(rows[i].id == c.releases[i].id);
        assert(rows[j].id == c.releases[j].id);
        if i < j {
            assert(c.releases[i].id != c.releases[j].id);
        } else {
            assert(c.releases[j].id != c.releases[i].id);
        }
    }
}

/// A listing of tracks kept by `keep` is the full listing with the other
/// tracks left out, in the same order.
proof fn lemma_listing_kept(
    pool: Seq<TrackView>,
    listed: Seq<TrackView>,
    rows: Seq<TrackView>,
    keep: spec_fn(TrackView) -> bool,
)
    requires
        tracks_by_recency(listed, pool, |t: TrackView| true),
        tracks_by_recency(rows, pool, keep),
    ensures
        rows == kept(listed, keep),
{
    let rel = |a: TrackView, b: TrackView| newer_track(a, b);
    lemma_track_order_strict();
    assert(sorted_by(listed, rel));
    assert(sorted_by(rows, rel));
    lemma_kept_sorted(listed, keep, rel);
    lemma_kept_contains(listed, keep);
    assert forall|x: TrackView| kept(listed, keep).contains(x) <==> rows.contains(x) by {
        if listed.contains(x) {
            let p = choose|p: int| 0 <= p < listed.len() && listed[p] == x;
            assert(pool.contains(listed[p]));
        }
        if rows.contains(x) {
            let p = choose|p: int| 0 <= p < rows.len() && rows[p] == x;
            assert(pool.contains(rows[p]) && keep(rows[p]));
            let i = choose|i: int| 0 <= i < pool.len() && pool[i] == x;
            assert(listed.contains(pool[i]));
        }
        if pool.contains(x) && keep(x) {
            let i = choose|i: int| 0 <= i < pool.len() && pool[i] == x;
            assert(rows.contains(pool[i]));
        }
    }
    lemma_sorted_unique(kept(listed, keep), rows, rel);
}

/// The dashboard's recent tracks and releases are the first five (or all,
/// when there are fewer) of the track and release listings.
pub proof fn lemma_dashboard_heads_listings(
    c: CatalogView,
    listed: Seq<TrackView>,
    recent: Seq<TrackView>,
    listed_releases: Seq<ReleaseView>,
    recent_releases: Seq<ReleaseView>,
)
    requires
        c.wf(),
        tracks_by_recency(listed, c.tracks, |t: TrackView| true),
        most_recent_tracks(recent, c.tracks, 5),
        releases_by_recency(listed_releases, release_rows(c)),
        most_recent_releases(recent_releases, release_rows(c), 5),
    ensures
        recent == listed.take(recent.len() as int),
        recent.len() == if listed.len() < 5 { listed.len() } else { 5 },
        recent_releases == listed_releases.take(recent_releases.len() as int),
        recent_releases.len() == if listed_releases.len() < 5 { listed_releases.len() } else { 5 },
{
    let rel = |a: TrackView, b: TrackView| newer_track(a, b);
    lemma_track_order_strict();
    lemma_tracks_no_duplicates(c);
    assert(sorted_by(listed, rel));
    assert(sorted_by(recent, rel));
    assert forall|x: TrackView| listed.contains(x) <==> c.tracks.contains(x) by {
        if c.tracks.contains(x) {
            let i = choose|i: int| 0 <= i < c.tracks.len() && c.tracks[i] == x;
            assert(listed.contains(c.tracks[i]));
        }
        if listed.contains(x) {
            let p = choose|p: int| 0 <= p < listed.len() && listed[p] == x;
            assert(c.tracks.contains(listed[p]));
        }
    }
    lemma_head_is_most_recent(listed, recent, c.tracks, rel);
    lemma_sorted_no_duplicates(listed, rel);
    lemma_same_items_same_len(listed, c.tracks);

    let pool = release_rows(c);
    let rrel = |a: ReleaseView, b: ReleaseView| newer_release(a, b);
    lemma_release_order_strict();
    lemma_release_rows_no_duplicates(c);
    assert(sorted_by(listed_releases, rrel));
    assert(sorted_by(recent_releases, rrel));
    assert forall|x: ReleaseView| listed_releases.contains(x) <==> pool.contains(x) by {
        if pool.contains(x) {
            let i = choose|i: int| 0 <= i < pool.len() && pool[i] == x;
            assert(listed_releases.contains(pool[i]));
        }
        if listed_releases.contains(x) {
            let p = choose|p: int| 0 <= p < listed_releases.len() && listed_releases[p] == x;
            assert(pool.contains(listed_releases[p]));
        }
    }
    lemma_head_is_most_recent(listed_releases, recent_releases, pool, rrel);
    lemma_sorted_no_duplicates(listed_releases, rrel);
    lemma_same_items_same_len(listed_releases, pool);
}

proof fn lemma_unassigned_count_kept(c: CatalogView, ts: Seq<TrackView>)
    ensures
        unassigned_count(c, ts) == kept(ts, |t: TrackView| !c.is_assigned(t.id)).len(),
    decreases ts.len(),
{
    if ts.len() > 0 {
        lemma_unassigned_count_kept(c, ts.drop_last());
    }
}

/// The free tracks are the track listing without the tracks that sit in a
/// release, in the same order; there are as many as the dashboard counts,
/// and a listed track shows no release exactly when it sits in none.
pub proof fn lemma_available_is_listing_filtered(
    c: CatalogView,
    listed: Seq<TrackView>,
    available: Seq<TrackView>,
)
    requires
        c.wf(),
        tracks_by_recency(listed, c.tracks, |t: TrackView| true),
        tracks_by_recency(available, c.tracks, |t: TrackView| !c.is_assigned(t.id)),
    ensures
        available == kept(listed, |t: TrackView| !c.is_assigned(t.id)),
        available.len() == unassigned_count(c, c.tracks),
        forall|t: TrackView|
            (#[trigger] list_row(c, t)).assigned_release_id is None <==> !c.is_assigned(t.id),
{
    let keep = |t: TrackView| !c.is_assigned(t.id);
    lemma_listing_kept(c.tracks, listed, available, keep);
    let rel = |a: TrackView, b: TrackView| newer_track(a, b);
    lemma_track_order_strict();
    assert(sorted_by(available, rel));
    lemma_sorted_no_duplicates(available, rel);
    lemma_tracks_no_duplicates(c);
    lemma_kept_no_duplicates(c.tracks, keep);
    lemma_kept_contains(c.tracks, keep);
    assert forall|x: TrackView| available.contains(x) <==> kept(c.tracks, keep).contains(x) by {
        if available.contains(x) {
            let p = choose|p: int| 0 <= p < available.len() && available[p] == x;
            assert(c.tracks.contains(available[p]));
        }
        if c.tracks.contains(x) && keep(x) {
            let i = choose|i: int| 0 <= i < c.tracks.len() && c.tracks[i] == x;
            assert(available.contains(c.tracks[i]));
        }
    }
    lemma_same_items_same_len(available, kept(c.tracks, keep));
    lemma_unassigned_count_kept(c, c.tracks);
    assert forall|t: TrackView|
        (#[trigger] list_row(c, t)).assigned_release_id is None <==> !c.is_assigned(t.id) by {
        if c.is_assigned(t.id) {
            let k = choose|k: int| 0 <= k < c.links.len() && #[trigger] c.links[k].track_id == t.id;
            assert(c.has_release(c.links[k].release_id));
        }
    }
}

/// A search lists the track listing without the tracks it does not hit,
/// in the same order.
pub proof fn lemma_search_is_listing_filtered(
    c: CatalogView,
    query: Seq<char>,
    listed: Seq<TrackView>,
    found: Seq<TrackView>,
)
    requires
        tracks_by_recency(listed, c.tracks, |t: TrackView| true),
        tracks_by_recency(found, c.tracks, |t: TrackView| search_hit(query, t)),
    ensures
        found == kept(listed, |t: TrackView| search_hit(query, t)),
{
    lemma_listing_kept(c.tracks, listed, found, |t: TrackView| search_hit(query, t));
}

/// `q` occurs in `s` at some place, ASCII letters matching in either case.
pub open spec fn contains_ignoring_case(s: Seq<char>, q: Seq<char>) -> bool {
    exists|i: int| #[trigger] occurs_at(s, q, i)
}

/// `q` occurs in `s` from position `i`, ASCII letters matching in either
/// case.
pub open spec fn occurs_at(s: Seq<char>, q: Seq<char>, i: int) -> bool {
    0 <= i && i + q.len() <= s.len() && forall|k: int|
        0 <= k < q.len() ==> same_letter(#[trigger] q[k], s[i + k])
}

/// The text has neither of `LIKE`'s wildcards.
pub open spec fn no_wildcards(q: Seq<char>) -> bool {
    forall|k: int| 0 <= k < q.len() ==> #[trigger] q[k] != '%' && q[k] != '_'
}

proof fn lemma_trailing_percent(p: Seq<char>, s: Seq<char>, j: int)
    requires
        p.len() >= 1,
        p.last() == '%',
        0 <= j <= s.len(),
    ensures
        like_from(p, s, p.len() - 1, j),
    decreases s.len() - j,
{
    if j < s.len() {
        lemma_trailing_percent(p, s, j + 1);
    }
    assert(like_from(p, s, p.len() as int, s.len() as int));
}

proof fn lemma_literal_run(q: Seq<char>, s: Seq<char>, i: int, j: int)
    requires
        no_wildcards(q),
        1 <= i <= q.len() + 1,
        0 <= j <= s.len(),
    ensures
        like_from(seq!['%'] + q + seq!['%'], s, i, j) <==> (j + (q.len() + 1 - i) <= s.len()
            && forall|k: int|
            0 <= k < q.len() + 1 - i ==> same_letter(#[trigger] q[i - 1 + k], s[j + k])),
    decreases q.len() + 1 - i,
{
    let p = seq!['%'] + q + seq!['%'];
    if i == q.len() + 1 {
        lemma_trailing_percent(p, s, j);
    } else {
        assert(p[i] == q[i - 1]);
        assert(q[i - 1] != '%' && q[i - 1] != '_');
        if j < s.len() {
            lemma_literal_run(q, s, i + 1, j + 1);
            let n = q.len() + 1 - i;
            if like_from(p, s, i, j) {
                assert forall|k: int| 0 <= k < n implies same_letter(#[trigger] q[i - 1 + k], s[j + k]) by {
                    if k > 0 {
                        assert(q[i - 1 + k] == q[(i + 1) - 1 + (k - 1)]);
                    }
                }
            }
            if j + n <= s.len() && forall|k: int|
                0 <= k < n ==> same_letter(#[trigger] q[i - 1 + k], s[j + k]) {
                assert(same_letter(q[i - 1 + 0], s[j + 0]));
                assert forall|k: int| 0 <= k < n - 1 implies same_letter(
                    #[trigger] q[(i + 1) - 1 + k],
                    s[(j + 1) + k],
                ) by {
                    assert(q[(i + 1) - 1 + k] == q[i - 1 + (k + 1)]);
                }
            }
        }
    }
}

proof fn lemma_leading_percent(q: Seq<char>, s: Seq<char>, j: int)
    requires
        no_wildcards(q),
        0 <= j <= s.len(),
    ensures
        like_from(seq!['%'] + q + seq!['%'], s, 0, j) <==> exists|i: int|
            j <= i <= s.len() && #[trigger] like_from(seq!['%'] + q + seq!['%'], s, 1, i),
    decreases s.len() - j,
{
    let p = seq!['%'] + q + seq!['%'];
    assert(p[0] == '%');
    assert(like_from(p, s, 0, j) == (like_from(p, s, 1, j) || (j < s.len() && like_from(
        p,
        s,
        0,
        j + 1,
    ))));
    if j < s.len() {
        lemma_leading_percent(q, s, j + 1);
    }
    if like_from(p, s, 1, j) {
        assert(j <= j <= s.len() && like_from(p, s, 1, j));
    } else if j < s.len() && like_from(p, s, 0, j + 1) {
        let i = choose|i: int| j + 1 <= i <= s.len() && #[trigger] like_from(p, s, 1, i);
        assert(j <= i <= s.len() && like_from(p, s, 1, i));
    }
    if exists|i: int| j <= i <= s.len() && #[trigger] like_from(p, s, 1, i) {
        let i = choose|i: int| j <= i <= s.len() && #[trigger] like_from(p, s, 1, i);
        if i > j {
            assert(j + 1 <= i <= s.len() && like_from(p, s, 1, i));
        }
    }
}

/// Without wildcards, `%q%` matches exactly the texts in which `q` occurs,
/// ASCII letters matching in either case.
pub proof fn lemma_like_is_substring(q: Seq<char>, s: Seq<char>)
    requires
        no_wildcards(q),
    ensures
        like(seq!['%'] + q + seq!['%'], s) <==> contains_ignoring_case(s, q),
{
    let p = seq!['%'] + q + seq!['%'];
    lemma_leading_percent(q, s, 0);
    if like(p, s) {
        let i = choose|i: int| 0 <= i <= s.len() && #[trigger] like_from(p, s, 1, i);
        lemma_literal_run(q, s, 1, i);
        assert forall|k: int| 0 <= k < q.len() implies same_letter(#[trigger] q[k], s[i + k]) by {
            assert(q[k] == q[1 - 1 + k]);
        }
        assert(occurs_at(s, q, i));
    }
    if contains_ignoring_case(s, q) {
        let i = choose|i: int| #[trigger] occurs_at(s, q, i);
        lemma_literal_run(q, s, 1, i);
        assert forall|k: int| 0 <= k < q.len() + 1 - 1 implies same_letter(
            #[trigger] q[1 - 1 + k],
            s[i + k],
        ) by {
            assert(q[1 - 1 + k] == q[k]);
        }
        assert(like_from(p, s, 1, i));
    }
}

/// A search for a query without wildcards hits the tracks whose internal
/// code or title holds the trimmed query, ASCII letters matching in either
/// case.
pub proof fn lemma_search_is_substring_match(query: Seq<char>, t: TrackView)
    requires
        no_wildcards(trim_seq(query)),
    ensures
        search_hit(query, t) <==> contains_ignoring_case(t.internal_code, trim_seq(query))
            || contains_ignoring_case(t.title, trim_seq(query)),
{
    lemma_like_is_substring(trim_seq(query), t.internal_code);
    lemma_like_is_substring(trim_seq(query), t.title);
}

/// The rows of a release's listing with the tracks at `a` and `a + 1`
/// trading places (each row keeps its position number).
pub open spec fn traded(rows: Seq<ReleaseTrackRowView>, a: int) -> Seq<ReleaseTrackRowView> {
    rows.update(a, ReleaseTrackRowView { track_order: rows[a].track_order, ..rows[a + 1] }).update(
        a + 1,
        ReleaseTrackRowView { track_order: rows[a + 1].track_order, ..rows[a] },
    )
}

/// The listed row of a link names the link's track.
proof fn lemma_row_names_track(c: CatalogView, l: int)
    requires
        c.wf(),
        0 <= l < c.links.len(),
    ensures
        release_track_row(c, c.links[l]).track_id == c.links[l].track_id,
        release_track_row(c, c.links[l]).track_order == c.links[l].track_order,
{
    assert(c.has_track(c.links[l].track_id));
}

proof fn lemma_rows_items(rows: Seq<ReleaseTrackRowView>, c: CatalogView, release_id: i64)
    requires
        tracks_of_release(rows, c, release_id),
    ensures
        forall|x: ReleaseTrackRowView|
            rows.contains(x) <==> exists|l: int|
                0 <= l < c.links.len() && c.links[l].release_id == release_id
                    && #[trigger] release_track_row(c, c.links[l]) == x,
{
    assert forall|x: ReleaseTrackRowView|
        rows.contains(x) <==> exists|l: int|
            0 <= l < c.links.len() && c.links[l].release_id == release_id
                && #[trigger] release_track_row(c, c.links[l]) == x by {
        if rows.contains(x) {
            let p = choose|p: int| 0 <= p < rows.len() && rows[p] == x;
            assert(exists|l: int|
                0 <= l < c.links.len() && c.links[l].release_id == release_id
                    && #[trigger] release_track_row(c, c.links[l]) == rows[p]);
        }
        if exists|l: int|
            0 <= l < c.links.len() && c.links[l].release_id == release_id
                && #[trigger] release_track_row(c, c.links[l]) == x {
            let l = choose|l: int|
                0 <= l < c.links.len() && c.links[l].release_id == release_id
                    && #[trigger] release_track_row(c, c.links[l]) == x;
            assert(rows.contains(release_track_row(c, c.links[l])));
        }
    }
}

proof fn lemma_position_order_strict()
    ensures
        strict_order(|x: ReleaseTrackRowView, y: ReleaseTrackRowView| x.track_order < y.track_order),
{
}

/// Moving a track up or down changes a release's listing by at most one
/// trade of neighbouring tracks: either nothing changes, or the tracks at
/// two neighbouring places trade places, each place keeping its number.
pub proof fn lemma_move_trades_neighbours(
    c: CatalogView,
    track_id: i64,
    release_id: i64,
    up: bool,
    before: Seq<ReleaseTrackRowView>,
    after: Seq<ReleaseTrackRowView>,
)
    requires
        c.wf(),
        spec_move(c, track_id, release_id, up) is Ok,
        tracks_of_release(before, c, release_id),
        tracks_of_release(after, spec_move(c, track_id, release_id, up)->Ok_0, release_id),
    ensures
        after == before || exists|a: int| 0 <= a && a + 1 < before.len() && after == #[trigger] traded(before, a),
{
    let c2 = spec_move(c, track_id, release_id, up)->Ok_0;
    let rel = |x: ReleaseTrackRowView, y: ReleaseTrackRowView| x.track_order < y.track_order;
    lemma_position_order_strict();
    assert(sorted_by(before, rel));
    assert(sorted_by(after, rel));
    lemma_sorted_no_duplicates(before, rel);
    lemma_rows_items(before, c, release_id);
    lemma_rows_items(after, c2, release_id);
    let k = placement_index(c, track_id, release_id);
    let current = c.links[k].track_order;
    let target: int = if up { current - 1 } else { current + 1 };
    if target <= 0 || !position_used(c, release_id, target) {
        assert(c2 == c);
        lemma_sorted_unique(before, after, rel);
    } else {
        let m = position_index(c, release_id, target);
        assert(c.links[k].track_id == track_id && c.links[k].release_id == release_id);
        assert(c2.tracks == c.tracks);
        let lk2 = LinkView { track_order: target as i64, ..c.links[k] };
        let lm2 = LinkView { track_order: current, ..c.links[m] };
        assert(k != m);
        assert(c2.links == c.links.update(k, lk2).update(m, lm2));
        assert(c2.links[k] == lk2 && c2.links[m] == lm2);
        lemma_row_names_track(c, k);
        lemma_row_names_track(c, m);
        let rk = release_track_row(c, c.links[k]);
        let rm = release_track_row(c, c.links[m]);
        let rk2 = release_track_row(c2, lk2);
        let rm2 = release_track_row(c2, lm2);
        assert(rk2 == ReleaseTrackRowView { track_order: target as i64, ..rk });
        assert(rm2 == ReleaseTrackRowView { track_order: current, ..rm });
        assert(before.contains(rk));
        assert(before.contains(rm));
        let ak = choose|p: int| 0 <= p < before.len() && before[p] == rk;
        let am = choose|p: int| 0 <= p < before.len() && before[p] == rm;
        // the two rows are neighbours
        if up {
            if am > ak {
                assert(rel(before[ak], before[am]));
            }
            if ak > am + 1 {
                assert(rel(before[am], before[am + 1]));
                assert(rel(before[am + 1], before[ak]));
            }
            assert(ak == am + 1);
        } else {
            if ak > am {
                assert(rel(before[am], before[ak]));
            }
            if am > ak + 1 {
                assert(rel(before[ak], before[ak + 1]));
                assert(rel(before[ak + 1], before[am]));
            }
            assert(am == ak + 1);
        }
        let a = if up { am } else { ak };
        let e = traded(before, a);
        assert(e[ak] == rm2);
        assert(e[am] == rk2);
        assert forall|p: int, q: int| 0 <= p < q < e.len() implies rel(e[p], e[q]) by {
            assert(e[p].track_order == before[p].track_order);
            assert(e[q].track_order == before[q].track_order);
            assert(rel(before[p], before[q]));
        }
        assert forall|x: ReleaseTrackRowView| e.contains(x) <==> after.contains(x) by {
            if e.contains(x) {
                let i = choose|i: int| 0 <= i < e.len() && e[i] == x;
                if i == ak {
                    assert(release_track_row(c2, c2.links[m]) == x);
                } else if i == am {
                    assert(release_track_row(c2, c2.links[k]) == x);
                } else {
                    assert(e[i] == before[i]);
                    assert(before.contains(before[i]));
                    let l = choose|l: int|
                        0 <= l < c.links.len() && c.links[l].release_id == release_id
                            && #[trigger] release_track_row(c, c.links[l]) == before[i];
                    if l == k {
                        assert(before[i] == before[ak]);
                    }
                    if l == m {
                        assert(before[i] == before[am]);
                    }
                    assert(c2.links[l] == c.links[l]);
                    assert(release_track_row(c2, c2.links[l]) == x);
                }
            }
            if after.contains(x) {
                let l = choose|l: int|
                    0 <= l < c2.links.len() && c2.links[l].release_id == release_id
                        && #[trigger] release_track_row(c2, c2.links[l]) == x;
                if l == k {
                    assert(e[am] == x);
                } else if l == m {
                    assert(e[ak] == x);
                } else {
                    assert(c2.links[l] == c.links[l]);
                    assert(release_track_row(c, c.links[l]) == x);
                    assert(before.contains(x));
                    let i = choose|i: int| 0 <= i < before.len() && before[i] == x;
                    lemma_row_names_track(c, l);
                    assert(c.links[l].track_id != c.links[k].track_id) by {
                        if l < k {} else {}
                    }
                    assert(c.links[l].track_id != c.links[m].track_id) by {
                        if l < m {} else {}
                    }
                    assert(i != ak && i != am);
                    assert(e[i] == x);
                }
            }
        }
        lemma_sorted_unique(e, after, rel);
    }
}


/// A track input passes the checks exactly when its internal code and title
/// are not blank, its status is Idea, Draft, In Progress or Final, and its
/// BPM, when given, is positive.
pub proof fn lemma_track_input_accepted(i: TrackInputView)
    ensures
        track_input_error(i) is None <==> (!is_blank(i.internal_code) && !is_blank(i.title) && (
        i.status == "Idea"@ || i.status == "Draft"@ || i.status == "In Progress"@ || i.status
            == "Final"@) && (i.bpm matches Some(b) ==> b > 0)),
{
}

/// A release input passes the checks exactly when its internal code and
/// title are not blank, its type is Album, EP or Single, and its status is
/// Planned, In Progress or Released.
pub proof fn lemma_release_input_accepted(i: ReleaseInputView)
    ensures
        release_input_error(i) is None <==> (!is_blank(i.internal_code) && !is_blank(i.title) && (
        i.release_type == "Album"@ || i.release_type == "EP"@ || i.release_type == "Single"@) && (
        i.status == "Planned"@ || i.status == "In Progress"@ || i.status == "Released"@)),
{
}

/// A created track holds what its input gave: texts trimmed, blank
/// optional texts dropped, status and BPM as given; it is stamped `now` as
/// both its creation and its update time.
pub proof fn lemma_create_track_fields(c: CatalogView, input: TrackInputView, now: Seq<char>)
    requires
        c.wf(),
        spec_create_track(c, input, now) is Ok,
    ensures
        spec_create_track(c, input, now) matches Ok((c2, t)) && t.internal_code == trim_seq(
            input.internal_code,
        ) && t.title == trim_seq(input.title) && t.status == input.status && t.description
            == trim_opt(input.description) && t.lyrics == trim_opt(input.lyrics) && t.notes
            == trim_opt(input.notes) && t.bpm == input.bpm && t.key == trim_opt(input.key)
            && t.created_at == now && t.updated_at == now,
{
}

/// An edited track holds what its input gave (texts trimmed, blank
/// optional texts dropped, status and BPM as given), keeps its id and
/// creation time, and is stamped `now` as its update time.
pub proof fn lemma_update_track_fields(c: CatalogView, id: i64, input: TrackInputView, now: Seq<char>)
    requires
        c.wf(),
        spec_update_track(c, id, input, now) is Ok,
    ensures
        c.track_by_id(id) is Some,
        spec_update_track(c, id, input, now) matches Ok((c2, t)) && t.id == id && t.internal_code
            == trim_seq(input.internal_code) && t.title == trim_seq(input.title) && t.status
            == input.status && t.description == trim_opt(input.description) && t.lyrics
            == trim_opt(input.lyrics) && t.notes == trim_opt(input.notes) && t.bpm == input.bpm
            && t.key == trim_opt(input.key) && t.created_at == c.track_by_id(id)->Some_0.created_at
            && t.updated_at == now,
{
    assert(c.has_track(id));
    let k = track_index(c, id);
    let j = choose|i: int| 0 <= i < c.tracks.len() && #[trigger] c.tracks[i].id == id;
    if j != k {
        if j < k {
            assert(c.tracks[j].id != c.tracks[k].id);
        } else {
            assert(c.tracks[k].id != c.tracks[j].id);
        }
    }
}

/// A created release holds what its input gave (texts trimmed, blank
/// optional texts dropped, type and status as given), has no tracks, and is
/// stamped `now` as both its creation and its update time.
pub proof fn lemma_create_release_fields(c: CatalogView, input: ReleaseInputView, now: Seq<char>)
    requires
        c.wf(),
        spec_create_release(c, input, now) is Ok,
    ensures
        spec_create_release(c, input, now) matches Ok((c2, r)) && r.internal_code == trim_seq(
            input.internal_code,
        ) && r.title == trim_seq(input.title) && r.release_type == input.release_type && r.status
            == input.status && r.description == trim_opt(input.description) && r.image_path
            == trim_opt(input.image_path) && r.track_count == Some(0i64) && r.created_at == now
            && r.updated_at == now,
{
    lemma_create_then_get_release(c, input, now);
}

/// An edited release holds what its input gave (texts trimmed, blank
/// optional texts dropped, type and status as given), keeps its id, its
/// creation time and its tracks, and is stamped `now` as its update time.
pub proof fn lemma_update_release_fields(c: CatalogView, id: i64, input: ReleaseInputView, now: Seq<char>)
    requires
        c.wf(),
        spec_update_release(c, id, input, now) is Ok,
    ensures
        c.release_by_id(id) is Some,
        spec_update_release(c, id, input, now) matches Ok((c2, r)) && r.id == id && r.internal_code
            == trim_seq(input.internal_code) && r.title == trim_seq(input.title) && r.release_type
            == input.release_type && r.status == input.status && r.description == trim_opt(
            input.description,
        ) && r.image_path == trim_opt(input.image_path) && r.track_count == Some(
            link_count(c.links, id) as i64,
        ) && r.created_at == c.release_by_id(id)->Some_0.created_at && r.updated_at == now,
{
    assert(c.has_release(id));
    let k = release_index(c, id);
    let j = choose|i: int| 0 <= i < c.releases.len() && #[trigger] c.releases[i].id == id;
    if j != k {
        if j < k {
            assert(c.releases[j].id != c.releases[k].id);
        } else {
            assert(c.releases[k].id != c.releases[j].id);
        }
    }
}

/// The listed row `x` shows a stored release as it is stored, with its
/// number of tracks.
pub open spec fn shows_release(x: ReleaseView, c: CatalogView) -> bool {
    exists|k: int|
        0 <= k < c.releases.len() && #[trigger] c.releases[k].id == x.id && x.internal_code
            == c.releases[k].internal_code && x.title == c.releases[k].title && x.release_type
            == c.releases[k].release_type && x.status == c.releases[k].status && x.description
            == c.releases[k].description && x.image_path == c.releases[k].image_path
            && x.created_at == c.releases[k].created_at && x.updated_at == c.releases[k].updated_at
            && x.track_count == Some(link_count(c.links, c.releases[k].id) as i64)
}

proof fn lemma_listed_release(x: ReleaseView, c: CatalogView)
    requires
        release_rows(c).contains(x),
    ensures
        shows_release(x, c),
{
    let pool = release_rows(c);
    let k = choose|k: int| 0 <= k < pool.len() && pool[k] == x;
    assert(pool[k] == release_row(c, c.releases[k]));
}

/// Some row of the listing shows the release with this id.
pub open spec fn lists_id(rows: Seq<ReleaseView>, id: i64) -> bool {
    exists|p: int| 0 <= p < rows.len() && #[trigger] rows[p].id == id
}

proof fn lemma_release_listed(rows: Seq<ReleaseView>, c: CatalogView, k: int)
    requires
        0 <= k < c.releases.len(),
        forall|i: int| 0 <= i < release_rows(c).len() ==> rows.contains(#[trigger] release_rows(c)[i]),
    ensures
        lists_id(rows, c.releases[k].id),
{
    let pool = release_rows(c);
    assert(pool[k] == release_row(c, c.releases[k]));
    assert(rows.contains(pool[k]));
    let p = choose|p: int| 0 <= p < rows.len() && rows[p] == pool[k];
    assert(rows[p].id == c.releases[k].id);
}

/// Each listed release shows a stored release as it is stored (code,
/// title, type, status, description, image and times) with the number of
/// tracks placed in it, and every stored release is listed.
pub proof fn lemma_release_listing_shows_records(rows: Seq<ReleaseView>, c: CatalogView)
    requires
        releases_by_recency(rows, release_rows(c)),
    ensures
        forall|p: int| 0 <= p < rows.len() ==> shows_release(#[trigger] rows[p], c),
        forall|k: int| 0 <= k < c.releases.len() ==> lists_id(rows, #[trigger] c.releases[k].id),
{
    assert forall|p: int| 0 <= p < rows.len() implies shows_release(#[trigger] rows[p], c) by {
        lemma_listed_release(rows[p], c);
    }
    assert forall|k: int| 0 <= k < c.releases.len() implies lists_id(rows, #[trigger] c.releases[k].id) by {
        lemma_release_listed(rows, c, k);
    }
}

/// Each row of a release's track listing shows the stored track it names
/// (its code, title, status, description, lyrics, BPM and key), and that
/// track sits in the release at the row's position.
pub proof fn lemma_release_tracks_show_tracks(rows: Seq<ReleaseTrackRowView>, c: CatalogView, release_id: i64)
    requires
        c.wf(),
        tracks_of_release(rows, c, release_id),
    ensures
        forall|p: int|
            #![trigger rows[p]]
            0 <= p < rows.len() ==> (c.track_by_id(rows[p].track_id) matches Some(t) && t.id
                == rows[p].track_id && rows[p].internal_code == t.internal_code && rows[p].title
                == t.title && rows[p].status == t.status && rows[p].description == t.description
                && rows[p].lyrics == t.lyrics && rows[p].bpm == t.bpm && rows[p].key == t.key),
        forall|p: int|
            #![trigger rows[p]]
            0 <= p < rows.len() ==> (c.link_of_track(rows[p].track_id) matches Some(l)
                && l.release_id == release_id && l.track_order == rows[p].track_order),
{
    assert forall|p: int| #![trigger rows[p]] 0 <= p < rows.len() implies (c.track_by_id(
        rows[p].track_id,
    ) matches Some(t) && t.id == rows[p].track_id && rows[p].internal_code == t.internal_code
        && rows[p].title == t.title && rows[p].status == t.status && rows[p].description
        == t.description && rows[p].lyrics == t.lyrics && rows[p].bpm == t.bpm && rows[p].key
        == t.key) && (c.link_of_track(rows[p].track_id) matches Some(l) && l.release_id
        == release_id && l.track_order == rows[p].track_order) by {
        let k = choose|k: int|
            0 <= k < c.links.len() && c.links[k].release_id == release_id
                && #[trigger] release_track_row(c, c.links[k]) == rows[p];
        lemma_row_names_track(c, k);
        let tid = c.links[k].track_id;
        assert(c.has_track(tid));
        assert(c.is_assigned(tid));
        let j = choose|j: int| 0 <= j < c.links.len() && #[trigger] c.links[j].track_id == tid;
        if j != k {
            if j < k {
                assert(c.links[j].track_id != c.links[k].track_id);
            } else {
                assert(c.links[k].track_id != c.links[j].track_id);
            }
        }
    }
}


/// A listed track shows the track itself and the release it sits in: the
/// release's id and title, marked "Assigned"; a track that sits in no
/// release shows neither and is marked "Available".
pub proof fn lemma_list_row_shows_release(c: CatalogView, t: TrackView)
    requires
        c.wf(),
    ensures
        list_row(c, t).track == t,
        c.link_of_track(t.id) matches Some(l) ==> (c.release_by_id(l.release_id) matches Some(r)
            && r.id == l.release_id && list_row(c, t).assigned_release_id == Some(l.release_id)
            && list_row(c, t).assigned_release_title == Some(r.title)
            && list_row(c, t).availability == "Assigned"@),
        c.link_of_track(t.id) is None ==> list_row(c, t).assigned_release_id is None && list_row(
            c,
            t,
        ).assigned_release_title is None && list_row(c, t).availability == "Available"@,
{
    if c.is_assigned(t.id) {
        let k = choose|k: int| 0 <= k < c.links.len() && #[trigger] c.links[k].track_id == t.id;
        assert(c.has_track(c.links[k].track_id));
        assert(c.has_release(c.links[k].release_id));
    }
}

} // verus!
