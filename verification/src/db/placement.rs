//! Placing tracks in releases: assignment at the end of a release, removal
//! (which closes the gap), and moving a track one position up or down.

use vstd::prelude::*;
use crate::clock::now_iso;
use crate::db::releases::link_count;
use crate::db::store::{Catalog, CatalogView, LinkView, ReleaseTrackLink};

verus! {

/// The highest position used in a release (0 when it has no tracks).
pub open spec fn max_order(links: Seq<LinkView>, release_id: i64) -> i64
    decreases links.len(),
{
    if links.len() == 0 {
        0
    } else {
        let m = max_order(links.drop_last(), release_id);
        if links.last().release_id == release_id && links.last().track_order > m {
            links.last().track_order
        } else {
            m
        }
    }
}

pub proof fn lemma_max_order(links: Seq<LinkView>, release_id: i64)
    ensures
        forall|k: int|
            0 <= k < links.len() && #[trigger] links[k].release_id == release_id
                ==> links[k].track_order <= max_order(links, release_id),
        max_order(links, release_id) >= 0,
    decreases links.len(),
{
    if links.len() > 0 {
        lemma_max_order(links.drop_last(), release_id);
        assert forall|k: int|
            0 <= k < links.len() && #[trigger] links[k].release_id
                == release_id implies links[k].track_order <= max_order(links, release_id) by {
            if k < links.len() - 1 {
                assert(links.drop_last()[k] == links[k]);
            }
        }
    }
}

/// The message of a track that is not in the given release.
pub open spec fn not_assigned_message() -> Seq<char> {
    "Track is not assigned to this release"@
}

/// The message of a release that has no room for another position.
pub open spec fn positions_exhausted_message() -> Seq<char> {
    "Release has no free track position"@
}

/// The track sits in this release.
pub open spec fn placed_in(c: CatalogView, track_id: i64, release_id: i64) -> bool {
    exists|k: int|
        0 <= k < c.links.len() && #[trigger] c.links[k].track_id == track_id
            && c.links[k].release_id == release_id
}

/// Where the track sits in this release (meaningful when `placed_in`).
pub open spec fn placement_index(c: CatalogView, track_id: i64, release_id: i64) -> int {
    choose|k: int|
        0 <= k < c.links.len() && #[trigger] c.links[k].track_id == track_id
            && c.links[k].release_id == release_id
}

/// Some track of this release sits at this position.
pub open spec fn position_used(c: CatalogView, release_id: i64, order: int) -> bool {
    exists|m: int|
        0 <= m < c.links.len() && #[trigger] c.links[m].release_id == release_id
            && c.links[m].track_order == order
}

/// The link at this position of this release (meaningful when `position_used`).
pub open spec fn position_index(c: CatalogView, release_id: i64, order: int) -> int {
    choose|m: int|
        0 <= m < c.links.len() && #[trigger] c.links[m].release_id == release_id
            && c.links[m].track_order == order
}

/// Assigning a track to a release: both must exist, the track must not sit
/// in any release yet, and it goes one past the release's last position.
pub open spec fn spec_assign(c: CatalogView, track_id: i64, release_id: i64, now: Seq<char>) -> Result<
    CatalogView,
    Seq<char>,
> {
    if !c.has_track(track_id) {
        Err("Track not found"@)
    } else if !c.has_release(release_id) {
        Err("Release not found"@)
    } else if c.is_assigned(track_id) {
        Err("Track is already assigned to a release"@)
    } else if max_order(c.links, release_id) == i64::MAX {
        Err(positions_exhausted_message())
    } else {
        Ok(
            CatalogView {
                links: c.links.push(
                    LinkView {
                        release_id,
                        track_id,
                        track_order: (max_order(c.links, release_id) + 1) as i64,
                        created_at: now,
                    },
                ),
                ..c
            },
        )
    }
}

/// A link after the link at position `removed` of `release_id` has left:
/// later positions of that release move up by one.
pub open spec fn close_gap(l: LinkView, release_id: i64, removed: i64) -> LinkView {
    if l.release_id == release_id && l.track_order > removed {
        LinkView { track_order: (l.track_order - 1) as i64, ..l }
    } else {
        l
    }
}

/// Removing a track from a release and closing the gap it leaves.
pub open spec fn spec_remove(c: CatalogView, track_id: i64, release_id: i64) -> Result<
    CatalogView,
    Seq<char>,
> {
    if !placed_in(c, track_id, release_id) {
        Err(not_assigned_message())
    } else {
        let k = placement_index(c, track_id, release_id);
        let removed = c.links[k].track_order;
        Ok(
            CatalogView {
                links: c.links.remove(k).map_values(|l: LinkView| close_gap(l, release_id, removed)),
                ..c
            },
        )
    }
}

/// Moving a track one position up (towards 1) or down: it trades places
/// with the track at the neighbouring position; nothing changes when there
/// is no such position or no track there.
pub open spec fn spec_move(c: CatalogView, track_id: i64, release_id: i64, up: bool) -> Result<
    CatalogView,
    Seq<char>,
> {
    if !placed_in(c, track_id, release_id) {
        Err(not_assigned_message())
    } else {
        let k = placement_index(c, track_id, release_id);
        let current = c.links[k].track_order;
        let target: int = if up {
            current - 1
        } else {
            current + 1
        };
        if target <= 0 || !position_used(c, release_id, target) {
            Ok(c)
        } else {
            let m = position_index(c, release_id, target);
            Ok(
                CatalogView {
                    links: c.links.update(k, LinkView { track_order: target as i64, ..c.links[k] }).update(
                        m,
                        LinkView { track_order: current, ..c.links[m] },
                    ),
                    ..c
                },
            )
        }
    }
}

impl Catalog {
    /// The position of the link that places `track_id` in `release_id`.
    pub fn find_placement(&self, track_id: i64, release_id: i64) -> (r: Option<usize>)
        ensures
            r matches Some(k) ==> k < self.links.len() && self@.links[k as int].track_id
                == track_id && self@.links[k as int].release_id == release_id,
            r is None ==> !placed_in(self@, track_id, release_id),
    {
        let n = self.links.len();
        let mut k: usize = 0;
        while k < n
            invariant
                n == self.links.len(),
                k <= n,
                forall|j: int|
                    0 <= j < k ==> !(self@.links[j].track_id == track_id && self@.links[j].release_id
                        == release_id),
            decreases n - k,
        {
            if self.links[k].track_id == track_id && self.links[k].release_id == release_id {
                return Some(k);
            }
            k = k + 1;
        }
        None
    }

    /// The position of the link at `order` in `release_id`.
    pub fn find_position(&self, release_id: i64, order: i64) -> (r: Option<usize>)
        ensures
            r matches Some(m) ==> m < self.links.len() && self@.links[m as int].release_id
                == release_id && self@.links[m as int].track_order == order,
            r is None ==> !position_used(self@, release_id, order as int),
    {
        let n = self.links.len();
        let mut k: usize = 0;
        while k < n
            invariant
                n == self.links.len(),
                k <= n,
                forall|j: int|
                    0 <= j < k ==> !(self@.links[j].release_id == release_id
                        && self@.links[j].track_order == order),
            decreases n - k,
        {
            if self.links[k].release_id == release_id && self.links[k].track_order == order {
                return Some(k);
            }
            k = k + 1;
        }
        None
    }

    /// The highest position used in a release (0 when it has none).
    pub fn max_order(&self, release_id: i64) -> (m: i64)
        ensures
            m == max_order(self@.links, release_id),
    {
        let n = self.links.len();
        let mut m: i64 = 0;
        let mut i: usize = 0;
        while i < n
            invariant
                n == self.links.len(),
                i <= n,
                m == max_order(self@.links.take(i as int), release_id),
            decreases n - i,
        {
            assert(self@.links.take(i + 1).drop_last() =~= self@.links.take(i as int));
            if self.links[i].release_id == release_id && self.links[i].track_order > m {
                m = self.links[i].track_order;
            }
            i = i + 1;
        }
        assert(self@.links.take(n as int) =~= self@.links);
        m
    }
}

/// Assigns a track to the end of a release, stamping the link with `now`.
pub fn assign_track_to_release_at(
    db: &mut Catalog,
    track_id: i64,
    release_id: i64,
    now: String,
) -> (r: Result<(), String>)
    requires
        old(db)@.wf(),
    ensures
        final(db)@.wf(),
        match r {
            Ok(()) => spec_assign(old(db)@, track_id, release_id, now@) == Ok::<
                CatalogView,
                Seq<char>,
            >(final(db)@),
            Err(e) => spec_assign(old(db)@, track_id, release_id, now@) == Err::<
                CatalogView,
                Seq<char>,
            >(e@) && final(db)@ == old(db)@,
        },
{
    let ti = db.find_track(track_id);
    if ti.is_none() {
        return Err(String::from_str("Track not found"));
    }
    if db.find_release(release_id).is_none() {
        return Err(String::from_str("Release not found"));
    }
    if db.find_link_of_track(track_id).is_some() {
        return Err(String::from_str("Track is already assigned to a release"));
    }
    let m = db.max_order(release_id);
    proof {
        lemma_max_order(db@.links, release_id);
    }
    if m == i64::MAX {
        return Err(String::from_str("Release has no free track position"));
    }
    let ghost old_links = db.links@;
    let link = ReleaseTrackLink { release_id, track_id, track_order: m + 1, created_at: now };
    db.links.push(link);
    proof {
        assert(db.links@.map_values(|l: ReleaseTrackLink| l@) =~= old_links.map_values(
            |l: ReleaseTrackLink| l@,
        ).push(link@));
        let c = db@;
        let o = old(db)@;
        assert(c.tracks == o.tracks);
        assert(c.releases == o.releases);
        assert forall|k: int| 0 <= k < c.links.len() implies c.has_track(
            #[trigger] c.links[k].track_id,
        ) && c.has_release(c.links[k].release_id) && 1 <= c.links[k].track_order by {
            if k < o.links.len() {
                assert(c.links[k] == o.links[k]);
                assert(o.has_track(o.links[k].track_id));
            } else {
                assert(c.links[k] == link@);
            }
        }
        assert forall|k: int, l: int| 0 <= k < l < c.links.len() implies c.links[k].track_id
            != c.links[l].track_id && (c.links[k].release_id == c.links[l].release_id
            ==> c.links[k].track_order != c.links[l].track_order) by {
            if l < o.links.len() {
                assert(c.links[k] == o.links[k]);
                assert(c.links[l] == o.links[l]);
            } else {
                assert(c.links[k] == o.links[k]);
                assert(c.links[l] == link@);
                assert(o.links[k].track_id != track_id);
            }
        }
    }
    Ok(())
}

/// Assigns a track to the end of a release (see `spec_assign`), stamped
/// with the current time.
pub fn assign_track_to_release(db: &mut Catalog, track_id: i64, release_id: i64) -> (r: Result<
    (),
    String,
>)
    requires
        old(db)@.wf(),
    ensures
        final(db)@.wf(),
        match r {
            Ok(()) => exists|now: Seq<char>|
                spec_assign(old(db)@, track_id, release_id, now) == Ok::<CatalogView, Seq<char>>(
                    final(db)@,
                ),
            Err(e) => forall|now: Seq<char>|
                spec_assign(old(db)@, track_id, release_id, now) == Err::<CatalogView, Seq<char>>(
                    e@,
                ) && final(db)@ == old(db)@,
        },
{
    let now = now_iso();
    let ghost stamp = now@;
    let r = assign_track_to_release_at(db, track_id, release_id, now);
    proof {
        if r is Ok {
            assert(spec_assign(old(db)@, track_id, release_id, stamp) == Ok::<
                CatalogView,
                Seq<char>,
            >(db@));
        }
    }
    r
}

/// Removes a track from a release; the tracks after it move up one position.
pub fn remove_track_from_release(db: &mut Catalog, track_id: i64, release_id: i64) -> (r: Result<
    (),
    String,
>)
    requires
        old(db)@.wf(),
    ensures
        final(db)@.wf(),
        match r {
            Ok(()) => spec_remove(old(db)@, track_id, release_id) == Ok::<CatalogView, Seq<char>>(
                final(db)@,
            ),
            Err(e) => spec_remove(old(db)@, track_id, release_id) == Err::<
                CatalogView,
                Seq<char>,
            >(e@) && final(db)@ == old(db)@,
        },
{
    let k = match db.find_placement(track_id, release_id) {
        Some(k) => k,
        None => {
            return Err(String::from_str("Track is not assigned to this release"));
        },
    };
    let ghost o = db@;
    proof {
        assert(placed_in(o, track_id, release_id));
        let kk = placement_index(o, track_id, release_id);
        if kk != k {
            if kk < k {
                assert(o.links[kk].track_id != o.links[k as int].track_id);
            } else {
                assert(o.links[k as int].track_id != o.links[kk].track_id);
            }
        }
    }
    let current = db.links[k].track_order;
    let _ = db.links.remove(k);
    let ghost base = o.links.remove(k as int);
    assert(db@.links =~= base);
    let n = db.links.len();
    let mut i: usize = 0;
    while i < n
        invariant
            n == db.links.len(),
            n == base.len(),
            i <= n,
            db@.tracks == o.tracks,
            db@.releases == o.releases,
            forall|j: int| 0 <= j < i ==> db@.links[j] == close_gap(base[j], release_id, current),
            forall|j: int| i <= j < n ==> db@.links[j] == base[j],
            1 <= current,
        decreases n - i,
    {
        let ghost prev = db@.links;
        if db.links[i].release_id == release_id && db.links[i].track_order > current {
            let l = &db.links[i];
            let nl = ReleaseTrackLink {
                release_id: l.release_id,
                track_id: l.track_id,
                track_order: l.track_order - 1,
                created_at: l.created_at.clone(),
            };
            db.links.set(i, nl);
        }
        assert(db@.links[i as int] == close_gap(base[i as int], release_id, current));
        assert forall|j: int| 0 <= j < n && j != i implies db@.links[j] == prev[j] by {
            assert(db@.links[j] == db.links@[j]@);
        }
        assert forall|j: int| 0 <= j < i + 1 implies db@.links[j] == close_gap(base[j], release_id, current) by {
            if j < i {
                assert(prev[j] == close_gap(base[j], release_id, current));
            }
        }
        i = i + 1;
    }
    proof {
        let c = db@;
        assert(c.links =~= base.map_values(|l: LinkView| close_gap(l, release_id, current)));
        assert forall|j: int| 0 <= j < base.len() implies #[trigger] base[j] == o.links[if j < k {
            j
        } else {
            j + 1
        }] by {}
        assert forall|j: int| 0 <= j < c.links.len() implies c.has_track(
            #[trigger] c.links[j].track_id,
        ) && c.has_release(c.links[j].release_id) && 1 <= c.links[j].track_order by {
            let oj = if j < k {
                j
            } else {
                j + 1
            };
            assert(base[j] == o.links[oj]);
            assert(o.has_track(o.links[oj].track_id));
            assert(o.has_release(o.links[oj].release_id));
            if o.links[oj].release_id == release_id && o.links[oj].track_order == current {
                if oj < k {
                    assert(false);
                } else {
                    assert(false);
                }
            }
        }
        assert forall|a: int, b: int| 0 <= a < b < c.links.len() implies c.links[a].track_id
            != c.links[b].track_id && (c.links[a].release_id == c.links[b].release_id
            ==> c.links[a].track_order != c.links[b].track_order) by {
            let oa = if a < k {
                a
            } else {
                a + 1
            };
            let ob = if b < k {
                b
            } else {
                b + 1
            };
            assert(base[a] == o.links[oa]);
            assert(base[b] == o.links[ob]);
            assert(oa < ob);
            if o.links[oa].release_id == release_id {
                if o.links[oa].track_order == current {
                    if oa < k {
                        assert(false);
                    } else {
                        assert(false);
                    }
                }
                if o.links[ob].release_id == release_id && o.links[ob].track_order == current {
                    if ob < k {
                        assert(false);
                    } else {
                        assert(false);
                    }
                }
            }
        }
    }
    Ok(())
}

/// Moves a track one position up (`up`) or down inside its release.
pub fn move_track_in_release(db: &mut Catalog, track_id: i64, release_id: i64, up: bool) -> (r:
    Result<(), String>)
    requires
        old(db)@.wf(),
    ensures
        final(db)@.wf(),
        match r {
            Ok(()) => spec_move(old(db)@, track_id, release_id, up) == Ok::<
                CatalogView,
                Seq<char>,
            >(final(db)@),
            Err(e) => spec_move(old(db)@, track_id, release_id, up) == Err::<
                CatalogView,
                Seq<char>,
            >(e@) && final(db)@ == old(db)@,
        },
{
    let k = match db.find_placement(track_id, release_id) {
        Some(k) => k,
        None => {
            return Err(String::from_str("Track is not assigned to this release"));
        },
    };
    let ghost o = db@;
    proof {
        assert(placed_in(o, track_id, release_id));
        let kk = placement_index(o, track_id, release_id);
        if kk != k {
            if kk < k {
                assert(o.links[kk].track_id != o.links[k as int].track_id);
            } else {
                assert(o.links[k as int].track_id != o.links[kk].track_id);
            }
        }
        assert(o.has_track(o.links[k as int].track_id));
    }
    let current = db.links[k].track_order;
    if !up && current == i64::MAX {
        return Ok(());
    }
    let target = if up {
        current - 1
    } else {
        current + 1
    };
    if target <= 0 {
        return Ok(());
    }
    let m = match db.find_position(release_id, target) {
        Some(m) => m,
        None => {
            return Ok(());
        },
    };
    proof {
        assert(position_used(o, release_id, target as int));
        let mm = position_index(o, release_id, target as int);
        if mm != m {
            if mm < m {
                assert(o.links[mm].track_order != o.links[m as int].track_order);
            } else {
                assert(o.links[m as int].track_order != o.links[mm].track_order);
            }
        }
        assert(m != k);
    }
    let lk = &db.links[k];
    let nk = ReleaseTrackLink {
        release_id: lk.release_id,
        track_id: lk.track_id,
        track_order: target,
        created_at: lk.created_at.clone(),
    };
    let lm = &db.links[m];
    let nm = ReleaseTrackLink {
        release_id: lm.release_id,
        track_id: lm.track_id,
        track_order: current,
        created_at: lm.created_at.clone(),
    };
    db.links.set(k, nk);
    db.links.set(m, nm);
    proof {
        let c = db@;
        let expect = o.links.update(k as int, LinkView { track_order: target, ..o.links[k as int] }).update(
            m as int,
            LinkView { track_order: current, ..o.links[m as int] },
        );
        assert(c.links =~= expect);
        assert forall|j: int| 0 <= j < c.links.len() implies c.has_track(
            #[trigger] c.links[j].track_id,
        ) && c.has_release(c.links[j].release_id) && 1 <= c.links[j].track_order by {
            assert(o.has_track(o.links[j].track_id));
            assert(o.has_release(o.links[j].release_id));
        }
        assert forall|a: int, b: int| 0 <= a < b < c.links.len() implies c.links[a].track_id
            != c.links[b].track_id && (c.links[a].release_id == c.links[b].release_id
            ==> c.links[a].track_order != c.links[b].track_order) by {
            assert(o.links[a].track_id != o.links[b].track_id);
            if a != k && a != m && b != k && b != m {
            } else if (a == k && b == m) || (a == m && b == k) {
            } else if a == k || a == m {
                if o.links[b].release_id == release_id {
                    assert(o.links[b].track_order != o.links[k as int].track_order) by {
                        if b < k {
                        } else {
                        }
                    }
                    assert(o.links[b].track_order != o.links[m as int].track_order) by {
                        if b < m {
                        } else {
                        }
                    }
                }
            } else {
                if o.links[a].release_id == release_id {
                    assert(o.links[a].track_order != o.links[k as int].track_order) by {
                        if a < k {
                        } else {
                        }
                    }
                    assert(o.links[a].track_order != o.links[m as int].track_order) by {
                        if a < m {
                        } else {
                        }
                    }
                }
            }
        }
    }
    Ok(())
}

/// Moves a track one position towards the start of its release.
pub fn move_track_up_in_release(db: &mut Catalog, track_id: i64, release_id: i64) -> (r: Result<
    (),
    String,
>)
    requires
        old(db)@.wf(),
    ensures
        final(db)@.wf(),
        match r {
            Ok(()) => spec_move(old(db)@, track_id, release_id, true) == Ok::<
                CatalogView,
                Seq<char>,
            >(final(db)@),
            Err(e) => spec_move(old(db)@, track_id, release_id, true) == Err::<
                CatalogView,
                Seq<char>,
            >(e@) && final(db)@ == old(db)@,
        },
{
    move_track_in_release(db, track_id, release_id, true)
}

/// Moves a track one position towards the end of its release.
pub fn move_track_down_in_release(db: &mut Catalog, track_id: i64, release_id: i64) -> (r: Result<
    (),
    String,
>)
    requires
        old(db)@.wf(),
    ensures
        final(db)@.wf(),
        match r {
            Ok(()) => spec_move(old(db)@, track_id, release_id, false) == Ok::<
                CatalogView,
                Seq<char>,
            >(final(db)@),
            Err(e) => spec_move(old(db)@, track_id, release_id, false) == Err::<
                CatalogView,
                Seq<char>,
            >(e@) && final(db)@ == old(db)@,
        },
{
    move_track_in_release(db, track_id, release_id, false)
}

/// Assigning a track to a release and then removing it from that release
/// gives back the catalog as it was.
pub proof fn lemma_assign_then_remove(c: CatalogView, track_id: i64, release_id: i64, now: Seq<char>)
    requires
        c.wf(),
        spec_assign(c, track_id, release_id, now) is Ok,
    ensures
        spec_assign(c, track_id, release_id, now) matches Ok(c2) && spec_remove(
            c2,
            track_id,
            release_id,
        ) == Ok::<CatalogView, Seq<char>>(c),
{
    let c2 = spec_assign(c, track_id, release_id, now)->Ok_0;
    let n = c.links.len() as int;
    let top = max_order(c.links, release_id);
    lemma_max_order(c.links, release_id);
    assert(c2.links[n].track_id == track_id && c2.links[n].release_id == release_id);
    assert(placed_in(c2, track_id, release_id));
    let k = placement_index(c2, track_id, release_id);
    if k != n {
        assert(c2.links[k] == c.links[k]);
        assert(c.is_assigned(track_id));
    }
    assert(c2.links.remove(n) =~= c.links);
    let removed = c2.links[n].track_order;
    assert(removed == top + 1);
    assert(c.links.map_values(|l: LinkView| close_gap(l, release_id, removed)) =~= c.links) by {
        assert forall|j: int| 0 <= j < c.links.len() implies close_gap(
            #[trigger] c.links[j],
            release_id,
            removed,
        ) == c.links[j] by {
            if c.links[j].release_id == release_id {
                assert(c.links[j].track_order <= top);
            }
        }
    }
}

/// Trading places is undone by trading back: when a track moves one
/// position (up or down) and a track sat at that position, moving it back
/// the other way gives back the catalog as it was.
pub proof fn lemma_move_then_move_back(c: CatalogView, track_id: i64, release_id: i64, up: bool)
    requires
        c.wf(),
        placed_in(c, track_id, release_id),
        ({
            let current = c.links[placement_index(c, track_id, release_id)].track_order;
            let target: int = if up {
                current - 1
            } else {
                current + 1
            };
            target > 0 && position_used(c, release_id, target)
        }),
    ensures
        spec_move(c, track_id, release_id, up) matches Ok(c2) && spec_move(
            c2,
            track_id,
            release_id,
            !up,
        ) == Ok::<CatalogView, Seq<char>>(c),
{
    let k = placement_index(c, track_id, release_id);
    let current = c.links[k].track_order;
    let target: int = if up {
        current - 1
    } else {
        current + 1
    };
    let m = position_index(c, release_id, target);
    assert(m != k);
    let c2 = spec_move(c, track_id, release_id, up)->Ok_0;
    assert(c2.tracks == c.tracks && c2.releases == c.releases);
    assert(c2.links[k].track_order == target);
    assert(c2.links[m].track_order == current);
    assert(c2.links[k].track_id == track_id && c2.links[k].release_id == release_id);
    // c2 keeps the uniqueness that the lookups rely on
    assert(placed_in(c2, track_id, release_id));
    let k2 = placement_index(c2, track_id, release_id);
    if k2 != k {
        if k2 == m {
            assert(c.links[m].track_id != c.links[k].track_id) by {
                if m < k {
                } else {
                }
            }
        } else {
            assert(c2.links[k2] == c.links[k2]);
            assert(c.links[k2].track_id != c.links[k].track_id) by {
                if k2 < k {
                } else {
                }
            }
        }
    }
    let back: int = if !up {
        target - 1
    } else {
        target + 1
    };
    assert(back == current);
    assert(c2.links[m].release_id == release_id);
    assert(position_used(c2, release_id, current as int));
    let m2 = position_index(c2, release_id, current as int);
    if m2 != m {
        if m2 == k {
            assert(c2.links[k].track_order == target);
        } else {
            assert(c2.links[m2] == c.links[m2]);
            assert(c.links[m2].track_order != c.links[k].track_order) by {
                if m2 < k {
                } else {
                }
            }
        }
    }
    assert(target > 0);
    assert(spec_move(c2, track_id, release_id, !up) == Ok::<CatalogView, Seq<char>>(
        CatalogView {
            links: c2.links.update(k, LinkView { track_order: current, ..c2.links[k] }).update(
                m,
                LinkView { track_order: target as i64, ..c2.links[m] },
            ),
            ..c2
        },
    ));
    assert(c2.links.update(k, LinkView { track_order: current, ..c2.links[k] }).update(
        m,
        LinkView { track_order: target as i64, ..c2.links[m] },
    ) =~= c.links);
}

/// The tracks of release `release_id` occupy exactly the positions 1 to n,
/// n being their number.
pub open spec fn positions_contiguous(c: CatalogView, release_id: i64) -> bool {
    forall|k: int|
        0 <= k < c.links.len() && #[trigger] c.links[k].release_id == release_id ==> 1
            <= c.links[k].track_order <= link_count(c.links, release_id)
}

proof fn lemma_link_count_same_releases(a: Seq<LinkView>, b: Seq<LinkView>, release_id: i64)
    requires
        a.len() == b.len(),
        forall|i: int| 0 <= i < a.len() ==> #[trigger] a[i].release_id == b[i].release_id,
    ensures
        link_count(a, release_id) == link_count(b, release_id),
    decreases a.len(),
{
    if a.len() > 0 {
        assert forall|i: int| 0 <= i < a.drop_last().len() implies #[trigger] a.drop_last()[i].release_id == b.drop_last()[i].release_id by {
            assert(a.drop_last()[i] == a[i]);
            assert(b.drop_last()[i] == b[i]);
        }
        lemma_link_count_same_releases(a.drop_last(), b.drop_last(), release_id);
        assert(a.last().release_id == a[a.len() - 1].release_id);
    }
}

proof fn lemma_link_count_remove(links: Seq<LinkView>, k: int, release_id: i64)
    requires
        0 <= k < links.len(),
    ensures
        link_count(links.remove(k), release_id) + (if links[k].release_id == release_id {
            1int
        } else {
            0int
        }) == link_count(links, release_id),
    decreases links.len(),
{
    if k == links.len() - 1 {
        assert(links.remove(k) =~= links.drop_last());
    } else {
        lemma_link_count_remove(links.drop_last(), k, release_id);
        assert(links.remove(k).drop_last() =~= links.drop_last().remove(k));
        assert(links.remove(k).last() == links.last());
    }
}

/// Assigning keeps the positions of every release contiguous.
pub proof fn lemma_assign_keeps_positions_contiguous(
    c: CatalogView,
    track_id: i64,
    release_id: i64,
    now: Seq<char>,
    r: i64,
)
    requires
        c.wf(),
        spec_assign(c, track_id, release_id, now) is Ok,
        positions_contiguous(c, r),
    ensures
        spec_assign(c, track_id, release_id, now) matches Ok(c2) && positions_contiguous(c2, r),
{
    let c2 = spec_assign(c, track_id, release_id, now)->Ok_0;
    let n = c.links.len() as int;
    let top = max_order(c.links, release_id);
    lemma_max_order(c.links, release_id);
    assert(c2.links.drop_last() =~= c.links);
    let cnt = link_count(c.links, r);
    assert(link_count(c2.links, r) == cnt + if release_id == r { 1nat } else { 0nat });
    if top > 0 {
        lemma_top_is_used(c.links, release_id);
    }
    assert forall|k: int| 0 <= k < c2.links.len() && #[trigger] c2.links[k].release_id == r implies 1
        <= c2.links[k].track_order <= link_count(c2.links, r) by {
        if k < n {
            assert(c2.links[k] == c.links[k]);
        } else if top > 0 {
            let w = choose|x: int| 0 <= x < c.links.len() && c.links[x].release_id == release_id
                && c.links[x].track_order == top;
            assert(c.links[w].release_id == r);
        }
    }
}

proof fn lemma_top_is_used(links: Seq<LinkView>, release_id: i64)
    requires
        max_order(links, release_id) > 0,
    ensures
        exists|x: int| 0 <= x < links.len() && links[x].release_id == release_id
            && links[x].track_order == max_order(links, release_id),
    decreases links.len(),
{
    if links.len() > 0 {
        let m = max_order(links.drop_last(), release_id);
        if links.last().release_id == release_id && links.last().track_order > m {
            assert(links[links.len() - 1].track_order == max_order(links, release_id));
        } else {
            lemma_top_is_used(links.drop_last(), release_id);
            let x = choose|x: int| 0 <= x < links.drop_last().len() && links.drop_last()[x].release_id == release_id
                && links.drop_last()[x].track_order == m;
            assert(links[x] == links.drop_last()[x]);
        }
    }
}

/// Removing keeps the positions of every release contiguous.
pub proof fn lemma_remove_keeps_positions_contiguous(
    c: CatalogView,
    track_id: i64,
    release_id: i64,
    r: i64,
)
    requires
        c.wf(),
        spec_remove(c, track_id, release_id) is Ok,
        positions_contiguous(c, r),
    ensures
        spec_remove(c, track_id, release_id) matches Ok(c2) && positions_contiguous(c2, r),
{
    let c2 = spec_remove(c, track_id, release_id)->Ok_0;
    let k = placement_index(c, track_id, release_id);
    let removed = c.links[k].track_order;
    let base = c.links.remove(k);
    lemma_link_count_remove(c.links, k, r);
    lemma_link_count_same_releases(c2.links, base, r);
    assert forall|j: int| 0 <= j < c2.links.len() && #[trigger] c2.links[j].release_id == r implies 1
        <= c2.links[j].track_order <= link_count(c2.links, r) by {
        let oj = if j < k { j } else { j + 1 };
        assert(base[j] == c.links[oj]);
        assert(c.links[oj].release_id == r);
        assert(oj != k);
        if r == release_id {
            assert(c.links[oj].track_order != removed) by {
                if oj < k {
                } else {
                }
            }
        }
    }
}

/// Moving keeps the positions of every release contiguous.
pub proof fn lemma_move_keeps_positions_contiguous(
    c: CatalogView,
    track_id: i64,
    release_id: i64,
    up: bool,
    r: i64,
)
    requires
        c.wf(),
        spec_move(c, track_id, release_id, up) is Ok,
        positions_contiguous(c, r),
    ensures
        spec_move(c, track_id, release_id, up) matches Ok(c2) && positions_contiguous(c2, r),
{
    let c2 = spec_move(c, track_id, release_id, up)->Ok_0;
    lemma_link_count_same_releases(c2.links, c.links, r);
    if c2 != c {
        let k = placement_index(c, track_id, release_id);
        let current = c.links[k].track_order;
        let target: int = if up { current - 1 } else { current + 1 };
        let m = position_index(c, release_id, target);
        assert forall|j: int| 0 <= j < c2.links.len() && #[trigger] c2.links[j].release_id == r implies 1
            <= c2.links[j].track_order <= link_count(c2.links, r) by {
            if j == k {
                assert(c.links[m].release_id == r);
            } else if j == m {
                assert(c.links[k].release_id == r);
            } else {
                assert(c2.links[j] == c.links[j]);
            }
        }
    }
}


/// Removing a track from a release closes the gap it leaves and keeps the
/// order of the other tracks: afterwards the removed track sits nowhere,
/// the tracks and releases are unchanged, and any other track `x` is placed
/// exactly when it was before, in the same release; when it sat in that
/// release at a position q past the removed track's position p it now sits
/// at q - 1, and otherwise it keeps its position.
pub proof fn lemma_remove_closes_gap(c: CatalogView, track_id: i64, release_id: i64, x: i64)
    requires
        c.wf(),
        placed_in(c, track_id, release_id),
        x != track_id,
    ensures
        c.link_of_track(track_id) matches Some(lt) && lt.release_id == release_id,
        spec_remove(c, track_id, release_id) is Ok,
        ({
            let c2 = spec_remove(c, track_id, release_id)->Ok_0;
            let p = c.link_of_track(track_id)->Some_0.track_order;
            &&& c2.tracks == c.tracks
            &&& c2.releases == c.releases
            &&& !c2.is_assigned(track_id)
            &&& c2.is_assigned(x) == c.is_assigned(x)
            &&& c.is_assigned(x) ==> {
                let l = c.link_of_track(x)->Some_0;
                let l2 = c2.link_of_track(x)->Some_0;
                &&& l2.release_id == l.release_id
                &&& l2.created_at == l.created_at
                &&& (l.release_id == release_id && l.track_order > p) ==> l2.track_order
                    == l.track_order - 1
                &&& !(l.release_id == release_id && l.track_order > p) ==> l2.track_order
                    == l.track_order
            }
        }),
{
    let k = placement_index(c, track_id, release_id);
    assert(0 <= k < c.links.len() && c.links[k].track_id == track_id && c.links[k].release_id
        == release_id);
    let removed = c.links[k].track_order;
    assert(c.is_assigned(track_id));
    let jt = choose|j: int| 0 <= j < c.links.len() && #[trigger] c.links[j].track_id == track_id;
    if jt != k {
        if jt < k {
            assert(c.links[jt].track_id != c.links[k].track_id);
        } else {
            assert(c.links[k].track_id != c.links[jt].track_id);
        }
    }
    assert(c.link_of_track(track_id) == Some(c.links[k]));
    let c2 = spec_remove(c, track_id, release_id)->Ok_0;
    let base = c.links.remove(k);
    assert(c2.links.len() == base.len());
    assert forall|a: int| 0 <= a < c2.links.len() implies #[trigger] c2.links[a] == close_gap(
        c.links[if a < k { a } else { a + 1 }],
        release_id,
        removed,
    ) by {
        assert(c2.links[a] == close_gap(base[a], release_id, removed));
    }
    assert forall|a: int| 0 <= a < c2.links.len() implies #[trigger] c2.links[a].track_id
        != track_id by {
        let oa = if a < k { a } else { a + 1 };
        assert(c2.links[a] == close_gap(c.links[oa], release_id, removed));
        if oa < k {
            assert(c.links[oa].track_id != c.links[k].track_id);
        } else {
            assert(c.links[k].track_id != c.links[oa].track_id);
        }
    }
    if c.is_assigned(x) {
        let jx = choose|j: int| 0 <= j < c.links.len() && #[trigger] c.links[j].track_id == x;
        assert(jx != k);
        let a = if jx < k { jx } else { jx - 1 };
        assert(c2.links[a] == close_gap(c.links[jx], release_id, removed));
        assert(c2.links[a].track_id == x);
        assert(c2.is_assigned(x));
        let ja = choose|j: int| 0 <= j < c2.links.len() && #[trigger] c2.links[j].track_id == x;
        let oja = if ja < k { ja } else { ja + 1 };
        assert(c2.links[ja] == close_gap(c.links[oja], release_id, removed));
        if oja != jx {
            if oja < jx {
                assert(c.links[oja].track_id != c.links[jx].track_id);
            } else {
                assert(c.links[jx].track_id != c.links[oja].track_id);
            }
        }
        assert(ja == a);
        assert(c2.link_of_track(x) == Some(c2.links[a]));
    }
    if c2.is_assigned(x) {
        let ja = choose|j: int| 0 <= j < c2.links.len() && #[trigger] c2.links[j].track_id == x;
        let oja = if ja < k { ja } else { ja + 1 };
        assert(c2.links[ja] == close_gap(c.links[oja], release_id, removed));
        assert(c.links[oja].track_id == x);
        assert(c.is_assigned(x));
    }
}


/// Assigning a track to a release places it after every track of that
/// release, stamped `now`, and leaves the tracks, the releases and every other
/// track's placement as they were.
pub proof fn lemma_assign_places_last(c: CatalogView, track_id: i64, release_id: i64, now: Seq<char>, y: i64)
    requires
        c.wf(),
        spec_assign(c, track_id, release_id, now) is Ok,
    ensures
        spec_assign(c, track_id, release_id, now) matches Ok(c2) && c2.tracks == c.tracks
            && c2.releases == c.releases && (y != track_id ==> c2.link_of_track(y)
            == c.link_of_track(y)),
        spec_assign(c, track_id, release_id, now)->Ok_0.link_of_track(track_id) matches Some(l)
            && l.release_id == release_id && l.created_at == now && (forall|k: int|
            0 <= k < c.links.len() && #[trigger] c.links[k].release_id == release_id
                ==> c.links[k].track_order < l.track_order),
{
    let c2 = spec_assign(c, track_id, release_id, now)->Ok_0;
    let n = c.links.len() as int;
    lemma_max_order(c.links, release_id);
    assert(c2.links[n].track_id == track_id);
    assert(c2.is_assigned(track_id));
    let j = choose|j: int| 0 <= j < c2.links.len() && #[trigger] c2.links[j].track_id == track_id;
    if j < n {
        assert(c2.links[j] == c.links[j]);
        assert(c.is_assigned(track_id));
    }
    assert(c2.link_of_track(track_id) == Some(c2.links[n]));
    if y != track_id {
        if c.is_assigned(y) {
            let i = choose|i: int| 0 <= i < c.links.len() && #[trigger] c.links[i].track_id == y;
            assert(c2.links[i] == c.links[i]);
        }
        if c2.is_assigned(y) {
            let i2 = choose|i: int| 0 <= i < c2.links.len() && #[trigger] c2.links[i].track_id == y;
            assert(i2 < n);
            assert(c2.links[i2] == c.links[i2]);
            let i = choose|i: int| 0 <= i < c.links.len() && #[trigger] c.links[i].track_id == y;
            if i != i2 {
                if i < i2 {
                    assert(c.links[i].track_id != c.links[i2].track_id);
                } else {
                    assert(c.links[i2].track_id != c.links[i].track_id);
                }
            }
        }
    }
}

} // verus!
