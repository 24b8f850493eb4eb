//! Creating, reading, editing and deleting releases.

use vstd::prelude::*;
use crate::clock::now_iso;
use crate::db::store::{
    lemma_max_release_id, max_release_id, Catalog, CatalogView, LinkView, ReleaseRecord,
    ReleaseRecordView, ReleaseTrackLink,
};
use crate::db::tracks::ids_exhausted_message;
use crate::db::validate::{release_input_error, validate_release_input};
use crate::models::{copy_opt_text, opt_text, Release, ReleaseInput, ReleaseInputView, ReleaseView};
use crate::text::{trim, trim_opt, trim_seq, trim_to_opt};

verus! {

/// The message of a second release with the same internal code.
pub open spec fn release_code_unique_message() -> Seq<char> {
    "Release Internal Code must be unique"@
}

/// The number of tracks placed in a release.
pub open spec fn link_count(links: Seq<LinkView>, release_id: i64) -> nat
    decreases links.len(),
{
    if links.len() == 0 {
        0
    } else {
        link_count(links.drop_last(), release_id) + if links.last().release_id == release_id {
            1nat
        } else {
            0nat
        }
    }
}

pub proof fn lemma_link_count_bound(links: Seq<LinkView>, release_id: i64)
    ensures
        link_count(links, release_id) <= links.len(),
    decreases links.len(),
{
    if links.len() > 0 {
        lemma_link_count_bound(links.drop_last(), release_id);
    }
}

/// A release row as listed: its record with the number of its tracks.
pub open spec fn release_row(c: CatalogView, r: ReleaseRecordView) -> ReleaseView {
    ReleaseView {
        id: r.id,
        internal_code: r.internal_code,
        title: r.title,
        release_type: r.release_type,
        status: r.status,
        description: r.description,
        image_path: r.image_path,
        track_count: Some(link_count(c.links, r.id) as i64),
        created_at: r.created_at,
        updated_at: r.updated_at,
    }
}

/// The catalog's tables are small enough for their counts to be `i64`.
pub open spec fn counts_fit(c: CatalogView) -> bool {
    c.tracks.len() <= i64::MAX && c.releases.len() <= i64::MAX && c.links.len() <= i64::MAX
}

/// The view of an optional release.
pub open spec fn opt_release(o: Option<Release>) -> Option<ReleaseView> {
    match o {
        Some(r) => Some(r@),
        None => None,
    }
}

/// The position of the release with this id (meaningful when it exists).
pub open spec fn release_index(c: CatalogView, id: i64) -> int {
    choose|k: int| 0 <= k < c.releases.len() && #[trigger] c.releases[k].id == id
}

/// The listed form of the release with this id.
pub open spec fn spec_release_by_id(c: CatalogView, id: i64) -> Option<ReleaseView> {
    match c.release_by_id(id) {
        Some(r) => Some(release_row(c, r)),
        None => None,
    }
}

/// The release stored for an input: texts trimmed (type and status as
/// given), blank optional texts dropped.
pub open spec fn release_from_input(
    i: ReleaseInputView,
    id: i64,
    created_at: Seq<char>,
    updated_at: Seq<char>,
) -> ReleaseRecordView {
    ReleaseRecordView {
        id,
        internal_code: trim_seq(i.internal_code),
        title: trim_seq(i.title),
        release_type: i.release_type,
        status: i.status,
        description: trim_opt(i.description),
        image_path: trim_opt(i.image_path),
        created_at,
        updated_at,
    }
}

/// Creating a release: the input must pass validation, its trimmed
/// internal code must be new, and it gets the next id.
pub open spec fn spec_create_release(c: CatalogView, i: ReleaseInputView, now: Seq<char>) -> Result<
    (CatalogView, ReleaseView),
    Seq<char>,
> {
    if release_input_error(i) is Some {
        Err(release_input_error(i)->Some_0)
    } else if c.release_code_taken(trim_seq(i.internal_code), None) {
        Err(release_code_unique_message())
    } else if max_release_id(c.releases) == i64::MAX {
        Err(ids_exhausted_message())
    } else {
        let r = release_from_input(i, (max_release_id(c.releases) + 1) as i64, now, now);
        let c2 = CatalogView { releases: c.releases.push(r), ..c };
        Ok((c2, release_row(c2, r)))
    }
}

/// Editing a release: the input must pass validation, the release must
/// exist, and no other release may hold the new internal code. The
/// creation time is kept.
pub open spec fn spec_update_release(
    c: CatalogView,
    id: i64,
    i: ReleaseInputView,
    now: Seq<char>,
) -> Result<(CatalogView, ReleaseView), Seq<char>> {
    if release_input_error(i) is Some {
        Err(release_input_error(i)->Some_0)
    } else if !c.has_release(id) {
        Err("Release not found"@)
    } else if c.release_code_taken(trim_seq(i.internal_code), Some(id)) {
        Err(release_code_unique_message())
    } else {
        let k = release_index(c, id);
        let r = release_from_input(i, id, c.releases[k].created_at, now);
        let c2 = CatalogView { releases: c.releases.update(k, r), ..c };
        Ok((c2, release_row(c2, r)))
    }
}

/// Deleting a release: it leaves the catalog with all the places of its
/// tracks (the tracks stay, unassigned). The second part is the image file
/// it referred to, which is to be discarded.
pub open spec fn spec_delete_release(c: CatalogView, id: i64) -> (CatalogView, Option<Seq<char>>) {
    if !c.has_release(id) {
        (c, None)
    } else {
        let k = release_index(c, id);
        (
            CatalogView {
                releases: c.releases.remove(k),
                links: c.links.filter(|l: LinkView| l.release_id != id),
                ..c
            },
            c.releases[k].image_path,
        )
    }
}

proof fn lemma_release_index(c: CatalogView, id: i64, k: int)
    requires
        c.wf(),
        0 <= k < c.releases.len(),
        c.releases[k].id == id,
    ensures
        c.has_release(id),
        release_index(c, id) == k,
        c.release_by_id(id) == Some(c.releases[k]),
{
    assert(c.has_release(id));
    let kk = release_index(c, id);
    if kk != k {
        if kk < k {
            assert(c.releases[kk].id != c.releases[k].id);
        } else {
            assert(c.releases[k].id != c.releases[kk].id);
        }
    }
}

impl Catalog {
    /// The number of tracks placed in a release.
    pub fn count_links(&self, release_id: i64) -> (n: i64)
        requires
            self@.links.len() <= i64::MAX,
        ensures
            n == link_count(self@.links, release_id),
    {
        let len = self.links.len();
        let mut n: i64 = 0;
        let mut i: usize = 0;
        while i < len
            invariant
                len == self.links.len(),
                len <= i64::MAX,
                i <= len,
                n == link_count(self@.links.take(i as int), release_id),
                n <= i,
            decreases len - i,
        {
            assert(self@.links.take(i + 1).drop_last() =~= self@.links.take(i as int));
            if self.links[i].release_id == release_id {
                n = n + 1;
            }
            i = i + 1;
        }
        assert(self@.links.take(len as int) =~= self@.links);
        n
    }

    /// The listed form of the release at position `k`.
    pub fn release_row_at(&self, k: usize) -> (r: Release)
        requires
            k < self.releases.len(),
            self@.links.len() <= i64::MAX,
        ensures
            r@ == release_row(self@, self@.releases[k as int]),
    {
        let rec = &self.releases[k];
        Release {
            id: rec.id,
            internal_code: rec.internal_code.clone(),
            title: rec.title.clone(),
            release_type: rec.release_type.clone(),
            status: rec.status.clone(),
            description: copy_opt_text(&rec.description),
            image_path: copy_opt_text(&rec.image_path),
            track_count: Some(self.count_links(rec.id)),
            created_at: rec.created_at.clone(),
            updated_at: rec.updated_at.clone(),
        }
    }
}

/// The release with this id, with its number of tracks.
pub fn get_release_by_id(db: &Catalog, id: i64) -> (r: Option<Release>)
    requires
        db@.wf(),
        counts_fit(db@),
    ensures
        opt_release(r) == spec_release_by_id(db@, id),
{
    match db.find_release(id) {
        Some(k) => {
            proof {
                lemma_release_index(db@, id, k as int);
            }
            Some(db.release_row_at(k))
        },
        None => None,
    }
}

/// Builds the stored form of an input.
fn build_release(input: &ReleaseInput, id: i64, created_at: String, updated_at: String) -> (r:
    ReleaseRecord)
    ensures
        r@ == release_from_input(input@, id, created_at@, updated_at@),
{
    ReleaseRecord {
        id,
        internal_code: trim(input.internal_code.as_str()),
        title: trim(input.title.as_str()),
        release_type: input.release_type.clone(),
        status: input.status.clone(),
        description: trim_to_opt(&input.description),
        image_path: trim_to_opt(&input.image_path),
        created_at,
        updated_at,
    }
}

/// Creates a release stamped `now` (see `spec_create_release`).
pub fn create_release_at(db: &mut Catalog, input: ReleaseInput, now: String) -> (r: Result<
    Release,
    String,
>)
    requires
        old(db)@.wf(),
        counts_fit(old(db)@),
    ensures
        final(db)@.wf(),
        match r {
            Ok(x) => spec_create_release(old(db)@, input@, now@) == Ok::<
                (CatalogView, ReleaseView),
                Seq<char>,
            >((final(db)@, x@)),
            Err(e) => spec_create_release(old(db)@, input@, now@) == Err::<
                (CatalogView, ReleaseView),
                Seq<char>,
            >(e@) && final(db)@ == old(db)@,
        },
{
    validate_release_input(&input)?;
    let code = trim(input.internal_code.as_str());
    if db.release_code_in_use(code.as_str(), None) {
        return Err(String::from_str("Release Internal Code must be unique"));
    }
    let m = db.max_release_id();
    if m == i64::MAX {
        return Err(String::from_str("database or disk is full"));
    }
    let rec = build_release(&input, m + 1, now.clone(), now);
    let ghost o = db@;
    let ghost old_releases = db.releases@;
    let ghost rv = rec@;
    db.releases.push(rec);
    proof {
        lemma_max_release_id(o.releases);
        assert(db.releases@.map_values(|x: ReleaseRecord| x@) =~= old_releases.map_values(
            |x: ReleaseRecord| x@,
        ).push(rv));
        let c = db@;
        assert(c.releases == o.releases.push(rv));
        assert forall|i: int, j: int| 0 <= i < j < c.releases.len() implies c.releases[i].id
            != c.releases[j].id && c.releases[i].internal_code != c.releases[j].internal_code by {
            if j == o.releases.len() {
                assert(c.releases[i] == o.releases[i]);
                assert(o.releases[i].id <= m);
                if o.releases[i].internal_code == rv.internal_code {
                    assert(o.release_code_taken(code@, None));
                }
            }
        }
        assert forall|k: int| 0 <= k < c.links.len() implies c.has_track(
            #[trigger] c.links[k].track_id,
        ) && c.has_release(c.links[k].release_id) && 1 <= c.links[k].track_order by {
            assert(c.links[k] == o.links[k]);
            assert(o.has_track(o.links[k].track_id));
            assert(o.has_release(o.links[k].release_id));
            let w = choose|i: int|
                0 <= i < o.releases.len() && #[trigger] o.releases[i].id == o.links[k].release_id;
            assert(c.releases[w] == o.releases[w]);
        }
    }
    let k = db.releases.len() - 1;
    let out = db.release_row_at(k);
    Ok(out)
}

/// Creates a release (see `spec_create_release`) stamped with the current
/// time.
pub fn create_release(db: &mut Catalog, input: ReleaseInput) -> (r: Result<Release, String>)
    requires
        old(db)@.wf(),
        counts_fit(old(db)@),
    ensures
        final(db)@.wf(),
        match r {
            Ok(x) => spec_create_release(old(db)@, input@, x@.created_at) == Ok::<
                (CatalogView, ReleaseView),
                Seq<char>,
            >((final(db)@, x@)),
            Err(e) => forall|now: Seq<char>|
                spec_create_release(old(db)@, input@, now) == Err::<
                    (CatalogView, ReleaseView),
                    Seq<char>,
                >(e@) && final(db)@ == old(db)@,
        },
{
    let now = now_iso();
    create_release_at(db, input, now)
}

/// Edits a release, stamping it `now` (see `spec_update_release`).
pub fn update_release_at(db: &mut Catalog, id: i64, input: ReleaseInput, now: String) -> (r:
    Result<Release, String>)
    requires
        old(db)@.wf(),
        counts_fit(old(db)@),
    ensures
        final(db)@.wf(),
        match r {
            Ok(x) => spec_update_release(old(db)@, id, input@, now@) == Ok::<
                (CatalogView, ReleaseView),
                Seq<char>,
            >((final(db)@, x@)),
            Err(e) => spec_update_release(old(db)@, id, input@, now@) == Err::<
                (CatalogView, ReleaseView),
                Seq<char>,
            >(e@) && final(db)@ == old(db)@,
        },
{
    validate_release_input(&input)?;
    let k = match db.find_release(id) {
        Some(k) => k,
        None => {
            return Err(String::from_str("Release not found"));
        },
    };
    let code = trim(input.internal_code.as_str());
    if db.release_code_in_use(code.as_str(), Some(id)) {
        return Err(String::from_str("Release Internal Code must be unique"));
    }
    let ghost o = db@;
    proof {
        lemma_release_index(o, id, k as int);
    }
    let rec = build_release(&input, id, db.releases[k].created_at.clone(), now);
    let ghost old_releases = db.releases@;
    let ghost rv = rec@;
    db.releases.set(k, rec);
    proof {
        assert(db.releases@.map_values(|x: ReleaseRecord| x@) =~= old_releases.map_values(
            |x: ReleaseRecord| x@,
        ).update(k as int, rv));
        let c = db@;
        assert(c.releases == o.releases.update(k as int, rv));
        assert forall|i: int, j: int| 0 <= i < j < c.releases.len() implies c.releases[i].id
            != c.releases[j].id && c.releases[i].internal_code != c.releases[j].internal_code by {
            if i == k {
                assert(c.releases[j] == o.releases[j]);
                if o.releases[j].internal_code == rv.internal_code {
                    assert(o.release_code_taken(code@, Some(id)));
                }
            } else if j == k {
                assert(c.releases[i] == o.releases[i]);
                if o.releases[i].internal_code == rv.internal_code {
                    assert(o.release_code_taken(code@, Some(id)));
                }
            }
        }
        assert forall|l: int| 0 <= l < c.links.len() implies c.has_track(
            #[trigger] c.links[l].track_id,
        ) && c.has_release(c.links[l].release_id) && 1 <= c.links[l].track_order by {
            assert(c.links[l] == o.links[l]);
            assert(o.has_track(o.links[l].track_id));
            assert(o.has_release(o.links[l].release_id));
            let w = choose|i: int|
                0 <= i < o.releases.len() && #[trigger] o.releases[i].id == o.links[l].release_id;
            assert(c.releases[w].id == o.releases[w].id);
        }
    }
    let out = db.release_row_at(k);
    Ok(out)
}

/// Edits a release (see `spec_update_release`), stamped with the current
/// time.
pub fn update_release(db: &mut Catalog, id: i64, input: ReleaseInput) -> (r: Result<
    Release,
    String,
>)
    requires
        old(db)@.wf(),
        counts_fit(old(db)@),
    ensures
        final(db)@.wf(),
        match r {
            Ok(x) => spec_update_release(old(db)@, id, input@, x@.updated_at) == Ok::<
                (CatalogView, ReleaseView),
                Seq<char>,
            >((final(db)@, x@)),
            Err(e) => forall|now: Seq<char>|
                spec_update_release(old(db)@, id, input@, now) == Err::<
                    (CatalogView, ReleaseView),
                    Seq<char>,
                >(e@) && final(db)@ == old(db)@,
        },
{
    let now = now_iso();
    update_release_at(db, id, input, now)
}

/// Deletes a release and the places of its tracks (see
/// `spec_delete_release`); returns the image file it referred to, which
/// the caller discards.
pub fn delete_release(db: &mut Catalog, id: i64) -> (image: Option<String>)
    requires
        old(db)@.wf(),
    ensures
        final(db)@.wf(),
        (final(db)@, opt_text(image)) == spec_delete_release(old(db)@, id),
{
    let k = match db.find_release(id) {
        Some(k) => k,
        None => {
            return None;
        },
    };
    let ghost o = db@;
    proof {
        lemma_release_index(o, id, k as int);
    }
    let image = copy_opt_text(&db.releases[k].image_path);
    let ghost old_releases = db.releases@;
    let _ = db.releases.remove(k);
    proof {
        assert(db.releases@.map_values(|x: ReleaseRecord| x@) =~= old_releases.map_values(
            |x: ReleaseRecord| x@,
        ).remove(k as int));
    }
    let ghost keep = |l: LinkView| l.release_id != id;
    let mut kept: Vec<ReleaseTrackLink> = Vec::new();
    let ghost mut from: Seq<int> = Seq::empty();
    let n = db.links.len();
    let mut i: usize = 0;
    while i < n
        invariant
            n == db.links.len(),
            i <= n,
            db@.links == o.links,
            kept@.map_values(|x: ReleaseTrackLink| x@) == o.links.take(i as int).filter(keep),
            from.len() == kept@.len(),
            forall|a: int| 0 <= a < from.len() ==> 0 <= #[trigger] from[a] < i,
            forall|a: int| 0 <= a < from.len() ==> kept@[a]@ == o.links[#[trigger] from[a]],
            forall|a: int, b: int| 0 <= a < b < from.len() ==> from[a] < from[b],
            keep == (|l: LinkView| l.release_id != id),
        decreases n - i,
    {
        proof {
            reveal_with_fuel(Seq::<_>::filter, 1);
            assert(o.links.take(i + 1).drop_last() =~= o.links.take(i as int));
        }
        if db.links[i].release_id != id {
            let ghost before = kept@;
            kept.push(db.links[i].dup());
            proof {
                from = from.push(i as int);
                assert(kept@.map_values(|x: ReleaseTrackLink| x@) =~= before.map_values(
                    |x: ReleaseTrackLink| x@,
                ).push(o.links[i as int]));
            }
        }
        i = i + 1;
    }
    proof {
        assert(o.links.take(n as int) =~= o.links);
    }
    db.links = kept;
    proof {
        let c = db@;
        assert(c == spec_delete_release(o, id).0);
        assert forall|i: int, j: int| 0 <= i < j < c.releases.len() implies c.releases[i].id
            != c.releases[j].id && c.releases[i].internal_code != c.releases[j].internal_code by {
            let oi = if i < k { i } else { i + 1 };
            let oj = if j < k { j } else { j + 1 };
            assert(c.releases[i] == o.releases[oi]);
            assert(c.releases[j] == o.releases[oj]);
        }
        assert forall|l: int| 0 <= l < c.links.len() implies c.has_track(
            #[trigger] c.links[l].track_id,
        ) && c.has_release(c.links[l].release_id) && 1 <= c.links[l].track_order by {
            let ol = from[l];
            assert(c.links[l] == o.links[ol]);
            assert(o.has_track(o.links[ol].track_id));
            assert(o.has_release(o.links[ol].release_id));
            o.links.lemma_filter_pred(keep, l);
            assert(o.links[ol].release_id != id);
            let w = choose|i: int|
                0 <= i < o.releases.len() && #[trigger] o.releases[i].id == o.links[ol].release_id;
            assert(w != k);
            let cw = if w < k { w } else { w - 1 };
            assert(c.releases[cw] == o.releases[w]);
        }
        assert forall|a: int, b: int| 0 <= a < b < c.links.len() implies c.links[a].track_id
            != c.links[b].track_id && (c.links[a].release_id == c.links[b].release_id
            ==> c.links[a].track_order != c.links[b].track_order) by {
            assert(c.links[a] == o.links[from[a]]);
            assert(c.links[b] == o.links[from[b]]);
            assert(from[a] < from[b]);
        }
    }
    image
}

/// The release record with a new image and update time.
pub open spec fn with_image(
    r: ReleaseRecordView,
    image: Option<Seq<char>>,
    now: Seq<char>,
) -> ReleaseRecordView {
    ReleaseRecordView { image_path: image, updated_at: now, ..r }
}

/// Setting (or replacing) a release's image: the release must exist; it
/// now refers to `path`, stamped `now`.
pub open spec fn spec_set_release_image(c: CatalogView, id: i64, path: Seq<char>, now: Seq<char>) -> Result<
    (CatalogView, ReleaseView),
    Seq<char>,
> {
    if !c.has_release(id) {
        Err("Release not found"@)
    } else {
        let k = release_index(c, id);
        let r = with_image(c.releases[k], Some(path), now);
        let c2 = CatalogView { releases: c.releases.update(k, r), ..c };
        Ok((c2, release_row(c2, r)))
    }
}

/// Removing a release's image: the release must exist; it no longer
/// refers to an image, stamped `now`. The third part is the image file it
/// referred to, which is to be discarded.
pub open spec fn spec_remove_release_image(c: CatalogView, id: i64, now: Seq<char>) -> Result<
    (CatalogView, ReleaseView, Option<Seq<char>>),
    Seq<char>,
> {
    if !c.has_release(id) {
        Err("Release not found"@)
    } else {
        let k = release_index(c, id);
        let r = with_image(c.releases[k], None, now);
        let c2 = CatalogView { releases: c.releases.update(k, r), ..c };
        Ok((c2, release_row(c2, r), c.releases[k].image_path))
    }
}

/// Replaces the image and update time of the release at position `k`.
fn restamp_release(db: &mut Catalog, k: usize, image: Option<String>, now: String)
    requires
        old(db)@.wf(),
        k < old(db).releases.len(),
    ensures
        final(db)@.wf(),
        final(db).releases.len() == old(db).releases.len(),
        final(db)@ == (CatalogView {
            releases: old(db)@.releases.update(
                k as int,
                with_image(old(db)@.releases[k as int], opt_text(image), now@),
            ),
            ..old(db)@
        }),
{
    let ghost o = db@;
    let r = &db.releases[k];
    let rec = ReleaseRecord {
        id: r.id,
        internal_code: r.internal_code.clone(),
        title: r.title.clone(),
        release_type: r.release_type.clone(),
        status: r.status.clone(),
        description: copy_opt_text(&r.description),
        image_path: image,
        created_at: r.created_at.clone(),
        updated_at: now,
    };
    let ghost old_releases = db.releases@;
    let ghost rv = rec@;
    db.releases.set(k, rec);
    proof {
        assert(db.releases@.map_values(|x: ReleaseRecord| x@) =~= old_releases.map_values(
            |x: ReleaseRecord| x@,
        ).update(k as int, rv));
        let c = db@;
        assert forall|i: int, j: int| 0 <= i < j < c.releases.len() implies c.releases[i].id
            != c.releases[j].id && c.releases[i].internal_code != c.releases[j].internal_code by {
            assert(c.releases[i].id == o.releases[i].id);
            assert(c.releases[j].id == o.releases[j].id);
            assert(c.releases[i].internal_code == o.releases[i].internal_code);
            assert(c.releases[j].internal_code == o.releases[j].internal_code);
        }
        assert forall|l: int| 0 <= l < c.links.len() implies c.has_track(
            #[trigger] c.links[l].track_id,
        ) && c.has_release(c.links[l].release_id) && 1 <= c.links[l].track_order by {
            assert(c.links[l] == o.links[l]);
            assert(o.has_track(o.links[l].track_id));
            assert(o.has_release(o.links[l].release_id));
            let w = choose|i: int|
                0 <= i < o.releases.len() && #[trigger] o.releases[i].id == o.links[l].release_id;
            assert(c.releases[w].id == o.releases[w].id);
        }
    }
}

/// Points a release at the image stored under `path`, stamped `now`
/// (see `spec_set_release_image`).
pub fn set_release_image_at(db: &mut Catalog, release_id: i64, path: String, now: String) -> (r:
    Result<Release, String>)
    requires
        old(db)@.wf(),
        counts_fit(old(db)@),
    ensures
        final(db)@.wf(),
        match r {
            Ok(x) => spec_set_release_image(old(db)@, release_id, path@, now@) == Ok::<
                (CatalogView, ReleaseView),
                Seq<char>,
            >((final(db)@, x@)),
            Err(e) => spec_set_release_image(old(db)@, release_id, path@, now@) == Err::<
                (CatalogView, ReleaseView),
                Seq<char>,
            >(e@) && final(db)@ == old(db)@,
        },
{
    let k = match db.find_release(release_id) {
        Some(k) => k,
        None => {
            return Err(String::from_str("Release not found"));
        },
    };
    proof {
        lemma_release_index(db@, release_id, k as int);
    }
    restamp_release(db, k, Some(path), now);
    let out = db.release_row_at(k);
    Ok(out)
}

/// Points a release at the image stored under `path` (see
/// `spec_set_release_image`), stamped with the current time.
pub fn set_release_image(db: &mut Catalog, release_id: i64, path: String) -> (r: Result<
    Release,
    String,
>)
    requires
        old(db)@.wf(),
        counts_fit(old(db)@),
    ensures
        final(db)@.wf(),
        match r {
            Ok(x) => spec_set_release_image(old(db)@, release_id, path@, x@.updated_at) == Ok::<
                (CatalogView, ReleaseView),
                Seq<char>,
            >((final(db)@, x@)),
            Err(e) => forall|now: Seq<char>|
                spec_set_release_image(old(db)@, release_id, path@, now) == Err::<
                    (CatalogView, ReleaseView),
                    Seq<char>,
                >(e@) && final(db)@ == old(db)@,
        },
{
    let now = now_iso();
    set_release_image_at(db, release_id, path, now)
}

/// Drops a release's image, stamped `now` (see
/// `spec_remove_release_image`); also returns the file to discard.
pub fn remove_release_image_at(db: &mut Catalog, release_id: i64, now: String) -> (r: Result<
    (Release, Option<String>),
    String,
>)
    requires
        old(db)@.wf(),
        counts_fit(old(db)@),
    ensures
        final(db)@.wf(),
        match r {
            Ok((x, old_image)) => spec_remove_release_image(old(db)@, release_id, now@) == Ok::<
                (CatalogView, ReleaseView, Option<Seq<char>>),
                Seq<char>,
            >((final(db)@, x@, opt_text(old_image))),
            Err(e) => spec_remove_release_image(old(db)@, release_id, now@) == Err::<
                (CatalogView, ReleaseView, Option<Seq<char>>),
                Seq<char>,
            >(e@) && final(db)@ == old(db)@,
        },
{
    let k = match db.find_release(release_id) {
        Some(k) => k,
        None => {
            return Err(String::from_str("Release not found"));
        },
    };
    proof {
        lemma_release_index(db@, release_id, k as int);
    }
    let old_image = copy_opt_text(&db.releases[k].image_path);
    restamp_release(db, k, None, now);
    let out = db.release_row_at(k);
    Ok((out, old_image))
}

/// Drops a release's image (see `spec_remove_release_image`), stamped with
/// the current time; also returns the file to discard.
pub fn remove_release_image(db: &mut Catalog, release_id: i64) -> (r: Result<
    (Release, Option<String>),
    String,
>)
    requires
        old(db)@.wf(),
        counts_fit(old(db)@),
    ensures
        final(db)@.wf(),
        match r {
            Ok((x, old_image)) => spec_remove_release_image(old(db)@, release_id, x@.updated_at) == Ok::<
                (CatalogView, ReleaseView, Option<Seq<char>>),
                Seq<char>,
            >((final(db)@, x@, opt_text(old_image))),
            Err(e) => forall|now: Seq<char>|
                spec_remove_release_image(old(db)@, release_id, now) == Err::<
                    (CatalogView, ReleaseView, Option<Seq<char>>),
                    Seq<char>,
                >(e@) && final(db)@ == old(db)@,
        },
{
    let now = now_iso();
    remove_release_image_at(db, release_id, now)
}

/// The image file that a new image makes obsolete: the old one, unless the
/// new image is stored under the same path.
pub fn release_image_to_discard(old_image: &Option<String>, new_path: &str) -> (r: Option<String>)
    ensures
        opt_text(r) == match opt_text(*old_image) {
            Some(o) => if o == new_path@ {
                None
            } else {
                Some(o)
            },
            None => None,
        },
{
    match old_image {
        Some(o) => {
            if crate::text::text_eq(o.as_str(), new_path) {
                None
            } else {
                Some(o.clone())
            }
        },
        None => None,
    }
}

} // verus!
