//! The catalog's tables (tracks, releases, and the links that place tracks
//! in releases) and the consistency rules they keep.

use vstd::prelude::*;
use crate::models::{copy_opt_text, opt_text, Track, TrackView};
use crate::text::text_eq;

verus! {

/// A row of the releases table.
#[derive(Debug)]
pub struct ReleaseRecord {
    pub id: i64,
    pub internal_code: String,
    pub title: String,
    pub release_type: String,
    pub status: String,
    pub description: Option<String>,
    pub image_path: Option<String>,
    pub created_at: String,
    pub updated_at: String,
}

pub struct ReleaseRecordView {
    pub id: i64,
    pub internal_code: Seq<char>,
    pub title: Seq<char>,
    pub release_type: Seq<char>,
    pub status: Seq<char>,
    pub description: Option<Seq<char>>,
    pub image_path: Option<Seq<char>>,
    pub created_at: Seq<char>,
    pub updated_at: Seq<char>,
}

impl View for ReleaseRecord {
    type V = ReleaseRecordView;

    open spec fn view(&self) -> ReleaseRecordView {
        ReleaseRecordView {
            id: self.id,
            internal_code: self.internal_code@,
            title: self.title@,
            release_type: self.release_type@,
            status: self.status@,
            description: opt_text(self.description),
            image_path: opt_text(self.image_path),
            created_at: self.created_at@,
            updated_at: self.updated_at@,
        }
    }
}

impl ReleaseRecord {
    /// A copy of this row.
    pub fn dup(&self) -> (r: ReleaseRecord)
        ensures
            r@ == self@,
    {
        ReleaseRecord {
            id: self.id,
            internal_code: self.internal_code.clone(),
            title: self.title.clone(),
            release_type: self.release_type.clone(),
            status: self.status.clone(),
            description: copy_opt_text(&self.description),
            image_path: copy_opt_text(&self.image_path),
            created_at: self.created_at.clone(),
            updated_at: self.updated_at.clone(),
        }
    }
}

/// A row of the release-track table: `track_id` sits in `release_id` at
/// position `track_order`.
#[derive(Debug)]
pub struct ReleaseTrackLink {
    pub release_id: i64,
    pub track_id: i64,
    pub track_order: i64,
    pub created_at: String,
}

pub struct LinkView {
    pub release_id: i64,
    pub track_id: i64,
    pub track_order: i64,
    pub created_at: Seq<char>,
}

impl View for ReleaseTrackLink {
    type V = LinkView;

    open spec fn view(&self) -> LinkView {
        LinkView {
            release_id: self.release_id,
            track_id: self.track_id,
            track_order: self.track_order,
            created_at: self.created_at@,
        }
    }
}

impl ReleaseTrackLink {
    /// A copy of this row.
    pub fn dup(&self) -> (r: ReleaseTrackLink)
        ensures
            r@ == self@,
    {
        ReleaseTrackLink {
            release_id: self.release_id,
            track_id: self.track_id,
            track_order: self.track_order,
            created_at: self.created_at.clone(),
        }
    }
}

/// The whole catalog: its three tables, each in storage order.
#[derive(Debug)]
pub struct Catalog {
    pub tracks: Vec<Track>,
    pub releases: Vec<ReleaseRecord>,
    pub links: Vec<ReleaseTrackLink>,
}

pub struct CatalogView {
    pub tracks: Seq<TrackView>,
    pub releases: Seq<ReleaseRecordView>,
    pub links: Seq<LinkView>,
}

impl View for Catalog {
    type V = CatalogView;

    open spec fn view(&self) -> CatalogView {
        CatalogView {
            tracks: self.tracks@.map_values(|t: Track| t@),
            releases: self.releases@.map_values(|r: ReleaseRecord| r@),
            links: self.links@.map_values(|l: ReleaseTrackLink| l@),
        }
    }
}

/// The largest id of a table (0 for an empty table).
pub open spec fn max_track_id(ts: Seq<TrackView>) -> i64
    decreases ts.len(),
{
    if ts.len() == 0 {
        0
    } else {
        let m = max_track_id(ts.drop_last());
        if ts.last().id > m {
            ts.last().id
        } else {
            m
        }
    }
}

/// The largest id of the releases table (0 for an empty table).
pub open spec fn max_release_id(rs: Seq<ReleaseRecordView>) -> i64
    decreases rs.len(),
{
    if rs.len() == 0 {
        0
    } else {
        let m = max_release_id(rs.drop_last());
        if rs.last().id > m {
            rs.last().id
        } else {
            m
        }
    }
}

pub proof fn lemma_max_track_id(ts: Seq<TrackView>)
    ensures
        forall|i: int| 0 <= i < ts.len() ==> #[trigger] ts[i].id <= max_track_id(ts),
        max_track_id(ts) >= 0,
    decreases ts.len(),
{
    if ts.len() > 0 {
        lemma_max_track_id(ts.drop_last());
        assert forall|i: int| 0 <= i < ts.len() implies #[trigger] ts[i].id <= max_track_id(ts) by {
            if i < ts.len() - 1 {
                assert(ts.drop_last()[i] == ts[i]);
            }
        }
    }
}

pub proof fn lemma_max_release_id(rs: Seq<ReleaseRecordView>)
    ensures
        forall|i: int| 0 <= i < rs.len() ==> #[trigger] rs[i].id <= max_release_id(rs),
        max_release_id(rs) >= 0,
    decreases rs.len(),
{
    if rs.len() > 0 {
        lemma_max_release_id(rs.drop_last());
        assert forall|i: int| 0 <= i < rs.len() implies #[trigger] rs[i].id <= max_release_id(
            rs,
        ) by {
            if i < rs.len() - 1 {
                assert(rs.drop_last()[i] == rs[i]);
            }
        }
    }
}

impl CatalogView {
    /// Some track has this id.
    pub open spec fn has_track(self, id: i64) -> bool {
        exists|i: int| 0 <= i < self.tracks.len() && #[trigger] self.tracks[i].id == id
    }

    /// Some release has this id.
    pub open spec fn has_release(self, id: i64) -> bool {
        exists|i: int| 0 <= i < self.releases.len() && #[trigger] self.releases[i].id == id
    }

    /// The track with this id.
    pub open spec fn track_by_id(self, id: i64) -> Option<TrackView> {
        if self.has_track(id) {
            Some(
                self.tracks[choose|i: int| 0 <= i < self.tracks.len() && #[trigger] self.tracks[i].id == id],
            )
        } else {
            None
        }
    }

    /// The release row with this id.
    pub open spec fn release_by_id(self, id: i64) -> Option<ReleaseRecordView> {
        if self.has_release(id) {
            Some(
                self.releases[choose|i: int|
                    0 <= i < self.releases.len() && #[trigger] self.releases[i].id == id],
            )
        } else {
            None
        }
    }

    /// The track is placed in some release.
    pub open spec fn is_assigned(self, track_id: i64) -> bool {
        exists|k: int| 0 <= k < self.links.len() && #[trigger] self.links[k].track_id == track_id
    }

    /// The link that places this track, if it is placed.
    pub open spec fn link_of_track(self, track_id: i64) -> Option<LinkView> {
        if self.is_assigned(track_id) {
            Some(
                self.links[choose|k: int|
                    0 <= k < self.links.len() && #[trigger] self.links[k].track_id == track_id],
            )
        } else {
            None
        }
    }

    /// Some track other than `except` already uses this internal code.
    pub open spec fn track_code_taken(self, code: Seq<char>, except: Option<i64>) -> bool {
        exists|i: int|
            0 <= i < self.tracks.len() && #[trigger] self.tracks[i].internal_code == code
                && except != Some(self.tracks[i].id)
    }

    /// Some release other than `except` already uses this internal code.
    pub open spec fn release_code_taken(self, code: Seq<char>, except: Option<i64>) -> bool {
        exists|i: int|
            0 <= i < self.releases.len() && #[trigger] self.releases[i].internal_code == code
                && except != Some(self.releases[i].id)
    }

    /// The consistency rules of the catalog: ids and internal codes are
    /// unique in each table; every link names an existing track and
    /// release; a track sits in at most one release; positions inside a
    /// release are distinct and at least 1 (the schema keeps positions of a
    /// release unique and positive).
    pub open spec fn wf(self) -> bool {
        &&& forall|i: int, j: int|
            0 <= i < j < self.tracks.len() ==> self.tracks[i].id != self.tracks[j].id
                && self.tracks[i].internal_code != self.tracks[j].internal_code
        &&& forall|i: int, j: int|
            0 <= i < j < self.releases.len() ==> self.releases[i].id != self.releases[j].id
                && self.releases[i].internal_code != self.releases[j].internal_code
        &&& forall|k: int|
            0 <= k < self.links.len() ==> self.has_track(#[trigger] self.links[k].track_id)
                && self.has_release(self.links[k].release_id) && 1 <= self.links[k].track_order
        &&& forall|k: int, l: int|
            0 <= k < l < self.links.len() ==> self.links[k].track_id != self.links[l].track_id
                && (self.links[k].release_id == self.links[l].release_id
                ==> self.links[k].track_order != self.links[l].track_order)
    }
}

impl Catalog {
    /// An empty catalog.
    pub fn new() -> (c: Catalog)
        ensures
            c@.wf(),
            c@.tracks.len() == 0,
            c@.releases.len() == 0,
            c@.links.len() == 0,
    {
        Catalog { tracks: Vec::new(), releases: Vec::new(), links: Vec::new() }
    }

    /// The position of the track with this id.
    pub fn find_track(&self, id: i64) -> (r: Option<usize>)
        ensures
            r matches Some(i) ==> i < self.tracks.len() && self@.tracks[i as int].id == id,
            r is None ==> !self@.has_track(id),
    {
        let n = self.tracks.len();
        let mut i: usize = 0;
        while i < n
            invariant
                n == self.tracks.len(),
                i <= n,
                forall|k: int| 0 <= k < i ==> self@.tracks[k].id != id,
            decreases n - i,
        {
            if self.tracks[i].id == id {
                return Some(i);
            }
            i = i + 1;
        }
        None
    }

    /// The position of the release with this id.
    pub fn find_release(&self, id: i64) -> (r: Option<usize>)
        ensures
            r matches Some(i) ==> i < self.releases.len() && self@.releases[i as int].id == id,
            r is None ==> !self@.has_release(id),
    {
        let n = self.releases.len();
        let mut i: usize = 0;
        while i < n
            invariant
                n == self.releases.len(),
                i <= n,
                forall|k: int| 0 <= k < i ==> self@.releases[k].id != id,
            decreases n - i,
        {
            if self.releases[i].id == id {
                return Some(i);
            }
            i = i + 1;
        }
        None
    }

    /// The position of the link that places this track.
    pub fn find_link_of_track(&self, track_id: i64) -> (r: Option<usize>)
        ensures
            r matches Some(k) ==> k < self.links.len() && self@.links[k as int].track_id
                == track_id,
            r is None ==> !self@.is_assigned(track_id),
    {
        let n = self.links.len();
        let mut k: usize = 0;
        while k < n
            invariant
                n == self.links.len(),
                k <= n,
                forall|j: int| 0 <= j < k ==> self@.links[j].track_id != track_id,
            decreases n - k,
        {
            if self.links[k].track_id == track_id {
                return Some(k);
            }
            k = k + 1;
        }
        None
    }

    /// Whether some track other than `except` uses this internal code.
    pub fn track_code_in_use(&self, code: &str, except: Option<i64>) -> (r: bool)
        ensures
            r == self@.track_code_taken(code@, except),
    {
        let n = self.tracks.len();
        let mut i: usize = 0;
        while i < n
            invariant
                n == self.tracks.len(),
                i <= n,
                forall|k: int|
                    0 <= k < i ==> !(self@.tracks[k].internal_code == code@ && except != Some(
                        self@.tracks[k].id,
                    )),
            decreases n - i,
        {
            let t = &self.tracks[i];
            let other = match except {
                Some(e) => e != t.id,
                None => true,
            };
            if other && text_eq(t.internal_code.as_str(), code) {
                assert(self@.tracks[i as int].internal_code == code@);
                return true;
            }
            i = i + 1;
        }
        false
    }

    /// Whether some release other than `except` uses this internal code.
    pub fn release_code_in_use(&self, code: &str, except: Option<i64>) -> (r: bool)
        ensures
            r == self@.release_code_taken(code@, except),
    {
        let n = self.releases.len();
        let mut i: usize = 0;
        while i < n
            invariant
                n == self.releases.len(),
                i <= n,
                forall|k: int|
                    0 <= k < i ==> !(self@.releases[k].internal_code == code@ && except != Some(
                        self@.releases[k].id,
                    )),
            decreases n - i,
        {
            let r = &self.releases[i];
            let other = match except {
                Some(e) => e != r.id,
                None => true,
            };
            if other && text_eq(r.internal_code.as_str(), code) {
                assert(self@.releases[i as int].internal_code == code@);
                return true;
            }
            i = i + 1;
        }
        false
    }

    /// The largest track id (0 when there is none).
    pub fn max_track_id(&self) -> (m: i64)
        ensures
            m == max_track_id(self@.tracks),
    {
        let n = self.tracks.len();
        let mut m: i64 = 0;
        let mut i: usize = 0;
        while i < n
            invariant
                n == self.tracks.len(),
                i <= n,
                m == max_track_id(self@.tracks.take(i as int)),
            decreases n - i,
        {
            assert(self@.tracks.take(i + 1).drop_last() =~= self@.tracks.take(i as int));
            if self.tracks[i].id > m {
                m = self.tracks[i].id;
            }
            i = i + 1;
        }
        assert(self@.tracks.take(n as int) =~= self@.tracks);
        m
    }

    /// The largest release id (0 when there is none).
    pub fn max_release_id(&self) -> (m: i64)
        ensures
            m == max_release_id(self@.releases),
    {
        let n = self.releases.len();
        let mut m: i64 = 0;
        let mut i: usize = 0;
        while i < n
            invariant
                n == self.releases.len(),
                i <= n,
                m == max_release_id(self@.releases.take(i as int)),
            decreases n - i,
        {
            assert(self@.releases.take(i + 1).drop_last() =~= self@.releases.take(i as int));
            if self.releases[i].id > m {
                m = self.releases[i].id;
            }
            i = i + 1;
        }
        assert(self@.releases.take(n as int) =~= self@.releases);
        m
    }
}

/// In a consistent catalog, the track at position `k` is the one found by
/// its id.
pub proof fn lemma_track_at(c: CatalogView, k: int)
    requires
        c.wf(),
        0 <= k < c.tracks.len(),
    ensures
        c.has_track(c.tracks[k].id),
        c.track_by_id(c.tracks[k].id) == Some(c.tracks[k]),
{
    let id = c.tracks[k].id;
    assert(c.has_track(id));
    let kk = choose|i: int| 0 <= i < c.tracks.len() && #[trigger] c.tracks[i].id == id;
    if kk != k {
        if kk < k {
            assert(c.tracks[kk].id != c.tracks[k].id);
        } else {
            assert(c.tracks[k].id != c.tracks[kk].id);
        }
    }
}

/// In a consistent catalog, the release at position `k` is the one found
/// by its id.
pub proof fn lemma_release_at(c: CatalogView, k: int)
    requires
        c.wf(),
        0 <= k < c.releases.len(),
    ensures
        c.has_release(c.releases[k].id),
        c.release_by_id(c.releases[k].id) == Some(c.releases[k]),
{
    let id = c.releases[k].id;
    assert(c.has_release(id));
    let kk = choose|i: int| 0 <= i < c.releases.len() && #[trigger] c.releases[i].id == id;
    if kk != k {
        if kk < k {
            assert(c.releases[kk].id != c.releases[k].id);
        } else {
            assert(c.releases[k].id != c.releases[kk].id);
        }
    }
}

/// In a consistent catalog, the link at position `k` is the one that
/// places its track.
pub proof fn lemma_link_at(c: CatalogView, k: int)
    requires
        c.wf(),
        0 <= k < c.links.len(),
    ensures
        c.is_assigned(c.links[k].track_id),
        c.link_of_track(c.links[k].track_id) == Some(c.links[k]),
{
    let id = c.links[k].track_id;
    assert(c.is_assigned(id));
    let kk = choose|i: int| 0 <= i < c.links.len() && #[trigger] c.links[i].track_id == id;
    if kk != k {
        if kk < k {
            assert(c.links[kk].track_id != c.links[k].track_id);
        } else {
            assert(c.links[k].track_id != c.links[kk].track_id);
        }
    }
}

impl Catalog {
    /// Whether the catalog keeps its consistency rules (see `wf`).
    pub fn check_consistency(&self) -> (r: bool)
        ensures
            r == self@.wf(),
    {
        let c = Ghost(self@);
        let nt = self.tracks.len();
        let mut i: usize = 0;
        while i < nt
            invariant
                nt == self.tracks.len(),
                c@ == self@,
                i <= nt,
                forall|a: int, b: int| 0 <= a < b < c@.tracks.len() && a < i ==> c@.tracks[a].id != c@.tracks[b].id
                    && c@.tracks[a].internal_code != c@.tracks[b].internal_code,
            decreases nt - i,
        {
            let mut j: usize = i + 1;
            while j < nt
                invariant
                    nt == self.tracks.len(),
                    c@ == self@,
                    i < nt,
                    i + 1 <= j <= nt,
                    forall|a: int, b: int| 0 <= a < b < c@.tracks.len() && a < i ==> c@.tracks[a].id != c@.tracks[b].id
                        && c@.tracks[a].internal_code != c@.tracks[b].internal_code,
                    forall|b: int| i < b < j ==> c@.tracks[i as int].id != c@.tracks[b].id
                        && c@.tracks[i as int].internal_code != c@.tracks[b].internal_code,
                decreases nt - j,
            {
                if self.tracks[i].id == self.tracks[j].id || text_eq(
                    self.tracks[i].internal_code.as_str(),
                    self.tracks[j].internal_code.as_str(),
                ) {
                    assert(!self@.wf()) by {
                        if self@.wf() {
                            assert(self@.tracks[i as int].id != self@.tracks[j as int].id);
                        }
                    }
                    return false;
                }
                j = j + 1;
            }
            i = i + 1;
        }
        let nr = self.releases.len();
        let mut i: usize = 0;
        while i < nr
            invariant
                nr == self.releases.len(),
                c@ == self@,
                i <= nr,
                forall|a: int, b: int| 0 <= a < b < c@.tracks.len() ==> c@.tracks[a].id != c@.tracks[b].id
                    && c@.tracks[a].internal_code != c@.tracks[b].internal_code,
                forall|a: int, b: int| 0 <= a < b < c@.releases.len() && a < i ==> c@.releases[a].id != c@.releases[b].id
                    && c@.releases[a].internal_code != c@.releases[b].internal_code,
            decreases nr - i,
        {
            let mut j: usize = i + 1;
            while j < nr
                invariant
                    nr == self.releases.len(),
                    c@ == self@,
                    i < nr,
                    i + 1 <= j <= nr,
                    forall|a: int, b: int| 0 <= a < b < c@.releases.len() && a < i ==> c@.releases[a].id != c@.releases[b].id
                        && c@.releases[a].internal_code != c@.releases[b].internal_code,
                    forall|b: int| i < b < j ==> c@.releases[i as int].id != c@.releases[b].id
                        && c@.releases[i as int].internal_code != c@.releases[b].internal_code,
                decreases nr - j,
            {
                if self.releases[i].id == self.releases[j].id || text_eq(
                    self.releases[i].internal_code.as_str(),
                    self.releases[j].internal_code.as_str(),
                ) {
                    assert(!self@.wf()) by {
                        if self@.wf() {
                            assert(self@.releases[i as int].id != self@.releases[j as int].id);
                        }
                    }
                    return false;
                }
                j = j + 1;
            }
            i = i + 1;
        }
        let nl = self.links.len();
        let mut k: usize = 0;
        while k < nl
            invariant
                nl == self.links.len(),
                c@ == self@,
                k <= nl,
                forall|a: int, b: int| 0 <= a < b < c@.tracks.len() ==> c@.tracks[a].id != c@.tracks[b].id
                    && c@.tracks[a].internal_code != c@.tracks[b].internal_code,
                forall|a: int, b: int| 0 <= a < b < c@.releases.len() ==> c@.releases[a].id != c@.releases[b].id
                    && c@.releases[a].internal_code != c@.releases[b].internal_code,
                forall|a: int| 0 <= a < k ==> c@.has_track(#[trigger] c@.links[a].track_id)
                    && c@.has_release(c@.links[a].release_id) && 1 <= c@.links[a].track_order,
                forall|a: int, b: int| 0 <= a < b < c@.links.len() && a < k ==> c@.links[a].track_id != c@.links[b].track_id
                    && (c@.links[a].release_id == c@.links[b].release_id ==> c@.links[a].track_order != c@.links[b].track_order),
            decreases nl - k,
        {
            let l = &self.links[k];
            if self.find_track(l.track_id).is_none() || self.find_release(l.release_id).is_none() {
                assert(!self@.wf()) by {
                    if self@.wf() {
                        assert(self@.has_track(self@.links[k as int].track_id));
                    }
                }
                return false;
            }
            if l.track_order < 1 {
                assert(!self@.wf()) by {
                    if self@.wf() {
                        assert(self@.has_track(self@.links[k as int].track_id));
                    }
                }
                return false;
            }
            let mut j: usize = k + 1;
            while j < nl
                invariant
                    nl == self.links.len(),
                    c@ == self@,
                    k < nl,
                    k + 1 <= j <= nl,
                    forall|a: int, b: int| 0 <= a < b < c@.links.len() && a < k ==> c@.links[a].track_id != c@.links[b].track_id
                        && (c@.links[a].release_id == c@.links[b].release_id ==> c@.links[a].track_order != c@.links[b].track_order),
                    forall|b: int| k < b < j ==> c@.links[k as int].track_id != c@.links[b].track_id
                        && (c@.links[k as int].release_id == c@.links[b].release_id ==> c@.links[k as int].track_order != c@.links[b].track_order),
                decreases nl - j,
            {
                let m = &self.links[j];
                if self.links[k].track_id == m.track_id || (self.links[k].release_id == m.release_id
                    && self.links[k].track_order == m.track_order) {
                    assert(!self@.wf()) by {
                        if self@.wf() {
                            assert(self@.links[k as int].track_id != self@.links[j as int].track_id);
                        }
                    }
                    return false;
                }
                j = j + 1;
            }
            proof {
                let w = choose|i: int| 0 <= i < c@.tracks.len() && #[trigger] c@.tracks[i].id == c@.links[k as int].track_id;
            }
            k = k + 1;
        }
        true
    }

    /// A catalog holding the given rows, when they keep the consistency
    /// rules (see `wf`).
    pub fn from_rows(
        tracks: Vec<Track>,
        releases: Vec<ReleaseRecord>,
        links: Vec<ReleaseTrackLink>,
    ) -> (r: Result<Catalog, String>)
        ensures
            match r {
                Ok(c) => c@.wf() && c.tracks@ == tracks@ && c.releases@ == releases@ && c.links@ == links@,
                Err(e) => !(Catalog { tracks, releases, links })@.wf() && e@ == "Catalog data is inconsistent"@,
            },
    {
        let c = Catalog { tracks, releases, links };
        if c.check_consistency() {
            Ok(c)
        } else {
            Err(String::from_str("Catalog data is inconsistent"))
        }
    }
}

} // verus!
