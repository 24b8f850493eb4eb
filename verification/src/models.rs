//! The records the catalog hands out and takes in, with their mathematical
//! views (text as character sequences).

use vstd::prelude::*;

verus! {

/// The characters of an optional text.
pub open spec fn opt_text(o: Option<String>) -> Option<Seq<char>> {
    match o {
        Some(s) => Some(s@),
        None => None,
    }
}

/// A copy of an optional text.
pub fn copy_opt_text(o: &Option<String>) -> (r: Option<String>)
    ensures
        opt_text(r) == opt_text(*o),
{
    match o {
        Some(s) => Some(s.clone()),
        None => None,
    }
}

/// A song of the catalog, as stored.
#[derive(Debug)]
pub struct Track {
    pub id: i64,
    pub internal_code: String,
    pub title: String,
    pub status: String,
    pub description: Option<String>,
    pub lyrics: Option<String>,
    pub notes: Option<String>,
    pub bpm: Option<i64>,
    pub key: Option<String>,
    pub created_at: String,
    pub updated_at: String,
}

pub struct TrackView {
    pub id: i64,
    pub internal_code: Seq<char>,
    pub title: Seq<char>,
    pub status: Seq<char>,
    pub description: Option<Seq<char>>,
    pub lyrics: Option<Seq<char>>,
    pub notes: Option<Seq<char>>,
    pub bpm: Option<i64>,
    pub key: Option<Seq<char>>,
    pub created_at: Seq<char>,
    pub updated_at: Seq<char>,
}

impl View for Track {
    type V = TrackView;

    open spec fn view(&self) -> TrackView {
        TrackView {
            id: self.id,
            internal_code: self.internal_code@,
            title: self.title@,
            status: self.status@,
            description: opt_text(self.description),
            lyrics: opt_text(self.lyrics),
            notes: opt_text(self.notes),
            bpm: self.bpm,
            key: opt_text(self.key),
            created_at: self.created_at@,
            updated_at: self.updated_at@,
        }
    }
}

impl Track {
    /// A copy of this track.
    pub fn dup(&self) -> (r: Track)
        ensures
            r@ == self@,
    {
        Track {
            id: self.id,
            internal_code: self.internal_code.clone(),
            title: self.title.clone(),
            status: self.status.clone(),
            description: copy_opt_text(&self.description),
            lyrics: copy_opt_text(&self.lyrics),
            notes: copy_opt_text(&self.notes),
            bpm: self.bpm,
            key: copy_opt_text(&self.key),
            created_at: self.created_at.clone(),
            updated_at: self.updated_at.clone(),
        }
    }
}

/// What a user submits to create or edit a track.
#[derive(Debug)]
pub struct TrackInput {
    pub internal_code: String,
    pub title: String,
    pub status: String,
    pub description: Option<String>,
    pub lyrics: Option<String>,
    pub notes: Option<String>,
    pub bpm: Option<i64>,
    pub key: Option<String>,
}

pub struct TrackInputView {
    pub internal_code: Seq<char>,
    pub title: Seq<char>,
    pub status: Seq<char>,
    pub description: Option<Seq<char>>,
    pub lyrics: Option<Seq<char>>,
    pub notes: Option<Seq<char>>,
    pub bpm: Option<i64>,
    pub key: Option<Seq<char>>,
}

impl View for TrackInput {
    type V = TrackInputView;

    open spec fn view(&self) -> TrackInputView {
        TrackInputView {
            internal_code: self.internal_code@,
            title: self.title@,
            status: self.status@,
            description: opt_text(self.description),
            lyrics: opt_text(self.lyrics),
            notes: opt_text(self.notes),
            bpm: self.bpm,
            key: opt_text(self.key),
        }
    }
}

/// A track as listed, with the release it is assigned to, if any.
#[derive(Debug)]
pub struct TrackListRow {
    pub id: i64,
    pub internal_code: String,
    pub title: String,
    pub status: String,
    pub description: Option<String>,
    pub lyrics: Option<String>,
    pub notes: Option<String>,
    pub bpm: Option<i64>,
    pub key: Option<String>,
    pub created_at: String,
    pub updated_at: String,
    pub assigned_release_id: Option<i64>,
    pub assigned_release_title: Option<String>,
    pub availability: String,
}

pub struct TrackListRowView {
    pub track: TrackView,
    pub assigned_release_id: Option<i64>,
    pub assigned_release_title: Option<Seq<char>>,
    pub availability: Seq<char>,
}

impl View for TrackListRow {
    type V = TrackListRowView;

    open spec fn view(&self) -> TrackListRowView {
        TrackListRowView {
            track: TrackView {
                id: self.id,
                internal_code: self.internal_code@,
                title: self.title@,
                status: self.status@,
                description: opt_text(self.description),
                lyrics: opt_text(self.lyrics),
                notes: opt_text(self.notes),
                bpm: self.bpm,
                key: opt_text(self.key),
                created_at: self.created_at@,
                updated_at: self.updated_at@,
            },
            assigned_release_id: self.assigned_release_id,
            assigned_release_title: opt_text(self.assigned_release_title),
            availability: self.availability@,
        }
    }
}

/// A release (album, EP or single) as listed, with its number of tracks.
#[derive(Debug)]
pub struct Release {
    pub id: i64,
    pub internal_code: String,
    pub title: String,
    pub release_type: String,
    pub status: String,
    pub description: Option<String>,
    pub image_path: Option<String>,
    pub track_count: Option<i64>,
    pub created_at: String,
    pub updated_at: String,
}

pub struct ReleaseView {
    pub id: i64,
    pub internal_code: Seq<char>,
    pub title: Seq<char>,
    pub release_type: Seq<char>,
    pub status: Seq<char>,
    pub description: Option<Seq<char>>,
    pub image_path: Option<Seq<char>>,
    pub track_count: Option<i64>,
    pub created_at: Seq<char>,
    pub updated_at: Seq<char>,
}

impl View for Release {
    type V = ReleaseView;

    open spec fn view(&self) -> ReleaseView {
        ReleaseView {
            id: self.id,
            internal_code: self.internal_code@,
            title: self.title@,
            release_type: self.release_type@,
            status: self.status@,
            description: opt_text(self.description),
            image_path: opt_text(self.image_path),
            track_count: self.track_count,
            created_at: self.created_at@,
            updated_at: self.updated_at@,
        }
    }
}

/// What a user submits to create or edit a release.
#[derive(Debug)]
pub struct ReleaseInput {
    pub internal_code: String,
    pub title: String,
    pub release_type: String,
    pub status: String,
    pub description: Option<String>,
    pub image_path: Option<String>,
}

pub struct ReleaseInputView {
    pub internal_code: Seq<char>,
    pub title: Seq<char>,
    pub release_type: Seq<char>,
    pub status: Seq<char>,
    pub description: Option<Seq<char>>,
    pub image_path: Option<Seq<char>>,
}

impl View for ReleaseInput {
    type V = ReleaseInputView;

    open spec fn view(&self) -> ReleaseInputView {
        ReleaseInputView {
            internal_code: self.internal_code@,
            title: self.title@,
            release_type: self.release_type@,
            status: self.status@,
            description: opt_text(self.description),
            image_path: opt_text(self.image_path),
        }
    }
}

/// A track as listed inside a release, at its position.
#[derive(Debug)]
pub struct ReleaseTrackRow {
    pub track_order: i64,
    pub track_id: i64,
    pub internal_code: String,
    pub title: String,
    pub status: String,
    pub description: Option<String>,
    pub lyrics: Option<String>,
    pub bpm: Option<i64>,
    pub key: Option<String>,
}

pub struct ReleaseTrackRowView {
    pub track_order: i64,
    pub track_id: i64,
    pub internal_code: Seq<char>,
    pub title: Seq<char>,
    pub status: Seq<char>,
    pub description: Option<Seq<char>>,
    pub lyrics: Option<Seq<char>>,
    pub bpm: Option<i64>,
    pub key: Option<Seq<char>>,
}

impl View for ReleaseTrackRow {
    type V = ReleaseTrackRowView;

    open spec fn view(&self) -> ReleaseTrackRowView {
        ReleaseTrackRowView {
            track_order: self.track_order,
            track_id: self.track_id,
            internal_code: self.internal_code@,
            title: self.title@,
            status: self.status@,
            description: opt_text(self.description),
            lyrics: opt_text(self.lyrics),
            bpm: self.bpm,
            key: opt_text(self.key),
        }
    }
}

/// The counts and most recent entries shown on the dashboard.
#[derive(Debug)]
pub struct DashboardSummary {
    pub total_tracks: i64,
    pub available_tracks: i64,
    pub total_releases: i64,
    pub recent_tracks: Vec<Track>,
    pub recent_releases: Vec<Release>,
}

} // verus!
