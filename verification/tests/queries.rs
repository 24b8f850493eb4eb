use tracklog::db::placement::assign_track_to_release_at;
use tracklog::db::queries::{
    get_dashboard_summary, list_available_tracks, list_releases, list_tracks, search_tracks,
};
use tracklog::db::releases::create_release_at;
use tracklog::db::store::Catalog;
use tracklog::db::tracks::{create_track_at, update_track_at};
use tracklog::like::{chars_of, sql_like};
use tracklog::models::{ReleaseInput, TrackInput};

fn add_track(db: &mut Catalog, code: &str, title: &str, at: &str) {
    let input = TrackInput {
        internal_code: code.to_string(),
        title: title.to_string(),
        status: "Draft".to_string(),
        description: None,
        lyrics: None,
        notes: None,
        bpm: None,
        key: None,
    };
    create_track_at(db, input, at.to_string()).unwrap();
}

fn add_release(db: &mut Catalog, code: &str, title: &str, at: &str) {
    let input = ReleaseInput {
        internal_code: code.to_string(),
        title: title.to_string(),
        release_type: "Single".to_string(),
        status: "Planned".to_string(),
        description: None,
        image_path: None,
    };
    create_release_at(db, input, at.to_string()).unwrap();
}

#[test]
fn list_tracks_newest_first_with_release() {
    let mut db = Catalog::new();
    add_track(&mut db, "T-1", "Alpha", "2024-01-01");
    add_track(&mut db, "T-2", "Beta", "2024-03-01");
    add_track(&mut db, "T-3", "Gamma", "2024-03-01");
    add_release(&mut db, "R-1", "Summer EP", "2024-01-01");
    assign_track_to_release_at(&mut db, 1, 1, "2024-04-01".to_string()).unwrap();
    let rows = list_tracks(&db);
    let ids: Vec<i64> = rows.iter().map(|r| r.id).collect();
    // same update time: the larger id first
    assert_eq!(ids, vec![3, 2, 1]);
    assert_eq!(rows[2].availability, "Assigned");
    assert_eq!(rows[2].assigned_release_id, Some(1));
    assert_eq!(rows[2].assigned_release_title, Some("Summer EP".to_string()));
    assert_eq!(rows[0].availability, "Available");
    assert_eq!(rows[0].assigned_release_id, None);
    assert_eq!(rows[0].assigned_release_title, None);
}

#[test]
fn available_tracks_skip_assigned_ones() {
    let mut db = Catalog::new();
    add_track(&mut db, "T-1", "Alpha", "2024-01-01");
    add_track(&mut db, "T-2", "Beta", "2024-02-01");
    add_release(&mut db, "R-1", "EP", "2024-01-01");
    assign_track_to_release_at(&mut db, 2, 1, "t".to_string()).unwrap();
    let free = list_available_tracks(&db);
    assert_eq!(free.len(), 1);
    assert_eq!(free[0].id, 1);
}

#[test]
fn update_moves_a_track_to_the_top() {
    let mut db = Catalog::new();
    add_track(&mut db, "T-1", "Alpha", "2024-01-01");
    add_track(&mut db, "T-2", "Beta", "2024-02-01");
    let edit = TrackInput {
        internal_code: "T-1".to_string(),
        title: "Alpha 2".to_string(),
        status: "Final".to_string(),
        description: None,
        lyrics: None,
        notes: None,
        bpm: None,
        key: None,
    };
    update_track_at(&mut db, 1, edit, "2024-05-01".to_string()).unwrap();
    let ids: Vec<i64> = list_tracks(&db).iter().map(|r| r.id).collect();
    assert_eq!(ids, vec![1, 2]);
}

#[test]
fn search_matches_code_or_title_ignoring_case() {
    let mut db = Catalog::new();
    add_track(&mut db, "SONG-001", "Night Drive", "2024-01-01");
    add_track(&mut db, "T-002", "Morning song", "2024-02-01");
    add_track(&mut db, "T-003", "Interlude", "2024-03-01");
    let ids: Vec<i64> = search_tracks(&db, "  song ".to_string()).iter().map(|r| r.id).collect();
    assert_eq!(ids, vec![2, 1]);
    let wild: Vec<i64> = search_tracks(&db, "T-00_".to_string()).iter().map(|r| r.id).collect();
    assert_eq!(wild, vec![3, 2]);
    let none = search_tracks(&db, "xyz".to_string());
    assert!(none.is_empty());
}

#[test]
fn blank_search_lists_everything() {
    let mut db = Catalog::new();
    add_track(&mut db, "T-1", "Alpha", "2024-01-01");
    add_track(&mut db, "T-2", "Beta", "2024-02-01");
    let ids: Vec<i64> = search_tracks(&db, "   ".to_string()).iter().map(|r| r.id).collect();
    assert_eq!(ids, vec![2, 1]);
}

#[test]
fn like_patterns() {
    assert!(sql_like(&chars_of("%abc%"), &chars_of("xxABCxx")));
    assert!(sql_like(&chars_of("a_c"), &chars_of("abc")));
    assert!(!sql_like(&chars_of("a_c"), &chars_of("ac")));
    assert!(sql_like(&chars_of("%"), &chars_of("")));
    assert!(!sql_like(&chars_of("abc"), &chars_of("abcd")));
    // case folding is ASCII only
    assert!(!sql_like(&chars_of("é"), &chars_of("É")));
}

#[test]
fn releases_carry_track_counts() {
    let mut db = Catalog::new();
    add_track(&mut db, "T-1", "Alpha", "2024-01-01");
    add_track(&mut db, "T-2", "Beta", "2024-01-01");
    add_release(&mut db, "R-1", "One", "2024-01-01");
    add_release(&mut db, "R-2", "Two", "2024-02-01");
    assign_track_to_release_at(&mut db, 1, 1, "t".to_string()).unwrap();
    assign_track_to_release_at(&mut db, 2, 1, "t".to_string()).unwrap();
    let rows = list_releases(&db);
    assert_eq!(rows.len(), 2);
    assert_eq!(rows[0].id, 2);
    assert_eq!(rows[0].track_count, Some(0));
    assert_eq!(rows[1].id, 1);
    assert_eq!(rows[1].track_count, Some(2));
}

#[test]
fn dashboard_counts_and_five_most_recent() {
    let mut db = Catalog::new();
    for i in 1..=7 {
        add_track(&mut db, &format!("T-{i}"), &format!("Track {i}"), &format!("2024-01-0{i}"));
    }
    add_release(&mut db, "R-1", "One", "2024-01-01");
    assign_track_to_release_at(&mut db, 7, 1, "t".to_string()).unwrap();
    let s = get_dashboard_summary(&db);
    assert_eq!(s.total_tracks, 7);
    assert_eq!(s.available_tracks, 6);
    assert_eq!(s.total_releases, 1);
    let recent: Vec<i64> = s.recent_tracks.iter().map(|t| t.id).collect();
    assert_eq!(recent, vec![7, 6, 5, 4, 3]);
    assert_eq!(s.recent_releases.len(), 1);
    assert_eq!(s.recent_releases[0].track_count, Some(1));
}

#[test]
fn empty_dashboard() {
    let db = Catalog::new();
    let s = get_dashboard_summary(&db);
    assert_eq!(s.total_tracks, 0);
    assert_eq!(s.available_tracks, 0);
    assert_eq!(s.total_releases, 0);
    assert!(s.recent_tracks.is_empty());
    assert!(s.recent_releases.is_empty());
}

#[test]
fn listings_agree_with_each_other() {
    let mut db = Catalog::new();
    for i in 1..=7 {
        add_track(&mut db, &format!("T-{i}"), &format!("Song {i}"), &format!("2024-02-0{i}"));
    }
    add_track(&mut db, "X-1", "Interlude", "2024-02-05");
    add_release(&mut db, "R-1", "One", "2024-01-01");
    assign_track_to_release_at(&mut db, 6, 1, "t".to_string()).unwrap();
    assign_track_to_release_at(&mut db, 2, 1, "t".to_string()).unwrap();
    let listed = list_tracks(&db);
    let listed_ids: Vec<i64> = listed.iter().map(|r| r.id).collect();
    let s = get_dashboard_summary(&db);
    let recent: Vec<i64> = s.recent_tracks.iter().map(|t| t.id).collect();
    assert_eq!(recent, listed_ids[..5].to_vec());
    let free: Vec<i64> = list_available_tracks(&db).iter().map(|t| t.id).collect();
    let free_from_list: Vec<i64> = listed
        .iter()
        .filter(|r| r.assigned_release_id.is_none())
        .map(|r| r.id)
        .collect();
    assert_eq!(free, free_from_list);
    assert_eq!(free.len() as i64, s.available_tracks);
    let found: Vec<i64> = search_tracks(&db, " SONG ".to_string()).iter().map(|r| r.id).collect();
    let expected: Vec<i64> = listed
        .iter()
        .filter(|r| r.title.to_ascii_lowercase().contains("song") || r.internal_code.to_ascii_lowercase().contains("song"))
        .map(|r| r.id)
        .collect();
    assert_eq!(found, expected);
    assert_eq!(found.len(), 7);
}
