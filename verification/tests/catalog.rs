use tracklog::db::releases::{
    create_release_at, delete_release, get_release_by_id, release_image_to_discard,
    remove_release_image_at, set_release_image_at, update_release_at,
};
use tracklog::db::store::{Catalog, ReleaseRecord, ReleaseTrackLink};
use tracklog::db::tracks::{create_track_at, delete_track, get_track_by_id, update_track_at};
use tracklog::db::placement::assign_track_to_release_at;
use tracklog::db::validate::{validate_release_input, validate_track_input};
use tracklog::models::{ReleaseInput, Track, TrackInput};

fn track_input(code: &str, title: &str, status: &str) -> TrackInput {
    TrackInput {
        internal_code: code.to_string(),
        title: title.to_string(),
        status: status.to_string(),
        description: None,
        lyrics: None,
        notes: None,
        bpm: None,
        key: None,
    }
}

fn release_input(code: &str, title: &str, kind: &str, status: &str) -> ReleaseInput {
    ReleaseInput {
        internal_code: code.to_string(),
        title: title.to_string(),
        release_type: kind.to_string(),
        status: status.to_string(),
        description: None,
        image_path: None,
    }
}

#[test]
fn create_track_trims_and_numbers() {
    let mut db = Catalog::new();
    let mut input = track_input("  T-001 ", "  First Song  ", "Idea");
    input.description = Some("   ".to_string());
    input.notes = Some("  chorus needs work ".to_string());
    input.bpm = Some(120);
    let t = create_track_at(&mut db, input, "2024-01-01T00:00:00Z".to_string()).unwrap();
    assert_eq!(t.id, 1);
    assert_eq!(t.internal_code, "T-001");
    assert_eq!(t.title, "First Song");
    assert_eq!(t.description, None);
    assert_eq!(t.notes, Some("chorus needs work".to_string()));
    assert_eq!(t.bpm, Some(120));
    assert_eq!(t.created_at, "2024-01-01T00:00:00Z");
    assert_eq!(t.updated_at, "2024-01-01T00:00:00Z");
    let second = create_track_at(&mut db, track_input("T-002", "Second", "Draft"), "t2".to_string()).unwrap();
    assert_eq!(second.id, 2);
    assert_eq!(db.tracks.len(), 2);
}

#[test]
fn create_track_rejects_a_taken_code() {
    let mut db = Catalog::new();
    create_track_at(&mut db, track_input("T-001", "One", "Idea"), "t1".to_string()).unwrap();
    let r = create_track_at(&mut db, track_input(" T-001  ", "Two", "Idea"), "t2".to_string());
    assert_eq!(r.unwrap_err(), "Track Internal Code must be unique");
    assert_eq!(db.tracks.len(), 1);
}

#[test]
fn track_validation_messages() {
    assert_eq!(
        validate_track_input(&track_input("   ", "Title", "Idea")).unwrap_err(),
        "Internal Code is required"
    );
    assert_eq!(
        validate_track_input(&track_input("T-1", " ", "Idea")).unwrap_err(),
        "Title is required"
    );
    assert_eq!(
        validate_track_input(&track_input("T-1", "Title", "Done")).unwrap_err(),
        "Invalid Track status"
    );
    let mut bad_bpm = track_input("T-1", "Title", "Final");
    bad_bpm.bpm = Some(0);
    assert_eq!(validate_track_input(&bad_bpm).unwrap_err(), "BPM must be a positive integer");
    let mut ok = track_input("T-1", "Title", "In Progress");
    ok.bpm = Some(1);
    assert!(validate_track_input(&ok).is_ok());
    let mut db = Catalog::new();
    let r = create_track_at(&mut db, track_input("T-1", "Title", "Done"), "t".to_string());
    assert_eq!(r.unwrap_err(), "Invalid Track status");
    assert!(db.tracks.is_empty());
}

#[test]
fn release_validation_messages() {
    assert_eq!(
        validate_release_input(&release_input("", "Title", "Album", "Planned")).unwrap_err(),
        "Internal Code is required"
    );
    assert_eq!(
        validate_release_input(&release_input("R-1", "  ", "Album", "Planned")).unwrap_err(),
        "Title is required"
    );
    assert_eq!(
        validate_release_input(&release_input("R-1", "Title", "LP", "Planned")).unwrap_err(),
        "Invalid Release type"
    );
    assert_eq!(
        validate_release_input(&release_input("R-1", "Title", "EP", "Done")).unwrap_err(),
        "Invalid Release status"
    );
    assert!(validate_release_input(&release_input("R-1", "Title", "Single", "Released")).is_ok());
}

#[test]
fn update_track_keeps_creation_time() {
    let mut db = Catalog::new();
    create_track_at(&mut db, track_input("T-001", "One", "Idea"), "t1".to_string()).unwrap();
    create_track_at(&mut db, track_input("T-002", "Two", "Idea"), "t2".to_string()).unwrap();
    let mut edit = track_input("T-001", " One (edit) ", "Final");
    edit.key = Some(" A minor ".to_string());
    let t = update_track_at(&mut db, 1, edit, "t3".to_string()).unwrap();
    assert_eq!(t.title, "One (edit)");
    assert_eq!(t.status, "Final");
    assert_eq!(t.key, Some("A minor".to_string()));
    assert_eq!(t.created_at, "t1");
    assert_eq!(t.updated_at, "t3");
    let read: Track = get_track_by_id(&db, 1).unwrap();
    assert_eq!(read.title, "One (edit)");
    let taken = update_track_at(&mut db, 1, track_input("T-002", "One", "Idea"), "t4".to_string());
    assert_eq!(taken.unwrap_err(), "Track Internal Code must be unique");
    let missing = update_track_at(&mut db, 9, track_input("T-009", "Nine", "Idea"), "t4".to_string());
    assert_eq!(missing.unwrap_err(), "Track not found");
}

#[test]
fn delete_track_drops_its_place() {
    let mut db = Catalog::new();
    create_track_at(&mut db, track_input("T-001", "One", "Idea"), "t1".to_string()).unwrap();
    create_release_at(&mut db, release_input("R-001", "Album", "Album", "Planned"), "t1".to_string()).unwrap();
    assign_track_to_release_at(&mut db, 1, 1, "t2".to_string()).unwrap();
    assert_eq!(db.links.len(), 1);
    delete_track(&mut db, 1);
    assert!(get_track_by_id(&db, 1).is_none());
    assert!(db.links.is_empty());
    delete_track(&mut db, 1);
    assert!(db.tracks.is_empty());
}

#[test]
fn create_and_update_release() {
    let mut db = Catalog::new();
    let mut input = release_input(" R-001 ", " Debut ", "Album", "Planned");
    input.image_path = Some("  ".to_string());
    let r = create_release_at(&mut db, input, "t1".to_string()).unwrap();
    assert_eq!(r.id, 1);
    assert_eq!(r.internal_code, "R-001");
    assert_eq!(r.title, "Debut");
    assert_eq!(r.image_path, None);
    assert_eq!(r.track_count, Some(0));
    let dup = create_release_at(&mut db, release_input("R-001", "Other", "EP", "Planned"), "t2".to_string());
    assert_eq!(dup.unwrap_err(), "Release Internal Code must be unique");
    let edited = update_release_at(&mut db, 1, release_input("R-001", "Debut LP", "Album", "Released"), "t3".to_string()).unwrap();
    assert_eq!(edited.title, "Debut LP");
    assert_eq!(edited.status, "Released");
    assert_eq!(edited.created_at, "t1");
    assert_eq!(edited.updated_at, "t3");
    let missing = update_release_at(&mut db, 5, release_input("R-005", "X", "EP", "Planned"), "t4".to_string());
    assert_eq!(missing.unwrap_err(), "Release not found");
    assert!(get_release_by_id(&db, 5).is_none());
}

#[test]
fn delete_release_frees_its_tracks() {
    let mut db = Catalog::new();
    create_track_at(&mut db, track_input("T-001", "One", "Idea"), "t1".to_string()).unwrap();
    create_track_at(&mut db, track_input("T-002", "Two", "Idea"), "t1".to_string()).unwrap();
    let mut input = release_input("R-001", "Album", "Album", "Planned");
    input.image_path = Some("C:/img/r.png".to_string());
    create_release_at(&mut db, input, "t1".to_string()).unwrap();
    assign_track_to_release_at(&mut db, 1, 1, "t2".to_string()).unwrap();
    assign_track_to_release_at(&mut db, 2, 1, "t2".to_string()).unwrap();
    let image = delete_release(&mut db, 1);
    assert_eq!(image, Some("C:/img/r.png".to_string()));
    assert!(db.links.is_empty());
    assert_eq!(db.tracks.len(), 2);
    assert!(get_release_by_id(&db, 1).is_none());
    assert_eq!(delete_release(&mut db, 1), None);
}

#[test]
fn release_image_set_and_remove() {
    let mut db = Catalog::new();
    create_release_at(&mut db, release_input("R-001", "Album", "Album", "Planned"), "t1".to_string()).unwrap();
    let r = set_release_image_at(&mut db, 1, "/data/images/releases/R-001.png".to_string(), "t2".to_string()).unwrap();
    assert_eq!(r.image_path, Some("/data/images/releases/R-001.png".to_string()));
    assert_eq!(r.updated_at, "t2");
    let (r2, old) = remove_release_image_at(&mut db, 1, "t3".to_string()).unwrap();
    assert_eq!(r2.image_path, None);
    assert_eq!(r2.updated_at, "t3");
    assert_eq!(old, Some("/data/images/releases/R-001.png".to_string()));
    let missing = set_release_image_at(&mut db, 2, "x.png".to_string(), "t4".to_string());
    assert_eq!(missing.unwrap_err(), "Release not found");
    assert_eq!(remove_release_image_at(&mut db, 2, "t4".to_string()).unwrap_err(), "Release not found");
}

#[test]
fn image_to_discard_only_when_path_changes() {
    assert_eq!(release_image_to_discard(&Some("a.png".to_string()), "b.png"), Some("a.png".to_string()));
    assert_eq!(release_image_to_discard(&Some("a.png".to_string()), "a.png"), None);
    assert_eq!(release_image_to_discard(&None, "a.png"), None);
}

#[test]
fn from_rows_checks_consistency() {
    let t = Track {
        id: 1,
        internal_code: "T-1".to_string(),
        title: "One".to_string(),
        status: "Idea".to_string(),
        description: None,
        lyrics: None,
        notes: None,
        bpm: None,
        key: None,
        created_at: "t".to_string(),
        updated_at: "t".to_string(),
    };
    let r = ReleaseRecord {
        id: 1,
        internal_code: "R-1".to_string(),
        title: "Album".to_string(),
        release_type: "Album".to_string(),
        status: "Planned".to_string(),
        description: None,
        image_path: None,
        created_at: "t".to_string(),
        updated_at: "t".to_string(),
    };
    let dangling = ReleaseTrackLink { release_id: 1, track_id: 7, track_order: 1, created_at: "t".to_string() };
    let bad = Catalog::from_rows(vec![t.dup()], vec![r.dup()], vec![dangling]);
    assert_eq!(bad.unwrap_err(), "Catalog data is inconsistent");
    let good_link = ReleaseTrackLink { release_id: 1, track_id: 1, track_order: 1, created_at: "t".to_string() };
    let good = Catalog::from_rows(vec![t], vec![r], vec![good_link]).unwrap();
    assert_eq!(good.links.len(), 1);
}
